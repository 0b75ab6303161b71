//! Gathering the raw candidates from plain configuration values, and
//! the parse of the project's declarative email file.

use vstd::prelude::*;
use crate::engine::GitEmailsConfig;

verus! {

/// What reading one key of a TOML document as a list of strings yields:
/// `None` when the text is not a TOML document or the key's value is
/// not a list of strings; `Some(None)` when the document parses but
/// lacks the key; `Some(Some(list))` otherwise.  The outcome depends on
/// the text and the key alone.
pub uninterp spec fn toml_string_list_of(text: Seq<char>, key: Seq<char>) -> Option<
    Option<Seq<Seq<char>>>,
>;

/// Relies on toml::from_str and toml::Value::try_into: parsing a TOML
/// document and reading one of its keys as a list of strings depend on
/// the document's text and the key alone.
#[verifier::external_body]
fn toml_string_list(text: &str, key: &str) -> (r: Result<Option<Vec<String>>, String>)
    ensures
        match r {
            Ok(Some(list)) => toml_string_list_of(text@, key@) == Some(Some(list.deep_view())),
            Ok(None) => toml_string_list_of(text@, key@) == Some(None::<Seq<Seq<char>>>),
            Err(_) => toml_string_list_of(text@, key@) is None,
        },
{
    let mut doc: toml::Table = match toml::from_str(text) {
        Ok(doc) => doc,
        Err(err) => return Err(err.to_string()),
    };
    match doc.remove(key) {
        None => Ok(None),
        Some(value) => match value.try_into() {
            Ok(list) => Ok(Some(list)),
            Err(err) => Err(err.to_string()),
        },
    }
}

/// Why gathering the candidates failed.
#[derive(Debug)]
pub enum SourceError {
    /// The declarative file is present but does not parse as a TOML
    /// document whose `emails` key holds a list of strings.  Carries a
    /// diagnostic identifying the parse failure.
    MalformedDeclaration(String),
}

/// The declared list a declarative file yields: an absent file yields
/// the empty list; a present file must parse as a TOML document whose
/// `emails` key holds a list of strings, and yields that list.
pub open spec fn declared_emails(file_text: Option<Seq<char>>) -> Option<Seq<Seq<char>>> {
    match file_text {
        None => Some(Seq::<Seq<char>>::empty()),
        Some(text) => match toml_string_list_of(text, "emails"@) {
            Some(Some(list)) => Some(list),
            _ => None,
        },
    }
}

/// Builds the raw candidate record from the three sources' plain
/// values: the two optional configuration emails as read, and the
/// declared list parsed from the declarative file's text when one is
/// present.  Fails exactly when a present declarative text is malformed
/// (not a TOML document with an `emails` list of strings).
pub fn collect_candidates(
    local_email: Option<String>,
    global_email: Option<String>,
    declared_text: Option<String>,
) -> (r: Result<GitEmailsConfig, SourceError>)
    ensures
        r is Ok <==> declared_emails(declared_text.deep_view()) is Some,
        r matches Ok(config) ==> {
            &&& config.local_email.deep_view() == local_email.deep_view()
            &&& config.global_email.deep_view() == global_email.deep_view()
            &&& Some(config.local_emails.deep_view()) == declared_emails(
                declared_text.deep_view(),
            )
        },
{
    let local_emails: Vec<String> = match declared_text {
        None => {
            let empty: Vec<String> = Vec::new();
            assert(empty.deep_view() =~= Seq::<Seq<char>>::empty());
            empty
        },
        Some(text) => match toml_string_list(text.as_str(), "emails") {
            Ok(Some(list)) => list,
            Ok(None) => {
                return Err(
                    SourceError::MalformedDeclaration(String::from_str("missing field `emails`")),
                );
            },
            Err(message) => {
                return Err(SourceError::MalformedDeclaration(message));
            },
        },
    };
    Ok(GitEmailsConfig { local_email, global_email, local_emails })
}

} // verus!
