use git_emails::engine::{get_unique_emails_ordered, selected_email, should_prompt, GitEmailsConfig};
use git_emails::sources::{collect_candidates, SourceError};

#[test]
fn local_only_no_prompt() {
    let config = GitEmailsConfig {
        local_email: Some("a@x.com".to_string()),
        global_email: None,
        local_emails: vec![],
    };
    let out = get_unique_emails_ordered(config);
    assert_eq!(out, vec!["a@x.com".to_string()]);
    assert!(!should_prompt(&out));
}

#[test]
fn global_only() {
    let config = GitEmailsConfig {
        local_email: None,
        global_email: Some("b@x.com".to_string()),
        local_emails: vec![],
    };
    let out = get_unique_emails_ordered(config);
    assert_eq!(out, vec!["b@x.com".to_string()]);
}

#[test]
fn all_three_sources_distinct() {
    let config = GitEmailsConfig {
        local_email: Some("a@x.com".to_string()),
        global_email: Some("b@x.com".to_string()),
        local_emails: vec!["c@x.com".to_string()],
    };
    let out = get_unique_emails_ordered(config);
    assert_eq!(
        out,
        vec![
            "a@x.com".to_string(),
            "b@x.com".to_string(),
            "c@x.com".to_string()
        ]
    );
    assert!(should_prompt(&out));
    assert_eq!(selected_email(&out, 0), Some("a@x.com".to_string()));
}

#[test]
fn declared_duplicates_collapse() {
    let config = GitEmailsConfig {
        local_email: None,
        global_email: None,
        local_emails: vec![
            "a@x.com".to_string(),
            "a@x.com".to_string(),
            "b@x.com".to_string(),
        ],
    };
    let out = get_unique_emails_ordered(config);
    assert_eq!(out, vec!["a@x.com".to_string(), "b@x.com".to_string()]);
}

#[test]
fn equal_pair_collapses_and_declared_skips_seen() {
    let config = GitEmailsConfig {
        local_email: Some("a@x.com".to_string()),
        global_email: Some("a@x.com".to_string()),
        local_emails: vec!["a@x.com".to_string(), "b@x.com".to_string()],
    };
    let out = get_unique_emails_ordered(config);
    assert_eq!(out, vec!["a@x.com".to_string(), "b@x.com".to_string()]);
}

#[test]
fn all_sources_empty() {
    let config = GitEmailsConfig {
        local_email: None,
        global_email: None,
        local_emails: vec![],
    };
    let out = get_unique_emails_ordered(config);
    assert!(out.is_empty());
    assert!(!should_prompt(&out));
}

#[test]
fn empty_string_is_a_candidate() {
    let config = GitEmailsConfig {
        local_email: Some(String::new()),
        global_email: Some("b@x.com".to_string()),
        local_emails: vec![],
    };
    let out = get_unique_emails_ordered(config);
    assert_eq!(out, vec![String::new(), "b@x.com".to_string()]);
}

#[test]
fn output_never_holds_duplicates() {
    let config = GitEmailsConfig {
        local_email: Some("a@x.com".to_string()),
        global_email: Some("b@x.com".to_string()),
        local_emails: vec![
            "b@x.com".to_string(),
            "c@x.com".to_string(),
            "a@x.com".to_string(),
            "c@x.com".to_string(),
        ],
    };
    let out = get_unique_emails_ordered(config);
    assert_eq!(
        out,
        vec![
            "a@x.com".to_string(),
            "b@x.com".to_string(),
            "c@x.com".to_string()
        ]
    );
    for i in 0..out.len() {
        for j in (i + 1)..out.len() {
            assert_ne!(out[i], out[j]);
        }
    }
}

#[test]
fn engine_is_deterministic() {
    let make = || GitEmailsConfig {
        local_email: Some("a@x.com".to_string()),
        global_email: Some("b@x.com".to_string()),
        local_emails: vec!["c@x.com".to_string(), "a@x.com".to_string()],
    };
    let first = get_unique_emails_ordered(make());
    let second = get_unique_emails_ordered(make());
    assert_eq!(first, second);
}

#[test]
fn selection_out_of_range_is_none() {
    let out = vec!["a@x.com".to_string(), "b@x.com".to_string()];
    assert_eq!(selected_email(&out, 1), Some("b@x.com".to_string()));
    assert_eq!(selected_email(&out, 2), None);
}

#[test]
fn absent_declarative_file_yields_empty_list() {
    let config = collect_candidates(Some("a@x.com".to_string()), None, None)
        .expect("absence of the declarative file is not an error");
    assert_eq!(config.local_email, Some("a@x.com".to_string()));
    assert_eq!(config.global_email, None);
    assert!(config.local_emails.is_empty());
}

#[test]
fn declarative_file_parsed_in_order() {
    let text = "emails = [\"c@x.com\", \"a@x.com\"]\n".to_string();
    let config = collect_candidates(None, Some("b@x.com".to_string()), Some(text))
        .expect("well-formed declarative file");
    assert_eq!(
        config.local_emails,
        vec!["c@x.com".to_string(), "a@x.com".to_string()]
    );
    assert_eq!(config.global_email, Some("b@x.com".to_string()));
}

#[test]
fn declarative_file_extra_keys_ignored() {
    let text = "other = 3\nemails = [\"a@x.com\"]\n".to_string();
    let config = collect_candidates(None, None, Some(text)).expect("extra keys are ignored");
    assert_eq!(config.local_emails, vec!["a@x.com".to_string()]);
}

#[test]
fn declarative_file_empty_list() {
    let config = collect_candidates(None, None, Some("emails = []\n".to_string()))
        .expect("an empty list is well-formed");
    assert!(config.local_emails.is_empty());
}

#[test]
fn malformed_declarative_file_is_fatal() {
    let result = collect_candidates(None, None, Some("emails = [".to_string()));
    let SourceError::MalformedDeclaration(message) =
        result.expect_err("unclosed list must not parse");
    assert!(!message.is_empty());
}

#[test]
fn declarative_file_missing_emails_key_is_fatal() {
    let result = collect_candidates(None, None, Some("other = 1\n".to_string()));
    let SourceError::MalformedDeclaration(message) =
        result.expect_err("the emails key is required");
    assert_eq!(message, "missing field `emails`");
}

#[test]
fn declarative_file_wrong_type_is_fatal() {
    let result = collect_candidates(None, None, Some("emails = \"a@x.com\"\n".to_string()));
    assert!(matches!(result, Err(SourceError::MalformedDeclaration(_))));
    let result = collect_candidates(None, None, Some("emails = [1, 2]\n".to_string()));
    assert!(matches!(result, Err(SourceError::MalformedDeclaration(_))));
}

#[test]
fn collected_candidates_feed_the_engine() {
    let text = "emails = [\"a@x.com\", \"c@x.com\"]\n".to_string();
    let config = collect_candidates(
        Some("a@x.com".to_string()),
        Some("b@x.com".to_string()),
        Some(text),
    )
    .expect("well-formed declarative file");
    let out = get_unique_emails_ordered(config);
    assert_eq!(
        out,
        vec![
            "a@x.com".to_string(),
            "b@x.com".to_string(),
            "c@x.com".to_string()
        ]
    );
}
