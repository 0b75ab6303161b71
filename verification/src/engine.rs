//! The ordering/dedup engine: turns the raw candidates gathered from the
//! three configuration sources into one ordered, duplicate-free list.

use vstd::prelude::*;

verus! {

/// Raw candidate emails gathered from the three configuration sources,
/// before any ordering or deduplication.
#[derive(Debug)]
pub struct GitEmailsConfig {
    /// `user.email` from the repository's own configuration, if set.
    pub local_email: Option<String>,
    /// `user.email` from the user-wide configuration, if set.
    pub global_email: Option<String>,
    /// Emails listed in the project's declarative file, in file order.
    pub local_emails: Vec<String>,
}

/// The entries contributed by the local/global pair: local first, then
/// global when it is present and differs; a shared value appears once.
pub open spec fn pair_entries(local: Option<Seq<char>>, global: Option<Seq<char>>) -> Seq<
    Seq<char>,
> {
    match (local, global) {
        (Some(l), Some(g)) => if l == g {
            seq![l]
        } else {
            seq![l, g]
        },
        (Some(l), None) => seq![l],
        (None, Some(g)) => seq![g],
        (None, None) => Seq::empty(),
    }
}

/// Appends the declared entries to `acc` in order, keeping only those not
/// already present; `acc` doubles as the set of emails seen so far.
pub open spec fn dedup_append(acc: Seq<Seq<char>>, declared: Seq<Seq<char>>) -> Seq<Seq<char>>
    decreases declared.len(),
{
    if declared.len() == 0 {
        acc
    } else if acc.contains(declared[0]) {
        dedup_append(acc, declared.drop_first())
    } else {
        dedup_append(acc.push(declared[0]), declared.drop_first())
    }
}

/// The whole precedence policy: the local/global pair first, then the
/// declared entries in file order, entries already emitted skipped.
pub open spec fn ordered_unique_emails(
    local: Option<Seq<char>>,
    global: Option<Seq<char>>,
    declared: Seq<Seq<char>>,
) -> Seq<Seq<char>> {
    dedup_append(pair_entries(local, global), declared)
}

/// No two entries of `s` are equal.
pub open spec fn no_dup(s: Seq<Seq<char>>) -> bool {
    forall|i: int, j: int| 0 <= i < j < s.len() ==> s[i] != s[j]
}

impl GitEmailsConfig {
    /// The ordered, duplicate-free candidate list this configuration yields.
    pub open spec fn candidates(self) -> Seq<Seq<char>> {
        ordered_unique_emails(
            self.local_email.deep_view(),
            self.global_email.deep_view(),
            self.local_emails.deep_view(),
        )
    }
}

/// Whether `v` holds a string equal to `x`.
fn vec_contains(v: &Vec<String>, x: &String) -> (r: bool)
    ensures
        r == v.deep_view().contains(x@),
{
    let mut i: usize = 0;
    while i < v.len()
        invariant
            i <= v.len(),
            forall|j: int| 0 <= j < i ==> v.deep_view()[j] != x@,
        decreases v.len() - i,
    {
        if v[i] == *x {
            assert(v.deep_view()[i as int] == x@);
            return true;
        }
        i += 1;
    }
    false
}

/// Returns the candidate emails in precedence order with duplicates
/// removed: the repository-local email first (if set), then the global
/// one (if set and distinct), then the declared entries in file order,
/// each email at most once.
pub fn get_unique_emails_ordered(emails: GitEmailsConfig) -> (r: Vec<String>)
    ensures
        r.deep_view() == emails.candidates(),
        no_dup(r.deep_view()),
{
    let ghost lv = emails.local_email.deep_view();
    let ghost gv = emails.global_email.deep_view();
    let ghost dv = emails.local_emails.deep_view();
    let GitEmailsConfig { local_email, global_email, local_emails } = emails;
    let mut all_emails: Vec<String> = Vec::new();
    match (local_email, global_email) {
        (Some(email), None) => {
            all_emails.push(email);
        },
        (None, Some(email)) => {
            all_emails.push(email);
        },
        (Some(local), Some(global)) => {
            if local == global {
                all_emails.push(local);
            } else {
                all_emails.push(local);
                all_emails.push(global);
            }
        },
        (None, None) => {},
    }
    assert(all_emails.deep_view() =~= pair_entries(lv, gv));
    let mut i: usize = 0;
    while i < local_emails.len()
        invariant
            i <= local_emails.len(),
            local_emails.deep_view() == dv,
            all_emails.deep_view() == dedup_append(pair_entries(lv, gv), dv.take(i as int)),
        decreases local_emails.len() - i,
    {
        let ghost prev = all_emails.deep_view();
        if !vec_contains(&all_emails, &local_emails[i]) {
            let email = local_emails[i].clone();
            all_emails.push(email);
            assert(all_emails.deep_view() =~= prev.push(dv[i as int]));
        }
        proof {
            lemma_dedup_append_take_step(pair_entries(lv, gv), dv, i as int);
        }
        i += 1;
    }
    assert(dv.take(local_emails.len() as int) =~= dv);
    proof {
        lemma_pair_entries_no_dup(lv, gv);
        lemma_dedup_append_no_dup(pair_entries(lv, gv), dv);
    }
    all_emails
}

/// Walking one more declared entry extends the accumulated list by that
/// entry exactly when it is not already present.
proof fn lemma_dedup_append_take_step(acc: Seq<Seq<char>>, declared: Seq<Seq<char>>, i: int)
    requires
        0 <= i < declared.len(),
    ensures
        dedup_append(acc, declared.take(i + 1)) == (if dedup_append(
            acc,
            declared.take(i),
        ).contains(declared[i]) {
            dedup_append(acc, declared.take(i))
        } else {
            dedup_append(acc, declared.take(i)).push(declared[i])
        }),
{
    assert(declared.take(i + 1) =~= declared.take(i).push(declared[i]));
    lemma_dedup_append_snoc(acc, declared.take(i), declared[i]);
}

/// Appending one entry at the end of the declared sequence appends it to
/// the result exactly when the result does not already hold it.
proof fn lemma_dedup_append_snoc(acc: Seq<Seq<char>>, declared: Seq<Seq<char>>, x: Seq<char>)
    ensures
        dedup_append(acc, declared.push(x)) == (if dedup_append(acc, declared).contains(x) {
            dedup_append(acc, declared)
        } else {
            dedup_append(acc, declared).push(x)
        }),
    decreases declared.len(),
{
    if declared.len() == 0 {
        assert(declared.push(x).drop_first() =~= Seq::<Seq<char>>::empty());
        assert(declared.push(x)[0] == x);
        if acc.contains(x) {
            assert(dedup_append(acc, declared.push(x)) == dedup_append(
                acc,
                declared.push(x).drop_first(),
            ));
        } else {
            assert(dedup_append(acc, declared.push(x)) == dedup_append(
                acc.push(x),
                declared.push(x).drop_first(),
            ));
        }
    } else {
        assert(declared.push(x)[0] == declared[0]);
        assert(declared.push(x).drop_first() =~= declared.drop_first().push(x));
        if acc.contains(declared[0]) {
            assert(dedup_append(acc, declared.push(x)) == dedup_append(
                acc,
                declared.drop_first().push(x),
            ));
            lemma_dedup_append_snoc(acc, declared.drop_first(), x);
        } else {
            assert(dedup_append(acc, declared.push(x)) == dedup_append(
                acc.push(declared[0]),
                declared.drop_first().push(x),
            ));
            lemma_dedup_append_snoc(acc.push(declared[0]), declared.drop_first(), x);
        }
    }
}

/// The declared entries that survive deduplication against `seen`: the
/// first occurrence of each entry not in `seen`, in file order.
pub open spec fn dedup_filter(seen: Seq<Seq<char>>, declared: Seq<Seq<char>>) -> Seq<Seq<char>>
    decreases declared.len(),
{
    if declared.len() == 0 {
        Seq::empty()
    } else if seen.contains(declared[0]) {
        dedup_filter(seen, declared.drop_first())
    } else {
        seq![declared[0]] + dedup_filter(seen.push(declared[0]), declared.drop_first())
    }
}

/// `a` occurs inside `b` in order, possibly with gaps.
pub open spec fn is_subseq_of(a: Seq<Seq<char>>, b: Seq<Seq<char>>) -> bool
    decreases b.len(), a.len(),
{
    if a.len() == 0 {
        true
    } else if b.len() == 0 {
        false
    } else if a[0] == b[0] {
        is_subseq_of(a.drop_first(), b.drop_first())
    } else {
        is_subseq_of(a, b.drop_first())
    }
}

/// A subsequence stays one after its own first entry is dropped.
proof fn lemma_subseq_drop_first(a: Seq<Seq<char>>, b: Seq<Seq<char>>)
    requires
        is_subseq_of(a, b),
        a.len() > 0,
    ensures
        is_subseq_of(a.drop_first(), b),
    decreases b.len(), 1int,
{
    if b.len() == 0 {
        // is_subseq_of(a, b) is false here, so there is nothing to show
    } else if a[0] == b[0] {
        lemma_subseq_cons(a.drop_first(), b);
    } else {
        lemma_subseq_drop_first(a, b.drop_first());
        lemma_subseq_cons(a.drop_first(), b);
    }
}

/// A subsequence of `b` without its first entry is a subsequence of `b`.
proof fn lemma_subseq_cons(a: Seq<Seq<char>>, b: Seq<Seq<char>>)
    requires
        is_subseq_of(a, b.drop_first()),
        b.len() > 0,
    ensures
        is_subseq_of(a, b),
    decreases b.len(), 0int,
{
    if a.len() == 0 {
    } else if a[0] == b[0] {
        lemma_subseq_drop_first(a, b.drop_first());
    } else {
    }
}

/// What survives the dedup filter keeps the declared file order.
proof fn lemma_dedup_filter_subseq(seen: Seq<Seq<char>>, declared: Seq<Seq<char>>)
    ensures
        is_subseq_of(dedup_filter(seen, declared), declared),
    decreases declared.len(),
{
    if declared.len() == 0 {
    } else if seen.contains(declared[0]) {
        lemma_dedup_filter_subseq(seen, declared.drop_first());
        lemma_subseq_cons(dedup_filter(seen, declared.drop_first()), declared);
    } else {
        let rest = dedup_filter(seen.push(declared[0]), declared.drop_first());
        lemma_dedup_filter_subseq(seen.push(declared[0]), declared.drop_first());
        let whole = seq![declared[0]] + rest;
        assert(whole[0] == declared[0]);
        assert(whole.drop_first() =~= rest);
    }
}

/// Nothing already seen survives the dedup filter.
proof fn lemma_dedup_filter_excludes(seen: Seq<Seq<char>>, declared: Seq<Seq<char>>, x: Seq<char>)
    requires
        seen.contains(x),
    ensures
        !dedup_filter(seen, declared).contains(x),
    decreases declared.len(),
{
    if declared.len() == 0 {
    } else if seen.contains(declared[0]) {
        lemma_dedup_filter_excludes(seen, declared.drop_first(), x);
    } else {
        let rest = dedup_filter(seen.push(declared[0]), declared.drop_first());
        assert(seen.push(declared[0]).contains(x)) by {
            let i = choose|i: int| 0 <= i < seen.len() && seen[i] == x;
            assert(seen.push(declared[0])[i] == x);
        }
        lemma_dedup_filter_excludes(seen.push(declared[0]), declared.drop_first(), x);
        let whole = seq![declared[0]] + rest;
        assert(!whole.contains(x)) by {
            if whole.contains(x) {
                let i = choose|i: int| 0 <= i < whole.len() && whole[i] == x;
                if i == 0 {
                    assert(whole[0] == declared[0]);
                } else {
                    assert(whole[i] == rest[i - 1]);
                    assert(rest.contains(x));
                }
            }
        }
    }
}

/// Walking the declared entries appends exactly the deduplicated
/// remainder after what was already emitted.
proof fn lemma_dedup_append_is_filter(acc: Seq<Seq<char>>, declared: Seq<Seq<char>>)
    ensures
        dedup_append(acc, declared) == acc + dedup_filter(acc, declared),
    decreases declared.len(),
{
    if declared.len() == 0 {
        assert(acc + Seq::<Seq<char>>::empty() =~= acc);
    } else if acc.contains(declared[0]) {
        lemma_dedup_append_is_filter(acc, declared.drop_first());
    } else {
        lemma_dedup_append_is_filter(acc.push(declared[0]), declared.drop_first());
        assert(acc + (seq![declared[0]] + dedup_filter(
            acc.push(declared[0]),
            declared.drop_first(),
        )) =~= acc.push(declared[0]) + dedup_filter(acc.push(declared[0]), declared.drop_first()));
    }
}

/// The local/global pair never contributes a duplicate.
proof fn lemma_pair_entries_no_dup(local: Option<Seq<char>>, global: Option<Seq<char>>)
    ensures
        no_dup(pair_entries(local, global)),
{
}

/// Skipping entries already present keeps the list duplicate-free.
proof fn lemma_dedup_append_no_dup(acc: Seq<Seq<char>>, declared: Seq<Seq<char>>)
    requires
        no_dup(acc),
    ensures
        no_dup(dedup_append(acc, declared)),
    decreases declared.len(),
{
    if declared.len() == 0 {
    } else if acc.contains(declared[0]) {
        lemma_dedup_append_no_dup(acc, declared.drop_first());
    } else {
        assert(no_dup(acc.push(declared[0]))) by {
            assert(forall|i: int| 0 <= i < acc.len() ==> acc.push(declared[0])[i] == acc[i]);
        }
        lemma_dedup_append_no_dup(acc.push(declared[0]), declared.drop_first());
    }
}

/// The candidate list never holds the same email twice.
pub proof fn lemma_output_no_duplicates(
    local: Option<Seq<char>>,
    global: Option<Seq<char>>,
    declared: Seq<Seq<char>>,
)
    ensures
        no_dup(ordered_unique_emails(local, global, declared)),
{
    lemma_pair_entries_no_dup(local, global);
    lemma_dedup_append_no_dup(pair_entries(local, global), declared);
}

/// When local and global agree on an email, it is the first entry of the
/// candidate list and no later entry repeats it.
pub proof fn lemma_shared_pair_first(email: Seq<char>, declared: Seq<Seq<char>>)
    ensures
        ({
            let out = ordered_unique_emails(Some(email), Some(email), declared);
            &&& out.len() >= 1
            &&& out[0] == email
            &&& forall|i: int| 1 <= i < out.len() ==> out[i] != email
        }),
{
    let pair = pair_entries(Some(email), Some(email));
    let out = ordered_unique_emails(Some(email), Some(email), declared);
    lemma_dedup_append_is_filter(pair, declared);
    assert(out[0] == email);
    lemma_output_no_duplicates(Some(email), Some(email), declared);
    assert forall|i: int| 1 <= i < out.len() implies out[i] != email by {
        assert(out[0] != out[i]);
    }
}

/// When local and global are both present and differ, the candidate list
/// starts with local, then global.
pub proof fn lemma_distinct_pair_first(local: Seq<char>, global: Seq<char>, declared: Seq<
    Seq<char>,
>)
    requires
        local != global,
    ensures
        ({
            let out = ordered_unique_emails(Some(local), Some(global), declared);
            &&& out.len() >= 2
            &&& out[0] == local
            &&& out[1] == global
        }),
{
    lemma_dedup_append_is_filter(pair_entries(Some(local), Some(global)), declared);
}

/// Declared entries already contributed by the local/global pair never
/// reappear, and the surviving declared entries keep their file order:
/// the candidate list is the pair followed by a subsequence of the
/// declared list that holds no email of the pair.
pub proof fn lemma_declared_order_and_dedup(
    local: Option<Seq<char>>,
    global: Option<Seq<char>>,
    declared: Seq<Seq<char>>,
)
    ensures
        ({
            let pair = pair_entries(local, global);
            let tail = dedup_filter(pair, declared);
            &&& ordered_unique_emails(local, global, declared) == pair + tail
            &&& forall|x: Seq<char>| pair.contains(x) ==> !tail.contains(x)
            &&& is_subseq_of(tail, declared)
        }),
{
    let pair = pair_entries(local, global);
    lemma_dedup_append_is_filter(pair, declared);
    lemma_dedup_filter_subseq(pair, declared);
    assert forall|x: Seq<char>| pair.contains(x) implies !dedup_filter(
        pair,
        declared,
    ).contains(x) by {
        lemma_dedup_filter_excludes(pair, declared, x);
    }
}

/// The engine is deterministic: configurations holding the same emails
/// yield the same candidate list, so running it twice on the same raw
/// candidates gives identical results.
pub proof fn lemma_engine_deterministic(a: GitEmailsConfig, b: GitEmailsConfig)
    requires
        a.local_email.deep_view() == b.local_email.deep_view(),
        a.global_email.deep_view() == b.global_email.deep_view(),
        a.local_emails.deep_view() == b.local_emails.deep_view(),
    ensures
        a.candidates() == b.candidates(),
{
}

/// Whether the candidate list is worth an interactive prompt: with fewer
/// than two entries there is nothing to choose.
pub fn should_prompt(candidates: &Vec<String>) -> (r: bool)
    ensures
        r == (candidates@.len() >= 2),
{
    candidates.len() >= 2
}

/// The entry a selection picks: the candidate at `choice`, or `None`
/// when the index is out of range.
pub fn selected_email(candidates: &Vec<String>, choice: usize) -> (r: Option<String>)
    ensures
        match r {
            Some(email) => choice < candidates@.len() && email@ == candidates.deep_view()[
                choice as int
            ],
            None => choice >= candidates@.len(),
        },
{
    if choice < candidates.len() {
        Some(candidates[choice].clone())
    } else {
        None
    }
}

} // verus!
