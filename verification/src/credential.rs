//! Validation outcomes, and the fail-closed triage of credential bundles.
use vstd::prelude::*;
use crate::text::{count_char, count_of, trim, trim_chars};

verus! {

/// The outcome of validating a credential or a signed calculation event.
#[derive(Debug)]
pub struct ValidationSummary {
    pub valid: bool,
    pub kind: String,
    pub issuer_trusted: bool,
    pub holder_bound: bool,
    pub reason: String,
}

pub struct SummaryView {
    pub valid: bool,
    pub kind: Seq<char>,
    pub issuer_trusted: bool,
    pub holder_bound: bool,
    pub reason: Seq<char>,
}

impl View for ValidationSummary {
    type V = SummaryView;

    open spec fn view(&self) -> SummaryView {
        SummaryView {
            valid: self.valid,
            kind: self.kind@,
            issuer_trusted: self.issuer_trusted,
            holder_bound: self.holder_bound,
            reason: self.reason@,
        }
    }
}

pub open spec fn local_event_summary(reason: Seq<char>) -> SummaryView {
    SummaryView {
        valid: true,
        kind: "local-jws-calculation"@,
        issuer_trusted: true,
        holder_bound: true,
        reason,
    }
}

pub open spec fn unsupported_summary(kind: Seq<char>, reason: Seq<char>) -> SummaryView {
    SummaryView { valid: false, kind, issuer_trusted: false, holder_bound: false, reason }
}

impl ValidationSummary {
    /// A verified local calculation event: valid, trusted and holder-bound.
    pub fn local_event_valid(reason: String) -> (s: Self)
        ensures
            s@ == local_event_summary(reason@),
    {
        ValidationSummary {
            valid: true,
            kind: "local-jws-calculation".to_owned(),
            issuer_trusted: true,
            holder_bound: true,
            reason,
        }
    }

    /// An input of `kind` that is not accepted, with the reason why.
    pub fn unsupported(kind: &str, reason: String) -> (s: Self)
        ensures
            s@ == unsupported_summary(kind@, reason@),
    {
        ValidationSummary {
            valid: false,
            kind: kind.to_owned(),
            issuer_trusted: false,
            holder_bound: false,
            reason,
        }
    }

    pub fn duplicate(&self) -> (r: Self)
        ensures
            r@ == self@,
    {
        ValidationSummary {
            valid: self.valid,
            kind: self.kind.clone(),
            issuer_trusted: self.issuer_trusted,
            holder_bound: self.holder_bound,
            reason: self.reason.clone(),
        }
    }
}

/// How a credential bundle is classified: empty, a JSON credential, a compact
/// JOSE token (at least two dots), or unknown. None of them is accepted yet.
pub open spec fn credential_summary(payload: Seq<char>) -> SummaryView {
    let t = trim(payload);
    if t.len() == 0 {
        unsupported_summary("empty"@, "No credential payload was provided"@)
    } else if t[0] == '{' {
        unsupported_summary(
            "json-credential"@,
            "JWE/JWT/SD-JWT parsing is intentionally fail-closed until issuer trust configuration is added"@,
        )
    } else if count_char(t, '.') >= 2 {
        unsupported_summary(
            "compact-jose"@,
            "Compact JOSE payload detected, but issuer trust and key resolution are not configured yet"@,
        )
    } else {
        unsupported_summary("unknown"@, "Unsupported credential envelope format"@)
    }
}

proof fn lemma_count_char_at_least_one(s: Seq<char>, c: char, i: int)
    requires
        0 <= i < s.len(),
        s[i] == c,
    ensures
        count_char(s, c) >= 1,
    decreases s.len(),
{
    if i < s.len() - 1 {
        assert(s.drop_last()[i] == c);
        lemma_count_char_at_least_one(s.drop_last(), c, i);
    }
}

proof fn lemma_count_char_at_least_two(s: Seq<char>, c: char, i: int, j: int)
    requires
        0 <= i < j < s.len(),
        s[i] == c,
        s[j] == c,
    ensures
        count_char(s, c) >= 2,
    decreases s.len(),
{
    let t = s.drop_last();
    assert(t[i] == c);
    if j == s.len() - 1 {
        lemma_count_char_at_least_one(t, c, i);
    } else {
        assert(t[j] == c);
        lemma_count_char_at_least_two(t, c, i, j);
    }
}

/// A bundle whose trimmed text is not JSON and holds two dots anywhere (so
/// three or more JOSE segments: a JWS, a five-part JWE, an SD-JWT) is taken
/// for a compact JOSE token, and still refused.
pub proof fn lemma_dotted_bundle_is_compact_jose(payload: Seq<char>, i: int, j: int)
    requires
        trim(payload).len() > 0,
        trim(payload)[0] != '{',
        0 <= i < j < trim(payload).len(),
        trim(payload)[i] == '.',
        trim(payload)[j] == '.',
    ensures
        credential_summary(payload).kind == "compact-jose"@,
        !credential_summary(payload).valid,
{
    lemma_count_char_at_least_two(trim(payload), '.', i, j);
}

/// Classify a credential bundle. Every bundle is refused (fail-closed): the
/// summary is never valid.
pub fn validate_credential_bundle(payload: &str) -> (s: ValidationSummary)
    ensures
        s@ == credential_summary(payload@),
        !s.valid,
{
    let t = trim_chars(payload);
    if t.len() == 0 {
        ValidationSummary::unsupported("empty", "No credential payload was provided".to_owned())
    } else if t[0] == '{' {
        ValidationSummary::unsupported(
            "json-credential",
            "JWE/JWT/SD-JWT parsing is intentionally fail-closed until issuer trust configuration is added".to_owned(),
        )
    } else if count_of(&t, '.') >= 2 {
        ValidationSummary::unsupported(
            "compact-jose",
            "Compact JOSE payload detected, but issuer trust and key resolution are not configured yet".to_owned(),
        )
    } else {
        ValidationSummary::unsupported(
            "unknown",
            "Unsupported credential envelope format".to_owned(),
        )
    }
}

} // verus!
