//! Wall-clock timestamps (RFC 3339, UTC) from the `time` crate.
use vstd::prelude::*;

verus! {

#[verifier::external_type_specification]
#[verifier::external_body]
pub struct ExOffsetDateTime(time::OffsetDateTime);

#[verifier::external_type_specification]
#[verifier::external_body]
pub struct ExTimeFormatError(time::error::Format);

/// `time::OffsetDateTime::now_utc`: the current time; nothing is claimed
/// about it, since it depends on the clock.
#[verifier::external_body]
fn utc_now() -> time::OffsetDateTime {
    time::OffsetDateTime::now_utc()
}

pub open spec fn is_ascii_digit(c: char) -> bool {
    '0' <= c <= '9'
}

/// `YYYY-MM-DDTHH:MM:SS` in the first nineteen characters.
pub open spec fn has_rfc3339_date_time(s: Seq<char>) -> bool {
    &&& s.len() >= 19
    &&& s[4] == '-' && s[7] == '-' && s[10] == 'T' && s[13] == ':' && s[16] == ':'
    &&& forall|i: int|
        0 <= i < 19 && i != 4 && i != 7 && i != 10 && i != 13 && i != 16 ==> #[trigger] is_ascii_digit(
            s[i],
        )
}

/// Empty, or a point followed by one to nine digits.
pub open spec fn is_rfc3339_fraction(f: Seq<char>) -> bool {
    ||| f.len() == 0
    ||| {
        &&& 2 <= f.len() <= 10
        &&& f[0] == '.'
        &&& forall|i: int| 1 <= i < f.len() ==> #[trigger] is_ascii_digit(f[i])
    }
}

/// `Z`, or a sign followed by `HH:MM`.
pub open spec fn is_rfc3339_offset(o: Seq<char>) -> bool {
    ||| o =~= seq!['Z']
    ||| {
        &&& o.len() == 6
        &&& o[0] == '+' || o[0] == '-'
        &&& is_ascii_digit(o[1]) && is_ascii_digit(o[2])
        &&& o[3] == ':'
        &&& is_ascii_digit(o[4]) && is_ascii_digit(o[5])
    }
}

/// Where the offset begins: the last character for `Z`, else six from the end.
pub open spec fn rfc3339_offset_start(s: Seq<char>) -> int {
    if s.len() > 0 && s.last() == 'Z' {
        s.len() - 1
    } else {
        s.len() - 6
    }
}

/// An RFC 3339 timestamp: date and time, optional fraction of a second, offset.
pub open spec fn is_rfc3339_timestamp(s: Seq<char>) -> bool {
    let k = rfc3339_offset_start(s);
    &&& has_rfc3339_date_time(s)
    &&& 19 <= k <= s.len()
    &&& is_rfc3339_fraction(s.subrange(19, k))
    &&& is_rfc3339_offset(s.subrange(k, s.len() as int))
}

/// `time::OffsetDateTime::format` with the RFC 3339 description. Its source
/// writes a four-digit year, `-`, two-digit month, `-`, two-digit day, `T`,
/// `HH:MM:SS`, a fraction of one to nine digits only when the nanoseconds are
/// not zero, then `Z` for a UTC offset or `+HH:MM` / `-HH:MM`; so any text it
/// returns has that shape. Which instant it names, and when it fails (a year
/// outside 0..=9999, an offset with seconds), depends on the value, which Verus
/// cannot see into, so that is left unsaid.
#[verifier::external_body]
fn format_rfc3339(t: time::OffsetDateTime) -> (r: Result<String, time::error::Format>)
    ensures
        r matches Ok(s) ==> is_rfc3339_timestamp(s@),
{
    t.format(&time::format_description::well_known::Rfc3339)
}

pub open spec fn epoch_iso() -> Seq<char> {
    "1970-01-01T00:00:00Z"@
}

/// The current UTC time in RFC 3339 form, or the Unix epoch when the clock
/// value cannot be formatted.
pub fn now_iso() -> (r: String)
    ensures
        is_rfc3339_timestamp(r@),
{
    match format_rfc3339(utc_now()) {
        Ok(text) => text,
        Err(_) => {
            let epoch = "1970-01-01T00:00:00Z";
            proof {
                reveal_strlit("1970-01-01T00:00:00Z");
                lemma_epoch_is_rfc3339();
            }
            epoch.to_owned()
        },
    }
}

/// The Unix epoch text is itself an RFC 3339 timestamp.
proof fn lemma_epoch_is_rfc3339()
    ensures
        is_rfc3339_timestamp(epoch_iso()),
{
    reveal_strlit("1970-01-01T00:00:00Z");
    let s = epoch_iso();
    assert(s.len() == 20);
    assert(s.last() == 'Z');
    assert(s.subrange(19, 19).len() == 0);
    assert(s.subrange(19, 20) =~= seq!['Z']);
    assert forall|i: int|
        0 <= i < 19 && i != 4 && i != 7 && i != 10 && i != 13 && i != 16 implies #[trigger] is_ascii_digit(
        s[i],
    ) by {}
}

} // verus!
