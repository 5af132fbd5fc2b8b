//! Fresh identifiers from random UUIDs (`uuid` v4): room join codes and
//! calculation event ids.
use vstd::prelude::*;
use crate::event::CalculationEntry;
use crate::text::{chars_of, push_char};

verus! {

pub open spec fn is_lower_hex(c: char) -> bool {
    ('0' <= c && c <= '9') || ('a' <= c && c <= 'f')
}

/// The positions of the hyphens in a hyphenated UUID.
pub open spec fn is_uuid_hyphen_position(i: int) -> bool {
    i == 8 || i == 13 || i == 18 || i == 23
}

/// The text form of a UUID: 36 characters, lowercase hex digits with hyphens
/// at positions 8, 13, 18 and 23.
pub open spec fn is_uuid_text(s: Seq<char>) -> bool {
    &&& s.len() == 36
    &&& forall|i: int|
        0 <= i < 36 ==> if is_uuid_hyphen_position(i) {
            #[trigger] s[i] == '-'
        } else {
            is_lower_hex(s[i])
        }
}

/// `Uuid::new_v4().simple().to_string()`: random, so only its documented form
/// is claimed, 32 lowercase hexadecimal digits.
#[verifier::external_body]
fn random_simple_uuid() -> (s: String)
    ensures
        s@.len() == 32,
        forall|i: int| 0 <= i < 32 ==> is_lower_hex(#[trigger] s@[i]),
{
    uuid::Uuid::new_v4().simple().to_string()
}

/// `Uuid::new_v4().to_string()`: random, so only its documented hyphenated
/// lowercase form is claimed.
#[verifier::external_body]
fn random_uuid_text() -> (s: String)
    ensures
        is_uuid_text(s@),
{
    uuid::Uuid::new_v4().to_string()
}

/// A room join code: `r-` and six lowercase hex digits. Short on purpose, it
/// rides the advertisement local name and is typed by hand on the guest.
pub open spec fn is_room_code(id: Seq<char>) -> bool {
    &&& id.len() == 8
    &&& id[0] == 'r'
    &&& id[1] == '-'
    &&& forall|i: int| 2 <= i < 8 ==> is_lower_hex(#[trigger] id[i])
}

/// A fresh random room join code.
pub fn new_room_code() -> (id: String)
    ensures
        is_room_code(id@),
{
    let token = chars_of(random_simple_uuid().as_str());
    let mut id = String::new();
    push_char(&mut id, 'r');
    push_char(&mut id, '-');
    let mut i: usize = 0;
    while i < 6
        invariant
            i <= 6,
            token@.len() == 32,
            forall|k: int| 0 <= k < 32 ==> is_lower_hex(#[trigger] token@[k]),
            id@.len() == 2 + i,
            id@[0] == 'r',
            id@[1] == '-',
            forall|k: int| 2 <= k < 2 + i ==> is_lower_hex(#[trigger] id@[k]),
        decreases 6 - i,
    {
        let c = token[i];
        assert(is_lower_hex(token@[i as int]));
        push_char(&mut id, c);
        i = i + 1;
    }
    id
}

/// A new, not yet trusted calculation by `origin_device_id`, created at `now`
/// under a fresh random event id.
pub fn new_calculation_entry(origin_device_id: &str, expression: String, result: String, now: &str) -> (e:
    CalculationEntry)
    ensures
        is_uuid_text(e@.id),
        e@.origin_device_id == origin_device_id@,
        e@.expression == expression@,
        e@.result == result@,
        !e@.trusted,
        e@.created_at_iso == now@,
{
    CalculationEntry {
        id: random_uuid_text(),
        origin_device_id: origin_device_id.to_owned(),
        expression,
        result,
        trusted: false,
        created_at_iso: now.to_owned(),
    }
}

} // verus!
