//! Wall-clock time and fresh identifiers.
use vstd::prelude::*;

verus! {

/// Milliseconds since the Unix epoch, read from `std::time::SystemTime`
/// (0 when the clock is before the epoch).  Nothing is claimed of the value:
/// it depends on the machine's clock.
#[verifier::external_body]
pub(crate) fn now_millis_u64() -> u64 {
    std::time::SystemTime::now().duration_since(std::time::UNIX_EPOCH).unwrap_or_default().as_millis() as u64
}

/// The same clock reading as decimal text, from `u128::to_string`.  Nothing is
/// claimed of the value: it depends on the machine's clock.
#[verifier::external_body]
pub(crate) fn now_millis_string() -> String {
    std::time::SystemTime::now().duration_since(std::time::UNIX_EPOCH).unwrap_or_default().as_millis().to_string()
}

/// Whether text has the hyphenated UUID form: 36 characters, hyphens at
/// positions 8, 13, 18 and 23, lowercase hex digits elsewhere.
pub open spec fn is_uuid_text(s: Seq<char>) -> bool {
    &&& s.len() == 36
    &&& forall|i: int|
        0 <= i < 36 ==> if i == 8 || i == 13 || i == 18 || i == 23 {
            #[trigger] s[i] == '-'
        } else {
            ('0' <= s[i] <= '9') || ('a' <= s[i] <= 'f')
        }
}

/// A fresh random identifier from `uuid::Uuid::new_v4`, in its hyphenated
/// text form (`to_string` formats a `Uuid` as lowercase hyphenated hex).
/// The contract claims only that form; the value itself is random.
#[verifier::external_body]
pub(crate) fn new_uuid() -> (r: String)
    ensures
        is_uuid_text(r@),
{
    uuid::Uuid::new_v4().to_string()
}

} // verus!
