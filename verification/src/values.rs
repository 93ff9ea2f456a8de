use vstd::prelude::*;

verus! {

/// One untyped value from a caller's field mapping, decoded from the request
/// payload before it reaches the library.
///
/// A number carries two readings: the exact integer, when the number is
/// integral and fits `i64`, and the IEEE double-precision bit pattern, when
/// the number is representable as one. The library stores and compares bit
/// patterns without interpreting them, so no lossy transform is applied to a
/// floating-point channel on its way through the store.
pub enum FieldValue {
    /// A null value: clears a nullable column.
    Null,
    Bool(bool),
    Num { int_rep: Option<i64>, float_bits: Option<u64> },
    Text(String),
    /// An array or object: valid for no whitelisted column.
    Other,
}

/// True when two string slices hold the same characters.
pub(crate) fn str_eq(a: &str, b: &str) -> (r: bool)
    ensures
        r == (a@ == b@),
{
    let owned_a: String = a.to_owned();
    let owned_b: String = b.to_owned();
    owned_a == owned_b
}

/// What parsing a timestamp in the textual encoding
/// `YYYY-MM-DDTHH:MM:SS.sss±HHMM` yields, reduced to the milliseconds of its
/// local wall-clock reading; `None` when the string does not parse. A
/// function of the string alone.
pub uninterp spec fn parsed_timestamp(s: Seq<char>) -> Option<i64>;

/// Relies on chrono's `DateTime::parse_from_str` with the format
/// `%Y-%m-%dT%H:%M:%S%.3f%z`, and on `NaiveDateTime::checked_add_offset`,
/// `NaiveDateTime::and_utc` and `DateTime::timestamp_millis` to reduce the
/// parsed instant to the milliseconds of its local wall-clock reading.
/// The result depends on the input string alone.
#[verifier::external_body]
pub(crate) fn parse_timestamp(s: &str) -> (r: Option<i64>)
    ensures
        r == parsed_timestamp(s@),
{
    let parsed = match chrono::DateTime::parse_from_str(s, "%Y-%m-%dT%H:%M:%S%.3f%z") {
        Ok(parsed) => parsed,
        Err(_) => return None,
    };
    match parsed.naive_utc().checked_add_offset(*parsed.offset()) {
        Some(local) => Some(local.and_utc().timestamp_millis()),
        None => None,
    }
}

} // verus!
