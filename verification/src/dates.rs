//! The date of a file's last change, from its modification time.
use vstd::prelude::*;
use crate::text::{chars_of, lead_len, lemma_lead_len, in_class, scan_forward, string_of_range, CharClass};

verus! {

/// What `time` formats with `Iso8601::DEFAULT` for the UTC instant `nanos`
/// nanoseconds after the Unix epoch; `None` where `time` refuses the instant or
/// the format.
pub uninterp spec fn iso8601_utc(nanos: i128) -> Option<Seq<char>>;

/// Calls `time::OffsetDateTime::from_unix_timestamp_nanos` and then `format` with
/// `Iso8601::DEFAULT`. The contract claims only that the outcome is a function of
/// `nanos` (`iso8601_utc`); the text of the format and the range `time` accepts
/// are not stated.
#[verifier::external_body]
fn format_iso8601_utc(nanos: i128) -> (res: Option<String>)
    ensures
        match res {
            Some(s) => iso8601_utc(nanos) == Some(s@),
            None => iso8601_utc(nanos) is None,
        },
{
    let at = time::OffsetDateTime::from_unix_timestamp_nanos(nanos).ok()?;
    at.format(&time::format_description::well_known::Iso8601::DEFAULT).ok()
}

/// The part of an ISO 8601 date-time before its first `'T'` (all of it where there
/// is none): what `split('T').next()` gives.
pub open spec fn date_part(iso: Seq<char>) -> Seq<char> {
    iso.take(lead_len(iso, CharClass::Except('T')) as int)
}

/// The date part of an ISO 8601 date-time.
pub fn date_part_of(iso: &str) -> (d: String)
    ensures
        d@ == date_part(iso@),
{
    let cs = chars_of(iso);
    let k = scan_forward(&cs, 0, cs.len(), CharClass::Except('T'));
    assert(cs@.subrange(0, cs@.len() as int) == cs@);
    string_of_range(&cs, 0, k)
}

/// The date (`YYYY-MM-DD`) of the UTC instant `nanos` nanoseconds after the Unix
/// epoch, or `None` where it cannot be formatted.
pub fn date_modified(nanos: i128) -> (d: Option<String>)
    ensures
        match iso8601_utc(nanos) {
            Some(iso) => d matches Some(s) && s@ == date_part(iso),
            None => d is None,
        },
{
    match format_iso8601_utc(nanos) {
        Some(iso) => Some(date_part_of(iso.as_str())),
        None => None,
    }
}

/// The date part is a prefix of the date-time without `'T'`, and where the
/// date-time holds a `'T'` the date part ends just before the first one.
pub proof fn law_date_part(iso: Seq<char>)
    ensures
        date_part(iso).len() <= iso.len(),
        date_part(iso) == iso.take(date_part(iso).len() as int),
        !date_part(iso).contains('T'),
        iso.contains('T') ==> iso[date_part(iso).len() as int] == 'T',
{
    let cls = CharClass::Except('T');
    lemma_lead_len(iso, cls);
    let k = lead_len(iso, cls) as int;
    let d = date_part(iso);
    assert(d.len() == k);
    if d.contains('T') {
        let j = choose|j: int| 0 <= j < d.len() && d[j] == 'T';
        assert(in_class(cls, iso[j]));
    }
    if iso.contains('T') {
        let j = choose|j: int| 0 <= j < iso.len() && iso[j] == 'T';
        if k == iso.len() {
            assert(in_class(cls, iso[j]));
        }
    }
}

} // verus!
