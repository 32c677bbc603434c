//! The calls into other crates and into the clock, with what is known of their results.

use vstd::prelude::*;
use vstd::string::*;

verus! {

/// Whether `c` is a lower-case hexadecimal digit.
pub open spec fn is_hex(c: char) -> bool {
    '0' <= c <= '9' || 'a' <= c <= 'f'
}

/// Whether `s` is a random UUID in its hyphenated lower-case form.
pub open spec fn is_uuid(s: Seq<char>) -> bool {
    &&& s.len() == 36
    &&& forall|i: int|
        0 <= i < 36 ==> if i == 8 || i == 13 || i == 18 || i == 23 {
            #[trigger] s[i] == '-'
        } else {
            is_hex(s[i])
        }
    &&& s[14] == '4'
    &&& s[19] == '8' || s[19] == '9' || s[19] == 'a' || s[19] == 'b'
}

/// Whether `id` is `prefix` followed by a random UUID.
pub open spec fn is_fresh_id(id: Seq<char>, prefix: Seq<char>) -> bool {
    prefix.is_prefix_of(id) && is_uuid(id.skip(prefix.len() as int))
}

/// `uuid::Uuid::new_v4`, displayed: a random identifier of 36 characters, lower-case hexadecimal
/// digits in five groups parted by hyphens, with the marks of version 4. Which one comes is
/// chance.
#[verifier::external_body]
pub(crate) fn new_uuid() -> (r: String)
    ensures
        is_uuid(r@),
{
    uuid::Uuid::new_v4().to_string()
}

/// A new identifier: `prefix` followed by a random UUID.
pub fn fresh_id(prefix: &str) -> (r: String)
    ensures
        is_fresh_id(r@, prefix@),
{
    let uuid = new_uuid();
    let mut id = prefix.to_owned();
    id.append(uuid.as_str());
    assert(id@.skip(prefix@.len() as int) =~= uuid@);
    id
}

/// Whether the characters of `s` from `from` up to `to` are decimal digits.
pub open spec fn are_digits(s: Seq<char>, from: int, to: int) -> bool {
    forall|i: int| from <= i < to ==> '0' <= #[trigger] s[i] <= '9'
}

/// Whether `s` is a date and time with the offset of UTC, whose year takes `year` characters and
/// whose fraction of a second takes `fraction`, its point among them.
pub open spec fn reads_as_utc_time(s: Seq<char>, year: int, fraction: int) -> bool {
    &&& year == 4 && are_digits(s, 0, 4) || year > 4 && s[0] == '+' && are_digits(s, 1, year)
    &&& s[year] == '-' && are_digits(s, year + 1, year + 3)
    &&& s[year + 3] == '-' && are_digits(s, year + 4, year + 6)
    &&& s[year + 6] == 'T' && are_digits(s, year + 7, year + 9)
    &&& s[year + 9] == ':' && are_digits(s, year + 10, year + 12)
    &&& s[year + 12] == ':' && are_digits(s, year + 13, year + 15)
    &&& fraction == 0 || (fraction == 4 || fraction == 7 || fraction == 10) && s[year + 15] == '.'
        && are_digits(s, year + 16, year + 15 + fraction)
    &&& s.len() == year + fraction + 21
    &&& s.skip(year + 15 + fraction) == "+00:00"@
}

/// Whether `s` is a date and time with the offset of UTC, such as `2026-06-05T09:30:00.125+00:00`.
pub open spec fn is_utc_time(s: Seq<char>) -> bool {
    exists|year: int, fraction: int| #[trigger] reads_as_utc_time(s, year, fraction)
}

/// `chrono::Utc::now`, as `DateTime::to_rfc3339` writes it: a date and time with the offset of UTC,
/// with three, six or nine digits of a fraction where the second is not whole. Which one it is
/// depends on the clock, which has to stand past the Unix epoch.
#[verifier::external_body]
pub(crate) fn now_rfc3339() -> (r: String)
    ensures
        is_utc_time(r@),
{
    chrono::Utc::now().to_rfc3339()
}

/// `std::time::SystemTime::now`, in whole milliseconds since the Unix epoch; nothing where the
/// clock stands before it. Which number it is depends on the clock, so nothing is claimed of it.
#[verifier::external_body]
pub(crate) fn system_millis() -> Option<u128> {
    match std::time::SystemTime::now().duration_since(std::time::UNIX_EPOCH) {
        Ok(elapsed) => Some(elapsed.as_millis()),
        Err(_) => None,
    }
}

/// The string member `key` of the JSON document `contents`: its characters, nothing where there
/// is no such member or it is no string, or what is said of a text that is no JSON.
pub uninterp spec fn json_text_member(contents: Seq<char>, key: Seq<char>) -> Result<
    Option<Seq<char>>,
    Seq<char>,
>;

/// `serde_json::from_str` to a `serde_json::Value`, with the string that `Value::get` and
/// `Value::as_str` find under `key`, or the displayed error. The result depends on the document
/// and the key alone.
#[verifier::external_body]
pub(crate) fn json_string_member(contents: &str, key: &str) -> (r: Result<Option<String>, String>)
    ensures
        match json_text_member(contents@, key@) {
            Ok(Some(s)) => r matches Ok(Some(t)) && t@ == s,
            Ok(None) => r matches Ok(None),
            Err(e) => r matches Err(t) && t@ == e,
        },
{
    let value: serde_json::Value = serde_json::from_str(contents).map_err(|e| e.to_string())?;
    Ok(value.get(key).and_then(|member| member.as_str()).map(|text| text.to_string()))
}

/// A fresh identifier is its prefix and a random version-4 UUID behind it: thirty-two lower-case
/// hexadecimal digits in groups of eight, four, four, four and twelve, with hyphens between them.
pub proof fn fresh_identifiers_have_their_prefix(id: Seq<char>, prefix: Seq<char>, i: int)
    requires
        is_fresh_id(id, prefix),
    ensures
        id.len() == prefix.len() + 36,
        id.take(prefix.len() as int) == prefix,
        id.skip(prefix.len() as int)[8] == '-' && id.skip(prefix.len() as int)[13] == '-',
        id.skip(prefix.len() as int)[18] == '-' && id.skip(prefix.len() as int)[23] == '-',
        id.skip(prefix.len() as int)[14] == '4',
        0 <= i < 36 && i != 8 && i != 13 && i != 18 && i != 23 ==> {
            let c = id.skip(prefix.len() as int)[i];
            '0' <= c <= '9' || 'a' <= c <= 'f'
        },
{
    let u = id.skip(prefix.len() as int);
    assert(u[8] == '-' && u[13] == '-' && u[18] == '-' && u[23] == '-' && u[14] == '4');
    if 0 <= i < 36 {
        assert(u[i] == id[prefix.len() + i]);
    }
    assert(id.take(prefix.len() as int) =~= prefix);
}

} // verus!
