//! What the library takes on trust: the standard library's functions that
//! it calls without a specification of their own, the outside types it
//! carries, and the calls to the clock and to the random generator, each
//! with what is relied on.

use vstd::prelude::*;

verus! {

/// Specifies `String::push`: the character is appended at the end.
pub assume_specification[ String::push ](s: &mut String, ch: char)
    ensures
        final(s)@ == old(s)@.push(ch),
;

/// Names what `str::to_lowercase` returns for a text: its lower-case
/// equivalent by the Unicode rules that the standard library applies.
pub uninterp spec fn lowercase(s: Seq<char>) -> Seq<char>;

/// Specifies `str::to_lowercase`: the result is the lower-case equivalent of
/// the text, a function of the text alone.
pub assume_specification[ str::to_lowercase ](s: &str) -> (lower: String)
    ensures
        lower@ == lowercase(s@),
;

/// Specifies `==` on string slices: two slices are equal when they hold the
/// same characters.
pub assume_specification[ <str as PartialEq>::eq ](a: &str, b: &str) -> (same: bool)
    ensures
        same == (a@ == b@),
;

/// `chrono::NaiveDateTime`: a date and a time of day without a time zone.
/// The library reads nothing of it: it stores the moment and hands it on.
#[verifier::external_type_specification]
#[verifier::external_body]
pub struct ExNaiveDateTime(chrono::NaiveDateTime);

/// `std::path::PathBuf`: a path of the file system. The library reads
/// nothing of it: it keeps the path and hands it on.
#[verifier::external_type_specification]
#[verifier::external_body]
pub struct ExPathBuf(std::path::PathBuf);

/// Calls `chrono::Utc::now` and takes the date and time of the result, which
/// are in UTC. The moment returned depends on the clock, so nothing is
/// claimed of it. The call fails where the clock stands before 1970.
#[verifier::external_body]
pub(crate) fn now_utc() -> chrono::NaiveDateTime {
    chrono::Utc::now().naive_utc()
}

/// Whether `c` is a decimal digit or one of the letters `a` to `f`.
pub open spec fn is_lower_hex(c: char) -> bool {
    ('0' <= c && c <= '9') || ('a' <= c && c <= 'f')
}

/// Whether `s` has the shape of a UUID in its hyphenated form: 36 characters,
/// hyphens in the four places, lower-case hexadecimal digits elsewhere.
pub open spec fn is_hyphenated_uuid(s: Seq<char>) -> bool {
    &&& s.len() == 36
    &&& forall|i: int|
        0 <= i < 36 ==> if i == 8 || i == 13 || i == 18 || i == 23 {
            s[i] == '-'
        } else {
            is_lower_hex(#[trigger] s[i])
        }
}

/// Calls `uuid::Uuid::new_v4` and formats the result with the crate's
/// `Display`, which writes the hyphenated lower-case form. Which UUID comes
/// back depends on the random generator: only its shape is claimed. The call
/// fails where the system has no random bytes to give.
#[verifier::external_body]
pub(crate) fn random_uuid_text() -> (text: String)
    ensures
        is_hyphenated_uuid(text@),
{
    uuid::Uuid::new_v4().to_string()
}

} // verus!
