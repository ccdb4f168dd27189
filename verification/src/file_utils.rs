//! Run numbers from the places where runs are found: a run's file lies in a
//! directory named `version_` and the run's number.
use std::path::Path;
use vstd::prelude::*;
use vstd::string::*;

verus! {

/// The path without its last component, as the target platform's path rules
/// give it; nothing where the path has no such parent.
pub uninterp spec fn parent_path_of(path: Seq<char>) -> Option<Seq<char>>;

/// The last component of the path, as the target platform's path rules give
/// it; nothing where the path ends in no ordinary component.
pub uninterp spec fn file_name_of(path: Seq<char>) -> Option<Seq<char>>;

/// `std::path::Path::parent`: the path without its last component, if it has
/// one, a function of the path's text alone.
#[verifier::external_body]
pub(crate) fn path_parent(path: &str) -> (r: Option<String>)
    ensures
        r is Some == parent_path_of(path@) is Some,
        r is Some ==> r->Some_0@ == parent_path_of(path@)->Some_0,
{
    match Path::new(path).parent() {
        Some(parent) => Some(parent.to_string_lossy().into_owned()),
        None => None,
    }
}

/// `std::path::Path::file_name`: the last component of the path, if it ends
/// in an ordinary one, a function of the path's text alone.
#[verifier::external_body]
pub(crate) fn path_file_name(path: &str) -> (r: Option<String>)
    ensures
        r is Some == file_name_of(path@) is Some,
        r is Some ==> r->Some_0@ == file_name_of(path@)->Some_0,
{
    match Path::new(path).file_name() {
        Some(name) => Some(name.to_string_lossy().into_owned()),
        None => None,
    }
}

/// The name of the directory that a file lies in.
pub open spec fn directory_name_of(path: Seq<char>) -> Option<Seq<char>> {
    match parent_path_of(path) {
        Some(parent) => file_name_of(parent),
        None => None,
    }
}

/// The prefix of a run directory's name.
pub open spec fn version_prefix() -> Seq<char> {
    seq!['v', 'e', 'r', 's', 'i', 'o', 'n', '_']
}

/// What follows the prefix `version_` in a name that starts with it.
pub open spec fn version_suffix(name: Seq<char>) -> Option<Seq<char>> {
    if name.len() >= 8 && name.take(8) == version_prefix() {
        Some(name.skip(8))
    } else {
        None
    }
}

/// Whether a character is a decimal digit.
pub open spec fn is_digit(c: char) -> bool {
    48 <= c as int <= 57
}

/// Whether a text is made of decimal digits.
pub open spec fn all_digits(s: Seq<char>) -> bool {
    forall|i: int| 0 <= i < s.len() ==> is_digit(#[trigger] s[i])
}

/// The number that a text of decimal digits writes.
pub open spec fn digits_value(s: Seq<char>) -> nat
    decreases s.len(),
{
    if s.len() == 0 {
        0
    } else {
        (10 * digits_value(s.drop_last()) + (s.last() as int - 48)) as nat
    }
}

/// A text without a leading plus sign.
pub open spec fn unsigned_part(s: Seq<char>) -> Seq<char> {
    if s.len() > 0 && s[0] == '+' {
        s.skip(1)
    } else {
        s
    }
}

/// The number that a text writes: one or more decimal digits, after a plus
/// sign or none, that write a number of at most 32 bits.
pub open spec fn parsed_u32(s: Seq<char>) -> Option<u32> {
    let body = unsigned_part(s);
    if body.len() > 0 && all_digits(body) && digits_value(body) <= u32::MAX {
        Some(digits_value(body) as u32)
    } else {
        None
    }
}

/// The text after `version_` in the name of the directory that a file lies
/// in.
pub open spec fn version_text_of(path: Seq<char>) -> Option<Seq<char>> {
    match directory_name_of(path) {
        Some(name) => version_suffix(name),
        None => None,
    }
}

/// The run number that a path names, if it names one.
pub open spec fn version_number_of(path: Seq<char>) -> Option<u32> {
    match version_text_of(path) {
        Some(text) => parsed_u32(text),
        None => None,
    }
}

/// A longer text of digits writes no smaller number.
pub proof fn lemma_digits_value_grows(s: Seq<char>, n: int)
    requires
        0 <= n <= s.len(),
        all_digits(s),
    ensures
        digits_value(s.take(n)) <= digits_value(s),
    decreases s.len() - n,
{
    if n < s.len() {
        lemma_digits_value_grows(s, n + 1);
        assert(s.take(n + 1).drop_last() =~= s.take(n));
        assert(is_digit(s[n]));
    } else {
        assert(s.take(n) =~= s);
    }
}

/// Reads a number of at most 32 bits from a text.
pub fn parse_u32(text: &str) -> (r: Option<u32>)
    ensures
        r == parsed_u32(text@),
{
    let n = text.unicode_len();
    let start: usize = if n > 0 && text.get_char(0) == '+' {
        1
    } else {
        0
    };
    let ghost body = unsigned_part(text@);
    assert(body =~= text@.skip(start as int));
    if start == n {
        return None;
    }
    let mut value: u64 = 0;
    let mut i: usize = start;
    assert(body.take(0) =~= Seq::<char>::empty());
    while i < n
        invariant
            start <= i <= n,
            n == text@.len(),
            body == text@.skip(start as int),
            body == unsigned_part(text@),
            all_digits(body.take(i - start)),
            value == digits_value(body.take(i - start)),
            value <= u32::MAX,
        decreases n - i,
    {
        let c = text.get_char(i);
        let ghost k = i - start;
        assert(body[k] == c);
        let code: u32 = c as u32;
        if code < 48 || code > 57 {
            assert(!is_digit(body[k]));
            return None;
        }
        let digit: u64 = (code - 48) as u64;
        let next: u64 = value * 10 + digit;
        proof {
            assert(body.take(k + 1).drop_last() =~= body.take(k));
            assert(body.take(k + 1).last() == c);
            assert(digits_value(body.take(k + 1)) == next);
            assert forall|j: int| 0 <= j < k + 1 implies is_digit(#[trigger] body.take(k + 1)[j]) by {
                if j < k {
                    assert(body.take(k + 1)[j] == body.take(k)[j]);
                }
            }
        }
        if next > u32::MAX as u64 {
            proof {
                if all_digits(body) {
                    lemma_digits_value_grows(body, k + 1);
                }
            }
            return None;
        }
        value = next;
        i += 1;
    }
    assert(body.take(n - start) =~= body);
    Some(value as u32)
}

/// The text after `version_` in a directory's name.
pub fn strip_version_prefix(name: &str) -> (r: Option<String>)
    ensures
        r is Some == version_suffix(name@) is Some,
        r is Some ==> r->Some_0@ == version_suffix(name@)->Some_0,
{
    let n = name.unicode_len();
    if n < 8 {
        return None;
    }
    let head = name.substring_char(0, 8);
    proof {
        reveal_strlit("version_");
        assert("version_"@ =~= version_prefix());
        assert(name@.subrange(0, 8) =~= name@.take(8));
        assert(name@.subrange(8, n as int) =~= name@.skip(8));
    }
    if crate::text::text_eq(head, "version_") {
        Some(String::from_str(name.substring_char(8, n)))
    } else {
        None
    }
}

/// The text after `version_` in the name of the directory that a file lies
/// in.
pub fn extract_version_str_from_path(path: &str) -> (r: Option<String>)
    ensures
        r is Some == version_text_of(path@) is Some,
        r is Some ==> r->Some_0@ == version_text_of(path@)->Some_0,
{
    match path_parent(path) {
        None => None,
        Some(parent) => match path_file_name(parent.as_str()) {
            None => None,
            Some(name) => strip_version_prefix(name.as_str()),
        },
    }
}

/// The run number that a path names, or zero where it names none.
pub fn extract_version_number(path: &str) -> (r: u32)
    ensures
        r == match version_number_of(path@) {
            Some(n) => n,
            None => 0u32,
        },
{
    match extract_version_str_from_path(path) {
        None => 0,
        Some(text) => match parse_u32(text.as_str()) {
            Some(n) => n,
            None => 0,
        },
    }
}

/// Why a path names no run number.
#[derive(Debug, PartialEq, Eq, Clone, Copy)]
pub enum VersionError {
    /// The file lies in no directory named `version_` and something.
    NoVersionDirectory,
    /// What follows `version_` is no number of at most 32 bits.
    NotANumber,
}

/// The run number that a path names, or why it names none.
pub open spec fn checked_version_number(path: Seq<char>) -> Result<u32, VersionError> {
    match version_text_of(path) {
        None => Err(VersionError::NoVersionDirectory),
        Some(text) => match parsed_u32(text) {
            Some(n) => Ok(n),
            None => Err(VersionError::NotANumber),
        },
    }
}

/// The run number that a path names, or why it names none.
pub fn extract_version_number_safe(path: &str) -> (r: Result<u32, VersionError>)
    ensures
        r == checked_version_number(path@),
{
    match extract_version_str_from_path(path) {
        None => Err(VersionError::NoVersionDirectory),
        Some(text) => match parse_u32(text.as_str()) {
            Some(n) => Ok(n),
            None => Err(VersionError::NotANumber),
        },
    }
}

} // verus!
