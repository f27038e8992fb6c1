//! The calls this library makes into code that is not verified here. Each
//! function states what is taken on trust about the call it wraps.

use vstd::prelude::*;
use vstd::utf8::{decode_utf8, valid_utf8};

verus! {

/// The text that `String::from_utf8_lossy` gives for a byte sequence: the
/// decoded text, with U+FFFD in place of each invalid sequence.
pub uninterp spec fn utf8_lossy(bytes: Seq<u8>) -> Seq<char>;

/// The matches of a regular expression in a text, in the order in which the
/// `regex` crate's `Regex::find_iter` yields them. Each match is the pair of
/// `Match::start` and `Match::end`: the byte offsets, in the UTF-8 form of the
/// text, at which the match starts and ends. `None` if `Regex::new` rejects
/// the pattern.
pub uninterp spec fn regex_matches(pattern: Seq<char>, haystack: Seq<char>) -> Option<
    Seq<(usize, usize)>,
>;

/// Calls `String::from_utf8_lossy`.
///
/// Taken on trust: the result depends on the bytes alone, bytes that are
/// valid UTF-8 decode to the text they encode, and since invalid bytes are
/// replaced and not dropped, only no bytes give an empty text.
#[verifier::external_body]
pub(crate) fn decode_lossy(bytes: &[u8]) -> (text: String)
    ensures
        text@ == utf8_lossy(bytes@),
        valid_utf8(bytes@) ==> text@ == decode_utf8(bytes@),
        text@.len() == 0 <==> bytes@.len() == 0,
{
    String::from_utf8_lossy(bytes).into_owned()
}

/// Compiles `pattern` with `regex::Regex::new` and collects the byte ranges
/// of the matches that `Regex::find_iter` yields for `haystack`.
///
/// Taken on trust: the result depends on the pattern and the text alone.
/// Nothing is claimed about where the matches lie.
#[verifier::external_body]
pub(crate) fn find_all(pattern: &str, haystack: &Vec<char>) -> (found: Option<Vec<(usize, usize)>>)
    ensures
        match found {
            Some(v) => regex_matches(pattern@, haystack@) == Some(v@),
            None => regex_matches(pattern@, haystack@) is None,
        },
{
    let text: String = haystack.iter().collect();
    match regex::Regex::new(pattern) {
        Ok(re) => Some(re.find_iter(&text).map(|m| (m.start(), m.end())).collect()),
        Err(_) => None,
    }
}

} // verus!
