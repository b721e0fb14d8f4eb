//! The boundary to the opaque matcher backend.
//!
//! The backend (the `regex` crate, in its byte-oriented form) is consumed
//! through three operations only: compile a pattern, report its capture
//! count, and execute one match attempt at a byte offset. Each operation is
//! a trusted wrapper here; what a search returns is given a name
//! ([`search_raw`]), and [`search_at`] restates it together with the
//! positional guarantees the backend documents, so that everything built on
//! top can be verified against exact contracts.

use vstd::prelude::*;
use vstd::utf8::decode_utf8;
use vstd::utf8::valid_utf8;

verus! {

/// Whether the matcher backend accepts a pattern, compiled with the given
/// case-insensitive, multi-line and dot-all options.
pub uninterp spec fn compile_ok(pattern: Seq<char>, ci: bool, ml: bool, da: bool) -> bool;

/// The capture count the matcher backend reports for a compiled pattern:
/// the number of capture groups, the implicit whole-match group 0 included.
pub uninterp spec fn pattern_captures(pattern: Seq<char>, ci: bool, ml: bool, da: bool) -> nat;

/// What one execute-at-offset attempt of the matcher backend returns on a
/// subject: `None` for no match anywhere from `start` onward, or one byte
/// offset pair per capture group (`None` for a group that did not
/// participate in the match).
pub uninterp spec fn search_raw(
    pattern: Seq<char>,
    ci: bool,
    ml: bool,
    da: bool,
    subject: Seq<u8>,
    start: int,
) -> Option<Seq<Option<(int, int)>>>;

/// What decoding arbitrary bytes as UTF-8, replacing ill-formed sequences,
/// returns. On well-formed input it agrees with [`decode_utf8`].
pub uninterp spec fn lossy_decode(bytes: Seq<u8>) -> Seq<char>;

/// The positional guarantees of a successful attempt searched from `start`
/// in a subject of `slen` bytes: one offset pair per capture group, group 0
/// present and beginning no earlier than `start`, every present pair an
/// ordered span within the subject.
pub open spec fn caps_valid(caps: Seq<Option<(int, int)>>, start: int, slen: int, count: nat) -> bool {
    &&& caps.len() == count
    &&& count >= 1
    &&& caps[0] is Some
    &&& start <= caps[0].unwrap().0
    &&& forall|i: int|
        0 <= i < caps.len() ==> ((#[trigger] caps[i]) matches Some(g) ==> 0 <= g.0 <= g.1 <= slen)
}

/// One execute-at-offset attempt, as the rest of the library sees it: the
/// raw search result, which the backend guarantees to be positionally valid.
pub open spec fn search_at(
    pattern: Seq<char>,
    ci: bool,
    ml: bool,
    da: bool,
    subject: Seq<u8>,
    start: int,
) -> Option<Seq<Option<(int, int)>>> {
    match search_raw(pattern, ci, ml, da, subject, start) {
        Some(caps) => if caps_valid(caps, start, subject.len() as int, pattern_captures(pattern, ci, ml, da)) {
            Some(caps)
        } else {
            None
        },
        None => None,
    }
}

/// Byte offset pairs as the mathematical pairs the model speaks of.
pub open spec fn caps_ints(caps: Seq<Option<(usize, usize)>>) -> Seq<Option<(int, int)>> {
    Seq::new(
        caps.len(),
        |i: int|
            match caps[i] {
                Some(g) => Some((g.0 as int, g.1 as int)),
                None => None,
            },
    )
}

/// Relies on `regex::bytes::RegexBuilder::build` (with `case_insensitive`,
/// `multi_line` and `dot_matches_new_line`) to compile the pattern, and on
/// `regex::bytes::Regex::captures_len` for the capture count, which counts
/// the implicit whole-match group and is therefore at least 1.
#[verifier::external_body]
pub(crate) fn matcher_compile(pattern: &str, ci: bool, ml: bool, da: bool) -> (r: Result<usize, String>)
    ensures
        r is Ok <==> compile_ok(pattern@, ci, ml, da),
        r matches Ok(n) ==> n == pattern_captures(pattern@, ci, ml, da) && n >= 1,
{
    let built = regex::bytes::RegexBuilder::new(pattern)
        .case_insensitive(ci)
        .multi_line(ml)
        .dot_matches_new_line(da)
        .build();
    match built {
        Ok(re) => Ok(re.captures_len()),
        Err(e) => Err(e.to_string()),
    }
}

/// Relies on `regex::bytes::Regex::captures_at`: the leftmost match of the
/// pattern beginning at or after `start`, as one byte offset pair per
/// capture group, each pair an ordered span within the subject; searching is
/// a function of the pattern, its options, the subject and `start` alone.
/// Builds the pattern anew through `regex::bytes::RegexBuilder::build`,
/// which cannot fail here: the precondition says the pattern compiles.
#[verifier::external_body]
pub(crate) fn matcher_exec(
    pattern: &str,
    ci: bool,
    ml: bool,
    da: bool,
    subject: &[u8],
    start: usize,
) -> (r: Option<Vec<Option<(usize, usize)>>>)
    requires
        compile_ok(pattern@, ci, ml, da),
        start <= subject@.len(),
    ensures
        r is Some <==> search_raw(pattern@, ci, ml, da, subject@, start as int) is Some,
        r matches Some(caps) ==> caps_ints(caps@) == search_raw(
            pattern@,
            ci,
            ml,
            da,
            subject@,
            start as int,
        ).unwrap(),
        r matches Some(caps) ==> caps_valid(
            caps_ints(caps@),
            start as int,
            subject@.len() as int,
            pattern_captures(pattern@, ci, ml, da),
        ),
{
    let built = regex::bytes::RegexBuilder::new(pattern)
        .case_insensitive(ci)
        .multi_line(ml)
        .dot_matches_new_line(da)
        .build();
    let re = match built {
        Ok(re) => re,
        Err(_) => return None,
    };
    re.captures_at(subject, start).map(|caps| {
        (0..caps.len()).map(|i| caps.get(i).map(|m| (m.start(), m.end()))).collect()
    })
}

/// Relies on `String::from_utf8_lossy`: the decoding is a function of the
/// bytes alone, and well-formed UTF-8 decodes unchanged.
#[verifier::external_body]
pub(crate) fn bytes_to_string_lossy(bytes: &[u8]) -> (r: String)
    ensures
        r@ == lossy_decode(bytes@),
        valid_utf8(bytes@) ==> r@ == decode_utf8(bytes@),
{
    String::from_utf8_lossy(bytes).into_owned()
}

/// Relies on `String::from_utf8`: it succeeds exactly on well-formed UTF-8,
/// and then returns its decoding.
#[verifier::external_body]
pub(crate) fn utf8_to_string(bytes: &[u8]) -> (r: Option<String>)
    ensures
        r is Some <==> valid_utf8(bytes@),
        r matches Some(s) ==> s@ == decode_utf8(bytes@),
{
    match String::from_utf8(bytes.to_vec()) {
        Ok(s) => Some(s),
        Err(_) => None,
    }
}

} // verus!
