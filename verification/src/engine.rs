//! The compiled pattern and the operations built on the matcher boundary:
//! construction, single-attempt execution, capture materialization, bounded
//! and exhaustive iteration, and substitution.

use vstd::prelude::*;
use vstd::slice::slice_index_get;
use vstd::slice::slice_subrange;
use vstd::utf8::decode_utf8;
use vstd::utf8::encode_utf8;
use vstd::utf8::encode_utf8_decode_utf8;
use vstd::utf8::encode_utf8_valid_utf8;
use vstd::utf8::valid_utf8;

use crate::flags::Flag;
use crate::flags::DOTALL;
use crate::flags::IGNORECASE;
use crate::flags::MULTILINE;
use crate::matcher::caps_ints;
use crate::matcher::caps_valid;
use crate::matcher::matcher_compile;
use crate::matcher::matcher_exec;
use crate::matcher::bytes_to_string_lossy;
use crate::matcher::utf8_to_string;
use crate::model::match_list;
use crate::model::match_list_texts;
use crate::model::match_texts;
use crate::model::lemma_splice_prefix_snoc;
use crate::model::last_end;
use crate::model::next_scan;
use crate::model::spans_of;
use crate::model::splice;
use crate::model::splice_prefix;
use crate::model::span0;
use crate::model::pat_captures;
use crate::model::pat_ok;
use crate::model::pat_search;
use crate::model::Pat;

verus! {

/// A compilation failure.
#[derive(Debug)]
pub enum ComplieError {
    /// Retained from a stricter legacy form that required unicode mode; the
    /// current compile places no such requirement and never produces it.
    NotUnicode,
    /// The matcher reported an unrepresentable bytecode length: a contract
    /// violation of the matcher, not a user error. The matcher backend in
    /// use reports its capture count directly, so this is never produced.
    ByteCodeLenIsNeg,
    /// The matcher rejected the pattern, with its diagnostic message.
    ParseFail(String),
}

/// An execution failure of one match attempt.
#[derive(Debug)]
pub enum ExecError {
    /// No match anywhere from the attempt's offset onward. In iteration this
    /// is the normal termination signal, not an error.
    NotMatch,
    /// The matcher reported an internal fault: fatal to the operation, never
    /// retried. The matcher backend in use cannot fail at execution time, so
    /// this is never produced.
    Error,
}

/// The pattern and options a flag set selects for a pattern text.
pub open spec fn pat_of(pattern: Seq<char>, flag: Flag) -> Pat {
    Pat { pattern, ci: flag.ignorecase(), ml: flag.multiline(), da: flag.dotall() }
}

/// Whether a byte-code buffer is well-formed: one leading flag-bits byte,
/// then the pattern text in UTF-8.
pub open spec fn code_wf(code: Seq<u8>) -> bool {
    code.len() >= 1 && valid_utf8(code.skip(1))
}

/// The pattern and options a well-formed byte-code buffer denotes.
pub open spec fn pat_of_code(code: Seq<u8>) -> Pat {
    Pat {
        pattern: decode_utf8(code.skip(1)),
        ci: Flag(code[0]).ignorecase(),
        ml: Flag(code[0]).multiline(),
        da: Flag(code[0]).dotall(),
    }
}

/// A compiled pattern: the pattern text and flag set handed to the matcher,
/// with the capture count the matcher reported for them. Immutable once
/// constructed; every matching operation reads it and the subject only.
#[derive(Debug)]
pub struct Regex {
    pattern: String,
    bits: u8,
    count: usize,
}

impl Regex {
    /// The pattern and options this compiled pattern executes.
    pub closed spec fn pat(self) -> Pat {
        Pat {
            pattern: self.pattern@,
            ci: Flag(self.bits).ignorecase(),
            ml: Flag(self.bits).multiline(),
            da: Flag(self.bits).dotall(),
        }
    }

    /// The flag bits this compiled pattern carries.
    pub closed spec fn flag_bits(self) -> u8 {
        self.bits
    }

    #[verifier::type_invariant]
    spec fn inv(self) -> bool {
        &&& pat_ok(self.pat())
        &&& self.count == pat_captures(self.pat())
    }

    /// Compiles a pattern with a flag set. Succeeds exactly when the matcher
    /// accepts the pattern; a rejection is reported as `ParseFail` with the
    /// matcher's diagnostic.
    pub fn compile(pattern: &str, flag: Flag) -> (r: Result<Regex, ComplieError>)
        ensures
            r is Ok <==> pat_ok(pat_of(pattern@, flag)),
            r matches Ok(re) ==> re.pat() == pat_of(pattern@, flag) && re.flag_bits() == flag.0,
            r matches Err(e) ==> e is ParseFail,
    {
        let ci = flag.0 & IGNORECASE != 0;
        let ml = flag.0 & MULTILINE != 0;
        let da = flag.0 & DOTALL != 0;
        match matcher_compile(pattern, ci, ml, da) {
            Ok(n) => Ok(Regex { pattern: pattern.to_owned(), bits: flag.0, count: n }),
            Err(msg) => Err(ComplieError::ParseFail(msg)),
        }
    }

    /// The number of capture groups of this pattern, the implicit
    /// whole-match group 0 included.
    pub fn capture_count(&self) -> (r: usize)
        ensures
            r == pat_captures(self.pat()),
    {
        proof {
            use_type_invariant(&*self);
        }
        self.count
    }

    /// The pattern's byte-code buffer: the serialized form from which
    /// [`Regex::from_static`] reconstructs an interchangeable pattern.
    pub fn byte_code(&self) -> (r: Vec<u8>)
        ensures
            r@ == seq![self.flag_bits()] + encode_utf8(self.pat().pattern),
            code_wf(r@),
            pat_of_code(r@) == self.pat(),
            pat_ok(pat_of_code(r@)),
            r@[0] == self.flag_bits(),
    {
        proof {
            use_type_invariant(&*self);
        }
        let mut v: Vec<u8> = Vec::new();
        v.push(self.bits);
        append_bytes(&mut v, self.pattern.as_str().as_bytes());
        proof {
            assert(v@ =~= seq![self.bits] + encode_utf8(self.pattern@));
            assert(v@.skip(1) =~= encode_utf8(self.pattern@));
            encode_utf8_valid_utf8(self.pattern@);
            encode_utf8_decode_utf8(self.pattern@);
        }
        v
    }

    /// Reconstructs a compiled pattern from a serialized `(byte code,
    /// capture count)` pair without validation: the caller attests that the
    /// buffer is well-formed, that its pattern compiles, and that the count
    /// is the one the matcher reports for it. [`Regex::try_from_static`]
    /// checks the same attestation at run time.
    pub fn from_static(byte_code: &[u8], capture_count: usize) -> (r: Regex)
        requires
            code_wf(byte_code@),
            pat_ok(pat_of_code(byte_code@)),
            capture_count == pat_captures(pat_of_code(byte_code@)),
        ensures
            r.pat() == pat_of_code(byte_code@),
            r.flag_bits() == byte_code@[0],
    {
        let bits = *slice_index_get(byte_code, 0);
        let rest = slice_subrange(byte_code, 1, byte_code.len());
        proof {
            assert(rest@ =~= byte_code@.skip(1));
        }
        match utf8_to_string(rest) {
            Some(pattern) => Regex { pattern, bits, count: capture_count },
            None => vstd::pervasive::unreached(),
        }
    }

    /// Reconstructs a compiled pattern from a serialized pair after checking
    /// it: returns the pattern exactly when the buffer is well-formed, its
    /// pattern compiles, and the count matches the matcher's report.
    pub fn try_from_static(byte_code: &[u8], capture_count: usize) -> (r: Option<Regex>)
        ensures
            r is Some <==> code_wf(byte_code@) && pat_ok(pat_of_code(byte_code@))
                && capture_count == pat_captures(pat_of_code(byte_code@)),
            r matches Some(re) ==> re.pat() == pat_of_code(byte_code@) && re.flag_bits()
                == byte_code@[0],
    {
        if byte_code.len() == 0 {
            return None;
        }
        let bits = *slice_index_get(byte_code, 0);
        let rest = slice_subrange(byte_code, 1, byte_code.len());
        proof {
            assert(rest@ =~= byte_code@.skip(1));
        }
        let pattern = match utf8_to_string(rest) {
            Some(p) => p,
            None => {
                return None;
            },
        };
        let ci = bits & IGNORECASE != 0;
        let ml = bits & MULTILINE != 0;
        let da = bits & DOTALL != 0;
        match matcher_compile(pattern.as_str(), ci, ml, da) {
            Ok(n) => {
                if n == capture_count {
                    Some(Regex::from_static(byte_code, capture_count))
                } else {
                    None
                }
            },
            Err(_) => None,
        }
    }

    /// One match attempt at a byte offset: the positions of every capture
    /// group of the leftmost match beginning at or after `start`, or
    /// `NotMatch` when there is none from `start` onward.
    fn exec_inner(&self, s: &[u8], start: usize) -> (r: Result<
        Vec<Option<(usize, usize)>>,
        ExecError,
    >)
        requires
            start <= s@.len(),
        ensures
            r matches Ok(caps) ==> {
                &&& pat_search(self.pat(), s@, start as int) == Some(caps_ints(caps@))
                &&& caps@.len() == pat_captures(self.pat())
                &&& caps@[0] is Some
                &&& start <= caps@[0].unwrap().0
                &&& forall|i: int|
                    0 <= i < caps@.len() ==> ((#[trigger] caps@[i]) matches Some(g) ==> g.0 <= g.1
                        <= s@.len())
            },
            r matches Err(e) ==> e is NotMatch && pat_search(self.pat(), s@, start as int) is None,
    {
        proof {
            use_type_invariant(&*self);
        }
        let ci = self.bits & IGNORECASE != 0;
        let ml = self.bits & MULTILINE != 0;
        let da = self.bits & DOTALL != 0;
        match matcher_exec(self.pattern.as_str(), ci, ml, da, s, start) {
            Some(caps) => {
                proof {
                    let ghost ci_caps = caps_ints(caps@);
                    assert(caps_valid(
                        ci_caps,
                        start as int,
                        s@.len() as int,
                        pat_captures(self.pat()),
                    ));
                    assert(caps@[0] is Some && ci_caps[0].unwrap().0 == caps@[0].unwrap().0);
                    assert(forall|i: int|
                        0 <= i < caps@.len() ==> ((#[trigger] caps@[i]) matches Some(g) ==> ci_caps[i]
                            == Some((g.0 as int, g.1 as int))));
                }
                Ok(caps)
            },
            None => Err(ExecError::NotMatch),
        }
    }

    /// True when the pattern matches the subject anywhere.
    pub fn test(&self, s: &str) -> (r: bool)
        ensures
            r == (pat_search(self.pat(), encode_utf8(s@), 0) is Some),
    {
        self.exec_inner(s.as_bytes(), 0).is_ok()
    }

    /// The first match of the pattern on the subject: the text of every
    /// capture group, the whole match first, a group that did not
    /// participate materialized as the empty text; or `NotMatch` when the
    /// pattern does not match the subject at all.
    pub fn try_match(&self, s: &str) -> (r: Result<Vec<String>, ExecError>)
        ensures
            r matches Ok(groups) ==> {
                &&& pat_search(self.pat(), encode_utf8(s@), 0) matches Some(caps)
                    && groups.deep_view() == match_texts(encode_utf8(s@), caps)
                &&& groups@.len() == pat_captures(self.pat())
            },
            r matches Err(e) ==> e is NotMatch && pat_search(
                self.pat(),
                encode_utf8(s@),
                0,
            ) is None,
    {
        let sb = s.as_bytes();
        match self.exec_inner(sb, 0) {
            Ok(caps) => Ok(cap_to_str(sb, &caps)),
            Err(e) => Err(e),
        }
    }

    /// Up to `n` matches of cursor-advancing iteration over the subject, in
    /// left-to-right order, each materialized as its capture group texts.
    /// The first failed attempt ends the run; the matches gathered so far
    /// are returned as success, so an empty or partial result is not an
    /// error. After a zero-width match the cursor is forced one byte
    /// forward, so a run always terminates.
    pub fn try_matchn(&self, s: &str, n: usize) -> (r: Result<Vec<Vec<String>>, ExecError>)
        ensures
            r is Ok,
            r matches Ok(groups) ==> groups.deep_view() == match_list_texts(
                self.pat(),
                encode_utf8(s@),
                0,
                n as nat,
            ) && groups@.len() <= n,
    {
        let sb = s.as_bytes();
        let slen = sb.len();
        let ghost pat = self.pat();
        let ghost sq: Seq<u8> = sb@;
        let mut groups: Vec<Vec<String>> = Vec::new();
        let ghost mut caps_pre: Seq<Seq<Option<(int, int)>>> = Seq::empty();
        let mut scan: usize = 0;
        let mut i: usize = 0;
        let mut done: bool = false;
        while !done && i < n
            invariant
                pat == self.pat(),
                sq == sb@,
                slen == sq.len(),
                i <= n,
                caps_pre.len() == i,
                groups@.len() == i,
                !done ==> scan <= slen,
                done ==> match_list(pat, sq, 0, n as nat) == caps_pre,
                !done ==> match_list(pat, sq, 0, n as nat) == caps_pre + match_list(
                    pat,
                    sq,
                    scan as int,
                    (n - i) as nat,
                ),
                forall|k: int|
                    0 <= k < i ==> (#[trigger] groups@[k]).deep_view() == match_texts(
                        sq,
                        caps_pre[k],
                    ),
            decreases n - i, (if done { 0int } else { 1int }),
        {
            match self.exec_inner(sb, scan) {
                Err(_) => {
                    proof {
                        assert(match_list(pat, sq, scan as int, (n - i) as nat)
                            =~= Seq::<Seq<Option<(int, int)>>>::empty());
                        assert(match_list(pat, sq, 0, n as nat) =~= caps_pre);
                    }
                    done = true;
                },
                Ok(caps) => {
                    let texts = cap_to_str(sb, &caps);
                    let g0 = match caps[0] {
                        Some(p) => p,
                        None => vstd::pervasive::unreached(),
                    };
                    groups.push(texts);
                    let ghost c = caps_ints(caps@);
                    let ghost rem = (n - i) as nat;
                    proof {
                        assert(pat_search(pat, sq, scan as int) == Some(c));
                        assert(match_list(pat, sq, scan as int, rem) == seq![c] + match_list(
                            pat,
                            sq,
                            next_scan(c),
                            (rem - 1) as nat,
                        ));
                        caps_pre = caps_pre.push(c);
                        assert(match_list(pat, sq, 0, n as nat) =~= caps_pre + match_list(
                            pat,
                            sq,
                            next_scan(c),
                            (rem - 1) as nat,
                        ));
                        assert(span0(c) == (g0.0 as int, g0.1 as int));
                    }
                    i = i + 1;
                    if g0.0 == g0.1 {
                        if g0.1 >= slen {
                            proof {
                                assert(next_scan(c) > sq.len());
                                assert(match_list(pat, sq, next_scan(c), (n - i) as nat)
                                    =~= Seq::<Seq<Option<(int, int)>>>::empty());
                                assert(match_list(pat, sq, 0, n as nat) =~= caps_pre);
                            }
                            done = true;
                        } else {
                            scan = g0.1 + 1;
                            proof {
                                assert(next_scan(c) == scan as int);
                            }
                        }
                    } else {
                        scan = g0.1;
                        proof {
                            assert(next_scan(c) == scan as int);
                        }
                    }
                },
            }
        }
        proof {
            if !done {
                assert(match_list(pat, sq, scan as int, (n - i) as nat)
                    =~= Seq::<Seq<Option<(int, int)>>>::empty());
            }
            assert(match_list(pat, sq, 0, n as nat) == caps_pre);
            assert(groups.deep_view() =~= match_list_texts(pat, sq, 0, n as nat));
            assert(sq == encode_utf8(s@));
        }
        Ok(groups)
    }

    /// Every match of the pattern on the subject, in left-to-right order:
    /// exhaustive iteration, bounded only by the largest representable
    /// count.
    pub fn try_match_all(&self, s: &str) -> (r: Result<Vec<Vec<String>>, ExecError>)
        ensures
            r is Ok,
            r matches Ok(groups) ==> groups.deep_view() == match_list_texts(
                self.pat(),
                encode_utf8(s@),
                0,
                usize::MAX as nat,
            ) && groups@.len() <= usize::MAX,
    {
        self.try_matchn(s, usize::MAX)
    }

    /// Substitution bounded by `n`: for each of up to `n` matches in
    /// left-to-right order, the output takes the verbatim gap since the
    /// previous match end, then whatever the replacer returns for the
    /// match's materialized capture texts; after the last match the verbatim
    /// suffix follows. The replacer is invoked exactly once per match, in
    /// order. When the pattern does not match at all, the output is the
    /// subject unchanged.
    pub fn try_replacen<F: Fn(Vec<String>) -> String>(&self, s: &str, f: F, n: usize) -> (r:
        Result<String, ExecError>)
        requires
            forall|m: Vec<String>| call_requires(f, (m,)),
        ensures
            r is Ok,
            r matches Ok(out) ==> substitution_post(self.pat(), s@, n as nat, f, out@),
            r matches Ok(out) ==> (match_list(self.pat(), encode_utf8(s@), 0, n as nat).len() == 0
                ==> out@ == s@),
    {
        let sb = s.as_bytes();
        let slen = sb.len();
        let ghost pat = self.pat();
        let ghost sq: Seq<u8> = sb@;
        let mut out: Vec<u8> = Vec::new();
        let ghost mut caps_pre: Seq<Seq<Option<(int, int)>>> = Seq::empty();
        let ghost mut fargs: Seq<Vec<String>> = Seq::empty();
        let ghost mut fouts: Seq<String> = Seq::empty();
        let mut scan: usize = 0;
        let mut last: usize = 0;
        let mut i: usize = 0;
        let mut done: bool = false;
        while !done && i < n
            invariant
                forall|m: Vec<String>| call_requires(f, (m,)),
                pat == self.pat(),
                sq == sb@,
                slen == sq.len(),
                i <= n,
                caps_pre.len() == i,
                fargs.len() == i,
                fouts.len() == i,
                !done ==> scan <= slen,
                last <= slen,
                last as int == last_end(spans_of(caps_pre), 0),
                !done ==> last <= scan,
                done ==> match_list(pat, sq, 0, n as nat) == caps_pre,
                !done ==> match_list(pat, sq, 0, n as nat) == caps_pre + match_list(
                    pat,
                    sq,
                    scan as int,
                    (n - i) as nat,
                ),
                out@ == splice_prefix(sq, spans_of(caps_pre), reps_of(fouts), 0),
                forall|j: int|
                    0 <= j < i ==> (#[trigger] fargs[j]).deep_view() == match_texts(
                        sq,
                        caps_pre[j],
                    ) && call_ensures(f, (fargs[j],), fouts[j]),
            decreases n - i, (if done { 0int } else { 1int }),
        {
            match self.exec_inner(sb, scan) {
                Err(_) => {
                    proof {
                        assert(match_list(pat, sq, scan as int, (n - i) as nat)
                            =~= Seq::<Seq<Option<(int, int)>>>::empty());
                        assert(match_list(pat, sq, 0, n as nat) =~= caps_pre);
                    }
                    done = true;
                },
                Ok(caps) => {
                    let g0 = match caps[0] {
                        Some(p) => p,
                        None => vstd::pervasive::unreached(),
                    };
                    let gap = slice_subrange(sb, last, g0.0);
                    append_bytes(&mut out, gap);
                    let texts = cap_to_str(sb, &caps);
                    let ghost targs = texts;
                    let rep = f(texts);
                    append_bytes(&mut out, rep.as_str().as_bytes());
                    let ghost c = caps_ints(caps@);
                    let ghost rem = (n - i) as nat;
                    proof {
                        assert(pat_search(pat, sq, scan as int) == Some(c));
                        assert(match_list(pat, sq, scan as int, rem) == seq![c] + match_list(
                            pat,
                            sq,
                            next_scan(c),
                            (rem - 1) as nat,
                        ));
                        assert(span0(c) == (g0.0 as int, g0.1 as int));
                        lemma_splice_prefix_snoc(
                            sq,
                            spans_of(caps_pre),
                            reps_of(fouts),
                            0,
                            span0(c),
                            encode_utf8(rep@),
                        );
                        let old_caps = caps_pre;
                        let old_fouts = fouts;
                        caps_pre = caps_pre.push(c);
                        fargs = fargs.push(targs);
                        fouts = fouts.push(rep);
                        assert(spans_of(caps_pre) =~= spans_of(old_caps).push(span0(c)));
                        assert(reps_of(fouts) =~= reps_of(old_fouts).push(encode_utf8(rep@)));
                        assert(out@ == splice_prefix(sq, spans_of(old_caps), reps_of(old_fouts), 0)
                            + sq.subrange(last_end(spans_of(old_caps), 0), span0(c).0)
                            + encode_utf8(rep@));
                        assert(out@ =~= splice_prefix(sq, spans_of(caps_pre), reps_of(fouts), 0));
                        assert(match_list(pat, sq, 0, n as nat) =~= caps_pre + match_list(
                            pat,
                            sq,
                            next_scan(c),
                            (rem - 1) as nat,
                        ));
                        assert(last_end(spans_of(caps_pre), 0) == g0.1 as int);
                    }
                    last = g0.1;
                    i = i + 1;
                    if g0.0 == g0.1 {
                        if g0.1 >= slen {
                            proof {
                                assert(next_scan(c) > sq.len());
                                assert(match_list(pat, sq, next_scan(c), (n - i) as nat)
                                    =~= Seq::<Seq<Option<(int, int)>>>::empty());
                                assert(match_list(pat, sq, 0, n as nat) =~= caps_pre);
                            }
                            done = true;
                        } else {
                            scan = g0.1 + 1;
                            proof {
                                assert(next_scan(c) == scan as int);
                            }
                        }
                    } else {
                        scan = g0.1;
                        proof {
                            assert(next_scan(c) == scan as int);
                        }
                    }
                },
            }
        }
        let suffix = slice_subrange(sb, last, slen);
        append_bytes(&mut out, suffix);
        let result = bytes_to_string_lossy(out.as_slice());
        proof {
            if !done {
                assert(match_list(pat, sq, scan as int, (n - i) as nat)
                    =~= Seq::<Seq<Option<(int, int)>>>::empty());
            }
            assert(match_list(pat, sq, 0, n as nat) == caps_pre);
            assert(out@ =~= splice(sq, spans_of(caps_pre), reps_of(fouts), 0));
            assert(sq == encode_utf8(s@));
            assert(substitution_post(self.pat(), s@, n as nat, f, result@)) by {
                assert(substitution_witness(self.pat(), s@, n as nat, f, result@, fargs, fouts));
            }
            assert(match_list(self.pat(), encode_utf8(s@), 0, n as nat).len() == 0 ==> caps_pre.len()
                == 0);
            if caps_pre.len() == 0 {
                assert(spans_of(caps_pre) =~= Seq::<(int, int)>::empty());
                assert(splice_prefix(sq, spans_of(caps_pre), reps_of(fouts), 0)
                    == Seq::<u8>::empty());
                assert(out@ =~= sq);
                encode_utf8_valid_utf8(s@);
                encode_utf8_decode_utf8(s@);
                assert(result@ == s@);
            }
        }
        Ok(result)
    }

    /// Single substitution: at most the first match is replaced.
    pub fn try_replace<F: Fn(Vec<String>) -> String>(&self, s: &str, f: F) -> (r: Result<
        String,
        ExecError,
    >)
        requires
            forall|m: Vec<String>| call_requires(f, (m,)),
        ensures
            r is Ok,
            r matches Ok(out) ==> substitution_post(self.pat(), s@, 1, f, out@),
            r matches Ok(out) ==> (match_list(self.pat(), encode_utf8(s@), 0, 1).len() == 0
                ==> out@ == s@),
    {
        self.try_replacen(s, f, 1)
    }

    /// Exhaustive substitution: every match is replaced, bounded only by the
    /// largest representable count.
    pub fn try_replace_all<F: Fn(Vec<String>) -> String>(&self, s: &str, f: F) -> (r: Result<
        String,
        ExecError,
    >)
        requires
            forall|m: Vec<String>| call_requires(f, (m,)),
        ensures
            r is Ok,
            r matches Ok(out) ==> substitution_post(self.pat(), s@, usize::MAX as nat, f, out@),
            r matches Ok(out) ==> (match_list(self.pat(), encode_utf8(s@), 0, usize::MAX as nat).len()
                == 0 ==> out@ == s@),
    {
        self.try_replacen(s, f, usize::MAX)
    }
}

/// The replacement byte fragments of a sequence of replacer outputs.
pub open spec fn reps_of(fouts: Seq<String>) -> Seq<Seq<u8>> {
    fouts.map_values(|t: String| encode_utf8(t@))
}

/// What a substitution run returned, shown by its witnesses: `fargs` are the
/// materialized capture texts the replacer was invoked on, one per match in
/// order; `fouts` are outputs the replacer can return for them; and the
/// output is the subject's gaps and suffix spliced with those replacements.
pub open spec fn substitution_witness<F: Fn(Vec<String>) -> String>(
    p: Pat,
    s: Seq<char>,
    n: nat,
    f: F,
    out: Seq<char>,
    fargs: Seq<Vec<String>>,
    fouts: Seq<String>,
) -> bool {
    let sq = encode_utf8(s);
    let ml = match_list(p, sq, 0, n);
    &&& fargs.len() == ml.len()
    &&& fouts.len() == ml.len()
    &&& forall|j: int|
        0 <= j < ml.len() ==> (#[trigger] fargs[j]).deep_view() == match_texts(sq, ml[j])
            && call_ensures(f, (fargs[j],), fouts[j])
    &&& out == crate::matcher::lossy_decode(splice(sq, spans_of(ml), reps_of(fouts), 0))
}

/// What a substitution run bounded by `n` promises of its output: witnesses
/// as in [`substitution_witness`] exist for it.
pub open spec fn substitution_post<F: Fn(Vec<String>) -> String>(
    p: Pat,
    s: Seq<char>,
    n: nat,
    f: F,
    out: Seq<char>,
) -> bool {
    exists|fargs: Seq<Vec<String>>, fouts: Seq<String>|
        substitution_witness(p, s, n, f, out, fargs, fouts)
}

/// Appends a byte slice to a byte vector.
fn append_bytes(dst: &mut Vec<u8>, src: &[u8])
    ensures
        final(dst)@ == old(dst)@ + src@,
{
    let mut i: usize = 0;
    while i < src.len()
        invariant
            i <= src@.len(),
            dst@ == old(dst)@ + src@.subrange(0, i as int),
        decreases src@.len() - i,
    {
        let b = *slice_index_get(src, i);
        dst.push(b);
        i = i + 1;
        proof {
            assert(src@.subrange(0, i as int) =~= src@.subrange(0, i - 1) + seq![src@[i - 1]]);
            assert(dst@ =~= old(dst)@ + src@.subrange(0, i as int));
        }
    }
    proof {
        assert(src@.subrange(0, src@.len() as int) =~= src@);
    }
}

/// Materializes raw capture positions as subject texts: one entry per
/// capture group, in group order, a group that did not participate in the
/// match materialized as the empty text.
fn cap_to_str(s: &[u8], caps: &Vec<Option<(usize, usize)>>) -> (r: Vec<String>)
    requires
        forall|i: int|
            0 <= i < caps@.len() ==> ((#[trigger] caps@[i]) matches Some(g) ==> g.0 <= g.1
                <= s@.len()),
    ensures
        r.deep_view() == match_texts(s@, caps_ints(caps@)),
        r@.len() == caps@.len(),
{
    let mut out: Vec<String> = Vec::new();
    let mut i: usize = 0;
    while i < caps.len()
        invariant
            forall|k: int|
                0 <= k < caps@.len() ==> ((#[trigger] caps@[k]) matches Some(g) ==> g.0 <= g.1
                    <= s@.len()),
            i <= caps@.len(),
            out@.len() == i,
            forall|k: int|
                0 <= k < i ==> (#[trigger] out@[k])@ == match_texts(s@, caps_ints(caps@))[k],
        decreases caps@.len() - i,
    {
        let g = caps[i];
        match g {
            Some(p) => {
                let piece = slice_subrange(s, p.0, p.1);
                let t = bytes_to_string_lossy(piece);
                out.push(t);
            },
            None => {
                out.push(String::new());
            },
        }
        i = i + 1;
        proof {
            assert(caps_ints(caps@)[i - 1] == match g {
                Some(p) => Some((p.0 as int, p.1 as int)),
                None => None,
            });
        }
    }
    proof {
        assert(out.deep_view() =~= match_texts(s@, caps_ints(caps@)));
    }
    out
}

} // verus!
