//! The mathematical model of position-tracked iteration and substitution:
//! what repeated cursor-advancing match attempts produce, and how a
//! substitution output is spliced together from gaps, replacements and the
//! final suffix. The laws of the engine are proved here, once and for all
//! inputs, over this model.

use vstd::prelude::*;

use crate::matcher::caps_valid;
use crate::matcher::compile_ok;
use crate::matcher::pattern_captures;
use crate::matcher::search_at;

verus! {

/// A compiled pattern as the model sees it: the pattern text together with
/// the matching options handed to the matcher backend.
pub ghost struct Pat {
    pub pattern: Seq<char>,
    pub ci: bool,
    pub ml: bool,
    pub da: bool,
}

/// Whether the matcher backend accepts the pattern.
pub open spec fn pat_ok(p: Pat) -> bool {
    compile_ok(p.pattern, p.ci, p.ml, p.da)
}

/// The pattern's capture count, the whole-match group 0 included.
pub open spec fn pat_captures(p: Pat) -> nat {
    pattern_captures(p.pattern, p.ci, p.ml, p.da)
}

/// One execute-at-offset attempt of the pattern on a subject.
pub open spec fn pat_search(p: Pat, subject: Seq<u8>, start: int) -> Option<
    Seq<Option<(int, int)>>,
> {
    search_at(p.pattern, p.ci, p.ml, p.da, subject, start)
}

/// The byte span of a whole match: the offsets of group 0.
pub open spec fn span0(caps: Seq<Option<(int, int)>>) -> (int, int) {
    caps[0].unwrap()
}

/// The cursor for the attempt after a match: the end of the match, forced
/// one byte forward when the match was zero-width, so that iteration always
/// makes progress past a zero-width match.
pub open spec fn next_scan(caps: Seq<Option<(int, int)>>) -> int {
    if span0(caps).0 == span0(caps).1 {
        span0(caps).1 + 1
    } else {
        span0(caps).1
    }
}

/// The matches produced by up to `n` attempts of cursor-advancing iteration
/// on a subject, beginning at byte offset `scan`: each attempt searches from
/// the cursor, and each success moves the cursor to [`next_scan`]; the run
/// ends at the first failed attempt, or when the bound or the subject end is
/// passed.
pub open spec fn match_list(p: Pat, s: Seq<u8>, scan: int, n: nat) -> Seq<
    Seq<Option<(int, int)>>,
>
    decreases n,
{
    if n == 0 || scan > s.len() {
        seq![]
    } else {
        match pat_search(p, s, scan) {
            None => seq![],
            Some(caps) => seq![caps] + match_list(p, s, next_scan(caps), (n - 1) as nat),
        }
    }
}

/// The text of one capture group: the decoded bytes of its span, or the
/// empty text for a group that did not participate in the match.
pub open spec fn group_text(s: Seq<u8>, g: Option<(int, int)>) -> Seq<char> {
    match g {
        Some(sp) => crate::matcher::lossy_decode(s.subrange(sp.0, sp.1)),
        None => seq![],
    }
}

/// The materialized texts of one match, one entry per capture group, the
/// whole match (group 0) first.
pub open spec fn match_texts(s: Seq<u8>, caps: Seq<Option<(int, int)>>) -> Seq<Seq<char>> {
    Seq::new(caps.len(), |i: int| group_text(s, caps[i]))
}

/// The materialized texts of every match of an iteration run.
pub open spec fn match_list_texts(p: Pat, s: Seq<u8>, scan: int, n: nat) -> Seq<Seq<Seq<char>>> {
    match_list(p, s, scan, n).map_values(|caps: Seq<Option<(int, int)>>| match_texts(s, caps))
}

/// The whole-match spans of an iteration run.
pub open spec fn spans_of(l: Seq<Seq<Option<(int, int)>>>) -> Seq<(int, int)> {
    l.map_values(|caps: Seq<Option<(int, int)>>| span0(caps))
}

/// The output fragments of a substitution before its final suffix: for each
/// match in order, the verbatim gap from the previous match end `last` to
/// the match start, then the replacement for that match.
pub open spec fn splice_prefix(
    s: Seq<u8>,
    spans: Seq<(int, int)>,
    reps: Seq<Seq<u8>>,
    last: int,
) -> Seq<u8>
    decreases spans.len(),
{
    if spans.len() == 0 {
        seq![]
    } else {
        s.subrange(last, spans[0].0) + reps[0] + splice_prefix(
            s,
            spans.skip(1),
            reps.skip(1),
            spans[0].1,
        )
    }
}

/// Where the final verbatim suffix of a substitution begins: the end of the
/// last match, or `last` when there was no match.
pub open spec fn last_end(spans: Seq<(int, int)>, last: int) -> int {
    if spans.len() == 0 {
        last
    } else {
        spans.last().1
    }
}

/// A whole substitution output: every gap and replacement in order, then the
/// verbatim suffix from the end of the last match to the end of the subject.
pub open spec fn splice(s: Seq<u8>, spans: Seq<(int, int)>, reps: Seq<Seq<u8>>, last: int) -> Seq<
    u8,
> {
    splice_prefix(s, spans, reps, last) + s.subrange(last_end(spans, last), s.len() as int)
}

/// The sum of the widths of a sequence of spans.
pub open spec fn width_sum(spans: Seq<(int, int)>) -> int
    decreases spans.len(),
{
    if spans.len() == 0 {
        0
    } else {
        (spans[0].1 - spans[0].0) + width_sum(spans.skip(1))
    }
}

/// The sum of the lengths of a sequence of byte fragments.
pub open spec fn len_sum(reps: Seq<Seq<u8>>) -> int
    decreases reps.len(),
{
    if reps.len() == 0 {
        0
    } else {
        reps[0].len() + len_sum(reps.skip(1))
    }
}

} // verus!

verus! {

/// Every span a run can produce lies within the subject and does not precede
/// the cursor the run began at; consecutive matches come in left-to-right
/// subject order, each beginning no earlier than the previous match's end;
/// and every match carries exactly the pattern's capture count of groups,
/// the whole match present as group 0.
pub proof fn lemma_matches_ordered(p: Pat, s: Seq<u8>, scan: int, n: nat)
    requires
        0 <= scan,
    ensures
        forall|i: int|
            0 <= i < match_list(p, s, scan, n).len() ==> (#[trigger] match_list(p, s, scan, n)[i]).len()
                == pat_captures(p) && match_list(p, s, scan, n)[i][0] is Some,
        forall|i: int|
            0 <= i < match_list(p, s, scan, n).len() ==> scan <= span0(
                #[trigger] match_list(p, s, scan, n)[i],
            ).0 <= span0(match_list(p, s, scan, n)[i]).1 <= s.len(),
        forall|i: int|
            0 <= i < match_list(p, s, scan, n).len() - 1 ==> span0(
                #[trigger] match_list(p, s, scan, n)[i],
            ).1 <= span0(match_list(p, s, scan, n)[i + 1]).0,
        match_list(p, s, scan, n).len() <= n,
    decreases n,
{
    if n == 0 || scan > s.len() {
    } else {
        match pat_search(p, s, scan) {
            None => {},
            Some(caps) => {
                assert(caps_valid(caps, scan, s.len() as int, pat_captures(p)));
                let sc2 = next_scan(caps);
                lemma_matches_ordered(p, s, sc2, (n - 1) as nat);
                let l = match_list(p, s, scan, n);
                let lt = match_list(p, s, sc2, (n - 1) as nat);
                assert(l == seq![caps] + lt);
                assert(forall|i: int| 0 <= i < lt.len() ==> l[i + 1] == lt[i]);
                assert(span0(caps).1 <= sc2);
                assert(forall|i: int|
                    0 <= i < l.len() - 1 ==> span0(#[trigger] l[i]).1 <= span0(l[i + 1]).0) by {
                    assert(forall|i: int|
                        0 <= i < lt.len() ==> sc2 <= span0(#[trigger] lt[i]).0 <= span0(lt[i]).1
                            <= s.len());
                }
            },
        }
    }
}

/// A run bounded by `n` is exactly the first `n` matches of any longer run:
/// shortening the bound truncates the result and changes nothing else.
pub proof fn lemma_bounded_prefix(p: Pat, s: Seq<u8>, scan: int, n: nat, m: nat)
    requires
        n <= m,
    ensures
        match_list(p, s, scan, m).len() <= n ==> match_list(p, s, scan, n) == match_list(
            p,
            s,
            scan,
            m,
        ),
        match_list(p, s, scan, m).len() > n ==> match_list(p, s, scan, n) == match_list(
            p,
            s,
            scan,
            m,
        ).take(n as int),
        match_list(p, s, scan, n).len() <= n,
    decreases n,
{
    if n == 0 || scan > s.len() {
    } else {
        match pat_search(p, s, scan) {
            None => {},
            Some(caps) => {
                let sc2 = next_scan(caps);
                lemma_bounded_prefix(p, s, sc2, (n - 1) as nat, (m - 1) as nat);
                let a = match_list(p, s, scan, n);
                let b = match_list(p, s, scan, m);
                let at = match_list(p, s, sc2, (n - 1) as nat);
                let bt = match_list(p, s, sc2, (m - 1) as nat);
                assert(a == seq![caps] + at);
                assert(b == seq![caps] + bt);
                if bt.len() > n - 1 {
                    assert(a =~= b.take(n as int));
                }
            },
        }
    }
}

} // verus!

verus! {

/// Spans that a substitution can consume: each an ordered range within the
/// subject, each beginning no earlier than the previous one ended, the first
/// no earlier than `last`.
pub open spec fn spans_ordered(s: Seq<u8>, spans: Seq<(int, int)>, last: int) -> bool {
    &&& 0 <= last <= s.len()
    &&& forall|i: int| 0 <= i < spans.len() ==> (#[trigger] spans[i]).0 <= spans[i].1 <= s.len()
    &&& forall|i: int|
        0 <= i < spans.len() ==> (if i == 0 {
            last
        } else {
            spans[i - 1].1
        }) <= (#[trigger] spans[i]).0
}

/// Appending one more match to a substitution appends its gap and its
/// replacement to the spliced prefix.
pub proof fn lemma_splice_prefix_snoc(
    s: Seq<u8>,
    spans: Seq<(int, int)>,
    reps: Seq<Seq<u8>>,
    last: int,
    sp: (int, int),
    rep: Seq<u8>,
)
    requires
        spans.len() == reps.len(),
    ensures
        splice_prefix(s, spans.push(sp), reps.push(rep), last) == splice_prefix(
            s,
            spans,
            reps,
            last,
        ) + s.subrange(last_end(spans, last), sp.0) + rep,
    decreases spans.len(),
{
    assert(spans.push(sp)[0] == if spans.len() == 0 {
        sp
    } else {
        spans[0]
    });
    assert(reps.push(rep)[0] == if reps.len() == 0 {
        rep
    } else {
        reps[0]
    });
    if spans.len() == 0 {
        assert(spans.push(sp).skip(1) =~= Seq::<(int, int)>::empty());
        assert(reps.push(rep).skip(1) =~= Seq::<Seq<u8>>::empty());
        assert(splice_prefix(s, Seq::<(int, int)>::empty(), Seq::<Seq<u8>>::empty(), sp.1)
            == Seq::<u8>::empty());
        assert(splice_prefix(s, spans.push(sp), reps.push(rep), last) =~= s.subrange(last, sp.0)
            + rep);
        assert(splice_prefix(s, spans, reps, last) == Seq::<u8>::empty());
    } else {
        assert(spans.push(sp).skip(1) =~= spans.skip(1).push(sp));
        assert(reps.push(rep).skip(1) =~= reps.skip(1).push(rep));
        lemma_splice_prefix_snoc(s, spans.skip(1), reps.skip(1), spans[0].1, sp, rep);
        assert(last_end(spans.skip(1), spans[0].1) == last_end(spans, last));
        assert(splice_prefix(s, spans.push(sp), reps.push(rep), last) =~= splice_prefix(
            s,
            spans,
            reps,
            last,
        ) + s.subrange(last_end(spans, last), sp.0) + rep);
    }
}

/// The length of a substitution output: the subject from `last` on, minus
/// every byte the matches consumed, plus every byte the replacements added.
pub proof fn lemma_splice_len(s: Seq<u8>, spans: Seq<(int, int)>, reps: Seq<Seq<u8>>, last: int)
    requires
        reps.len() == spans.len(),
        spans_ordered(s, spans, last),
    ensures
        splice(s, spans, reps, last).len() == s.len() - last - width_sum(spans) + len_sum(reps),
    decreases spans.len(),
{
    if spans.len() == 0 {
    } else {
        let sp0 = spans[0];
        assert(spans_ordered(s, spans.skip(1), sp0.1)) by {
            assert(forall|i: int| 0 <= i < spans.skip(1).len() ==> spans.skip(1)[i] == spans[i + 1]);
        }
        lemma_splice_len(s, spans.skip(1), reps.skip(1), sp0.1);
        assert(last_end(spans, last) == last_end(spans.skip(1), sp0.1));
        assert(splice(s, spans, reps, last) =~= s.subrange(last, sp0.0) + reps[0] + splice(
            s,
            spans.skip(1),
            reps.skip(1),
            sp0.1,
        ));
    }
}

/// Identity decomposition: splicing the gaps, the replacements and the final
/// suffix of a whole run reconstructs an output whose length is the
/// subject's length, minus the total width of the matched spans, plus the
/// total length of the replacements.
pub proof fn lemma_substitution_length(p: Pat, s: Seq<u8>, n: nat, reps: Seq<Seq<u8>>)
    requires
        reps.len() == match_list(p, s, 0, n).len(),
    ensures
        splice(s, spans_of(match_list(p, s, 0, n)), reps, 0).len() == s.len() - width_sum(
            spans_of(match_list(p, s, 0, n)),
        ) + len_sum(reps),
{
    let l = match_list(p, s, 0, n);
    let spans = spans_of(l);
    lemma_matches_ordered(p, s, 0, n);
    assert(spans_ordered(s, spans, 0)) by {
        assert(forall|i: int| 0 <= i < l.len() ==> #[trigger] spans[i] == span0(l[i]));
    }
    lemma_splice_len(s, spans, reps, 0);
}

/// Idempotence of a no-op substitution: when the pattern does not match the
/// subject at all, a run produces no matches and the spliced output is the
/// subject itself, whatever the replacements would have been.
pub proof fn lemma_no_match_identity(p: Pat, s: Seq<u8>, n: nat, reps: Seq<Seq<u8>>)
    requires
        pat_search(p, s, 0) is None,
    ensures
        match_list(p, s, 0, n).len() == 0,
        splice(s, spans_of(match_list(p, s, 0, n)), reps, 0) == s,
{
    assert(match_list(p, s, 0, n) =~= Seq::<Seq<Option<(int, int)>>>::empty());
    assert(spans_of(match_list(p, s, 0, n)) =~= Seq::<(int, int)>::empty());
    assert(splice(s, spans_of(match_list(p, s, 0, n)), reps, 0) =~= s);
}

} // verus!

verus! {

/// Capture count consistency: every match a run materializes has exactly the
/// pattern's declared capture count of texts, the whole match (group 0)
/// counted among them.
pub proof fn lemma_capture_counts(p: Pat, s: Seq<u8>, scan: int, n: nat)
    requires
        0 <= scan,
    ensures
        forall|i: int|
            0 <= i < match_list_texts(p, s, scan, n).len() ==> (#[trigger] match_list_texts(
                p,
                s,
                scan,
                n,
            )[i]).len() == pat_captures(p),
{
    lemma_matches_ordered(p, s, scan, n);
    assert(forall|i: int|
        0 <= i < match_list(p, s, scan, n).len() ==> (#[trigger] match_list_texts(p, s, scan, n)[i])
            == match_texts(s, match_list(p, s, scan, n)[i]));
}

} // verus!

verus! {

/// Bounded count respected, seen on materialized results: a run bounded by
/// `n` yields at most `n` matches, and exactly the first `n` materialized
/// matches of any run with a larger bound — the whole longer run when that
/// run has no more than `n` matches.
pub proof fn lemma_bounded_prefix_texts(p: Pat, s: Seq<u8>, scan: int, n: nat, m: nat)
    requires
        n <= m,
    ensures
        match_list_texts(p, s, scan, n).len() <= n,
        match_list(p, s, scan, m).len() <= n ==> match_list_texts(p, s, scan, n)
            == match_list_texts(p, s, scan, m),
        match_list(p, s, scan, m).len() > n ==> match_list_texts(p, s, scan, n)
            == match_list_texts(p, s, scan, m).take(n as int),
{
    lemma_bounded_prefix(p, s, scan, n, m);
    if match_list(p, s, scan, m).len() <= n {
        assert(match_list_texts(p, s, scan, n) =~= match_list_texts(p, s, scan, m));
    } else {
        assert(match_list(p, s, scan, n) == match_list(p, s, scan, m).take(
            match_list(p, s, scan, n).len() as int,
        ));
        assert(match_list_texts(p, s, scan, n) =~= match_list_texts(p, s, scan, m).take(n as int));
    }
}

} // verus!
