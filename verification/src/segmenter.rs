use vstd::prelude::*;
use crate::matcher::spans_wf;
use crate::text::sub_bytes;

verus! {

/// The display style of one contiguous run of body text: plain, or part
/// of the match with the given 0-based ordinal.
#[derive(Clone, Copy, Debug, PartialEq, Eq, Structural)]
pub enum SegStyle {
    Plain,
    Matched(usize),
}

/// A contiguous run of body text tagged with a display style.
#[derive(Debug)]
pub struct Segment {
    pub text: Vec<u8>,
    pub style: SegStyle,
}

/// The mathematical model of a segment sequence: each element is the
/// text slice paired with its style.
pub open spec fn segs_match(segs: Seq<Segment>, m: Seq<(Seq<u8>, SegStyle)>) -> bool {
    &&& segs.len() == m.len()
    &&& forall|i: int|
        0 <= i < segs.len() ==> (#[trigger] segs[i]).text@ == m[i].0 && segs[i].style == m[i].1
}

/// Concatenation of the text slices of a model segment sequence, from
/// index `i` on.
pub open spec fn concat_model(m: Seq<(Seq<u8>, SegStyle)>, i: int) -> Seq<u8>
    decreases m.len() - i,
{
    if i < 0 || i >= m.len() {
        Seq::empty()
    } else {
        m[i].0 + concat_model(m, i + 1)
    }
}

/// The number of match-styled elements of a model segment sequence, from
/// index `i` on.
pub open spec fn match_count_model(m: Seq<(Seq<u8>, SegStyle)>, i: int) -> int
    decreases m.len() - i,
{
    if i < 0 || i >= m.len() {
        0
    } else {
        (if m[i].1 is Matched {
            1int
        } else {
            0int
        }) + match_count_model(m, i + 1)
    }
}

proof fn lemma_concat_shift(pre: Seq<(Seq<u8>, SegStyle)>, rest: Seq<(Seq<u8>, SegStyle)>, i: int)
    requires
        0 <= i <= rest.len(),
    ensures
        concat_model(pre + rest, pre.len() + i) == concat_model(rest, i),
    decreases rest.len() - i,
{
    if i < rest.len() {
        assert((pre + rest)[pre.len() + i] == rest[i]);
        lemma_concat_shift(pre, rest, i + 1);
    }
}

proof fn lemma_concat_append(a: Seq<(Seq<u8>, SegStyle)>, b: Seq<(Seq<u8>, SegStyle)>, i: int)
    requires
        0 <= i <= a.len(),
    ensures
        concat_model(a + b, i) == concat_model(a, i) + concat_model(b, 0),
    decreases a.len() - i,
{
    if i < a.len() {
        assert((a + b)[i] == a[i]);
        lemma_concat_append(a, b, i + 1);
        assert(a[i].0 + (concat_model(a, i + 1) + concat_model(b, 0)) =~= (a[i].0 + concat_model(
            a,
            i + 1,
        )) + concat_model(b, 0));
    } else {
        lemma_concat_shift(a, b, 0);
        assert(concat_model(a + b, a.len() as int) == concat_model(b, 0));
        assert(Seq::<u8>::empty() + concat_model(b, 0) =~= concat_model(b, 0));
    }
}

proof fn lemma_count_shift(pre: Seq<(Seq<u8>, SegStyle)>, rest: Seq<(Seq<u8>, SegStyle)>, i: int)
    requires
        0 <= i <= rest.len(),
    ensures
        match_count_model(pre + rest, pre.len() + i) == match_count_model(rest, i),
    decreases rest.len() - i,
{
    if i < rest.len() {
        assert((pre + rest)[pre.len() + i] == rest[i]);
        lemma_count_shift(pre, rest, i + 1);
    }
}

proof fn lemma_count_append(a: Seq<(Seq<u8>, SegStyle)>, b: Seq<(Seq<u8>, SegStyle)>, i: int)
    requires
        0 <= i <= a.len(),
    ensures
        match_count_model(a + b, i) == match_count_model(a, i) + match_count_model(b, 0),
    decreases a.len() - i,
{
    if i < a.len() {
        assert((a + b)[i] == a[i]);
        lemma_count_append(a, b, i + 1);
    } else {
        lemma_count_shift(a, b, 0);
    }
}

/// The unsplit run sequence for `body` under `spans`, walking from span
/// index `i` at byte position `pos`: a plain segment for each non-empty
/// gap, a match segment (empty or not) for each span, and a trailing
/// plain segment for a non-empty final gap.
pub open spec fn run_model(
    body: Seq<u8>,
    spans: Seq<(usize, usize)>,
    i: int,
    pos: int,
) -> Seq<(Seq<u8>, SegStyle)>
    decreases spans.len() - i,
{
    if i < 0 || i >= spans.len() {
        if pos < body.len() {
            seq![(body.subrange(pos, body.len() as int), SegStyle::Plain)]
        } else {
            Seq::empty()
        }
    } else {
        let s = spans[i].0 as int;
        let e = spans[i].1 as int;
        (if pos < s {
            seq![(body.subrange(pos, s), SegStyle::Plain)]
        } else {
            Seq::empty()
        }) + seq![(body.subrange(s, e), SegStyle::Matched(i as usize))] + run_model(
            body,
            spans,
            i + 1,
            e,
        )
    }
}

/// Tiling of the run sequence: its text slices concatenate to the body
/// from `pos` on.
pub proof fn lemma_runs_tile(body: Seq<u8>, spans: Seq<(usize, usize)>, i: int, pos: int)
    requires
        spans_wf(spans, body.len()),
        0 <= i <= spans.len(),
        0 <= pos <= body.len(),
        i < spans.len() ==> pos <= spans[i].0,
    ensures
        concat_model(run_model(body, spans, i, pos), 0) == body.subrange(pos, body.len() as int),
    decreases spans.len() - i,
{
    if i >= spans.len() {
        if pos < body.len() {
            let m0 = seq![(body.subrange(pos, body.len() as int), SegStyle::Plain)];
            assert(run_model(body, spans, i, pos) == m0);
            assert(concat_model(m0, 1) == Seq::<u8>::empty());
            assert(concat_model(m0, 0) == body.subrange(pos, body.len() as int)
                + Seq::<u8>::empty());
            assert(body.subrange(pos, body.len() as int) + Seq::<u8>::empty() =~= body.subrange(
                pos,
                body.len() as int,
            ));
        } else {
            assert(run_model(body, spans, i, pos) == Seq::<(Seq<u8>, SegStyle)>::empty());
            assert(body.subrange(pos, body.len() as int) =~= Seq::<u8>::empty());
        }
    } else {
        let s = spans[i].0 as int;
        let e = spans[i].1 as int;
        assert(spans[i].0 <= spans[i].1 <= body.len());
        if i + 1 < spans.len() {
            assert(spans[i].1 <= spans[i + 1].0);
        }
        lemma_runs_tile(body, spans, i + 1, e);
        let gap = if pos < s {
            seq![(body.subrange(pos, s), SegStyle::Plain)]
        } else {
            Seq::<(Seq<u8>, SegStyle)>::empty()
        };
        let mid = seq![(body.subrange(s, e), SegStyle::Matched(i as usize))];
        let rest = run_model(body, spans, i + 1, e);
        assert(run_model(body, spans, i, pos) == (gap + mid) + rest);
        lemma_concat_append(gap + mid, rest, 0);
        lemma_concat_append(gap, mid, 0);
        assert(mid.len() == 1);
        assert(mid[0].0 == body.subrange(s, e));
        assert(concat_model(mid, 1) == Seq::<u8>::empty());
        assert(concat_model(mid, 0) == body.subrange(s, e) + Seq::<u8>::empty());
        if pos < s {
            assert(gap.len() == 1);
            assert(concat_model(gap, 1) == Seq::<u8>::empty());
            assert(concat_model(gap, 0) == body.subrange(pos, s) + Seq::<u8>::empty());
        } else {
            assert(concat_model(gap, 0) == Seq::<u8>::empty());
        }
        assert(concat_model(run_model(body, spans, i, pos), 0) =~= body.subrange(
            pos,
            body.len() as int,
        ));
    }
}

/// Match-count of the run sequence: one match segment per span.
pub proof fn lemma_runs_match_count(body: Seq<u8>, spans: Seq<(usize, usize)>, i: int, pos: int)
    requires
        0 <= i <= spans.len(),
    ensures
        match_count_model(run_model(body, spans, i, pos), 0) == spans.len() - i,
    decreases spans.len() - i,
{
    if i >= spans.len() {
        if pos < body.len() {
            let m0 = seq![(body.subrange(pos, body.len() as int), SegStyle::Plain)];
            assert(run_model(body, spans, i, pos) == m0);
            assert(match_count_model(m0, 1) == 0);
            assert(match_count_model(m0, 0) == 0);
        } else {
            assert(run_model(body, spans, i, pos) == Seq::<(Seq<u8>, SegStyle)>::empty());
        }
    } else {
        let s = spans[i].0 as int;
        let e = spans[i].1 as int;
        lemma_runs_match_count(body, spans, i + 1, e);
        let gap = if pos < s {
            seq![(body.subrange(pos, s), SegStyle::Plain)]
        } else {
            Seq::<(Seq<u8>, SegStyle)>::empty()
        };
        let mid = seq![(body.subrange(s, e), SegStyle::Matched(i as usize))];
        let rest = run_model(body, spans, i + 1, e);
        assert(run_model(body, spans, i, pos) == (gap + mid) + rest);
        lemma_count_append(gap + mid, rest, 0);
        lemma_count_append(gap, mid, 0);
        assert(mid.len() == 1);
        assert(match_count_model(mid, 1) == 0);
        assert(match_count_model(mid, 0) == 1);
        if pos < s {
            assert(gap.len() == 1);
            assert(match_count_model(gap, 1) == 0);
            assert(match_count_model(gap, 0) == 0);
        } else {
            assert(match_count_model(gap, 0) == 0);
        }
    }
}

/// Walks the spans over the body and emits the styled runs: a plain
/// segment for each non-empty gap, a match segment for each span (kept
/// even when empty, so zero-width matches stay visible), and the final
/// non-empty gap as a trailing plain segment.
pub fn match_runs(body: &Vec<u8>, spans: &Vec<(usize, usize)>) -> (segs: Vec<Segment>)
    requires
        spans_wf(spans@, body@.len()),
    ensures
        segs_match(segs@, run_model(body@, spans@, 0, 0)),
{
    let mut segs: Vec<Segment> = Vec::new();
    let ghost mut done: Seq<(Seq<u8>, SegStyle)> = Seq::empty();
    let mut pos: usize = 0;
    let mut i: usize = 0;
    while i < spans.len()
        invariant
            spans_wf(spans@, body@.len()),
            i <= spans@.len(),
            pos <= body@.len(),
            i < spans@.len() ==> pos <= spans@[i as int].0,
            segs_match(segs@, done),
            run_model(body@, spans@, 0, 0) == done + run_model(
                body@,
                spans@,
                i as int,
                pos as int,
            ),
        decreases spans@.len() - i,
    {
        let ghost pos0 = pos as int;
        let ghost done0 = done;
        let (s, e) = spans[i];
        assert(spans@[i as int].0 <= spans@[i as int].1 <= body@.len());
        let ghost gap = if pos0 < s {
            seq![(body@.subrange(pos0, s as int), SegStyle::Plain)]
        } else {
            Seq::<(Seq<u8>, SegStyle)>::empty()
        };
        let ghost mid = seq![(body@.subrange(s as int, e as int), SegStyle::Matched(i as usize))];
        let ghost rest = run_model(body@, spans@, i + 1, e as int);
        assert(run_model(body@, spans@, i as int, pos0) == (gap + mid) + rest);
        if pos < s {
            let gtext = sub_bytes(body, pos, s);
            segs.push(Segment { text: gtext, style: SegStyle::Plain });
            proof {
                done = done + gap;
            }
        } else {
            proof {
                done = done + gap;
                assert(done =~= done0);
            }
        }
        let mtext = sub_bytes(body, s, e);
        segs.push(Segment { text: mtext, style: SegStyle::Matched(i) });
        proof {
            done = done + mid;
            assert(done =~= (done0 + gap) + mid);
            assert(done0 + ((gap + mid) + rest) =~= ((done0 + gap) + mid) + rest);
            if i + 1 < spans@.len() {
                assert(spans@[i as int].1 <= spans@[i as int + 1].0);
            }
        }
        pos = e;
        i = i + 1;
    }
    if pos < body.len() {
        let gtext = sub_bytes(body, pos, body.len());
        segs.push(Segment { text: gtext, style: SegStyle::Plain });
        proof {
            done = done + seq![(body@.subrange(pos as int, body@.len() as int), SegStyle::Plain)];
        }
    }
    assert(run_model(body@, spans@, 0, 0) =~= done);
    segs
}

/// The index of the first newline byte at or after `i`, or the length
/// when there is none.
pub open spec fn first_nl(t: Seq<u8>, i: int) -> int
    decreases t.len() - i,
{
    if i >= t.len() {
        t.len() as int
    } else if t[i] == 10u8 {
        i
    } else {
        first_nl(t, i + 1)
    }
}

proof fn lemma_first_nl_ge(t: Seq<u8>, i: int)
    ensures
        i <= t.len() ==> i <= first_nl(t, i) <= t.len(),
        i > t.len() ==> first_nl(t, i) == t.len(),
    decreases t.len() - i,
{
    if i < t.len() && t[i] != 10u8 {
        lemma_first_nl_ge(t, i + 1);
    }
}

/// The pieces of `t[i..]`, cut after each newline byte: every piece
/// carries the same style, and a newline appears only as a piece's last
/// byte.  A run with no newline before its last byte stays one piece; an
/// empty run is one empty piece.
pub open spec fn split_one(t: Seq<u8>, style: SegStyle, i: int) -> Seq<(Seq<u8>, SegStyle)>
    decreases t.len() - i,
    via split_one_decreases
{
    let k = first_nl(t, i);
    if k + 1 >= t.len() {
        seq![(t.subrange(i, t.len() as int), style)]
    } else {
        seq![(t.subrange(i, k + 1), style)] + split_one(t, style, k + 1)
    }
}

#[via_fn]
proof fn split_one_decreases(t: Seq<u8>, style: SegStyle, i: int) {
    lemma_first_nl_ge(t, i);
}

/// Splitting preserves the text: the pieces of `t[i..]` concatenate back
/// to `t[i..]`.
pub proof fn lemma_split_tiles(t: Seq<u8>, style: SegStyle, i: int)
    requires
        0 <= i <= t.len(),
    ensures
        concat_model(split_one(t, style, i), 0) == t.subrange(i, t.len() as int),
    decreases t.len() - i,
{
    lemma_first_nl_ge(t, i);
    let k = first_nl(t, i);
    if k + 1 >= t.len() {
        let m0 = seq![(t.subrange(i, t.len() as int), style)];
        assert(split_one(t, style, i) == m0);
        assert(concat_model(m0, 1) == Seq::<u8>::empty());
        assert(concat_model(m0, 0) == t.subrange(i, t.len() as int) + Seq::<u8>::empty());
        assert(t.subrange(i, t.len() as int) + Seq::<u8>::empty() =~= t.subrange(
            i,
            t.len() as int,
        ));
    } else {
        lemma_split_tiles(t, style, k + 1);
        let head = seq![(t.subrange(i, k + 1), style)];
        let rest = split_one(t, style, k + 1);
        assert(split_one(t, style, i) == head + rest);
        lemma_concat_append(head, rest, 0);
        assert(concat_model(head, 1) == Seq::<u8>::empty());
        assert(concat_model(head, 0) == t.subrange(i, k + 1) + Seq::<u8>::empty());
        assert(concat_model(split_one(t, style, i), 0) =~= t.subrange(i, t.len() as int));
    }
}

/// Every piece of a split carries the style of the run it came from, so
/// the split's match count is its piece count for a match-styled run and
/// zero for a plain one.
pub proof fn lemma_split_count(t: Seq<u8>, style: SegStyle, i: int)
    ensures
        match_count_model(split_one(t, style, i), 0) == (if style is Matched {
            split_one(t, style, i).len() as int
        } else {
            0int
        }),
        split_one(t, style, i).len() >= 1,
        forall|j: int|
            0 <= j < split_one(t, style, i).len() ==> (#[trigger] split_one(t, style, i)[j]).1
                == style,
    decreases t.len() - i,
{
    lemma_first_nl_ge(t, i);
    let k = first_nl(t, i);
    if k + 1 >= t.len() {
        let m0 = seq![(t.subrange(i, t.len() as int), style)];
        assert(split_one(t, style, i) == m0);
        assert(match_count_model(m0, 1) == 0);
    } else {
        lemma_split_count(t, style, k + 1);
        let head = seq![(t.subrange(i, k + 1), style)];
        let rest = split_one(t, style, k + 1);
        assert(split_one(t, style, i) == head + rest);
        lemma_count_append(head, rest, 0);
        assert(match_count_model(head, 1) == 0);
        assert(forall|j: int|
            0 <= j < (head + rest).len() ==> (#[trigger] (head + rest)[j]).1 == style);
    }
}

/// `t[i..]` has no newline before its final byte.
pub open spec fn no_interior_nl(t: Seq<u8>, i: int) -> bool {
    forall|k: int| i <= k < t.len() - 1 ==> t[k] != 10u8
}

/// A run with no interior newline stays a single piece.
pub proof fn lemma_split_single(t: Seq<u8>, style: SegStyle, i: int)
    requires
        0 <= i <= t.len(),
        no_interior_nl(t, i),
    ensures
        split_one(t, style, i) == seq![(t.subrange(i, t.len() as int), style)],
{
    lemma_first_nl_ge(t, i);
    let k = first_nl(t, i);
    if k + 1 < t.len() {
        lemma_first_nl_hits(t, i);
        assert(t[k] == 10u8);
        assert(false);
    }
}

proof fn lemma_first_nl_hits(t: Seq<u8>, i: int)
    requires
        0 <= i <= t.len(),
    ensures
        first_nl(t, i) < t.len() ==> t[first_nl(t, i)] == 10u8,
    decreases t.len() - i,
{
    if i < t.len() && t[i] != 10u8 {
        lemma_first_nl_hits(t, i + 1);
    }
}

/// The whole run sequence split at newlines, from run index `i` on.
pub open spec fn split_all(m: Seq<(Seq<u8>, SegStyle)>, i: int) -> Seq<(Seq<u8>, SegStyle)>
    decreases m.len() - i,
{
    if i < 0 || i >= m.len() {
        Seq::empty()
    } else {
        split_one(m[i].0, m[i].1, 0) + split_all(m, i + 1)
    }
}

/// The full segmenter model: the styled runs for `spans` over `body`,
/// each split at newline boundaries.
pub open spec fn segment_model(body: Seq<u8>, spans: Seq<(usize, usize)>) -> Seq<(Seq<u8>, SegStyle)> {
    split_all(run_model(body, spans, 0, 0), 0)
}

proof fn lemma_split_all_tiles(m: Seq<(Seq<u8>, SegStyle)>, i: int)
    requires
        0 <= i <= m.len(),
    ensures
        concat_model(split_all(m, i), 0) == concat_model(m, i),
    decreases m.len() - i,
{
    if i < m.len() {
        lemma_split_all_tiles(m, i + 1);
        lemma_split_tiles(m[i].0, m[i].1, 0);
        let head = split_one(m[i].0, m[i].1, 0);
        let rest = split_all(m, i + 1);
        lemma_concat_append(head, rest, 0);
        assert(m[i].0.subrange(0, m[i].0.len() as int) =~= m[i].0);
        assert(concat_model(split_all(m, i), 0) =~= concat_model(m, i));
    }
}

/// Tiling invariant: for every body and every well-formed span sequence,
/// the segmenter's output text slices concatenate to the body exactly.
pub proof fn lemma_segment_tiling(body: Seq<u8>, spans: Seq<(usize, usize)>)
    requires
        spans_wf(spans, body.len()),
    ensures
        concat_model(segment_model(body, spans), 0) == body,
{
    lemma_runs_tile(body, spans, 0, 0);
    lemma_split_all_tiles(run_model(body, spans, 0, 0), 0);
    assert(body.subrange(0, body.len() as int) =~= body);
}

/// Match segments of the run at index `i` on survive splitting when no
/// match text holds an interior newline.
proof fn lemma_split_all_count(m: Seq<(Seq<u8>, SegStyle)>, i: int)
    requires
        0 <= i <= m.len(),
        forall|j: int|
            i <= j < m.len() && (#[trigger] m[j]).1 is Matched ==> no_interior_nl(m[j].0, 0),
    ensures
        match_count_model(split_all(m, i), 0) == match_count_model(m, i),
    decreases m.len() - i,
{
    if i < m.len() {
        lemma_split_all_count(m, i + 1);
        let head = split_one(m[i].0, m[i].1, 0);
        let rest = split_all(m, i + 1);
        lemma_count_append(head, rest, 0);
        lemma_split_count(m[i].0, m[i].1, 0);
        if m[i].1 is Matched {
            lemma_split_single(m[i].0, m[i].1, 0);
            assert(head.len() == 1);
        }
    }
}

/// The text of each match segment of the run sequence is its span's text.
proof fn lemma_runs_matched_nl(body: Seq<u8>, spans: Seq<(usize, usize)>, i: int, pos: int)
    requires
        spans_wf(spans, body.len()),
        0 <= i <= spans.len(),
        forall|k: int|
            0 <= k < spans.len() ==> no_interior_nl(
                body.subrange((#[trigger] spans[k]).0 as int, spans[k].1 as int),
                0,
            ),
    ensures
        forall|j: int|
            0 <= j < run_model(body, spans, i, pos).len() && (#[trigger] run_model(
                body,
                spans,
                i,
                pos,
            )[j]).1 is Matched ==> no_interior_nl(run_model(body, spans, i, pos)[j].0, 0),
    decreases spans.len() - i,
{
    if i < spans.len() {
        let s = spans[i].0 as int;
        let e = spans[i].1 as int;
        lemma_runs_matched_nl(body, spans, i + 1, e);
        let gap = if pos < s {
            seq![(body.subrange(pos, s), SegStyle::Plain)]
        } else {
            Seq::<(Seq<u8>, SegStyle)>::empty()
        };
        let mid = seq![(body.subrange(s, e), SegStyle::Matched(i as usize))];
        let rest = run_model(body, spans, i + 1, e);
        assert(run_model(body, spans, i, pos) == (gap + mid) + rest);
        assert forall|j: int|
            0 <= j < run_model(body, spans, i, pos).len() && (#[trigger] run_model(
                body,
                spans,
                i,
                pos,
            )[j]).1 is Matched implies no_interior_nl(run_model(body, spans, i, pos)[j].0, 0) by {
            let whole = (gap + mid) + rest;
            if j < gap.len() {
                assert(whole[j] == gap[j]);
            } else if j < gap.len() + 1 {
                assert(whole[j] == mid[0]);
                assert(no_interior_nl(body.subrange(s, e), 0));
            } else {
                assert(whole[j] == rest[j - gap.len() - 1]);
            }
        }
    }
}

/// Match-count invariant: when no match text holds a newline before its
/// last byte, the number of match-styled segments (zero-length ones
/// included) equals the number of spans.  A match whose text holds an
/// interior newline is split into several match-styled pieces, so it is
/// excluded here; the same count holds unconditionally of the unsplit
/// run sequence by `lemma_runs_match_count`.
pub proof fn lemma_segment_match_count(body: Seq<u8>, spans: Seq<(usize, usize)>)
    requires
        spans_wf(spans, body.len()),
        forall|k: int|
            0 <= k < spans.len() ==> no_interior_nl(
                body.subrange((#[trigger] spans[k]).0 as int, spans[k].1 as int),
                0,
            ),
    ensures
        match_count_model(segment_model(body, spans), 0) == spans.len(),
{
    lemma_runs_match_count(body, spans, 0, 0);
    lemma_runs_matched_nl(body, spans, 0, 0);
    lemma_split_all_count(run_model(body, spans, 0, 0), 0);
}

/// Concatenation of the text of executable segments, from index `i` on.
pub open spec fn concat_segs(segs: Seq<Segment>, i: int) -> Seq<u8>
    decreases segs.len() - i,
{
    if i < 0 || i >= segs.len() {
        Seq::empty()
    } else {
        segs[i].text@ + concat_segs(segs, i + 1)
    }
}

/// The number of match-styled executable segments, from index `i` on.
pub open spec fn match_count_segs(segs: Seq<Segment>, i: int) -> int
    decreases segs.len() - i,
{
    if i < 0 || i >= segs.len() {
        0
    } else {
        (if segs[i].style is Matched {
            1int
        } else {
            0int
        }) + match_count_segs(segs, i + 1)
    }
}

/// Executable segments that match a model concatenate and count as the
/// model does.
pub proof fn lemma_segs_match_concat(segs: Seq<Segment>, m: Seq<(Seq<u8>, SegStyle)>, i: int)
    requires
        segs_match(segs, m),
        0 <= i <= segs.len(),
    ensures
        concat_segs(segs, i) == concat_model(m, i),
        match_count_segs(segs, i) == match_count_model(m, i),
    decreases segs.len() - i,
{
    if i < segs.len() {
        lemma_segs_match_concat(segs, m, i + 1);
    }
}

/// Splits one text run into pieces at newline boundaries, keeping the
/// style, and pushes them onto `segs`.
fn split_push(text: &Vec<u8>, style: SegStyle, start: usize, segs: &mut Vec<Segment>)
    requires
        start <= text@.len(),
    ensures
        final(segs)@.len() == old(segs)@.len() + split_one(text@, style, start as int).len(),
        forall|k: int| 0 <= k < old(segs)@.len() ==> final(segs)@[k] == old(segs)@[k],
        forall|k: int|
            0 <= k < split_one(text@, style, start as int).len() ==> (#[trigger] final(segs)@[old(
                segs,
            )@.len() + k]).text@ == split_one(text@, style, start as int)[k].0 && final(segs)@[old(
                segs,
            )@.len() + k].style == split_one(text@, style, start as int)[k].1,
    decreases text@.len() - start,
{
    proof {
        lemma_first_nl_ge(text@, start as int);
        lemma_first_nl_hits(text@, start as int);
    }
    let mut j: usize = start;
    while j < text.len() && text[j] != 10u8
        invariant
            start <= j <= text@.len(),
            first_nl(text@, start as int) == first_nl(text@, j as int),
        decreases text@.len() - j,
    {
        j = j + 1;
    }
    assert(first_nl(text@, j as int) == j);
    if j >= text.len() || j + 1 >= text.len() {
        let piece = sub_bytes(text, start, text.len());
        segs.push(Segment { text: piece, style });
        assert(split_one(text@, style, start as int) == seq![
            (text@.subrange(start as int, text@.len() as int), style),
        ]);
    } else {
        let piece = sub_bytes(text, start, j + 1);
        segs.push(Segment { text: piece, style });
        let ghost segs1 = segs@;
        split_push(text, style, j + 1, segs);
        proof {
            let pieces = split_one(text@, style, start as int);
            let restp = split_one(text@, style, j + 1);
            assert(pieces == seq![(text@.subrange(start as int, j + 1), style)] + restp);
            assert forall|k: int| 0 <= k < pieces.len() implies (#[trigger] segs@[old(segs)@.len()
                + k]).text@ == pieces[k].0 && segs@[old(segs)@.len() + k].style
                == pieces[k].1 by {
                if k == 0 {
                    assert(segs@[old(segs)@.len() as int] == segs1[old(segs)@.len() as int]);
                    assert(pieces[0] == (text@.subrange(start as int, j + 1), style));
                } else {
                    assert(segs@[segs1.len() + (k - 1)].text@ == restp[k - 1].0);
                    assert(segs@[segs1.len() + (k - 1)].style == restp[k - 1].1);
                    assert(pieces[k] == restp[k - 1]);
                }
            }
        }
    }
}

/// Partitions `body` into styled runs according to `spans` and splits
/// every run at newline boundaries: the result is `segment_model`, its
/// text slices tile the body exactly, and zero-width matches appear as
/// empty match segments.
pub fn segment(body: &Vec<u8>, spans: &Vec<(usize, usize)>) -> (segs: Vec<Segment>)
    requires
        spans_wf(spans@, body@.len()),
    ensures
        segs_match(segs@, segment_model(body@, spans@)),
        concat_segs(segs@, 0) == body@,
{
    let runs = match_runs(body, spans);
    let ghost rm = run_model(body@, spans@, 0, 0);
    let mut segs: Vec<Segment> = Vec::new();
    let ghost mut done: Seq<(Seq<u8>, SegStyle)> = Seq::empty();
    let mut i: usize = 0;
    while i < runs.len()
        invariant
            segs_match(runs@, rm),
            i <= runs@.len(),
            segs_match(segs@, done),
            split_all(rm, 0) == done + split_all(rm, i as int),
        decreases runs@.len() - i,
    {
        let r = &runs[i];
        let ghost head = split_one(rm[i as int].0, rm[i as int].1, 0);
        let ghost rest = split_all(rm, i + 1);
        assert(split_all(rm, i as int) == head + rest);
        let ghost done0 = done;
        let ghost segs0 = segs@;
        split_push(&r.text, r.style, 0, &mut segs);
        proof {
            assert(r.text@ == rm[i as int].0 && r.style == rm[i as int].1);
            assert(split_one(r.text@, r.style, 0) == head);
            done = done + head;
            assert forall|k: int| 0 <= k < segs@.len() implies (#[trigger] segs@[k]).text@
                == done[k].0 && segs@[k].style == done[k].1 by {
                if k < segs0.len() {
                    assert(segs@[k] == segs0[k]);
                    assert(done[k] == done0[k]);
                } else {
                    assert(segs@[segs0.len() + (k - segs0.len())].text@ == head[k
                        - segs0.len()].0);
                    assert(segs@[segs0.len() + (k - segs0.len())].style == head[k
                        - segs0.len()].1);
                    assert(done[k] == head[k - segs0.len()]);
                }
            }
            assert(segs_match(segs@, done));
            assert(done0 + (head + rest) =~= (done0 + head) + rest);
        }
        i = i + 1;
    }
    assert(split_all(rm, 0) =~= done);
    proof {
        lemma_segs_match_concat(segs@, segment_model(body@, spans@), 0);
        lemma_segment_tiling(body@, spans@);
    }
    segs
}

} // verus!
