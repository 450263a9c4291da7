//! Annotation of one origin line: sorting its phantom spans and splicing
//! them with the real text into a segment list stamped with all three
//! coordinate spaces.

use vstd::prelude::*;
use vstd::multiset::Multiset;

use crate::interval::Interval;
use crate::phantom::{folded_len, kind_rank, spec_next_line, text_len, PhantomText, PhantomTextKind};
use crate::segment::{prefix_final, prefix_merge, seg_col_start, seg_final_width, seg_line,
    seg_merge_start, seg_merge_width, seg_placed, texts_wf, fold_precedes, OriginText, Text};

verus! {

// ---------------------------------------------------------------------------
// Ordering of spans within one line
// ---------------------------------------------------------------------------

/// Sort order of two spans: by merge column, ties broken by kind priority.
pub open spec fn span_key_le(a: PhantomText, b: PhantomText) -> bool {
    a.merge_col < b.merge_col || (a.merge_col == b.merge_col && kind_rank(a.kind) <= kind_rank(
        b.kind,
    ))
}

/// The sequence is sorted by `span_key_le`.
pub open spec fn spans_sorted(s: Seq<PhantomText>) -> bool {
    forall|i: int| 0 <= i && i + 1 < s.len() ==> span_key_le(#[trigger] s[i], s[i + 1])
}

/// One span is acceptable on a line of `olen` columns: its column equals its
/// merge column (nothing is merged in front of a single line), it names the
/// line it sits on, the columns it hides lie within the line, and a fold
/// that continues on another line swallows the rest of this one.
pub open spec fn span_ok(p: PhantomText, line: int, olen: int) -> bool {
    &&& p.col == p.merge_col
    &&& p.line == line
    &&& p.merge_col + folded_len(p) <= olen
    &&& (spec_next_line(p) matches Some(nl) ==> nl > line && p.merge_col + folded_len(p) == olen)
}

/// Two spans never hide overlapping columns, and co-located spans of equal
/// priority hide nothing (their order would otherwise be ambiguous).
pub open spec fn spans_sep(a: PhantomText, b: PhantomText) -> bool {
    &&& (a.merge_col + folded_len(a) <= b.merge_col || b.merge_col + folded_len(b) <= a.merge_col)
    &&& (a.merge_col == b.merge_col && kind_rank(a.kind) == kind_rank(b.kind) ==> folded_len(a)
        == 0 && folded_len(b) == 0)
}

/// All spans handed to the annotator for one line are acceptable and
/// pairwise separated.
pub open spec fn spans_wf(s: Seq<PhantomText>, line: int, olen: int) -> bool {
    &&& forall|i: int| 0 <= i < s.len() ==> span_ok(#[trigger] s[i], line, olen)
    &&& forall|i: int, j: int|
        0 <= i < s.len() && 0 <= j < s.len() && i != j ==> spans_sep(
            #[trigger] s[i],
            #[trigger] s[j],
        )
}

/// Stable insertion of a span into a sorted sequence: the span goes after
/// every span whose key is less than or equal to its own.
pub open spec fn spec_insert_span(s: Seq<PhantomText>, p: PhantomText) -> Seq<PhantomText>
    decreases s.len(),
{
    if s.len() == 0 {
        seq![p]
    } else if span_key_le(s.last(), p) {
        s.push(p)
    } else {
        spec_insert_span(s.drop_last(), p).push(s.last())
    }
}

/// Stable insertion sort by `(merge_col, kind priority)`.
pub open spec fn spec_sort_spans(s: Seq<PhantomText>) -> Seq<PhantomText>
    decreases s.len(),
{
    if s.len() == 0 {
        Seq::empty()
    } else {
        spec_insert_span(spec_sort_spans(s.drop_last()), s.last())
    }
}

/// Total length of virtual text over a prefix of the spans.
pub open spec fn spec_sum_text(s: Seq<PhantomText>, n: int) -> int
    decreases n,
{
    if n <= 0 {
        0
    } else {
        spec_sum_text(s, n - 1) + text_len(s[n - 1])
    }
}

/// Total number of hidden origin columns over a prefix of the spans.
pub open spec fn spec_sum_folded(s: Seq<PhantomText>, n: int) -> int
    decreases n,
{
    if n <= 0 {
        0
    } else {
        spec_sum_folded(s, n - 1) + folded_len(s[n - 1])
    }
}

proof fn lemma_insert_span_len(s: Seq<PhantomText>, p: PhantomText)
    ensures
        spec_insert_span(s, p).len() == s.len() + 1,
    decreases s.len(),
{
    if s.len() > 0 && !span_key_le(s.last(), p) {
        lemma_insert_span_len(s.drop_last(), p);
    }
}

/// Inserting a span adds exactly that span to the sequence's multiset.
proof fn lemma_insert_span_multiset(s: Seq<PhantomText>, p: PhantomText)
    ensures
        spec_insert_span(s, p).to_multiset() =~= s.to_multiset().insert(p),
    decreases s.len(),
{
    broadcast use vstd::seq_lib::group_to_multiset_ensures;

    if s.len() == 0 {
        assert(seq![p] =~= Seq::<PhantomText>::empty().push(p));
        assert(s.to_multiset() =~= Multiset::<PhantomText>::empty()) by {
            assert(forall|x: PhantomText| !s.contains(x));
        }
    } else if span_key_le(s.last(), p) {
    } else {
        lemma_insert_span_multiset(s.drop_last(), p);
        assert(s =~= s.drop_last().push(s.last()));
        assert(s.to_multiset() =~= s.drop_last().to_multiset().insert(s.last()));
    }
}

/// Sorting permutes the spans: the multiset of spans is unchanged.
proof fn lemma_sort_spans_multiset(s: Seq<PhantomText>)
    ensures
        spec_sort_spans(s).to_multiset() =~= s.to_multiset(),
    decreases s.len(),
{
    broadcast use vstd::seq_lib::group_to_multiset_ensures;

    if s.len() == 0 {
        assert(forall|x: PhantomText| !s.contains(x));
        assert(forall|x: PhantomText| !spec_sort_spans(s).contains(x));
    } else {
        lemma_sort_spans_multiset(s.drop_last());
        lemma_insert_span_multiset(spec_sort_spans(s.drop_last()), s.last());
        assert(s =~= s.drop_last().push(s.last()));
        assert(s.to_multiset() =~= s.drop_last().to_multiset().insert(s.last()));
    }
}

/// A value at two distinct positions counts at least twice in the multiset.
proof fn lemma_count_two(s: Seq<PhantomText>, i: int, j: int)
    requires
        0 <= i < s.len(),
        0 <= j < s.len(),
        i != j,
        s[i] == s[j],
    ensures
        s.to_multiset().count(s[i]) >= 2,
{
    broadcast use vstd::seq_lib::group_to_multiset_ensures;

    let t = s.remove(i);
    assert(t.to_multiset() =~= s.to_multiset().remove(s[i]));
    let j2: int = if j < i {
        j
    } else {
        j - 1
    };
    assert(t[j2] == s[j]);
    assert(t.contains(s[i]));
    assert(t.to_multiset().count(s[i]) > 0);
}

/// A value counted at least twice sits at two distinct positions.
proof fn lemma_two_indices(s: Seq<PhantomText>, v: PhantomText) -> (r: (int, int))
    requires
        s.to_multiset().count(v) >= 2,
    ensures
        0 <= r.0 < s.len(),
        0 <= r.1 < s.len(),
        r.0 != r.1,
        s[r.0] == v,
        s[r.1] == v,
{
    broadcast use vstd::seq_lib::group_to_multiset_ensures;

    assert(s.contains(v));
    let i = choose|i: int| 0 <= i < s.len() && s[i] == v;
    let t = s.remove(i);
    assert(t.to_multiset() =~= s.to_multiset().remove(v));
    assert(t.to_multiset().count(v) >= 1);
    assert(t.contains(v));
    let k = choose|k: int| 0 <= k < t.len() && t[k] == v;
    let j: int = if k < i {
        k
    } else {
        k + 1
    };
    assert(s[j] == t[k]);
    assert(s[i] == v && s[j] == v && i != j);
    (i, j)
}

/// Insertion keeps both running sums: the result's totals are the old
/// totals plus the new span's contribution.
proof fn lemma_insert_span_sums(s: Seq<PhantomText>, p: PhantomText)
    ensures
        spec_sum_text(spec_insert_span(s, p), s.len() as int + 1) == spec_sum_text(s, s.len() as int)
            + text_len(p),
        spec_sum_folded(spec_insert_span(s, p), s.len() as int + 1) == spec_sum_folded(s, s.len() as int)
            + folded_len(p),
    decreases s.len(),
{
    lemma_insert_span_len(s, p);
    let n = s.len() as int;
    if s.len() == 0 {
        let r = spec_insert_span(s, p);
        assert(spec_sum_text(r, 0) == 0);
        assert(spec_sum_folded(r, 0) == 0);
        assert(r[0] == p);
        assert(spec_sum_text(r, 1) == text_len(p));
        assert(spec_sum_folded(r, 1) == folded_len(p));
    } else if span_key_le(s.last(), p) {
        let r = s.push(p);
        lemma_sum_prefix_agree(s, r, n);
        assert(r[n] == p);
        assert(spec_sum_text(r, n + 1) == spec_sum_text(r, n) + text_len(p));
        assert(spec_sum_folded(r, n + 1) == spec_sum_folded(r, n) + folded_len(p));
    } else {
        lemma_insert_span_sums(s.drop_last(), p);
        let r0 = spec_insert_span(s.drop_last(), p);
        let r = r0.push(s.last());
        lemma_insert_span_len(s.drop_last(), p);
        lemma_sum_prefix_agree(r0, r, n);
        lemma_sum_prefix_agree(s.drop_last(), s, n - 1);
        assert(r[n] == s.last());
        assert(spec_sum_text(r, n + 1) == spec_sum_text(r, n) + text_len(s.last()));
        assert(spec_sum_text(s, n) == spec_sum_text(s, n - 1) + text_len(s[n - 1]));
        assert(spec_sum_folded(r, n + 1) == spec_sum_folded(r, n) + folded_len(s.last()));
        assert(spec_sum_folded(s, n) == spec_sum_folded(s, n - 1) + folded_len(s[n - 1]));
    }
}

/// Partial sums only look at the first `n` spans.
proof fn lemma_sum_prefix_agree(a: Seq<PhantomText>, b: Seq<PhantomText>, n: int)
    requires
        0 <= n <= a.len(),
        n <= b.len(),
        forall|i: int| 0 <= i < n ==> a[i] == b[i],
    ensures
        spec_sum_text(a, n) == spec_sum_text(b, n),
        spec_sum_folded(a, n) == spec_sum_folded(b, n),
    decreases n,
{
    if n > 0 {
        lemma_sum_prefix_agree(a, b, n - 1);
    }
}

/// Insertion into a sorted sequence keeps it sorted.
proof fn lemma_insert_span_sorted(s: Seq<PhantomText>, p: PhantomText)
    requires
        spans_sorted(s),
    ensures
        spans_sorted(spec_insert_span(s, p)),
    decreases s.len(),
{
    lemma_insert_span_len(s, p);
    if s.len() == 0 {
    } else if span_key_le(s.last(), p) {
        let r = s.push(p);
        assert forall|i: int| 0 <= i && i + 1 < r.len() implies span_key_le(
            #[trigger] r[i],
            r[i + 1],
        ) by {
            if i + 1 < s.len() {
                assert(span_key_le(s[i], s[i + 1]));
            }
        }
    } else {
        broadcast use vstd::seq_lib::group_to_multiset_ensures;

        assert(spans_sorted(s.drop_last())) by {
            assert forall|i: int| 0 <= i && i + 1 < s.drop_last().len() implies span_key_le(
                #[trigger] s.drop_last()[i],
                s.drop_last()[i + 1],
            ) by {
                assert(span_key_le(s[i], s[i + 1]));
            }
        }
        lemma_insert_span_sorted(s.drop_last(), p);
        lemma_insert_span_multiset(s.drop_last(), p);
        let r0 = spec_insert_span(s.drop_last(), p);
        let r = r0.push(s.last());
        lemma_insert_span_len(s.drop_last(), p);
        assert forall|i: int| 0 <= i && i + 1 < r.len() implies span_key_le(
            #[trigger] r[i],
            r[i + 1],
        ) by {
            if i + 1 < r0.len() {
                assert(span_key_le(r0[i], r0[i + 1]));
            } else {
                // The last element of `r0` is either `p` (which sorts before
                // `s.last()`, keys being total) or one of the earlier spans.
                assert(r[i] == r0[r0.len() - 1]);
                assert(r[i + 1] == s.last());
                let v = r0[r0.len() - 1];
                assert(r0.contains(v));
                assert(r0.to_multiset().count(v) > 0);
                if v == p {
                    assert(!span_key_le(s.last(), p));
                    assert(span_key_le(p, s.last()));
                } else {
                    assert(s.drop_last().to_multiset().count(v) > 0);
                    assert(s.drop_last().contains(v));
                    let j = choose|j: int|
                        0 <= j < s.drop_last().len() && s.drop_last()[j] == v;
                    assert(s[j] == v);
                    lemma_sorted_le(s, j, s.len() - 1);
                }
            }
        }
    }
}

/// In a sorted sequence every earlier span's key is at most a later one's.
proof fn lemma_sorted_le(s: Seq<PhantomText>, i: int, j: int)
    requires
        spans_sorted(s),
        0 <= i <= j < s.len(),
    ensures
        span_key_le(s[i], s[j]),
    decreases j - i,
{
    if i < j {
        lemma_sorted_le(s, i, j - 1);
        assert(span_key_le(s[j - 1], s[j]));
    }
}

/// Sorting preserves the well-formedness of the span set, keeps both totals,
/// and yields a sorted sequence of the same length.
pub proof fn lemma_sort_spans_props(s: Seq<PhantomText>, line: int, olen: int)
    requires
        spans_wf(s, line, olen),
    ensures
        spans_sorted(spec_sort_spans(s)),
        spans_wf(spec_sort_spans(s), line, olen),
        spec_sort_spans(s).len() == s.len(),
        spec_sum_text(spec_sort_spans(s), s.len() as int) == spec_sum_text(s, s.len() as int),
        spec_sum_folded(spec_sort_spans(s), s.len() as int) == spec_sum_folded(s, s.len() as int),
    decreases s.len(),
{
    broadcast use vstd::seq_lib::group_to_multiset_ensures;

    lemma_sort_spans_multiset(s);
    let r = spec_sort_spans(s);
    assert(r.len() == s.len()) by {
        assert(r.to_multiset().len() == s.to_multiset().len());
    }
    if s.len() > 0 {
        let butlast = s.drop_last();
        assert(spans_wf(butlast, line, olen)) by {
            assert(forall|i: int|
                0 <= i < butlast.len() ==> #[trigger] butlast[i] == s[i] && span_ok(
                    s[i],
                    line,
                    olen,
                ));
        }
        lemma_sort_spans_props(butlast, line, olen);
        lemma_insert_span_sorted(spec_sort_spans(butlast), s.last());
        lemma_insert_span_sums(spec_sort_spans(butlast), s.last());
        lemma_sum_prefix_agree(butlast, s, s.len() - 1);
    }
    assert forall|i: int| 0 <= i < r.len() implies span_ok(#[trigger] r[i], line, olen) by {
        assert(r.contains(r[i]));
        assert(s.to_multiset().count(r[i]) > 0);
        assert(s.contains(r[i]));
        let j = choose|j: int| 0 <= j < s.len() && s[j] == r[i];
        assert(span_ok(s[j], line, olen));
    }
    assert forall|i: int, j: int|
        0 <= i < r.len() && 0 <= j < r.len() && i != j implies spans_sep(
        #[trigger] r[i],
        #[trigger] r[j],
    ) by {
        if r[i] == r[j] {
            lemma_count_two(r, i, j);
            let (ia, ib) = lemma_two_indices(s, r[i]);
            assert(spans_sep(s[ia], s[ib]));
        } else {
            assert(r.contains(r[i]) && r.contains(r[j]));
            assert(s.to_multiset().count(r[i]) > 0 && s.to_multiset().count(r[j]) > 0);
            assert(s.contains(r[i]) && s.contains(r[j]));
            let ia = choose|k: int| 0 <= k < s.len() && s[k] == r[i];
            let ib = choose|k: int| 0 <= k < s.len() && s[k] == r[j];
            assert(ia != ib);
            assert(spans_sep(s[ia], s[ib]));
        }
    }
}

} // verus!

verus! {

// ---------------------------------------------------------------------------
// The annotation walk, as a function of the sorted spans
// ---------------------------------------------------------------------------

/// Running difference between final and merge columns after the first `n`
/// spans: text inserted so far minus origin columns hidden so far.
pub open spec fn spec_delta(s: Seq<PhantomText>, n: int) -> int {
    spec_sum_text(s, n) - spec_sum_folded(s, n)
}

/// First merge column after the columns hidden by the span before `i`.
pub open spec fn spec_prev_merge_end(s: Seq<PhantomText>, i: int) -> int {
    if i <= 0 {
        0
    } else {
        s[i - 1].merge_col + folded_len(s[i - 1])
    }
}

/// First origin column after the columns hidden by the span before `i`.
pub open spec fn spec_prev_origin_end(s: Seq<PhantomText>, i: int) -> int {
    if i <= 0 {
        0
    } else {
        s[i - 1].col + folded_len(s[i - 1])
    }
}

/// Final column at which span `i`'s text is rendered.
pub open spec fn spec_final_start(s: Seq<PhantomText>, i: int) -> int {
    s[i].merge_col + spec_delta(s, i)
}

/// First final column after the text of the span before `i`.
pub open spec fn spec_prev_final_end(s: Seq<PhantomText>, i: int) -> int {
    if i <= 0 {
        0
    } else {
        spec_final_start(s, i - 1) + text_len(s[i - 1])
    }
}

/// Width of the run of real text between span `i - 1` and span `i`.
pub open spec fn spec_gap(s: Seq<PhantomText>, i: int) -> int {
    s[i].merge_col - spec_prev_merge_end(s, i)
}

/// Everything the walk needs to know about its state after `i` spans.
pub open spec fn walk_ok(s: Seq<PhantomText>, olen: int, i: int) -> bool {
    &&& 0 <= spec_prev_merge_end(s, i) <= olen
    &&& spec_prev_origin_end(s, i) == spec_prev_merge_end(s, i)
    &&& 0 <= spec_sum_text(s, i)
    &&& 0 <= spec_sum_folded(s, i) <= spec_prev_merge_end(s, i)
    &&& spec_prev_final_end(s, i) == spec_prev_merge_end(s, i) + spec_delta(s, i)
    &&& 0 <= spec_prev_final_end(s, i) <= olen + spec_sum_text(s, i)
}

/// In sorted well-formed spans, a span starts no earlier than where its
/// predecessor stopped hiding columns.
proof fn lemma_adjacent(s: Seq<PhantomText>, line: int, olen: int, i: int)
    requires
        spans_sorted(s),
        spans_wf(s, line, olen),
        1 <= i < s.len(),
    ensures
        spec_prev_merge_end(s, i) <= s[i].merge_col,
{
    let a = s[i - 1];
    let b = s[i];
    assert(span_key_le(a, b));
    assert(spans_sep(a, b));
    if a.merge_col + folded_len(a) > b.merge_col {
        // Separation must then hold the other way round, which forces the
        // two spans onto one column with the earlier one hiding nothing.
        assert(b.merge_col + folded_len(b) <= a.merge_col);
        assert(a.merge_col == b.merge_col);
        if kind_rank(a.kind) == kind_rank(b.kind) {
            assert(folded_len(a) == 0);
        } else {
            assert(kind_rank(a.kind) < kind_rank(b.kind));
            assert(kind_rank(b.kind) <= 5);
            assert(folded_len(a) == 0);
        }
    }
}

/// The walk stays within bounds at every step.
pub proof fn lemma_walk(s: Seq<PhantomText>, line: int, olen: int)
    requires
        spans_sorted(s),
        spans_wf(s, line, olen),
        0 <= olen,
    ensures
        forall|i: int| 0 <= i <= s.len() ==> #[trigger] walk_ok(s, olen, i),
{
    assert forall|i: int| 0 <= i <= s.len() implies #[trigger] walk_ok(s, olen, i) by {
        lemma_walk_to(s, line, olen, i);
    }
}

proof fn lemma_walk_to(s: Seq<PhantomText>, line: int, olen: int, n: int)
    requires
        spans_sorted(s),
        spans_wf(s, line, olen),
        0 <= olen,
        0 <= n <= s.len(),
    ensures
        walk_ok(s, olen, n),
    decreases n,
{
    if n > 0 {
        lemma_walk_to(s, line, olen, n - 1);
        assert(span_ok(s[n - 1], line, olen));
        if n >= 2 {
            lemma_adjacent(s, line, olen, n - 1);
        }
    }
}

/// `spec_prev_merge_end` never moves backwards.
proof fn lemma_prev_merge_mono(s: Seq<PhantomText>, line: int, olen: int, i: int, j: int)
    requires
        spans_sorted(s),
        spans_wf(s, line, olen),
        0 <= olen,
        0 <= i <= j <= s.len(),
    ensures
        spec_prev_merge_end(s, i) <= spec_prev_merge_end(s, j),
    decreases j - i,
{
    if i < j {
        lemma_prev_merge_mono(s, line, olen, i, j - 1);
        lemma_walk_to(s, line, olen, j - 1);
        if j >= 2 {
            lemma_adjacent(s, line, olen, j - 1);
        }
        assert(span_ok(s[j - 1], line, olen));
    }
}

/// Partial sums are monotone in the prefix length.
proof fn lemma_sums_mono(s: Seq<PhantomText>, i: int, j: int)
    requires
        0 <= i <= j,
    ensures
        spec_sum_text(s, i) <= spec_sum_text(s, j),
        spec_sum_folded(s, i) <= spec_sum_folded(s, j),
    decreases j - i,
{
    if i < j {
        lemma_sums_mono(s, i, j - 1);
    }
}

// ---------------------------------------------------------------------------
// The segment list produced by the walk
// ---------------------------------------------------------------------------

/// The span as it is emitted: with its final column filled in.
pub open spec fn spec_with_final(p: PhantomText, f: int) -> PhantomText {
    PhantomText { final_col: f as usize, ..p }
}

/// The run of real text between span `i - 1` and span `i`.
pub open spec fn spec_gap_seg(s: Seq<PhantomText>, i: int) -> Text {
    Text::OriginText {
        text: OriginText {
            line: s[i].line,
            col: Interval {
                start: spec_prev_origin_end(s, i) as usize,
                end: (spec_prev_origin_end(s, i) + spec_gap(s, i)) as usize,
            },
            merge_col: Interval {
                start: spec_prev_merge_end(s, i) as usize,
                end: (spec_prev_merge_end(s, i) + spec_gap(s, i)) as usize,
            },
            final_col: Interval {
                start: spec_prev_final_end(s, i) as usize,
                end: (spec_prev_final_end(s, i) + spec_gap(s, i)) as usize,
            },
        },
    }
}

/// The segments contributed by span `i`: the preceding run of real text,
/// when there is one, then the span itself.
pub open spec fn spec_span_group(s: Seq<PhantomText>, i: int) -> Seq<Text> {
    let ph = Text::Phantom { text: spec_with_final(s[i], spec_final_start(s, i)) };
    if spec_gap(s, i) > 0 {
        seq![spec_gap_seg(s, i), ph]
    } else {
        seq![ph]
    }
}

/// The segments contributed by the first `n` spans.
pub open spec fn spec_groups(s: Seq<PhantomText>, n: int) -> Seq<Text>
    decreases n,
{
    if n <= 0 {
        Seq::empty()
    } else {
        spec_groups(s, n - 1) + spec_span_group(s, n - 1)
    }
}

/// Width of the run of real text after the last span.
pub open spec fn spec_tail_gap(s: Seq<PhantomText>, olen: int) -> int {
    olen - spec_prev_merge_end(s, s.len() as int)
}

/// The run of real text after the last span.
pub open spec fn spec_tail_seg(s: Seq<PhantomText>, line: int, olen: int) -> Text {
    let n = s.len() as int;
    Text::OriginText {
        text: OriginText {
            line: line as usize,
            col: Interval {
                start: spec_prev_origin_end(s, n) as usize,
                end: (spec_prev_origin_end(s, n) + spec_tail_gap(s, olen)) as usize,
            },
            merge_col: Interval {
                start: spec_prev_merge_end(s, n) as usize,
                end: olen as usize,
            },
            final_col: Interval {
                start: spec_prev_final_end(s, n) as usize,
                end: (spec_prev_final_end(s, n) + spec_tail_gap(s, olen)) as usize,
            },
        },
    }
}

/// The full segment list of one annotated line, as a function of its sorted
/// spans: a run of real text before each span where there is room, the spans
/// themselves, the run after the last span, and the bare marker for a wholly
/// empty line.
pub open spec fn spec_line_texts(s: Seq<PhantomText>, line: int, olen: int) -> Seq<Text> {
    if s.len() == 0 && olen == 0 {
        seq![Text::Empty]
    } else if spec_tail_gap(s, olen) > 0 {
        spec_groups(s, s.len() as int) + seq![spec_tail_seg(s, line, olen)]
    } else {
        spec_groups(s, s.len() as int)
    }
}

/// Final length of the annotated line: the origin length plus all virtual
/// text minus all folded-away columns.
pub open spec fn spec_final_len(s: Seq<PhantomText>, olen: int) -> int {
    olen + spec_delta(s, s.len() as int)
}

} // verus!

verus! {

/// Partial widths only look at the first `n` segments.
proof fn lemma_prefix_agree(a: Seq<Text>, b: Seq<Text>, n: int)
    requires
        0 <= n <= a.len(),
        n <= b.len(),
        forall|i: int| 0 <= i < n ==> a[i] == b[i],
    ensures
        prefix_final(a, n) == prefix_final(b, n),
        prefix_merge(a, n) == prefix_merge(b, n),
    decreases n,
{
    if n > 0 {
        lemma_prefix_agree(a, b, n - 1);
    }
}

/// What holds of every segment the walk emits for one line: it sits at the
/// walk's cursors, origin and merge columns coincide (nothing is merged in
/// front of a single line), and it belongs to the line itself.
pub open spec fn group_seg_ok(ts: Seq<Text>, i: int, line: int) -> bool {
    &&& seg_placed(ts, i)
    &&& seg_merge_start(ts[i]) == seg_col_start(ts[i])
    &&& seg_line(ts[i]) == line
    &&& !(ts[i] is Empty)
}

/// Whether some emitted phantom is a fold that continues on another line.
pub open spec fn has_continuation(ts: Seq<Text>) -> bool {
    exists|i: int|
        0 <= i < ts.len() && ((#[trigger] ts[i]) matches Text::Phantom { text } && spec_next_line(
            text,
        ) is Some)
}

/// The segments of the first `n` spans are well-placed, and once a fold with
/// a continuation line was emitted the merge cursor stands at the end of the
/// line.
proof fn lemma_groups_wf(s: Seq<PhantomText>, line: int, olen: int, n: int)
    requires
        spans_sorted(s),
        spans_wf(s, line, olen),
        0 <= olen,
        olen + spec_sum_text(s, s.len() as int) <= usize::MAX,
        0 <= n <= s.len(),
    ensures
        prefix_final(spec_groups(s, n), spec_groups(s, n).len() as int) == spec_prev_final_end(
            s,
            n,
        ),
        prefix_merge(spec_groups(s, n), spec_groups(s, n).len() as int) == spec_prev_merge_end(
            s,
            n,
        ),
        forall|i: int|
            0 <= i < spec_groups(s, n).len() ==> group_seg_ok(spec_groups(s, n), i, line),
        forall|i: int, j: int|
            0 <= i < j < spec_groups(s, n).len() ==> fold_precedes(
                #[trigger] spec_groups(s, n)[i],
                #[trigger] spec_groups(s, n)[j],
            ),
        has_continuation(spec_groups(s, n)) ==> spec_prev_merge_end(s, n) == olen,
    decreases n,
{
    lemma_walk(s, line, olen);
    lemma_sums_mono(s, n, s.len() as int);
    if n > 0 {
        lemma_groups_wf(s, line, olen, n - 1);
        lemma_sums_mono(s, n - 1, n);
        let g0 = spec_groups(s, n - 1);
        let g = spec_groups(s, n);
        let k = n - 1;
        let p = s[k];
        assert(span_ok(p, line, olen));
        assert(walk_ok(s, olen, k));
        assert(walk_ok(s, olen, n));
        if k >= 1 {
            lemma_adjacent(s, line, olen, k);
        }
        let gap = spec_gap(s, k);
        assert(0 <= gap);
        let ph = Text::Phantom { text: spec_with_final(p, spec_final_start(s, k)) };
        assert(g =~= g0 + spec_span_group(s, k));
        // Widths of the appended segments extend the cursors exactly.
        lemma_prefix_agree(g0, g, g0.len() as int);
        assert(spec_final_start(s, k) == spec_prev_final_end(s, k) + gap);
        assert(spec_final_start(s, k) + text_len(p) == spec_prev_final_end(s, n));
        assert(p.merge_col + folded_len(p) == spec_prev_merge_end(s, n));
        if gap > 0 {
            let gs = spec_gap_seg(s, k);
            assert(g[g0.len() as int] == gs);
            assert(g[g0.len() as int + 1] == ph);
            assert(g.len() == g0.len() + 2);
            assert(prefix_final(g, g0.len() as int + 1) == spec_prev_final_end(s, k) + gap);
            assert(prefix_merge(g, g0.len() as int + 1) == spec_prev_merge_end(s, k) + gap);
            assert(prefix_final(g, g.len() as int) == spec_prev_final_end(s, n));
            assert(prefix_merge(g, g.len() as int) == spec_prev_merge_end(s, n));
        } else {
            assert(g[g0.len() as int] == ph);
            assert(g.len() == g0.len() + 1);
            assert(prefix_final(g, g.len() as int) == spec_prev_final_end(s, n));
            assert(prefix_merge(g, g.len() as int) == spec_prev_merge_end(s, n));
        }
        // Each appended segment is well-placed; the old ones stay so.
        assert forall|i: int| 0 <= i < g.len() implies group_seg_ok(g, i, line) by {
            if i < g0.len() {
                assert(group_seg_ok(g0, i, line));
                lemma_prefix_agree(g0, g, i);
                assert(g[i] == g0[i]);
            } else {
                lemma_prefix_agree(g0, g, g0.len() as int);
                if gap > 0 && i == g0.len() {
                    assert(spec_prev_origin_end(s, k) == spec_prev_merge_end(s, k));
                    assert(spec_prev_merge_end(s, k) + gap == p.merge_col);
                    assert(p.merge_col + folded_len(p) <= olen);
                    assert(spec_prev_final_end(s, k) + gap <= olen + spec_sum_text(
                        s,
                        s.len() as int,
                    ));
                    assert(seg_placed(g, i));
                } else {
                    assert(g[i] == ph);
                    assert(0 <= spec_final_start(s, k) <= usize::MAX);
                    assert(seg_placed(g, i));
                }
            }
        }
        // A fold with a continuation swallows the rest of the line, so no
        // real text can follow it; hence the pairwise ordering condition.
        if has_continuation(g0) {
            assert(spec_prev_merge_end(s, k) == olen);
            assert(spec_prev_merge_end(s, k) <= p.merge_col);
            assert(p.merge_col + folded_len(p) <= olen);
            assert(gap == 0 && folded_len(p) == 0);
        }
        assert forall|i: int, j: int| 0 <= i < j < g.len() implies fold_precedes(
            #[trigger] g[i],
            #[trigger] g[j],
        ) by {
            if j < g0.len() {
                assert(fold_precedes(g0[i], g0[j]));
            } else if i < g0.len() {
                assert(g[i] == g0[i]);
                match g[i] {
                    Text::Phantom { text } => {
                        if spec_next_line(text) is Some {
                            assert(has_continuation(g0));
                            // The merge cursor already reached the end of
                            // the line, so no gap segment was appended.
                            assert(!(g[j] is OriginText));
                        }
                    },
                    _ => {},
                }
            } else {
                // Within one group the phantom follows the gap segment.
                assert(g[i] is OriginText || g[i] == ph);
                if g[i] == ph && spec_next_line(p) is Some {
                    assert(g[j] == ph || g[j] is OriginText);
                    assert(j == i);
                }
            }
        }
        if has_continuation(g) {
            let i = choose|i: int|
                0 <= i < g.len() && ((#[trigger] g[i]) matches Text::Phantom { text }
                    && spec_next_line(text) is Some);
            if i < g0.len() {
                assert(has_continuation(g0));
                assert(spec_prev_merge_end(s, k) == olen);
                assert(spec_prev_merge_end(s, n) == olen);
            } else {
                assert(g[i] == ph);
                assert(spec_next_line(p) is Some);
                assert(p.merge_col + folded_len(p) == olen);
            }
        }
    }
}

} // verus!

verus! {

/// The whole segment list of one line is structurally sound: contiguous in
/// final and merge space, covering the line and its virtual text exactly.
pub proof fn lemma_line_texts_wf(s: Seq<PhantomText>, line: int, olen: int)
    requires
        spans_sorted(s),
        spans_wf(s, line, olen),
        0 <= olen,
        olen + spec_sum_text(s, s.len() as int) <= usize::MAX,
        0 <= line <= usize::MAX,
    ensures
        texts_wf(spec_line_texts(s, line, olen), olen, spec_final_len(s, olen)),
        forall|i: int|
            0 <= i < spec_line_texts(s, line, olen).len() ==> (#[trigger] spec_line_texts(
                s,
                line,
                olen,
            )[i]) is Empty || (seg_line(spec_line_texts(s, line, olen)[i]) == line
                && seg_merge_start(spec_line_texts(s, line, olen)[i]) == seg_col_start(
                spec_line_texts(s, line, olen)[i],
            )),
        0 <= spec_final_len(s, olen) <= olen + spec_sum_text(s, s.len() as int),
{
    let n = s.len() as int;
    let ts = spec_line_texts(s, line, olen);
    lemma_walk(s, line, olen);
    lemma_groups_wf(s, line, olen, n);
    assert(walk_ok(s, olen, n));
    let g = spec_groups(s, n);
    assert(spec_final_len(s, olen) == olen + spec_delta(s, n));
    assert(spec_prev_final_end(s, n) == spec_prev_merge_end(s, n) + spec_delta(s, n));
    if s.len() == 0 && olen == 0 {
        assert(ts =~= seq![Text::Empty]);
        assert(prefix_final(ts, 0) == 0);
        assert(prefix_merge(ts, 0) == 0);
        assert(ts[0] is Empty);
        assert(prefix_final(ts, 1) == 0);
        assert(prefix_merge(ts, 1) == 0);
        assert(seg_placed(ts, 0));
    } else if spec_tail_gap(s, olen) > 0 {
        let tail = spec_tail_seg(s, line, olen);
        assert(ts =~= g + seq![tail]);
        lemma_prefix_agree(g, ts, g.len() as int);
        assert(ts[g.len() as int] == tail);
        assert(prefix_final(ts, ts.len() as int) == spec_prev_final_end(s, n) + spec_tail_gap(
            s,
            olen,
        ));
        assert(prefix_merge(ts, ts.len() as int) == olen);
        assert forall|i: int| 0 <= i < ts.len() implies seg_placed(ts, i) && (ts[i] is Empty || (
        seg_line(ts[i]) == line && seg_merge_start(ts[i]) == seg_col_start(ts[i]))) by {
            if i < g.len() {
                assert(group_seg_ok(g, i, line));
                lemma_prefix_agree(g, ts, i);
                assert(ts[i] == g[i]);
            } else {
                assert(ts[i] == tail);
                assert(spec_prev_origin_end(s, n) == spec_prev_merge_end(s, n));
                assert(spec_prev_final_end(s, n) <= olen + spec_sum_text(s, n));
                assert(seg_placed(ts, i));
            }
        }
        // No fold with a continuation can precede the tail run.
        assert forall|i: int, j: int| 0 <= i < j < ts.len() implies fold_precedes(
            #[trigger] ts[i],
            #[trigger] ts[j],
        ) by {
            if j < g.len() {
                assert(fold_precedes(g[i], g[j]));
            } else {
                assert(ts[j] == tail);
                match ts[i] {
                    Text::Phantom { text } => {
                        if spec_next_line(text) is Some {
                            assert(g[i] == ts[i]);
                            assert(has_continuation(g));
                            assert(spec_prev_merge_end(s, n) == olen);
                            assert(spec_tail_gap(s, olen) == 0);
                        }
                    },
                    _ => {},
                }
            }
        }
        assert forall|i: int| 0 <= i < ts.len() implies !((#[trigger] ts[i]) is Empty) by {
            if i < g.len() {
                assert(group_seg_ok(g, i, line));
                assert(ts[i] == g[i]);
            } else {
                assert(ts[i] == tail);
            }
        }
    } else {
        assert(ts =~= g);
        assert(spec_prev_merge_end(s, n) == olen);
        assert(forall|i: int|
            0 <= i < ts.len() ==> group_seg_ok(ts, i, line) && !((#[trigger] ts[i]) is Empty));
        assert(forall|i: int| 0 <= i < ts.len() ==> #[trigger] seg_placed(ts, i));
    }
    assert forall|i: int| 0 <= i < ts.len() implies (#[trigger] ts[i]) is Empty || (seg_line(
        ts[i],
    ) == line && seg_merge_start(ts[i]) == seg_col_start(ts[i])) by {
        if s.len() == 0 && olen == 0 {
            assert(ts[i] is Empty);
        } else if spec_tail_gap(s, olen) > 0 {
            if i < g.len() {
                assert(group_seg_ok(g, i, line));
                assert(ts[i] == g[i]);
            } else {
                assert(ts[i] == spec_tail_seg(s, line, olen));
            }
        } else {
            assert(group_seg_ok(ts, i, line));
        }
    }
    assert forall|i: int, j: int|
        0 <= i < ts.len() && 0 <= j < ts.len() && seg_line(#[trigger] ts[i]) == seg_line(
            #[trigger] ts[j],
        ) implies seg_merge_start(ts[i]) - seg_col_start(ts[i]) == seg_merge_start(ts[j])
        - seg_col_start(ts[j]) by {
        if ts[i] is Empty || ts[j] is Empty {
            assert(ts.len() == 1);
            assert(i == j);
        }
    }
}

} // verus!

verus! {

/// Exec comparison mirroring `span_key_le`.
fn span_le(a: &PhantomText, b: &PhantomText) -> (r: bool)
    ensures
        r == span_key_le(*a, *b),
{
    a.merge_col < b.merge_col || (a.merge_col == b.merge_col && a.rank() <= b.rank())
}

/// Stable insertion at a position is the same as the recursive insertion.
proof fn lemma_insert_span_at(s: Seq<PhantomText>, p: PhantomText, pos: int)
    requires
        0 <= pos <= s.len(),
        forall|j: int| pos <= j < s.len() ==> !span_key_le(#[trigger] s[j], p),
        pos == 0 || span_key_le(s[pos - 1], p),
    ensures
        spec_insert_span(s, p) =~= s.insert(pos, p),
    decreases s.len(),
{
    if pos == s.len() {
        if s.len() == 0 {
        } else {
            assert(span_key_le(s[pos - 1], p));
            assert(spec_insert_span(s, p) == s.push(p));
        }
    } else {
        assert(!span_key_le(s[s.len() - 1], p));
        let dl = s.drop_last();
        assert(forall|j: int| pos <= j < dl.len() ==> !span_key_le(#[trigger] dl[j], p));
        if pos > 0 {
            assert(dl[pos - 1] == s[pos - 1]);
        }
        lemma_insert_span_at(dl, p, pos);
        lemma_insert_span_len(dl, p);
        assert(spec_insert_span(s, p) =~= dl.insert(pos, p).push(s.last()));
        assert(dl.insert(pos, p).push(s.last()) =~= s.insert(pos, p));
    }
}

/// Insert one span into an already sorted vector, keeping spans with the
/// same key in their current order before the new one.
fn insert_span(out: &mut Vec<PhantomText>, p: PhantomText)
    ensures
        final(out)@ == spec_insert_span(old(out)@, p),
{
    let mut i = out.len();
    while i > 0 && !span_le(&out[i - 1], &p)
        invariant
            0 <= i <= out.len(),
            out == old(out),
            forall|j: int| i <= j < out@.len() ==> !span_key_le(#[trigger] out@[j], p),
        decreases i,
    {
        i = i - 1;
    }
    proof {
        lemma_insert_span_at(out@, p, i as int);
    }
    out.insert(i, p);
}

/// Sort the spans of one line by `(merge_col, kind priority)`, stably.
fn sort_spans(spans: Vec<PhantomText>) -> (r: Vec<PhantomText>)
    ensures
        r@ == spec_sort_spans(spans@),
{
    let mut out: Vec<PhantomText> = Vec::new();
    let mut i: usize = 0;
    proof {
        assert(spans@.subrange(0, 0) =~= Seq::<PhantomText>::empty());
    }
    while i < spans.len()
        invariant
            0 <= i <= spans.len(),
            out@ == spec_sort_spans(spans@.subrange(0, i as int)),
        decreases spans.len() - i,
    {
        let p = spans[i].clone();
        insert_span(&mut out, p);
        proof {
            let pre = spans@.subrange(0, i as int);
            let post = spans@.subrange(0, i + 1);
            assert(post.drop_last() =~= pre);
            assert(post.last() == spans@[i as int]);
        }
        i = i + 1;
    }
    proof {
        assert(spans@.subrange(0, spans@.len() as int) =~= spans@);
    }
    out
}

/// Shift an unsigned column by a signed running delta.
pub fn usize_offset(val: usize, offset: i128) -> (r: usize)
    requires
        0 <= val + offset <= usize::MAX,
    ensures
        r as int == val + offset,
{
    if offset >= 0 {
        val + (offset as usize)
    } else {
        val - ((-offset) as usize)
    }
}

} // verus!

verus! {

/// Bounds of one span's walk step, extracted for the executable loop.
proof fn lemma_step_bounds(s: Seq<PhantomText>, line: int, olen: int, i: int)
    requires
        spans_sorted(s),
        spans_wf(s, line, olen),
        0 <= olen,
        0 <= i < s.len(),
    ensures
        spec_prev_merge_end(s, i) <= s[i].merge_col,
        spec_gap(s, i) == spec_final_start(s, i) - spec_prev_final_end(s, i),
        0 <= spec_final_start(s, i),
        spec_final_start(s, i) + text_len(s[i]) == spec_prev_final_end(s, i + 1),
        spec_prev_final_end(s, i + 1) <= olen + spec_sum_text(s, i + 1),
        spec_prev_merge_end(s, i + 1) == s[i].merge_col + folded_len(s[i]),
        spec_prev_merge_end(s, i + 1) <= olen,
        spec_delta(s, i + 1) == spec_delta(s, i) + text_len(s[i]) - folded_len(s[i]),
        -olen <= spec_delta(s, i + 1) <= spec_sum_text(s, i + 1),
{
    lemma_walk_to(s, line, olen, i);
    lemma_walk_to(s, line, olen, i + 1);
    if i >= 1 {
        lemma_adjacent(s, line, olen, i);
    }
    assert(span_ok(s[i], line, olen));
}

/// One origin line together with its phantom spans, resolved into an ordered
/// list of segments stamped with origin, merge and final coordinates.
#[derive(Debug, PartialEq, Eq)]
pub struct PhantomTextLine {
    /// The origin line that was annotated.
    pub line: usize,
    /// Absolute buffer offset of the origin line's start.
    pub offset_of_line: usize,
    /// Length of the raw origin line, line ending included.
    pub origin_text_len: usize,
    /// Length of the rendered text of the line.
    pub final_text_len: usize,
    /// The segments, ordered by final column.
    pub texts: Vec<Text>,
}

impl Clone for PhantomTextLine {
    fn clone(&self) -> (r: Self)
        ensures
            r.line == self.line,
            r.offset_of_line == self.offset_of_line,
            r.origin_text_len == self.origin_text_len,
            r.final_text_len == self.final_text_len,
            r.texts@ == self.texts@,
    {
        let mut texts: Vec<Text> = Vec::new();
        let mut i: usize = 0;
        while i < self.texts.len()
            invariant
                0 <= i <= self.texts.len(),
                texts@ =~= self.texts@.subrange(0, i as int),
            decreases self.texts.len() - i,
        {
            texts.push(self.texts[i].clone());
            i = i + 1;
        }
        proof {
            assert(self.texts@.subrange(0, self.texts@.len() as int) =~= self.texts@);
        }
        PhantomTextLine {
            line: self.line,
            offset_of_line: self.offset_of_line,
            origin_text_len: self.origin_text_len,
            final_text_len: self.final_text_len,
            texts,
        }
    }
}

impl PhantomTextLine {
    /// Structural soundness of the annotated line: the segment list covers
    /// the origin and final text exactly, and every segment belongs to this
    /// line with coinciding origin and merge columns.
    pub open spec fn wf(self) -> bool {
        &&& texts_wf(self.texts@, self.origin_text_len as int, self.final_text_len as int)
        &&& forall|i: int|
            0 <= i < self.texts@.len() ==> (#[trigger] self.texts@[i]) is Empty || (seg_line(
                self.texts@[i],
            ) == self.line && seg_merge_start(self.texts@[i]) == seg_col_start(self.texts@[i]))
        &&& self.offset_of_line + self.origin_text_len <= usize::MAX
    }

    /// Annotate one origin line: sort the spans by `(merge_col, kind)`, walk
    /// them accumulating the signed offset between final and merge columns,
    /// and emit a run of real text before each span where there is room,
    /// plus the run after the last span. A line with no columns and no spans
    /// becomes the bare empty marker.
    ///
    /// The final length always equals the origin length plus all virtual
    /// text minus all folded-away columns.
    pub fn new(
        line: usize,
        origin_text_len: usize,
        offset_of_line: usize,
        phantom_texts: Vec<PhantomText>,
    ) -> (r: Self)
        requires
            spans_wf(phantom_texts@, line as int, origin_text_len as int),
            origin_text_len + spec_sum_text(phantom_texts@, phantom_texts@.len() as int)
                <= usize::MAX,
            offset_of_line + origin_text_len <= usize::MAX,
        ensures
            r.line == line,
            r.offset_of_line == offset_of_line,
            r.origin_text_len == origin_text_len,
            r.texts@ == spec_line_texts(
                spec_sort_spans(phantom_texts@),
                line as int,
                origin_text_len as int,
            ),
            r.final_text_len == origin_text_len + spec_sum_text(
                phantom_texts@,
                phantom_texts@.len() as int,
            ) - spec_sum_folded(phantom_texts@, phantom_texts@.len() as int),
            r.wf(),
    {
        let olen_int = origin_text_len;
        proof {
            lemma_sort_spans_props(phantom_texts@, line as int, origin_text_len as int);
        }
        let sorted = sort_spans(phantom_texts);
        let ghost s = sorted@;
        let ghost line_i = line as int;
        let ghost olen = origin_text_len as int;
        proof {
            lemma_walk(s, line_i, olen);
        }
        let n = sorted.len();
        let mut texts: Vec<Text> = Vec::new();
        let mut final_last_end: usize = 0;
        let mut origin_last_end: usize = 0;
        let mut merge_last_end: usize = 0;
        let mut delta: i128 = 0;
        let mut idx: usize = 0;
        proof {
            assert(spec_groups(s, 0) =~= Seq::<Text>::empty());
        }
        while idx < n
            invariant
                n == s.len(),
                sorted@ == s,
                0 <= idx <= n,
                spans_sorted(s),
                spans_wf(s, line_i, olen),
                olen == origin_text_len as int,
                line_i == line as int,
                0 <= olen,
                olen + spec_sum_text(s, s.len() as int) <= usize::MAX,
                texts@ == spec_groups(s, idx as int),
                final_last_end as int == spec_prev_final_end(s, idx as int),
                origin_last_end as int == spec_prev_origin_end(s, idx as int),
                merge_last_end as int == spec_prev_merge_end(s, idx as int),
                delta as int == spec_delta(s, idx as int),
            decreases n - idx,
        {
            let ghost i = idx as int;
            proof {
                lemma_step_bounds(s, line_i, olen, i);
                lemma_sums_mono(s, i + 1, s.len() as int);
                lemma_walk_to(s, line_i, olen, i);
                lemma_walk_to(s, line_i, olen, i + 1);
                assert(span_ok(s[i], line_i, olen));
            }
            let mut p = sorted[idx].clone();
            let tlen = p.text.unicode_len();
            let flen: usize = match p.kind {
                PhantomTextKind::LineFoldedRang { len, .. } => len,
                _ => 0,
            };
            proof {
                assert(tlen as int == text_len(s[i]));
                assert(flen as int == folded_len(s[i]));
            }
            let fc = usize_offset(p.merge_col, delta);
            proof {
                assert(fc as int == spec_final_start(s, i));
            }
            if final_last_end < fc {
                let glen = fc - final_last_end;
                proof {
                    assert(glen as int == spec_gap(s, i));
                    assert(origin_last_end + glen == s[i].merge_col);
                    assert(merge_last_end + glen == s[i].merge_col);
                }
                texts.push(
                    Text::OriginText {
                        text: OriginText {
                            line: p.line,
                            col: Interval::new(origin_last_end, origin_last_end + glen),
                            merge_col: Interval::new(merge_last_end, merge_last_end + glen),
                            final_col: Interval::new(final_last_end, final_last_end + glen),
                        },
                    },
                );
                proof {
                    assert(texts@.last() == spec_gap_seg(s, i));
                }
            }
            p.final_col = fc;
            proof {
                assert(p == spec_with_final(s[i], spec_final_start(s, i)));
            }
            texts.push(Text::Phantom { text: p });
            proof {
                assert(texts@ =~= spec_groups(s, i + 1));
            }
            final_last_end = fc + tlen;
            origin_last_end = {
                let c = sorted[idx].col;
                c + flen
            };
            merge_last_end = {
                let m = sorted[idx].merge_col;
                m + flen
            };
            delta = delta + tlen as i128 - flen as i128;
            idx = idx + 1;
        }
        proof {
            lemma_line_texts_wf(s, line_i, olen);
        }
        if origin_last_end < olen_int {
            let glen = olen_int - origin_last_end;
            texts.push(
                Text::OriginText {
                    text: OriginText {
                        line,
                        col: Interval::new(origin_last_end, origin_last_end + glen),
                        merge_col: Interval::new(merge_last_end, olen_int),
                        final_col: Interval::new(final_last_end, final_last_end + glen),
                    },
                },
            );
            proof {
                assert(texts@.last() == spec_tail_seg(s, line_i, olen));
                assert(texts@ =~= spec_line_texts(s, line_i, olen));
            }
        } else if n == 0 && olen_int == 0 {
            texts.push(Text::Empty);
            proof {
                assert(texts@ =~= spec_line_texts(s, line_i, olen));
            }
        } else {
            proof {
                assert(texts@ =~= spec_line_texts(s, line_i, olen));
            }
        }
        let final_text_len = usize_offset(origin_text_len, delta);
        proof {
            assert(final_text_len as int == spec_final_len(s, olen));
        }
        PhantomTextLine { line, offset_of_line, origin_text_len, final_text_len, texts }
    }

    /// The continuation line of the fold this line ends with, if any.
    pub fn folded_line(&self) -> (r: Option<usize>)
        ensures
            r == (if self.texts@.len() > 0 {
                match self.texts@.last() {
                    Text::Phantom { text } => spec_next_line(text),
                    _ => None::<usize>,
                }
            } else {
                None::<usize>
            }),
    {
        if self.texts.len() > 0 {
            if let Text::Phantom { text } = &self.texts[self.texts.len() - 1] {
                return text.next_line();
            }
        }
        None
    }
}

} // verus!
