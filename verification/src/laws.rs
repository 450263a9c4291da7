//! The global guarantees of the coordinate transform, stated and proved
//! over the same spec functions the methods' contracts use.

use vstd::prelude::*;

use crate::line::{spec_line_texts, spec_sort_spans, spec_sum_folded, spec_sum_text,
    PhantomTextLine};
use crate::multiline::{final_col_query_ok, spec_final_col_of_col, spec_first_hit,
    PhantomTextMultiLine};
use crate::segment::{final_hit, lemma_prefix_mono, lemma_seg_in_bounds, origin_hit, prefix_final,
    seg_col_start, seg_final_start, seg_final_width, seg_merge_start, seg_placed, fold_precedes,
    Text};

verus! {

/// Ordering law: in a well-formed row the segments' final ranges are
/// contiguous, in order, and together cover exactly `[0, final_text_len)`.
pub proof fn lemma_final_ranges_cover(m: PhantomTextMultiLine, k: int)
    requires
        m.wf(),
        0 <= k < m.text@.len(),
    ensures
        seg_final_start(m.text@[k]) == prefix_final(m.text@, k),
        seg_final_start(m.text@[k]) + seg_final_width(m.text@[k]) == prefix_final(m.text@, k + 1),
        0 <= seg_final_start(m.text@[k]),
        seg_final_start(m.text@[k]) + seg_final_width(m.text@[k]) <= m.final_text_len,
        prefix_final(m.text@, m.text@.len() as int) == m.final_text_len,
{
    lemma_seg_in_bounds(m.text@, m.origin_text_len as int, m.final_text_len as int, k);
    assert(seg_placed(m.text@, k));
}

/// Round trip: a final column inside a run of real text resolves to an
/// origin position, and that origin position resolves back to exactly the
/// same final column.
#[verifier::rlimit(50)]
pub proof fn lemma_origin_final_round_trip(m: PhantomTextMultiLine, k: int, f: int)
    requires
        m.wf(),
        0 <= k < m.text@.len(),
        m.text@[k] is OriginText,
        final_hit(m.text@[k], f),
    ensures
        ({
            match m.text@[k] {
                Text::OriginText { text } => {
                    let line = text.line as int;
                    let col = text.col.start + f - text.final_col.start;
                    &&& spec_first_hit(m.text@, |t: Text| final_hit(t, f)) == Some(k)
                    &&& final_col_query_ok(m, line, col)
                    &&& spec_final_col_of_col(m, line, col) == f
                },
                _ => true,
            }
        }),
{
    let ts = m.text@;
    let seg = ts[k];
    lemma_seg_in_bounds(ts, m.origin_text_len as int, m.final_text_len as int, k);
    assert(seg_placed(ts, k));
    match seg {
        Text::OriginText { text } => {
            let line = text.line as int;
            let col = text.col.start + f - text.final_col.start;
            // Every earlier segment's final range ends before `f`.
            assert forall|j: int| 0 <= j < k implies !final_hit(#[trigger] ts[j], f) by {
                lemma_seg_in_bounds(ts, m.origin_text_len as int, m.final_text_len as int, j);
                assert(seg_placed(ts, j));
                lemma_prefix_mono(ts, j + 1, k);
            }
            crate::multiline::lemma_first_hit_some(ts, |t: Text| final_hit(t, f), k);
            // Every earlier segment misses the origin position as well: real
            // text and hidden ranges of the same line lie at earlier origin
            // columns, and folds with a continuation precede this line.
            assert(origin_hit(seg, line, col));
            assert forall|j: int| 0 <= j < k implies !origin_hit(#[trigger] ts[j], line, col) by {
                lemma_seg_in_bounds(ts, m.origin_text_len as int, m.final_text_len as int, j);
                assert(seg_placed(ts, j));
                lemma_prefix_mono(ts, j + 1, k);
                assert(fold_precedes(ts[j], ts[k]));
                match ts[j] {
                    Text::Phantom { text: p } => {
                        if p.line == line {
                            // Same line: the hidden range ends at or before
                            // this run's first origin column.
                            assert(seg_merge_start(ts[j]) - seg_col_start(ts[j])
                                == seg_merge_start(ts[k]) - seg_col_start(ts[k]));
                        }
                    },
                    Text::OriginText { text: q } => {
                        if q.line == line {
                            assert(seg_merge_start(ts[j]) - seg_col_start(ts[j])
                                == seg_merge_start(ts[k]) - seg_col_start(ts[k]));
                        }
                    },
                    Text::Empty => {
                        assert(ts.len() == 1);
                    },
                }
            }
            crate::multiline::lemma_first_hit_some(
                ts,
                |t: Text| origin_hit(t, line, col),
                k,
            );
        },
        _ => {},
    }
}

/// Determinism of annotation: two lines built from the same inputs, each
/// meeting the constructor's contract, are the same annotation.
pub proof fn lemma_rebuild_deterministic(
    a: PhantomTextLine,
    b: PhantomTextLine,
    line: usize,
    origin_text_len: usize,
    offset_of_line: usize,
    spans: Seq<crate::phantom::PhantomText>,
)
    requires
        a.line == line,
        b.line == line,
        a.offset_of_line == offset_of_line,
        b.offset_of_line == offset_of_line,
        a.origin_text_len == origin_text_len,
        b.origin_text_len == origin_text_len,
        a.texts@ == spec_line_texts(spec_sort_spans(spans), line as int, origin_text_len as int),
        b.texts@ == spec_line_texts(spec_sort_spans(spans), line as int, origin_text_len as int),
        a.final_text_len == origin_text_len + spec_sum_text(spans, spans.len() as int)
            - spec_sum_folded(spans, spans.len() as int),
        b.final_text_len == origin_text_len + spec_sum_text(spans, spans.len() as int)
            - spec_sum_folded(spans, spans.len() as int),
    ensures
        a.texts@ == b.texts@,
        a.final_text_len == b.final_text_len,
        a.line == b.line,
        a.origin_text_len == b.origin_text_len,
        a.offset_of_line == b.offset_of_line,
{
}

} // verus!
