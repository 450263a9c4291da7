//! Segments of an annotated line, and the structural invariant that makes
//! the coordinate queries meaningful.

use vstd::prelude::*;

use crate::interval::Interval;
use crate::phantom::{folded_len, spec_next_final_col, spec_next_merge_col, spec_next_origin_col,
    spec_next_line, text_len, PhantomText};

verus! {

/// A run of real document characters with its position in all three
/// coordinate spaces; all three ranges have equal length.
#[derive(Clone, Copy, Debug, PartialEq, Eq)]
pub struct OriginText {
    /// Origin line the run belongs to.
    pub line: usize,
    /// Columns within that origin line.
    pub col: Interval,
    /// Columns within the merged (multi-line, pre-phantom) text.
    pub merge_col: Interval,
    /// Columns within the final rendered text.
    pub final_col: Interval,
}

/// One segment of an annotated line: either virtual text, a run of real
/// document characters, or the marker of a wholly empty line.
#[derive(Debug, PartialEq, Eq)]
#[allow(inconsistent_fields)]
pub enum Text {
    Phantom { text: PhantomText },
    OriginText { text: OriginText },
    Empty,
}

impl Clone for Text {
    fn clone(&self) -> (r: Self)
        ensures
            r == *self,
    {
        match self {
            Text::Phantom { text } => Text::Phantom { text: text.clone() },
            Text::OriginText { text } => Text::OriginText { text: *text },
            Text::Empty => Text::Empty,
        }
    }
}

/// Width of a segment in final space: the length of the virtual text for a
/// phantom, the run length for origin text.
pub open spec fn seg_final_width(t: Text) -> int {
    match t {
        Text::Phantom { text } => text_len(text),
        Text::OriginText { text } => text.final_col.spec_len(),
        Text::Empty => 0,
    }
}

/// Width of a segment in merge space: the hidden length for a phantom (only
/// folds hide columns), the run length for origin text.
pub open spec fn seg_merge_width(t: Text) -> int {
    match t {
        Text::Phantom { text } => folded_len(text),
        Text::OriginText { text } => text.merge_col.spec_len(),
        Text::Empty => 0,
    }
}

/// First final column of a segment.
pub open spec fn seg_final_start(t: Text) -> int {
    match t {
        Text::Phantom { text } => text.final_col as int,
        Text::OriginText { text } => text.final_col.start as int,
        Text::Empty => 0,
    }
}

/// First merge column of a segment.
pub open spec fn seg_merge_start(t: Text) -> int {
    match t {
        Text::Phantom { text } => text.merge_col as int,
        Text::OriginText { text } => text.merge_col.start as int,
        Text::Empty => 0,
    }
}

/// First origin column of a segment.
pub open spec fn seg_col_start(t: Text) -> int {
    match t {
        Text::Phantom { text } => text.col as int,
        Text::OriginText { text } => text.col.start as int,
        Text::Empty => 0,
    }
}

/// The origin line a segment belongs to.
pub open spec fn seg_line(t: Text) -> int {
    match t {
        Text::Phantom { text } => text.line as int,
        Text::OriginText { text } => text.line as int,
        Text::Empty => 0,
    }
}

/// Total final width of the first `n` segments.
pub open spec fn prefix_final(ts: Seq<Text>, n: int) -> int
    decreases n,
{
    if n <= 0 {
        0
    } else {
        prefix_final(ts, n - 1) + seg_final_width(ts[n - 1])
    }
}

/// Total merge width of the first `n` segments.
pub open spec fn prefix_merge(ts: Seq<Text>, n: int) -> int
    decreases n,
{
    if n <= 0 {
        0
    } else {
        prefix_merge(ts, n - 1) + seg_merge_width(ts[n - 1])
    }
}

/// A segment sits exactly at the cursors reached by the widths of the
/// segments before it, and its ranges are consistent.
pub open spec fn seg_placed(ts: Seq<Text>, i: int) -> bool {
    match ts[i] {
        Text::Phantom { text } => {
            &&& text.final_col == prefix_final(ts, i)
            &&& text.merge_col == prefix_merge(ts, i)
        },
        Text::OriginText { text } => {
            &&& text.final_col.start == prefix_final(ts, i)
            &&& text.merge_col.start == prefix_merge(ts, i)
            &&& text.final_col.wf()
            &&& text.merge_col.wf()
            &&& text.col.wf()
            &&& text.col.spec_len() == text.merge_col.spec_len()
            &&& text.final_col.spec_len() == text.merge_col.spec_len()
        },
        Text::Empty => true,
    }
}

/// Structural invariant of a segment list: segments are contiguous in both
/// final and merge space and together cover exactly `[0, final_len)` and
/// `[0, origin_len)`; within one origin line every segment translates
/// between origin and merge columns by the same base; a fold's continuation
/// line never precedes real text of an earlier line; and the empty-line
/// marker only ever stands alone.
pub open spec fn texts_wf(ts: Seq<Text>, origin_len: int, final_len: int) -> bool {
    &&& prefix_final(ts, ts.len() as int) == final_len
    &&& prefix_merge(ts, ts.len() as int) == origin_len
    &&& forall|i: int| 0 <= i < ts.len() ==> #[trigger] seg_placed(ts, i)
    &&& forall|i: int, j: int|
        0 <= i < ts.len() && 0 <= j < ts.len() && seg_line(#[trigger] ts[i]) == seg_line(
            #[trigger] ts[j],
        ) ==> seg_merge_start(ts[i]) - seg_col_start(ts[i]) == seg_merge_start(ts[j])
            - seg_col_start(ts[j])
    &&& forall|i: int, j: int|
        0 <= i < j < ts.len() ==> fold_precedes(#[trigger] ts[i], #[trigger] ts[j])
    &&& forall|i: int| 0 <= i < ts.len() && (#[trigger] ts[i]) is Empty ==> ts.len() == 1
}

/// When an earlier segment is a fold with a continuation line, later real
/// text belongs to that continuation line or a line after it.
pub open spec fn fold_precedes(a: Text, b: Text) -> bool {
    match a {
        Text::Phantom { text } => match spec_next_line(text) {
            Some(nl) => b is OriginText ==> nl <= seg_line(b),
            None => true,
        },
        _ => true,
    }
}

/// Whether a final column lies inside a segment.
pub open spec fn final_hit(t: Text, off: int) -> bool {
    match t {
        Text::Phantom { text } => text.final_col <= off < spec_next_final_col(text),
        Text::OriginText { text } => text.final_col.spec_contains(off),
        Text::Empty => false,
    }
}

/// Whether a merge column lies inside a segment; for a phantom both borders
/// of its hidden range count as inside.
pub open spec fn merge_hit(t: Text, col: int) -> bool {
    match t {
        Text::Phantom { text } => text.merge_col <= col <= spec_next_merge_col(text),
        Text::OriginText { text } => text.merge_col.spec_contains(col),
        Text::Empty => true,
    }
}

/// Whether an origin position lies inside a segment; a fold also claims
/// every origin line that it swallowed before its continuation line.
pub open spec fn origin_hit(t: Text, line: int, col: int) -> bool {
    match t {
        Text::Phantom { text } => (text.line == line && text.col <= col < spec_next_origin_col(
            text,
        )) || (spec_next_line(text) matches Some(nl) && line < nl),
        Text::OriginText { text } => text.line == line && text.col.spec_contains(col),
        Text::Empty => true,
    }
}

} // verus!

verus! {

/// Partial widths only look at the first `n` segments.
pub proof fn lemma_prefix_eq_upto(a: Seq<Text>, b: Seq<Text>, n: int)
    requires
        0 <= n <= a.len(),
        n <= b.len(),
        forall|i: int| 0 <= i < n ==> a[i] == b[i],
    ensures
        prefix_final(a, n) == prefix_final(b, n),
        prefix_merge(a, n) == prefix_merge(b, n),
    decreases n,
{
    if n > 0 {
        lemma_prefix_eq_upto(a, b, n - 1);
    }
}

/// Partial widths of a concatenation split at the seam.
pub proof fn lemma_prefix_split(a: Seq<Text>, b: Seq<Text>, n: int)
    requires
        0 <= n <= b.len(),
    ensures
        prefix_final(a + b, a.len() + n) == prefix_final(a, a.len() as int) + prefix_final(b, n),
        prefix_merge(a + b, a.len() + n) == prefix_merge(a, a.len() as int) + prefix_merge(b, n),
    decreases n,
{
    if n > 0 {
        lemma_prefix_split(a, b, n - 1);
        assert((a + b)[a.len() + n - 1] == b[n - 1]);
    } else {
        lemma_prefix_eq_upto(a + b, a, a.len() as int);
    }
}

/// With every segment well-placed, the width cursors never move backwards.
pub proof fn lemma_prefix_mono(ts: Seq<Text>, i: int, j: int)
    requires
        forall|k: int| 0 <= k < ts.len() ==> #[trigger] seg_placed(ts, k),
        0 <= i <= j <= ts.len(),
    ensures
        prefix_final(ts, i) <= prefix_final(ts, j),
        prefix_merge(ts, i) <= prefix_merge(ts, j),
    decreases j - i,
{
    if i < j {
        lemma_prefix_mono(ts, i, j - 1);
        assert(seg_placed(ts, j - 1));
    }
}

/// Every well-placed segment lies within the totals covered by the list.
pub proof fn lemma_seg_in_bounds(ts: Seq<Text>, olen: int, flen: int, i: int)
    requires
        texts_wf(ts, olen, flen),
        0 <= i < ts.len(),
    ensures
        0 <= seg_final_start(ts[i]) == prefix_final(ts, i),
        seg_final_start(ts[i]) + seg_final_width(ts[i]) <= flen,
        0 <= seg_merge_start(ts[i]) == prefix_merge(ts, i),
        seg_merge_start(ts[i]) + seg_merge_width(ts[i]) <= olen,
        0 <= flen,
        0 <= olen,
{
    assert(seg_placed(ts, i));
    lemma_prefix_mono(ts, 0, i);
    lemma_prefix_mono(ts, i + 1, ts.len() as int);
    match ts[i] {
        Text::Phantom { text } => {},
        Text::OriginText { text } => {},
        Text::Empty => {
            lemma_prefix_mono(ts, 0, i);
        },
    }
}

} // verus!
