//! Visual-line bookkeeping: which origin lines each rendered row covers and
//! how wrapped sub-lines map back to origin positions.

use vstd::prelude::*;

use crate::interval::Interval;
use crate::multiline::{spec_cursor_position, PhantomTextMultiLine};

verus! {

/// A rendered row named relatively: the folded line it belongs to and the
/// wrap index within it.
#[derive(Clone, Copy, Debug, PartialEq, Eq)]
pub struct RVLine {
    pub line: usize,
    pub line_index: usize,
}

/// A rendered row named absolutely, counted from the top of the document.
#[derive(Clone, Copy, Debug, PartialEq, Eq)]
pub struct VLine(pub usize);

/// Everything a caller needs to know about one rendered row.
#[derive(Clone, Copy, Debug, PartialEq, Eq)]
pub struct VLineInfo {
    /// Buffer offsets the row covers.
    pub interval: Interval,
    pub rvline: RVLine,
    /// The folded line the row belongs to.
    pub origin_line: usize,
    pub vline: VLine,
}

/// One origin line and the buffer offset it starts at.
#[derive(Clone, Copy, Debug, PartialEq, Eq)]
pub struct OriginLine {
    pub line_index: usize,
    pub start_offset: usize,
}

/// One fold group: the run of origin lines collapsed into one rendered row,
/// its coordinate transform, and the lengths of its wrapped sub-lines as
/// the shaping layer reported them.
#[derive(Debug, PartialEq, Eq)]
pub struct OriginFoldedLine {
    pub line_index: usize,
    pub origin_line_start: usize,
    pub origin_line_end: usize,
    pub origin_interval: Interval,
    /// The merged coordinate transform of the group.
    pub phantom: PhantomTextMultiLine,
    /// Rendered length of each wrapped sub-line of the group.
    pub sub_line_lens: Vec<usize>,
}

/// One wrapped sub-line as the view sees it.
#[derive(Clone, Copy, Debug, PartialEq, Eq)]
pub struct VisualLine {
    pub line_index: usize,
    pub origin_interval: Interval,
    pub origin_folded_line: usize,
    pub origin_folded_line_sub_index: usize,
}

impl VisualLine {
    pub fn rvline(&self) -> (r: RVLine)
        ensures
            r == (RVLine { line: self.origin_folded_line, line_index: self.origin_folded_line_sub_index }),
    {
        RVLine { line: self.origin_folded_line, line_index: self.origin_folded_line_sub_index }
    }

    pub fn vline(&self) -> (r: VLine)
        ensures
            r == VLine(self.line_index),
    {
        VLine(self.line_index)
    }

    pub fn vline_info(&self) -> (r: VLineInfo)
        ensures
            r == (VLineInfo {
                interval: self.origin_interval,
                rvline: RVLine {
                    line: self.origin_folded_line,
                    line_index: self.origin_folded_line_sub_index,
                },
                origin_line: self.origin_folded_line,
                vline: VLine(self.line_index),
            }),
    {
        VLineInfo {
            interval: self.origin_interval,
            rvline: self.rvline(),
            origin_line: self.origin_folded_line,
            vline: self.vline(),
        }
    }
}

/// The walk that locates a rendered offset among wrapped sub-lines: the
/// sub-line index, the offset within it, and whether that offset names the
/// sub-line's last character. An offset past all sub-lines stays on the
/// last one.
pub open spec fn spec_sub_line_walk(lens: Seq<usize>, i: int, off: int) -> (int, int, bool)
    decreases lens.len() - i,
{
    if i < 0 || i >= lens.len() {
        (lens.len() - 1, off, false)
    } else if off < lens[i] {
        (i, off, off == lens[i] - 1)
    } else {
        spec_sub_line_walk(lens, i + 1, off - lens[i])
    }
}

/// The cached line tables of one document view.
#[derive(Debug)]
pub struct Lines {
    pub origin_lines: Vec<OriginLine>,
    pub origin_folded_lines: Vec<OriginFoldedLine>,
    pub visual_lines: Vec<VisualLine>,
    pub cache_rev: u64,
}

impl Lines {
    /// Empty tables for a document nothing was built for yet.
    pub fn new() -> (r: Self)
        ensures
            r.origin_lines@.len() == 0,
            r.origin_folded_lines@.len() == 0,
            r.visual_lines@.len() == 0,
            r.cache_rev == 0,
    {
        Lines {
            origin_lines: Vec::new(),
            origin_folded_lines: Vec::new(),
            visual_lines: Vec::new(),
            cache_rev: 0,
        }
    }

    /// Drop the cached tables.
    pub fn clear(&mut self)
        ensures
            final(self).origin_lines@.len() == 0,
            final(self).origin_folded_lines@.len() == 0,
            final(self).visual_lines@.len() == 0,
            final(self).cache_rev == old(self).cache_rev,
    {
        self.origin_lines.clear();
        self.origin_folded_lines.clear();
        self.visual_lines.clear();
    }

    /// The rebuild decision: tables are rebuilt exactly when the document's
    /// revision moved on (or nothing was ever built). When a rebuild is due
    /// the tables are cleared and the new revision recorded.
    pub fn check_cache_rev(&mut self, doc_rev: u64) -> (rebuild: bool)
        ensures
            rebuild == !(doc_rev == old(self).cache_rev && old(self).cache_rev != 0),
            !rebuild ==> *final(self) == *old(self),
            rebuild ==> final(self).cache_rev == doc_rev && final(self).origin_lines@.len() == 0
                && final(self).origin_folded_lines@.len() == 0
                && final(self).visual_lines@.len() == 0,
    {
        if doc_rev == self.cache_rev && self.cache_rev != 0 {
            return false;
        }
        self.clear();
        self.cache_rev = doc_rev;
        true
    }

    /// The first visual line of a folded line.
    pub fn start_visual_line_of_folded_line(&self, origin_folded_line: usize) -> (r: &VisualLine)
        requires
            exists|i: int|
                0 <= i < self.visual_lines@.len() && (#[trigger] self.visual_lines@[i]).origin_folded_line
                    == origin_folded_line,
        ensures
            exists|i: int|
                0 <= i < self.visual_lines@.len() && *r == #[trigger] self.visual_lines@[i]
                    && self.visual_lines@[i].origin_folded_line == origin_folded_line && (forall|
                    j: int,
                |
                    0 <= j < i ==> (#[trigger] self.visual_lines@[j]).origin_folded_line
                        != origin_folded_line),
    {
        let mut k: usize = 0;
        while k < self.visual_lines.len()
            invariant
                0 <= k <= self.visual_lines@.len(),
                exists|i: int|
                    0 <= i < self.visual_lines@.len() && (#[trigger] self.visual_lines@[i]).origin_folded_line
                        == origin_folded_line,
                forall|j: int|
                    0 <= j < k ==> (#[trigger] self.visual_lines@[j]).origin_folded_line
                        != origin_folded_line,
            decreases self.visual_lines@.len() - k,
        {
            if self.visual_lines[k].origin_folded_line == origin_folded_line {
                return &self.visual_lines[k];
            }
            k = k + 1;
        }
        proof {
            assert(false);
        }
        &self.visual_lines[0]
    }

    /// The fold group an origin line belongs to.
    pub fn folded_line_of_origin_line(&self, origin_line: usize) -> (r: &OriginFoldedLine)
        requires
            exists|i: int|
                0 <= i < self.origin_folded_lines@.len() && (#[trigger] self.origin_folded_lines@[i]).origin_line_start
                    <= origin_line && origin_line <= self.origin_folded_lines@[i].origin_line_end,
        ensures
            exists|i: int|
                0 <= i < self.origin_folded_lines@.len() && *r
                    == #[trigger] self.origin_folded_lines@[i]
                    && self.origin_folded_lines@[i].origin_line_start <= origin_line
                    && origin_line <= self.origin_folded_lines@[i].origin_line_end && (forall|
                    j: int,
                |
                    0 <= j < i ==> !((#[trigger] self.origin_folded_lines@[j]).origin_line_start
                        <= origin_line && origin_line
                        <= self.origin_folded_lines@[j].origin_line_end)),
    {
        let mut k: usize = 0;
        while k < self.origin_folded_lines.len()
            invariant
                0 <= k <= self.origin_folded_lines@.len(),
                exists|i: int|
                    0 <= i < self.origin_folded_lines@.len() && (
                    #[trigger] self.origin_folded_lines@[i]).origin_line_start <= origin_line
                        && origin_line <= self.origin_folded_lines@[i].origin_line_end,
                forall|j: int|
                    0 <= j < k ==> !((#[trigger] self.origin_folded_lines@[j]).origin_line_start
                        <= origin_line && origin_line
                        <= self.origin_folded_lines@[j].origin_line_end),
            decreases self.origin_folded_lines@.len() - k,
        {
            let fl = &self.origin_folded_lines[k];
            if fl.origin_line_start <= origin_line && origin_line <= fl.origin_line_end {
                return &self.origin_folded_lines[k];
            }
            k = k + 1;
        }
        proof {
            assert(false);
        }
        &self.origin_folded_lines[0]
    }

    /// The first visual line of the fold group containing an origin line.
    pub fn start_visual_line_of_origin_line(&self, origin_line: usize) -> (r: &VisualLine)
        requires
            exists|i: int|
                0 <= i < self.origin_folded_lines@.len() && (#[trigger] self.origin_folded_lines@[i]).origin_line_start
                    <= origin_line && origin_line <= self.origin_folded_lines@[i].origin_line_end,
            forall|i: int|
                0 <= i < self.origin_folded_lines@.len() ==> exists|w: int|
                    0 <= w < self.visual_lines@.len() && (#[trigger] self.visual_lines@[w]).origin_folded_line
                        == (#[trigger] self.origin_folded_lines@[i]).line_index,
        ensures
            exists|i: int|
                0 <= i < self.visual_lines@.len() && *r == #[trigger] self.visual_lines@[i],
    {
        let folded_line = self.folded_line_of_origin_line(origin_line);
        let idx = folded_line.line_index;
        proof {
            let i = choose|i: int|
                0 <= i < self.origin_folded_lines@.len() && *folded_line
                    == #[trigger] self.origin_folded_lines@[i]
                    && self.origin_folded_lines@[i].origin_line_start <= origin_line
                    && origin_line <= self.origin_folded_lines@[i].origin_line_end && (forall|
                    j: int,
                |
                    0 <= j < i ==> !((#[trigger] self.origin_folded_lines@[j]).origin_line_start
                        <= origin_line && origin_line
                        <= self.origin_folded_lines@[j].origin_line_end));
            assert(self.origin_folded_lines@[i].line_index == idx);
        }
        self.start_visual_line_of_folded_line(idx)
    }

    /// The visual line of a fold group and wrap index.
    pub fn visual_line_of_folded_line_and_sub_index(
        &self,
        origin_folded_line: usize,
        sub_index: usize,
    ) -> (r: &VisualLine)
        requires
            exists|i: int|
                0 <= i < self.visual_lines@.len() && (#[trigger] self.visual_lines@[i]).origin_folded_line
                    == origin_folded_line && self.visual_lines@[i].origin_folded_line_sub_index
                    == sub_index,
        ensures
            exists|i: int|
                0 <= i < self.visual_lines@.len() && *r == #[trigger] self.visual_lines@[i]
                    && self.visual_lines@[i].origin_folded_line == origin_folded_line
                    && self.visual_lines@[i].origin_folded_line_sub_index == sub_index,
    {
        let mut k: usize = 0;
        while k < self.visual_lines.len()
            invariant
                0 <= k <= self.visual_lines@.len(),
                exists|i: int|
                    0 <= i < self.visual_lines@.len() && (#[trigger] self.visual_lines@[i]).origin_folded_line
                        == origin_folded_line
                        && self.visual_lines@[i].origin_folded_line_sub_index == sub_index,
                forall|j: int|
                    0 <= j < k ==> !((#[trigger] self.visual_lines@[j]).origin_folded_line
                        == origin_folded_line
                        && self.visual_lines@[j].origin_folded_line_sub_index == sub_index),
            decreases self.visual_lines@.len() - k,
        {
            let vl = &self.visual_lines[k];
            if vl.origin_folded_line == origin_folded_line && vl.origin_folded_line_sub_index
                == sub_index {
                return &self.visual_lines[k];
            }
            k = k + 1;
        }
        proof {
            assert(false);
        }
        &self.visual_lines[0]
    }

    /// The last visual line of the view.
    pub fn last_visual_line(&self) -> (r: &VisualLine)
        requires
            self.visual_lines@.len() > 0,
        ensures
            *r == self.visual_lines@.last(),
    {
        &self.visual_lines[self.visual_lines.len() - 1]
    }

    /// The rows from `start` to `end`, both clamped to the last row.
    pub fn vline_infos(&self, start: usize, end: usize) -> (r: Vec<VLineInfo>)
        requires
            self.visual_lines@.len() > 0,
            start <= end,
        ensures
            r@.len() == (if end < self.visual_lines@.len() {
                end as int
            } else {
                self.visual_lines@.len() - 1
            }) - (if start < self.visual_lines@.len() {
                start as int
            } else {
                self.visual_lines@.len() - 1
            }) + 1,
    {
        let last = self.visual_lines.len() - 1;
        let start = if start < last {
            start
        } else {
            last
        };
        let end = if end < last {
            end
        } else {
            last
        };
        let n = self.visual_lines.len();
        let mut out: Vec<VLineInfo> = Vec::new();
        let mut k = start;
        while k <= end
            invariant
                start <= k <= end + 1,
                end < n,
                n == self.visual_lines@.len(),
                out@.len() == k - start,
            decreases end + 1 - k,
        {
            out.push(self.visual_lines[k].vline_info());
            k = k + 1;
        }
        out
    }

    /// The first row of the view.
    pub fn first_vline_info(&self) -> (r: VLineInfo)
        requires
            self.visual_lines@.len() > 0,
        ensures
            r == (VLineInfo {
                interval: self.visual_lines@[0].origin_interval,
                rvline: RVLine {
                    line: self.visual_lines@[0].origin_folded_line,
                    line_index: self.visual_lines@[0].origin_folded_line_sub_index,
                },
                origin_line: self.visual_lines@[0].origin_folded_line,
                vline: VLine(self.visual_lines@[0].line_index),
            }),
    {
        self.visual_lines[0].vline_info()
    }
}

} // verus!

verus! {

/// Total rendered length of the first `n` wrapped sub-lines.
pub open spec fn spec_sum_lens(lens: Seq<usize>, n: int) -> int
    decreases n,
{
    if n <= 0 {
        0
    } else {
        spec_sum_lens(lens, n - 1) + lens[n - 1]
    }
}

/// Index of the first fold group containing an origin line, or -1.
pub open spec fn spec_first_folded(fs: Seq<OriginFoldedLine>, line: int) -> int
    decreases fs.len(),
{
    if fs.len() == 0 {
        -1
    } else if fs[0].origin_line_start <= line <= fs[0].origin_line_end {
        0
    } else {
        let r = spec_first_folded(fs.drop_first(), line);
        if r < 0 {
            -1
        } else {
            r + 1
        }
    }
}

/// Locate a rendered offset among wrapped sub-lines.
fn sub_line_of_final_offset(lens: &Vec<usize>, off: usize) -> (r: (usize, usize, bool))
    requires
        lens@.len() > 0,
    ensures
        (r.0 as int, r.1 as int, r.2) == spec_sub_line_walk(lens@, 0, off as int),
        r.0 < lens@.len(),
    {
    let mut i: usize = 0;
    let mut fo = off;
    while i < lens.len()
        invariant
            0 <= i <= lens@.len(),
            lens@.len() > 0,
            spec_sub_line_walk(lens@, 0, off as int) == spec_sub_line_walk(
                lens@,
                i as int,
                fo as int,
            ),
        decreases lens@.len() - i,
    {
        let len_i = lens[i];
        if fo < len_i {
            return (i, fo, fo == len_i - 1);
        }
        fo = fo - len_i;
        i = i + 1;
    }
    (lens.len() - 1, fo, false)
}

impl Lines {
    /// The decision core of a rebuild step: record the next fold group's
    /// coordinate transform together with the wrapped sub-line lengths and
    /// per-line buffer offsets that the shaping layer and the document
    /// produced for it. One origin-line entry is pushed per covered line,
    /// one visual-line entry per wrapped sub-line, and one folded entry for
    /// the group itself.
    pub fn update_folded_line(
        &mut self,
        phantom: PhantomTextMultiLine,
        sub_line_lens: Vec<usize>,
        origin_line_offsets: Vec<usize>,
    )
        requires
            phantom.wf(),
            origin_line_offsets@.len() == phantom.last_line - phantom.line + 1,
            old(self).origin_lines@.len() + origin_line_offsets@.len() <= usize::MAX,
            old(self).visual_lines@.len() + sub_line_lens@.len() <= usize::MAX,
            sub_line_lens@.len() > 0 ==> spec_sum_lens(sub_line_lens@, sub_line_lens@.len() as int)
                <= usize::MAX,
        ensures
            final(self).cache_rev == old(self).cache_rev,
            final(self).origin_lines@.len() == old(self).origin_lines@.len()
                + origin_line_offsets@.len(),
            forall|k: int|
                0 <= k < old(self).origin_lines@.len()
                    ==> final(self).origin_lines@[k] == old(self).origin_lines@[k],
            forall|k: int|
                0 <= k < origin_line_offsets@.len()
                    ==> #[trigger] final(self).origin_lines@[old(self).origin_lines@.len() + k] == (OriginLine {
                    line_index: (phantom.line + k) as usize,
                    start_offset: origin_line_offsets@[k],
                }),
            final(self).visual_lines@.len() == old(self).visual_lines@.len()
                + sub_line_lens@.len(),
            forall|k: int|
                0 <= k < old(self).visual_lines@.len()
                    ==> final(self).visual_lines@[k] == old(self).visual_lines@[k],
            forall|k: int|
                0 <= k < sub_line_lens@.len()
                    ==> #[trigger] final(self).visual_lines@[old(self).visual_lines@.len() + k] == (VisualLine {
                    line_index: (old(self).visual_lines@.len() + k) as usize,
                    origin_interval: Interval {
                        start: spec_cursor_position(phantom, spec_sum_lens(sub_line_lens@, k)).2,
                        end: spec_cursor_position(
                            phantom,
                            spec_sum_lens(sub_line_lens@, k + 1),
                        ).2,
                    },
                    origin_folded_line: old(self).origin_folded_lines@.len() as usize,
                    origin_folded_line_sub_index: k as usize,
                }),
            final(self).origin_folded_lines@.len() == old(self).origin_folded_lines@.len() + 1,
            forall|k: int|
                0 <= k < old(self).origin_folded_lines@.len()
                    ==> final(self).origin_folded_lines@[k] == old(self).origin_folded_lines@[k],
            ({
                let f = final(self).origin_folded_lines@.last();
                &&& f.line_index == old(self).origin_folded_lines@.len()
                &&& f.origin_line_start == phantom.line
                &&& f.origin_line_end == phantom.last_line
                &&& f.origin_interval == (Interval {
                    start: phantom.offset_of_line,
                    end: (phantom.offset_of_line + phantom.origin_text_len) as usize,
                })
                &&& f.phantom == phantom
                &&& f.sub_line_lens@ == sub_line_lens@
            }),
    {
        let folded_index = self.origin_folded_lines.len();
        let ghost old_origin = self.origin_lines@;
        let ghost old_visual = self.visual_lines@;
        let mut k: usize = 0;
        while k < origin_line_offsets.len()
            invariant
                0 <= k <= origin_line_offsets@.len(),
                origin_line_offsets@.len() == phantom.last_line - phantom.line + 1,
                old_origin.len() + origin_line_offsets@.len() <= usize::MAX,
                self.origin_lines@.len() == old_origin.len() + k,
                forall|j: int| 0 <= j < old_origin.len() ==> self.origin_lines@[j] == old_origin[j],
                forall|j: int|
                    0 <= j < k ==> #[trigger] self.origin_lines@[old_origin.len() + j] == (OriginLine {
                        line_index: (phantom.line + j) as usize,
                        start_offset: origin_line_offsets@[j],
                    }),
                self.visual_lines@ == old_visual,
                self.origin_folded_lines@ == old(self).origin_folded_lines@,
                self.cache_rev == old(self).cache_rev,
            decreases origin_line_offsets@.len() - k,
        {
            self.origin_lines.push(
                OriginLine { line_index: phantom.line + k, start_offset: origin_line_offsets[k] },
            );
            k = k + 1;
        }
        let ghost mid_origin = self.origin_lines@;
        let mut visual_offset_start: usize = 0;
        let mut s: usize = 0;
        proof {
            assert(spec_sum_lens(sub_line_lens@, 0) == 0);
        }
        while s < sub_line_lens.len()
            invariant
                phantom.wf(),
                0 <= s <= sub_line_lens@.len(),
                sub_line_lens@.len() > 0 ==> spec_sum_lens(
                    sub_line_lens@,
                    sub_line_lens@.len() as int,
                ) <= usize::MAX,
                old_visual.len() + sub_line_lens@.len() <= usize::MAX,
                visual_offset_start as int == spec_sum_lens(sub_line_lens@, s as int),
                folded_index == old(self).origin_folded_lines@.len(),
                self.visual_lines@.len() == old_visual.len() + s,
                forall|j: int| 0 <= j < old_visual.len() ==> self.visual_lines@[j] == old_visual[j],
                forall|j: int|
                    0 <= j < s ==> #[trigger] self.visual_lines@[old_visual.len() + j] == (VisualLine {
                        line_index: (old_visual.len() + j) as usize,
                        origin_interval: Interval {
                            start: spec_cursor_position(
                                phantom,
                                spec_sum_lens(sub_line_lens@, j),
                            ).2,
                            end: spec_cursor_position(
                                phantom,
                                spec_sum_lens(sub_line_lens@, j + 1),
                            ).2,
                        },
                        origin_folded_line: folded_index,
                        origin_folded_line_sub_index: j as usize,
                    }),
                self.origin_lines@ == mid_origin,
                mid_origin.len() == old(self).origin_lines@.len() + origin_line_offsets@.len(),
                forall|j: int|
                    0 <= j < old(self).origin_lines@.len() ==> mid_origin[j] == old(
                        self,
                    ).origin_lines@[j],
                forall|j: int|
                    0 <= j < origin_line_offsets@.len() ==> #[trigger] mid_origin[old(
                        self,
                    ).origin_lines@.len() + j] == (OriginLine {
                        line_index: (phantom.line + j) as usize,
                        start_offset: origin_line_offsets@[j],
                    }),
                self.origin_folded_lines@ == old(self).origin_folded_lines@,
                self.cache_rev == old(self).cache_rev,
            decreases sub_line_lens@.len() - s,
        {
            proof {
                lemma_sum_lens_mono(sub_line_lens@, s as int + 1, sub_line_lens@.len() as int);
                lemma_sum_lens_nonneg(sub_line_lens@, s as int + 1);
            }
            let visual_offset_end = visual_offset_start + sub_line_lens[s];
            let info_start = phantom.cursor_position_of_final_col(visual_offset_start);
            let info_end = phantom.cursor_position_of_final_col(visual_offset_end);
            self.visual_lines.push(
                VisualLine {
                    line_index: self.visual_lines.len(),
                    origin_interval: Interval { start: info_start.2, end: info_end.2 },
                    origin_folded_line: folded_index,
                    origin_folded_line_sub_index: s,
                },
            );
            visual_offset_start = visual_offset_end;
            s = s + 1;
        }
        self.origin_folded_lines.push(
            OriginFoldedLine {
                line_index: folded_index,
                origin_line_start: phantom.line,
                origin_line_end: phantom.last_line,
                origin_interval: Interval {
                    start: phantom.offset_of_line,
                    end: phantom.offset_of_line + phantom.origin_text_len,
                },
                phantom,
                sub_line_lens,
            },
        );
    }
}

/// Partial sums of sub-line lengths are monotone.
proof fn lemma_sum_lens_mono(lens: Seq<usize>, i: int, j: int)
    requires
        0 <= i <= j,
    ensures
        spec_sum_lens(lens, i) <= spec_sum_lens(lens, j),
    decreases j - i,
{
    if i < j {
        lemma_sum_lens_mono(lens, i, j - 1);
    }
}

/// Partial sums of sub-line lengths never go negative.
proof fn lemma_sum_lens_nonneg(lens: Seq<usize>, i: int)
    ensures
        0 <= spec_sum_lens(lens, i),
    decreases i,
{
    if i > 0 {
        lemma_sum_lens_nonneg(lens, i - 1);
    }
}

} // verus!

verus! {

/// A first match below every earlier miss is the first fold group.
proof fn lemma_first_folded_at(fs: Seq<OriginFoldedLine>, line: int, i: int)
    requires
        0 <= i < fs.len(),
        fs[i].origin_line_start <= line <= fs[i].origin_line_end,
        forall|j: int|
            0 <= j < i ==> !((#[trigger] fs[j]).origin_line_start <= line
                <= fs[j].origin_line_end),
    ensures
        spec_first_folded(fs, line) == i,
    decreases fs.len(),
{
    if i == 0 {
    } else {
        assert(!(fs[0].origin_line_start <= line <= fs[0].origin_line_end));
        let tl = fs.drop_first();
        assert(forall|j: int|
            0 <= j < i - 1 ==> !((#[trigger] tl[j]).origin_line_start <= line
                <= tl[j].origin_line_end));
        assert(tl[i - 1] == fs[i]);
        lemma_first_folded_at(tl, line, i - 1);
    }
}

impl Lines {
    /// The visual line showing an origin position, the offset within that
    /// wrapped sub-line, and whether the offset names the sub-line's last
    /// character.
    pub fn visual_line_of_offset(&self, origin_line: usize, offset: usize) -> (r: (
        VLineInfo,
        usize,
        bool,
    ))
        requires
            0 <= spec_first_folded(self.origin_folded_lines@, origin_line as int)
                < self.origin_folded_lines@.len(),
            ({
                let f = self.origin_folded_lines@[spec_first_folded(
                    self.origin_folded_lines@,
                    origin_line as int,
                )];
                let fc = crate::multiline::spec_final_col_of_col(
                    f.phantom,
                    origin_line as int,
                    offset as int,
                );
                let w = spec_sub_line_walk(f.sub_line_lens@, 0, fc);
                &&& f.phantom.wf()
                &&& crate::multiline::final_col_query_ok(
                    f.phantom,
                    origin_line as int,
                    offset as int,
                )
                &&& f.sub_line_lens@.len() > 0
                &&& 0 <= fc <= usize::MAX
                &&& exists|v: int|
                    0 <= v < self.visual_lines@.len() && (#[trigger] self.visual_lines@[v]).origin_folded_line
                        == f.line_index && self.visual_lines@[v].origin_folded_line_sub_index
                        == w.0
            }),
        ensures
            ({
                let f = self.origin_folded_lines@[spec_first_folded(
                    self.origin_folded_lines@,
                    origin_line as int,
                )];
                let fc = crate::multiline::spec_final_col_of_col(
                    f.phantom,
                    origin_line as int,
                    offset as int,
                );
                let w = spec_sub_line_walk(f.sub_line_lens@, 0, fc);
                &&& r.1 == w.1
                &&& r.2 == w.2
                &&& exists|v: int|
                    0 <= v < self.visual_lines@.len() && (#[trigger] self.visual_lines@[v]).origin_folded_line
                        == f.line_index && self.visual_lines@[v].origin_folded_line_sub_index
                        == w.0 && r.0 == (VLineInfo {
                        interval: self.visual_lines@[v].origin_interval,
                        rvline: RVLine {
                            line: self.visual_lines@[v].origin_folded_line,
                            line_index: self.visual_lines@[v].origin_folded_line_sub_index,
                        },
                        origin_line: self.visual_lines@[v].origin_folded_line,
                        vline: VLine(self.visual_lines@[v].line_index),
                    })
            }),
    {
        proof {
            let fi = spec_first_folded(self.origin_folded_lines@, origin_line as int);
            assert(self.origin_folded_lines@[fi].origin_line_start <= origin_line
                <= self.origin_folded_lines@[fi].origin_line_end) by {
                lemma_first_folded_props(self.origin_folded_lines@, origin_line as int);
            }
        }
        let folded_line = self.folded_line_of_origin_line(origin_line);
        proof {
            let i = choose|i: int|
                0 <= i < self.origin_folded_lines@.len() && *folded_line
                    == #[trigger] self.origin_folded_lines@[i]
                    && self.origin_folded_lines@[i].origin_line_start <= origin_line
                    && origin_line <= self.origin_folded_lines@[i].origin_line_end && (forall|
                    j: int,
                |
                    0 <= j < i ==> !((#[trigger] self.origin_folded_lines@[j]).origin_line_start
                        <= origin_line && origin_line
                        <= self.origin_folded_lines@[j].origin_line_end));
            lemma_first_folded_at(self.origin_folded_lines@, origin_line as int, i);
        }
        let final_offset = folded_line.phantom.final_col_of_col(origin_line, offset, false);
        let (sub_line_index, sub_offset, last_char) = sub_line_of_final_offset(
            &folded_line.sub_line_lens,
            final_offset,
        );
        let visual_line = self.visual_line_of_folded_line_and_sub_index(
            folded_line.line_index,
            sub_line_index,
        );
        (visual_line.vline_info(), sub_offset, last_char)
    }
}

/// A non-negative first-fold index points at a group containing the line.
proof fn lemma_first_folded_props(fs: Seq<OriginFoldedLine>, line: int)
    requires
        0 <= spec_first_folded(fs, line) < fs.len(),
    ensures
        fs[spec_first_folded(fs, line)].origin_line_start <= line <= fs[spec_first_folded(
            fs,
            line,
        )].origin_line_end,
    decreases fs.len(),
{
    if fs.len() > 0 && !(fs[0].origin_line_start <= line <= fs[0].origin_line_end) {
        lemma_first_folded_props(fs.drop_first(), line);
        assert(fs.drop_first()[spec_first_folded(fs, line) - 1] == fs[spec_first_folded(
            fs,
            line,
        )]);
    }
}

} // verus!

verus! {

/// Where a point landed in a rendered row, as the shaping layer reports it.
#[derive(Clone, Copy, Debug, PartialEq, Eq)]
pub struct HitPoint {
    /// Text line the cursor is on.
    pub line: usize,
    /// First index of the glyph at the cursor (insertion happens behind it).
    pub index: usize,
    /// Whether the point was inside the bounds of the laid-out text; a
    /// point outside still resolves to a position.
    pub is_inside: bool,
}

/// The origin position a hit point resolves to: the hit index is a final
/// column of the row, which the row's coordinate transform maps back onto
/// the document.
pub fn line_col_of_hit(row: &PhantomTextMultiLine, hit: HitPoint) -> (r: ((usize, usize), bool))
    requires
        row.wf(),
    ensures
        ({
            let pos = spec_cursor_position(*row, hit.index as int);
            r == ((pos.0, pos.1), hit.is_inside)
        }),
{
    let (line, col, _) = row.cursor_position_of_final_col(hit.index);
    ((line, col), hit.is_inside)
}

} // verus!
