//! Concatenation of annotated lines across a fold group, and the coordinate
//! queries over the merged segment list.

use vstd::prelude::*;

use crate::interval::Interval;
use crate::line::PhantomTextLine;
use crate::phantom::{spec_next_final_col, spec_next_line, text_len, Color, PhantomText};
use crate::segment::{final_hit, lemma_prefix_eq_upto, lemma_prefix_mono, lemma_prefix_split,
    lemma_seg_in_bounds, merge_hit, origin_hit, prefix_final, prefix_merge, seg_col_start,
    seg_final_start, seg_final_width, seg_line, seg_merge_start, seg_merge_width, seg_placed,
    texts_wf, fold_precedes, OriginText, Text};

verus! {

/// A segment re-based into a merged row: merge and final columns are shifted
/// by what the row already holds, origin coordinates stay absolute within
/// their own origin line.
pub open spec fn spec_merge_seg(t: Text, origin_shift: int, final_shift: int) -> Text {
    match t {
        Text::Phantom { text } => Text::Phantom {
            text: PhantomText {
                merge_col: (text.merge_col + origin_shift) as usize,
                final_col: (text.final_col + final_shift) as usize,
                ..text
            },
        },
        Text::OriginText { text } => Text::OriginText {
            text: OriginText {
                merge_col: Interval {
                    start: (text.merge_col.start + origin_shift) as usize,
                    end: (text.merge_col.end + origin_shift) as usize,
                },
                final_col: Interval {
                    start: (text.final_col.start + final_shift) as usize,
                    end: (text.final_col.end + final_shift) as usize,
                },
                ..text
            },
        },
        Text::Empty => Text::Empty,
    }
}

/// All segments of one line re-based into a merged row.
pub open spec fn spec_rebase(ts: Seq<Text>, origin_shift: int, final_shift: int) -> Seq<Text> {
    Seq::new(ts.len(), |i: int| spec_merge_seg(ts[i], origin_shift, final_shift))
}

/// The segments that carry content: the lone marker of an empty line counts
/// as none.
pub open spec fn live_texts(ts: Seq<Text>) -> Seq<Text> {
    if ts.len() == 1 && ts[0] is Empty {
        Seq::empty()
    } else {
        ts
    }
}

/// The rendered row a fold group collapses to: one or more annotated origin
/// lines whose segments were concatenated, with cumulative lengths and a
/// per-line length table for line-indexed lookups.
#[derive(Debug, PartialEq, Eq)]
pub struct PhantomTextMultiLine {
    /// First origin line of the group.
    pub line: usize,
    /// Last origin line merged so far.
    pub last_line: usize,
    /// Absolute buffer offset of the first line's start.
    pub offset_of_line: usize,
    /// Total origin length of the merged lines.
    pub origin_text_len: usize,
    /// Total rendered length of the merged lines.
    pub final_text_len: usize,
    /// Per origin line: its number, origin length and rendered length; gaps
    /// left by lines wholly consumed by a fold repeat the previous entry.
    pub len_of_line: Vec<(usize, usize, usize)>,
    /// The merged segments, ordered by final column.
    pub text: Vec<Text>,
}

impl PhantomTextMultiLine {
    /// Structural soundness of the merged row: the segment list is sound,
    /// every segment belongs to one of the merged lines, and the length
    /// table has one entry per covered line number.
    pub open spec fn wf(self) -> bool {
        &&& texts_wf(self.text@, self.origin_text_len as int, self.final_text_len as int)
        &&& forall|i: int| 0 <= i < self.text@.len() ==> !((#[trigger] self.text@[i]) is Empty)
        &&& forall|i: int|
            0 <= i < self.text@.len() ==> self.line <= seg_line(#[trigger] self.text@[i])
                <= self.last_line
        &&& forall|i: int|
            0 <= i < self.text@.len() ==> seg_col_start(#[trigger] self.text@[i])
                <= seg_merge_start(self.text@[i])
        &&& self.line <= self.last_line
        &&& self.len_of_line@.len() == self.last_line - self.line + 1
        &&& self.offset_of_line + self.origin_text_len <= usize::MAX
    }

    /// Start the merged row with its first annotated line. The lone marker
    /// of an empty line carries no content and never enters a merged row,
    /// so that merging stays strictly append-only afterwards.
    pub fn new(line: PhantomTextLine) -> (r: Self)
        requires
            line.wf(),
        ensures
            r.line == line.line,
            r.last_line == line.line,
            r.offset_of_line == line.offset_of_line,
            r.origin_text_len == line.origin_text_len,
            r.final_text_len == line.final_text_len,
            r.len_of_line@ == seq![
                (line.line, line.origin_text_len, line.final_text_len),
            ],
            r.text@ == live_texts(line.texts@),
            r.wf(),
    {
        let mut len_of_line: Vec<(usize, usize, usize)> = Vec::new();
        len_of_line.push((line.line, line.origin_text_len, line.final_text_len));
        proof {
            assert(len_of_line@ =~= seq![(line.line, line.origin_text_len, line.final_text_len)]);
        }
        let text = if is_empty_marker(&line.texts) {
            proof {
                // The marker is zero-width, so the empty list covers the
                // line's (zero) lengths just as well.
                assert(prefix_final(line.texts@, 0) == 0);
                assert(prefix_merge(line.texts@, 0) == 0);
                assert(prefix_final(line.texts@, 1) == seg_final_width(line.texts@[0]));
                assert(prefix_merge(line.texts@, 1) == seg_merge_width(line.texts@[0]));
                assert(live_texts(line.texts@) =~= Seq::<Text>::empty());
            }
            Vec::new()
        } else {
            proof {
                assert forall|i: int| 0 <= i < line.texts@.len() implies !((
                #[trigger] line.texts@[i]) is Empty) by {
                    if line.texts@[i] is Empty {
                        assert(line.texts@.len() == 1);
                    }
                }
            }
            line.texts
        };
        PhantomTextMultiLine {
            line: line.line,
            last_line: line.line,
            offset_of_line: line.offset_of_line,
            origin_text_len: line.origin_text_len,
            final_text_len: line.final_text_len,
            len_of_line,
            text,
        }
    }
}

} // verus!

verus! {

/// The shifts applied to a segment stay within machine bounds.
pub open spec fn merge_seg_ok(t: Text, origin_shift: int, final_shift: int) -> bool {
    match t {
        Text::Phantom { text } => text.merge_col + origin_shift <= usize::MAX && text.final_col
            + final_shift <= usize::MAX,
        Text::OriginText { text } => text.merge_col.end + origin_shift <= usize::MAX
            && text.final_col.end + final_shift <= usize::MAX && text.merge_col.wf()
            && text.final_col.wf(),
        Text::Empty => true,
    }
}

impl Text {
    /// Re-base one segment into a merged row that already holds
    /// `origin_text_len` origin columns and `final_text_len` final columns.
    fn merge_to(self, origin_text_len: usize, final_text_len: usize) -> (r: Text)
        requires
            merge_seg_ok(self, origin_text_len as int, final_text_len as int),
        ensures
            r == spec_merge_seg(self, origin_text_len as int, final_text_len as int),
    {
        match self {
            Text::Phantom { text } => {
                let mut text = text;
                text.merge_col = text.merge_col + origin_text_len;
                text.final_col = text.final_col + final_text_len;
                Text::Phantom { text }
            },
            Text::OriginText { text } => {
                let mut text = text;
                text.merge_col = text.merge_col.translate(origin_text_len);
                text.final_col = text.final_col.translate(final_text_len);
                Text::OriginText { text }
            },
            Text::Empty => Text::Empty,
        }
    }
}

impl PhantomTextMultiLine {
    /// Append the next annotated line of the fold group: its segments are
    /// re-based by the row's cumulative lengths and appended, the cumulative
    /// lengths grow, and the length table gains one entry per line number
    /// covered since the last merge (lines wholly consumed by a fold repeat
    /// the previous entry). Merging is strictly append-only: no segment of
    /// the row is ever removed or mutated; the lone marker of an empty line
    /// carries no content and never enters a row.
    #[verifier::rlimit(50)]
    pub fn merge(&mut self, line: PhantomTextLine)
        requires
            old(self).wf(),
            line.wf(),
            old(self).last_line < line.line,
            forall|i: int|
                0 <= i < old(self).text@.len() ==> (match #[trigger] old(self).text@[i] {
                    Text::Phantom { text } => (spec_next_line(text) matches Some(nl) ==> nl
                        <= line.line),
                    _ => true,
                }),
            old(self).origin_text_len + line.origin_text_len <= usize::MAX,
            old(self).final_text_len + line.final_text_len <= usize::MAX,
            old(self).offset_of_line + old(self).origin_text_len + line.origin_text_len
                <= usize::MAX,
            old(self).len_of_line@.len() + (line.line - old(self).last_line) <= usize::MAX,
        ensures
            final(self).line == old(self).line,
            final(self).last_line == line.line,
            final(self).offset_of_line == old(self).offset_of_line,
            final(self).origin_text_len == old(self).origin_text_len + line.origin_text_len,
            final(self).final_text_len == old(self).final_text_len + line.final_text_len,
            final(self).len_of_line@.len() == old(self).len_of_line@.len() + (line.line - old(self).last_line),
            forall|i: int|
                0 <= i < old(self).len_of_line@.len() ==> final(self).len_of_line@[i] == old(self).len_of_line@[i],
            forall|i: int|
                old(self).len_of_line@.len() <= i < final(self).len_of_line@.len() - 1 ==> final(self).len_of_line@[i] == old(self).len_of_line@.last(),
            final(self).len_of_line@.last() == (
                line.line,
                line.origin_text_len,
                line.final_text_len,
            ),
            final(self).text@ == old(self).text@ + spec_rebase(
                live_texts(line.texts@),
                old(self).origin_text_len as int,
                old(self).final_text_len as int,
            ),
            final(self).wf(),
    {
        let ghost old_self = *old(self);
        let index = self.len_of_line.len();
        proof {
            assert(index >= 1);
        }
        let last_len = self.len_of_line[index - 1];
        while self.len_of_line.len() < line.line - self.line
            invariant
                old_self.len_of_line@.len() <= self.len_of_line@.len() <= line.line - old_self.line,
                old_self.line == self.line,
                line.line - self.line <= usize::MAX,
                forall|i: int|
                    0 <= i < old_self.len_of_line@.len() ==> self.len_of_line@[i]
                        == old_self.len_of_line@[i],
                forall|i: int|
                    old_self.len_of_line@.len() <= i < self.len_of_line@.len()
                        ==> self.len_of_line@[i] == old_self.len_of_line@.last(),
                last_len == old_self.len_of_line@.last(),
                self.last_line == old_self.last_line,
                self.origin_text_len == old_self.origin_text_len,
                self.final_text_len == old_self.final_text_len,
                self.offset_of_line == old_self.offset_of_line,
                self.text == old_self.text,
            decreases line.line - self.line - self.len_of_line@.len(),
        {
            self.len_of_line.push(last_len);
        }
        self.len_of_line.push((line.line, line.origin_text_len, line.final_text_len));
        let origin_text_len = self.origin_text_len;
        let final_text_len = self.final_text_len;
        self.origin_text_len = self.origin_text_len + line.origin_text_len;
        self.final_text_len = self.final_text_len + line.final_text_len;
        self.last_line = line.line;

        let ghost oshift = origin_text_len as int;
        let ghost fshift = final_text_len as int;
        let ghost incoming = line.texts@;
        let line_empty = is_empty_marker(&line.texts);
        if line.texts.len() > 0 && !line_empty {
            let ghost base = self.text@;
            let ghost lol = self.len_of_line@;
            proof {
                assert(live_texts(incoming) == incoming);
                assert forall|k: int| 0 <= k < incoming.len() implies merge_seg_ok(
                    incoming[k],
                    oshift,
                    fshift,
                ) by {
                    lemma_seg_in_bounds(
                        incoming,
                        line.origin_text_len as int,
                        line.final_text_len as int,
                        k,
                    );
                    assert(seg_placed(incoming, k));
                }
            }
            let mut k: usize = 0;
            proof {
                assert(self.text@ =~= base + spec_rebase(incoming, oshift, fshift).subrange(0, 0));
            }
            while k < line.texts.len()
                invariant
                    0 <= k <= line.texts@.len(),
                    incoming == line.texts@,
                    oshift == origin_text_len as int,
                    fshift == final_text_len as int,
                    forall|j: int|
                        0 <= j < incoming.len() ==> merge_seg_ok(
                            #[trigger] incoming[j],
                            oshift,
                            fshift,
                        ),
                    self.text@ =~= base + spec_rebase(incoming, oshift, fshift).subrange(
                        0,
                        k as int,
                    ),
                    self.line == old_self.line,
                    self.last_line == line.line,
                    self.origin_text_len == old_self.origin_text_len + line.origin_text_len,
                    self.final_text_len == old_self.final_text_len + line.final_text_len,
                    self.offset_of_line == old_self.offset_of_line,
                    self.len_of_line@ == lol,
                decreases line.texts@.len() - k,
            {
                let seg = line.texts[k].clone();
                proof {
                    assert(seg == incoming[k as int]);
                }
                let seg = seg.merge_to(origin_text_len, final_text_len);
                self.text.push(seg);
                proof {
                    assert(self.text@ =~= base + spec_rebase(incoming, oshift, fshift).subrange(
                        0,
                        k as int + 1,
                    ));
                }
                k = k + 1;
            }
            proof {
                assert(spec_rebase(incoming, oshift, fshift).subrange(
                    0,
                    incoming.len() as int,
                ) =~= spec_rebase(incoming, oshift, fshift));
            }
        }
        proof {
            if line.texts@.len() > 0 && !(line.texts@.len() == 1 && line.texts@[0] is Empty) {
                assert(live_texts(incoming) == incoming);
            } else {
                assert(spec_rebase(live_texts(incoming), oshift, fshift) =~= Seq::<Text>::empty());
                assert(self.text@ =~= old_self.text@ + spec_rebase(
                    live_texts(incoming),
                    oshift,
                    fshift,
                ));
            }
            assert(self.len_of_line@.len() == line.line - old_self.line + 1);
            lemma_merge_wf(old_self, line, *self);
        }
    }
}

/// Whether the segment list is the lone marker of an empty line.
fn is_empty_marker(ts: &Vec<Text>) -> (r: bool)
    ensures
        r == (ts@.len() == 1 && ts@[0] is Empty),
{
    if ts.len() == 1 {
        match &ts[0] {
            Text::Empty => true,
            _ => false,
        }
    } else {
        false
    }
}

} // verus!

verus! {

/// Re-basing shifts positions but leaves every width unchanged.
proof fn lemma_rebase_prefix(ts: Seq<Text>, o: int, f: int, n: int)
    requires
        0 <= o,
        0 <= f,
        forall|k: int| 0 <= k < ts.len() ==> merge_seg_ok(#[trigger] ts[k], o, f),
        0 <= n <= ts.len(),
    ensures
        prefix_final(spec_rebase(ts, o, f), n) == prefix_final(ts, n),
        prefix_merge(spec_rebase(ts, o, f), n) == prefix_merge(ts, n),
    decreases n,
{
    if n > 0 {
        lemma_rebase_prefix(ts, o, f, n - 1);
        assert(spec_rebase(ts, o, f)[n - 1] == spec_merge_seg(ts[n - 1], o, f));
        assert(seg_final_width(spec_merge_seg(ts[n - 1], o, f)) == seg_final_width(ts[n - 1]));
        assert(seg_merge_width(spec_merge_seg(ts[n - 1], o, f)) == seg_merge_width(ts[n - 1]));
    }
}

/// The merged row stays structurally sound after appending a line.
#[verifier::rlimit(100)]
#[verifier::spinoff_prover]
proof fn lemma_merge_wf(old_self: PhantomTextMultiLine, line: PhantomTextLine, new_self: PhantomTextMultiLine)
    requires
        old_self.wf(),
        line.wf(),
        old_self.last_line < line.line,
        forall|i: int|
            0 <= i < old_self.text@.len() ==> (match #[trigger] old_self.text@[i] {
                Text::Phantom { text } => (spec_next_line(text) matches Some(nl) ==> nl
                    <= line.line),
                _ => true,
            }),
        old_self.origin_text_len + line.origin_text_len <= usize::MAX,
        old_self.final_text_len + line.final_text_len <= usize::MAX,
        old_self.offset_of_line + old_self.origin_text_len + line.origin_text_len <= usize::MAX,
        new_self.line == old_self.line,
        new_self.last_line == line.line,
        new_self.offset_of_line == old_self.offset_of_line,
        new_self.origin_text_len == old_self.origin_text_len + line.origin_text_len,
        new_self.final_text_len == old_self.final_text_len + line.final_text_len,
        new_self.len_of_line@.len() == line.line - old_self.line + 1,
        new_self.text@ == old_self.text@ + spec_rebase(
            live_texts(line.texts@),
            old_self.origin_text_len as int,
            old_self.final_text_len as int,
        ),
    ensures
        new_self.wf(),
{
    let oshift = old_self.origin_text_len as int;
    let fshift = old_self.final_text_len as int;
    let a = old_self.text@;
    let b0 = live_texts(line.texts@);
    let b = spec_rebase(b0, oshift, fshift);
    let live = a + b;
    assert(prefix_final(a, a.len() as int) == old_self.final_text_len as int);
    assert(prefix_merge(a, a.len() as int) == old_self.origin_text_len as int);
    assert forall|i: int| 0 <= i < a.len() implies #[trigger] seg_placed(a, i) && !(a[i] is Empty)
        && old_self.line <= seg_line(a[i]) <= old_self.last_line by {
        assert(seg_placed(old_self.text@, i));
    }
    assert(prefix_final(b0, b0.len() as int) == line.final_text_len as int) by {
        if line.texts@.len() == 1 && line.texts@[0] is Empty {
            assert(b0 =~= Seq::<Text>::empty());
            assert(prefix_final(line.texts@, 1) == prefix_final(line.texts@, 0) + seg_final_width(
                line.texts@[0],
            ));
        }
    }
    assert(prefix_merge(b0, b0.len() as int) == line.origin_text_len as int) by {
        if line.texts@.len() == 1 && line.texts@[0] is Empty {
            assert(b0 =~= Seq::<Text>::empty());
            assert(prefix_merge(line.texts@, 1) == prefix_merge(line.texts@, 0) + seg_merge_width(
                line.texts@[0],
            ));
        }
    }
    assert forall|k: int| 0 <= k < b0.len() implies #[trigger] seg_placed(b0, k) && !(b0[k]
        is Empty) && seg_line(b0[k]) == line.line && seg_merge_start(b0[k]) == seg_col_start(
        b0[k],
    ) && merge_seg_ok(b0[k], oshift, fshift) by {
        assert(forall|i: int| 0 <= i < b0.len() ==> #[trigger] b0[i] == line.texts@[i]);
        lemma_prefix_eq_upto(b0, line.texts@, k);
        assert(seg_placed(line.texts@, k));
        lemma_seg_in_bounds(line.texts@, line.origin_text_len as int, line.final_text_len as int, k);
        if b0[k] is Empty {
            assert(line.texts@.len() == 1);
            assert(b0 =~= Seq::<Text>::empty());
        }
    }
    assert forall|k: int| 0 <= k < b0.len() implies merge_seg_ok(
        #[trigger] b0[k],
        oshift,
        fshift,
    ) by {
        assert(seg_placed(b0, k));
    }
    {
        assert(new_self.text@ == live);
        lemma_rebase_prefix(b0, oshift, fshift, b0.len() as int);
        lemma_prefix_split(a, b, b.len() as int);
        assert(prefix_final(live, live.len() as int) == new_self.final_text_len as int);
        assert(prefix_merge(live, live.len() as int) == new_self.origin_text_len as int);
        assert forall|i: int| 0 <= i < live.len() implies #[trigger] seg_placed(live, i) && !(
        live[i] is Empty) && new_self.line <= seg_line(live[i]) <= new_self.last_line
            && seg_col_start(live[i]) <= seg_merge_start(live[i]) by {
            if i < a.len() {
                assert(live[i] == a[i]);
                lemma_prefix_eq_upto(a, live, i);
                assert(seg_placed(a, i));
            } else {
                let k = i - a.len();
                assert(live[i] == b[k]);
                assert(b[k] == spec_merge_seg(b0[k], oshift, fshift));
                lemma_prefix_split(a, b, k);
                lemma_rebase_prefix(b0, oshift, fshift, k);
                assert(prefix_final(live, i) == old_self.final_text_len + prefix_final(b0, k));
                assert(prefix_merge(live, i) == old_self.origin_text_len + prefix_merge(b0, k));
                assert(seg_placed(b0, k));
            }
        }
        // Merged lines never coincide across the seam, so per-line bases
        // stay consistent; folds that continue do so at the appended line.
        assert forall|i: int, j: int|
            0 <= i < live.len() && 0 <= j < live.len() && seg_line(#[trigger] live[i]) == seg_line(
                #[trigger] live[j],
            ) implies seg_merge_start(live[i]) - seg_col_start(live[i]) == seg_merge_start(live[j])
            - seg_col_start(live[j]) by {
            if i < a.len() && j < a.len() {
                assert(a[i] == old_self.text@[i] && a[j] == old_self.text@[j]);
            } else if i >= a.len() && j >= a.len() {
                let ki = i - a.len();
                let kj = j - a.len();
                assert(live[i] == spec_merge_seg(b0[ki], oshift, fshift));
                assert(live[j] == spec_merge_seg(b0[kj], oshift, fshift));
                assert(seg_merge_start(live[i]) - seg_col_start(live[i]) == oshift);
                assert(seg_merge_start(live[j]) - seg_col_start(live[j]) == oshift);
            } else if i < a.len() {
                let kj = j - a.len();
                assert(seg_line(live[i]) <= old_self.last_line);
                assert(live[j] == spec_merge_seg(b0[kj], oshift, fshift));
                assert(seg_line(live[j]) == line.line);
                assert(false);
            } else {
                let ki = i - a.len();
                assert(seg_line(live[j]) <= old_self.last_line);
                assert(live[i] == spec_merge_seg(b0[ki], oshift, fshift));
                assert(seg_line(live[i]) == line.line);
                assert(false);
            }
        }
        assert forall|i: int, j: int| 0 <= i < j < live.len() implies fold_precedes(
            #[trigger] live[i],
            #[trigger] live[j],
        ) by {
            if j < a.len() {
                assert(a[i] == old_self.text@[i] && a[j] == old_self.text@[j]);
                assert(fold_precedes(old_self.text@[i], old_self.text@[j]));
            } else if i < a.len() {
                let kj = j - a.len();
                assert(live[i] == old_self.text@[i]);
                assert(live[j] == spec_merge_seg(b0[kj], oshift, fshift));
                assert(seg_line(live[j]) == line.line);
                match live[i] {
                    Text::Phantom { text } => {
                        assert(spec_next_line(text) matches Some(nl) ==> nl <= line.line);
                    },
                    _ => {},
                }
            } else {
                let ki = i - a.len();
                let kj = j - a.len();
                assert(live[i] == spec_merge_seg(b0[ki], oshift, fshift));
                assert(live[j] == spec_merge_seg(b0[kj], oshift, fshift));
                assert(fold_precedes(line.texts@[ki], line.texts@[kj]));
                assert(b0[ki] == line.texts@[ki] && b0[kj] == line.texts@[kj]);
            }
        }
    }
}

} // verus!

verus! {

/// Index of the first segment satisfying a predicate.
pub open spec fn spec_first_hit(ts: Seq<Text>, pred: spec_fn(Text) -> bool) -> Option<int>
    decreases ts.len(),
{
    if ts.len() == 0 {
        None
    } else if pred(ts[0]) {
        Some(0int)
    } else {
        match spec_first_hit(ts.drop_first(), pred) {
            Some(i) => Some(i + 1),
            None => None,
        }
    }
}

/// A witness below every earlier miss is the first hit.
pub proof fn lemma_first_hit_some(ts: Seq<Text>, pred: spec_fn(Text) -> bool, i: int)
    requires
        0 <= i < ts.len(),
        pred(ts[i]),
        forall|j: int| 0 <= j < i ==> !pred(#[trigger] ts[j]),
    ensures
        spec_first_hit(ts, pred) == Some(i),
    decreases ts.len(),
{
    if i == 0 {
    } else {
        assert(!pred(ts[0]));
        let tl = ts.drop_first();
        assert(forall|j: int| 0 <= j < i - 1 ==> !pred(#[trigger] tl[j]));
        assert(tl[i - 1] == ts[i]);
        lemma_first_hit_some(tl, pred, i - 1);
    }
}

/// No segment satisfying the predicate means no first hit.
pub proof fn lemma_first_hit_none(ts: Seq<Text>, pred: spec_fn(Text) -> bool)
    requires
        forall|j: int| 0 <= j < ts.len() ==> !pred(#[trigger] ts[j]),
    ensures
        spec_first_hit(ts, pred) is None,
    decreases ts.len(),
{
    if ts.len() > 0 {
        let tl = ts.drop_first();
        assert(forall|j: int| 0 <= j < tl.len() ==> !pred(#[trigger] tl[j]));
        lemma_first_hit_none(tl, pred);
    }
}

impl PhantomTextMultiLine {
    /// Index of the first segment whose final range covers `off`, if any.
    fn index_of_final(&self, off: usize) -> (r: Option<usize>)
        requires
            self.wf(),
        ensures
            match r {
                Some(i) => i < self.text@.len() && final_hit(self.text@[i as int], off as int) && Some(i as int)
                    == spec_first_hit(self.text@, |t: Text| final_hit(t, off as int)),
                None => spec_first_hit(self.text@, |t: Text| final_hit(t, off as int)) is None,
            },
    {
        let ghost pred = |t: Text| final_hit(t, off as int);
        let mut k: usize = 0;
        while k < self.text.len()
            invariant
                self.wf(),
                0 <= k <= self.text@.len(),
                forall|j: int| 0 <= j < k ==> !pred(#[trigger] self.text@[j]),
                pred == (|t: Text| final_hit(t, off as int)),
            decreases self.text@.len() - k,
        {
            proof {
                lemma_seg_in_bounds(
                    self.text@,
                    self.origin_text_len as int,
                    self.final_text_len as int,
                    k as int,
                );
            }
            let hit = match &self.text[k] {
                Text::Phantom { text } => text.final_col <= off && off < text.next_final_col(),
                Text::OriginText { text } => text.final_col.contains(off),
                Text::Empty => false,
            };
            if hit {
                proof {
                    lemma_first_hit_some(self.text@, pred, k as int);
                }
                return Some(k);
            }
            k = k + 1;
        }
        proof {
            lemma_first_hit_none(self.text@, pred);
        }
        None
    }

    /// Index of the first segment whose merge range covers `col`, if any.
    fn index_of_merge(&self, col: usize) -> (r: Option<usize>)
        requires
            self.wf(),
        ensures
            match r {
                Some(i) => i < self.text@.len() && merge_hit(self.text@[i as int], col as int) && Some(i as int)
                    == spec_first_hit(self.text@, |t: Text| merge_hit(t, col as int)),
                None => spec_first_hit(self.text@, |t: Text| merge_hit(t, col as int)) is None,
            },
    {
        let ghost pred = |t: Text| merge_hit(t, col as int);
        let mut k: usize = 0;
        while k < self.text.len()
            invariant
                self.wf(),
                0 <= k <= self.text@.len(),
                forall|j: int| 0 <= j < k ==> !pred(#[trigger] self.text@[j]),
                pred == (|t: Text| merge_hit(t, col as int)),
            decreases self.text@.len() - k,
        {
            proof {
                lemma_seg_in_bounds(
                    self.text@,
                    self.origin_text_len as int,
                    self.final_text_len as int,
                    k as int,
                );
            }
            let hit = match &self.text[k] {
                Text::Phantom { text } => text.merge_col <= col && col <= text.next_merge_col(),
                Text::OriginText { text } => text.merge_col.contains(col),
                Text::Empty => true,
            };
            if hit {
                proof {
                    lemma_first_hit_some(self.text@, pred, k as int);
                }
                return Some(k);
            }
            k = k + 1;
        }
        proof {
            lemma_first_hit_none(self.text@, pred);
        }
        None
    }

    /// Index of the first segment claiming the origin position, if any.
    fn index_of_origin(&self, line: usize, col: usize) -> (r: Option<usize>)
        requires
            self.wf(),
        ensures
            match r {
                Some(i) => i < self.text@.len() && origin_hit(
                    self.text@[i as int],
                    line as int,
                    col as int,
                ) && Some(i as int) == spec_first_hit(
                    self.text@,
                    |t: Text| origin_hit(t, line as int, col as int),
                ),
                None => spec_first_hit(
                    self.text@,
                    |t: Text| origin_hit(t, line as int, col as int),
                ) is None,
            },
    {
        let ghost pred = |t: Text| origin_hit(t, line as int, col as int);
        let mut k: usize = 0;
        while k < self.text.len()
            invariant
                self.wf(),
                0 <= k <= self.text@.len(),
                forall|j: int| 0 <= j < k ==> !pred(#[trigger] self.text@[j]),
                pred == (|t: Text| origin_hit(t, line as int, col as int)),
            decreases self.text@.len() - k,
        {
            proof {
                lemma_seg_in_bounds(
                    self.text@,
                    self.origin_text_len as int,
                    self.final_text_len as int,
                    k as int,
                );
                assert(seg_placed(self.text@, k as int));
            }
            let hit = match &self.text[k] {
                Text::Phantom { text } => {
                    let within = text.line == line && text.col <= col && col
                        < text.next_origin_col();
                    let folded_away = match text.next_line() {
                        Some(nl) => line < nl,
                        None => false,
                    };
                    within || folded_away
                },
                Text::OriginText { text } => text.line == line && text.col.contains(col),
                Text::Empty => true,
            };
            if hit {
                proof {
                    lemma_first_hit_some(self.text@, pred, k as int);
                }
                return Some(k);
            }
            k = k + 1;
        }
        proof {
            lemma_first_hit_none(self.text@, pred);
        }
        None
    }
}

} // verus!

verus! {

impl PhantomTextMultiLine {
    /// Total rendered length of the merged row.
    pub fn final_text_len(&self) -> (r: usize)
        ensures
            r == self.final_text_len,
    {
        self.final_text_len
    }

    /// Overwrite the rendered length recorded for the row; the caller owns
    /// the consequences for later queries.
    pub fn update_final_text_len(&mut self, len: usize)
        ensures
            *final(self) == (PhantomTextMultiLine { final_text_len: len, ..*old(self) }),
    {
        self.final_text_len = len;
    }

    /// The origin position rendered at a final column: `None` when the
    /// column lies in virtual text (which has no origin position) or beyond
    /// the rendered text.
    pub fn origin_col_of_final_offset(&self, final_offset: usize) -> (r: Option<(usize, usize)>)
        requires
            self.wf(),
        ensures
            r == ({
                match spec_first_hit(self.text@, |t: Text| final_hit(t, final_offset as int)) {
                    Some(i) => match self.text@[i] {
                        Text::OriginText { text } => Some(
                            (
                                text.line,
                                (text.col.start + final_offset - text.final_col.start) as usize,
                            ),
                        ),
                        _ => None::<(usize, usize)>,
                    },
                    None => None::<(usize, usize)>,
                }
            }),
    {
        match self.index_of_final(final_offset) {
            Some(i) => {
                proof {
                    lemma_seg_in_bounds(
                        self.text@,
                        self.origin_text_len as int,
                        self.final_text_len as int,
                        i as int,
                    );
                    assert(seg_placed(self.text@, i as int));
                }
                match &self.text[i] {
                    Text::OriginText { text } => Some(
                        (text.line, text.col.start + (final_offset - text.final_col.start)),
                    ),
                    _ => None,
                }
            },
            None => None,
        }
    }

    /// The final column rendering a merge column: `None` when the column
    /// lies in a phantom's hidden range (there is no single final column
    /// for a point inside virtual text) or beyond the merged text.
    pub fn col_at(&self, merge_col: usize) -> (r: Option<usize>)
        requires
            self.wf(),
        ensures
            r == ({
                match spec_first_hit(self.text@, |t: Text| merge_hit(t, merge_col as int)) {
                    Some(i) => match self.text@[i] {
                        Text::OriginText { text } => Some(
                            (text.final_col.start + merge_col - text.merge_col.start) as usize,
                        ),
                        _ => None::<usize>,
                    },
                    None => None::<usize>,
                }
            }),
    {
        match self.index_of_merge(merge_col) {
            Some(i) => {
                proof {
                    lemma_seg_in_bounds(
                        self.text@,
                        self.origin_text_len as int,
                        self.final_text_len as int,
                        i as int,
                    );
                    assert(seg_placed(self.text@, i as int));
                }
                match &self.text[i] {
                    Text::OriginText { text } => Some(
                        text.final_col.start + (merge_col - text.merge_col.start),
                    ),
                    _ => None,
                }
            },
            None => None,
        }
    }

    /// The phantom covering a final column, together with the offset of the
    /// column within the phantom's text.
    pub fn phantom_text_of_final_col(&self, col: usize) -> (r: Option<(PhantomText, usize)>)
        requires
            self.wf(),
        ensures
            r == ({
                match spec_first_hit(self.text@, |t: Text| final_hit(t, col as int)) {
                    Some(i) => match self.text@[i] {
                        Text::Phantom { text } => Some(
                            (text, (col - text.final_col) as usize),
                        ),
                        _ => None::<(PhantomText, usize)>,
                    },
                    None => None::<(PhantomText, usize)>,
                }
            }),
    {
        match self.index_of_final(col) {
            Some(i) => match &self.text[i] {
                Text::Phantom { text } => Some((text.clone(), col - text.final_col)),
                _ => None,
            },
            None => None,
        }
    }
}

} // verus!

verus! {

/// What `cursor_position_of_final_col` returns: the origin anchor of the
/// segment rendered at the column, or the clamped last position of the row.
pub open spec fn spec_cursor_position(m: PhantomTextMultiLine, col: int) -> (usize, usize, usize) {
    match spec_first_hit(m.text@, |t: Text| final_hit(t, col)) {
        Some(i) => match m.text@[i] {
            Text::Phantom { text } => (
                text.line,
                text.col,
                (m.offset_of_line + text.merge_col) as usize,
            ),
            Text::OriginText { text } => (
                text.line,
                (text.col.start + col - text.final_col.start) as usize,
                (m.offset_of_line + text.merge_col.start + col - text.final_col.start) as usize,
            ),
            Text::Empty => (0usize, 0usize, 0usize),
        },
        None => ({
            let last = m.len_of_line@.last();
            let off: int = m.offset_of_line + m.origin_text_len;
            (
                last.0,
                (if last.1 >= 1 {
                    last.1 - 1
                } else {
                    0
                }) as usize,
                (if off >= 1 {
                    off - 1
                } else {
                    0
                }) as usize,
            )
        }),
    }
}

/// What `final_col_of_col` returns for each possible lookup outcome: real
/// text maps column for column; a position claimed by a phantom lands just
/// after the phantom's rendered text (the cursor stands before the phantom,
/// landing after it visually -- an explicit tie-break, not incidental).
pub open spec fn spec_final_col_of_col(m: PhantomTextMultiLine, line: int, col: int) -> int {
    if m.text@.len() == 0 {
        col
    } else {
        match spec_first_hit(m.text@, |t: Text| origin_hit(t, line, col)) {
            Some(i) => match m.text@[i] {
                Text::Phantom { text } => spec_next_final_col(text),
                Text::OriginText { text } => text.final_col.start + col - text.col.start,
                Text::Empty => 0,
            },
            None => m.final_text_len - 1,
        }
    }
}

/// The lookup outcomes on which `final_col_of_col` is defined: a miss needs
/// a last final column to fall back to.
pub open spec fn final_col_query_ok(m: PhantomTextMultiLine, line: int, col: int) -> bool {
    m.text@.len() == 0 || spec_first_hit(m.text@, |t: Text| origin_hit(t, line, col)) is Some
        || m.final_text_len >= 1
}

impl PhantomTextMultiLine {
    /// The final column at which an origin position is rendered. A position
    /// inside a phantom's hidden range (or on a line the phantom folded
    /// away) resolves to the position just after the phantom's rendered
    /// text -- the cursor is treated as standing before the phantom and
    /// lands after it visually, an explicit, documented tie-break; a
    /// position past everything clamps to the last final column.
    pub fn final_col_of_col(&self, line: usize, pre_col: usize, _before_cursor: bool) -> (r:
        usize)
        requires
            self.wf(),
            final_col_query_ok(*self, line as int, pre_col as int),
        ensures
            r == spec_final_col_of_col(*self, line as int, pre_col as int),
    {
        if self.text.len() == 0 {
            return pre_col;
        }
        match self.index_of_origin(line, pre_col) {
            Some(i) => {
                proof {
                    lemma_seg_in_bounds(
                        self.text@,
                        self.origin_text_len as int,
                        self.final_text_len as int,
                        i as int,
                    );
                    assert(seg_placed(self.text@, i as int));
                }
                match &self.text[i] {
                    Text::Phantom { text } => text.next_final_col(),
                    Text::OriginText { text } => text.final_col.start + (pre_col - text.col.start),
                    Text::Empty => 0,
                }
            },
            None => self.final_text_len - 1,
        }
    }

    /// The origin position a final column resolves to for cursor placement:
    /// inside virtual text the cursor lands on the phantom's origin anchor,
    /// and past the rendered text it clamps to the last valid position. The
    /// third component is the absolute buffer offset of the position.
    pub fn cursor_position_of_final_col(&self, col: usize) -> (r: (usize, usize, usize))
        requires
            self.wf(),
        ensures
            r == spec_cursor_position(*self, col as int),
    {
        match self.index_of_final(col) {
            Some(i) => {
                proof {
                    lemma_seg_in_bounds(
                        self.text@,
                        self.origin_text_len as int,
                        self.final_text_len as int,
                        i as int,
                    );
                    assert(seg_placed(self.text@, i as int));
                }
                match &self.text[i] {
                    Text::Phantom { text } => (
                        text.line,
                        text.col,
                        self.offset_of_line + text.merge_col,
                    ),
                    Text::OriginText { text } => (
                        text.line,
                        text.col.start + (col - text.final_col.start),
                        self.offset_of_line + text.merge_col.start + (col
                            - text.final_col.start),
                    ),
                    Text::Empty => {
                        proof {
                            assert(false);
                        }
                        (0, 0, 0)
                    },
                }
            },
            None => {
                proof {
                    assert(self.len_of_line@.len() >= 1);
                }
                let last = self.len_of_line[self.len_of_line.len() - 1];
                let line_offset = if last.1 >= 1 {
                    last.1 - 1
                } else {
                    0
                };
                let abs = self.offset_of_line + self.origin_text_len;
                let abs_offset = if abs >= 1 {
                    abs - 1
                } else {
                    0
                };
                (last.0, line_offset, abs_offset)
            },
        }
    }
}

} // verus!

verus! {

/// A styling span emitted for virtual text: the final-column range it
/// covers, the colour to draw it with, and the font size to use.
#[derive(Clone, Copy, Debug, PartialEq, Eq)]
pub struct StyleSpan {
    pub range: Interval,
    pub fg: Color,
    pub font_size: usize,
}

/// The phantom spans of a segment list, in segment order.
pub open spec fn spec_phantoms(ts: Seq<Text>) -> Seq<PhantomText>
    decreases ts.len(),
{
    if ts.len() == 0 {
        Seq::empty()
    } else {
        spec_phantoms(ts.drop_last()) + (match ts.last() {
            Text::Phantom { text } => seq![text],
            _ => Seq::empty(),
        })
    }
}

/// The styling span for one phantom, given the base font size and the
/// colour virtual text defaults to.
pub open spec fn spec_style_of(p: PhantomText, font_size: int, phantom_color: Color) -> StyleSpan {
    StyleSpan {
        range: Interval {
            start: p.final_col,
            end: (p.final_col + text_len(p)) as usize,
        },
        fg: match p.fg {
            Some(c) => c,
            None => phantom_color,
        },
        font_size: (match p.font_size {
            Some(s) => if s < font_size {
                s as int
            } else {
                font_size
            },
            None => font_size,
        }) as usize,
    }
}

/// The styling spans of all phantoms with visible text, in segment order.
pub open spec fn spec_phantom_styles(
    ts: Seq<Text>,
    font_size: int,
    phantom_color: Color,
) -> Seq<StyleSpan>
    decreases ts.len(),
{
    if ts.len() == 0 {
        Seq::empty()
    } else {
        spec_phantom_styles(ts.drop_last(), font_size, phantom_color) + (match ts.last() {
            Text::Phantom { text } => if text_len(text) > 0 {
                seq![spec_style_of(text, font_size, phantom_color)]
            } else {
                Seq::empty()
            },
            _ => Seq::empty(),
        })
    }
}

/// The rendered text of a segment list: virtual text where a phantom
/// stands, the merged origin text everywhere else.
pub open spec fn spec_combine(ts: Seq<Text>, origin: Seq<char>) -> Seq<char>
    decreases ts.len(),
{
    if ts.len() == 0 {
        Seq::empty()
    } else {
        spec_combine(ts.drop_last(), origin) + (match ts.last() {
            Text::Phantom { text } => text.text@,
            Text::OriginText { text } => origin.subrange(
                text.merge_col.start as int,
                text.merge_col.end as int,
            ),
            Text::Empty => Seq::empty(),
        })
    }
}

/// A segment only reads origin columns that exist.
pub open spec fn seg_within(t: Text, olen: int) -> bool {
    match t {
        Text::OriginText { text } => text.merge_col.wf() && text.merge_col.end <= olen,
        _ => true,
    }
}

/// Splice the virtual text into the merged origin text, segment by segment.
pub fn combine_with_text(lines: &Vec<Text>, origin: &str) -> (r: String)
    requires
        forall|i: int| 0 <= i < lines@.len() ==> seg_within(#[trigger] lines@[i], origin@.len() as int),
    ensures
        r@ == spec_combine(lines@, origin@),
{
    let mut rs = String::new();
    let mut k: usize = 0;
    proof {
        assert(lines@.subrange(0, 0) =~= Seq::<Text>::empty());
    }
    while k < lines.len()
        invariant
            0 <= k <= lines@.len(),
            forall|i: int|
                0 <= i < lines@.len() ==> seg_within(#[trigger] lines@[i], origin@.len() as int),
            rs@ == spec_combine(lines@.subrange(0, k as int), origin@),
        decreases lines@.len() - k,
    {
        match &lines[k] {
            Text::Phantom { text } => {
                rs.append(text.text.as_str());
            },
            Text::OriginText { text } => {
                let piece = origin.substring_char(text.merge_col.start, text.merge_col.end);
                rs.append(piece);
            },
            Text::Empty => {},
        }
        proof {
            let pre = lines@.subrange(0, k as int);
            let post = lines@.subrange(0, k + 1);
            assert(post.drop_last() =~= pre);
            assert(post.last() == lines@[k as int]);
        }
        k = k + 1;
    }
    proof {
        assert(lines@.subrange(0, lines@.len() as int) =~= lines@);
    }
    rs
}

impl PhantomTextMultiLine {
    /// The phantom spans merged into this row, in rendering order.
    pub fn iter_phantom_text(&self) -> (r: Vec<PhantomText>)
        ensures
            r@ == spec_phantoms(self.text@),
    {
        let mut out: Vec<PhantomText> = Vec::new();
        let mut k: usize = 0;
        proof {
            assert(self.text@.subrange(0, 0) =~= Seq::<Text>::empty());
            assert(spec_phantoms(self.text@.subrange(0, 0)) =~= Seq::<PhantomText>::empty());
        }
        while k < self.text.len()
            invariant
                0 <= k <= self.text@.len(),
                out@ == spec_phantoms(self.text@.subrange(0, k as int)),
            decreases self.text@.len() - k,
        {
            match &self.text[k] {
                Text::Phantom { text } => {
                    out.push(text.clone());
                },
                _ => {},
            }
            proof {
                let pre = self.text@.subrange(0, k as int);
                let post = self.text@.subrange(0, k + 1);
                assert(post.drop_last() =~= pre);
                assert(post.last() == self.text@[k as int]);
            }
            k = k + 1;
        }
        proof {
            assert(self.text@.subrange(0, self.text@.len() as int) =~= self.text@);
        }
        out
    }

    /// Append one styling span per phantom with visible text: the phantom's
    /// own colour or the default, and its font size capped by the base one.
    /// Origin-text styling is left to the caller.
    pub fn add_phantom_style(
        &self,
        spans: &mut Vec<StyleSpan>,
        font_size: usize,
        phantom_color: Color,
    )
        requires
            self.wf(),
        ensures
            final(spans)@ == old(spans)@ + spec_phantom_styles(
                self.text@,
                font_size as int,
                phantom_color,
            ),
    {
        let ghost base = old(spans)@;
        let mut k: usize = 0;
        proof {
            assert(self.text@.subrange(0, 0) =~= Seq::<Text>::empty());
            assert(base + spec_phantom_styles(
                self.text@.subrange(0, 0),
                font_size as int,
                phantom_color,
            ) =~= base);
        }
        while k < self.text.len()
            invariant
                self.wf(),
                0 <= k <= self.text@.len(),
                spans@ == base + spec_phantom_styles(
                    self.text@.subrange(0, k as int),
                    font_size as int,
                    phantom_color,
                ),
            decreases self.text@.len() - k,
        {
            proof {
                lemma_seg_in_bounds(
                    self.text@,
                    self.origin_text_len as int,
                    self.final_text_len as int,
                    k as int,
                );
                assert(seg_placed(self.text@, k as int));
            }
            match &self.text[k] {
                Text::Phantom { text } => {
                    let tlen = text.text.unicode_len();
                    if tlen > 0 {
                        let fg = match text.fg {
                            Some(c) => c,
                            None => phantom_color,
                        };
                        let size = match text.font_size {
                            Some(s) => if s < font_size {
                                s
                            } else {
                                font_size
                            },
                            None => font_size,
                        };
                        spans.push(
                            StyleSpan {
                                range: Interval::new(text.final_col, text.final_col + tlen),
                                fg,
                                font_size: size,
                            },
                        );
                    }
                },
                _ => {},
            }
            proof {
                let pre = self.text@.subrange(0, k as int);
                let post = self.text@.subrange(0, k + 1);
                assert(post.drop_last() =~= pre);
                assert(post.last() == self.text@[k as int]);
            }
            k = k + 1;
        }
        proof {
            assert(self.text@.subrange(0, self.text@.len() as int) =~= self.text@);
        }
    }

    /// Materialize the rendered text of the row by splicing the phantom
    /// texts into the merged origin text.
    pub fn final_line_content(&self, origin: &str) -> (r: String)
        requires
            self.wf(),
            origin@.len() == self.origin_text_len,
        ensures
            r@ == spec_combine(self.text@, origin@),
    {
        proof {
            assert forall|i: int| 0 <= i < self.text@.len() implies seg_within(
                #[trigger] self.text@[i],
                origin@.len() as int,
            ) by {
                lemma_seg_in_bounds(
                    self.text@,
                    self.origin_text_len as int,
                    self.final_text_len as int,
                    i,
                );
                assert(seg_placed(self.text@, i));
            }
        }
        combine_with_text(&self.text, origin)
    }
}

} // verus!
