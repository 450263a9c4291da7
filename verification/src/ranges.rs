//! Subtraction of a set of exclusion ranges from a column range.

use vstd::prelude::*;

use crate::interval::Interval;

verus! {

/// A list of exclusion ranges, expected to be sorted and non-crossing.
pub struct Ranges {
    pub ranges: Vec<Interval>,
}

/// What is left of `rang` after walking the exclusions from position `i`
/// on: `None` stands for the walk that found `rang` swallowed whole, which
/// discards everything collected so far.
pub open spec fn spec_except_from(excs: Seq<Interval>, i: int, rang: Interval) -> Option<
    Seq<Interval>,
>
    decreases excs.len() - i,
{
    if i < 0 || i >= excs.len() {
        Some(spec_keep(rang))
    } else {
        let exc = excs[i];
        if exc.end <= rang.start {
            spec_except_from(excs, i + 1, rang)
        } else if exc.start <= rang.start && rang.start < exc.end && exc.end < rang.end {
            spec_except_from(excs, i + 1, Interval { start: exc.end, end: rang.end })
        } else if rang.start < exc.start && exc.end <= rang.end {
            match spec_except_from(excs, i + 1, Interval { start: exc.end, end: rang.end }) {
                Some(rest) => Some(
                    seq![Interval { start: rang.start, end: exc.start }] + rest,
                ),
                None => None,
            }
        } else if rang.start < exc.start && rang.end >= exc.start && rang.end < exc.end {
            Some(spec_keep(Interval { start: rang.start, end: exc.start }))
        } else if rang.end <= exc.start {
            Some(spec_keep(rang))
        } else if exc.start <= rang.start && rang.end <= exc.end {
            None
        } else {
            spec_except_from(excs, i + 1, rang)
        }
    }
}

/// A range survives only when it is non-empty.
pub open spec fn spec_keep(rang: Interval) -> Seq<Interval> {
    if rang.start < rang.end {
        seq![rang]
    } else {
        Seq::empty()
    }
}

/// What `except` returns: the surviving parts of `rang`, or nothing at all
/// when some exclusion swallowed it whole.
pub open spec fn spec_except(excs: Seq<Interval>, rang: Interval) -> Seq<Interval> {
    match spec_except_from(excs, 0, rang) {
        Some(s) => s,
        None => Seq::empty(),
    }
}

impl Ranges {
    /// Subtract the exclusion ranges from `rang`, returning the parts of
    /// `rang` that no exclusion covers, in order.
    pub fn except(&self, rang: Interval) -> (r: Vec<Interval>)
        ensures
            r@ == spec_except(self.ranges@, rang),
    {
        let mut cur = rang;
        let mut final_ranges: Vec<Interval> = Vec::new();
        let mut k: usize = 0;
        let mut done = false;
        let ghost excs = self.ranges@;
        let ghost orig = rang;
        proof {
            assert(Seq::<Interval>::empty() + spec_keep(cur) =~= spec_keep(cur));
        }
        while k < self.ranges.len() && !done
            invariant
                0 <= k <= excs.len(),
                excs == self.ranges@,
                orig == rang,
                spec_except_from(excs, 0, orig) == (if done {
                    Some(final_ranges@ + spec_keep(cur))
                } else {
                    match spec_except_from(excs, k as int, cur) {
                        Some(rest) => Some(final_ranges@ + rest),
                        None => None::<Seq<Interval>>,
                    }
                }),
            decreases excs.len() - k + (if done {
                0int
            } else {
                1int
            }),
        {
            let exc = self.ranges[k];
            if exc.end <= cur.start {
                // This exclusion lies wholly before the range.
                k = k + 1;
            } else if exc.start <= cur.start && cur.start < exc.end && exc.end < cur.end {
                cur.start = exc.end;
                k = k + 1;
            } else if cur.start < exc.start && exc.end <= cur.end {
                let ghost pre = final_ranges@;
                final_ranges.push(Interval { start: cur.start, end: exc.start });
                let ghost cut = Interval { start: cur.start, end: exc.start };
                cur.start = exc.end;
                proof {
                    assert forall|rest: Seq<Interval>|
                        true implies pre + (seq![cut] + rest) =~= (pre + seq![cut]) + rest by {}
                }
                k = k + 1;
            } else if cur.start < exc.start && cur.end >= exc.start && cur.end < exc.end {
                cur.end = exc.start;
                done = true;
            } else if cur.end <= exc.start {
                done = true;
            } else if exc.start <= cur.start && cur.end <= exc.end {
                let empty_result: Vec<Interval> = Vec::new();
                proof {
                    assert(spec_except_from(excs, 0, orig) is None);
                    assert(empty_result@ =~= spec_except(excs, orig));
                }
                return empty_result;
            } else {
                k = k + 1;
            }
        }
        proof {
            if !done {
                assert(spec_except_from(excs, k as int, cur) == Some(spec_keep(cur)));
            }
            assert(spec_except_from(excs, 0, orig) == Some(final_ranges@ + spec_keep(cur)));
        }
        if cur.start < cur.end {
            let ghost pre = final_ranges@;
            final_ranges.push(cur);
            proof {
                assert(final_ranges@ =~= pre + spec_keep(cur));
            }
        } else {
            proof {
                assert(final_ranges@ =~= final_ranges@ + spec_keep(cur));
            }
        }
        proof {
            assert(final_ranges@ =~= spec_except(excs, orig));
        }
        final_ranges
    }
}

} // verus!

verus! {

/// Exclusions as `except` expects them: non-empty, ascending, and separated
/// by at least one column (touching exclusions would be one exclusion).
pub open spec fn excs_sorted(excs: Seq<Interval>) -> bool {
    &&& forall|i: int| 0 <= i < excs.len() ==> (#[trigger] excs[i]).start < excs[i].end
    &&& forall|i: int|
        0 <= i && i + 1 < excs.len() ==> (#[trigger] excs[i]).end < excs[i + 1].start
}

/// Whether some range of the list contains the column.
pub open spec fn covered_by(r: Seq<Interval>, x: int) -> bool {
    exists|k: int| 0 <= k < r.len() && (#[trigger] r[k]).spec_contains(x)
}

/// Whether some exclusion at position `i` or later contains the column.
pub open spec fn excluded_from(excs: Seq<Interval>, i: int, x: int) -> bool {
    exists|j: int| i <= j < excs.len() && (#[trigger] excs[j]).spec_contains(x)
}

/// Exclusions later in a sorted list lie strictly further right.
proof fn lemma_excs_order(excs: Seq<Interval>, i: int, j: int)
    requires
        excs_sorted(excs),
        0 <= i < j < excs.len(),
    ensures
        excs[i].end < excs[j].start,
    decreases j - i,
{
    if i + 1 < j {
        lemma_excs_order(excs, i + 1, j);
    }
}

/// Being excluded from position `i` on splits into the exclusion at `i` and
/// the ones after it.
proof fn lemma_excluded_step(excs: Seq<Interval>, i: int)
    requires
        0 <= i < excs.len(),
    ensures
        forall|x: int| #[trigger] excluded_from(excs, i, x) == (excs[i].spec_contains(x)
            || excluded_from(excs, i + 1, x)),
{
    assert forall|x: int| #[trigger] excluded_from(excs, i, x) == (excs[i].spec_contains(x)
        || excluded_from(excs, i + 1, x)) by {
        if excluded_from(excs, i, x) {
            let j = choose|j: int| i <= j < excs.len() && (#[trigger] excs[j]).spec_contains(x);
            if j > i {
                assert(excluded_from(excs, i + 1, x));
            }
        }
        if excs[i].spec_contains(x) {
            assert(excluded_from(excs, i, x));
        }
        if excluded_from(excs, i + 1, x) {
            let j = choose|j: int|
                i + 1 <= j < excs.len() && (#[trigger] excs[j]).spec_contains(x);
            assert(excluded_from(excs, i, x));
        }
    }
}

/// Under sorted exclusions, a walk that starts strictly left of the next
/// exclusion never finds its range swallowed whole.
proof fn lemma_no_swallow(excs: Seq<Interval>, i: int, cur: Interval)
    requires
        excs_sorted(excs),
        0 <= i <= excs.len(),
        cur.wf(),
        i < excs.len() ==> cur.start < excs[i].start,
    ensures
        spec_except_from(excs, i, cur) is Some,
    decreases excs.len() - i,
{
    if i < excs.len() {
        let exc = excs[i];
        if exc.end <= cur.start || (exc.start <= cur.start && cur.start < exc.end && exc.end
            < cur.end) || (exc.start <= cur.start && cur.end <= exc.end) {
            // All three need the exclusion to start at or before the range.
            assert(false);
        } else if cur.start < exc.start && exc.end <= cur.end {
            if i + 1 < excs.len() {
                lemma_excs_order(excs, i, i + 1);
            }
            lemma_no_swallow(excs, i + 1, Interval { start: exc.end, end: cur.end });
        } else {
        }
    }
}

/// The walk from position `i` computes exactly the part of `cur` that no
/// exclusion from `i` on covers, as non-empty, ordered, separated pieces;
/// `None` only ever stands for a wholly swallowed range.
#[verifier::rlimit(60)]
proof fn lemma_except_from_sem(excs: Seq<Interval>, i: int, cur: Interval)
    requires
        excs_sorted(excs),
        0 <= i <= excs.len(),
        cur.wf(),
    ensures
        match spec_except_from(excs, i, cur) {
            None => forall|x: int|
                cur.spec_contains(x) ==> #[trigger] excluded_from(excs, i, x),
            Some(r) => {
                &&& forall|x: int| #[trigger] covered_by(r, x) == (cur.spec_contains(x)
                    && !excluded_from(excs, i, x))
                &&& forall|k: int|
                    0 <= k < r.len() ==> (#[trigger] r[k]).start < r[k].end && cur.start
                        <= r[k].start && r[k].end <= cur.end
                &&& forall|k: int|
                    0 <= k && k + 1 < r.len() ==> (#[trigger] r[k]).end < r[k + 1].start
            },
        },
    decreases excs.len() - i,
{
    if i >= excs.len() {
        let r = spec_keep(cur);
        assert forall|x: int| #[trigger] covered_by(r, x) == (cur.spec_contains(x)
            && !excluded_from(excs, i, x)) by {
            assert(!excluded_from(excs, i, x));
            if cur.spec_contains(x) {
                assert(r[0].spec_contains(x));
            }
        }
    } else {
        let exc = excs[i];
        lemma_excluded_step(excs, i);
        assert forall|x: int| #[trigger] excluded_from(excs, i + 1, x) implies exc.end < x by {
            let j = choose|j: int|
                i + 1 <= j < excs.len() && (#[trigger] excs[j]).spec_contains(x);
            lemma_excs_order(excs, i, j);
        }
        if exc.end <= cur.start {
            lemma_except_from_sem(excs, i + 1, cur);
        } else if exc.start <= cur.start && cur.start < exc.end && exc.end < cur.end {
            let cur2 = Interval { start: exc.end, end: cur.end };
            lemma_except_from_sem(excs, i + 1, cur2);
        } else if cur.start < exc.start && exc.end <= cur.end {
            let cur2 = Interval { start: exc.end, end: cur.end };
            let head = Interval { start: cur.start, end: exc.start };
            if i + 1 < excs.len() {
                lemma_excs_order(excs, i, i + 1);
            }
            lemma_no_swallow(excs, i + 1, cur2);
            lemma_except_from_sem(excs, i + 1, cur2);
            let rest = spec_except_from(excs, i + 1, cur2)->Some_0;
            let r = seq![head] + rest;
            assert(spec_except_from(excs, i, cur) == Some(r));
            assert forall|x: int| #[trigger] covered_by(r, x) == (cur.spec_contains(x)
                && !excluded_from(excs, i, x)) by {
                if covered_by(r, x) {
                    let k = choose|k: int| 0 <= k < r.len() && (#[trigger] r[k]).spec_contains(x);
                    if k == 0 {
                        assert(head.spec_contains(x));
                    } else {
                        assert(r[k] == rest[k - 1]);
                        assert(covered_by(rest, x));
                    }
                }
                if cur.spec_contains(x) && !excluded_from(excs, i, x) {
                    if x < exc.start {
                        assert(r[0].spec_contains(x));
                        assert(covered_by(r, x));
                    } else {
                        assert(!exc.spec_contains(x));
                        assert(x >= exc.end);
                        assert(cur2.spec_contains(x));
                        assert(covered_by(rest, x));
                        let k = choose|k: int|
                            0 <= k < rest.len() && (#[trigger] rest[k]).spec_contains(x);
                        assert(r[k + 1] == rest[k]);
                        assert(covered_by(r, x));
                    }
                }
                if covered_by(rest, x) {
                    assert(cur2.spec_contains(x));
                    assert(!excluded_from(excs, i + 1, x));
                    assert(!exc.spec_contains(x));
                }
            }
            assert forall|k: int| 0 <= k < r.len() implies (#[trigger] r[k]).start < r[k].end
                && cur.start <= r[k].start && r[k].end <= cur.end by {
                if k > 0 {
                    assert(r[k] == rest[k - 1]);
                }
            }
            assert forall|k: int| 0 <= k && k + 1 < r.len() implies (#[trigger] r[k]).end < r[k
                + 1].start by {
                if k == 0 {
                    assert(r[1] == rest[0]);
                    assert(rest[0].start >= cur2.start);
                } else {
                    assert(r[k] == rest[k - 1] && r[k + 1] == rest[k]);
                }
            }
        } else if cur.start < exc.start && cur.end >= exc.start && cur.end < exc.end {
            let head = Interval { start: cur.start, end: exc.start };
            let r = spec_keep(head);
            assert forall|x: int| #[trigger] covered_by(r, x) == (cur.spec_contains(x)
                && !excluded_from(excs, i, x)) by {
                if covered_by(r, x) {
                    let k = choose|k: int| 0 <= k < r.len() && (#[trigger] r[k]).spec_contains(x);
                    assert(head.spec_contains(x));
                }
                if cur.spec_contains(x) && !excluded_from(excs, i, x) {
                    assert(!exc.spec_contains(x));
                    assert(x < exc.start);
                    assert(r[0].spec_contains(x));
                }
            }
        } else if cur.end <= exc.start {
            let r = spec_keep(cur);
            assert forall|x: int| #[trigger] covered_by(r, x) == (cur.spec_contains(x)
                && !excluded_from(excs, i, x)) by {
                if covered_by(r, x) {
                    let k = choose|k: int| 0 <= k < r.len() && (#[trigger] r[k]).spec_contains(x);
                }
                if cur.spec_contains(x) {
                    assert(!exc.spec_contains(x));
                    if cur.start < cur.end {
                        assert(r[0].spec_contains(x));
                    }
                }
            }
        } else if exc.start <= cur.start && cur.end <= exc.end {
            assert forall|x: int| cur.spec_contains(x) implies #[trigger] excluded_from(
                excs,
                i,
                x,
            ) by {
                assert(exc.spec_contains(x));
            }
        } else {
            // The six cases are exhaustive for well-formed intervals.
            assert(false);
        }
    }
}

/// The direct meaning of `except` under sorted exclusions: a column lies in
/// the result exactly when it lies in the range and in no exclusion, and
/// the result lists the surviving pieces in order, non-empty, separated.
pub proof fn lemma_except_is_difference(excs: Seq<Interval>, rang: Interval)
    requires
        excs_sorted(excs),
        rang.wf(),
    ensures
        forall|x: int| #[trigger] covered_by(spec_except(excs, rang), x) == (rang.spec_contains(x)
            && !excluded_from(excs, 0, x)),
        forall|k: int|
            0 <= k < spec_except(excs, rang).len() ==> (#[trigger] spec_except(excs, rang)[k]).start
                < spec_except(excs, rang)[k].end && rang.start <= spec_except(excs, rang)[k].start
                && spec_except(excs, rang)[k].end <= rang.end,
        forall|k: int|
            0 <= k && k + 1 < spec_except(excs, rang).len() ==> (#[trigger] spec_except(
                excs,
                rang,
            )[k]).end < spec_except(excs, rang)[k + 1].start,
{
    lemma_except_from_sem(excs, 0, rang);
    let r = spec_except(excs, rang);
    match spec_except_from(excs, 0, rang) {
        None => {
            assert(r =~= Seq::<Interval>::empty());
            assert forall|x: int| #[trigger] covered_by(r, x) == (rang.spec_contains(x)
                && !excluded_from(excs, 0, x)) by {
                if covered_by(r, x) {
                    let k = choose|k: int| 0 <= k < r.len() && (#[trigger] r[k]).spec_contains(x);
                }
            }
        },
        Some(s) => {
            assert(r == s);
        },
    }
}

} // verus!
