//! A minimal observable-value store with explicit ownership: a `Scope`
//! exclusively owns the signals and child scopes created within it, and one
//! explicit teardown call disposes them all — no global registry.

use vstd::prelude::*;

verus! {

/// An identifier referencing a signal within its owning scope.
#[derive(Clone, Copy, Debug, PartialEq, Eq, PartialOrd, Hash)]
pub struct Id(pub u64);

/// A scope owning its signals and child scopes. A signal is the minimal
/// observable the coordinate core consumes: a monotonically increasing
/// revision counter, read to decide whether cached lines must be rebuilt.
pub struct Scope {
    /// The next identifier to hand out.
    pub next_id: u64,
    /// The signals owned by this scope, keyed by identifier.
    pub signals: Vec<(u64, u64)>,
    /// The child scopes owned by this scope.
    pub children: Vec<Scope>,
}

/// The value of a signal in a store: the last pair wins, as `add_signal`
/// appends.
pub open spec fn spec_signal(signals: Seq<(u64, u64)>, id: u64) -> Option<u64>
    decreases signals.len(),
{
    if signals.len() == 0 {
        None
    } else if signals.last().0 == id {
        Some(signals.last().1)
    } else {
        spec_signal(signals.drop_last(), id)
    }
}

impl Scope {
    /// A fresh scope owning nothing.
    pub fn new() -> (r: Scope)
        ensures
            r.next_id == 0,
            r.signals@.len() == 0,
            r.children@.len() == 0,
    {
        Scope { next_id: 0, signals: Vec::new(), children: Vec::new() }
    }

    /// Create the next identifier in order; identifiers handed out by one
    /// scope never repeat.
    pub fn next(&mut self) -> (r: Id)
        requires
            old(self).next_id < u64::MAX,
        ensures
            r.0 == old(self).next_id,
            final(self).next_id == old(self).next_id + 1,
            final(self).signals@ == old(self).signals@,
            final(self).children@ == old(self).children@,
    {
        let id = Id(self.next_id);
        self.next_id = self.next_id + 1;
        id
    }

    /// Bind a signal value to an identifier; a later binding for the same
    /// identifier supersedes an earlier one.
    pub fn add_signal(&mut self, id: Id, value: u64)
        ensures
            final(self).signals@ == old(self).signals@.push((id.0, value)),
            spec_signal(final(self).signals@, id.0) == Some(value),
            final(self).next_id == old(self).next_id,
            final(self).children@ == old(self).children@,
    {
        self.signals.push((id.0, value));
        proof {
            assert(self.signals@.drop_last() =~= old(self).signals@);
        }
    }

    /// Read the signal bound to an identifier, if any.
    pub fn signal(&self, id: Id) -> (r: Option<u64>)
        ensures
            r == spec_signal(self.signals@, id.0),
    {
        let mut k = self.signals.len();
        proof {
            assert(self.signals@.subrange(0, self.signals@.len() as int) =~= self.signals@);
        }
        while k > 0
            invariant
                0 <= k <= self.signals@.len(),
                spec_signal(self.signals@, id.0) == spec_signal(
                    self.signals@.subrange(0, k as int),
                    id.0,
                ),
            decreases k,
        {
            proof {
                assert(self.signals@.subrange(0, k as int).last() == self.signals@[k - 1]);
                assert(self.signals@.subrange(0, k as int).drop_last() =~= self.signals@.subrange(
                    0,
                    k - 1,
                ));
            }
            let entry = self.signals[k - 1];
            if entry.0 == id.0 {
                return Some(entry.1);
            }
            k = k - 1;
        }
        proof {
            assert(self.signals@.subrange(0, 0) =~= Seq::<(u64, u64)>::empty());
        }
        None
    }

    /// Make a child scope owned by this one, so that disposing the parent
    /// disposes the child and its descendants with it.
    pub fn set_scope(&mut self, child: Scope)
        ensures
            final(self).children@.len() == old(self).children@.len() + 1,
            final(self).signals@ == old(self).signals@,
            final(self).next_id == old(self).next_id,
    {
        self.children.push(child);
    }

    /// Explicit teardown: consuming the scope releases its signals and all
    /// child scopes, transitively, in one call — ownership replaces the
    /// global registry scan.
    pub fn dispose(self) {
    }
}

} // verus!
