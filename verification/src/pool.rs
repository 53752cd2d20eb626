//! The connection pool directory: live transport handles keyed by node
//! address.
//!
//! The handle type is opaque to the routing engine; the pool tracks which
//! addresses hold one. Addresses are unique: one handle per node. Only
//! insertion, removal and reconciliation mutate the pool; reconciliation
//! after a topology refresh drops every handle whose address no longer owns
//! a slot, so stale nodes cannot keep serving requests.

use vstd::prelude::*;
use crate::addr::{AddrView, NodeAddr, addr_eq};
use crate::topology::TopologyTable;

verus! {

/// Relies on `rand::random_range`: a value drawn from `[0, n)`; it panics
/// only on an empty range, which the precondition rules out.
#[verifier::external_body]
fn random_below(n: usize) -> (r: usize)
    requires
        n > 0,
    ensures
        r < n,
{
    rand::random_range(0..n)
}

/// The addresses of a sequence of pool entries, in order.
pub open spec fn pair_addrs<C>(s: Seq<(NodeAddr, C)>) -> Seq<AddrView> {
    Seq::new(s.len(), |i: int| s[i].0@)
}

/// A pool of transport handles, one per node address.
pub struct Pool<C> {
    entries: Vec<(NodeAddr, C)>,
}

impl<C> Pool<C> {
    /// The pooled addresses, in insertion order.
    pub closed spec fn addrs(&self) -> Seq<AddrView> {
        pair_addrs(self.entries@)
    }

    /// The pooled entries as address-handle pairs, in insertion order:
    /// which handle belongs to which address.
    pub closed spec fn pair_view(&self) -> Seq<(AddrView, C)> {
        Seq::new(self.entries@.len(), |i: int| (self.entries@[i].0@, self.entries@[i].1))
    }

    /// Pooled addresses are unique: at most one handle per node.
    pub open spec fn wf(&self) -> bool {
        forall|i: int, j: int|
            0 <= i < j < self.addrs().len() ==> self.addrs()[i] != self.addrs()[j]
    }

    /// Whether the pool holds a handle for `a`.
    pub open spec fn has(&self, a: AddrView) -> bool {
        self.addrs().contains(a)
    }

    /// An empty pool.
    pub fn new() -> (r: Pool<C>)
        ensures
            r.wf(),
            r.addrs() == Seq::<AddrView>::empty(),
    {
        let r = Pool { entries: Vec::new() };
        proof {
            assert(r.addrs() =~= Seq::<AddrView>::empty());
        }
        r
    }

    /// The number of pooled handles.
    pub fn len(&self) -> (r: usize)
        ensures
            r == self.addrs().len(),
    {
        self.entries.len()
    }

    /// The address of the pool entry at `i`.
    pub fn addr_at(&self, i: usize) -> (r: &NodeAddr)
        requires
            i < self.addrs().len(),
        ensures
            r@ == self.addrs()[i as int],
    {
        &self.entries[i].0
    }

    /// Finds the index of the entry for `a`.
    fn index_of(&self, a: &NodeAddr) -> (r: Option<usize>)
        ensures
            (match r {
                Some(i) => i < self.addrs().len() && self.addrs()[i as int] == a@,
                None => !self.has(a@),
            }),
    {
        let n: usize = self.entries.len();
        let mut i: usize = 0;
        while i < n
            invariant
                0 <= i <= n,
                n == self.addrs().len(),
                n == self.entries@.len(),
                forall|k: int| 0 <= k < i ==> self.addrs()[k] != a@,
            decreases n - i,
        {
            assert(self.addrs()[i as int] == self.entries@[i as int].0@);
            if addr_eq(&self.entries[i].0, a) {
                return Some(i);
            }
            i = i + 1;
        }
        assert(!self.has(a@));
        None
    }

    /// Whether the pool holds a handle for `a`.
    pub fn has_addr(&self, a: &NodeAddr) -> (r: bool)
        ensures
            r == self.has(a@),
    {
        match self.index_of(a) {
            Some(i) => {
                assert(self.addrs().contains(a@)) by {
                    assert(self.addrs()[i as int] == a@);
                }
                true
            },
            None => false,
        }
    }

    /// Pools a handle for a new address.
    pub fn insert(&mut self, a: NodeAddr, c: C)
        requires
            old(self).wf(),
            !old(self).has(a@),
        ensures
            final(self).wf(),
            final(self).addrs() == old(self).addrs().push(a@),
            final(self).pair_view() == old(self).pair_view().push((a@, c)),
    {
        let ghost av = a@;
        let ghost cv = c;
        self.entries.push((a, c));
        proof {
            assert(final(self).addrs() =~= old(self).addrs().push(av));
            assert(final(self).pair_view() =~= old(self).pair_view().push((av, cv)));
            assert forall|i: int, j: int|
                0 <= i < j < self.addrs().len() implies self.addrs()[i] != self.addrs()[j] by {
                if j == self.addrs().len() - 1 {
                    assert(!old(self).addrs().contains(av));
                    assert(old(self).addrs()[i] == self.addrs()[i]);
                }
            }
        }
    }

    /// Takes the handle for `a` out of the pool, if one is pooled.
    pub fn remove(&mut self, a: &NodeAddr) -> (r: Option<C>)
        requires
            old(self).wf(),
        ensures
            final(self).wf(),
            r is Some <==> old(self).has(a@),
            !final(self).has(a@),
            forall|b: AddrView| b != a@ ==> final(self).has(b) == old(self).has(b),
            final(self).addrs().len() == old(self).addrs().len() - (if old(self).has(a@) {
                1int
            } else {
                0int
            }),
            (r matches Some(c) ==> exists|i: int|
                0 <= i < old(self).pair_view().len() && old(self).pair_view()[i] == (a@, c)),
    {
        match self.index_of(a) {
            Some(i) => {
                let ghost orig = self.addrs();
                assert(orig.contains(a@)) by {
                    assert(orig[i as int] == a@);
                }
                assert(old(self).pair_view()[i as int] == (a@, self.entries@[i as int].1));
                let e = self.entries.remove(i);
                proof {
                    assert(final(self).addrs() =~= orig.remove(i as int));
                    assert forall|k: int|
                        0 <= k < self.addrs().len() implies self.addrs()[k] == (if k < i {
                        orig[k]
                    } else {
                        orig[k + 1]
                    }) by {}
                    assert(!self.has(a@)) by {
                        assert forall|k: int| 0 <= k < self.addrs().len() implies self.addrs()[k]
                            != a@ by {
                            if k < i {
                                assert(orig[k] != orig[i as int]);
                            } else {
                                assert(orig[k + 1] != orig[i as int]);
                            }
                        }
                    }
                    assert forall|b: AddrView| b != a@ implies final(self).has(b) == old(
                        self,
                    ).has(b) by {
                        if old(self).has(b) {
                            let k = choose|k: int| 0 <= k < orig.len() && orig[k] == b;
                            if k < i {
                                assert(self.addrs()[k] == b);
                            } else {
                                assert(k != i);
                                assert(self.addrs()[k - 1] == b);
                            }
                            assert(final(self).has(b));
                        } else {
                            if final(self).has(b) {
                                let k = choose|k: int|
                                    0 <= k < self.addrs().len() && self.addrs()[k] == b;
                                assert(old(self).has(b)) by {
                                    if k < i {
                                        assert(orig[k] == b);
                                    } else {
                                        assert(orig[k + 1] == b);
                                    }
                                }
                            }
                        }
                    }
                }
                Some(e.1)
            },
            None => {
                assert(final(self).addrs() =~= old(self).addrs());
                None
            },
        }
    }

    /// An arbitrarily chosen pooled address, or `None` when the pool is
    /// empty — callers read an empty pool as "cluster unreachable", never a
    /// crash.
    pub fn random_addr(&self) -> (r: Option<&NodeAddr>)
        ensures
            (match r {
                Some(a) => self.has(a@),
                None => self.addrs().len() == 0,
            }),
    {
        let n: usize = self.entries.len();
        if n == 0 {
            return None;
        }
        let i: usize = random_below(n);
        assert(self.addrs()[i as int] == self.entries@[i as int].0@);
        assert(self.has(self.entries@[i as int].0@)) by {
            assert(self.addrs().contains(self.entries@[i as int].0@)) by {
                assert(self.addrs()[i as int] == self.entries@[i as int].0@);
            }
        }
        Some(&self.entries[i].0)
    }

    /// Law and operation of pool reconciliation: after a refresh, keep
    /// exactly the handles whose address still owns a slot of the new
    /// table; every other handle — a node dropped from the layout — is
    /// removed.
    pub fn retain_topology(&mut self, t: &TopologyTable)
        requires
            old(self).wf(),
        ensures
            final(self).wf(),
            forall|b: AddrView|
                final(self).has(b) <==> (old(self).has(b) && t.spec_has_addr(b)),
            forall|k: int|
                0 <= k < final(self).pair_view().len() ==> old(self).pair_view().contains(
                    #[trigger] final(self).pair_view()[k],
                ),
            forall|b: AddrView|
                #[trigger] final(self).has(b) ==> exists|c: C|
                    old(self).pair_view().contains((b, c)) && final(self).pair_view().contains(
                        (b, c),
                    ),
    {
        let ghost orig = self.entries@;
        let mut kept: Vec<(NodeAddr, C)> = Vec::new();
        proof {
            assert(self.entries@ =~= orig.subrange(0, self.entries@.len() as int));
            assert(pair_addrs(orig) == old(self).addrs());
        }
        while self.entries.len() > 0
            invariant
                self.entries@.len() <= orig.len(),
                self.entries@ =~= orig.subrange(0, self.entries@.len() as int),
                forall|i: int, j: int|
                    0 <= i < j < orig.len() ==> pair_addrs(orig)[i] != pair_addrs(orig)[j],
                forall|b: AddrView|
                    pair_addrs(kept@).contains(b) <==> (exists|j: int|
                        self.entries@.len() <= j < orig.len() && pair_addrs(orig)[j] == b
                            && t.spec_has_addr(b)),
                forall|k1: int, k2: int|
                    0 <= k1 < k2 < kept@.len() ==> pair_addrs(kept@)[k1] != pair_addrs(
                        kept@,
                    )[k2],
                forall|k: int| 0 <= k < kept@.len() ==> orig.contains(#[trigger] kept@[k]),
            decreases self.entries@.len(),
        {
            let ghost keptv = kept@;
            let e = self.entries.pop().unwrap();
            let ghost jnew = self.entries@.len() as int;
            proof {
                assert(e == orig[jnew]);
                assert(self.entries@ =~= orig.subrange(0, jnew));
            }
            let keep = t.contains_addr(&e.0);
            if keep {
                proof {
                    // the popped address is not yet kept: it is distinct from
                    // every later address of the original list
                    if pair_addrs(keptv).contains(e.0@) {
                        let j = choose|j: int|
                            jnew + 1 <= j < orig.len() && pair_addrs(orig)[j] == e.0@
                                && t.spec_has_addr(e.0@);
                        assert(pair_addrs(orig)[jnew] == e.0@);
                        assert(false);
                    }
                }
                kept.push(e);
                proof {
                    assert(orig.contains(kept@[keptv.len() as int])) by {
                        assert(orig[jnew] == kept@[keptv.len() as int]);
                    }
                    assert(pair_addrs(kept@) =~= pair_addrs(keptv).push(e.0@));
                    assert forall|b: AddrView| pair_addrs(kept@).contains(b) implies (exists|
                        j: int,
                    |
                        jnew <= j < orig.len() && pair_addrs(orig)[j] == b && t.spec_has_addr(
                            b,
                        )) by {
                        let k = choose|k: int|
                            0 <= k < pair_addrs(kept@).len() && pair_addrs(kept@)[k] == b;
                        if k < keptv.len() {
                            assert(pair_addrs(keptv)[k] == b);
                            assert(pair_addrs(keptv).contains(b));
                        } else {
                            assert(b == e.0@);
                            assert(pair_addrs(orig)[jnew] == b);
                        }
                    }
                    assert forall|b: AddrView|
                        (exists|j: int|
                            jnew <= j < orig.len() && pair_addrs(orig)[j] == b
                                && t.spec_has_addr(b)) implies pair_addrs(kept@).contains(
                        b,
                    ) by {
                        let j = choose|j: int|
                            jnew <= j < orig.len() && pair_addrs(orig)[j] == b
                                && t.spec_has_addr(b);
                        if j == jnew {
                            assert(pair_addrs(kept@)[keptv.len() as int] == e.0@);
                        } else {
                            assert(pair_addrs(keptv).contains(b));
                            let k = choose|k: int|
                                0 <= k < keptv.len() && pair_addrs(keptv)[k] == b;
                            assert(pair_addrs(kept@)[k] == b);
                        }
                    }
                }
            } else {
                proof {
                    assert forall|b: AddrView| pair_addrs(kept@).contains(b) implies (exists|
                        j: int,
                    |
                        jnew <= j < orig.len() && pair_addrs(orig)[j] == b && t.spec_has_addr(
                            b,
                        )) by {}
                    assert forall|b: AddrView|
                        (exists|j: int|
                            jnew <= j < orig.len() && pair_addrs(orig)[j] == b
                                && t.spec_has_addr(b)) implies pair_addrs(kept@).contains(
                        b,
                    ) by {
                        let j = choose|j: int|
                            jnew <= j < orig.len() && pair_addrs(orig)[j] == b
                                && t.spec_has_addr(b);
                        if j == jnew {
                            assert(!t.spec_has_addr(e.0@));
                            assert(false);
                        }
                    }
                }
            }
        }
        self.entries = kept;
        proof {
            assert forall|b: AddrView|
                self.has(b) <==> (pair_addrs(orig).contains(b) && t.spec_has_addr(b)) by {
                if pair_addrs(orig).contains(b) && t.spec_has_addr(b) {
                    let k = choose|k: int|
                        0 <= k < pair_addrs(orig).len() && pair_addrs(orig)[k] == b;
                    assert(exists|j: int|
                        0 <= j < orig.len() && pair_addrs(orig)[j] == b && t.spec_has_addr(b));
                }
                if self.has(b) {
                    let j = choose|j: int|
                        0 <= j < orig.len() && pair_addrs(orig)[j] == b && t.spec_has_addr(b);
                    assert(pair_addrs(orig).contains(b));
                }
            }
            assert forall|k: int|
                0 <= k < self.pair_view().len() implies old(self).pair_view().contains(
                #[trigger] self.pair_view()[k],
            ) by {
                let i = choose|i: int| 0 <= i < orig.len() && orig[i] == self.entries@[k];
                assert(old(self).pair_view()[i] == self.pair_view()[k]);
            }
            assert forall|b: AddrView| #[trigger] self.has(b) implies exists|c: C|
                old(self).pair_view().contains((b, c)) && self.pair_view().contains(
                (b, c),
            ) by {
                let k = choose|k: int| 0 <= k < self.addrs().len() && self.addrs()[k] == b;
                let c = self.entries@[k].1;
                assert(self.pair_view()[k] == (b, c));
                assert(self.pair_view().contains((b, c)));
                assert(old(self).pair_view().contains((b, c)));
            }
        }
    }
}

} // verus!
