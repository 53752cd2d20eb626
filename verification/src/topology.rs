//! The slot-to-node topology table.
//!
//! One entry per slot, holding the owning master's address or nothing when
//! the owner is unknown. A refresh replaces the whole table atomically:
//! installing a parsed slot layout never leaves a half-updated mapping, and
//! a failed refresh leaves the previous table untouched.

use vstd::prelude::*;
use crate::SLOT_SIZE;
use crate::addr::{AddrView, NodeAddr, addr_eq};
use crate::slots::{SlotInfo, SlotInfoView};

verus! {

/// Whether the range `iv` covers slot `s`; both bounds are inclusive.
pub open spec fn covers(iv: SlotInfoView, s: int) -> bool {
    iv.start <= s <= iv.end
}

/// The owner of slot `s` after the ranges of `infos` are registered in
/// order: the master of the last range covering `s`, if any does.
pub open spec fn owner_of(infos: Seq<SlotInfoView>, s: int) -> Option<AddrView>
    decreases infos.len(),
{
    if infos.len() == 0 {
        None
    } else if covers(infos.last(), s) {
        Some(infos.last().master)
    } else {
        owner_of(infos.drop_last(), s)
    }
}

/// The table mapping each slot to its owning node, when known. Its view is
/// the sequence of owners, one entry per slot.
pub struct TopologyTable {
    slots: Vec<Option<NodeAddr>>,
}

impl View for TopologyTable {
    type V = Seq<Option<AddrView>>;

    closed spec fn view(&self) -> Seq<Option<AddrView>> {
        Seq::new(
            self.slots@.len(),
            |i: int|
                match self.slots@[i] {
                    Some(a) => Some(a@),
                    None => None,
                },
        )
    }
}

impl TopologyTable {
    /// A table holds one entry per slot.
    pub open spec fn wf(&self) -> bool {
        self@.len() == SLOT_SIZE
    }

    /// Whether `a` owns any slot of the table.
    pub open spec fn spec_has_addr(&self, a: AddrView) -> bool {
        exists|s: int| 0 <= s < self@.len() && self@[s] == Some(a)
    }

    /// An empty table: every slot's owner is unknown.
    pub fn new() -> (r: TopologyTable)
        ensures
            r.wf(),
            forall|s: int| 0 <= s < SLOT_SIZE ==> r@[s] is None,
    {
        let mut slots: Vec<Option<NodeAddr>> = Vec::new();
        let n: usize = SLOT_SIZE as usize;
        let mut i: usize = 0;
        while i < n
            invariant
                0 <= i <= n,
                n == SLOT_SIZE,
                slots@.len() == i,
                forall|s: int| 0 <= s < i ==> slots@[s] is None,
            decreases n - i,
        {
            slots.push(None);
            i = i + 1;
        }
        let r = TopologyTable { slots };
        assert(forall|s: int| 0 <= s < SLOT_SIZE ==> r@[s] is None);
        r
    }

    /// The registered owner of `slot`, or `None` when it is unknown.
    pub fn lookup(&self, slot: u16) -> (r: Option<&NodeAddr>)
        requires
            self.wf(),
            slot < SLOT_SIZE,
        ensures
            (match r {
                Some(a) => self@[slot as int] == Some(a@),
                None => self@[slot as int] is None,
            }),
    {
        self.slots[slot as usize].as_ref()
    }

    /// Whether `a` owns any slot of the table.
    pub fn contains_addr(&self, a: &NodeAddr) -> (r: bool)
        ensures
            r == self.spec_has_addr(a@),
    {
        let n: usize = self.slots.len();
        let mut s: usize = 0;
        while s < n
            invariant
                0 <= s <= n,
                n == self@.len(),
                forall|t: int| 0 <= t < s ==> self@[t] != Some(a@),
            decreases n - s,
        {
            match &self.slots[s] {
                Some(owner) => {
                    if addr_eq(owner, a) {
                        assert(self@[s as int] == Some(a@));
                        return true;
                    }
                },
                None => {
                },
            }
            s = s + 1;
        }
        false
    }

    /// Registers the ranges of `infos` in order, replacing the whole table:
    /// every slot's owner becomes the master of the last range covering it,
    /// or unknown when none does.
    pub fn install(&mut self, infos: &Vec<SlotInfo>)
        requires
            forall|k: int|
                0 <= k < infos.deep_view().len() ==> (#[trigger] infos.deep_view()[k]).end
                    < SLOT_SIZE,
        ensures
            final(self).wf(),
            forall|s: int|
                0 <= s < SLOT_SIZE ==> final(self)@[s] == owner_of(infos.deep_view(), s),
    {
        let mut fresh = TopologyTable::new();
        proof {
            assert(infos.deep_view().subrange(0, 0) =~= Seq::<SlotInfoView>::empty());
        }
        let n: usize = infos.len();
        let mut i: usize = 0;
        while i < n
            invariant
                0 <= i <= n,
                n == infos@.len(),
                infos.deep_view().len() == n,
                forall|k: int|
                    0 <= k < n ==> (#[trigger] infos.deep_view()[k]).end < SLOT_SIZE,
                fresh.wf(),
                forall|s: int|
                    0 <= s < SLOT_SIZE ==> fresh@[s] == owner_of(
                        infos.deep_view().subrange(0, i as int),
                        s,
                    ),
            decreases n - i,
        {
            let ghost prefix = infos.deep_view().subrange(0, i as int);
            let ghost prev = fresh@;
            let info = &infos[i];
            let ghost iv = info@;
            proof {
                assert(infos.deep_view()[i as int] == iv);
            }
            if info.start_slot <= info.end_slot {
                let start: usize = info.start_slot as usize;
                let end: usize = info.end_slot as usize;
                assert(end < SLOT_SIZE);
                let mut s: usize = start;
                while s <= end
                    invariant
                        start <= s <= end + 1,
                        start == iv.start,
                        end == iv.end,
                        end < SLOT_SIZE,
                        iv.master == info.master@,
                        fresh.wf(),
                        prev.len() == SLOT_SIZE,
                        forall|t: int|
                            0 <= t < SLOT_SIZE ==> fresh@[t] == (if start <= t < s {
                                Some(iv.master)
                            } else {
                                prev[t]
                            }),
                    decreases end + 1 - s,
                {
                    fresh.set_slot(s, info.master.duplicate());
                    s = s + 1;
                }
            }
            proof {
                assert(infos.deep_view().subrange(0, i + 1) =~= prefix.push(iv));
                assert(prefix.push(iv).drop_last() =~= prefix);
                assert(prefix.push(iv).last() == iv);
                if iv.start > iv.end {
                    assert forall|t: int| 0 <= t < SLOT_SIZE implies fresh@[t] == owner_of(
                        prefix.push(iv),
                        t,
                    ) by {
                        assert(!covers(iv, t));
                    }
                }
            }
            i = i + 1;
        }
        proof {
            assert(infos.deep_view().subrange(0, n as int) =~= infos.deep_view());
        }
        *self = fresh;
    }

    /// Sets the owner of one slot.
    fn set_slot(&mut self, s: usize, a: NodeAddr)
        requires
            old(self).wf(),
            s < SLOT_SIZE,
        ensures
            final(self).wf(),
            final(self)@ =~= old(self)@.update(s as int, Some(a@)),
    {
        self.slots.set(s, Some(a));
    }

    /// The distinct addresses registered anywhere in the table.
    pub fn addr_list(&self) -> (r: Vec<NodeAddr>)
        ensures
            forall|k: int| 0 <= k < r@.len() ==> self.spec_has_addr((#[trigger] r@[k])@),
            forall|a: AddrView| self.spec_has_addr(a) ==> r.deep_view().contains(a),
            forall|k1: int, k2: int| 0 <= k1 < k2 < r@.len() ==> r@[k1]@ != r@[k2]@,
    {
        let mut out: Vec<NodeAddr> = Vec::new();
        let n: usize = self.slots.len();
        let mut s: usize = 0;
        while s < n
            invariant
                0 <= s <= n,
                n == self@.len(),
                forall|k: int| 0 <= k < out@.len() ==> self.spec_has_addr((#[trigger] out@[k])@),
                forall|t: int|
                    0 <= t < s && self@[t] is Some ==> out.deep_view().contains(
                        self@[t]->Some_0,
                    ),
                forall|k1: int, k2: int| 0 <= k1 < k2 < out@.len() ==> out@[k1]@ != out@[k2]@,
            decreases n - s,
        {
            match &self.slots[s] {
                Some(owner) => {
                    assert(self@[s as int] == Some(owner@));
                    if !vec_has_addr(&out, owner) {
                        let ghost prev = out.deep_view();
                        let ghost prev_vec = out@;
                        out.push(owner.duplicate());
                        proof {
                            assert(out.deep_view() =~~= prev.push(owner@));
                            assert(out.deep_view().contains(owner@)) by {
                                assert(out.deep_view()[prev.len() as int] == owner@);
                            }
                            assert forall|a: AddrView| prev.contains(a) implies out
                                .deep_view().contains(a) by {
                                let k = choose|k: int|
                                    0 <= k < prev.len() && prev[k] == a;
                                assert(out.deep_view()[k] == a);
                            }
                            assert forall|k1: int, k2: int|
                                0 <= k1 < k2 < out@.len() implies out@[k1]@ != out@[k2]@ by {
                                if k2 == out@.len() - 1 {
                                    assert(out.deep_view()[k1] == out@[k1]@);
                                    assert(prev[k1] == out.deep_view()[k1]);
                                    assert(!prev.contains(out@[k2]@));
                                } else {
                                    assert(out@[k1] == prev_vec[k1]);
                                    assert(out@[k2] == prev_vec[k2]);
                                }
                            }
                        }
                    }
                },
                None => {
                },
            }
            s = s + 1;
        }
        proof {
            assert forall|a: AddrView| self.spec_has_addr(a) implies out.deep_view().contains(
                a,
            ) by {
                let t = choose|t: int| 0 <= t < self@.len() && self@[t] == Some(a);
                assert(self@[t] is Some && self@[t]->Some_0 == a);
            }
        }
        out
    }
}

/// Whether some element of `v` holds the address `a`.
pub fn vec_has_addr(v: &Vec<NodeAddr>, a: &NodeAddr) -> (r: bool)
    ensures
        r == v.deep_view().contains(a@),
{
    let n: usize = v.len();
    let mut k: usize = 0;
    while k < n
        invariant
            0 <= k <= n,
            n == v@.len(),
            v.deep_view().len() == n,
            forall|m: int| 0 <= m < k ==> v.deep_view()[m] != a@,
        decreases n - k,
    {
        assert(v.deep_view()[k as int] == v@[k as int]@);
        if addr_eq(&v[k], a) {
            assert(v.deep_view().contains(a@)) by {
                assert(v.deep_view()[k as int] == a@);
            }
            return true;
        }
        k = k + 1;
    }
    assert(!v.deep_view().contains(a@));
    false
}

/// Law: if exactly one range of `infos` covers slot `s`, the registered
/// owner of `s` is that range's master.
pub proof fn lemma_owner_of_unique_cover(infos: Seq<SlotInfoView>, s: int, i: int)
    requires
        0 <= i < infos.len(),
        covers(infos[i], s),
        forall|j: int| 0 <= j < infos.len() && j != i ==> !covers(#[trigger] infos[j], s),
    ensures
        owner_of(infos, s) == Some(infos[i].master),
    decreases infos.len(),
{
    if i == infos.len() - 1 {
        assert(covers(infos.last(), s));
    } else {
        assert(!covers(infos.last(), s));
        assert(infos.drop_last()[i] == infos[i]);
        lemma_owner_of_unique_cover(infos.drop_last(), s, i);
    }
}

/// Law: after a refresh whose ranges cover the whole slot space with
/// pairwise disjoint ranges, every slot has exactly one registered owner —
/// the master of the one range covering it.
pub proof fn lemma_full_coverage(infos: Seq<SlotInfoView>, s: int)
    requires
        0 <= s < SLOT_SIZE,
        exists|i: int| 0 <= i < infos.len() && covers(#[trigger] infos[i], s),
        forall|i: int, j: int|
            0 <= i < j < infos.len() ==> !(covers(#[trigger] infos[i], s) && covers(
                #[trigger] infos[j],
                s,
            )),
    ensures
        exists|i: int|
            0 <= i < infos.len() && covers(#[trigger] infos[i], s) && owner_of(infos, s)
                == Some(infos[i].master),
{
    let i = choose|i: int| 0 <= i < infos.len() && covers(#[trigger] infos[i], s);
    assert forall|j: int| 0 <= j < infos.len() && j != i implies !covers(
        #[trigger] infos[j],
        s,
    ) by {
        if j < i {
            assert(!(covers(infos[j], s) && covers(infos[i], s)));
        } else {
            assert(!(covers(infos[i], s) && covers(infos[j], s)));
        }
    }
    lemma_owner_of_unique_cover(infos, s, i);
}

} // verus!
