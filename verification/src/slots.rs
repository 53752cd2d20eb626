//! Parsing the cluster's slot-layout reply into slot ranges.
//!
//! The reply is an array of entries, each `[start, end, master-node,
//! replica-node...]` where a node is `[host-bytes, port, ...]`. Entries that
//! do not have that shape — too few elements, slots out of range, or an
//! unreadable master node — are skipped individually; the whole reply is
//! refused only when not a single usable entry remains. Replicas are kept
//! structurally, though routing only ever targets the master.

use vstd::prelude::*;
use crate::SLOT_SIZE;
use crate::ClusterError;
use crate::addr::{AddrView, NodeAddr, copy_bytes};
use crate::value::Value;

verus! {

/// Mathematical view of a [`SlotInfo`].
pub ghost struct SlotInfoView {
    pub start: u16,
    pub end: u16,
    pub master: AddrView,
    pub replicas: Seq<AddrView>,
}

/// One contiguous range of slots and the nodes serving it: the owning
/// master and zero or more replicas. Both bounds are inclusive.
pub struct SlotInfo {
    pub start_slot: u16,
    pub end_slot: u16,
    pub master: NodeAddr,
    pub replicas: Vec<NodeAddr>,
}

impl View for SlotInfo {
    type V = SlotInfoView;

    open spec fn view(&self) -> SlotInfoView {
        SlotInfoView {
            start: self.start_slot,
            end: self.end_slot,
            master: self.master@,
            replicas: self.replicas.deep_view(),
        }
    }
}

impl DeepView for SlotInfo {
    type V = SlotInfoView;

    open spec fn deep_view(&self) -> SlotInfoView {
        self@
    }
}

/// The address a node entry describes: an array of at least a host byte
/// string and a port integer in range.
pub open spec fn node_addr_of(v: Value) -> Option<AddrView> {
    match v {
        Value::Bulk(items) => if items@.len() >= 2 {
            match (items@[0], items@[1]) {
                (Value::Data(host), Value::Int(port)) => if 0 <= port <= u16::MAX {
                    Some(AddrView { host: host@, port: port as u16 })
                } else {
                    None
                },
                _ => None,
            }
        } else {
            None
        },
        _ => None,
    }
}

/// The addresses of the readable node entries in `items[k ..]`; unreadable
/// ones are skipped.
pub open spec fn replicas_of(items: Seq<Value>, k: int) -> Seq<AddrView>
    decreases items.len() - k,
{
    if 0 <= k < items.len() {
        match node_addr_of(items[k]) {
            Some(a) => seq![a] + replicas_of(items, k + 1),
            None => replicas_of(items, k + 1),
        }
    } else {
        Seq::empty()
    }
}

/// The slot range one reply entry describes, or `None` when the entry is
/// malformed: fewer than three elements, bounds that are not slots in
/// order, or an unreadable master node.
pub open spec fn entry_info(v: Value) -> Option<SlotInfoView> {
    match v {
        Value::Bulk(items) => if items@.len() >= 3 {
            match (items@[0], items@[1]) {
                (Value::Int(start), Value::Int(end)) => if 0 <= start <= end < SLOT_SIZE {
                    match node_addr_of(items@[2]) {
                        Some(master) => Some(
                            SlotInfoView {
                                start: start as u16,
                                end: end as u16,
                                master: master,
                                replicas: replicas_of(items@, 3),
                            },
                        ),
                        None => None,
                    }
                } else {
                    None
                },
                _ => None,
            }
        } else {
            None
        },
        _ => None,
    }
}

/// The slot ranges of the usable entries of a reply, in reply order.
pub open spec fn infos_of(entries: Seq<Value>) -> Seq<SlotInfoView>
    decreases entries.len(),
{
    if entries.len() == 0 {
        Seq::empty()
    } else {
        match entry_info(entries[0]) {
            Some(iv) => seq![iv] + infos_of(entries.drop_first()),
            None => infos_of(entries.drop_first()),
        }
    }
}

/// What a slot-layout reply yields: the usable slot ranges, or `None` when
/// the reply is not an array or no entry is usable.
pub open spec fn spec_parse_slots(v: Value) -> Option<Seq<SlotInfoView>> {
    match v {
        Value::Bulk(entries) => if infos_of(entries@).len() > 0 {
            Some(infos_of(entries@))
        } else {
            None
        },
        _ => None,
    }
}

/// Reads the address out of one node entry.
fn parse_node(v: &Value) -> (r: Option<NodeAddr>)
    ensures
        (match r {
            Some(a) => node_addr_of(*v) == Some(a@),
            None => node_addr_of(*v) is None,
        }),
{
    match v {
        Value::Bulk(items) => {
            if items.len() < 2 {
                return None;
            }
            let host: Vec<u8> = match &items[0] {
                Value::Data(h) => copy_bytes(h),
                _ => {
                    return None;
                },
            };
            let port: i64 = match &items[1] {
                Value::Int(p) => *p,
                _ => {
                    return None;
                },
            };
            if port < 0 || port > u16::MAX as i64 {
                return None;
            }
            Some(NodeAddr::new(host, port as u16))
        },
        _ => None,
    }
}

/// Reads one reply entry into a slot range, or skips it as malformed.
fn parse_entry(v: &Value) -> (r: Option<SlotInfo>)
    ensures
        (match r {
            Some(info) => entry_info(*v) == Some(info@),
            None => entry_info(*v) is None,
        }),
{
    match v {
        Value::Bulk(items) => {
            if items.len() < 3 {
                return None;
            }
            let start: i64 = match &items[0] {
                Value::Int(s) => *s,
                _ => {
                    return None;
                },
            };
            let end: i64 = match &items[1] {
                Value::Int(e) => *e,
                _ => {
                    return None;
                },
            };
            if start < 0 || start > end || end >= SLOT_SIZE as i64 {
                return None;
            }
            let master: NodeAddr = match parse_node(&items[2]) {
                Some(m) => m,
                None => {
                    return None;
                },
            };
            let mut replicas: Vec<NodeAddr> = Vec::new();
            let n: usize = items.len();
            let mut k: usize = 3;
            while k < n
                invariant
                    3 <= k <= n,
                    n == items@.len(),
                    replicas_of(items@, 3) =~= replicas.deep_view() + replicas_of(
                        items@,
                        k as int,
                    ),
                decreases n - k,
            {
                let ghost prev = replicas.deep_view();
                match parse_node(&items[k]) {
                    Some(a) => {
                        let ghost av = a@;
                        replicas.push(a);
                        proof {
                            assert(replicas.deep_view() =~~= prev.push(av));
                            assert(prev + (seq![av] + replicas_of(items@, k + 1))
                                =~= replicas.deep_view() + replicas_of(items@, k + 1));
                        }
                    },
                    None => {
                    },
                }
                k = k + 1;
            }
            assert(replicas_of(items@, n as int) =~= Seq::<AddrView>::empty());
            assert(replicas.deep_view() =~= replicas_of(items@, 3));
            Some(
                SlotInfo {
                    start_slot: start as u16,
                    end_slot: end as u16,
                    master,
                    replicas,
                },
            )
        },
        _ => None,
    }
}

/// Law: one more reply entry contributes its slot range, if usable.
proof fn lemma_infos_of_push(entries: Seq<Value>, v: Value)
    ensures
        infos_of(entries.push(v)) == (match entry_info(v) {
            Some(iv) => infos_of(entries).push(iv),
            None => infos_of(entries),
        }),
    decreases entries.len(),
{
    if entries.len() == 0 {
        assert(entries.push(v).drop_first() =~= Seq::<Value>::empty());
        assert(entries.push(v)[0] == v);
        assert(infos_of(Seq::<Value>::empty()) == Seq::<SlotInfoView>::empty());
        match entry_info(v) {
            Some(iv) => {
                assert(infos_of(entries.push(v)) =~= infos_of(entries).push(iv));
            },
            None => {
                assert(infos_of(entries.push(v)) =~= infos_of(entries));
            },
        }
    } else {
        lemma_infos_of_push(entries.drop_first(), v);
        assert(entries.push(v).drop_first() =~= entries.drop_first().push(v));
        assert(entries.push(v)[0] == entries[0]);
        match entry_info(v) {
            Some(iv) => {
                match entry_info(entries[0]) {
                    Some(first) => {
                        assert(infos_of(entries.push(v)) =~= infos_of(entries).push(iv));
                    },
                    None => {
                        assert(infos_of(entries.push(v)) =~= infos_of(entries).push(iv));
                    },
                }
            },
            None => {
                assert(infos_of(entries.push(v)) =~= infos_of(entries));
            },
        }
    }
}

/// Law: every usable entry yields a range whose bounds are slots in order.
pub proof fn lemma_infos_of_wf(entries: Seq<Value>)
    ensures
        forall|k: int|
            0 <= k < infos_of(entries).len() ==> (#[trigger] infos_of(entries)[k]).start
                <= infos_of(entries)[k].end && infos_of(entries)[k].end < SLOT_SIZE,
    decreases entries.len(),
{
    if entries.len() > 0 {
        lemma_infos_of_wf(entries.drop_first());
        match entry_info(entries[0]) {
            Some(iv) => {
                assert(iv.start <= iv.end && iv.end < SLOT_SIZE);
                assert(infos_of(entries) == seq![iv] + infos_of(entries.drop_first()));
                assert forall|k: int| 0 <= k < infos_of(entries).len() implies (
                #[trigger] infos_of(entries)[k]).start <= infos_of(entries)[k].end && infos_of(
                    entries,
                )[k].end < SLOT_SIZE by {
                    if k == 0 {
                        assert(infos_of(entries)[0] == iv);
                    } else {
                        assert(infos_of(entries)[k] == infos_of(entries.drop_first())[k - 1]);
                    }
                }
            },
            None => {
                assert(infos_of(entries) == infos_of(entries.drop_first()));
            },
        }
    } else {
        assert(infos_of(entries).len() == 0);
    }
}

/// Parses a slot-layout reply into its usable slot ranges. Malformed
/// entries are skipped one by one; the reply as a whole is refused with
/// `ClusterError::MalformedTopologyResponse` only when nothing usable is
/// left, and a reply that is not an array is refused the same way.
pub fn parse_slots(v: &Value) -> (r: Result<Vec<SlotInfo>, ClusterError>)
    ensures
        (match r {
            Ok(infos) => spec_parse_slots(*v) == Some(infos.deep_view()) && infos@.len() > 0,
            Err(e) => spec_parse_slots(*v) is None && e
                == ClusterError::MalformedTopologyResponse,
        }),
{
    match v {
        Value::Bulk(entries) => {
            let mut out: Vec<SlotInfo> = Vec::new();
            let n: usize = entries.len();
            let mut i: usize = 0;
            proof {
                assert(entries@.subrange(0, 0) =~= Seq::<Value>::empty());
                assert(out.deep_view() =~= infos_of(entries@.subrange(0, 0)));
            }
            while i < n
                invariant
                    0 <= i <= n,
                    n == entries@.len(),
                    out.deep_view() =~= infos_of(entries@.subrange(0, i as int)),
                decreases n - i,
            {
                let ghost prev = out.deep_view();
                match parse_entry(&entries[i]) {
                    Some(info) => {
                        let ghost iv = info@;
                        out.push(info);
                        proof {
                            assert(out.deep_view() =~~= prev.push(iv));
                        }
                    },
                    None => {
                    },
                }
                proof {
                    lemma_infos_of_push(entries@.subrange(0, i as int), entries@[i as int]);
                    assert(entries@.subrange(0, i as int).push(entries@[i as int])
                        =~= entries@.subrange(0, i + 1));
                }
                i = i + 1;
            }
            assert(entries@.subrange(0, n as int) =~= entries@);
            if out.len() == 0 {
                assert(infos_of(entries@).len() == 0);
                Err(ClusterError::MalformedTopologyResponse)
            } else {
                Ok(out)
            }
        },
        _ => Err(ClusterError::MalformedTopologyResponse),
    }
}

impl SlotInfo {
    /// The slot-to-master pairs this range registers: one pair per slot
    /// from the start bound through the end bound, both inclusive.
    pub fn nodes(&self) -> (r: Vec<(u16, NodeAddr)>)
        ensures
            self.start_slot <= self.end_slot ==> r@.len() == self.end_slot - self.start_slot
                + 1,
            self.start_slot > self.end_slot ==> r@.len() == 0,
            forall|k: int|
                0 <= k < r@.len() ==> (#[trigger] r@[k]).0 == self.start_slot + k && r@[k].1@
                    == self.master@,
    {
        let mut out: Vec<(u16, NodeAddr)> = Vec::new();
        if self.start_slot > self.end_slot {
            return out;
        }
        let start: usize = self.start_slot as usize;
        let end: usize = self.end_slot as usize;
        let mut s: usize = start;
        while s <= end
            invariant
                start <= s <= end + 1,
                end <= u16::MAX,
                start == self.start_slot,
                end == self.end_slot,
                out@.len() == s - start,
                forall|k: int|
                    0 <= k < out@.len() ==> (#[trigger] out@[k]).0 == start + k && out@[k].1@
                        == self.master@,
            decreases end + 1 - s,
        {
            out.push((s as u16, self.master.duplicate()));
            s = s + 1;
        }
        out
    }
}

} // verus!
