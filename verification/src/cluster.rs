//! The cluster facade state: startup addresses, topology table, and
//! connection pool directory.
//!
//! The facade owns the table and the pool for its whole lifetime and keeps
//! the startup addresses so a duplicate can re-derive fresh state instead
//! of sharing mutable state with the original. Only a topology install and
//! pool reconciliation mutate the table and the pool; everything else
//! reads.

use vstd::prelude::*;
use crate::SLOT_SIZE;
use crate::ClusterError;
use crate::addr::{AddrView, NodeAddr};
use crate::pool::Pool;
use crate::slots::{parse_slots, spec_parse_slots, lemma_infos_of_wf};
use crate::topology::{owner_of, TopologyTable};
use crate::value::Value;

verus! {

/// The state a cluster client holds: the addresses it was constructed
/// from, the slot-to-node table, and the pooled transport handles.
pub struct Cluster<C> {
    /// The construction-time addresses, kept so the client can be
    /// duplicated by re-deriving topology from scratch.
    pub startup_nodes: Vec<NodeAddr>,
    /// The slot-to-node topology table.
    pub slots: TopologyTable,
    /// The pooled transport handles, keyed by address.
    pub conns: Pool<C>,
}

impl<C> Cluster<C> {
    /// The table has one entry per slot and the pool one handle per
    /// address.
    pub open spec fn wf(&self) -> bool {
        self.slots.wf() && self.conns.wf()
    }

    /// Builds the client state from its startup addresses. An empty list
    /// is refused outright with `ClusterError::RoutingUnavailable`: there
    /// is no node to derive a topology from, and nothing is attempted. The
    /// fresh state has an empty table and pool; the caller performs the
    /// initial refresh against the startup addresses.
    pub fn new(startup_nodes: Vec<NodeAddr>) -> (r: Result<Cluster<C>, ClusterError>)
        ensures
            r is Err <==> startup_nodes@.len() == 0,
            (match r {
                Ok(c) => c.wf() && c.startup_nodes == startup_nodes && (forall|s: int|
                    0 <= s < SLOT_SIZE ==> c.slots@[s] is None) && c.conns.addrs()
                    == Seq::<AddrView>::empty(),
                Err(e) => e == ClusterError::RoutingUnavailable,
            }),
    {
        if startup_nodes.len() == 0 {
            return Err(ClusterError::RoutingUnavailable);
        }
        Ok(Cluster { startup_nodes, slots: TopologyTable::new(), conns: Pool::new() })
    }

    /// Installs a slot-layout reply as the new topology, replacing the
    /// whole table atomically. When the reply yields nothing usable the
    /// install fails and the table keeps its previous value — it is never
    /// partially cleared. The pool is untouched either way; the caller
    /// reconciles it after a successful install.
    pub fn install_topology(&mut self, v: &Value) -> (r: Result<(), ClusterError>)
        requires
            old(self).wf(),
        ensures
            final(self).wf(),
            final(self).startup_nodes == old(self).startup_nodes,
            final(self).conns == old(self).conns,
            (match r {
                Ok(_) => spec_parse_slots(*v) matches Some(ivs) && (forall|s: int|
                    0 <= s < SLOT_SIZE ==> final(self).slots@[s] == owner_of(ivs, s)),
                Err(e) => final(self).slots == old(self).slots && spec_parse_slots(*v) is None
                    && e == ClusterError::MalformedTopologyResponse,
            }),
    {
        match parse_slots(v) {
            Ok(infos) => {
                proof {
                    match v {
                        Value::Bulk(entries) => {
                            lemma_infos_of_wf(entries@);
                        },
                        _ => {
                        },
                    }
                }
                self.slots.install(&infos);
                Ok(())
            },
            Err(e) => Err(e),
        }
    }
}

} // verus!
