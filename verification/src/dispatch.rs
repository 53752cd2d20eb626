//! The per-request dispatch state machine.
//!
//! One logical request loops through route, send, and record steps under a
//! fixed attempt budget. The caller performs the sends and hands the
//! classified outcome back; this machine decides what happens next. A
//! redirection signal (`MOVED` or `ASK`) asks for a topology refresh before
//! the next attempt; any other failure asks for a retry against a random
//! node; the budget reached means giving up with a reported error, never a
//! silent wrong result. Both redirection kinds trigger the
//! refresh-then-reroute baseline here; targeting the node an `ASK` names
//! directly for one attempt would be a stricter refinement, deliberately
//! not taken.

use vstd::prelude::*;
use crate::TTL;
use crate::SLOT_SIZE;
use crate::ClusterError;
use crate::addr::NodeAddr;
use crate::cmd::{slot_for_packed_command, slot_for_packed_pipeline, spec_slot_for_command};
use crate::pool::Pool;
use crate::resp::{unpack_first_spec, unpack_spec};
use crate::topology::TopologyTable;

verus! {

/// Where the next attempt is sent: the slot's registered owner, or any
/// reachable node when none is known or a fallback was asked for.
pub enum Route {
    /// Send to this address; fall back to a random node if it is
    /// unreachable.
    Target(NodeAddr),
    /// Send to an arbitrary reachable node.
    Random,
}

/// One send attempt's result, classified by the caller from the transport's
/// reply: success, one of the two redirection signals with the node they
/// name, or any other failure.
pub enum Outcome {
    /// The reply is a result for the caller.
    Success,
    /// The slot's ownership moved permanently to the named node.
    Moved(NodeAddr),
    /// The key is mid-migration at the named node, for this request only.
    Ask(NodeAddr),
    /// A timeout, connection reset, or other non-redirection failure.
    TransientError,
}

/// What the machine decides after an outcome is recorded.
#[derive(Clone, Copy, Debug, PartialEq, Eq, Structural)]
pub enum Verdict {
    /// The reply is the caller's result; the request is over.
    Done,
    /// Refresh the topology, then route again.
    Refresh,
    /// Route again; the next attempt goes to a random node.
    Retry,
    /// The attempt budget is spent: fail with
    /// `ClusterError::RedirectionExhausted`.
    Exhausted,
}

/// The verdict after an outcome, given how many attempts were already
/// recorded before it.
pub open spec fn spec_verdict(o: Outcome, attempts_before: int) -> Verdict {
    match o {
        Outcome::Success => Verdict::Done,
        Outcome::Moved(_) | Outcome::Ask(_) => if attempts_before + 1 >= TTL {
            Verdict::Exhausted
        } else {
            Verdict::Refresh
        },
        Outcome::TransientError => if attempts_before + 1 >= TTL {
            Verdict::Exhausted
        } else {
            Verdict::Retry
        },
    }
}

/// The state of one logical request: its slot, the attempts made, and
/// whether the next route must fall back to a random node.
pub struct Dispatcher {
    /// The slot the command routes to, or `None` for keyless commands.
    pub slot: Option<u16>,
    /// How many send attempts were recorded so far.
    pub attempts: usize,
    /// Whether the previous attempt failed transiently, sending the next
    /// one to a random node.
    pub try_random: bool,
}

impl Dispatcher {
    /// The slot is a real slot and the budget is never overspent.
    pub open spec fn wf(&self) -> bool {
        (self.slot matches Some(s) ==> s < SLOT_SIZE) && self.attempts <= TTL
    }

    /// Starts a request for a command already framed for the wire. A
    /// malformed frame fails fast, before anything is sent.
    pub fn new(cmd: &[u8]) -> (r: Result<Dispatcher, ClusterError>)
        ensures
            (match r {
                Ok(d) => unpack_spec(cmd@) matches Some(args) && d.slot
                    == spec_slot_for_command(args) && d.attempts == 0 && !d.try_random
                    && d.wf(),
                Err(e) => unpack_spec(cmd@) is None && e == ClusterError::MalformedCommand,
            }),
    {
        match slot_for_packed_command(cmd) {
            Ok(sl) => Ok(Dispatcher { slot: sl, attempts: 0, try_random: false }),
            Err(e) => Err(e),
        }
    }

    /// Starts a request for a packed batch of commands — several frames
    /// concatenated — routed by the slot of the first command only. Bytes
    /// that do not start with a well-formed frame fail fast, before
    /// anything is sent.
    pub fn for_pipeline(cmd: &[u8]) -> (r: Result<Dispatcher, ClusterError>)
        ensures
            (match r {
                Ok(d) => unpack_first_spec(cmd@) matches Some(p) && d.slot
                    == spec_slot_for_command(p.0) && d.attempts == 0 && !d.try_random
                    && d.wf(),
                Err(e) => unpack_first_spec(cmd@) is None && e
                    == ClusterError::MalformedCommand,
            }),
    {
        match slot_for_packed_pipeline(cmd) {
            Ok(sl) => Ok(Dispatcher { slot: sl, attempts: 0, try_random: false }),
            Err(e) => Err(e),
        }
    }

    /// The route step: the slot's registered owner, or the random fallback
    /// when the command is keyless, the owner is unknown, or the previous
    /// attempt asked for it. Consumes the fallback mark.
    pub fn route(&mut self, table: &TopologyTable) -> (r: Route)
        requires
            old(self).wf(),
            table.wf(),
        ensures
            final(self).wf(),
            final(self).slot == old(self).slot,
            final(self).attempts == old(self).attempts,
            !final(self).try_random,
            (match r {
                Route::Target(a) => !old(self).try_random && (old(self).slot matches Some(s)
                    && table@[s as int] == Some(a@)),
                Route::Random => old(self).try_random || old(self).slot is None || (old(
                    self,
                ).slot matches Some(s) && table@[s as int] is None),
            }),
    {
        let was_random = self.try_random;
        self.try_random = false;
        if was_random {
            return Route::Random;
        }
        match self.slot {
            Some(s) => match table.lookup(s) {
                Some(a) => Route::Target(a.duplicate()),
                None => Route::Random,
            },
            None => Route::Random,
        }
    }

    /// The record step: counts the send attempt that just finished and
    /// decides what to do next, as `spec_verdict` states it.
    pub fn record(&mut self, outcome: &Outcome) -> (r: Verdict)
        requires
            old(self).wf(),
            old(self).attempts < TTL,
        ensures
            final(self).wf(),
            final(self).slot == old(self).slot,
            final(self).attempts == old(self).attempts + 1,
            r == spec_verdict(*outcome, old(self).attempts as int),
            final(self).try_random == (outcome matches Outcome::TransientError),
    {
        self.attempts = self.attempts + 1;
        match outcome {
            Outcome::Success => {
                self.try_random = false;
                Verdict::Done
            },
            Outcome::Moved(_) => {
                self.try_random = false;
                if self.attempts >= TTL {
                    Verdict::Exhausted
                } else {
                    Verdict::Refresh
                }
            },
            Outcome::Ask(_) => {
                self.try_random = false;
                if self.attempts >= TTL {
                    Verdict::Exhausted
                } else {
                    Verdict::Refresh
                }
            },
            Outcome::TransientError => {
                self.try_random = true;
                if self.attempts >= TTL {
                    Verdict::Exhausted
                } else {
                    Verdict::Retry
                }
            },
        }
    }
}

/// The address one attempt is actually sent to. A routed target whose
/// connection could be opened and verified is used as is; otherwise — the
/// random route, or a target that could not be reached — any pooled
/// address serves, and the attempt fails with
/// `ClusterError::RoutingUnavailable` only when the pool is empty: one
/// unreachable node is recovered locally, never surfaced.
pub fn choose_send_addr<C>(route: &Route, target_ok: bool, pool: &Pool<C>) -> (r: Result<
    NodeAddr,
    ClusterError,
>)
    ensures
        (match r {
            Ok(a) => (route matches Route::Target(t) && target_ok && a@ == t@) || pool.has(
                a@,
            ),
            Err(e) => e == ClusterError::RoutingUnavailable && pool.addrs().len() == 0,
        }),
        pool.addrs().len() > 0 ==> r is Ok,
        (match route {
            Route::Target(t) => target_ok ==> (r matches Ok(a) && a@ == t@),
            Route::Random => true,
        }),
{
    match route {
        Route::Target(t) => {
            if target_ok {
                return Ok(t.duplicate());
            }
            match pool.random_addr() {
                Some(a) => Ok(a.duplicate()),
                None => Err(ClusterError::RoutingUnavailable),
            }
        },
        Route::Random => match pool.random_addr() {
            Some(a) => Ok(a.duplicate()),
            None => Err(ClusterError::RoutingUnavailable),
        },
    }
}

/// Law: a failed attempt below the budget never gives up and never
/// succeeds, and the failed attempt that reaches the budget — exactly the
/// TTL-th — is the one that gives up. A request that fails every attempt
/// therefore makes exactly TTL send attempts, never more.
pub proof fn lemma_exhausted_exactly_at_budget(o: Outcome, attempts_before: int)
    requires
        0 <= attempts_before < TTL,
        !(o matches Outcome::Success),
    ensures
        (spec_verdict(o, attempts_before) == Verdict::Exhausted) <==> (attempts_before == TTL
            - 1),
        spec_verdict(o, attempts_before) != Verdict::Done,
{
}

} // verus!
