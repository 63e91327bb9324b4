//! Relay service: owns the configured chain clients and processes each
//! ordered chain pair under a per-pair exclusivity guarantee.
//!
//! The service is invoked once per external trigger; scheduling, retry and
//! backoff belong to the caller. A pair whose lock is already held is
//! reported busy and left untouched, and the lock is released on every exit
//! path.

use vstd::prelude::*;

use crate::client::QuantumPortalClient;
use crate::gateway::{Gateway, SigningCapability};
use crate::types::{ChainRequestError, ChainRequestResult, PendingTransaction};

verus! {

/// Keyed lock table: which (remote, local) pairs are currently being
/// processed.
pub struct PairLockTable {
    held: Vec<(u64, u64)>,
}

impl PairLockTable {
    /// The pair is currently locked.
    pub closed spec fn holds(&self, pair: (u64, u64)) -> bool {
        self.held@.contains(pair)
    }

    /// A fresh table holding no locks.
    pub fn new() -> (r: Self)
        ensures
            forall|q: (u64, u64)| !r.holds(q),
    {
        PairLockTable { held: Vec::new() }
    }

    /// Attempts to take the lock for a pair: succeeds exactly when the
    /// pair is not already held, and afterwards the pair is held either
    /// way; no other pair's state changes.
    pub fn try_acquire(&mut self, remote_chain: u64, local_chain: u64) -> (r: bool)
        ensures
            r == !old(self).holds((remote_chain, local_chain)),
            final(self).holds((remote_chain, local_chain)),
            forall|q: (u64, u64)| final(self).holds(q) <==> (old(self).holds(q) || q == (
            remote_chain,
            local_chain,
            )),
    {
        let pair = (remote_chain, local_chain);
        let mut i: usize = 0;
        while i < self.held.len()
            invariant
                i <= self.held@.len(),
                *self == *old(self),
                forall|j: int| 0 <= j < i ==> self.held@[j] != (remote_chain, local_chain),
            decreases self.held@.len() - i,
        {
            let e = self.held[i];
            if e.0 == remote_chain && e.1 == local_chain {
                proof {
                    assert(self.held@[i as int] == (remote_chain, local_chain));
                    assert(self.holds((remote_chain, local_chain)));
                }
                return false;
            }
            i = i + 1;
        }
        proof {
            assert(!old(self).holds((remote_chain, local_chain)));
        }
        self.held.push(pair);
        proof {
            let oldseq = old(self).held@;
            let newseq = self.held@;
            assert(newseq == oldseq.push(pair));
            assert(newseq[oldseq.len() as int] == pair);
            assert(newseq.contains(pair));
            assert forall|q: (u64, u64)| newseq.contains(q) <==> (oldseq.contains(q) || q
                == pair) by {
                if newseq.contains(q) {
                    let j = choose|j: int| 0 <= j < newseq.len() && newseq[j] == q;
                    if j < oldseq.len() {
                        assert(oldseq[j] == q);
                        assert(oldseq.contains(q));
                    }
                }
                if oldseq.contains(q) {
                    let j = choose|j: int| 0 <= j < oldseq.len() && oldseq[j] == q;
                    assert(newseq[j] == q);
                    assert(newseq.contains(q));
                }
            }
        }
        true
    }

    /// Releases the lock for a pair unconditionally; no other pair's state
    /// changes.
    pub fn release(&mut self, remote_chain: u64, local_chain: u64)
        ensures
            forall|q: (u64, u64)| final(self).holds(q) <==> (old(self).holds(q) && q != (
            remote_chain,
            local_chain,
            )),
    {
        let mut out: Vec<(u64, u64)> = Vec::new();
        let mut i: usize = 0;
        while i < self.held.len()
            invariant
                i <= self.held@.len(),
                *self == *old(self),
                forall|q: (u64, u64)| out@.contains(q) ==> (old(self).held@.contains(q) && q != (
                remote_chain,
                local_chain,
                )),
                forall|j: int| 0 <= j < i && old(self).held@[j] != (remote_chain, local_chain)
                    ==> out@.contains(#[trigger] old(self).held@[j]),
            decreases self.held@.len() - i,
        {
            let e = self.held[i];
            if !(e.0 == remote_chain && e.1 == local_chain) {
                let ghost prev = out@;
                out.push(e);
                proof {
                    assert(self.held@.contains(e)) by {
                        assert(self.held@[i as int] == e);
                    }
                    assert forall|q: (u64, u64)| out@.contains(q) implies (
                    old(self).held@.contains(q) && q != (remote_chain, local_chain)) by {
                        let j = choose|j: int| 0 <= j < out@.len() && out@[j] == q;
                        if j < prev.len() {
                            assert(prev[j] == q);
                            assert(prev.contains(q));
                        } else {
                            assert(q == e);
                        }
                    }
                    assert forall|j: int| 0 <= j < i + 1 && old(self).held@[j] != (
                    remote_chain,
                    local_chain,
                    ) implies out@.contains(#[trigger] old(self).held@[j]) by {
                        if j < i {
                            assert(prev.contains(old(self).held@[j]));
                            let x = choose|x: int| 0 <= x < prev.len() && prev[x]
                                == old(self).held@[j];
                            assert(out@[x] == old(self).held@[j]);
                        } else {
                            assert(out@[prev.len() as int] == old(self).held@[j]);
                        }
                    }
                }
            } else {
                proof {
                    assert(self.held@[i as int] == (remote_chain, local_chain));
                }
            }
            i = i + 1;
        }
        self.held = out;
        proof {
            assert forall|q: (u64, u64)| final(self).holds(q) <==> (old(self).holds(q) && q != (
            remote_chain,
            local_chain,
            )) by {
                if old(self).holds(q) && q != (remote_chain, local_chain) {
                    let j = choose|j: int| 0 <= j < old(self).held@.len() && old(self).held@[j]
                        == q;
                    assert(out@.contains(old(self).held@[j]));
                }
            }
        }
    }
}

/// What one invocation did for one pair.
#[derive(PartialEq, Eq, Debug)]
pub enum ProcessOutcome {
    /// Another invocation already holds the pair's lock: nothing was read
    /// or submitted.
    Busy,
    /// The pair was processed: mine then finalize, each reporting the
    /// submission it made, if any.
    Processed { mine_tx: Option<PendingTransaction>, finalize_tx: Option<PendingTransaction> },
}

/// The relay service: the configured chain clients and the per-pair lock
/// table.
pub struct QuantumPortalService<G: Gateway, S: SigningCapability> {
    pub clients: Vec<QuantumPortalClient<G, S>>,
    pub locks: PairLockTable,
}

impl<G: Gateway, S: SigningCapability> QuantumPortalService<G, S> {
    /// Some client is configured for the chain.
    pub open spec fn has_client(&self, chain_id: u64) -> bool {
        exists|i: int| 0 <= i < self.clients@.len() && (#[trigger] self.clients@[i]).chain_id
            == chain_id
    }

    pub fn new(clients: Vec<QuantumPortalClient<G, S>>) -> (r: Self)
        ensures
            r.clients == clients,
            forall|q: (u64, u64)| !r.locks.holds(q),
    {
        QuantumPortalService { clients, locks: PairLockTable::new() }
    }

    /// Finds the configured client for a chain.
    fn find_client(&self, chain_id: u64) -> (r: Option<usize>)
        ensures
            (r matches Some(i) ==> i < self.clients@.len() && self.clients@[i as int].chain_id
                == chain_id),
            (r is None ==> forall|i: int| 0 <= i < self.clients@.len()
                ==> self.clients@[i].chain_id != chain_id),
    {
        let mut i: usize = 0;
        while i < self.clients.len()
            invariant
                i <= self.clients@.len(),
                forall|j: int| 0 <= j < i ==> self.clients@[j].chain_id != chain_id,
            decreases self.clients@.len() - i,
        {
            if self.clients[i].chain_id == chain_id {
                return Some(i);
            }
            i = i + 1;
        }
        None
    }

    /// Processes one ordered chain pair under its lock: mine from the
    /// remote chain onto the local chain, then finalize, and release the
    /// lock on every exit path. The pair comes back busy exactly when
    /// another invocation already holds its lock, and then nothing is read
    /// or submitted for it; a chain with no configured client is a request
    /// error; on return the lock table is exactly as it was.
    pub fn process_pair_with_lock(&mut self, remote_chain: u64, local_chain: u64) -> (r:
        ChainRequestResult<ProcessOutcome>)
        ensures
            (r matches Ok(o) && o is Busy) <==> old(self).locks.holds((remote_chain, local_chain)),
            forall|q: (u64, u64)| final(self).locks.holds(q) <==> old(self).locks.holds(q),
            final(self).clients == old(self).clients,
            !old(self).locks.holds((remote_chain, local_chain)) && (!old(self).has_client(
                local_chain,
            ) || !old(self).has_client(remote_chain)) ==> r == Err::<
                ProcessOutcome,
                ChainRequestError,
            >(ChainRequestError::RequestError),
    {
        let acquired = self.locks.try_acquire(remote_chain, local_chain);
        if !acquired {
            return Ok(ProcessOutcome::Busy);
        }
        let local_idx = match self.find_client(local_chain) {
            Some(i) => i,
            None => {
                self.locks.release(remote_chain, local_chain);
                return Err(ChainRequestError::RequestError);
            }
        };
        let remote_idx = match self.find_client(remote_chain) {
            Some(i) => i,
            None => {
                self.locks.release(remote_chain, local_chain);
                return Err(ChainRequestError::RequestError);
            }
        };
        proof {
            assert(self.clients@[local_idx as int].chain_id == local_chain);
            assert(self.clients@[remote_idx as int].chain_id == remote_chain);
            assert(self.has_client(local_chain) && self.has_client(remote_chain));
        }
        let mine_res = self.clients[local_idx].mine(&self.clients[remote_idx]);
        let mine_tx = match mine_res {
            Ok(Some(tx_id)) => Some(
                PendingTransaction { remote_chain_id: remote_chain, local_chain_id: local_chain, tx_id },
            ),
            Ok(None) => None,
            Err(e) => {
                self.locks.release(remote_chain, local_chain);
                return Err(e);
            }
        };
        let fin_res = self.clients[local_idx].finalize(remote_chain);
        let finalize_tx = match fin_res {
            Ok(Some(tx_id)) => Some(
                PendingTransaction { remote_chain_id: remote_chain, local_chain_id: local_chain, tx_id },
            ),
            Ok(None) => None,
            Err(e) => {
                self.locks.release(remote_chain, local_chain);
                return Err(e);
            }
        };
        self.locks.release(remote_chain, local_chain);
        Ok(ProcessOutcome::Processed { mine_tx, finalize_tx })
    }

    /// One invocation of the relay: processes every configured pair once,
    /// mine then finalize under the pair's lock. A failing pair reports its
    /// error in its slot and does not abort the remaining pairs; a slot is
    /// busy exactly when its pair's lock was already held, an unconfigured
    /// chain yields a request error in its slot, and no lock is left
    /// behind.
    pub fn process_pairs(&mut self, pairs: &Vec<(u64, u64)>) -> (r: Vec<
        ChainRequestResult<ProcessOutcome>,
    >)
        ensures
            r@.len() == pairs@.len(),
            forall|q: (u64, u64)| final(self).locks.holds(q) <==> old(self).locks.holds(q),
            final(self).clients == old(self).clients,
            forall|i: int| 0 <= i < pairs@.len() ==> ((#[trigger] r@[i] matches Ok(o)
                && o is Busy) <==> old(self).locks.holds(pairs@[i])),
            forall|i: int| 0 <= i < pairs@.len() && !old(self).locks.holds(pairs@[i]) && (
            !old(self).has_client(pairs@[i].1) || !old(self).has_client(pairs@[i].0)) ==> #[trigger] r@[i]
                == Err::<ProcessOutcome, ChainRequestError>(ChainRequestError::RequestError),
    {
        let mut out: Vec<ChainRequestResult<ProcessOutcome>> = Vec::new();
        let mut i: usize = 0;
        while i < pairs.len()
            invariant
                i <= pairs@.len(),
                out@.len() == i,
                self.clients == old(self).clients,
                forall|q: (u64, u64)| self.locks.holds(q) <==> old(self).locks.holds(q),
                forall|j: int| 0 <= j < i ==> ((#[trigger] out@[j] matches Ok(o) && o is Busy)
                    <==> old(self).locks.holds(pairs@[j])),
                forall|j: int| 0 <= j < i && !old(self).locks.holds(pairs@[j]) && (
                !old(self).has_client(pairs@[j].1) || !old(self).has_client(pairs@[j].0))
                    ==> #[trigger] out@[j] == Err::<ProcessOutcome, ChainRequestError>(
                    ChainRequestError::RequestError,
                ),
            decreases pairs@.len() - i,
        {
            let p = pairs[i];
            let res = self.process_pair_with_lock(p.0, p.1);
            out.push(res);
            i = i + 1;
        }
        out
    }
}

} // verus!
