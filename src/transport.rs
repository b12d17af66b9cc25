//! Protocol messages, and an in-process mailbox for them.
use crate::log::LogEntry;
use vstd::prelude::*;

verus! {

/// A candidate's request for a vote.
#[derive(Clone, Debug, PartialEq)]
pub struct RequestVoteArgs {
    pub term: u64,
    pub candidate_id: u64,
    pub last_log_index: u64,
    pub last_log_term: u64,
}

/// The answer to a vote request.
#[derive(Clone, Copy, Debug, PartialEq, Eq)]
pub struct RequestVoteReply {
    pub term: u64,
    pub vote_granted: bool,
}

/// A leader's request to append entries after `prev_log_index`; empty as a heartbeat.
#[derive(Clone, Debug, PartialEq)]
pub struct AppendEntriesArgs {
    pub term: u64,
    pub leader_id: u64,
    pub prev_log_index: u64,
    pub prev_log_term: u64,
    pub entries: Vec<LogEntry>,
    pub leader_commit: u64,
}

/// The answer to an append request. `match_hint` is the last index known to agree with
/// the leader on success, and a suggested point to retry from on a log mismatch.
#[derive(Clone, Copy, Debug, PartialEq, Eq)]
pub struct AppendEntriesReply {
    pub term: u64,
    pub success: bool,
    pub match_hint: u64,
}

/// A request carried from one node to another.
#[derive(Clone, Debug, PartialEq)]
pub enum RaftRpcReq {
    AppendEntriesReq(AppendEntriesArgs),
    RequestVoteReq(RequestVoteArgs),
}

/// The response to a `RaftRpcReq`.
#[derive(Clone, Copy, Debug, PartialEq, Eq)]
pub enum RaftRpcResp {
    AppendEntriesResp(AppendEntriesReply),
    RequestVoteResp(RequestVoteReply),
}

/// Any protocol message, for transports that pass messages one way.
#[derive(Clone, Debug, PartialEq)]
pub enum RaftMessage {
    AppendEntriesReq(AppendEntriesArgs),
    AppendEntriesResp(AppendEntriesReply),
    RequestVoteReq(RequestVoteArgs),
    RequestVoteResp(RequestVoteReply),
}

/// Why a message could not be carried.
#[derive(Clone, Debug, PartialEq)]
pub enum TransportError {
    Unspecified,
    DeserializationError(String),
    SerializationError(String),
    SendError(String),
    Timeout,
}

/// An in-process mailbox of requests between the nodes of one process: requests wait,
/// in the order sent, until their destination takes them.
pub struct InProcessTransport {
    pending: Vec<(u64, RaftRpcReq)>,
}

impl InProcessTransport {
    /// The waiting requests with their destinations, oldest first.
    pub closed spec fn pending(&self) -> Seq<(u64, RaftRpcReq)> {
        self.pending@
    }

    /// An empty mailbox.
    pub fn new() -> (r: InProcessTransport)
        ensures
            r.pending() == Seq::<(u64, RaftRpcReq)>::empty(),
    {
        InProcessTransport { pending: Vec::new() }
    }

    /// Leaves `rpc` for node `destination_id`.
    pub fn send_rpc(&mut self, destination_id: u64, rpc: RaftRpcReq)
        ensures
            final(self).pending() == old(self).pending().push((destination_id, rpc)),
    {
        self.pending.push((destination_id, rpc));
    }

    /// Takes the oldest request waiting for `node_id`, if any.
    pub fn recv_rpc(&mut self, node_id: u64) -> (r: Option<RaftRpcReq>)
        ensures
            (forall|i: int| 0 <= i < old(self).pending().len() ==> #[trigger] old(self).pending()[i].0
                != node_id) ==> r.is_none() && final(self).pending() == old(self).pending(),
            (exists|i: int|
                0 <= i < old(self).pending().len() && #[trigger] old(self).pending()[i].0 == node_id)
                ==> r.is_some(),
            r.is_some() ==> exists|i: int|
                0 <= i < old(self).pending().len() && #[trigger] old(self).pending()[i].0 == node_id
                    && (forall|j: int| 0 <= j < i ==> #[trigger] old(self).pending()[j].0 != node_id)
                    && r == Some(old(self).pending()[i].1) && final(self).pending() == old(
                    self,
                ).pending().remove(i),
    {
        let mut i: usize = 0;
        while i < self.pending.len()
            invariant
                self.pending@ == old(self).pending@,
                i <= self.pending@.len(),
                forall|j: int| 0 <= j < i ==> #[trigger] self.pending@[j].0 != node_id,
            decreases self.pending.len() - i,
        {
            if self.pending[i].0 == node_id {
                assert(old(self).pending()[i as int].0 == node_id);
                let (_, rpc) = self.pending.remove(i);
                return Some(rpc);
            }
            i += 1;
        }
        None
    }

    /// Number of requests waiting, for all destinations.
    pub fn pending_count(&self) -> (r: usize)
        ensures
            r == self.pending().len(),
    {
        self.pending.len()
    }
}

} // verus!
