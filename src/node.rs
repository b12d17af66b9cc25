//! A node's state: configuration, persistent and volatile fields, and the handlers for
//! inbound vote and append requests.
use crate::events::{append_outcome, vote_outcome};
use crate::log::{agrees_at, divergence_from, lemma_divergence_bounds, entries_model, last_term_of, merged, term_at, EntryModel, RaftLog};
use crate::transport::{AppendEntriesArgs, AppendEntriesReply, RequestVoteArgs, RequestVoteReply};
use vstd::prelude::*;

verus! {

/// The part a node currently plays in the cluster.
#[derive(Clone, Copy, Debug, PartialEq, Eq, Structural)]
pub enum Role {
    Follower,
    Candidate,
    Leader,
}

/// Static description of a node and its cluster. Durations are in milliseconds.
#[derive(Clone, Debug)]
pub struct NodeConfig {
    pub id: u64,
    /// Full membership, this node included.
    pub peers: Vec<u64>,
    pub base_election_timeout_ms: u64,
    pub heartbeat_timeout_ms: u64,
}

impl NodeConfig {
    /// Membership lists each node once and includes this node.
    pub open spec fn wf(&self) -> bool {
        &&& self.peers@.contains(self.id)
        &&& self.peers@.no_duplicates()
    }
}

/// The fields that must survive a crash: saved before any reply that depends on them.
#[derive(Clone, Debug)]
pub struct PersistentState {
    pub current_term: u64,
    pub voted_for: Option<u64>,
    pub log: RaftLog,
}

impl Default for PersistentState {
    fn default() -> (r: PersistentState)
        ensures
            r.current_term == 0,
            r.voted_for.is_none(),
            r.log.wf(),
            r.log@ == Seq::<EntryModel>::empty(),
    {
        PersistentState { current_term: 0, voted_for: None, log: RaftLog::new() }
    }
}

impl PersistentState {
    /// A deep copy of the state.
    pub fn copy(&self) -> (r: PersistentState)
        requires
            self.log.wf(),
        ensures
            r.current_term == self.current_term,
            r.voted_for == self.voted_for,
            r.log.wf(),
            r.log@ == self.log@,
    {
        PersistentState {
            current_term: self.current_term,
            voted_for: self.voted_for,
            log: self.log.copy(),
        }
    }
}

/// What a leader knows of one follower's log.
#[derive(Clone, Copy, Debug, PartialEq, Eq)]
pub struct PeerProgress {
    pub peer: u64,
    /// Index of the next entry to send.
    pub next_index: u64,
    /// Highest index known to be replicated on the peer.
    pub match_index: u64,
}

/// Strictly more than half of a cluster of `cluster` nodes.
pub open spec fn is_majority(count: int, cluster: int) -> bool {
    2 * count > cluster
}

/// Log `(term_a, index_a)` is at least as up-to-date as `(term_b, index_b)`: a later last
/// term wins, and for equal last terms the longer log does.
pub open spec fn at_least_as_up_to_date(term_a: u64, index_a: u64, term_b: u64, index_b: u64) -> bool {
    term_a > term_b || (term_a == term_b && index_a >= index_b)
}

/// Whether a leader of `term` with log `log` and follower records `ps`, in a cluster of
/// `cluster` members, may commit the entry at `n`: it was created in `term` and a strict
/// majority (the leader included) holds it.
pub open spec fn qualifies(log: Seq<EntryModel>, term: u64, ps: Seq<PeerProgress>, cluster: int, n: int) -> bool {
    &&& term_at(log, n) == Some(term)
    &&& is_majority(1 + replicated_count(ps, n) as int, cluster)
}

/// `c` is the commit index recomputed from `old_commit`: the highest index of the log
/// that qualifies if it is above `old_commit`, `old_commit` otherwise.
pub open spec fn recomputed(
    log: Seq<EntryModel>,
    term: u64,
    ps: Seq<PeerProgress>,
    cluster: int,
    old_commit: u64,
    c: u64,
) -> bool {
    &&& c >= old_commit
    &&& c > old_commit ==> qualifies(log, term, ps, cluster, c as int)
    &&& forall|n: int| c < n <= log.len() ==> !qualifies(log, term, ps, cluster, n)
}

/// Number of followers whose match index is at least `n`.
pub open spec fn replicated_count(ps: Seq<PeerProgress>, n: int) -> nat
    decreases ps.len(),
{
    if ps.len() == 0 {
        0
    } else {
        replicated_count(ps.drop_last(), n) + if ps.last().match_index >= n {
            1nat
        } else {
            0nat
        }
    }
}

/// The members other than `id`, in membership order.
pub open spec fn others(peers: Seq<u64>, id: u64) -> Seq<u64>
    decreases peers.len(),
{
    if peers.len() == 0 {
        Seq::empty()
    } else if peers.last() == id {
        others(peers.drop_last(), id)
    } else {
        others(peers.drop_last(), id).push(peers.last())
    }
}

/// Fresh follower records of a new Leader: one per other member, in membership order,
/// each with next index just past the leader's log of length `len` and match index 0.
pub open spec fn fresh_progress(ps: Seq<PeerProgress>, peers: Seq<u64>, id: u64, len: nat) -> bool {
    &&& ps.len() == others(peers, id).len()
    &&& forall|i: int|
        0 <= i < ps.len() ==> #[trigger] ps[i] == (PeerProgress {
            peer: others(peers, id)[i],
            next_index: (len + 1) as u64,
            match_index: 0,
        })
}

/// Whether merging the entries of `args` into `log` would drop an entry at or below the
/// commit index `commit`: the first offered entry the log does not hold lies inside the
/// log, at a committed position.
pub open spec fn drops_committed(log: Seq<EntryModel>, args: AppendEntriesArgs, commit: u64) -> bool {
    let c = divergence_from(log, args.prev_log_index as int, entries_model(args.entries@), 0);
    &&& c < args.entries@.len()
    &&& args.prev_log_index + c < log.len()
    &&& args.prev_log_index + c < commit
}

/// Whether `n` accepts append request `args` of a current term: its log holds the entry
/// before the offered ones, the indices fit, and no committed entry would be dropped.
pub open spec fn accepts_append(n: RaftNode, args: AppendEntriesArgs) -> bool {
    &&& args.prev_log_index == 0 || term_at(n.log(), args.prev_log_index as int) == Some(
        args.prev_log_term,
    )
    &&& args.prev_log_index + args.entries@.len() + 1 < u64::MAX
    &&& !drops_committed(n.log(), args, n.commit_index)
}

/// Retry point after a mismatch reply: one step back, or straight past the follower's
/// reported last index when that is further back, and never below 1.
pub open spec fn backtracked(next: u64, hint: u64) -> u64 {
    if hint < next - 1 {
        (hint + 1) as u64
    } else if next > 1 {
        (next - 1) as u64
    } else {
        1
    }
}

/// Where a follower suggests the leader retry from after a failed consistency check.
pub open spec fn mismatch_hint(last_index: int, prev: u64) -> u64 {
    if last_index < prev {
        last_index as u64
    } else if prev > 0 {
        (prev - 1) as u64
    } else {
        0
    }
}

/// One node's complete protocol state.
#[derive(Clone, Debug)]
pub struct RaftNode {
    pub config: NodeConfig,
    pub persistent: PersistentState,
    pub role: Role,
    pub commit_index: u64,
    pub last_applied: u64,
    pub leader_hint: Option<u64>,
    /// Members that granted this node their vote in the current term (candidates only).
    pub votes: Vec<u64>,
    /// Follower progress, one record per other member (leaders only).
    pub progress: Vec<PeerProgress>,
}

impl RaftNode {
    /// The node's invariant: a sound configuration and log, nothing applied beyond the
    /// commit index, votes only from distinct members and only while Candidate, follower
    /// records only while Leader, each pointing into or just past the log.
    pub open spec fn wf(&self) -> bool {
        &&& self.config.wf()
        &&& self.persistent.log.wf()
        &&& self.last_applied <= self.commit_index
        &&& self.votes@.no_duplicates()
        &&& forall|v: u64| #[trigger] self.votes@.contains(v) ==> self.config.peers@.contains(v)
        &&& self.role != Role::Candidate ==> self.votes@.len() == 0
        &&& self.role != Role::Leader ==> self.progress@.len() == 0
        &&& forall|i: int|
            0 <= i < self.progress@.len() ==> 1 <= #[trigger] self.progress@[i].next_index
                <= self.log().len() + 1 && self.progress@[i].match_index <= self.log().len()
    }

    /// The current term.
    pub open spec fn term(&self) -> u64 {
        self.persistent.current_term
    }

    /// The log's entries.
    pub open spec fn log(&self) -> Seq<EntryModel> {
        self.persistent.log@
    }

    /// A node starting up as Follower from the saved state, or from a fresh one.
    pub fn new(config: NodeConfig, loaded: Option<PersistentState>) -> (r: RaftNode)
        requires
            config.wf(),
            loaded.is_some() ==> loaded.unwrap().log.wf(),
        ensures
            r.wf(),
            r.config == config,
            r.role == Role::Follower,
            r.commit_index == 0,
            r.last_applied == 0,
            r.leader_hint.is_none(),
            loaded.is_some() ==> r.term() == loaded.unwrap().current_term
                && r.persistent.voted_for == loaded.unwrap().voted_for && r.log()
                == loaded.unwrap().log@,
            loaded.is_none() ==> r.term() == 0 && r.persistent.voted_for.is_none() && r.log()
                == Seq::<EntryModel>::empty(),
    {
        let persistent = match loaded {
            Some(p) => p,
            None => PersistentState::default(),
        };
        RaftNode {
            config,
            persistent,
            role: Role::Follower,
            commit_index: 0,
            last_applied: 0,
            leader_hint: None,
            votes: Vec::new(),
            progress: Vec::new(),
        }
    }

    /// A node restarting from saved state whose state machine has already applied the
    /// entries up to `applied`: those entries were committed, so the commit and apply
    /// indices resume there and no entry is delivered twice. A watermark beyond the saved
    /// log cannot be trusted and gives `None`.
    pub fn resume(config: NodeConfig, loaded: PersistentState, applied: u64) -> (r: Option<RaftNode>)
        requires
            config.wf(),
            loaded.log.wf(),
        ensures
            r.is_some() <==> applied <= loaded.log@.len(),
            r matches Some(n) ==> {
                &&& n.wf()
                &&& n.config == config
                &&& n.role == Role::Follower
                &&& n.commit_index == applied
                &&& n.last_applied == applied
                &&& n.leader_hint.is_none()
                &&& n.term() == loaded.current_term
                &&& n.persistent.voted_for == loaded.voted_for
                &&& n.log() == loaded.log@
            },
    {
        if applied > loaded.log.last_index() {
            return None;
        }
        Some(
            RaftNode {
                config,
                persistent: loaded,
                role: Role::Follower,
                commit_index: applied,
                last_applied: applied,
                leader_hint: None,
                votes: Vec::new(),
                progress: Vec::new(),
            },
        )
    }

    /// Adopts a newer term seen in a message: clears the vote and falls back to Follower.
    pub(crate) fn adopt_term(&mut self, term: u64)
        requires
            old(self).wf(),
            term > old(self).term(),
        ensures
            final(self).wf(),
            final(self).term() == term,
            final(self).persistent.voted_for.is_none(),
            final(self).role == Role::Follower,
            final(self).leader_hint.is_none(),
            final(self).log() == old(self).log(),
            final(self).config == old(self).config,
            final(self).commit_index == old(self).commit_index,
            final(self).last_applied == old(self).last_applied,
    {
        self.persistent.current_term = term;
        self.persistent.voted_for = None;
        self.role = Role::Follower;
        self.leader_hint = None;
        self.votes = Vec::new();
        self.progress = Vec::new();
    }

    /// Answers a vote request. A stale term is refused with no change; a newer term is
    /// adopted first. The vote goes to the candidate iff this node has not voted for
    /// another in the term and the candidate's log is at least as up-to-date as its own.
    pub fn handle_request_vote(&mut self, args: &RequestVoteArgs) -> (r: RequestVoteReply)
        requires
            old(self).wf(),
        ensures
            request_vote_step(*old(self), *final(self), *args, r),
    {
        if args.term < self.persistent.current_term {
            return RequestVoteReply { term: self.persistent.current_term, vote_granted: false };
        }
        if args.term > self.persistent.current_term {
            self.adopt_term(args.term);
        }
        let free = match self.persistent.voted_for {
            None => true,
            Some(v) => v == args.candidate_id,
        };
        let (my_index, my_term) = self.persistent.log.last_index_term();
        let up_to_date = args.last_log_term > my_term || (args.last_log_term == my_term
            && args.last_log_index >= my_index);
        let grant = free && up_to_date;
        if grant {
            self.persistent.voted_for = Some(args.candidate_id);
        }
        RequestVoteReply { term: args.term, vote_granted: grant }
    }

    /// Answers an append request. A stale term is refused with no change. Otherwise the
    /// sender is recognised as leader for its term (this node becomes Follower); if the
    /// log holds `prev_log_index` with `prev_log_term`, the entries are merged into the
    /// log and the commit index rises to `min(leader_commit, last new index)` when higher.
    pub fn handle_append_entries(&mut self, args: &AppendEntriesArgs) -> (r: AppendEntriesReply)
        requires
            old(self).wf(),
        ensures
            append_entries_step(*old(self), *final(self), *args, r),
    {
        if args.term < self.persistent.current_term {
            return AppendEntriesReply {
                term: self.persistent.current_term,
                success: false,
                match_hint: self.persistent.log.last_index(),
            };
        }
        if args.term > self.persistent.current_term {
            self.adopt_term(args.term);
        }
        self.role = Role::Follower;
        self.votes = Vec::new();
        self.progress = Vec::new();
        self.leader_hint = Some(args.leader_id);
        let prev = args.prev_log_index;
        let last = self.persistent.log.last_index();
        let consistent = prev == 0 || match self.persistent.log.term_at(prev) {
            Some(t) => t == args.prev_log_term,
            None => false,
        };
        let fits = prev < u64::MAX - 1 && (args.entries.len() as u64) < u64::MAX - 1 - prev;
        let hint = if last < prev {
            last
        } else if prev > 0 {
            prev - 1
        } else {
            0
        };
        if !(consistent && fits) {
            return AppendEntriesReply { term: args.term, success: false, match_hint: hint };
        }
        let c = self.persistent.log.divergence(prev, &args.entries);
        if c < args.entries.len() as u64 && prev + c < last && prev + c < self.commit_index {
            return AppendEntriesReply { term: args.term, success: false, match_hint: hint };
        }
        self.persistent.log.merge_entries(prev, &args.entries);
        proof {
            let em = entries_model(args.entries@);
            let log0 = old(self).log();
            lemma_divergence_bounds(log0, prev as int, em, 0);
            if c > 0 {
                assert(agrees_at(log0, prev as int, em, c - 1));
            }
            assert(prev + c <= log0.len());
            if c < args.entries@.len() {
                assert(self.log() == log0.subrange(0, prev + c) + em.subrange(c as int, em.len() as int));
                assert forall|i: int| 0 <= i < old(self).commit_index && i < log0.len()
                    implies i < self.log().len() && #[trigger] self.log()[i] == log0[i] by {
                    assert(i < prev + c);
                }
            }
        }
        let last_new = prev + args.entries.len() as u64;
        if args.leader_commit > self.commit_index && last_new > self.commit_index {
            self.commit_index = if args.leader_commit < last_new {
                args.leader_commit
            } else {
                last_new
            };
        }
        AppendEntriesReply { term: args.term, success: true, match_hint: last_new }
    }
}

/// The effect of `RaftNode::handle_request_vote`: `old` answers `args` with `r` and
/// becomes `new`. A stale term is refused with no change; a newer term is adopted first
/// (Follower, vote cleared); the vote is granted iff the node has not voted for another in
/// the term and the candidate's log is at least as up-to-date.
pub open spec fn request_vote_step(
    old: RaftNode,
    new: RaftNode,
    args: RequestVoteArgs,
    r: RequestVoteReply,
) -> bool {
    &&& new.wf()
    &&& new.config == old.config
    &&& new.log() == old.log()
    &&& new.commit_index == old.commit_index
    &&& new.last_applied == old.last_applied
    &&& r == vote_outcome(old, args)
    &&& (args.term < old.term() ==> r == (RequestVoteReply {
                term: old.term(),
                vote_granted: false,
            }) && new == old)
    &&& (args.term >= old.term() ==> {
            let prior = if args.term > old.term() {
                None
            } else {
                old.persistent.voted_for
            };
            let grant = (prior.is_none() || prior == Some(args.candidate_id))
                && at_least_as_up_to_date(
                args.last_log_term,
                args.last_log_index,
                last_term_of(old.log()),
                old.log().len() as u64,
            );
            &&& r == (RequestVoteReply { term: args.term, vote_granted: grant })
            &&& new.term() == args.term
            &&& new.persistent.voted_for == if grant {
                Some(args.candidate_id)
            } else {
                prior
            }
            &&& new.role == if args.term > old.term() {
                Role::Follower
            } else {
                old.role
            }
        })
}

/// The effect of `RaftNode::handle_append_entries`: `old` answers `args` with `r` and
/// becomes `new`. A stale term is refused with no change. Otherwise the node is Follower of
/// the sender's term; when its log holds the previous entry the entries are merged and the
/// commit index rises to `min(leader_commit, last new index)` if higher.
pub open spec fn append_entries_step(
    old: RaftNode,
    new: RaftNode,
    args: AppendEntriesArgs,
    r: AppendEntriesReply,
) -> bool {
    &&& new.wf()
    &&& new.config == old.config
    &&& new.last_applied == old.last_applied
    &&& new.commit_index >= old.commit_index
    &&& r == append_outcome(old, args)
    &&& (args.term < old.term() ==> r == (AppendEntriesReply {
                term: old.term(),
                success: false,
                match_hint: old.log().len() as u64,
            }) && new == old)
    &&& (args.term >= old.term() ==> {
            let n = args.entries@.len();
            let accepted = accepts_append(old, args);
            &&& new.term() == args.term
            &&& new.role == Role::Follower
            &&& new.leader_hint == Some(args.leader_id)
            &&& new.persistent.voted_for == if args.term > old.term() {
                None
            } else {
                old.persistent.voted_for
            }
            &&& forall|i: int|
                0 <= i < old.commit_index && i < old.log().len() ==> i < new.log().len()
                    && #[trigger] new.log()[i] == old.log()[i]
            &&& accepted ==> {
                let last_new = args.prev_log_index + n;
                &&& new.log() == merged(
                    old.log(),
                    args.prev_log_index as int,
                    entries_model(args.entries@),
                )
                &&& new.commit_index == if args.leader_commit
                    > old.commit_index && last_new > old.commit_index {
                    if args.leader_commit < last_new {
                        args.leader_commit
                    } else {
                        last_new as u64
                    }
                } else {
                    old.commit_index
                }
                &&& r == (AppendEntriesReply {
                        term: args.term,
                        success: true,
                        match_hint: last_new as u64,
                    })
            }
            &&& !accepted ==> {
                &&& new.log() == old.log()
                &&& new.commit_index == old.commit_index
                &&& r == (AppendEntriesReply {
                        term: args.term,
                        success: false,
                        match_hint: mismatch_hint(old.log().len() as int, args.prev_log_index),
                    })
            }
        })
}

} // verus!
