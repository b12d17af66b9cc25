//! Leader election: randomised timeouts, starting an election, counting votes.
use crate::log::last_term_of;
use crate::node::{fresh_progress, is_majority, others, PeerProgress, RaftNode, Role};
use crate::transport::{RequestVoteArgs, RequestVoteReply};
use vstd::prelude::*;

verus! {

/// Whether `x` occurs in `v`.
fn contains_id(v: &Vec<u64>, x: u64) -> (r: bool)
    ensures
        r == v@.contains(x),
{
    let mut i: usize = 0;
    while i < v.len()
        invariant
            i <= v@.len(),
            forall|k: int| 0 <= k < i ==> v@[k] != x,
        decreases v.len() - i,
    {
        if v[i] == x {
            return true;
        }
        i += 1;
    }
    false
}

/// Uniform choice of an election timeout in `[base - 35%, base + 35%]`, driven by
/// `draw`, an arbitrary random number: the timeout is the low end plus `draw` reduced
/// modulo the width of the range.
pub fn election_timeout_ms(base: u64, draw: u64) -> (r: u64)
    requires
        base <= u64::MAX / 35,
    ensures
        r == base - base * 35 / 100 + (draw as int) % (2 * (base * 35 / 100) + 1),
        base - base * 35 / 100 <= r <= base + base * 35 / 100,
{
    let spread = base * 35 / 100;
    let width = 2 * spread + 1;
    assert(draw % width < width) by (nonlinear_arith)
        requires
            width > 0,
    ;
    base - spread + draw % width
}

impl RaftNode {
    /// Moves to Leader: one fresh progress record per other member, next index just past
    /// the leader's log and nothing known to be matched.
    fn become_leader(&mut self)
        requires
            old(self).wf(),
        ensures
            final(self).wf(),
            final(self).role == Role::Leader,
            final(self).leader_hint == Some(old(self).config.id),
            final(self).persistent == old(self).persistent,
            final(self).config == old(self).config,
            final(self).commit_index == old(self).commit_index,
            final(self).last_applied == old(self).last_applied,
            fresh_progress(
                final(self).progress@,
                old(self).config.peers@,
                old(self).config.id,
                old(self).log().len(),
            ),
    {
        let next = self.persistent.log.last_index() + 1;
        let mut progress: Vec<PeerProgress> = Vec::new();
        let mut i: usize = 0;
        let ghost peers = self.config.peers@;
        let ghost id = self.config.id;
        while i < self.config.peers.len()
            invariant
                peers == self.config.peers@,
                id == self.config.id,
                next == self.log().len() + 1,
                i <= peers.len(),
                progress@.len() == others(peers.subrange(0, i as int), id).len(),
                forall|k: int|
                    0 <= k < progress@.len() ==> #[trigger] progress@[k] == (PeerProgress {
                        peer: others(peers.subrange(0, i as int), id)[k],
                        next_index: next,
                        match_index: 0,
                    }),
            decreases self.config.peers.len() - i,
        {
            assert(peers.subrange(0, i + 1).drop_last() =~= peers.subrange(0, i as int));
            let p = self.config.peers[i];
            if p != self.config.id {
                progress.push(PeerProgress { peer: p, next_index: next, match_index: 0 });
            }
            i += 1;
        }
        assert(peers.subrange(0, peers.len() as int) =~= peers);
        self.progress = progress;
        self.votes = Vec::new();
        self.role = Role::Leader;
        self.leader_hint = Some(self.config.id);
    }

    /// On an election timeout a Follower or Candidate starts an election: it enters the next
    /// term, votes for itself and becomes Candidate (Leader at once when it alone is a
    /// majority), and returns the vote request to send to every other member. A Leader
    /// ignores the timeout, as does a node whose term can grow no further.
    pub fn on_election_timeout(&mut self) -> (r: Option<RequestVoteArgs>)
        requires
            old(self).wf(),
        ensures
            election_timeout_step(*old(self), *final(self), r),
    {
        if self.role == Role::Leader || self.persistent.current_term == u64::MAX {
            return None;
        }
        self.persistent.current_term = self.persistent.current_term + 1;
        self.persistent.voted_for = Some(self.config.id);
        self.role = Role::Candidate;
        self.leader_hint = None;
        self.progress = Vec::new();
        let mut votes: Vec<u64> = Vec::new();
        votes.push(self.config.id);
        self.votes = votes;
        proof {
            assert(self.votes@ =~= seq![self.config.id]);
            assert(self.config.peers@.contains(self.config.id));
            assert forall|v: u64| #[trigger] self.votes@.contains(v) implies self.config.peers@.contains(v) by {
                let k = choose|k: int| 0 <= k < self.votes@.len() && self.votes@[k] == v;
                assert(k == 0);
                assert(v == self.config.id);
            }
        }
        let args = RequestVoteArgs {
            term: self.persistent.current_term,
            candidate_id: self.config.id,
            last_log_index: self.persistent.log.last_index(),
            last_log_term: self.persistent.log.last_term(),
        };
        if 1 > self.config.peers.len() / 2 {
            self.become_leader();
        }
        Some(args)
    }

    /// Takes a reply to this node's vote request from member `from`. A newer term is adopted
    /// (stepping down). A vote granted in the current term while Candidate is counted once
    /// per member; on reaching a strict majority the node becomes Leader. Anything else,
    /// stale replies included, changes nothing.
    pub fn handle_vote_reply(&mut self, from: u64, reply: RequestVoteReply)
        requires
            old(self).wf(),
        ensures
            vote_reply_step(*old(self), *final(self), from, reply),
    {
        if reply.term > self.persistent.current_term {
            self.adopt_term(reply.term);
            return;
        }
        if reply.term < self.persistent.current_term || self.role != Role::Candidate
            || !reply.vote_granted {
            return;
        }
        if !contains_id(&self.config.peers, from) || contains_id(&self.votes, from) {
            return;
        }
        self.votes.push(from);
        proof {
            assert forall|v: u64| #[trigger] self.votes@.contains(v) implies self.config.peers@.contains(v) by {
                if v != from {
                    let k = choose|k: int| 0 <= k < self.votes@.len() && self.votes@[k] == v;
                    assert(old(self).votes@[k] == v);
                    assert(old(self).votes@.contains(v));
                }
            }
            assert forall|a: int, b: int|
                0 <= a < b < self.votes@.len() implies self.votes@[a] != self.votes@[b] by {
                if b == self.votes@.len() - 1 {
                    assert(old(self).votes@.contains(self.votes@[a]));
                }
            }
        }
        if self.votes.len() > self.config.peers.len() / 2 {
            self.become_leader();
        }
    }
}

/// The effect of `RaftNode::on_election_timeout`: `old` becomes `new` and returns `r`.
pub open spec fn election_timeout_step(
    old: RaftNode,
    new: RaftNode,
    r: Option<RequestVoteArgs>,
) -> bool {
    &&& new.wf()
    &&& new.config == old.config
    &&& new.log() == old.log()
    &&& new.commit_index == old.commit_index
    &&& new.last_applied == old.last_applied
    &&& (old.role == Role::Leader || old.term() == u64::MAX ==> r.is_none()
            && new == old)
    &&& (!(old.role == Role::Leader || old.term() == u64::MAX) ==> {
            &&& new.term() == old.term() + 1
            &&& new.persistent.voted_for == Some(old.config.id)
            &&& r == Some(
                RequestVoteArgs {
                    term: (old.term() + 1) as u64,
                    candidate_id: old.config.id,
                    last_log_index: old.log().len() as u64,
                    last_log_term: last_term_of(old.log()),
                },
            )
            &&& if is_majority(1, old.config.peers@.len() as int) {
                new.role == Role::Leader
            } else {
                new.role == Role::Candidate && new.votes@ == seq![
                    old.config.id,
                ]
            }
        })
    &&& (new.role == Role::Leader && old.role != Role::Leader ==> fresh_progress(
            new.progress@,
            old.config.peers@,
            old.config.id,
            old.log().len(),
        ))
}

/// The effect of `RaftNode::handle_vote_reply`: `old` takes `reply` from `from` and becomes
/// `new`.
pub open spec fn vote_reply_step(
    old: RaftNode,
    new: RaftNode,
    from: u64,
    reply: RequestVoteReply,
) -> bool {
    &&& new.wf()
    &&& new.config == old.config
    &&& new.log() == old.log()
    &&& new.commit_index == old.commit_index
    &&& new.last_applied == old.last_applied
    &&& (reply.term > old.term() ==> new.term() == reply.term
            && new.role == Role::Follower && new.persistent.voted_for.is_none())
    &&& (reply.term <= old.term() ==> new.persistent == old.persistent)
    &&& ({
            let counted = reply.term == old.term() && old.role == Role::Candidate
                && reply.vote_granted && old.config.peers@.contains(from)
                && !old.votes@.contains(from);
            &&& reply.term <= old.term() && !counted ==> new == old
            &&& counted && is_majority(
                (old.votes@.len() + 1) as int,
                old.config.peers@.len() as int,
            ) ==> new.role == Role::Leader
            &&& counted && !is_majority(
                (old.votes@.len() + 1) as int,
                old.config.peers@.len() as int,
            ) ==> new.role == Role::Candidate && new.votes@ == old.votes@.push(from)
        })
    &&& (new.role == Role::Leader && old.role != Role::Leader ==> fresh_progress(
            new.progress@,
            old.config.peers@,
            old.config.id,
            old.log().len(),
        ))
}

} // verus!
