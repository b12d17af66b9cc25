//! Leader-side replication: per-follower requests and progress, the commit index, client
//! commands, and the commit/apply pipeline.
use crate::log::{copy_bytes, entries_model, indexed_from, suffix_from, term_at, LogEntry};
use crate::node::{
    backtracked, is_majority, qualifies, recomputed, replicated_count, PeerProgress, RaftNode,
    Role,
};
use crate::transport::{AppendEntriesArgs, AppendEntriesReply};
use vstd::prelude::*;

verus! {

/// A count of records never exceeds the number of records.
proof fn lemma_replicated_count_bound(ps: Seq<PeerProgress>, n: int)
    ensures
        replicated_count(ps, n) <= ps.len(),
    decreases ps.len(),
{
    if ps.len() > 0 {
        lemma_replicated_count_bound(ps.drop_last(), n);
    }
}

/// Number of records in `ps` whose match index is at least `n`.
fn count_replicated(ps: &Vec<PeerProgress>, n: u64) -> (r: usize)
    ensures
        r == replicated_count(ps@, n as int),
{
    let mut c: usize = 0;
    let mut i: usize = 0;
    while i < ps.len()
        invariant
            i <= ps@.len(),
            c == replicated_count(ps@.subrange(0, i as int), n as int),
        decreases ps.len() - i,
    {
        proof {
            assert(ps@.subrange(0, i + 1).drop_last() =~= ps@.subrange(0, i as int));
            lemma_replicated_count_bound(ps@.subrange(0, i as int), n as int);
        }
        if ps[i].match_index >= n {
            c += 1;
        }
        i += 1;
    }
    assert(ps@.subrange(0, ps@.len() as int) =~= ps@);
    c
}

impl RaftNode {
    /// The request a leader sends to follower record `p`: everything from its next index.
    pub open spec fn request_for(&self, p: PeerProgress, a: AppendEntriesArgs) -> bool {
        &&& a.term == self.term()
        &&& a.leader_id == self.config.id
        &&& a.prev_log_index == p.next_index - 1
        &&& a.prev_log_term == match term_at(self.log(), p.next_index - 1) {
            Some(t) => t,
            None => 0,
        }
        &&& entries_model(a.entries@) == suffix_from(self.log(), p.next_index as int)
        &&& indexed_from(a.entries@, p.next_index as int)
        &&& a.leader_commit == self.commit_index
    }

    /// The append request for member `peer`, if this node is Leader and tracks that peer.
    pub fn append_request_for(&self, peer: u64) -> (r: Option<AppendEntriesArgs>)
        requires
            self.wf(),
        ensures
            r.is_some() <==> self.role == Role::Leader && exists|i: int|
                0 <= i < self.progress@.len() && #[trigger] self.progress@[i].peer == peer,
            r.is_some() ==> exists|i: int|
                0 <= i < self.progress@.len() && #[trigger] self.progress@[i].peer == peer
                    && self.request_for(self.progress@[i], r.unwrap()),
    {
        if self.role != Role::Leader {
            return None;
        }
        let mut i: usize = 0;
        while i < self.progress.len()
            invariant
                self.wf(),
                i <= self.progress@.len(),
                forall|k: int| 0 <= k < i ==> #[trigger] self.progress@[k].peer != peer,
            decreases self.progress.len() - i,
        {
            if self.progress[i].peer == peer {
                let a = self.request_from(i);
                return Some(a);
            }
            i += 1;
        }
        None
    }

    /// The request for progress record `i`.
    fn request_from(&self, i: usize) -> (r: AppendEntriesArgs)
        requires
            self.wf(),
            i < self.progress@.len(),
        ensures
            self.request_for(self.progress@[i as int], r),
    {
        let p = self.progress[i];
        let prev = p.next_index - 1;
        let prev_term = match self.persistent.log.term_at(prev) {
            Some(t) => t,
            None => 0,
        };
        AppendEntriesArgs {
            term: self.persistent.current_term,
            leader_id: self.config.id,
            prev_log_index: prev,
            prev_log_term: prev_term,
            entries: self.persistent.log.entries_from(p.next_index),
            leader_commit: self.commit_index,
        }
    }

    /// On a heartbeat timeout a Leader produces one append request per follower (carrying
    /// whatever each still lacks); other roles produce none.
    pub fn on_heartbeat_timeout(&self) -> (r: Vec<(u64, AppendEntriesArgs)>)
        requires
            self.wf(),
        ensures
            r@.len() == self.progress@.len(),
            forall|i: int|
                0 <= i < r@.len() ==> #[trigger] r@[i].0 == self.progress@[i].peer
                    && self.request_for(self.progress@[i], r@[i].1),
    {
        let mut out: Vec<(u64, AppendEntriesArgs)> = Vec::new();
        let mut i: usize = 0;
        while i < self.progress.len()
            invariant
                self.wf(),
                i <= self.progress@.len(),
                out@.len() == i,
                forall|k: int|
                    0 <= k < i ==> #[trigger] out@[k].0 == self.progress@[k].peer
                        && self.request_for(self.progress@[k], out@[k].1),
            decreases self.progress.len() - i,
        {
            let a = self.request_from(i);
            out.push((self.progress[i].peer, a));
            i += 1;
        }
        out
    }

    /// Raises the commit index to the highest index that qualifies, if above the current one.
    fn advance_commit(&mut self)
        requires
            old(self).wf(),
        ensures
            final(self).wf(),
            recomputed(
                old(self).log(),
                old(self).term(),
                old(self).progress@,
                old(self).config.peers@.len() as int,
                old(self).commit_index,
                final(self).commit_index,
            ),
            final(self).persistent == old(self).persistent,
            final(self).config == old(self).config,
            final(self).role == old(self).role,
            final(self).votes == old(self).votes,
            final(self).progress == old(self).progress,
            final(self).leader_hint == old(self).leader_hint,
            final(self).last_applied == old(self).last_applied,
    {
        let mut n = self.persistent.log.last_index();
        let half = self.config.peers.len() / 2;
        while n > self.commit_index
            invariant
                self.wf(),
                *self == *old(self),
                n <= self.log().len(),
                half == self.config.peers@.len() / 2,
                forall|k: int|
                    n < k <= self.log().len() ==> !qualifies(
                        self.log(),
                        self.term(),
                        self.progress@,
                        self.config.peers@.len() as int,
                        k,
                    ),
            decreases n,
        {
            let here = match self.persistent.log.term_at(n) {
                Some(t) => t == self.persistent.current_term,
                None => false,
            };
            let c = count_replicated(&self.progress, n);
            assert(c >= half <==> is_majority(1 + c as int, self.config.peers@.len() as int));
            if here && c >= half {
                self.commit_index = n;
                return;
            }
            n -= 1;
        }
    }

    /// Takes a follower's reply to append request `sent`. A newer term is adopted
    /// (stepping down). While Leader, for a reply in the current term to a request of the
    /// current term from a tracked peer: on success the peer's match index rises to the
    /// last index the request covered (never past the leader's log) and its next index
    /// follows, then the commit index is recomputed; on a mismatch the next index backs
    /// off. Anything else changes nothing.
    pub fn handle_append_reply(&mut self, peer: u64, sent: &AppendEntriesArgs, reply: AppendEntriesReply)
        requires
            old(self).wf(),
        ensures
            append_reply_step(*old(self), *final(self), peer, *sent, reply),
    {
        if reply.term > self.persistent.current_term {
            self.adopt_term(reply.term);
            return;
        }
        if reply.term < self.persistent.current_term || sent.term != self.persistent.current_term
            || self.role != Role::Leader {
            return;
        }
        let mut i: usize = 0;
        while i < self.progress.len()
            invariant
                self.wf(),
                *self == *old(self),
                reply.term == self.term(),
                sent.term == self.term(),
                self.role == Role::Leader,
                i <= self.progress@.len(),
                forall|k: int| 0 <= k < i ==> #[trigger] self.progress@[k].peer != peer,
            decreases self.progress.len() - i,
        {
            if self.progress[i].peer == peer {
                let last = self.persistent.log.last_index();
                let p = self.progress[i];
                assert(1 <= self.progress@[i as int].next_index);
                assert(p.match_index <= last && p.next_index >= 1);
                let np = if reply.success {
                    let covered = if sent.prev_log_index <= last && (sent.entries.len() as u64)
                        <= last - sent.prev_log_index {
                        sent.prev_log_index + sent.entries.len() as u64
                    } else {
                        last
                    };
                    let m = if covered > p.match_index {
                        covered
                    } else {
                        p.match_index
                    };
                    PeerProgress { peer: p.peer, next_index: m + 1, match_index: m }
                } else {
                    let next = if reply.match_hint < p.next_index - 1 {
                        reply.match_hint + 1
                    } else if p.next_index > 1 {
                        p.next_index - 1
                    } else {
                        1
                    };
                    PeerProgress { peer: p.peer, next_index: next, match_index: p.match_index }
                };
                self.progress.set(i, np);
                if reply.success {
                    self.advance_commit();
                }
                return;
            }
            i += 1;
        }
    }

    /// A follower record after a reply to `sent`: on success the match index becomes the
    /// larger of its old value and the last index `sent` covered (capped at the leader's
    /// log length `last`), with the next index just after it; on a mismatch the next index
    /// backs off.
    pub open spec fn progress_after(
        p: PeerProgress,
        sent: AppendEntriesArgs,
        reply: AppendEntriesReply,
        last: nat,
    ) -> PeerProgress {
        if reply.success {
            let covered = if sent.prev_log_index + sent.entries@.len() <= last {
                sent.prev_log_index + sent.entries@.len()
            } else {
                last as int
            };
            let m = if covered > p.match_index {
                covered
            } else {
                p.match_index as int
            };
            PeerProgress { peer: p.peer, next_index: (m + 1) as u64, match_index: m as u64 }
        } else {
            PeerProgress {
                peer: p.peer,
                next_index: backtracked(p.next_index, reply.match_hint),
                match_index: p.match_index,
            }
        }
    }

    /// A client command offered to this node. A Leader appends it to its log in the current
    /// term, recomputes the commit index (a single-member cluster commits at once) and
    /// returns the new entry's index. Any other role, or a log that can grow no further,
    /// refuses it with no change.
    pub fn client_cmd(&mut self, cmd: &[u8]) -> (r: Option<u64>)
        requires
            old(self).wf(),
        ensures
            client_cmd_step(*old(self), *final(self), cmd@, r),
    {
        if self.role != Role::Leader || self.persistent.log.last_index() >= u64::MAX - 2 {
            return None;
        }
        let data = copy_bytes(cmd);
        let index = self.persistent.log.append(self.persistent.current_term, data);
        self.advance_commit();
        Some(index)
    }

    /// The next committed entry for the state machine: the one just after the last applied
    /// index, once it is committed and present in the log.
    pub fn next_to_apply(&self) -> (r: Option<LogEntry>)
        requires
            self.wf(),
        ensures
            r.is_some() <==> self.last_applied < self.commit_index && self.last_applied
                < self.log().len(),
            r.is_some() ==> r.unwrap().index == self.last_applied + 1 && r.unwrap()@ == self.log()[self.last_applied as int],
    {
        if self.last_applied < self.commit_index {
            self.persistent.log.entry_at(self.last_applied + 1)
        } else {
            None
        }
    }

    /// Records that the state machine has applied entry `index`. Only the index just after
    /// the last applied one, and only once committed, is accepted: indices are applied one
    /// at a time, in order, never twice.
    pub fn mark_applied(&mut self, index: u64) -> (r: bool)
        requires
            old(self).wf(),
        ensures
            final(self).wf(),
            r == (index == old(self).last_applied + 1 && index <= old(self).commit_index),
            r ==> final(self).last_applied == index,
            !r ==> final(self).last_applied == old(self).last_applied,
            final(self).last_applied <= final(self).commit_index,
            *final(self) == (RaftNode { last_applied: final(self).last_applied, ..*old(self) }),
    {
        if self.last_applied < self.commit_index && index == self.last_applied + 1 {
            self.last_applied = index;
            true
        } else {
            false
        }
    }
}

/// The effect of `RaftNode::handle_append_reply`: the Leader `old` takes `reply` from `peer`
/// to request `sent` and becomes `new`.
pub open spec fn append_reply_step(
    old: RaftNode,
    new: RaftNode,
    peer: u64,
    sent: AppendEntriesArgs,
    reply: AppendEntriesReply,
) -> bool {
    &&& new.wf()
    &&& new.config == old.config
    &&& new.log() == old.log()
    &&& new.commit_index >= old.commit_index
    &&& new.last_applied == old.last_applied
    &&& (reply.term > old.term() ==> new.term() == reply.term
            && new.role == Role::Follower && new.persistent.voted_for.is_none()
            && new.commit_index == old.commit_index)
    &&& (reply.term <= old.term() ==> new.persistent == old.persistent
            && new.role == old.role)
    &&& (reply.term <= old.term() && !(reply.term == old.term() && sent.term
                == old.term() && old.role == Role::Leader) ==> new
            == old)
    &&& (reply.term == old.term() && sent.term == old.term() && old.role
            == Role::Leader ==> {
            ||| (forall|i: int|
                0 <= i < old.progress@.len() ==> #[trigger] old.progress@[i].peer
                    != peer) && new == old
            ||| exists|i: int|
            0 <= i < old.progress@.len() && #[trigger] old.progress@[i].peer
                == peer && (forall|j: int|
                0 <= j < i ==> #[trigger] old.progress@[j].peer != peer)
                && new.progress@ == old.progress@.update(
                i,
                RaftNode::progress_after(
                    old.progress@[i],
                    sent,
                    reply,
                    old.log().len(),
                ),
            ) && {
                let updated = old.progress@.update(
                    i,
                    RaftNode::progress_after(
                        old.progress@[i],
                        sent,
                        reply,
                        old.log().len(),
                    ),
                );
                if reply.success {
                    recomputed(
                        old.log(),
                        old.term(),
                        updated,
                        old.config.peers@.len() as int,
                        old.commit_index,
                        new.commit_index,
                    )
                } else {
                    new.commit_index == old.commit_index
                }
            }
        })
}

/// The effect of `RaftNode::client_cmd`: `old` takes command `cmd`, returns `r` and
/// becomes `new`.
pub open spec fn client_cmd_step(
    old: RaftNode,
    new: RaftNode,
    cmd: Seq<u8>,
    r: Option<u64>,
) -> bool {
    &&& new.wf()
    &&& new.config == old.config
    &&& new.role == old.role
    &&& new.term() == old.term()
    &&& new.persistent.voted_for == old.persistent.voted_for
    &&& new.last_applied == old.last_applied
    &&& new.progress == old.progress
    &&& new.commit_index >= old.commit_index
    &&& (old.role != Role::Leader || old.log().len() + 2 >= u64::MAX ==> r.is_none()
            && new == old)
    &&& (old.role == Role::Leader && old.log().len() + 2 < u64::MAX ==> {
            &&& new.log() == old.log().push((old.term(), cmd))
            &&& r == Some((old.log().len() + 1) as u64)
            &&& recomputed(
                new.log(),
                old.term(),
                old.progress@,
                old.config.peers@.len() as int,
                old.commit_index,
                new.commit_index,
            )
        })
}

} // verus!
