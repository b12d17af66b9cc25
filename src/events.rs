//! The single entry point of a node: one event in, one action for the runtime out.
use crate::log::{last_term_of, term_at};
use crate::election::{election_timeout_step, vote_reply_step};
use crate::node::{
    accepts_append, append_entries_step, at_least_as_up_to_date, mismatch_hint, request_vote_step, RaftNode, Role,
};
use crate::replication::{append_reply_step, client_cmd_step};
use crate::transport::{
    AppendEntriesArgs, AppendEntriesReply, RaftRpcResp, RequestVoteArgs, RequestVoteReply,
};
use vstd::prelude::*;

verus! {

/// The reply `n` gives to vote request `args` (see `RaftNode::handle_request_vote`).
pub open spec fn vote_outcome(n: RaftNode, args: RequestVoteArgs) -> RequestVoteReply {
    if args.term < n.term() {
        RequestVoteReply { term: n.term(), vote_granted: false }
    } else {
        let prior = if args.term > n.term() {
            None
        } else {
            n.persistent.voted_for
        };
        RequestVoteReply {
            term: args.term,
            vote_granted: (prior.is_none() || prior == Some(args.candidate_id))
                && at_least_as_up_to_date(
                args.last_log_term,
                args.last_log_index,
                last_term_of(n.log()),
                n.log().len() as u64,
            ),
        }
    }
}

/// The reply `n` gives to append request `args` (see `RaftNode::handle_append_entries`).
pub open spec fn append_outcome(n: RaftNode, args: AppendEntriesArgs) -> AppendEntriesReply {
    if args.term < n.term() {
        AppendEntriesReply { term: n.term(), success: false, match_hint: n.log().len() as u64 }
    } else {
        let prev = args.prev_log_index;
        if accepts_append(n, args) {
            AppendEntriesReply {
                term: args.term,
                success: true,
                match_hint: (prev + args.entries@.len()) as u64,
            }
        } else {
            AppendEntriesReply {
                term: args.term,
                success: false,
                match_hint: mismatch_hint(n.log().len() as int, prev),
            }
        }
    }
}

/// `v` holds one append request per follower record of `n`, in order.
pub open spec fn heartbeats_of(n: RaftNode, v: Seq<(u64, AppendEntriesArgs)>) -> bool {
    &&& v.len() == n.progress@.len()
    &&& forall|i: int|
        0 <= i < v.len() ==> #[trigger] v[i].0 == n.progress@[i].peer && n.request_for(
            n.progress@[i],
            v[i].1,
        )
}

/// Something that happened to a node: a timer fired, a request arrived, a reply came back
/// to a request it sent, or it was told to stop.
#[derive(Clone, Debug)]
pub enum RaftEvent {
    HeartbeatTimeout,
    ElectionTimeout,
    AppendEntriesHandle(AppendEntriesArgs),
    RequestVoteHandle(RequestVoteArgs),
    /// A vote reply from the member given.
    VoteReplied(u64, RequestVoteReply),
    /// A reply from the member given to the append request given.
    AppendReplied(u64, AppendEntriesArgs, AppendEntriesReply),
    /// A command from a client, to be appended if this node leads.
    ClientCommand(Vec<u8>),
    ShutdownSignal,
}

/// What the runtime must do after a node handled an event. Persistent state must be saved
/// before any reply or request is sent.
#[derive(Clone, Debug)]
pub enum RaftAction {
    Nothing,
    /// Answer the request that was handled.
    Reply(RaftRpcResp),
    /// Send this vote request to every other member.
    RequestVotes(RequestVoteArgs),
    /// Send each request to the member it is paired with.
    SendAppends(Vec<(u64, AppendEntriesArgs)>),
    /// Stop handling events.
    Stop,
}

/// What a node asks of the runtime after one event.
#[derive(Clone, Debug)]
pub struct RaftStep {
    pub action: RaftAction,
    /// Whether the election timeout must be drawn afresh and restarted.
    pub reset_election_timer: bool,
}

/// The vote request inside an action, if it is one.
pub open spec fn vote_request_of(a: RaftAction) -> Option<RequestVoteArgs> {
    match a {
        RaftAction::RequestVotes(v) => Some(v),
        _ => None,
    }
}

/// When the election timer restarts with a fresh random timeout: on every transition into
/// Follower or Candidate (a new role, or a new term outside leadership), on an append
/// request from a current Leader, and on granting a vote.
pub open spec fn resets_election_timer(old: RaftNode, new: RaftNode, event: RaftEvent) -> bool {
    ||| new.role != Role::Leader && (new.role != old.role || new.term() != old.term())
    ||| (event matches RaftEvent::AppendEntriesHandle(a) && a.term >= old.term())
    ||| (event matches RaftEvent::RequestVoteHandle(a) && vote_outcome(old, a).vote_granted)
}

/// Whether two node states differ in what must be saved: term, vote or log.
pub open spec fn persistent_differs(a: RaftNode, b: RaftNode) -> bool {
    !(a.term() == b.term() && a.persistent.voted_for == b.persistent.voted_for && a.log()
        == b.log())
}

impl RaftNode {
    /// Handles one event and says what the runtime must do next. A timer, a request, a
    /// reply or a client command goes to its handler, whose whole effect on the node holds
    /// here too; a node that has just become Leader, or a Leader that has just taken a
    /// command, sends append requests to every follower at once; a shutdown stops the node
    /// with no change. The step also says whether the election timer restarts.
    pub fn handle_event(&mut self, event: RaftEvent) -> (r: RaftStep)
        requires
            old(self).wf(),
        ensures
            final(self).wf(),
            final(self).config == old(self).config,
            final(self).commit_index >= old(self).commit_index,
            final(self).last_applied == old(self).last_applied,
            r.reset_election_timer == resets_election_timer(*old(self), *final(self), event),
            match event {
                RaftEvent::ShutdownSignal => r.action is Stop && *final(self) == *old(self),
                RaftEvent::HeartbeatTimeout => *final(self) == *old(self) && (
                r.action matches RaftAction::SendAppends(v) && heartbeats_of(*old(self), v@)),
                RaftEvent::ElectionTimeout => election_timeout_step(
                    *old(self),
                    *final(self),
                    vote_request_of(r.action),
                ) && (r.action is RequestVotes || r.action is Nothing),
                RaftEvent::RequestVoteHandle(a) => r.action matches RaftAction::Reply(
                    RaftRpcResp::RequestVoteResp(rep),
                ) && request_vote_step(*old(self), *final(self), a, rep),
                RaftEvent::AppendEntriesHandle(a) => r.action matches RaftAction::Reply(
                    RaftRpcResp::AppendEntriesResp(rep),
                ) && append_entries_step(*old(self), *final(self), a, rep),
                RaftEvent::VoteReplied(from, rep) => vote_reply_step(
                    *old(self),
                    *final(self),
                    from,
                    rep,
                ) && if old(self).role != Role::Leader && final(self).role == Role::Leader {
                    r.action matches RaftAction::SendAppends(v) && heartbeats_of(*final(self), v@)
                } else {
                    r.action is Nothing
                },
                RaftEvent::AppendReplied(peer, sent, rep) => append_reply_step(
                    *old(self),
                    *final(self),
                    peer,
                    sent,
                    rep,
                ) && r.action is Nothing,
                RaftEvent::ClientCommand(cmd) => {
                    let taken = old(self).role == Role::Leader && old(self).log().len() + 2
                        < u64::MAX;
                    &&& client_cmd_step(
                        *old(self),
                        *final(self),
                        cmd@,
                        if taken {
                            Some((old(self).log().len() + 1) as u64)
                        } else {
                            None
                        },
                    )
                    &&& taken ==> (r.action matches RaftAction::SendAppends(v) && heartbeats_of(
                        *final(self),
                        v@,
                    ))
                    &&& !taken ==> r.action is Nothing
                },
            },
    {
        let ghost before = *self;
        let old_role = self.role;
        let old_term = self.persistent.current_term;
        let heard_leader = match &event {
            RaftEvent::AppendEntriesHandle(a) => a.term >= old_term,
            _ => false,
        };
        let mut granted = false;
        let action = match event {
            RaftEvent::ShutdownSignal => RaftAction::Stop,
            RaftEvent::HeartbeatTimeout => RaftAction::SendAppends(self.on_heartbeat_timeout()),
            RaftEvent::ElectionTimeout => match self.on_election_timeout() {
                Some(a) => RaftAction::RequestVotes(a),
                None => RaftAction::Nothing,
            },
            RaftEvent::RequestVoteHandle(a) => {
                let reply = self.handle_request_vote(&a);
                granted = reply.vote_granted;
                RaftAction::Reply(RaftRpcResp::RequestVoteResp(reply))
            },
            RaftEvent::AppendEntriesHandle(a) => {
                let reply = self.handle_append_entries(&a);
                RaftAction::Reply(RaftRpcResp::AppendEntriesResp(reply))
            },
            RaftEvent::VoteReplied(from, reply) => {
                self.handle_vote_reply(from, reply);
                if old_role != Role::Leader && self.role == Role::Leader {
                    RaftAction::SendAppends(self.on_heartbeat_timeout())
                } else {
                    RaftAction::Nothing
                }
            },
            RaftEvent::AppendReplied(peer, sent, reply) => {
                self.handle_append_reply(peer, &sent, reply);
                RaftAction::Nothing
            },
            RaftEvent::ClientCommand(cmd) => match self.client_cmd(cmd.as_slice()) {
                Some(_) => RaftAction::SendAppends(self.on_heartbeat_timeout()),
                None => RaftAction::Nothing,
            },
        };
        let reset = (self.role != Role::Leader && (self.role != old_role
            || self.persistent.current_term != old_term)) || heard_leader || granted;
        RaftStep { action, reset_election_timer: reset }
    }

    /// Whether `after` differs from `before` in what must be saved: term, vote or log.
    pub fn persistent_changed(before: &RaftNode, after: &RaftNode) -> (r: bool)
        requires
            before.wf(),
            after.wf(),
        ensures
            r == persistent_differs(*before, *after),
    {
        !(before.persistent.current_term == after.persistent.current_term
            && before.persistent.voted_for == after.persistent.voted_for
            && before.persistent.log.same_entries(&after.persistent.log))
    }

    /// Settles a step once the runtime has tried to save the state it produced. `saved`
    /// says the save succeeded or none was needed; then the step stands. Otherwise the node
    /// goes back to `before` and does nothing, so no vote, entry or leadership rests on
    /// state that was not saved.
    pub fn settle_save(&mut self, before: RaftNode, step: RaftStep, saved: bool) -> (r: RaftStep)
        requires
            old(self).wf(),
            before.wf(),
        ensures
            final(self).wf(),
            saved ==> *final(self) == *old(self) && r == step,
            !saved ==> *final(self) == before && r.action is Nothing && !r.reset_election_timer,
    {
        if saved {
            step
        } else {
            *self = before;
            RaftStep { action: RaftAction::Nothing, reset_election_timer: false }
        }
    }
}

} // verus!
