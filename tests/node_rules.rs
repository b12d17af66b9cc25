use raft_core::log::{LogEntry, RaftLog};
use raft_core::election::election_timeout_ms;
use raft_core::node::{NodeConfig, PeerProgress, PersistentState, RaftNode, Role};
use raft_core::transport::{
    AppendEntriesArgs, AppendEntriesReply, InProcessTransport, RaftRpcReq, RequestVoteArgs,
    RequestVoteReply,
};

fn config(id: u64, peers: &[u64]) -> NodeConfig {
    NodeConfig { id, peers: peers.to_vec(), base_election_timeout_ms: 300, heartbeat_timeout_ms: 50 }
}

fn node_with(id: u64, peers: &[u64], term: u64, terms: &[u64]) -> RaftNode {
    let mut log = RaftLog::new();
    for t in terms {
        log.append(*t, vec![*t as u8]);
    }
    let p = PersistentState { current_term: term, voted_for: None, log };
    RaftNode::new(config(id, peers), Some(p))
}

fn append_args(term: u64, prev: u64, prev_term: u64, terms: &[u64], commit: u64) -> AppendEntriesArgs {
    AppendEntriesArgs {
        term,
        leader_id: 1,
        prev_log_index: prev,
        prev_log_term: prev_term,
        entries: terms
            .iter()
            .enumerate()
            .map(|(k, t)| LogEntry { term: *t, index: prev + 1 + k as u64, data: vec![9] })
            .collect(),
        leader_commit: commit,
    }
}

fn vote_args(term: u64, cand: u64, last_index: u64, last_term: u64) -> RequestVoteArgs {
    RequestVoteArgs { term, candidate_id: cand, last_log_index: last_index, last_log_term: last_term }
}

#[test]
fn stale_vote_request_is_refused_without_change() {
    let mut n = node_with(2, &[1, 2, 3], 5, &[]);
    let r = n.handle_request_vote(&vote_args(4, 1, 0, 0));
    assert_eq!(r, RequestVoteReply { term: 5, vote_granted: false });
    assert_eq!(n.persistent.current_term, 5);
    assert_eq!(n.persistent.voted_for, None);
}

#[test]
fn newer_term_resets_vote_and_grants() {
    let mut n = node_with(2, &[1, 2, 3], 5, &[1]);
    n.persistent.voted_for = Some(3);
    let r = n.handle_request_vote(&vote_args(6, 1, 1, 1));
    assert_eq!(r, RequestVoteReply { term: 6, vote_granted: true });
    assert_eq!(n.persistent.voted_for, Some(1));
    assert_eq!(n.persistent.current_term, 6);
}

#[test]
fn vote_refused_to_less_up_to_date_log() {
    let mut n = node_with(2, &[1, 2, 3], 3, &[1, 2]);
    // Same last term, shorter log.
    assert!(!n.handle_request_vote(&vote_args(4, 1, 1, 2)).vote_granted);
    // Higher last term wins even when shorter.
    assert!(n.handle_request_vote(&vote_args(4, 3, 1, 3)).vote_granted);
    // A second candidate in the same term is refused; the first may ask again.
    assert!(!n.handle_request_vote(&vote_args(4, 1, 9, 9)).vote_granted);
    assert!(n.handle_request_vote(&vote_args(4, 3, 1, 3)).vote_granted);
}

#[test]
fn stale_append_is_refused_with_current_term() {
    let mut n = node_with(2, &[1, 2, 3], 3, &[1]);
    let r = n.handle_append_entries(&append_args(2, 0, 0, &[2], 1));
    assert_eq!(r, AppendEntriesReply { term: 3, success: false, match_hint: 1 });
    assert_eq!(n.persistent.log.last_index(), 1);
}

#[test]
fn append_mismatch_reports_hint() {
    let mut n = node_with(2, &[1, 2, 3], 1, &[1]);
    let r = n.handle_append_entries(&append_args(2, 4, 2, &[2], 0));
    assert_eq!(r, AppendEntriesReply { term: 2, success: false, match_hint: 1 });
    let r = n.handle_append_entries(&append_args(2, 1, 2, &[2], 0));
    assert_eq!(r, AppendEntriesReply { term: 2, success: false, match_hint: 0 });
    assert_eq!(n.role, Role::Follower);
    assert_eq!(n.leader_hint, Some(1));
}

#[test]
fn candidate_steps_down_on_append_of_same_term() {
    let mut n = node_with(2, &[1, 2, 3], 1, &[]);
    n.on_election_timeout();
    assert_eq!((n.role, n.persistent.current_term), (Role::Candidate, 2));
    let r = n.handle_append_entries(&append_args(2, 0, 0, &[2], 0));
    assert!(r.success);
    assert_eq!(n.role, Role::Follower);
    assert_eq!(n.persistent.voted_for, Some(2));
}

#[test]
fn follower_commit_is_min_of_leader_commit_and_last_new() {
    let mut n = node_with(2, &[1, 2, 3], 1, &[]);
    let r = n.handle_append_entries(&append_args(1, 0, 0, &[1, 1], 5));
    assert_eq!(r, AppendEntriesReply { term: 1, success: true, match_hint: 2 });
    assert_eq!(n.commit_index, 2);
    // A lower leader commit never lowers it.
    n.handle_append_entries(&append_args(1, 0, 0, &[], 1));
    assert_eq!(n.commit_index, 2);
}

fn leader_of_three(terms: &[u64], term: u64) -> RaftNode {
    let mut n = node_with(1, &[1, 2, 3], term - 1, terms);
    n.on_election_timeout();
    n.handle_vote_reply(2, RequestVoteReply { term, vote_granted: true });
    assert_eq!(n.role, Role::Leader);
    n
}

#[test]
fn leader_progress_starts_past_its_log() {
    let n = leader_of_three(&[1, 1], 2);
    assert_eq!(
        n.progress,
        vec![
            PeerProgress { peer: 2, next_index: 3, match_index: 0 },
            PeerProgress { peer: 3, next_index: 3, match_index: 0 },
        ]
    );
    let hb = n.on_heartbeat_timeout();
    assert_eq!(hb.len(), 2);
    assert_eq!((hb[0].0, hb[0].1.prev_log_index, hb[0].1.prev_log_term), (2, 2, 1));
    assert!(hb[0].1.entries.is_empty());
}

#[test]
fn mismatch_reply_backs_off_next_index() {
    let mut n = leader_of_three(&[1, 1, 1, 1], 2);
    let sent = n.append_request_for(2).unwrap();
    assert_eq!(sent.prev_log_index, 4);
    n.handle_append_reply(2, &sent, AppendEntriesReply { term: 2, success: false, match_hint: 3 });
    assert_eq!(n.progress[0].next_index, 4);
    n.handle_append_reply(2, &sent, AppendEntriesReply { term: 2, success: false, match_hint: 0 });
    assert_eq!(n.progress[0].next_index, 1);
    n.handle_append_reply(2, &sent, AppendEntriesReply { term: 2, success: false, match_hint: 0 });
    assert_eq!(n.progress[0].next_index, 1);
    let again = n.append_request_for(2).unwrap();
    assert_eq!((again.prev_log_index, again.entries.len()), (0, 4));
}

#[test]
fn old_term_entries_are_not_committed_by_count_alone() {
    let mut n = leader_of_three(&[1], 2);
    let sent = n.append_request_for(2).unwrap();
    n.handle_append_reply(2, &sent, AppendEntriesReply { term: 2, success: true, match_hint: 1 });
    assert_eq!(n.progress[0].match_index, 1);
    assert_eq!(n.commit_index, 0);
    n.client_cmd(b"now");
    let sent = n.append_request_for(2).unwrap();
    n.handle_append_reply(2, &sent, AppendEntriesReply { term: 2, success: true, match_hint: 2 });
    assert_eq!(n.commit_index, 2);
}

#[test]
fn newer_term_in_reply_forces_step_down() {
    let mut n = leader_of_three(&[], 2);
    let sent = n.append_request_for(3).unwrap();
    n.handle_append_reply(3, &sent, AppendEntriesReply { term: 7, success: false, match_hint: 0 });
    assert_eq!((n.role, n.persistent.current_term), (Role::Follower, 7));
    assert!(n.progress.is_empty());
    assert_eq!(n.client_cmd(b"x"), None);
}

#[test]
fn votes_counted_once_per_member() {
    let mut n = node_with(1, &[1, 2, 3, 4, 5], 0, &[]);
    n.on_election_timeout();
    n.handle_vote_reply(2, RequestVoteReply { term: 1, vote_granted: true });
    n.handle_vote_reply(2, RequestVoteReply { term: 1, vote_granted: true });
    n.handle_vote_reply(9, RequestVoteReply { term: 1, vote_granted: true });
    n.handle_vote_reply(3, RequestVoteReply { term: 0, vote_granted: true });
    assert_eq!(n.role, Role::Candidate);
    assert_eq!(n.votes, vec![1, 2]);
    n.handle_vote_reply(3, RequestVoteReply { term: 1, vote_granted: true });
    assert_eq!(n.role, Role::Leader);
}

#[test]
fn apply_runs_in_order_once() {
    let mut n = node_with(2, &[1, 2, 3], 1, &[]);
    n.handle_append_entries(&append_args(1, 0, 0, &[1, 1, 1], 2));
    assert_eq!(n.next_to_apply().unwrap().index, 1);
    assert!(!n.mark_applied(2));
    assert!(n.mark_applied(1));
    assert!(!n.mark_applied(1));
    assert_eq!(n.next_to_apply().unwrap().index, 2);
    assert!(n.mark_applied(2));
    assert!(n.next_to_apply().is_none());
    assert!(!n.mark_applied(3));
    assert_eq!(n.last_applied, 2);
}

#[test]
fn election_timeout_range() {
    assert_eq!(election_timeout_ms(300, 0), 195);
    assert_eq!(election_timeout_ms(300, 210), 405);
    assert_eq!(election_timeout_ms(300, 211), 195);
    assert_eq!(election_timeout_ms(100, 5), 70);
    assert_eq!(election_timeout_ms(0, 99), 0);
}

#[test]
fn mailbox_delivers_oldest_first_per_destination() {
    let mut t = InProcessTransport::new();
    let v = |term| RaftRpcReq::RequestVoteReq(RequestVoteArgs {
        term,
        candidate_id: 1,
        last_log_index: 0,
        last_log_term: 0,
    });
    t.send_rpc(2, v(1));
    t.send_rpc(3, v(2));
    t.send_rpc(2, v(3));
    assert_eq!(t.recv_rpc(3), Some(v(2)));
    assert_eq!(t.recv_rpc(2), Some(v(1)));
    assert_eq!(t.recv_rpc(2), Some(v(3)));
    assert_eq!(t.recv_rpc(2), None);
    assert_eq!(t.pending_count(), 0);
}

#[test]
fn accepted_append_makes_follower_match_leader_prefix() {
    let mut f = node_with(2, &[1, 2, 3], 3, &[1, 3, 3, 3]);
    let r = f.handle_append_entries(&append_args(4, 1, 1, &[1, 2], 0));
    assert!(r.success);
    let terms: Vec<u64> = (1..=f.persistent.log.last_index()).map(|i| f.persistent.log.term_at(i).unwrap()).collect();
    assert_eq!(terms, vec![1, 1, 2]);
}

#[test]
fn append_that_would_drop_committed_entries_is_refused() {
    let mut f = node_with(2, &[1, 2, 3], 1, &[]);
    f.handle_append_entries(&append_args(1, 0, 0, &[1, 1, 1], 2));
    assert_eq!(f.commit_index, 2);
    // Conflicts at index 2, which is committed.
    let r = f.handle_append_entries(&append_args(2, 1, 1, &[2], 2));
    assert!(!r.success);
    assert_eq!(f.persistent.log.last_index_term(), (3, 1));
    // Conflicting only past the commit index is accepted.
    let r = f.handle_append_entries(&append_args(2, 2, 1, &[2], 2));
    assert!(r.success);
    assert_eq!(f.persistent.log.last_index_term(), (3, 2));
}
