use raft_core::election::election_timeout_ms;
use raft_core::events::{RaftAction, RaftEvent, RaftStep};
use raft_core::node::{NodeConfig, PersistentState, RaftNode, Role};
use raft_core::log::RaftLog;
use raft_core::transport::{AppendEntriesArgs, RaftRpcResp, RequestVoteArgs};

fn config(id: u64, peers: &[u64]) -> NodeConfig {
    NodeConfig {
        id,
        peers: peers.to_vec(),
        base_election_timeout_ms: 300,
        heartbeat_timeout_ms: 50,
    }
}

fn cluster(peers: &[u64]) -> Vec<RaftNode> {
    peers.iter().map(|id| RaftNode::new(config(*id, peers), None)).collect()
}

fn cluster_at_term(peers: &[u64], term: u64) -> Vec<RaftNode> {
    peers
        .iter()
        .map(|id| {
            let p = PersistentState { current_term: term, voted_for: None, log: RaftLog::new() };
            RaftNode::new(config(*id, peers), Some(p))
        })
        .collect()
}

fn pos(nodes: &[RaftNode], id: u64) -> usize {
    nodes.iter().position(|n| n.config.id == id).unwrap()
}

fn start_election(nodes: &mut [RaftNode], id: u64) -> RequestVoteArgs {
    let i = pos(nodes, id);
    match nodes[i].handle_event(RaftEvent::ElectionTimeout).action {
        RaftAction::RequestVotes(a) => a,
        other => panic!("no vote request: {:?}", other),
    }
}

/// Delivers the vote request to `voters` and the replies back; returns how many granted
/// and the action taken on the last reply.
fn collect_votes(nodes: &mut [RaftNode], args: &RequestVoteArgs, voters: &[u64]) -> (usize, Vec<RaftAction>) {
    let c = pos(nodes, args.candidate_id);
    let mut granted = 0;
    let mut actions = Vec::new();
    for v in voters {
        let i = pos(nodes, *v);
        let reply = match nodes[i].handle_event(RaftEvent::RequestVoteHandle(args.clone())).action {
            RaftAction::Reply(RaftRpcResp::RequestVoteResp(r)) => r,
            other => panic!("unexpected action {:?}", other),
        };
        if reply.vote_granted {
            granted += 1;
        }
        actions.push(nodes[c].handle_event(RaftEvent::VoteReplied(*v, reply)).action);
    }
    (granted, actions)
}

/// Sends the leader's append request to `peer` and hands the reply back.
fn replicate(nodes: &mut [RaftNode], leader: u64, peer: u64) {
    let l = pos(nodes, leader);
    let args: AppendEntriesArgs = nodes[l].append_request_for(peer).unwrap();
    let f = pos(nodes, peer);
    let reply = match nodes[f].handle_event(RaftEvent::AppendEntriesHandle(args.clone())).action {
        RaftAction::Reply(RaftRpcResp::AppendEntriesResp(r)) => r,
        other => panic!("unexpected action {:?}", other),
    };
    nodes[l].handle_event(RaftEvent::AppendReplied(peer, args, reply)).action;
}

fn leaders_of_term(nodes: &[RaftNode], term: u64) -> Vec<u64> {
    nodes
        .iter()
        .filter(|n| n.role == Role::Leader && n.persistent.current_term == term)
        .map(|n| n.config.id)
        .collect()
}

#[test]
fn three_nodes_elect_one_leader_for_term_one() {
    let mut nodes = cluster(&[1, 2, 3]);
    assert!(nodes.iter().all(|n| n.role == Role::Follower));
    let args = start_election(&mut nodes, 1);
    assert_eq!(args.term, 1);
    let (granted, actions) = collect_votes(&mut nodes, &args, &[2, 3]);
    assert!(granted + 1 >= 2);
    assert_eq!(leaders_of_term(&nodes, 1), vec![1]);
    // The node sends heartbeats as soon as it becomes Leader.
    assert!(actions.iter().any(|a| matches!(a, RaftAction::SendAppends(v) if v.len() == 2)));
    assert_eq!(nodes[1].leader_hint, None);
}

fn elected_three_node_cluster() -> Vec<RaftNode> {
    let mut nodes = cluster(&[1, 2, 3]);
    let args = start_election(&mut nodes, 1);
    collect_votes(&mut nodes, &args, &[2, 3]);
    nodes
}

#[test]
fn commit_after_replication_to_one_follower() {
    let mut nodes = elected_three_node_cluster();
    assert_eq!(nodes[0].client_cmd(b"x=1"), Some(1));
    assert_eq!(nodes[0].commit_index, 0);
    replicate(&mut nodes, 1, 2);
    assert_eq!(nodes[0].commit_index, 1);
    assert_eq!(nodes[0].progress.iter().find(|p| p.peer == 2).unwrap().match_index, 1);
    assert_eq!(nodes[1].persistent.log.entry_at(1).unwrap().data, b"x=1".to_vec());
    assert_eq!(nodes[1].leader_hint, Some(1));
    // The partitioned third node never saw the entry.
    assert_eq!(nodes[2].persistent.log.last_index(), 0);
    // Followers learn the commit index from the next request.
    replicate(&mut nodes, 1, 2);
    assert_eq!(nodes[1].commit_index, 1);
}

#[test]
fn new_leader_keeps_committed_entry_after_crash() {
    let mut nodes = elected_three_node_cluster();
    nodes[0].client_cmd(b"x=1");
    replicate(&mut nodes, 1, 2);
    assert_eq!(nodes[0].commit_index, 1);
    assert_eq!(nodes[0].client_cmd(b"x=2"), Some(2));
    // The leader crashes: only nodes 2 and 3 remain.
    let mut rest: Vec<RaftNode> = nodes.drain(1..).collect();
    // Node 3 times out first but its log is behind node 2's: no vote from node 2.
    let a3 = start_election(&mut rest, 3);
    let (granted, _) = collect_votes(&mut rest, &a3, &[2]);
    assert_eq!(granted, 0);
    assert!(leaders_of_term(&rest, a3.term).is_empty());
    // Node 2 then wins.
    let a2 = start_election(&mut rest, 2);
    let (granted, _) = collect_votes(&mut rest, &a2, &[3]);
    assert_eq!(granted, 1);
    assert_eq!(leaders_of_term(&rest, a2.term), vec![2]);
    let leader = &rest[0];
    let e = leader.persistent.log.entry_at(1).unwrap();
    assert_eq!((e.term, e.data.clone()), (1, b"x=1".to_vec()));
    assert_eq!(leader.persistent.log.last_index(), 1);
}

#[test]
fn split_vote_then_single_leader_in_next_term() {
    let peers = [1, 2, 3, 4, 5];
    let mut nodes = cluster_at_term(&peers, 1);
    let a1 = start_election(&mut nodes, 1);
    let a2 = start_election(&mut nodes, 2);
    assert_eq!((a1.term, a2.term), (2, 2));
    // Node 3 votes for 1, node 4 for 2, node 5 hears neither in time.
    let (g1, _) = collect_votes(&mut nodes, &a1, &[3]);
    let (g2, _) = collect_votes(&mut nodes, &a2, &[4]);
    assert_eq!((g1, g2), (1, 1));
    // Requests reaching members that already voted are refused.
    let (late1, _) = collect_votes(&mut nodes, &a1, &[4, 2]);
    let (late2, _) = collect_votes(&mut nodes, &a2, &[3, 1]);
    assert_eq!((late1, late2), (0, 0));
    assert!(leaders_of_term(&nodes, 2).is_empty());
    // Timeouts are drawn afresh; the shortest fires first.
    let t1 = election_timeout_ms(300, 17);
    let t2 = election_timeout_ms(300, 140);
    assert!(t1 < t2);
    assert!((195..=405).contains(&t1) && (195..=405).contains(&t2));
    let a = start_election(&mut nodes, 1);
    assert_eq!(a.term, 3);
    collect_votes(&mut nodes, &a, &[2, 3, 4, 5]);
    assert_eq!(leaders_of_term(&nodes, 3), vec![1]);
    let b = start_election(&mut nodes, 2);
    assert_eq!(b.term, 4);
    assert_eq!(leaders_of_term(&nodes, 3), vec![1]);
}

#[test]
fn single_member_cluster_leads_and_commits_alone() {
    let mut nodes = cluster(&[7]);
    match nodes[0].handle_event(RaftEvent::ElectionTimeout).action {
        RaftAction::RequestVotes(a) => assert_eq!(a.term, 1),
        other => panic!("{:?}", other),
    }
    assert_eq!(nodes[0].role, Role::Leader);
    assert_eq!(nodes[0].client_cmd(b"k"), Some(1));
    assert_eq!(nodes[0].commit_index, 1);
}

#[test]
fn leader_ignores_election_timeout() {
    let mut nodes = elected_three_node_cluster();
    assert!(matches!(nodes[0].handle_event(RaftEvent::ElectionTimeout).action, RaftAction::Nothing));
    assert_eq!(nodes[0].persistent.current_term, 1);
}

#[test]
fn shutdown_stops() {
    let mut nodes = cluster(&[1, 2, 3]);
    assert!(matches!(nodes[0].handle_event(RaftEvent::ShutdownSignal).action, RaftAction::Stop));
}

#[test]
fn client_command_event_sends_appends() {
    let mut nodes = elected_three_node_cluster();
    match nodes[0].handle_event(RaftEvent::ClientCommand(b"x=1".to_vec())).action {
        RaftAction::SendAppends(v) => {
            assert_eq!(v.len(), 2);
            assert_eq!(v[0].1.entries.len(), 1);
            assert_eq!(v[0].1.entries[0].data, b"x=1".to_vec());
        }
        other => panic!("{:?}", other),
    }
    assert!(matches!(
        nodes[1].handle_event(RaftEvent::ClientCommand(b"y".to_vec())).action,
        RaftAction::Nothing
    ));
    assert_eq!(nodes[1].persistent.log.last_index(), 0);
}

#[test]
fn restart_resumes_after_applied_watermark() {
    let mut log = RaftLog::new();
    log.append(1, b"a".to_vec());
    log.append(1, b"b".to_vec());
    let saved = PersistentState { current_term: 1, voted_for: Some(1), log };
    let mut n = RaftNode::resume(config(2, &[1, 2, 3]), saved, 1).unwrap();
    assert_eq!((n.commit_index, n.last_applied), (1, 1));
    assert!(n.next_to_apply().is_none());
    assert!(!n.mark_applied(1));
    let beyond = PersistentState { current_term: 1, voted_for: None, log: RaftLog::new() };
    assert!(RaftNode::resume(config(2, &[1, 2, 3]), beyond, 1).is_none());
}

#[test]
fn election_timer_resets_on_role_change_heartbeat_and_grant() {
    let mut nodes = cluster(&[1, 2, 3]);
    let step: RaftStep = nodes[0].handle_event(RaftEvent::ElectionTimeout);
    assert!(step.reset_election_timer);
    let args = match step.action {
        RaftAction::RequestVotes(a) => a,
        other => panic!("{:?}", other),
    };
    let granted = nodes[1].handle_event(RaftEvent::RequestVoteHandle(args.clone()));
    assert!(granted.reset_election_timer);
    // A second request of the same term from another candidate is refused: no reset.
    let other = RequestVoteArgs { candidate_id: 3, ..args.clone() };
    assert!(!nodes[1].handle_event(RaftEvent::RequestVoteHandle(other)).reset_election_timer);
    // Becoming Leader does not restart the election timer.
    let r = match granted.action {
        RaftAction::Reply(RaftRpcResp::RequestVoteResp(r)) => r,
        other => panic!("{:?}", other),
    };
    let became = nodes[0].handle_event(RaftEvent::VoteReplied(2, r));
    assert_eq!(nodes[0].role, Role::Leader);
    assert!(!became.reset_election_timer);
    // A heartbeat from the Leader restarts a follower's timer, a stale one does not.
    let hb = nodes[0].append_request_for(3).unwrap();
    assert!(nodes[2].handle_event(RaftEvent::AppendEntriesHandle(hb.clone())).reset_election_timer);
    let stale = AppendEntriesArgs { term: 0, ..hb };
    assert!(!nodes[2].handle_event(RaftEvent::AppendEntriesHandle(stale)).reset_election_timer);
    // A Leader stepping down on a newer term restarts it.
    let newer = RaftEvent::VoteReplied(3, raft_core::transport::RequestVoteReply { term: 5, vote_granted: false });
    assert!(nodes[0].handle_event(newer).reset_election_timer);
    assert_eq!(nodes[0].role, Role::Follower);
}

#[test]
fn failed_save_undoes_the_step() {
    let mut nodes = cluster(&[1, 2, 3]);
    let before = nodes[0].clone();
    let step = nodes[0].handle_event(RaftEvent::ElectionTimeout);
    assert!(RaftNode::persistent_changed(&before, &nodes[0]));
    let settled = nodes[0].settle_save(before, step, false);
    assert!(matches!(settled.action, RaftAction::Nothing));
    assert!(!settled.reset_election_timer);
    assert_eq!((nodes[0].role, nodes[0].persistent.current_term), (Role::Follower, 0));
    let before = nodes[0].clone();
    let step = nodes[0].handle_event(RaftEvent::ElectionTimeout);
    let settled = nodes[0].settle_save(before, step, true);
    assert!(matches!(settled.action, RaftAction::RequestVotes(_)));
    assert_eq!((nodes[0].role, nodes[0].persistent.current_term), (Role::Candidate, 1));
    let same = nodes[0].clone();
    assert!(!RaftNode::persistent_changed(&same, &nodes[0]));
}
