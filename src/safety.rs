//! Cluster-wide safety arguments over the protocol's models.
use crate::log::{agrees_at, divergence_from, lemma_divergence_bounds, merged, EntryModel};
use crate::events::vote_outcome;
use crate::node::{at_least_as_up_to_date, is_majority, RaftNode};
use crate::log::{entries_model, last_term_of, term_at};
use crate::election::vote_reply_step;
use crate::node::{append_entries_step, Role};
use crate::transport::{AppendEntriesArgs, AppendEntriesReply, RequestVoteArgs, RequestVoteReply};
use vstd::prelude::*;
use vstd::set_lib::{lemma_len_subset, lemma_set_intersect_union_lens};

verus! {

/// Two logs agree wherever they agree on a term: if both hold an entry at a position with
/// the same term, they are identical up to and including that position.
pub open spec fn log_matching(a: Seq<EntryModel>, b: Seq<EntryModel>) -> bool {
    forall|i: int|
        0 <= i < a.len() && i < b.len() && #[trigger] a[i].0 == #[trigger] b[i].0 ==> a.subrange(
            0,
            i + 1,
        ) == b.subrange(0, i + 1)
}

/// Quorum intersection: two strict majorities of the same membership share a member,
/// which is returned.
pub proof fn lemma_quorums_intersect(members: Set<u64>, a: Set<u64>, b: Set<u64>) -> (m: u64)
    requires
        members.finite(),
        a.subset_of(members),
        b.subset_of(members),
        is_majority(a.len() as int, members.len() as int),
        is_majority(b.len() as int, members.len() as int),
    ensures
        a.contains(m),
        b.contains(m),
{
    lemma_len_subset(a, members);
    lemma_len_subset(b, members);
    lemma_set_intersect_union_lens(a, b);
    assert((a + b).subset_of(members));
    lemma_len_subset(a + b, members);
    let both = a.intersect(b);
    assert(both.len() > 0);
    if forall|x: u64| !both.contains(x) {
        assert(both =~= Set::<u64>::empty());
    }
    let m = choose|x: u64| both.contains(x);
    m
}

/// Election safety. Within one term every member grants its vote to at most one candidate:
/// `vote_of` maps each member that voted to the candidate it chose. A candidate becomes
/// Leader only with the votes of a strict majority of the members. So two Leaders of the
/// same term are the same node.
pub proof fn lemma_election_safety(
    members: Set<u64>,
    vote_of: Map<u64, u64>,
    leader1: u64,
    votes1: Set<u64>,
    leader2: u64,
    votes2: Set<u64>,
)
    requires
        members.finite(),
        votes1.subset_of(members),
        votes2.subset_of(members),
        forall|v: u64| #[trigger] votes1.contains(v) ==> vote_of.contains_key(v) && vote_of[v] == leader1,
        forall|v: u64| #[trigger] votes2.contains(v) ==> vote_of.contains_key(v) && vote_of[v] == leader2,
        is_majority(votes1.len() as int, members.len() as int),
        is_majority(votes2.len() as int, members.len() as int),
    ensures
        leader1 == leader2,
{
    let m = lemma_quorums_intersect(members, votes1, votes2);
    assert(vote_of[m] == leader1);
}

/// The quorum step of leader completeness: the members holding a committed entry form a
/// strict majority, as do the members that granted a later Leader its votes, so some
/// member both holds the entry and judged that Leader's log at least as up-to-date as its
/// own. The member is returned.
pub proof fn lemma_commit_quorum_meets_vote_quorum(
    members: Set<u64>,
    holders: Set<u64>,
    voters: Set<u64>,
) -> (m: u64)
    requires
        members.finite(),
        holders.subset_of(members),
        voters.subset_of(members),
        is_majority(holders.len() as int, members.len() as int),
        is_majority(voters.len() as int, members.len() as int),
    ensures
        holders.contains(m),
        voters.contains(m),
{
    lemma_quorums_intersect(members, holders, voters)
}

/// Log matching is kept by an accepted append. A follower whose log matches the leader's
/// and holds the leader's term at `prev` (or `prev` is 0) receives the leader's entries
/// `prev + 1 ..= prev + n` and merges them. Afterwards its log still matches the
/// leader's, and agrees with it on every position up to `prev + n`.
pub proof fn lemma_accepted_append_keeps_log_matching(
    leader: Seq<EntryModel>,
    follower: Seq<EntryModel>,
    prev: int,
    n: int,
)
    requires
        log_matching(leader, follower),
        0 <= prev <= follower.len(),
        0 <= n,
        prev + n <= leader.len(),
        prev == 0 || leader[prev - 1].0 == follower[prev - 1].0,
    ensures
        ({
            let after = merged(follower, prev, leader.subrange(prev, prev + n));
            &&& log_matching(leader, after)
            &&& after.len() >= prev + n
            &&& after.subrange(0, prev + n) == leader.subrange(0, prev + n)
        }),
{
    let es = leader.subrange(prev, prev + n);
    lemma_divergence_bounds(follower, prev, es, 0);
    let c = divergence_from(follower, prev, es, 0);
    // The follower agrees with the leader on its first prev + c entries.
    if c > 0 {
        let j = c - 1;
        assert(agrees_at(follower, prev, es, j));
        assert(follower[prev + j].0 == es[j].0);
        assert(leader[prev + j].0 == follower[prev + j].0);
        assert(leader.subrange(0, prev + c) == follower.subrange(0, prev + c));
    } else if prev > 0 {
        assert(leader.subrange(0, prev) == follower.subrange(0, prev));
    } else {
        assert(leader.subrange(0, 0) =~= follower.subrange(0, 0));
    }
    assert(leader.subrange(0, prev + c) == follower.subrange(0, prev + c));
    let after = merged(follower, prev, es);
    if c == n {
        assert(after == follower);
        assert(after.subrange(0, prev + n) =~= leader.subrange(0, prev + n));
    } else {
        assert(after =~= leader.subrange(0, prev + n));
        assert(after.subrange(0, prev + n) =~= leader.subrange(0, prev + n));
        assert forall|i: int|
            0 <= i < leader.len() && i < after.len() && #[trigger] leader[i].0
                == #[trigger] after[i].0 implies leader.subrange(0, i + 1) == after.subrange(
            0,
            i + 1,
        ) by {
            assert(leader.subrange(0, i + 1) =~= after.subrange(0, i + 1));
        }
    }
}

/// A node's vote rule gives at most one vote per term: once it has voted for `c` in its
/// current term, a request of that term is granted only to `c`. With this, the votes of a
/// term form the `vote_of` map of `lemma_election_safety`.
pub proof fn lemma_one_vote_per_term(n: RaftNode, c: u64, args: RequestVoteArgs)
    requires
        n.persistent.voted_for == Some(c),
        args.term == n.term(),
        vote_outcome(n, args).vote_granted,
    ensures
        args.candidate_id == c,
{
}

/// A vote is granted only to a candidate whose log is at least as up-to-date as the
/// voter's: the property the member found by `lemma_commit_quorum_meets_vote_quorum`
/// contributes to leader completeness.
pub proof fn lemma_granted_vote_needs_up_to_date_log(n: RaftNode, args: RequestVoteArgs)
    requires
        vote_outcome(n, args).vote_granted,
    ensures
        args.term >= n.term(),
        at_least_as_up_to_date(
            args.last_log_term,
            args.last_log_index,
            last_term_of(n.log()),
            n.log().len() as u64,
        ),
{
}

/// Log matching through a node's own append handling. A node whose log matches the
/// leader's log `leader` accepts an append request that carries the leader's entries
/// `prev + 1 ..= prev + n` and the leader's term at `prev`. Afterwards its log still
/// matches the leader's and agrees with it on every position up to `prev + n`.
pub proof fn lemma_append_step_keeps_log_matching(
    leader: Seq<EntryModel>,
    old: RaftNode,
    new: RaftNode,
    args: AppendEntriesArgs,
    rep: AppendEntriesReply,
)
    requires
        append_entries_step(old, new, args, rep),
        rep.success,
        log_matching(leader, old.log()),
        args.prev_log_index + args.entries@.len() <= leader.len(),
        entries_model(args.entries@) == leader.subrange(
            args.prev_log_index as int,
            args.prev_log_index + args.entries@.len(),
        ),
        args.prev_log_index == 0 || args.prev_log_term == leader[args.prev_log_index - 1].0,
    ensures
        log_matching(leader, new.log()),
        new.log().len() >= args.prev_log_index + args.entries@.len(),
        new.log().subrange(0, args.prev_log_index + args.entries@.len()) == leader.subrange(
            0,
            args.prev_log_index + args.entries@.len(),
        ),
{
    let prev = args.prev_log_index as int;
    let n = args.entries@.len() as int;
    if prev > 0 {
        assert(term_at(old.log(), prev) == Some(args.prev_log_term));
    }
    lemma_accepted_append_keeps_log_matching(leader, old.log(), prev, n);
}

/// A node becomes Leader on a vote reply only as a Candidate counting a granted vote of
/// its own term from a member not counted before, whose addition makes the distinct
/// members that voted for it a strict majority: the premise of `lemma_election_safety`.
pub proof fn lemma_leader_only_by_majority(old: RaftNode, new: RaftNode, from: u64, rep: RequestVoteReply)
    requires
        vote_reply_step(old, new, from, rep),
        old.role != Role::Leader,
        new.role == Role::Leader,
    ensures
        old.role == Role::Candidate,
        rep.term == old.term(),
        rep.vote_granted,
        old.config.peers@.contains(from),
        !old.votes@.contains(from),
        is_majority((old.votes@.len() + 1) as int, old.config.peers@.len() as int),
{
}

} // verus!
