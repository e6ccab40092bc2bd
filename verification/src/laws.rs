use vstd::prelude::*;
use crate::codec::{encoded_len, lemma_voted_bytes_push};
use crate::service::{create_result, edit_result, end_result, lookup, vote_result};
use crate::types::{Choice, ProposalV, VoteError, fresh_proposal, vote_step};

verus! {

// The registry's laws, each proved from the spec-level transitions that the
// executable operations are proved to follow.

/// Reading a key right after creating a proposal under it yields a record
/// owned by the creating caller with every counter at zero and nobody in the
/// voted set.
pub proof fn lemma_create_yields_fresh(
    m: Map<u64, ProposalV>,
    caller: Seq<u8>,
    key: u64,
    description: Seq<u8>,
    is_active: bool,
)
    ensures
        ({
            let m2 = create_result(m, caller, key, description, is_active).0;
            &&& lookup(m2, key) == Some(fresh_proposal(description, caller, is_active))
            &&& m2[key].owner == caller
            &&& m2[key].approve == 0
            &&& m2[key].reject == 0
            &&& m2[key].pass == 0
            &&& m2[key].voted.len() == 0
            &&& m2[key].description == description
            &&& m2[key].is_active == is_active
        }),
{
}

/// A key never created reads as empty, and every mutating operation on it
/// reports `NoSuchProposal` and changes nothing.
pub proof fn lemma_missing_key_rejected(
    m: Map<u64, ProposalV>,
    caller: Seq<u8>,
    key: u64,
    description: Seq<u8>,
    is_active: bool,
    choice: Choice,
)
    requires
        !m.contains_key(key),
    ensures
        lookup(m, key) is None,
        edit_result(m, caller, key, description, is_active) == (
            m,
            Err::<(), VoteError>(VoteError::NoSuchProposal),
        ),
        end_result(m, caller, key) == (m, Err::<(), VoteError>(VoteError::NoSuchProposal)),
        vote_result(m, caller, key, choice) == (
            m,
            Err::<(), VoteError>(VoteError::NoSuchProposal),
        ),
{
}

/// Reads are idempotent: with no mutation in between, two lookups of the
/// same key give the same answer.
pub proof fn lemma_reads_idempotent(
    m: Map<u64, ProposalV>,
    key: u64,
    r1: Option<ProposalV>,
    r2: Option<ProposalV>,
)
    requires
        r1 == lookup(m, key),
        r2 == lookup(m, key),
    ensures
        r1 == r2,
{
}

/// Vote exclusivity: after a caller's vote succeeds, any further vote by the
/// same caller on that proposal returns `AlreadyVoted` and leaves every
/// record — counters included — unchanged.
pub proof fn lemma_vote_exclusive(
    m: Map<u64, ProposalV>,
    caller: Seq<u8>,
    key: u64,
    first: Choice,
    second: Choice,
)
    requires
        vote_result(m, caller, key, first).1 is Ok,
    ensures
        ({
            let m2 = vote_result(m, caller, key, first).0;
            vote_result(m2, caller, key, second) == (
                m2,
                Err::<(), VoteError>(VoteError::AlreadyVoted),
            )
        }),
{
    let m2 = vote_result(m, caller, key, first).0;
    assert(m2[key].voted == m[key].voted.push(caller));
    assert(m2[key].voted[m[key].voted.len() as int] == caller);
    assert(m2[key].voted.contains(caller));
}

/// Ownership enforcement: `edit_proposal` and `end_proposal` from a caller
/// other than the owner return `AccessRejected` and modify nothing.
pub proof fn lemma_ownership_enforced(
    m: Map<u64, ProposalV>,
    caller: Seq<u8>,
    key: u64,
    description: Seq<u8>,
    is_active: bool,
)
    requires
        m.contains_key(key),
        m[key].owner != caller,
    ensures
        edit_result(m, caller, key, description, is_active) == (
            m,
            Err::<(), VoteError>(VoteError::AccessRejected),
        ),
        end_result(m, caller, key) == (m, Err::<(), VoteError>(VoteError::AccessRejected)),
{
}

/// How many of a sequence of votes pick a given choice.
pub open spec fn count_choice(votes: Seq<(Seq<u8>, Choice)>, c: Choice) -> nat
    decreases votes.len(),
{
    if votes.len() == 0 {
        0
    } else {
        (if votes[0].1 == c {
            1nat
        } else {
            0nat
        }) + count_choice(votes.drop_first(), c)
    }
}

/// A record after a sequence of successful votes.
pub open spec fn apply_votes(p: ProposalV, votes: Seq<(Seq<u8>, Choice)>) -> ProposalV
    decreases votes.len(),
{
    if votes.len() == 0 {
        p
    } else {
        apply_votes(vote_step(p, votes[0].0, votes[0].1), votes.drop_first())
    }
}

/// Counter conservation: after a sequence of successful votes, each counter
/// has grown by exactly the number of votes that picked it, and the voted
/// set by one entry per vote — so counts of a Approve, r Reject and p Pass
/// votes from distinct new callers leave approve == a, reject == r,
/// pass == p and len(voted) grown by a + r + p.
pub proof fn lemma_counter_conservation(p: ProposalV, votes: Seq<(Seq<u8>, Choice)>)
    ensures
        ({
            let q = apply_votes(p, votes);
            &&& q.approve == p.approve + count_choice(votes, Choice::Approve)
            &&& q.reject == p.reject + count_choice(votes, Choice::Reject)
            &&& q.pass == p.pass + count_choice(votes, Choice::Pass)
            &&& q.voted.len() == p.voted.len() + votes.len()
            &&& q.owner == p.owner
            &&& q.is_active == p.is_active
        }),
    decreases votes.len(),
{
    if votes.len() != 0 {
        lemma_counter_conservation(vote_step(p, votes[0].0, votes[0].1), votes.drop_first());
    }
}

/// One vote grows the encoding by the voter's footprint and nothing else.
proof fn lemma_vote_step_len(p: ProposalV, voter: Seq<u8>, choice: Choice)
    ensures
        encoded_len(vote_step(p, voter, choice)) == encoded_len(p) + 2 + voter.len(),
{
    lemma_voted_bytes_push(p.voted, voter);
}

/// A sequence of votes never shrinks the encoding.
proof fn lemma_apply_votes_len(p: ProposalV, votes: Seq<(Seq<u8>, Choice)>)
    ensures
        encoded_len(apply_votes(p, votes)) >= encoded_len(p),
    decreases votes.len(),
{
    if votes.len() != 0 {
        lemma_vote_step_len(p, votes[0].0, votes[0].1);
        lemma_apply_votes_len(vote_step(p, votes[0].0, votes[0].1), votes.drop_first());
    }
}

/// Folding the `vote` transition over a sequence of votes on one key.
pub open spec fn apply_vote_results(
    m: Map<u64, ProposalV>,
    key: u64,
    votes: Seq<(Seq<u8>, Choice)>,
) -> Map<u64, ProposalV>
    decreases votes.len(),
{
    if votes.len() == 0 {
        m
    } else {
        apply_vote_results(vote_result(m, votes[0].0, key, votes[0].1).0, key, votes.drop_first())
    }
}

/// Votes compose: when distinct callers, none of whom has voted on the
/// record yet, vote in turn, and the record grown by all of them still fits
/// the storage bound, every one of those votes takes effect, and the stored
/// record is the fold of the single-vote step — whose counters
/// `lemma_counter_conservation` pins to the per-choice counts.
pub proof fn lemma_votes_compose(m: Map<u64, ProposalV>, key: u64, votes: Seq<(Seq<u8>, Choice)>)
    requires
        m.contains_key(key),
        forall|i: int, j: int| 0 <= i < j < votes.len() ==> votes[i].0 != votes[j].0,
        forall|i: int| 0 <= i < votes.len() ==> !m[key].voted.contains(#[trigger] votes[i].0),
        encoded_len(apply_votes(m[key], votes)) <= crate::MAX_RECORD_BYTES,
    ensures
        apply_vote_results(m, key, votes) == m.insert(key, apply_votes(m[key], votes)),
    decreases votes.len(),
{
    if votes.len() == 0 {
        assert(m =~= m.insert(key, m[key]));
    } else {
        let voter = votes[0].0;
        let choice = votes[0].1;
        let rest = votes.drop_first();
        let stepped = vote_step(m[key], voter, choice);
        lemma_vote_step_len(m[key], voter, choice);
        lemma_apply_votes_len(stepped, rest);
        assert(vote_result(m, voter, key, choice).1 is Ok);
        let m2 = m.insert(key, stepped);
        assert(vote_result(m, voter, key, choice).0 == m2);
        assert forall|i: int| 0 <= i < rest.len() implies !m2[key].voted.contains(
            #[trigger] rest[i].0,
        ) by {
            assert(rest[i] == votes[i + 1]);
            if m2[key].voted.contains(rest[i].0) {
                let j = choose|j: int|
                    0 <= j < m2[key].voted.len() && m2[key].voted[j] == rest[i].0;
                if j < m[key].voted.len() {
                    assert(m[key].voted.contains(rest[i].0));
                } else {
                    assert(m2[key].voted[j] == voter);
                }
            }
        }
        lemma_votes_compose(m2, key, rest);
        assert(apply_votes(m[key], votes) == apply_votes(stepped, rest));
        assert(m2.insert(key, apply_votes(stepped, rest)) =~= m.insert(
            key,
            apply_votes(m[key], votes),
        ));
    }
}

/// A successful `end_proposal` deactivates the record and touches nothing
/// else of it.
pub proof fn lemma_end_deactivates(m: Map<u64, ProposalV>, caller: Seq<u8>, key: u64)
    requires
        end_result(m, caller, key).1 is Ok,
    ensures
        ({
            let m2 = end_result(m, caller, key).0;
            &&& m2.contains_key(key)
            &&& !m2[key].is_active
            &&& m2[key].owner == m[key].owner
            &&& m2[key].description == m[key].description
            &&& m2[key].voted == m[key].voted
        }),
{
}

/// Editing a closed proposal is rejected outright — even its owner, asking
/// for any flag value, gets `ProposalIsNotActive` and changes nothing — so
/// no edit ever moves the active flag from false back to true.
pub proof fn lemma_no_reactivation_by_edit(
    m: Map<u64, ProposalV>,
    caller: Seq<u8>,
    key: u64,
    description: Seq<u8>,
    is_active: bool,
)
    requires
        m.contains_key(key),
        !m[key].is_active,
        m[key].owner == caller,
    ensures
        edit_result(m, caller, key, description, is_active) == (
            m,
            Err::<(), VoteError>(VoteError::ProposalIsNotActive),
        ),
{
}

/// Monotonic deactivation: once a record is inactive, every vote, end and
/// edit — on any key, with any arguments — leaves it inactive, and so does
/// any create under another key. (Re-creating the same key is the one
/// remaining way its record starts active again: create deliberately
/// overwrites, and callers must treat keys as theirs to manage.)
pub proof fn lemma_deactivation_monotone(m: Map<u64, ProposalV>, key: u64)
    requires
        m.contains_key(key),
        !m[key].is_active,
    ensures
        forall|c: Seq<u8>, k: u64, ch: Choice|
            {
                let m2 = (#[trigger] vote_result(m, c, k, ch)).0;
                m2.contains_key(key) && !m2[key].is_active
            },
        forall|c: Seq<u8>, k: u64|
            {
                let m2 = (#[trigger] end_result(m, c, k)).0;
                m2.contains_key(key) && !m2[key].is_active
            },
        forall|c: Seq<u8>, k: u64, d: Seq<u8>, a: bool|
            {
                let m2 = (#[trigger] edit_result(m, c, k, d, a)).0;
                m2.contains_key(key) && !m2[key].is_active
            },
        forall|c: Seq<u8>, k: u64, d: Seq<u8>, a: bool|
            k != key ==> {
                let m2 = (#[trigger] create_result(m, c, k, d, a)).0;
                m2.contains_key(key) && !m2[key].is_active
            },
{
}

} // verus!

