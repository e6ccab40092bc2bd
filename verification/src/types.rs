use vstd::prelude::*;

verus! {

/// Opaque caller identity. The host environment supplies one per call; the
/// registry uses it only for equality comparison and set membership.
#[derive(Debug, Clone, PartialEq, Eq)]
pub struct CallerId {
    pub bytes: Vec<u8>,
}

impl View for CallerId {
    type V = Seq<u8>;

    open spec fn view(&self) -> Seq<u8> {
        self.bytes@
    }
}

/// The vote a caller casts on a proposal.
#[derive(Debug, Clone, Copy, PartialEq, Eq)]
pub enum Choice {
    Approve,
    Reject,
    Pass,
}

/// Errors surfaced by the mutating operations.
///
/// `ProposalIsNotActive` rejects an edit of a closed proposal, so
/// deactivation is never reversed. The vote path deliberately does not
/// check the flag: a closed proposal still counts late votes (documented on
/// `vote`).
#[derive(Debug, Clone, Copy, PartialEq, Eq)]
pub enum VoteError {
    AlreadyVoted,
    ProposalIsNotActive,
    NoSuchProposal,
    AccessRejected,
    UpdateError,
}

/// The stored record: a description, the three vote counters, the active
/// flag, the append-only set of callers who voted, and the immutable owner.
#[derive(Debug, Clone, PartialEq, Eq)]
pub struct Proposal {
    pub description: Vec<u8>,
    pub approve: u32,
    pub reject: u32,
    pub pass: u32,
    pub is_active: bool,
    pub voted: Vec<CallerId>,
    pub owner: CallerId,
}

/// Mathematical model of a stored record.
pub struct ProposalV {
    pub description: Seq<u8>,
    pub approve: nat,
    pub reject: nat,
    pub pass: nat,
    pub is_active: bool,
    pub voted: Seq<Seq<u8>>,
    pub owner: Seq<u8>,
}

pub open spec fn voters_view(s: Seq<CallerId>) -> Seq<Seq<u8>> {
    s.map_values(|c: CallerId| c@)
}

impl View for Proposal {
    type V = ProposalV;

    open spec fn view(&self) -> ProposalV {
        ProposalV {
            description: self.description@,
            approve: self.approve as nat,
            reject: self.reject as nat,
            pass: self.pass as nat,
            is_active: self.is_active,
            voted: voters_view(self.voted@),
            owner: self.owner@,
        }
    }
}

pub open spec fn distinct_voters(vs: Seq<Seq<u8>>) -> bool {
    forall|i: int, j: int| 0 <= i < j < vs.len() ==> vs[i] != vs[j]
}

/// The record `create_proposal` stores: counters at zero, nobody has voted,
/// the creating caller is the owner.
pub open spec fn fresh_proposal(description: Seq<u8>, owner: Seq<u8>, is_active: bool) -> ProposalV {
    ProposalV {
        description: description,
        approve: 0,
        reject: 0,
        pass: 0,
        is_active: is_active,
        voted: Seq::empty(),
        owner: owner,
    }
}

/// The record after a successful `edit_proposal`: description and active flag
/// replaced, everything else kept.
pub open spec fn with_edit(p: ProposalV, description: Seq<u8>, is_active: bool) -> ProposalV {
    ProposalV { description: description, is_active: is_active, ..p }
}

/// The record after a successful `end_proposal`.
pub open spec fn with_ended(p: ProposalV) -> ProposalV {
    ProposalV { is_active: false, ..p }
}

/// The record after a successful `vote`: exactly the chosen counter grows by
/// one and the voter joins the voted set.
pub open spec fn vote_step(p: ProposalV, voter: Seq<u8>, choice: Choice) -> ProposalV {
    match choice {
        Choice::Approve => ProposalV { approve: p.approve + 1, voted: p.voted.push(voter), ..p },
        Choice::Reject => ProposalV { reject: p.reject + 1, voted: p.voted.push(voter), ..p },
        Choice::Pass => ProposalV { pass: p.pass + 1, voted: p.voted.push(voter), ..p },
    }
}

/// Well-formedness of a stored record: it fits the storage bound, no caller
/// appears twice in the voted set, and each successful vote accounts for
/// exactly one counter increment.
pub open spec fn wf_proposal(p: ProposalV) -> bool {
    &&& crate::codec::encoded_len(p) <= crate::MAX_RECORD_BYTES
    &&& distinct_voters(p.voted)
    &&& p.approve + p.reject + p.pass == p.voted.len()
}

} // verus!
