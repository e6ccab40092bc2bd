use vstd::prelude::*;
use crate::codec::{encoded_len, encoded_size_checked, lemma_voted_bytes_bounds, voted_bytes};
use crate::store::ProposalStore;
use crate::types::{
    CallerId, Choice, Proposal, ProposalV, VoteError, distinct_voters, fresh_proposal, vote_step,
    voters_view, wf_proposal, with_edit, with_ended,
};

verus! {

// The proposal service: each operation is a function of the store's records,
// the caller's identity and the arguments, stated below as a spec-level
// transition that the executable operation is proved to follow exactly.

/// What `get_proposal` returns over a record map.
pub open spec fn lookup(m: Map<u64, ProposalV>, key: u64) -> Option<ProposalV> {
    if m.contains_key(key) {
        Some(m[key])
    } else {
        None
    }
}

pub open spec fn opt_record_view(r: Option<Proposal>) -> Option<ProposalV> {
    match r {
        Some(p) => Some(p@),
        None => None,
    }
}

/// The `create_proposal` transition: stores a fresh record owned by the
/// caller, overwriting and returning any record the key already held.
pub open spec fn create_result(
    m: Map<u64, ProposalV>,
    caller: Seq<u8>,
    key: u64,
    description: Seq<u8>,
    is_active: bool,
) -> (Map<u64, ProposalV>, Option<ProposalV>) {
    (m.insert(key, fresh_proposal(description, caller, is_active)), lookup(m, key))
}

/// The `edit_proposal` transition: owner-only replacement of description and
/// active flag; rejected when the key is absent, the caller is not the
/// owner, the proposal is closed (`ProposalIsNotActive` — deactivation is
/// one-way, so a closed proposal is never edited back to active), or the
/// edited record would exceed the storage bound.
pub open spec fn edit_result(
    m: Map<u64, ProposalV>,
    caller: Seq<u8>,
    key: u64,
    description: Seq<u8>,
    is_active: bool,
) -> (Map<u64, ProposalV>, Result<(), VoteError>) {
    if !m.contains_key(key) {
        (m, Err(VoteError::NoSuchProposal))
    } else if m[key].owner != caller {
        (m, Err(VoteError::AccessRejected))
    } else if !m[key].is_active {
        (m, Err(VoteError::ProposalIsNotActive))
    } else if encoded_len(with_edit(m[key], description, is_active)) > crate::MAX_RECORD_BYTES {
        (m, Err(VoteError::UpdateError))
    } else {
        (m.insert(key, with_edit(m[key], description, is_active)), Ok(()))
    }
}

/// The `end_proposal` transition: owner-only deactivation.
pub open spec fn end_result(m: Map<u64, ProposalV>, caller: Seq<u8>, key: u64) -> (
    Map<u64, ProposalV>,
    Result<(), VoteError>,
) {
    if !m.contains_key(key) {
        (m, Err(VoteError::NoSuchProposal))
    } else if m[key].owner != caller {
        (m, Err(VoteError::AccessRejected))
    } else {
        (m.insert(key, with_ended(m[key])), Ok(()))
    }
}

/// The `vote` transition: one vote per caller per proposal. A vote on a
/// closed proposal is still counted: this registry deliberately does not
/// check the active flag on the vote path, so `vote` never returns
/// `ProposalIsNotActive`.
pub open spec fn vote_result(
    m: Map<u64, ProposalV>,
    caller: Seq<u8>,
    key: u64,
    choice: Choice,
) -> (Map<u64, ProposalV>, Result<(), VoteError>) {
    if !m.contains_key(key) {
        (m, Err(VoteError::NoSuchProposal))
    } else if m[key].voted.contains(caller) {
        (m, Err(VoteError::AlreadyVoted))
    } else if encoded_len(vote_step(m[key], caller, choice)) > crate::MAX_RECORD_BYTES {
        (m, Err(VoteError::UpdateError))
    } else {
        (m.insert(key, vote_step(m[key], caller, choice)), Ok(()))
    }
}

/// A well-formed record keeps every counter at or below the voter count,
/// which the storage bound keeps far below the counter width.
pub proof fn lemma_wf_counter_bound(p: ProposalV)
    requires
        wf_proposal(p),
    ensures
        p.voted.len() <= 2490,
        p.approve <= p.voted.len(),
        p.reject <= p.voted.len(),
        p.pass <= p.voted.len(),
{
    lemma_voted_bytes_bounds(p.voted);
}

proof fn lemma_distinct_push(vs: Seq<Seq<u8>>, v: Seq<u8>)
    requires
        distinct_voters(vs),
        !vs.contains(v),
    ensures
        distinct_voters(vs.push(v)),
{
    assert forall|i: int, j: int| 0 <= i < j < vs.push(v).len() implies vs.push(v)[i] != vs.push(
        v,
    )[j] by {
        if j == vs.len() {
            assert(vs.push(v)[i] == vs[i]);
            assert(vs[i] != v);
        } else {
            assert(vs.push(v)[i] == vs[i] && vs.push(v)[j] == vs[j]);
        }
    }
}

fn bytes_eq(a: &Vec<u8>, b: &Vec<u8>) -> (r: bool)
    ensures
        r == (a@ == b@),
{
    if a.len() != b.len() {
        return false;
    }
    let n = a.len();
    let mut i: usize = 0;
    while i < n
        invariant
            i <= n,
            n == a@.len(),
            n == b@.len(),
            forall|j: int| 0 <= j < i ==> a@[j] == b@[j],
        decreases n - i,
    {
        if a[i] != b[i] {
            return false;
        }
        i = i + 1;
    }
    proof {
        assert(a@ =~= b@);
    }
    true
}

fn has_voted(voted: &Vec<CallerId>, c: &CallerId) -> (r: bool)
    ensures
        r == voters_view(voted@).contains(c@),
{
    let n = voted.len();
    let mut i: usize = 0;
    while i < n
        invariant
            i <= n,
            n == voted@.len(),
            forall|j: int| 0 <= j < i ==> voters_view(voted@)[j] != c@,
        decreases n - i,
    {
        if bytes_eq(&voted[i].bytes, &c.bytes) {
            proof {
                assert(voters_view(voted@)[i as int] == c@);
            }
            return true;
        }
        i = i + 1;
    }
    proof {
        assert forall|j: int| 0 <= j < voters_view(voted@).len() implies voters_view(voted@)[j]
            != c@ by {}
    }
    false
}

/// Read a proposal: the stored record, or `None` when none was ever created
/// at the key.
pub fn get_proposal(store: &ProposalStore, key: u64) -> (r: Option<Proposal>)
    requires
        store.wf(),
    ensures
        opt_record_view(r) == lookup(store@, key),
{
    store.get(key)
}

/// How many proposals the registry holds.
pub fn get_proposal_count(store: &ProposalStore) -> (n: u64)
    requires
        store.wf(),
    ensures
        n as nat == store@.len(),
{
    store.count()
}

/// Whether a record freshly created from this description and caller fits
/// the storage bound — the precondition of `create_proposal`.
pub fn create_fits(description: &Vec<u8>, caller: &CallerId) -> (r: bool)
    ensures
        forall|a: bool| r == (encoded_len(fresh_proposal(description@, caller@, a))
            <= crate::MAX_RECORD_BYTES),
{
    proof {
        assert(voted_bytes(Seq::<Seq<u8>>::empty()) == 0);
    }
    description.len() <= crate::MAX_RECORD_BYTES - 19 && caller.bytes.len()
        <= crate::MAX_RECORD_BYTES - 19 - description.len()
}

/// Create (or overwrite) the proposal at `key`: the caller becomes owner,
/// counters start at zero, nobody has voted. Returns the record the key held
/// before, if any — reusing a key deliberately overwrites, with no ownership
/// check; callers must treat keys as theirs to manage.
pub fn create_proposal(
    store: &mut ProposalStore,
    caller: CallerId,
    key: u64,
    description: Vec<u8>,
    is_active: bool,
) -> (prev: Option<Proposal>)
    requires
        old(store).wf(),
        encoded_len(fresh_proposal(description@, caller@, is_active)) <= crate::MAX_RECORD_BYTES,
    ensures
        final(store).wf(),
        final(store)@ == create_result(old(store)@, caller@, key, description@, is_active).0,
        opt_record_view(prev) == create_result(old(store)@, caller@, key, description@,
            is_active,
        ).1,
{
    let record = Proposal {
        description: description,
        approve: 0,
        reject: 0,
        pass: 0,
        is_active: is_active,
        voted: Vec::new(),
        owner: caller,
    };
    proof {
        assert(voters_view(record.voted@) =~= Seq::<Seq<u8>>::empty());
        assert(record@ == fresh_proposal(description@, caller@, is_active));
    }
    store.put(key, record)
}

/// Owner-only edit of description and active flag. A closed proposal is
/// rejected with `ProposalIsNotActive`: the active flag moves from true to
/// false only, never back.
pub fn edit_proposal(
    store: &mut ProposalStore,
    caller: &CallerId,
    key: u64,
    description: Vec<u8>,
    is_active: bool,
) -> (r: Result<(), VoteError>)
    requires
        old(store).wf(),
    ensures
        final(store).wf(),
        final(store)@ == edit_result(old(store)@, caller@, key, description@, is_active).0,
        r == edit_result(old(store)@, caller@, key, description@, is_active).1,
{
    let current = match store.get(key) {
        None => {
            return Err(VoteError::NoSuchProposal);
        },
        Some(p) => p,
    };
    if !bytes_eq(&current.owner.bytes, &caller.bytes) {
        return Err(VoteError::AccessRejected);
    }
    if !current.is_active {
        return Err(VoteError::ProposalIsNotActive);
    }
    let ghost gp = current@;
    let mut record = current;
    record.description = description;
    record.is_active = is_active;
    proof {
        assert(record@ == with_edit(gp, description@, is_active));
    }
    match encoded_size_checked(&record) {
        None => Err(VoteError::UpdateError),
        Some(_) => {
            let _ = store.put(key, record);
            Ok(())
        },
    }
}

/// Owner-only deactivation. An ended proposal never exceeds the storage
/// bound (the encoding does not grow), so this cannot fail once the caller
/// owns the record.
pub fn end_proposal(store: &mut ProposalStore, caller: &CallerId, key: u64) -> (r: Result<
    (),
    VoteError,
>)
    requires
        old(store).wf(),
    ensures
        final(store).wf(),
        final(store)@ == end_result(old(store)@, caller@, key).0,
        r == end_result(old(store)@, caller@, key).1,
{
    let current = match store.get(key) {
        None => {
            return Err(VoteError::NoSuchProposal);
        },
        Some(p) => p,
    };
    if !bytes_eq(&current.owner.bytes, &caller.bytes) {
        return Err(VoteError::AccessRejected);
    }
    let ghost gp = current@;
    let mut record = current;
    record.is_active = false;
    proof {
        assert(record@ == with_ended(gp));
    }
    let _ = store.put(key, record);
    Ok(())
}

/// Cast a vote: once per caller per proposal, growing exactly the chosen
/// counter. The active flag is deliberately not checked on this path, so a
/// closed proposal still counts late votes and `vote` never returns
/// `ProposalIsNotActive`.
pub fn vote(store: &mut ProposalStore, caller: CallerId, key: u64, choice: Choice) -> (r: Result<
    (),
    VoteError,
>)
    requires
        old(store).wf(),
    ensures
        final(store).wf(),
        final(store)@ == vote_result(old(store)@, caller@, key, choice).0,
        r == vote_result(old(store)@, caller@, key, choice).1,
{
    let current = match store.get(key) {
        None => {
            return Err(VoteError::NoSuchProposal);
        },
        Some(p) => p,
    };
    if has_voted(&current.voted, &caller) {
        return Err(VoteError::AlreadyVoted);
    }
    let ghost gp = current@;
    proof {
        lemma_wf_counter_bound(gp);
    }
    let mut record = current;
    match choice {
        Choice::Approve => {
            record.approve = record.approve + 1;
        },
        Choice::Reject => {
            record.reject = record.reject + 1;
        },
        Choice::Pass => {
            record.pass = record.pass + 1;
        },
    }
    let ghost gcaller = caller@;
    record.voted.push(caller);
    proof {
        assert(voters_view(record.voted@) =~= gp.voted.push(gcaller));
        assert(record@ == vote_step(gp, gcaller, choice));
    }
    match encoded_size_checked(&record) {
        None => Err(VoteError::UpdateError),
        Some(_) => {
            proof {
                lemma_distinct_push(gp.voted, gcaller);
            }
            let _ = store.put(key, record);
            Ok(())
        },
    }
}

} // verus!
