use vstd::prelude::*;
use crate::codec::{
    decode_proposal, encode_proposal, lemma_round_trip, lemma_size_implies_fits, spec_decode,
};
use crate::stable::{
    StableByteMap, stable_contents, stable_map_get, stable_map_insert, stable_map_len,
    stable_map_new,
};
use crate::types::{Proposal, ProposalV, VoteError, wf_proposal};

verus! {

/// The record store: a stable-structures map from 64-bit keys to encoded
/// records, over a region created fresh for the store (re-opening a region a
/// host preserved across a restart is the host's wiring, outside these
/// contracts). Every stored byte string is the exact encoding of a
/// well-formed record, so reads always decode.
pub struct ProposalStore {
    pub map: StableByteMap,
}

impl View for ProposalStore {
    type V = Map<u64, ProposalV>;

    /// The records the store holds, as models.
    open spec fn view(&self) -> Map<u64, ProposalV> {
        Map::new(
            |k: u64| stable_contents(self.map).dom().contains(k),
            |k: u64| spec_decode(stable_contents(self.map)[k])->Some_0,
        )
    }
}

impl ProposalStore {
    pub open spec fn contents(self) -> Map<u64, Seq<u8>> {
        stable_contents(self.map)
    }

    /// Store invariant: finitely many entries, each the encoding of a
    /// well-formed record.
    pub open spec fn wf(self) -> bool {
        &&& self.contents().dom().finite()
        &&& forall|k: u64| #[trigger] self.contents().dom().contains(k) ==> {
            &&& spec_decode(self.contents()[k]) is Some
            &&& wf_proposal(spec_decode(self.contents()[k])->Some_0)
        }
    }

    /// A fresh, empty store over a region created for it.
    pub fn new() -> (s: Self)
        ensures
            s.wf(),
            s@ == Map::<u64, ProposalV>::empty(),
    {
        let s = ProposalStore { map: stable_map_new() };
        proof {
            assert(s.contents().dom() =~= Set::<u64>::empty());
            assert(s@ =~= Map::<u64, ProposalV>::empty());
        }
        s
    }

    /// Point lookup: the stored record, or `None` when the key is absent.
    pub fn get(&self, key: u64) -> (r: Option<Proposal>)
        requires
            self.wf(),
        ensures
            match r {
                Some(p) => self@.contains_key(key) && p@ == self@[key],
                None => !self@.contains_key(key),
            },
    {
        match stable_map_get(&self.map, key) {
            None => None,
            Some(bytes) => match decode_proposal(&bytes) {
                Some(p) => Some(p),
                None => {
                    proof {
                        assert(false);
                    }
                    None
                },
            },
        }
    }

    /// How many records are stored.
    pub fn count(&self) -> (n: u64)
        requires
            self.wf(),
        ensures
            n as nat == self@.len(),
    {
        let n = stable_map_len(&self.map);
        proof {
            assert(self@.dom() =~= self.contents().dom());
        }
        n
    }

    /// Inserts or overwrites the record at `key`, returning the previous
    /// record if one was stored.
    pub fn put(&mut self, key: u64, record: Proposal) -> (prev: Option<Proposal>)
        requires
            old(self).wf(),
            wf_proposal(record@),
        ensures
            final(self).wf(),
            final(self)@ == old(self)@.insert(key, record@),
            match prev {
                Some(q) => old(self)@.contains_key(key) && q@ == old(self)@[key],
                None => !old(self)@.contains_key(key),
            },
    {
        proof {
            lemma_size_implies_fits(record@);
            lemma_round_trip(record@);
        }
        let bytes = encode_proposal(&record).unwrap();
        let prev_bytes = stable_map_insert(&mut self.map, key, bytes);
        proof {
            assert(final(self)@ =~= old(self)@.insert(key, record@));
        }
        match prev_bytes {
            None => None,
            Some(pb) => match decode_proposal(&pb) {
                Some(q) => Some(q),
                None => {
                    proof {
                        assert(false);
                    }
                    None
                },
            },
        }
    }

    /// Replaces the record stored at `key`; fails without touching anything
    /// when the key is absent.
    pub fn update_record(&mut self, key: u64, record: Proposal) -> (r: Result<(), VoteError>)
        requires
            old(self).wf(),
            wf_proposal(record@),
        ensures
            final(self).wf(),
            match r {
                Ok(_) => old(self)@.contains_key(key) && final(self)@ == old(self)@.insert(
                    key,
                    record@,
                ),
                Err(e) => e == VoteError::NoSuchProposal && !old(self)@.contains_key(key)
                    && final(self)@ == old(self)@,
            },
    {
        match stable_map_get(&self.map, key) {
            None => Err(VoteError::NoSuchProposal),
            Some(_) => {
                let _ = self.put(key, record);
                Ok(())
            },
        }
    }
}

} // verus!
