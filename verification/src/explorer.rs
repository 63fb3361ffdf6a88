//! The registry's operations.

use crate::attestation::{record_of, Attestation, AttestationView, HostContext, Payload};
use crate::error::ContractError;
use crate::ids::{allocation, decimal, lemma_decimal_injective, IdAllocator, IdPolicy};
use crate::store::{
    contains_id, ids_distinct, last_record, put, record, stored_at, views, votes_fit, with_votes,
    AttestationStore,
};
use vstd::prelude::*;

verus! {

/// The collections that a registry keeps.
#[derive(Debug, Clone, Copy, PartialEq, Eq)]
pub enum SchemaList {
    /// The records, each under its identifier.
    AttestationList,
}

/// Every record of `s` is stored under the decimal form of a number below
/// `n`.
pub open spec fn numbered_below(s: Seq<AttestationView>, n: nat) -> bool {
    forall|i: int| 0 <= i < s.len() ==> exists|k: nat| k < n && #[trigger] s[i].id == decimal(k)
}

/// The identifier supplied with a payload, if any.
pub open spec fn supplied_id(payload: Payload) -> Option<Seq<char>> {
    match payload.id {
        Some(id) => Some(id@),
        None => None,
    }
}

/// The identifier under which a registry with the given policy and counter
/// stores the record for `payload`, or the reason why it stores none: a
/// payload must name its project, and under `Explicit` it must bring an
/// identifier.
pub open spec fn creation(policy: IdPolicy, issued: nat, payload: Payload) -> Result<
    Seq<char>,
    ContractError,
> {
    if payload.project_id@.len() == 0 {
        Err(ContractError::InvalidPayload)
    } else {
        allocation(policy, issued, supplied_id(payload))
    }
}

/// No number below `n` has the decimal form of `n`, so records numbered
/// below `n` leave the identifier of `n` free.
pub proof fn lemma_next_number_is_free(s: Seq<AttestationView>, n: nat)
    requires
        numbered_below(s, n),
    ensures
        !contains_id(s, decimal(n)),
{
    if contains_id(s, decimal(n)) {
        let i = choose|i: int| stored_at(s, decimal(n), i);
        let k = choose|k: nat| k < n && s[i].id == decimal(k);
        lemma_decimal_injective(k, n);
    }
}

/// A registry of attestations.
#[derive(Debug)]
pub struct AttestationExplorer {
    listed_attestations: AttestationStore,
    allocator: IdAllocator,
}

impl AttestationExplorer {
    #[verifier::type_invariant]
    spec fn well_formed(self) -> bool {
        &&& ids_distinct(self.listed_attestations@)
        &&& self.allocator.policy() == IdPolicy::Sequential ==> numbered_below(
            self.listed_attestations@,
            self.allocator.issued(),
        )
    }

    /// The records, in the order in which their identifiers were first
    /// stored.
    pub closed spec fn view(&self) -> Seq<AttestationView> {
        self.listed_attestations@
    }

    /// Where the registry's identifiers come from.
    pub closed spec fn policy(&self) -> IdPolicy {
        self.allocator.policy()
    }

    /// How many identifiers the registry has generated.
    pub closed spec fn issued(&self) -> nat {
        self.allocator.issued()
    }

    /// The registry can take another record.
    pub open spec fn has_room(&self) -> bool {
        self.policy() == IdPolicy::Sequential ==> self.issued() < u64::MAX
    }

    /// An empty registry whose callers pick the identifiers.
    pub fn new() -> (r: Self)
        ensures
            r@ == Seq::<AttestationView>::empty(),
            r.policy() == IdPolicy::Explicit,
            r.issued() == 0,
    {
        AttestationExplorer {
            listed_attestations: AttestationStore::new(),
            allocator: IdAllocator::new(IdPolicy::Explicit),
        }
    }

    /// An empty registry with the given policy.
    pub fn with_policy(policy: IdPolicy) -> (r: Self)
        ensures
            r@ == Seq::<AttestationView>::empty(),
            r.policy() == policy,
            r.issued() == 0,
    {
        AttestationExplorer {
            listed_attestations: AttestationStore::new(),
            allocator: IdAllocator::new(policy),
        }
    }

    /// Whether the registry can take another record.
    pub fn can_create(&self) -> (r: bool)
        ensures
            r == self.has_room(),
    {
        self.allocator.can_allocate()
    }

    /// Creates the record for `payload` and stores it.
    ///
    /// The payload must name its project. The identifier is the payload's
    /// own under `Explicit`, where a record already stored under it is
    /// replaced, and the next number under `Sequential`, where the record
    /// always comes behind all others. Returns the identifier; on an error
    /// nothing changes.
    pub fn create_attestation(&mut self, payload: Payload, ctx: &HostContext) -> (r: Result<
        String,
        ContractError,
    >)
        requires
            old(self).has_room(),
        ensures
            final(self).policy() == old(self).policy(),
            ids_distinct(final(self)@),
            match r {
                Ok(id) => {
                    &&& creation(old(self).policy(), old(self).issued(), payload) == Ok::<
                        Seq<char>,
                        ContractError,
                    >(id@)
                    &&& final(self)@ == put(old(self)@, record_of(id@, payload, *ctx))
                    &&& old(self).policy() == IdPolicy::Sequential ==> {
                        &&& final(self)@ == old(self)@.push(record_of(id@, payload, *ctx))
                        &&& final(self).issued() == old(self).issued() + 1
                    }
                    &&& old(self).policy() == IdPolicy::Explicit ==> final(self).issued() == old(
                        self,
                    ).issued()
                },
                Err(e) => {
                    &&& creation(old(self).policy(), old(self).issued(), payload) == Err::<
                        Seq<char>,
                        ContractError,
                    >(e)
                    &&& final(self)@ == old(self)@
                    &&& final(self).issued() == old(self).issued()
                },
            },
    {
        proof {
            use_type_invariant(&*self);
        }
        if payload.project_id.as_str().is_empty() {
            return Err(ContractError::InvalidPayload);
        }
        let supplied = match &payload.id {
            Some(id) => Some(id.clone()),
            None => None,
        };
        // Take the registry apart, work on its parts, and put it together
        // again once both are up to date.
        let mut taken = AttestationExplorer::new();
        std::mem::swap(self, &mut taken);
        let AttestationExplorer { listed_attestations: mut store, mut allocator } = taken;
        let ghost before = store@;
        let ghost issued = allocator.issued();
        let r = match allocator.allocate(supplied) {
            Ok(id) => {
                let record = Attestation::from_payload(id.clone(), payload, ctx);
                proof {
                    if allocator.policy() == IdPolicy::Sequential {
                        lemma_next_number_is_free(before, issued);
                    }
                }
                store.create(record);
                proof {
                    if allocator.policy() == IdPolicy::Sequential {
                        let after = store@;
                        assert forall|i: int| 0 <= i < after.len() implies exists|k: nat|
                            k < issued + 1 && #[trigger] after[i].id == decimal(k) by {
                            if i < before.len() {
                                let k = choose|k: nat| k < issued && before[i].id == decimal(k);
                                assert(k < issued + 1 && after[i].id == decimal(k));
                            } else {
                                assert(issued < issued + 1 && after[i].id == decimal(issued));
                            }
                        }
                    }
                }
                Ok(id)
            },
            Err(e) => Err(e),
        };
        *self = AttestationExplorer { listed_attestations: store, allocator };
        r
    }

    /// A copy of the record stored under `id`, if there is one.
    pub fn get_attestation(&self, id: &String) -> (r: Option<Attestation>)
        ensures
            match r {
                Some(a) => record(self@, id@) == Some(a@),
                None => record(self@, id@) is None,
            },
    {
        self.listed_attestations.get(id)
    }

    /// Copies of all records, in the order in which their identifiers were
    /// first stored; no two of them share an identifier.
    pub fn get_attestations(&self) -> (r: Vec<Attestation>)
        ensures
            views(r@) == self@,
            ids_distinct(views(r@)),
    {
        self.listed_attestations.list()
    }

    /// A copy of the record in the last position, if there is any record.
    pub fn get_last_attestation(&self) -> (r: Option<Attestation>)
        ensures
            match r {
                Some(a) => last_record(self@) == Some(a@),
                None => last_record(self@) is None,
            },
    {
        self.listed_attestations.last()
    }

    /// Whether the record under `id`, if there is one, can take one more
    /// upvote.
    pub fn can_upvote(&self, id: &String) -> (r: bool)
        ensures
            r == votes_fit(self@, id@, 1, 0),
    {
        self.listed_attestations.has_room_for(id, 1, 0)
    }

    /// Whether the record under `id`, if there is one, can take one more
    /// downvote.
    pub fn can_downvote(&self, id: &String) -> (r: bool)
        ensures
            r == votes_fit(self@, id@, 0, 1),
    {
        self.listed_attestations.has_room_for(id, 0, 1)
    }

    /// Counts one more upvote for the record under `id`. Returns whether
    /// there is such a record; where there is none, nothing changes.
    pub fn upvote_attestation(&mut self, id: &String) -> (r: bool)
        requires
            votes_fit(old(self)@, id@, 1, 0),
        ensures
            r == contains_id(old(self)@, id@),
            final(self)@ == with_votes(old(self)@, id@, 1, 0),
            !r ==> final(self)@ == old(self)@,
            final(self).policy() == old(self).policy(),
            final(self).issued() == old(self).issued(),
            ids_distinct(final(self)@),
    {
        self.vote(id, 1, 0)
    }

    /// Counts one more downvote for the record under `id`. Returns whether
    /// there is such a record; where there is none, nothing changes.
    pub fn downvote_attestation(&mut self, id: &String) -> (r: bool)
        requires
            votes_fit(old(self)@, id@, 0, 1),
        ensures
            r == contains_id(old(self)@, id@),
            final(self)@ == with_votes(old(self)@, id@, 0, 1),
            !r ==> final(self)@ == old(self)@,
            final(self).policy() == old(self).policy(),
            final(self).issued() == old(self).issued(),
            ids_distinct(final(self)@),
    {
        self.vote(id, 0, 1)
    }

    fn vote(&mut self, id: &String, up: u64, down: u64) -> (r: bool)
        requires
            votes_fit(old(self)@, id@, up as nat, down as nat),
        ensures
            r == contains_id(old(self)@, id@),
            final(self)@ == with_votes(old(self)@, id@, up as nat, down as nat),
            final(self).policy() == old(self).policy(),
            final(self).issued() == old(self).issued(),
            ids_distinct(final(self)@),
    {
        proof {
            use_type_invariant(&*self);
        }
        let mut store = AttestationStore::new();
        std::mem::swap(&mut self.listed_attestations, &mut store);
        let ghost before = store@;
        let found = store.mutate_counters(id, up, down);
        proof {
            let after = store@;
            assert(after.len() == before.len());
            assert forall|i: int| 0 <= i < after.len() implies after[i].id == before[i].id by {}
        }
        self.listed_attestations = store;
        found
    }

    /// The value under `key` in the metadata of the record under `id`.
    ///
    /// `AttestationNotFound` where nothing is stored under `id`,
    /// `KeyNotFound` where the record has no metadata or its metadata has
    /// no such key.
    pub fn get_schema_value(&self, id: String, key: String) -> (r: Result<String, ContractError>)
        ensures
            match record(self@, id@) {
                Some(a) => match r {
                    Ok(value) => a.schema_value(key@) == Ok::<Seq<char>, ContractError>(value@),
                    Err(e) => a.schema_value(key@) == Err::<Seq<char>, ContractError>(e),
                },
                None => r == Err::<String, ContractError>(
                    ContractError::AttestationNotFound { id },
                ),
            },
    {
        match self.listed_attestations.get(&id) {
            Some(a) => a.schema_value(&key),
            None => Err(ContractError::AttestationNotFound { id }),
        }
    }
}

} // verus!
