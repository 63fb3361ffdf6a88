//! The record that the registry keeps, and what it is made from.

use crate::codec::{decodable, decode, encode, json_object, lookup, lookup_result, Metadata};
use crate::error::ContractError;
use vstd::prelude::*;

verus! {

/// What a caller hands in to have a record created.
#[derive(Debug)]
pub struct Payload {
    /// The identifier to store the record under, where the caller picks it.
    pub id: Option<String>,
    pub project_id: String,
    pub description: String,
    pub evidence_uri: String,
    /// Free-form metadata, if the record is to carry any.
    pub schema: Option<Metadata>,
}

/// What the host says of the call that is being served.
#[derive(Debug)]
pub struct HostContext {
    /// The identity of the caller.
    pub caller: String,
    /// The host clock's reading, in milliseconds.
    pub timestamp_ms: u64,
}

/// Upvotes and downvotes, counted apart.
#[derive(Debug, Clone, Copy, PartialEq, Eq)]
pub struct ReputationTally {
    upvotes: u64,
    downvotes: u64,
}

impl ReputationTally {
    /// The number of upvotes.
    pub closed spec fn up(&self) -> nat {
        self.upvotes as nat
    }

    /// The number of downvotes.
    pub closed spec fn down(&self) -> nat {
        self.downvotes as nat
    }

    /// A tally without votes.
    pub fn new() -> (r: Self)
        ensures
            r.up() == 0,
            r.down() == 0,
    {
        ReputationTally { upvotes: 0, downvotes: 0 }
    }

    /// A tally with the given counts.
    pub fn with_counts(upvotes: u64, downvotes: u64) -> (r: Self)
        ensures
            r.up() == upvotes,
            r.down() == downvotes,
    {
        ReputationTally { upvotes, downvotes }
    }

    /// The number of upvotes.
    pub fn upvotes(&self) -> (r: u64)
        ensures
            r == self.up(),
    {
        self.upvotes
    }

    /// The number of downvotes.
    pub fn downvotes(&self) -> (r: u64)
        ensures
            r == self.down(),
    {
        self.downvotes
    }

    /// Whether `up` more upvotes and `down` more downvotes still fit.
    pub fn has_room_for(&self, up: u64, down: u64) -> (r: bool)
        ensures
            r == (self.up() + up <= u64::MAX && self.down() + down <= u64::MAX),
    {
        up <= u64::MAX - self.upvotes && down <= u64::MAX - self.downvotes
    }

    /// Adds `up` upvotes and `down` downvotes.
    pub fn add(&mut self, up: u64, down: u64)
        requires
            old(self).up() + up <= u64::MAX,
            old(self).down() + down <= u64::MAX,
        ensures
            final(self).up() == old(self).up() + up,
            final(self).down() == old(self).down() + down,
        no_unwind
    {
        self.upvotes = self.upvotes + up;
        self.downvotes = self.downvotes + down;
    }

    /// Counts one more upvote.
    pub fn increment_up(&mut self)
        requires
            old(self).up() < u64::MAX,
        ensures
            final(self).up() == old(self).up() + 1,
            final(self).down() == old(self).down(),
        no_unwind
    {
        self.add(1, 0);
    }

    /// Counts one more downvote.
    pub fn increment_down(&mut self)
        requires
            old(self).down() < u64::MAX,
        ensures
            final(self).up() == old(self).up(),
            final(self).down() == old(self).down() + 1,
        no_unwind
    {
        self.add(0, 1);
    }
}

/// A record as the contracts speak of it.
pub struct AttestationView {
    pub id: Seq<char>,
    pub project_id: Seq<char>,
    pub attestor: Seq<char>,
    pub description: Seq<char>,
    pub evidence_uri: Seq<char>,
    pub created_at: u64,
    /// The metadata that the record's blob decodes to.
    pub metadata: Option<Map<Seq<char>, Seq<char>>>,
    pub upvotes: nat,
    pub downvotes: nat,
}

impl AttestationView {
    /// The same record with `up` more upvotes and `down` more downvotes.
    pub open spec fn voted(self, up: nat, down: nat) -> AttestationView {
        AttestationView { upvotes: self.upvotes + up, downvotes: self.downvotes + down, ..self }
    }

    /// What a lookup of `key` in the record's metadata gives. A record
    /// without metadata has no keys.
    pub open spec fn schema_value(self, key: Seq<char>) -> Result<Seq<char>, ContractError> {
        match self.metadata {
            Some(metadata) => lookup_result(metadata, key),
            None => Err(ContractError::KeyNotFound),
        }
    }
}

/// The metadata of a payload, as a mathematical map.
pub open spec fn payload_metadata(payload: Payload) -> Option<Map<Seq<char>, Seq<char>>> {
    match payload.schema {
        Some(metadata) => Some(metadata@),
        None => None,
    }
}

/// The record that is made from `payload` under `id`, for the call that
/// `ctx` describes.
pub open spec fn record_of(id: Seq<char>, payload: Payload, ctx: HostContext) -> AttestationView {
    AttestationView {
        id,
        project_id: payload.project_id@,
        attestor: ctx.caller@,
        description: payload.description@,
        evidence_uri: payload.evidence_uri@,
        created_at: ctx.timestamp_ms,
        metadata: payload_metadata(payload),
        upvotes: 0,
        downvotes: 0,
    }
}

/// The fields of a record as plain values, as they are kept outside the
/// registry.
#[derive(Debug)]
pub struct AttestationParts {
    pub id: String,
    pub project_id: String,
    pub attestor: String,
    pub description: String,
    pub evidence_uri: String,
    pub created_at: u64,
    /// The encoded metadata, if the record carries any.
    pub schema: Option<String>,
    pub upvotes: u64,
    pub downvotes: u64,
}

/// The record that `parts` describe.
pub open spec fn record_of_parts(parts: AttestationParts) -> AttestationView {
    AttestationView {
        id: parts.id@,
        project_id: parts.project_id@,
        attestor: parts.attestor@,
        description: parts.description@,
        evidence_uri: parts.evidence_uri@,
        created_at: parts.created_at,
        metadata: match parts.schema {
            Some(blob) => json_object(blob@),
            None => None,
        },
        upvotes: parts.upvotes as nat,
        downvotes: parts.downvotes as nat,
    }
}

/// The encoded metadata among `parts`, if there is any, can be decoded.
pub open spec fn parts_decodable(parts: AttestationParts) -> bool {
    parts.schema matches Some(blob) ==> decodable(blob@)
}

/// One claim record.
#[derive(Debug)]
pub struct Attestation {
    id: String,
    project_id: String,
    attestor: String,
    description: String,
    evidence_uri: String,
    created_at: u64,
    schema: Option<String>,
    tally: ReputationTally,
}

impl Attestation {
    #[verifier::type_invariant]
    spec fn schema_decodes(self) -> bool {
        self.schema matches Some(blob) ==> decodable(blob@)
    }

    /// The record as the contracts speak of it.
    pub closed spec fn view(&self) -> AttestationView {
        AttestationView {
            id: self.id@,
            project_id: self.project_id@,
            attestor: self.attestor@,
            description: self.description@,
            evidence_uri: self.evidence_uri@,
            created_at: self.created_at,
            metadata: match self.schema {
                Some(blob) => json_object(blob@),
                None => None,
            },
            upvotes: self.tally.up(),
            downvotes: self.tally.down(),
        }
    }

    /// Makes the record for `payload` under `id`: the caller's identity and
    /// the clock reading come from `ctx`, the metadata is encoded, and both
    /// counters start at zero.
    pub fn from_payload(id: String, payload: Payload, ctx: &HostContext) -> (r: Self)
        ensures
            r@ == record_of(id@, payload, *ctx),
    {
        let schema = match &payload.schema {
            Some(metadata) => Some(encode(metadata)),
            None => None,
        };
        Attestation {
            id,
            project_id: payload.project_id,
            attestor: ctx.caller.clone(),
            description: payload.description,
            evidence_uri: payload.evidence_uri,
            created_at: ctx.timestamp_ms,
            schema,
            tally: ReputationTally::new(),
        }
    }

    /// Puts a record together from its fields; `None` where the encoded
    /// metadata among them cannot be decoded.
    pub fn from_parts(parts: AttestationParts) -> (r: Option<Self>)
        ensures
            r is Some <==> parts_decodable(parts),
            r matches Some(a) ==> a@ == record_of_parts(parts),
    {
        let readable = match &parts.schema {
            Some(blob) => decode(blob.as_str()).is_some(),
            None => true,
        };
        if readable {
            Some(
                Attestation {
                    id: parts.id,
                    project_id: parts.project_id,
                    attestor: parts.attestor,
                    description: parts.description,
                    evidence_uri: parts.evidence_uri,
                    created_at: parts.created_at,
                    schema: parts.schema,
                    tally: ReputationTally::with_counts(parts.upvotes, parts.downvotes),
                },
            )
        } else {
            None
        }
    }

    /// Takes the record apart into its fields.
    pub fn into_parts(self) -> (parts: AttestationParts)
        ensures
            parts_decodable(parts),
            record_of_parts(parts) == self@,
    {
        proof {
            use_type_invariant(&self);
        }
        AttestationParts {
            id: self.id,
            project_id: self.project_id,
            attestor: self.attestor,
            description: self.description,
            evidence_uri: self.evidence_uri,
            created_at: self.created_at,
            schema: self.schema,
            upvotes: self.tally.upvotes(),
            downvotes: self.tally.downvotes(),
        }
    }

    /// The identifier that the record is stored under.
    pub fn id(&self) -> (r: &String)
        ensures
            r@ == self@.id,
    {
        &self.id
    }

    pub fn project_id(&self) -> (r: &String)
        ensures
            r@ == self@.project_id,
    {
        &self.project_id
    }

    /// The identity of the caller that created the record.
    pub fn attestor(&self) -> (r: &String)
        ensures
            r@ == self@.attestor,
    {
        &self.attestor
    }

    pub fn description(&self) -> (r: &String)
        ensures
            r@ == self@.description,
    {
        &self.description
    }

    pub fn evidence_uri(&self) -> (r: &String)
        ensures
            r@ == self@.evidence_uri,
    {
        &self.evidence_uri
    }

    /// The host clock's reading when the record was created.
    pub fn created_at(&self) -> (r: u64)
        ensures
            r == self@.created_at,
    {
        self.created_at
    }

    /// The encoded metadata, if the record carries any.
    pub fn schema(&self) -> (r: Option<&String>)
        ensures
            match r {
                Some(blob) => self@.metadata is Some && json_object(blob@) == self@.metadata,
                None => self@.metadata is None,
            },
    {
        proof {
            use_type_invariant(self);
        }
        match &self.schema {
            Some(blob) => Some(blob),
            None => None,
        }
    }

    pub fn upvotes(&self) -> (r: u64)
        ensures
            r == self@.upvotes,
    {
        self.tally.upvotes()
    }

    pub fn downvotes(&self) -> (r: u64)
        ensures
            r == self@.downvotes,
    {
        self.tally.downvotes()
    }

    /// Whether `up` more upvotes and `down` more downvotes still fit the
    /// record's counters.
    pub fn has_room_for(&self, up: u64, down: u64) -> (r: bool)
        ensures
            r == (self@.upvotes + up <= u64::MAX && self@.downvotes + down <= u64::MAX),
    {
        self.tally.has_room_for(up, down)
    }

    /// Adds to the counters and leaves the rest of the record as it is.
    pub fn add_votes(&mut self, up: u64, down: u64)
        requires
            old(self)@.upvotes + up <= u64::MAX,
            old(self)@.downvotes + down <= u64::MAX,
        ensures
            final(self)@ == old(self)@.voted(up as nat, down as nat),
    {
        proof {
            use_type_invariant(&*self);
        }
        self.tally.add(up, down);
    }

    /// Looks `key` up in the record's metadata.
    pub fn schema_value(&self, key: &String) -> (r: Result<String, ContractError>)
        ensures
            match r {
                Ok(value) => self@.schema_value(key@) == Ok::<Seq<char>, ContractError>(value@),
                Err(e) => self@.schema_value(key@) == Err::<Seq<char>, ContractError>(e),
            },
    {
        proof {
            use_type_invariant(self);
        }
        match &self.schema {
            Some(blob) => lookup(blob.as_str(), key),
            None => Err(ContractError::KeyNotFound),
        }
    }
}

impl Clone for Attestation {
    fn clone(&self) -> (r: Self)
        ensures
            r@ == self@,
    {
        proof {
            use_type_invariant(self);
        }
        Attestation {
            id: self.id.clone(),
            project_id: self.project_id.clone(),
            attestor: self.attestor.clone(),
            description: self.description.clone(),
            evidence_uri: self.evidence_uri.clone(),
            created_at: self.created_at,
            schema: match &self.schema {
                Some(blob) => Some(blob.clone()),
                None => None,
            },
            tally: self.tally,
        }
    }
}

} // verus!
