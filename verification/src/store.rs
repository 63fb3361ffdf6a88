//! The records of a registry, each under its identifier, in the order in
//! which the identifiers were first stored.

use crate::attestation::{Attestation, AttestationView};
use vstd::prelude::*;

verus! {

/// No two records of `s` share an identifier.
pub open spec fn ids_distinct(s: Seq<AttestationView>) -> bool {
    forall|i: int, j: int| 0 <= i < j < s.len() ==> s[i].id != s[j].id
}

/// `i` is the position of a record of `s` whose identifier is `id`.
pub open spec fn stored_at(s: Seq<AttestationView>, id: Seq<char>, i: int) -> bool {
    0 <= i < s.len() && s[i].id == id
}

/// Some record of `s` has the identifier `id`.
pub open spec fn contains_id(s: Seq<AttestationView>, id: Seq<char>) -> bool {
    exists|i: int| stored_at(s, id, i)
}

/// The position of the record with identifier `id`, where there is one.
pub open spec fn position(s: Seq<AttestationView>, id: Seq<char>) -> int {
    choose|i: int| stored_at(s, id, i)
}

/// The record stored under `id`, if there is one.
pub open spec fn record(s: Seq<AttestationView>, id: Seq<char>) -> Option<AttestationView> {
    if contains_id(s, id) {
        Some(s[position(s, id)])
    } else {
        None
    }
}

/// The records after `r` is stored: in the place of the record that had its
/// identifier, or behind all others where none had it.
pub open spec fn put(s: Seq<AttestationView>, r: AttestationView) -> Seq<AttestationView> {
    if contains_id(s, r.id) {
        s.update(position(s, r.id), r)
    } else {
        s.push(r)
    }
}

/// The records after the one under `id` got `up` more upvotes and `down`
/// more downvotes; unchanged where nothing is stored under `id`.
pub open spec fn with_votes(s: Seq<AttestationView>, id: Seq<char>, up: nat, down: nat) -> Seq<
    AttestationView,
> {
    if contains_id(s, id) {
        s.update(position(s, id), s[position(s, id)].voted(up, down))
    } else {
        s
    }
}

/// The record in the last position, if there is any record.
pub open spec fn last_record(s: Seq<AttestationView>) -> Option<AttestationView> {
    if s.len() > 0 {
        Some(s.last())
    } else {
        None
    }
}

/// The counters of the record under `id`, if there is one, can take `up`
/// more upvotes and `down` more downvotes.
pub open spec fn votes_fit(s: Seq<AttestationView>, id: Seq<char>, up: nat, down: nat) -> bool {
    record(s, id) matches Some(r) ==> r.upvotes + up <= u64::MAX && r.downvotes + down
        <= u64::MAX
}

/// The records of a vector, each as the contracts speak of it.
pub open spec fn views(v: Seq<Attestation>) -> Seq<AttestationView> {
    v.map_values(|r: Attestation| r@)
}

/// Among distinct identifiers, a record found at `i` is the record that
/// `position` and `record` speak of.
pub proof fn lemma_position(s: Seq<AttestationView>, id: Seq<char>, i: int)
    requires
        ids_distinct(s),
        stored_at(s, id, i),
    ensures
        contains_id(s, id),
        position(s, id) == i,
        record(s, id) == Some(s[i]),
{
    let j = position(s, id);
    assert(stored_at(s, id, j));
    assert(j == i);
}

/// Replacing the record at `i` by one with the same identifier keeps the
/// identifiers distinct, and moves none of them.
pub proof fn lemma_update_keeps_ids(s: Seq<AttestationView>, i: int, r: AttestationView)
    requires
        ids_distinct(s),
        0 <= i < s.len(),
        s[i].id == r.id,
    ensures
        ids_distinct(s.update(i, r)),
        forall|id: Seq<char>, j: int| stored_at(s.update(i, r), id, j) <==> stored_at(s, id, j),
{
    let t = s.update(i, r);
    assert forall|a: int, b: int| 0 <= a < b < t.len() implies t[a].id != t[b].id by {
        assert(t[a].id == s[a].id);
        assert(t[b].id == s[b].id);
    }
    assert forall|id: Seq<char>, j: int| stored_at(t, id, j) <==> stored_at(s, id, j) by {
        if 0 <= j < s.len() {
            assert(t[j].id == s[j].id);
        }
    }
}

/// Storing a record keeps the identifiers distinct.
pub proof fn lemma_put_keeps_ids_distinct(s: Seq<AttestationView>, r: AttestationView)
    requires
        ids_distinct(s),
    ensures
        ids_distinct(put(s, r)),
{
    if contains_id(s, r.id) {
        let i = position(s, r.id);
        assert(stored_at(s, r.id, i));
        lemma_update_keeps_ids(s, i, r);
    } else {
        let t = s.push(r);
        assert forall|a: int, b: int| 0 <= a < b < t.len() implies t[a].id != t[b].id by {
            if b == s.len() {
                assert(!stored_at(s, r.id, a));
            }
        }
    }
}

/// A record that was stored is the record found under its identifier.
pub proof fn lemma_put_stores(s: Seq<AttestationView>, r: AttestationView)
    requires
        ids_distinct(s),
    ensures
        record(put(s, r), r.id) == Some(r),
{
    lemma_put_keeps_ids_distinct(s, r);
    if contains_id(s, r.id) {
        let i = position(s, r.id);
        assert(stored_at(s, r.id, i));
        lemma_position(put(s, r), r.id, i);
    } else {
        lemma_position(put(s, r), r.id, s.len() as int);
    }
}

/// Storing a record changes nothing under any other identifier.
pub proof fn lemma_put_keeps_others(s: Seq<AttestationView>, r: AttestationView, id: Seq<char>)
    requires
        ids_distinct(s),
        id != r.id,
    ensures
        record(put(s, r), id) == record(s, id),
{
    lemma_put_keeps_ids_distinct(s, r);
    let t = put(s, r);
    if contains_id(s, id) {
        let j = position(s, id);
        assert(stored_at(s, id, j));
        assert(stored_at(t, id, j));
        lemma_position(s, id, j);
        lemma_position(t, id, j);
    } else {
        if contains_id(t, id) {
            let j = position(t, id);
            assert(stored_at(t, id, j));
            assert(stored_at(s, id, j));
        }
    }
}

/// A record stored under an identifier that was free comes last.
pub proof fn lemma_fresh_put_is_last(s: Seq<AttestationView>, r: AttestationView)
    requires
        !contains_id(s, r.id),
    ensures
        put(s, r) == s.push(r),
        last_record(put(s, r)) == Some(r),
{
}

/// Votes for the record under `id` add to its two counters and change
/// nothing else about it.
pub proof fn lemma_votes_counted(
    s: Seq<AttestationView>,
    id: Seq<char>,
    up: nat,
    down: nat,
)
    requires
        ids_distinct(s),
    ensures
        ids_distinct(with_votes(s, id, up, down)),
        with_votes(s, id, up, down).len() == s.len(),
        record(with_votes(s, id, up, down), id) == match record(s, id) {
            Some(r) => Some(r.voted(up, down)),
            None => None,
        },
{
    if contains_id(s, id) {
        let i = position(s, id);
        assert(stored_at(s, id, i));
        lemma_update_keeps_ids(s, i, s[i].voted(up, down));
        lemma_position(with_votes(s, id, up, down), id, i);
    }
}

/// Votes for the record under `id` change nothing under any other
/// identifier.
pub proof fn lemma_votes_keep_others(
    s: Seq<AttestationView>,
    id: Seq<char>,
    up: nat,
    down: nat,
    other: Seq<char>,
)
    requires
        ids_distinct(s),
        other != id,
    ensures
        record(with_votes(s, id, up, down), other) == record(s, other),
{
    if contains_id(s, id) {
        let i = position(s, id);
        assert(stored_at(s, id, i));
        let t = with_votes(s, id, up, down);
        lemma_update_keeps_ids(s, i, s[i].voted(up, down));
        if contains_id(s, other) {
            let j = position(s, other);
            assert(stored_at(s, other, j));
            assert(stored_at(t, other, j));
            lemma_position(s, other, j);
            lemma_position(t, other, j);
        } else {
            if contains_id(t, other) {
                let j = position(t, other);
                assert(stored_at(t, other, j));
                assert(stored_at(s, other, j));
            }
        }
    }
}

/// The records of one registry.
#[derive(Debug)]
pub struct AttestationStore {
    records: Vec<Attestation>,
}

impl AttestationStore {
    #[verifier::type_invariant]
    spec fn distinct(self) -> bool {
        ids_distinct(views(self.records@))
    }

    /// The records in their order.
    pub closed spec fn view(&self) -> Seq<AttestationView> {
        views(self.records@)
    }

    /// A store without records.
    pub fn new() -> (r: Self)
        ensures
            r@ == Seq::<AttestationView>::empty(),
    {
        let r = AttestationStore { records: Vec::new() };
        assert(r@ =~= Seq::<AttestationView>::empty());
        r
    }

    /// The number of records.
    pub fn len(&self) -> (r: usize)
        ensures
            r == self@.len(),
            ids_distinct(self@),
    {
        proof {
            use_type_invariant(self);
        }
        self.records.len()
    }

    fn find(&self, id: &String) -> (r: Option<usize>)
        ensures
            match r {
                Some(i) => stored_at(self@, id@, i as int),
                None => !contains_id(self@, id@),
            },
    {
        let mut i: usize = 0;
        while i < self.records.len()
            invariant
                i <= self.records.len(),
                forall|j: int| 0 <= j < i ==> !stored_at(self@, id@, j),
            decreases self.records.len() - i,
        {
            if *self.records[i].id() == *id {
                return Some(i);
            }
            i = i + 1;
        }
        None
    }

    /// Stores `record` under its identifier. A record that was stored under
    /// the same identifier is replaced, in its place.
    pub fn create(&mut self, record: Attestation)
        ensures
            final(self)@ == put(old(self)@, record@),
            ids_distinct(final(self)@),
    {
        proof {
            use_type_invariant(&*self);
        }
        let ghost before = self@;
        let found = self.find(record.id());
        let mut records: Vec<Attestation> = Vec::new();
        std::mem::swap(&mut self.records, &mut records);
        assert(views(records@) == before);
        match found {
            Some(i) => {
                proof {
                    lemma_position(before, record@.id, i as int);
                    lemma_update_keeps_ids(before, i as int, record@);
                }
                records.set(i, record);
                assert(views(records@) =~= before.update(i as int, record@));
            },
            None => {
                records.push(record);
                assert(views(records@) =~= before.push(record@));
                assert forall|a: int, b: int| 0 <= a < b < before.len() + 1 implies before.push(
                    record@,
                )[a].id != before.push(record@)[b].id by {
                    if b == before.len() {
                        assert(!stored_at(before, record@.id, a));
                    }
                }
            },
        }
        self.records = records;
    }

    /// A copy of the record stored under `id`, if there is one.
    pub fn get(&self, id: &String) -> (r: Option<Attestation>)
        ensures
            match r {
                Some(a) => record(self@, id@) == Some(a@),
                None => record(self@, id@) is None,
            },
    {
        proof {
            use_type_invariant(self);
        }
        match self.find(id) {
            Some(i) => {
                proof {
                    lemma_position(self@, id@, i as int);
                }
                Some(self.records[i].clone())
            },
            None => None,
        }
    }

    /// Copies of all records, in their order.
    pub fn list(&self) -> (r: Vec<Attestation>)
        ensures
            views(r@) == self@,
            ids_distinct(views(r@)),
    {
        proof {
            use_type_invariant(self);
        }
        let mut out: Vec<Attestation> = Vec::new();
        let mut i: usize = 0;
        while i < self.records.len()
            invariant
                i <= self.records.len(),
                out@.len() == i,
                forall|j: int| 0 <= j < i ==> out@[j]@ == self.records@[j]@,
            decreases self.records.len() - i,
        {
            out.push(self.records[i].clone());
            i = i + 1;
        }
        assert(views(out@) =~= self@);
        out
    }

    /// A copy of the record in the last position, if there is any record.
    pub fn last(&self) -> (r: Option<Attestation>)
        ensures
            match r {
                Some(a) => last_record(self@) == Some(a@),
                None => last_record(self@) is None,
            },
    {
        let n = self.records.len();
        if n == 0 {
            None
        } else {
            Some(self.records[n - 1].clone())
        }
    }

    /// Whether the counters of the record under `id`, if there is one, can
    /// take `up` more upvotes and `down` more downvotes.
    pub fn has_room_for(&self, id: &String, up: u64, down: u64) -> (r: bool)
        ensures
            r == votes_fit(self@, id@, up as nat, down as nat),
    {
        proof {
            use_type_invariant(self);
        }
        match self.find(id) {
            Some(i) => {
                proof {
                    lemma_position(self@, id@, i as int);
                }
                self.records[i].has_room_for(up, down)
            },
            None => true,
        }
    }

    /// Adds `delta_up` upvotes and `delta_down` downvotes to the record under
    /// `id`. Returns whether there is such a record; where there is none,
    /// nothing changes.
    pub fn mutate_counters(&mut self, id: &String, delta_up: u64, delta_down: u64) -> (r: bool)
        requires
            votes_fit(old(self)@, id@, delta_up as nat, delta_down as nat),
        ensures
            r == contains_id(old(self)@, id@),
            final(self)@ == with_votes(old(self)@, id@, delta_up as nat, delta_down as nat),
            !r ==> final(self)@ == old(self)@,
            ids_distinct(final(self)@),
    {
        proof {
            use_type_invariant(&*self);
        }
        let ghost before = self@;
        match self.find(id) {
            Some(i) => {
                proof {
                    lemma_position(before, id@, i as int);
                }
                let mut records: Vec<Attestation> = Vec::new();
                std::mem::swap(&mut self.records, &mut records);
                assert(views(records@) == before);
                records[i].add_votes(delta_up, delta_down);
                proof {
                    lemma_update_keeps_ids(before, i as int, records@[i as int]@);
                }
                assert(views(records@) =~= before.update(i as int, records@[i as int]@));
                self.records = records;
                true
            },
            None => false,
        }
    }
}

} // verus!
