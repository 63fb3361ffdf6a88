//! String-to-string metadata, the text blob that a record keeps it in, and
//! the lookup of one key in such a blob.

use crate::error::ContractError;
use std::collections::HashMap;
use vstd::prelude::*;

verus! {

/// No two entries of `s` share a key.
pub open spec fn keys_distinct(s: Seq<(String, String)>) -> bool {
    forall|i: int, j: int| 0 <= i < j < s.len() ==> s[i].0@ != s[j].0@
}

/// `i` is the position of an entry of `s` whose key is `key`.
pub open spec fn key_at(s: Seq<(String, String)>, key: Seq<char>, i: int) -> bool {
    0 <= i < s.len() && s[i].0@ == key
}

/// The mapping that a list of entries stands for: each key that occurs in it,
/// mapped to the value that stands beside it.
pub open spec fn entries_map(s: Seq<(String, String)>) -> Map<Seq<char>, Seq<char>> {
    Map::new(
        |key: Seq<char>| exists|i: int| key_at(s, key, i),
        |key: Seq<char>| s[choose|i: int| key_at(s, key, i)].1@,
    )
}

/// In a list with distinct keys, the entry at `i` is what the mapping holds
/// for its key.
pub proof fn lemma_entry_at(s: Seq<(String, String)>, i: int)
    requires
        keys_distinct(s),
        0 <= i < s.len(),
    ensures
        entries_map(s).contains_key(s[i].0@),
        entries_map(s)[s[i].0@] == s[i].1@,
{
    let key = s[i].0@;
    assert(key_at(s, key, i));
    let j = choose|j: int| key_at(s, key, j);
    assert(key_at(s, key, j));
    assert(j == i);
}

/// An entry behind a list in which its key does not occur adds that key to
/// the mapping, with its value.
pub proof fn lemma_push_entry(s: Seq<(String, String)>, e: (String, String))
    requires
        keys_distinct(s),
        forall|i: int| !key_at(s, e.0@, i),
    ensures
        keys_distinct(s.push(e)),
        entries_map(s.push(e)) == entries_map(s).insert(e.0@, e.1@),
{
    let t = s.push(e);
    let n = s.len() as int;
    assert forall|a: int, b: int| 0 <= a < b < t.len() implies t[a].0@ != t[b].0@ by {
        if b == n {
            assert(!key_at(s, e.0@, a));
        }
    }
    assert forall|key: Seq<char>| #[trigger]
        entries_map(t).contains_key(key) <==> entries_map(s).insert(e.0@, e.1@).contains_key(
            key,
        ) by {
        if entries_map(t).contains_key(key) {
            let j = choose|j: int| key_at(t, key, j);
            if j != n {
                assert(key_at(s, key, j));
            }
        }
        if entries_map(s).contains_key(key) {
            let j = choose|j: int| key_at(s, key, j);
            assert(key_at(t, key, j));
        }
        if key == e.0@ {
            assert(key_at(t, key, n));
        }
    }
    assert forall|key: Seq<char>| #[trigger]
        entries_map(t).contains_key(key) implies entries_map(t)[key] == entries_map(s).insert(
            e.0@,
            e.1@,
        )[key] by {
        let j = choose|j: int| key_at(t, key, j);
        lemma_entry_at(t, j);
        if j != n {
            lemma_entry_at(s, j);
        }
    }
    assert(entries_map(t) =~= entries_map(s).insert(e.0@, e.1@));
}

/// Replacing the value of the entry at `i` replaces the value under its
/// key in the mapping.
pub proof fn lemma_update_entry(s: Seq<(String, String)>, i: int, e: (String, String))
    requires
        keys_distinct(s),
        key_at(s, e.0@, i),
    ensures
        keys_distinct(s.update(i, e)),
        entries_map(s.update(i, e)) == entries_map(s).insert(e.0@, e.1@),
{
    let t = s.update(i, e);
    assert forall|a: int, b: int| 0 <= a < b < t.len() implies t[a].0@ != t[b].0@ by {
        assert(t[a].0@ == s[a].0@);
        assert(t[b].0@ == s[b].0@);
    }
    assert forall|key: Seq<char>| #[trigger]
        entries_map(t).contains_key(key) <==> entries_map(s).insert(e.0@, e.1@).contains_key(
            key,
        ) by {
        if entries_map(t).contains_key(key) {
            let j = choose|j: int| key_at(t, key, j);
            assert(key_at(s, key, j));
        }
        if entries_map(s).contains_key(key) {
            let j = choose|j: int| key_at(s, key, j);
            assert(key_at(t, key, j));
        }
        if key == e.0@ {
            assert(key_at(t, key, i));
        }
    }
    assert forall|key: Seq<char>| #[trigger]
        entries_map(t).contains_key(key) implies entries_map(t)[key] == entries_map(s).insert(
            e.0@,
            e.1@,
        )[key] by {
        let j = choose|j: int| key_at(t, key, j);
        lemma_entry_at(t, j);
        if j != i {
            lemma_entry_at(s, j);
        }
    }
    assert(entries_map(t) =~= entries_map(s).insert(e.0@, e.1@));
}

/// A list with distinct keys stands for a finite mapping with as many keys
/// as the list has entries.
pub proof fn lemma_entries_len(s: Seq<(String, String)>)
    requires
        keys_distinct(s),
    ensures
        entries_map(s).dom().finite(),
        entries_map(s).len() == s.len(),
    decreases s.len(),
{
    if s.len() == 0 {
        assert(entries_map(s) =~= Map::<Seq<char>, Seq<char>>::empty());
    } else {
        let rest = s.drop_last();
        let e = s.last();
        assert(s =~= rest.push(e));
        lemma_entries_len(rest);
        assert forall|i: int| !key_at(rest, e.0@, i) by {
            if key_at(rest, e.0@, i) {
                assert(s[i].0@ != s[s.len() - 1].0@);
            }
        }
        lemma_push_entry(rest, e);
        assert(!entries_map(rest).contains_key(e.0@)) by {
            if entries_map(rest).contains_key(e.0@) {
                let j = choose|j: int| key_at(rest, e.0@, j);
                assert(key_at(rest, e.0@, j));
            }
        }
    }
}

/// What `serde_json::from_str`, asked for a `HashMap<String, String>`, reads
/// from `text`: the mapping, or `None` where it reports an error.
pub uninterp spec fn json_object(text: Seq<char>) -> Option<Map<Seq<char>, Seq<char>>>;

/// Calls `serde_json::to_string` on the entries, gathered into a `HashMap`.
///
/// Trusted: the call succeeds (its documentation names two ways to fail, a
/// failing `Serialize` impl and a map whose keys are not strings, and neither
/// can occur here), and reading the text back with `serde_json::from_str`
/// gives the mapping that was written. The text itself is not fixed: the
/// order of its members is the order in which the `HashMap` is walked.
#[verifier::external_body]
fn json_to_string(entries: &Vec<(String, String)>) -> (r: Option<String>)
    requires
        keys_distinct(entries@),
    ensures
        r is Some,
        json_object(r.unwrap()@) == Some(entries_map(entries@)),
{
    let object: HashMap<&String, &String> = entries.iter().map(|e| (&e.0, &e.1)).collect();
    serde_json::to_string(&object).ok()
}

/// Calls `serde_json::from_str` for a `HashMap<String, String>` and lists
/// the entries of the map it returns, in no particular order.
///
/// Trusted: the result is `None` where the call reports an error; otherwise
/// the entries have distinct keys and stand for the mapping that was read.
#[verifier::external_body]
fn json_from_str(text: &str) -> (r: Option<Vec<(String, String)>>)
    ensures
        match r {
            Some(entries) => keys_distinct(entries@) && json_object(text@) == Some(
                entries_map(entries@),
            ),
            None => json_object(text@) is None,
        },
{
    serde_json::from_str::<HashMap<String, String>>(text).ok().map(|m| m.into_iter().collect())
}

/// A mapping from string keys to string values.
#[derive(Debug)]
pub struct Metadata {
    entries: Vec<(String, String)>,
}

impl Metadata {
    #[verifier::type_invariant]
    spec fn distinct(self) -> bool {
        keys_distinct(self.entries@)
    }

    /// The mapping as a mathematical map.
    pub closed spec fn view(&self) -> Map<Seq<char>, Seq<char>> {
        entries_map(self.entries@)
    }

    /// The empty mapping.
    pub fn new() -> (r: Self)
        ensures
            r@ == Map::<Seq<char>, Seq<char>>::empty(),
    {
        let r = Metadata { entries: Vec::new() };
        assert(r@ =~= Map::<Seq<char>, Seq<char>>::empty());
        r
    }

    /// The number of keys.
    pub fn len(&self) -> (r: usize)
        ensures
            self@.dom().finite(),
            r == self@.len(),
    {
        proof {
            use_type_invariant(self);
            lemma_entries_len(self.entries@);
        }
        self.entries.len()
    }

    /// The entries, each key once, in no particular order.
    pub fn to_vec(&self) -> (r: Vec<(String, String)>)
        ensures
            keys_distinct(r@),
            entries_map(r@) == self@,
    {
        proof {
            use_type_invariant(self);
        }
        let mut out: Vec<(String, String)> = Vec::new();
        let mut i: usize = 0;
        while i < self.entries.len()
            invariant
                i <= self.entries.len(),
                out@ == self.entries@.subrange(0, i as int),
            decreases self.entries.len() - i,
        {
            out.push((self.entries[i].0.clone(), self.entries[i].1.clone()));
            assert(out@ =~= self.entries@.subrange(0, i + 1));
            i = i + 1;
        }
        assert(out@ =~= self.entries@);
        out
    }

    fn position(&self, key: &String) -> (r: Option<usize>)
        ensures
            match r {
                Some(i) => key_at(self.entries@, key@, i as int),
                None => forall|i: int| !key_at(self.entries@, key@, i),
            },
    {
        let mut i: usize = 0;
        while i < self.entries.len()
            invariant
                i <= self.entries.len(),
                forall|j: int| 0 <= j < i ==> !key_at(self.entries@, key@, j),
            decreases self.entries.len() - i,
        {
            if self.entries[i].0 == *key {
                return Some(i);
            }
            i = i + 1;
        }
        None
    }

    /// The value stored under `key`, if there is one.
    pub fn get(&self, key: &String) -> (r: Option<&String>)
        ensures
            match r {
                Some(value) => self@.contains_key(key@) && self@[key@] == value@,
                None => !self@.contains_key(key@),
            },
    {
        proof {
            use_type_invariant(self);
        }
        match self.position(key) {
            Some(i) => {
                proof {
                    lemma_entry_at(self.entries@, i as int);
                }
                Some(&self.entries[i].1)
            },
            None => None,
        }
    }

    /// Stores `value` under `key`, in place of what was stored there before.
    pub fn insert(&mut self, key: String, value: String)
        ensures
            final(self)@ == old(self)@.insert(key@, value@),
    {
        proof {
            use_type_invariant(&*self);
        }
        let ghost before = self.entries@;
        let found = self.position(&key);
        // The list is changed outside `self` and put back when it is whole.
        let mut entries: Vec<(String, String)> = Vec::new();
        std::mem::swap(&mut self.entries, &mut entries);
        match found {
            Some(i) => {
                proof {
                    lemma_update_entry(before, i as int, (key, value));
                }
                entries.set(i, (key, value));
            },
            None => {
                proof {
                    lemma_push_entry(before, (key, value));
                }
                entries.push((key, value));
            },
        }
        self.entries = entries;
    }
}

/// Whether `blob` is text that `decode` can read.
pub open spec fn decodable(blob: Seq<char>) -> bool {
    json_object(blob) is Some
}

/// Whether `blob` is text that `decode` reads as `metadata`.
pub open spec fn encodes(blob: Seq<char>, metadata: Map<Seq<char>, Seq<char>>) -> bool {
    json_object(blob) == Some(metadata)
}

/// Decoding undoes encoding: a blob that encodes a mapping can be decoded,
/// and it encodes no other mapping.
pub proof fn lemma_decode_inverts_encode(
    blob: Seq<char>,
    metadata: Map<Seq<char>, Seq<char>>,
    decoded: Map<Seq<char>, Seq<char>>,
)
    requires
        encodes(blob, metadata),
        encodes(blob, decoded),
    ensures
        decodable(blob),
        decoded == metadata,
{
}

/// Writes `metadata` as a text blob from which `decode` recovers it.
pub fn encode(metadata: &Metadata) -> (blob: String)
    ensures
        encodes(blob@, metadata@),
{
    proof {
        use_type_invariant(metadata);
    }
    json_to_string(&metadata.entries).unwrap()
}

/// Reads a text blob back into the mapping it stands for; `None` where the
/// text is not the JSON form of a mapping from strings to strings.
pub fn decode(blob: &str) -> (r: Option<Metadata>)
    ensures
        match r {
            Some(metadata) => encodes(blob@, metadata@),
            None => !decodable(blob@),
        },
{
    match json_from_str(blob) {
        Some(entries) => Some(Metadata { entries }),
        None => None,
    }
}

/// What a lookup of `key` in `metadata` gives.
pub open spec fn lookup_result(metadata: Map<Seq<char>, Seq<char>>, key: Seq<char>) -> Result<
    Seq<char>,
    ContractError,
> {
    if metadata.contains_key(key) {
        Ok(metadata[key])
    } else {
        Err(ContractError::KeyNotFound)
    }
}

/// The value that `metadata` holds under exactly `key`, or `KeyNotFound`.
pub fn lookup_in(metadata: &Metadata, key: &String) -> (r: Result<String, ContractError>)
    ensures
        match r {
            Ok(value) => lookup_result(metadata@, key@) == Ok::<Seq<char>, ContractError>(value@),
            Err(e) => lookup_result(metadata@, key@) == Err::<Seq<char>, ContractError>(e),
        },
{
    match metadata.get(key) {
        Some(value) => Ok(value.clone()),
        None => Err(ContractError::KeyNotFound),
    }
}

/// Decodes `blob` and looks `key` up in it.
pub fn lookup(blob: &str, key: &String) -> (r: Result<String, ContractError>)
    requires
        decodable(blob@),
    ensures
        match r {
            Ok(value) => lookup_result(json_object(blob@).unwrap(), key@) == Ok::<
                Seq<char>,
                ContractError,
            >(value@),
            Err(e) => lookup_result(json_object(blob@).unwrap(), key@) == Err::<
                Seq<char>,
                ContractError,
            >(e),
        },
{
    match decode(blob) {
        Some(metadata) => lookup_in(&metadata, key),
        None => unreached(),
    }
}

/// Decodes `blob`, if it can be decoded, and looks `key` up in it; `None`
/// where the blob cannot be decoded.
pub fn try_lookup(blob: &str, key: &String) -> (r: Option<Result<String, ContractError>>)
    ensures
        r is Some <==> decodable(blob@),
        r matches Some(Ok(value)) ==> lookup_result(json_object(blob@).unwrap(), key@) == Ok::<
            Seq<char>,
            ContractError,
        >(value@),
        r matches Some(Err(e)) ==> lookup_result(json_object(blob@).unwrap(), key@) == Err::<
            Seq<char>,
            ContractError,
        >(e),
{
    match decode(blob) {
        Some(metadata) => Some(lookup_in(&metadata, key)),
        None => None,
    }
}

} // verus!
