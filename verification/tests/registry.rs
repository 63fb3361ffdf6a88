use attestation_explorer::codec::{decode, encode, lookup, lookup_in, try_lookup};
use attestation_explorer::ids::decimal_string;
use attestation_explorer::{
    Attestation, AttestationExplorer, AttestationParts, AttestationStore, ContractError,
    HostContext, IdAllocator, IdPolicy, Metadata, Payload, ReputationTally, SchemaList,
};

fn text(s: &str) -> String {
    s.to_string()
}

fn ctx(caller: &str, timestamp_ms: u64) -> HostContext {
    HostContext { caller: text(caller), timestamp_ms }
}

fn payload(id: Option<&str>, project: &str) -> Payload {
    Payload {
        id: id.map(text),
        project_id: text(project),
        description: text("a claim"),
        evidence_uri: text("https://example.org/evidence"),
        schema: None,
    }
}

fn payload_with(id: Option<&str>, project: &str, pairs: &[(&str, &str)]) -> Payload {
    let mut metadata = Metadata::new();
    for (k, v) in pairs {
        metadata.insert(text(k), text(v));
    }
    Payload { schema: Some(metadata), ..payload(id, project) }
}

fn ids(records: &[Attestation]) -> Vec<String> {
    records.iter().map(|r| r.id().clone()).collect()
}

#[test]
fn new_registry_is_empty() {
    let registry = AttestationExplorer::new();
    assert!(registry.get_attestations().is_empty());
    assert!(registry.get_last_attestation().is_none());
    assert!(registry.get_attestation(&text("att-1")).is_none());
    assert!(registry.can_create());
}

#[test]
fn create_returns_the_supplied_id_and_stores_the_record() {
    let mut registry = AttestationExplorer::new();
    let id = registry.create_attestation(payload(Some("att-1"), "proj-x"), &ctx("alice.near", 1700));
    assert_eq!(id, Ok(text("att-1")));
    let stored = registry.get_attestation(&text("att-1")).unwrap();
    assert_eq!(stored.id(), "att-1");
    assert_eq!(stored.project_id(), "proj-x");
    assert_eq!(stored.attestor(), "alice.near");
    assert_eq!(stored.description(), "a claim");
    assert_eq!(stored.evidence_uri(), "https://example.org/evidence");
    assert_eq!(stored.created_at(), 1700);
    assert_eq!(stored.upvotes(), 0);
    assert_eq!(stored.downvotes(), 0);
    assert!(stored.schema().is_none());
}

#[test]
fn one_record_per_id_and_the_last_creation_wins() {
    let mut registry = AttestationExplorer::new();
    registry.create_attestation(payload(Some("a"), "first"), &ctx("alice", 1)).unwrap();
    registry.create_attestation(payload(Some("b"), "second"), &ctx("bob", 2)).unwrap();
    registry.create_attestation(payload(Some("a"), "third"), &ctx("carol", 3)).unwrap();
    let all = registry.get_attestations();
    assert_eq!(ids(&all), vec![text("a"), text("b")]);
    let a = registry.get_attestation(&text("a")).unwrap();
    assert_eq!(a.project_id(), "third");
    assert_eq!(a.attestor(), "carol");
    assert_eq!(a.created_at(), 3);
}

#[test]
fn overwriting_keeps_the_place_of_the_identifier() {
    let mut registry = AttestationExplorer::new();
    registry.create_attestation(payload(Some("a"), "first"), &ctx("alice", 1)).unwrap();
    registry.create_attestation(payload(Some("b"), "second"), &ctx("bob", 2)).unwrap();
    registry.create_attestation(payload(Some("a"), "third"), &ctx("carol", 3)).unwrap();
    let last = registry.get_last_attestation().unwrap();
    assert_eq!(last.id(), "b");
    let all = registry.get_attestations();
    assert_eq!(all[0].project_id(), "third");
    assert_eq!(all[1].project_id(), "second");
}

#[test]
fn overwriting_resets_the_counters() {
    let mut registry = AttestationExplorer::new();
    registry.create_attestation(payload(Some("a"), "first"), &ctx("alice", 1)).unwrap();
    assert!(registry.upvote_attestation(&text("a")));
    registry.create_attestation(payload(Some("a"), "again"), &ctx("alice", 2)).unwrap();
    let a = registry.get_attestation(&text("a")).unwrap();
    assert_eq!(a.upvotes(), 0);
    assert_eq!(a.downvotes(), 0);
}

#[test]
fn last_attestation_is_the_last_created() {
    let mut registry = AttestationExplorer::new();
    for id in ["A", "B", "C"] {
        registry.create_attestation(payload(Some(id), "proj"), &ctx("alice", 5)).unwrap();
    }
    assert_eq!(registry.get_last_attestation().unwrap().id(), "C");
    assert_eq!(ids(&registry.get_attestations()), vec![text("A"), text("B"), text("C")]);
}

#[test]
fn votes_are_counted_whatever_their_order() {
    let mut one = AttestationExplorer::new();
    let mut other = AttestationExplorer::new();
    one.create_attestation(payload(Some("x"), "proj"), &ctx("alice", 5)).unwrap();
    other.create_attestation(payload(Some("x"), "proj"), &ctx("alice", 5)).unwrap();
    let id = text("x");
    for up in [true, false, true, true, false] {
        if up {
            assert!(one.upvote_attestation(&id));
        } else {
            assert!(one.downvote_attestation(&id));
        }
    }
    for up in [false, false, true, true, true] {
        if up {
            assert!(other.upvote_attestation(&id));
        } else {
            assert!(other.downvote_attestation(&id));
        }
    }
    let a = one.get_attestation(&id).unwrap();
    let b = other.get_attestation(&id).unwrap();
    assert_eq!((a.upvotes(), a.downvotes()), (3, 2));
    assert_eq!((b.upvotes(), b.downvotes()), (3, 2));
}

#[test]
fn votes_leave_the_other_fields_and_records_alone() {
    let mut registry = AttestationExplorer::new();
    registry
        .create_attestation(payload_with(Some("a"), "pa", &[("k", "v")]), &ctx("alice", 1))
        .unwrap();
    registry.create_attestation(payload(Some("b"), "pb"), &ctx("bob", 2)).unwrap();
    assert!(registry.downvote_attestation(&text("a")));
    let a = registry.get_attestation(&text("a")).unwrap();
    assert_eq!(a.project_id(), "pa");
    assert_eq!(a.attestor(), "alice");
    assert_eq!(a.created_at(), 1);
    assert_eq!(a.schema_value(&text("k")), Ok(text("v")));
    assert_eq!((a.upvotes(), a.downvotes()), (0, 1));
    let b = registry.get_attestation(&text("b")).unwrap();
    assert_eq!((b.upvotes(), b.downvotes()), (0, 0));
    assert_eq!(ids(&registry.get_attestations()), vec![text("a"), text("b")]);
}

#[test]
fn an_id_never_created_is_absent() {
    let mut registry = AttestationExplorer::new();
    registry.create_attestation(payload(Some("a"), "proj"), &ctx("alice", 1)).unwrap();
    let ghost = text("ghost");
    assert!(registry.get_attestation(&ghost).is_none());
    assert!(registry.can_upvote(&ghost));
    assert!(!registry.upvote_attestation(&ghost));
    assert!(!registry.downvote_attestation(&ghost));
    let all = registry.get_attestations();
    assert_eq!(all.len(), 1);
    assert_eq!(all[0].id(), "a");
    assert_eq!((all[0].upvotes(), all[0].downvotes()), (0, 0));
}

#[test]
fn schema_lookup() {
    let mut registry = AttestationExplorer::new();
    registry
        .create_attestation(
            payload_with(Some("att-1"), "proj-x", &[("severity", "high")]),
            &ctx("alice", 1),
        )
        .unwrap();
    assert_eq!(registry.get_schema_value(text("att-1"), text("severity")), Ok(text("high")));
    assert_eq!(
        registry.get_schema_value(text("att-1"), text("missing")),
        Err(ContractError::KeyNotFound)
    );
    assert_eq!(
        registry.get_schema_value(text("att-1"), text("Severity")),
        Err(ContractError::KeyNotFound)
    );
    assert_eq!(
        registry.get_schema_value(text("unknown"), text("severity")),
        Err(ContractError::AttestationNotFound { id: text("unknown") })
    );
}

#[test]
fn a_record_without_metadata_has_no_keys() {
    let mut registry = AttestationExplorer::new();
    registry.create_attestation(payload(Some("a"), "proj"), &ctx("alice", 1)).unwrap();
    assert_eq!(
        registry.get_schema_value(text("a"), text("severity")),
        Err(ContractError::KeyNotFound)
    );
}

#[test]
fn end_to_end() {
    let mut registry = AttestationExplorer::new();
    let id = registry
        .create_attestation(payload(Some("att-1"), "proj-x"), &ctx("creator.near", 1_700_000_000_123))
        .unwrap();
    assert_eq!(id, "att-1");
    assert!(registry.upvote_attestation(&id));
    assert!(registry.upvote_attestation(&id));
    assert!(registry.downvote_attestation(&id));
    let stored = registry.get_attestation(&id).unwrap();
    assert_eq!(stored.upvotes(), 2);
    assert_eq!(stored.downvotes(), 1);
    assert_eq!(stored.attestor(), "creator.near");
    assert_eq!(stored.created_at(), 1_700_000_000_123);
    assert_eq!(stored.project_id(), "proj-x");
}

#[test]
fn a_payload_without_project_is_invalid() {
    let mut registry = AttestationExplorer::new();
    let r = registry.create_attestation(payload(Some("a"), ""), &ctx("alice", 1));
    assert_eq!(r, Err(ContractError::InvalidPayload));
    assert!(registry.get_attestations().is_empty());
    let mut numbered = AttestationExplorer::with_policy(IdPolicy::Sequential);
    let r = numbered.create_attestation(payload(None, ""), &ctx("alice", 1));
    assert_eq!(r, Err(ContractError::InvalidPayload));
    let r = numbered.create_attestation(payload(None, "proj"), &ctx("alice", 1));
    assert_eq!(r, Ok(text("0")));
}

#[test]
fn an_explicit_registry_wants_an_id() {
    let mut registry = AttestationExplorer::new();
    let r = registry.create_attestation(payload(None, "proj"), &ctx("alice", 1));
    assert_eq!(r, Err(ContractError::InvalidPayload));
    let r = registry.create_attestation(payload(Some(""), "proj"), &ctx("alice", 1));
    assert_eq!(r, Err(ContractError::InvalidPayload));
    assert!(registry.get_attestations().is_empty());
}

#[test]
fn other_fields_may_be_empty() {
    let mut registry = AttestationExplorer::new();
    let p = Payload {
        id: Some(text("a")),
        project_id: text("proj"),
        description: text(""),
        evidence_uri: text(""),
        schema: None,
    };
    assert_eq!(registry.create_attestation(p, &ctx("", 0)), Ok(text("a")));
    let a = registry.get_attestation(&text("a")).unwrap();
    assert_eq!(a.description(), "");
    assert_eq!(a.evidence_uri(), "");
    assert_eq!(a.attestor(), "");
}

#[test]
fn a_sequential_registry_numbers_its_records() {
    let mut registry = AttestationExplorer::with_policy(IdPolicy::Sequential);
    let first = registry.create_attestation(payload(None, "proj-0"), &ctx("alice", 1));
    let second = registry.create_attestation(payload(Some("mine"), "proj-1"), &ctx("bob", 2));
    let third = registry.create_attestation(payload(Some("0"), "proj-2"), &ctx("carol", 3));
    assert_eq!(first, Ok(text("0")));
    assert_eq!(second, Ok(text("1")));
    assert_eq!(third, Ok(text("2")));
    assert_eq!(ids(&registry.get_attestations()), vec![text("0"), text("1"), text("2")]);
    assert_eq!(registry.get_attestation(&text("0")).unwrap().project_id(), "proj-0");
    assert_eq!(registry.get_last_attestation().unwrap().project_id(), "proj-2");
    assert!(registry.get_attestation(&text("mine")).is_none());
}

#[test]
fn allocator_passes_through_or_counts() {
    let mut explicit = IdAllocator::new(IdPolicy::Explicit);
    assert_eq!(explicit.get_policy(), IdPolicy::Explicit);
    assert!(explicit.can_allocate());
    assert_eq!(explicit.allocate(Some(text("abc"))), Ok(text("abc")));
    assert_eq!(explicit.allocate(None), Err(ContractError::InvalidPayload));
    assert_eq!(explicit.allocate(Some(text(""))), Err(ContractError::InvalidPayload));
    let mut counting = IdAllocator::new(IdPolicy::Sequential);
    assert!(counting.can_allocate());
    for n in 0..12u64 {
        assert_eq!(counting.allocate(None), Ok(n.to_string()));
    }
    assert_eq!(counting.allocate(Some(text("abc"))), Ok(text("12")));
}

#[test]
fn decimal_strings() {
    assert_eq!(decimal_string(0), "0");
    assert_eq!(decimal_string(7), "7");
    assert_eq!(decimal_string(9), "9");
    assert_eq!(decimal_string(10), "10");
    assert_eq!(decimal_string(109), "109");
    assert_eq!(decimal_string(1234567890), "1234567890");
    assert_eq!(decimal_string(u64::MAX), "18446744073709551615");
}

#[test]
fn error_messages() {
    assert_eq!(ContractError::KeyNotFound.message(), "Key not found");
    assert_eq!(
        ContractError::AttestationNotFound { id: text("att-9") }.message(),
        "Attestation not found with id: att-9"
    );
    assert_eq!(ContractError::InvalidPayload.message(), "Invalid payload");
}

#[test]
fn metadata_insert_and_get() {
    let mut m = Metadata::new();
    assert!(m.get(&text("a")).is_none());
    m.insert(text("a"), text("1"));
    m.insert(text("b"), text("2"));
    assert_eq!(m.get(&text("a")), Some(&text("1")));
    assert_eq!(m.get(&text("b")), Some(&text("2")));
    m.insert(text("a"), text("3"));
    assert_eq!(m.get(&text("a")), Some(&text("3")));
    assert_eq!(m.get(&text("b")), Some(&text("2")));
    assert!(m.get(&text("A")).is_none());
    assert!(m.get(&text("")).is_none());
}

#[test]
fn metadata_len_and_entries() {
    let mut m = Metadata::new();
    assert_eq!(m.len(), 0);
    assert!(m.to_vec().is_empty());
    m.insert(text("a"), text("1"));
    m.insert(text("b"), text("2"));
    m.insert(text("a"), text("3"));
    assert_eq!(m.len(), 2);
    let mut entries = m.to_vec();
    entries.sort();
    assert_eq!(entries, vec![(text("a"), text("3")), (text("b"), text("2"))]);
}

#[test]
fn encode_writes_json() {
    let mut m = Metadata::new();
    assert_eq!(encode(&m), "{}");
    m.insert(text("severity"), text("high"));
    assert_eq!(encode(&m), "{\"severity\":\"high\"}");
}

#[test]
fn decode_reads_json() {
    let m = decode("{ \"severity\" : \"high\", \"kind\": \"audit\" }").unwrap();
    assert_eq!(m.get(&text("severity")), Some(&text("high")));
    assert_eq!(m.get(&text("kind")), Some(&text("audit")));
    assert!(m.get(&text("other")).is_none());
    let twice = decode("{\"k\":\"first\",\"k\":\"second\"}").unwrap();
    assert_eq!(twice.get(&text("k")), Some(&text("second")));
}

#[test]
fn decode_rejects_what_is_no_string_map() {
    assert!(decode("").is_none());
    assert!(decode("not json").is_none());
    assert!(decode("[]").is_none());
    assert!(decode("{\"a\":1}").is_none());
    assert!(decode("{\"a\":\"b\"} trailing").is_none());
    assert!(decode("{\"a\":\"b\"").is_none());
}

#[test]
fn decode_undoes_encode() {
    let pairs = [
        ("severity", "high"),
        ("", "empty key"),
        ("empty value", ""),
        ("quote\"d", "back\\slash"),
        ("line\nbreak", "tab\there"),
        ("caf\u{e9}", "\u{1F600} \u{0}\u{1f}"),
        ("{\"nested\":\"json\"}", "[1,2,3]"),
    ];
    let mut m = Metadata::new();
    for (k, v) in pairs {
        m.insert(text(k), text(v));
    }
    let blob = encode(&m);
    let back = decode(&blob).unwrap();
    for (k, v) in pairs {
        assert_eq!(back.get(&text(k)), Some(&text(v)));
    }
    assert!(back.get(&text("absent")).is_none());
    assert_eq!(back.len(), pairs.len());
    assert_eq!(decode(&encode(&back)).unwrap().get(&text("severity")), Some(&text("high")));
    let empty = decode(&encode(&Metadata::new())).unwrap();
    assert!(empty.get(&text("severity")).is_none());
}

#[test]
fn lookups() {
    let mut m = Metadata::new();
    m.insert(text("severity"), text("high"));
    assert_eq!(lookup_in(&m, &text("severity")), Ok(text("high")));
    assert_eq!(lookup_in(&m, &text("missing")), Err(ContractError::KeyNotFound));
    let blob = "{\"severity\":\"high\"}";
    assert_eq!(lookup(blob, &text("severity")), Ok(text("high")));
    assert_eq!(lookup(blob, &text("severit")), Err(ContractError::KeyNotFound));
    assert_eq!(try_lookup(blob, &text("severity")), Some(Ok(text("high"))));
    assert_eq!(try_lookup(blob, &text("missing")), Some(Err(ContractError::KeyNotFound)));
    assert_eq!(try_lookup("{", &text("severity")), None);
}

#[test]
fn a_record_keeps_its_metadata_encoded() {
    let record = Attestation::from_payload(
        text("a"),
        payload_with(None, "proj", &[("severity", "high")]),
        &ctx("alice", 9),
    );
    assert_eq!(record.schema(), Some(&text("{\"severity\":\"high\"}")));
    assert_eq!(record.schema_value(&text("severity")), Ok(text("high")));
    assert_eq!(record.schema_value(&text("missing")), Err(ContractError::KeyNotFound));
    let copy = record.clone();
    assert_eq!(copy.id(), "a");
    assert_eq!(copy.schema(), record.schema());
}

#[test]
fn parts_of_a_record() {
    let mut record = Attestation::from_payload(
        text("a"),
        payload_with(None, "proj", &[("severity", "high")]),
        &ctx("alice", 9),
    );
    assert!(record.has_room_for(2, 1));
    record.add_votes(2, 1);
    let parts = record.into_parts();
    assert_eq!(parts.id, "a");
    assert_eq!(parts.project_id, "proj");
    assert_eq!(parts.attestor, "alice");
    assert_eq!(parts.created_at, 9);
    assert_eq!(parts.schema, Some(text("{\"severity\":\"high\"}")));
    assert_eq!((parts.upvotes, parts.downvotes), (2, 1));
    let again = Attestation::from_parts(parts).unwrap();
    assert_eq!(again.id(), "a");
    assert_eq!((again.upvotes(), again.downvotes()), (2, 1));
    assert_eq!(again.schema_value(&text("severity")), Ok(text("high")));
}

fn parts(id: &str, schema: Option<&str>, upvotes: u64, downvotes: u64) -> AttestationParts {
    AttestationParts {
        id: text(id),
        project_id: text("proj"),
        attestor: text("alice"),
        description: text(""),
        evidence_uri: text(""),
        created_at: 1,
        schema: schema.map(text),
        upvotes,
        downvotes,
    }
}

#[test]
fn parts_with_an_unreadable_blob_make_no_record() {
    assert!(Attestation::from_parts(parts("a", Some("{broken"), 0, 0)).is_none());
    assert!(Attestation::from_parts(parts("a", Some("{\"n\":1}"), 0, 0)).is_none());
    assert!(Attestation::from_parts(parts("a", Some("{}"), 0, 0)).is_some());
    assert!(Attestation::from_parts(parts("a", None, 0, 0)).is_some());
}

#[test]
fn store_operations() {
    let mut store = AttestationStore::new();
    assert_eq!(store.len(), 0);
    assert!(store.last().is_none());
    store.create(Attestation::from_parts(parts("a", None, 0, 0)).unwrap());
    store.create(Attestation::from_parts(parts("b", None, 5, 6)).unwrap());
    assert_eq!(store.len(), 2);
    assert_eq!(store.last().unwrap().id(), "b");
    assert!(store.has_room_for(&text("b"), 10, 20));
    assert!(store.mutate_counters(&text("b"), 10, 20));
    let b = store.get(&text("b")).unwrap();
    assert_eq!((b.upvotes(), b.downvotes()), (15, 26));
    assert!(store.mutate_counters(&text("b"), 0, 0));
    assert!(!store.mutate_counters(&text("c"), 1, 1));
    assert_eq!(ids(&store.list()), vec![text("a"), text("b")]);
    store.create(Attestation::from_parts(parts("a", None, 1, 1)).unwrap());
    assert_eq!(store.len(), 2);
    assert_eq!(store.get(&text("a")).unwrap().upvotes(), 1);
    assert!(store.get(&text("c")).is_none());
}

#[test]
fn full_counters_have_no_room() {
    let mut store = AttestationStore::new();
    store.create(Attestation::from_parts(parts("full", None, u64::MAX, u64::MAX - 1)).unwrap());
    assert!(!store.has_room_for(&text("full"), 1, 0));
    assert!(store.has_room_for(&text("full"), 0, 1));
    assert!(!store.has_room_for(&text("full"), 0, 2));
    assert!(store.has_room_for(&text("absent"), u64::MAX, u64::MAX));
    assert!(store.mutate_counters(&text("full"), 0, 1));
    let full = store.get(&text("full")).unwrap();
    assert_eq!((full.upvotes(), full.downvotes()), (u64::MAX, u64::MAX));
    assert!(!store.has_room_for(&text("full"), 0, 1));
}

#[test]
fn tally_counts() {
    let mut tally = ReputationTally::new();
    assert_eq!((tally.upvotes(), tally.downvotes()), (0, 0));
    tally.increment_up();
    tally.increment_up();
    tally.increment_down();
    assert_eq!((tally.upvotes(), tally.downvotes()), (2, 1));
    tally.add(3, 4);
    assert_eq!((tally.upvotes(), tally.downvotes()), (5, 5));
    let near_full = ReputationTally::with_counts(u64::MAX - 1, u64::MAX);
    assert!(near_full.has_room_for(1, 0));
    assert!(!near_full.has_room_for(2, 0));
    assert!(!near_full.has_room_for(0, 1));
}

#[test]
fn the_registry_keeps_one_list() {
    assert_eq!(SchemaList::AttestationList, SchemaList::AttestationList);
}
