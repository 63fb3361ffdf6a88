//! What holds of a registry over any run of creations and votes.

use crate::attestation::{payload_metadata, record_of, AttestationView, HostContext, Payload};
use crate::codec::lookup_result;
use crate::error::ContractError;
use crate::store::{
    contains_id, ids_distinct, lemma_position, lemma_put_keeps_ids_distinct,
    lemma_put_keeps_others, lemma_put_stores, lemma_update_keeps_ids, lemma_votes_counted,
    position, put, record,
    stored_at, with_votes,
};
use vstd::prelude::*;

verus! {

/// The records after each record of `rs` was stored in turn, starting from
/// the records `s`.
pub open spec fn put_all(s: Seq<AttestationView>, rs: Seq<AttestationView>) -> Seq<
    AttestationView,
>
    decreases rs.len(),
{
    if rs.len() == 0 {
        s
    } else {
        put(put_all(s, rs.drop_last()), rs.last())
    }
}

/// The records after each vote of `votes` was cast in turn for the record
/// under `id`: `true` is an upvote, `false` a downvote.
pub open spec fn cast_all(s: Seq<AttestationView>, id: Seq<char>, votes: Seq<bool>) -> Seq<
    AttestationView,
>
    decreases votes.len(),
{
    if votes.len() == 0 {
        s
    } else if votes.last() {
        with_votes(cast_all(s, id, votes.drop_last()), id, 1, 0)
    } else {
        with_votes(cast_all(s, id, votes.drop_last()), id, 0, 1)
    }
}

/// How many votes of `votes` are of the kind `kind`.
pub open spec fn tally_of(votes: Seq<bool>, kind: bool) -> nat
    decreases votes.len(),
{
    if votes.len() == 0 {
        0
    } else if votes.last() == kind {
        tally_of(votes.drop_last(), kind) + 1
    } else {
        tally_of(votes.drop_last(), kind)
    }
}

/// However many records are stored, and under whatever identifiers, no two
/// of the records kept share an identifier.
pub proof fn lemma_creations_keep_ids_distinct(s: Seq<AttestationView>, rs: Seq<AttestationView>)
    requires
        ids_distinct(s),
    ensures
        ids_distinct(put_all(s, rs)),
    decreases rs.len(),
{
    if rs.len() > 0 {
        lemma_creations_keep_ids_distinct(s, rs.drop_last());
        lemma_put_keeps_ids_distinct(put_all(s, rs.drop_last()), rs.last());
    }
}

/// Of the records stored under one identifier, the one stored last is the
/// one kept: if no later record of `rs` has the identifier of `rs[i]`, then
/// `rs[i]` is what is found under it.
pub proof fn lemma_last_creation_wins(
    s: Seq<AttestationView>,
    rs: Seq<AttestationView>,
    i: int,
)
    requires
        ids_distinct(s),
        0 <= i < rs.len(),
        forall|j: int| i < j < rs.len() ==> rs[j].id != rs[i].id,
    ensures
        record(put_all(s, rs), rs[i].id) == Some(rs[i]),
    decreases rs.len(),
{
    let before = put_all(s, rs.drop_last());
    lemma_creations_keep_ids_distinct(s, rs.drop_last());
    if i == rs.len() - 1 {
        lemma_put_stores(before, rs.last());
    } else {
        lemma_last_creation_wins(s, rs.drop_last(), i);
        lemma_put_keeps_others(before, rs.last(), rs[i].id);
    }
}

/// Nothing is found under an identifier that was free at the start and that
/// no stored record has.
pub proof fn lemma_never_created_is_absent(
    s: Seq<AttestationView>,
    rs: Seq<AttestationView>,
    id: Seq<char>,
)
    requires
        ids_distinct(s),
        !contains_id(s, id),
        forall|j: int| 0 <= j < rs.len() ==> rs[j].id != id,
    ensures
        record(put_all(s, rs), id) is None,
    decreases rs.len(),
{
    if rs.len() > 0 {
        let before = put_all(s, rs.drop_last());
        lemma_creations_keep_ids_distinct(s, rs.drop_last());
        lemma_never_created_is_absent(s, rs.drop_last(), id);
        lemma_put_keeps_others(before, rs.last(), id);
    }
}

/// What a lookup in the metadata of a record just created gives is what a
/// lookup in the payload's metadata gives; for a payload without metadata
/// it is `KeyNotFound`.
pub proof fn lemma_created_metadata_is_found(
    s: Seq<AttestationView>,
    id: Seq<char>,
    payload: Payload,
    ctx: HostContext,
    key: Seq<char>,
)
    requires
        ids_distinct(s),
    ensures
        record(put(s, record_of(id, payload, ctx)), id) == Some(record_of(id, payload, ctx)),
        record_of(id, payload, ctx).schema_value(key) == match payload_metadata(payload) {
            Some(metadata) => lookup_result(metadata, key),
            None => Err(ContractError::KeyNotFound),
        },
{
    lemma_put_stores(s, record_of(id, payload, ctx));
}

/// Votes cast one after the other add up.
pub proof fn lemma_votes_compose(
    s: Seq<AttestationView>,
    id: Seq<char>,
    up: nat,
    down: nat,
    more_up: nat,
    more_down: nat,
)
    requires
        ids_distinct(s),
    ensures
        with_votes(with_votes(s, id, up, down), id, more_up, more_down) == with_votes(
            s,
            id,
            up + more_up,
            down + more_down,
        ),
{
    if contains_id(s, id) {
        let i = position(s, id);
        assert(stored_at(s, id, i));
        let t = with_votes(s, id, up, down);
        lemma_update_keeps_ids(s, i, s[i].voted(up, down));
        lemma_position(t, id, i);
        assert(t[i].voted(more_up, more_down) == s[i].voted(up + more_up, down + more_down));
        assert(t.update(i, t[i].voted(more_up, more_down)) =~= s.update(
            i,
            s[i].voted(up + more_up, down + more_down),
        ));
    }
}

/// After any run of votes for the record under `id`, its counters have
/// grown by the number of upvotes and the number of downvotes in the run,
/// in whatever order they were cast, and nothing else has changed.
pub proof fn lemma_votes_add_up(s: Seq<AttestationView>, id: Seq<char>, votes: Seq<bool>)
    requires
        ids_distinct(s),
    ensures
        cast_all(s, id, votes) == with_votes(s, id, tally_of(votes, true), tally_of(votes, false)),
    decreases votes.len(),
{
    if votes.len() == 0 {
        if contains_id(s, id) {
            let i = position(s, id);
            assert(stored_at(s, id, i));
            assert(s[i].voted(0, 0) == s[i]);
            assert(s.update(i, s[i]) =~= s);
        }
    } else {
        let rest = votes.drop_last();
        lemma_votes_add_up(s, id, rest);
        if votes.last() {
            lemma_votes_compose(s, id, tally_of(rest, true), tally_of(rest, false), 1, 0);
        } else {
            lemma_votes_compose(s, id, tally_of(rest, true), tally_of(rest, false), 0, 1);
        }
    }
}

/// A record that was stored with both counters at zero shows, after a run
/// of votes for it, exactly the number of upvotes and of downvotes cast.
pub proof fn lemma_counters_equal_votes_cast(
    s: Seq<AttestationView>,
    r: AttestationView,
    votes: Seq<bool>,
)
    requires
        ids_distinct(s),
        r.upvotes == 0,
        r.downvotes == 0,
    ensures
        record(cast_all(put(s, r), r.id, votes), r.id) == Some(
            r.voted(tally_of(votes, true), tally_of(votes, false)),
        ),
        r.voted(tally_of(votes, true), tally_of(votes, false)).upvotes == tally_of(votes, true),
        r.voted(tally_of(votes, true), tally_of(votes, false)).downvotes == tally_of(
            votes,
            false,
        ),
{
    let t = put(s, r);
    lemma_put_keeps_ids_distinct(s, r);
    lemma_put_stores(s, r);
    lemma_votes_add_up(t, r.id, votes);
    lemma_votes_counted(t, r.id, tally_of(votes, true), tally_of(votes, false));
}

/// Votes for an identifier under which nothing is stored change nothing.
pub proof fn lemma_votes_for_absent_change_nothing(
    s: Seq<AttestationView>,
    id: Seq<char>,
    votes: Seq<bool>,
)
    requires
        !contains_id(s, id),
    ensures
        cast_all(s, id, votes) == s,
    decreases votes.len(),
{
    if votes.len() > 0 {
        lemma_votes_for_absent_change_nothing(s, id, votes.drop_last());
    }
}

} // verus!
