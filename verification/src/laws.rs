//! The engine's laws, stated and proved over the models.

use vstd::prelude::*;
use crate::json::JVal;
use crate::store::DbV;
use crate::store::set_spec;
use crate::store::clear_spec;
use crate::incoming::StagedV;
use crate::incoming::ActionV;
use crate::incoming::merged_map;
use crate::incoming::apply_seq_spec;
use crate::incoming::stage_spec;
use crate::incoming::PayloadV;
use crate::outgoing::eligible;
use crate::outgoing::record_seq_spec;
use crate::outgoing::record_one_spec;
use crate::outgoing::OutV;

verus! {

/// Idempotence of no-op cycles: with an empty incoming batch and no pending
/// local change, staging yields nothing, applying changes nothing, no key
/// owes an upload, and recording the empty upload changes nothing.
pub proof fn lemma_noop_cycle(db: DbV, ts: int)
    requires
        forall|k: Seq<char>| #[trigger] db.local.contains_key(k) ==> !db.local[k].pending,
    ensures
        stage_spec(Seq::<PayloadV>::empty()) == Seq::<StagedV>::empty(),
        apply_seq_spec(db, Seq::<(StagedV, ActionV)>::empty()) == db,
        forall|k: Seq<char>| !eligible(db, k),
        record_seq_spec(db, Seq::<crate::outgoing::OutV>::empty(), ts) == db,
{
}

/// Convergence: the merge keeps every local-only field, adopts every field
/// both sides agree on and every field the server changed, and covers
/// exactly the union of both sides' fields.  It is tagged `Same` exactly
/// when the result equals the incoming object (see `merge`'s contract).
pub proof fn lemma_convergence(
    inc: Map<Seq<char>, JVal>,
    loc: Map<Seq<char>, JVal>,
    base: Option<Map<Seq<char>, JVal>>,
)
    ensures
        forall|k: Seq<char>|
            #[trigger] merged_map(inc, loc, base).contains_key(k) <==> (inc.contains_key(k)
                || loc.contains_key(k)),
        forall|k: Seq<char>|
            loc.contains_key(k) && !inc.contains_key(k) ==> #[trigger] merged_map(inc, loc, base)[k]
                == loc[k],
        forall|k: Seq<char>|
            inc.contains_key(k) && !loc.contains_key(k) ==> #[trigger] merged_map(inc, loc, base)[k]
                == inc[k],
        forall|k: Seq<char>|
            inc.contains_key(k) && loc.contains_key(k) && loc[k] == inc[k]
                ==> #[trigger] merged_map(inc, loc, base)[k] == inc[k],
        forall|k: Seq<char>|
            inc.contains_key(k) && loc.contains_key(k) && loc[k] != inc[k] && !(base matches Some(b)
                && b.contains_key(k) && b[k] == inc[k]) ==> #[trigger] merged_map(inc, loc, base)[k]
                == inc[k],
{
}

/// Server-wins on forced conflict: where both sides changed a field away
/// from the baseline, and differently, the merged field is the incoming one.
pub proof fn lemma_server_wins_on_forced_conflict(
    inc: Map<Seq<char>, JVal>,
    loc: Map<Seq<char>, JVal>,
    base: Map<Seq<char>, JVal>,
    k: Seq<char>,
)
    requires
        inc.contains_key(k),
        loc.contains_key(k),
        base.contains_key(k),
        base[k] != inc[k],
        loc[k] != inc[k],
        loc[k] != base[k],
    ensures
        merged_map(inc, loc, Some(base))[k] == inc[k],
{
}

/// Local-wins on stale server: where the baseline matches the incoming
/// field, only the local side changed it, and the merged field is local.
pub proof fn lemma_local_wins_on_stale_server(
    inc: Map<Seq<char>, JVal>,
    loc: Map<Seq<char>, JVal>,
    base: Map<Seq<char>, JVal>,
    k: Seq<char>,
)
    requires
        inc.contains_key(k),
        loc.contains_key(k),
        base.contains_key(k),
        base[k] == inc[k],
        loc[k] != inc[k],
    ensures
        merged_map(inc, loc, Some(base))[k] == loc[k],
{
}

/// Tombstone non-generation: creating a key and clearing it before any sync
/// leaves no local row, no mirror row, and nothing to upload for that key.
pub proof fn lemma_tombstone_non_generation(db: DbV, k: Seq<char>, v: JVal)
    requires
        !db.mirror.contains_key(k),
    ensures
        ({
            let db2 = clear_spec(set_spec(db, k, v), k);
            !db2.local.contains_key(k) && !db2.mirror.contains_key(k) && !eligible(db2, k)
        }),
{
}

/// Recording one uploaded record a second time leaves the stores unchanged:
/// the upload recorder's per-record step is idempotent.
pub proof fn lemma_record_one_idempotent(db: DbV, o: OutV, ts: int)
    ensures
        record_one_spec(record_one_spec(db, o, ts), o, ts) == record_one_spec(db, o, ts),
{
    let db1 = record_one_spec(db, o, ts);
    let db2 = record_one_spec(db1, o, ts);
    match o.data {
        None => {
            assert(db2.local =~= db1.local);
            assert(db2.mirror =~= db1.mirror);
        },
        Some(_) => {
            assert(db2.local =~= db1.local);
            assert(db2.mirror =~= db1.mirror);
        },
    }
}

} // verus!
