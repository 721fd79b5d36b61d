//! The outgoing half of a sync cycle: diffing the local store for the
//! upload batch and folding a confirmed upload back into the mirror.

use vstd::prelude::*;
use crate::json::JVal;
use crate::json::opt_v;
use crate::json::opt_wf;
use crate::json::json_clone_opt;
use crate::store::Db;
use crate::store::DbV;
use crate::store::LocalV;
use crate::store::MirrorV;
use crate::table::lemma_tbl_contains;
use crate::table::lemma_tbl_index;
use crate::CancelSignal;
use crate::Error;

verus! {

/// One record of the upload batch: data to push, or a tombstone when the
/// data is `None`.
#[derive(Debug)]
pub struct OutgoingInfo {
    pub server_id: String,
    pub key: String,
    pub data: Option<crate::json::JsonValue>,
}

/// The model of an outgoing record.
pub struct OutV {
    pub server_id: Seq<char>,
    pub key: Seq<char>,
    pub data: Option<JVal>,
}

impl DeepView for OutgoingInfo {
    type V = OutV;

    open spec fn deep_view(&self) -> OutV {
        OutV { server_id: self.server_id@, key: self.key@, data: opt_v(self.data) }
    }
}

impl OutgoingInfo {
    /// The carried data has unique keys throughout.
    pub open spec fn wf(self) -> bool {
        opt_wf(self.data)
    }
}

/// Whether a key owes the server an upload: it is pending, and it is either
/// data or a tombstone the server has a row for.  A value created and
/// cleared without an intervening sync is not eligible: it leaves no trace.
pub open spec fn eligible(db: DbV, k: Seq<char>) -> bool {
    db.local.contains_key(k) && db.local[k].pending && (db.local[k].payload is Some
        || db.mirror.contains_key(k))
}

/// What one outgoing record must say for its key: the local payload, under
/// the mirror's server id when the mirror has one (a key the server has
/// never seen gets a fresh id).
pub open spec fn out_item_ok(db: DbV, o: OutV) -> bool {
    eligible(db, o.key) && o.data == db.local[o.key].payload && (db.mirror.contains_key(o.key)
        ==> o.server_id == db.mirror[o.key].server_id)
}

/// Relies on rand::random for a fresh record id: sixteen lower-case hex
/// digits of a random machine word.  Nothing but the length is promised of
/// it.
#[verifier::external_body]
fn new_server_id() -> (r: String)
    ensures
        r@.len() == 16,
{
    format!("{:016x}", rand::random::<u64>())
}

/// Scans the local store for pending changes and builds the upload batch.
/// Order is unspecified set semantics: every eligible key appears exactly
/// once, and nothing else appears.
pub fn get_outgoing(db: &Db, cancel: &CancelSignal) -> (r: Result<Vec<OutgoingInfo>, Error>)
    requires
        db.wf(),
    ensures
        r is Ok <==> !cancel.raised,
        match r {
            Ok(out) => (forall|i: int|
                0 <= i < out@.len() ==> out_item_ok(db@, (#[trigger] out@[i]).deep_view())
                    && out@[i].wf()) && (forall|i: int, j: int|
                0 <= i < j < out@.len() ==> out@[i].key@ != out@[j].key@) && (forall|k: Seq<char>|
                eligible(db@, k) ==> exists|i: int|
                    0 <= i < out@.len() && (#[trigger] out@[i].key@) == k),
            Err(e) => e == Error::Interrupted,
        },
{
    let mut out: Vec<OutgoingInfo> = Vec::new();
    let n = db.local.rows.len();
    let mut i: usize = 0;
    while i < n
        invariant
            db.wf(),
            n == db.local.rows@.len(),
            i <= n,
            i > 0 ==> !cancel.raised,
            forall|t: int|
                0 <= t < out@.len() ==> out_item_ok(db@, (#[trigger] out@[t]).deep_view())
                    && out@[t].wf(),
            forall|t: int|
                0 <= t < out@.len() ==> exists|j: int|
                    0 <= j < i && (#[trigger] out@[t].key@) == db.local.rows@[j].0@,
            forall|t1: int, t2: int| 0 <= t1 < t2 < out@.len() ==> out@[t1].key@ != out@[t2].key@,
            forall|j: int|
                0 <= j < i && eligible(db@, (#[trigger] db.local.rows@[j].0@)) ==> exists|t: int|
                    0 <= t < out@.len() && (#[trigger] out@[t].key@) == db.local.rows@[j].0@,
        decreases n - i,
    {
        if cancel.was_interrupted() {
            return Err(Error::Interrupted);
        }
        let ghost k = db.local.rows@[i as int].0@;
        proof {
            lemma_tbl_index(db.local.rows@, i as int);
            assert(db@.local.contains_key(k) && db@.local[k] == db.local.rows@[i as int].1.deep_view());
        }
        let row = &db.local.rows[i];
        let emit: Option<OutgoingInfo> = if row.1.pending {
            match &row.1.payload {
                Some(_) => {
                    let sid: String = match db.mirror.get(&row.0) {
                        Some(m) => m.server_id.clone(),
                        None => new_server_id(),
                    };
                    Some(
                        OutgoingInfo {
                            server_id: sid,
                            key: row.0.clone(),
                            data: json_clone_opt(&row.1.payload),
                        },
                    )
                },
                None => match db.mirror.get(&row.0) {
                    Some(m) => Some(
                        OutgoingInfo {
                            server_id: m.server_id.clone(),
                            key: row.0.clone(),
                            data: None,
                        },
                    ),
                    None => None,
                },
            }
        } else {
            None
        };
        match emit {
            Some(item) => {
                let ghost itemg = item;
                let ghost out0 = out@;
                proof {
                    assert(out_item_ok(db@, itemg.deep_view()));
                    assert(itemg.key@ == k);
                    assert forall|t1: int| 0 <= t1 < out0.len() implies out0[t1].key@ != k by {
                        let j = choose|j: int|
                            0 <= j < i && (#[trigger] out0[t1].key@) == db.local.rows@[j].0@;
                        assert(db.local.rows@[j].0@ != db.local.rows@[i as int].0@);
                    }
                }
                out.push(item);
                proof {
                    assert(out@ == out0.push(itemg));
                    assert forall|t: int| 0 <= t < out@.len() implies exists|j: int|
                        0 <= j < i + 1 && (#[trigger] out@[t].key@) == db.local.rows@[j].0@ by {
                        if t == out@.len() - 1 {
                            assert(out@[t] == itemg);
                            assert(out@[t].key@ == db.local.rows@[i as int].0@);
                        } else {
                            assert(out@[t] == out0[t]);
                            let jj = choose|j: int|
                                0 <= j < i && (#[trigger] out0[t].key@) == db.local.rows@[j].0@;
                            assert(0 <= jj < i + 1 && out@[t].key@ == db.local.rows@[jj].0@);
                        }
                    }
                    assert forall|t: int| 0 <= t < out@.len() implies out_item_ok(
                        db@,
                        (#[trigger] out@[t]).deep_view(),
                    ) && out@[t].wf() by {
                        if t < out@.len() - 1 {
                            assert(out@[t] == out0[t]);
                            assert(out_item_ok(db@, out0[t].deep_view()) && out0[t].wf());
                        }
                    }
                    assert forall|t1: int, t2: int|
                        0 <= t1 < t2 < out@.len() implies out@[t1].key@ != out@[t2].key@ by {
                        assert(out@[t1] == out0[t1]);
                        if t2 == out@.len() - 1 {
                            assert(out0[t1].key@ != k);
                        } else {
                            assert(out@[t2] == out0[t2]);
                            assert(out0[t1].key@ != out0[t2].key@);
                        }
                    }
                    assert forall|j: int|
                        0 <= j < i + 1 && eligible(db@, (#[trigger] db.local.rows@[j].0@)) implies exists|t: int|
                        0 <= t < out@.len() && (#[trigger] out@[t].key@) == db.local.rows@[j].0@ by {
                        if j == i {
                            assert(out@[out@.len() - 1] == itemg);
                            assert(out@[out@.len() - 1].key@ == db.local.rows@[j].0@);
                        } else {
                            let tt = choose|t: int|
                                0 <= t < out0.len() && (#[trigger] out0[t].key@)
                                    == db.local.rows@[j].0@;
                            assert(out@[tt] == out0[tt]);
                            assert(out@[tt].key@ == db.local.rows@[j].0@);
                        }
                    }
                }
            },
            None => {
                proof {
                    assert(!eligible(db@, k));
                    assert forall|j: int|
                        0 <= j < i + 1 && eligible(db@, (#[trigger] db.local.rows@[j].0@)) implies exists|t: int|
                        0 <= t < out@.len() && (#[trigger] out@[t].key@) == db.local.rows@[j].0@ by {
                        if j == i {
                            assert(!eligible(db@, db.local.rows@[j].0@));
                        }
                    }
                }
            },
        }
        i += 1;
    }
    if cancel.was_interrupted() {
        return Err(Error::Interrupted);
    }
    proof {
        lemma_tbl_contains(db.local.rows@);
        assert forall|k: Seq<char>| eligible(db@, k) implies exists|t: int|
            0 <= t < out@.len() && (#[trigger] out@[t].key@) == k by {
            let j = choose|j: int|
                0 <= j < db.local.rows@.len() && (#[trigger] db.local.rows@[j].0@) == k;
            assert(eligible(db@, db.local.rows@[j].0@));
        }
    }
    Ok(out)
}

/// The model of recording one uploaded record: a tombstone clears the local
/// row and leaves a mirror tombstone; data turns the mirror into the
/// uploaded value and clears the local pending flag.
pub open spec fn record_one_spec(db: DbV, o: OutV, ts: int) -> DbV {
    match o.data {
        None => DbV {
            local: db.local.remove(o.key),
            mirror: db.mirror.insert(
                o.key,
                MirrorV { payload: None, server_id: o.server_id, server_timestamp: ts },
            ),
        },
        Some(d) => DbV {
            local: if db.local.contains_key(o.key) {
                db.local.insert(
                    o.key,
                    LocalV { payload: db.local[o.key].payload, pending: false },
                )
            } else {
                db.local
            },
            mirror: db.mirror.insert(
                o.key,
                MirrorV { payload: Some(d), server_id: o.server_id, server_timestamp: ts },
            ),
        },
    }
}

/// The model of recording a whole uploaded batch, in order.
pub open spec fn record_seq_spec(db: DbV, items: Seq<OutV>, ts: int) -> DbV
    decreases items.len(),
{
    if items.len() == 0 {
        db
    } else {
        record_one_spec(
            record_seq_spec(db, items.subrange(0, items.len() - 1), ts),
            items[items.len() - 1],
            ts,
        )
    }
}

/// Folds a confirmed upload into the stores: the mirror takes the uploaded
/// state under the server's timestamp, and the local rows stop being
/// pending.  Recording the same batch again leaves the stores unchanged.
pub fn record_uploaded(
    db: &mut Db,
    items: &Vec<OutgoingInfo>,
    server_timestamp: i64,
    cancel: &CancelSignal,
) -> (r: Result<(), Error>)
    requires
        old(db).wf(),
        forall|i: int| 0 <= i < items@.len() ==> (#[trigger] items@[i]).wf(),
    ensures
        r is Ok <==> !cancel.raised,
        match r {
            Ok(_) => final(db)@ == record_seq_spec(
                old(db)@,
                items.deep_view(),
                server_timestamp as int,
            ) && final(db).wf(),
            Err(e) => e == Error::Interrupted && final(db)@ == old(db)@ && final(db).wf(),
        },
{
    let n = items.len();
    let mut i: usize = 0;
    proof {
        assert(items.deep_view().subrange(0, 0) =~= Seq::<OutV>::empty());
    }
    while i < n
        invariant
            db.wf(),
            forall|j: int| 0 <= j < items@.len() ==> (#[trigger] items@[j]).wf(),
            n == items@.len(),
            i <= n,
            i > 0 ==> !cancel.raised,
            db@ == record_seq_spec(
                old(db)@,
                items.deep_view().subrange(0, i as int),
                server_timestamp as int,
            ),
        decreases n - i,
    {
        if cancel.was_interrupted() {
            proof {
                assert(i == 0);
                assert(items.deep_view().subrange(0, 0) =~= Seq::<OutV>::empty());
            }
            return Err(Error::Interrupted);
        }
        let item = &items[i];
        match &item.data {
            None => {
                db.local.remove(&item.key);
                db.mirror.upsert(
                    item.key.clone(),
                    crate::store::MirrorRecord {
                        payload: None,
                        server_id: item.server_id.clone(),
                        server_timestamp,
                    },
                );
            },
            Some(_) => {
                let kept: Option<crate::store::LocalRecord> = match db.local.get(&item.key) {
                    Some(rec) => Some(
                        crate::store::LocalRecord {
                            payload: json_clone_opt(&rec.payload),
                            pending: false,
                        },
                    ),
                    None => None,
                };
                match kept {
                    Some(rec) => {
                        db.local.upsert(item.key.clone(), rec);
                    },
                    None => {},
                }
                db.mirror.upsert(
                    item.key.clone(),
                    crate::store::MirrorRecord {
                        payload: json_clone_opt(&item.data),
                        server_id: item.server_id.clone(),
                        server_timestamp,
                    },
                );
            },
        }
        proof {
            let pre = items.deep_view().subrange(0, i as int);
            let post = items.deep_view().subrange(0, i as int + 1);
            assert(post.subrange(0, post.len() - 1) =~= pre);
            assert(post[post.len() - 1] == items@[i as int].deep_view());
        }
        i += 1;
    }
    if cancel.was_interrupted() {
        proof {
            assert(items.deep_view().subrange(0, 0) =~= Seq::<OutV>::empty());
        }
        return Err(Error::Interrupted);
    }
    proof {
        assert(items.deep_view().subrange(0, n as int) =~= items.deep_view());
    }
    Ok(())
}

} // verus!
