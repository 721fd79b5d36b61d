//! The two record stores and the plain CRUD surface over the local one.
//!
//! The local store holds the device's current values, including unsynced
//! edits; the mirror holds the last server-confirmed state per key.  A local
//! row whose payload is `None` is a tombstone: the value was cleared but the
//! deletion has not been confirmed uploaded.

use vstd::prelude::*;
use crate::json::JsonValue;
use crate::json::JVal;
use crate::json::opt_v;
use crate::json::opt_wf;
use crate::json::val_wf;
use crate::json::json_clone;
use crate::table::Table;
use crate::table::RowVal;

verus! {

/// A local row: the current value (or a tombstone) and whether it still has
/// to be uploaded.
pub struct LocalRecord {
    pub payload: Option<JsonValue>,
    pub pending: bool,
}

/// The model of a local row.
pub struct LocalV {
    pub payload: Option<JVal>,
    pub pending: bool,
}

/// A mirror row: the last payload the server confirmed for the key, with the
/// server's record id and timestamp.
pub struct MirrorRecord {
    pub payload: Option<JsonValue>,
    pub server_id: String,
    pub server_timestamp: i64,
}

/// The model of a mirror row.
pub struct MirrorV {
    pub payload: Option<JVal>,
    pub server_id: Seq<char>,
    pub server_timestamp: int,
}

impl DeepView for LocalRecord {
    type V = LocalV;

    open spec fn deep_view(&self) -> LocalV {
        LocalV { payload: opt_v(self.payload), pending: self.pending }
    }
}

impl RowVal for LocalRecord {
    open spec fn row_wf(&self) -> bool {
        opt_wf(self.payload)
    }
}

impl DeepView for MirrorRecord {
    type V = MirrorV;

    open spec fn deep_view(&self) -> MirrorV {
        MirrorV {
            payload: opt_v(self.payload),
            server_id: self.server_id@,
            server_timestamp: self.server_timestamp as int,
        }
    }
}

impl RowVal for MirrorRecord {
    open spec fn row_wf(&self) -> bool {
        opt_wf(self.payload)
    }
}

/// The device's storage: local truth and server mirror.
pub struct Db {
    pub local: Table<LocalRecord>,
    pub mirror: Table<MirrorRecord>,
}

/// The model of the storage: two maps keyed by extension id.
pub struct DbV {
    pub local: Map<Seq<char>, LocalV>,
    pub mirror: Map<Seq<char>, MirrorV>,
}

impl View for Db {
    type V = DbV;

    open spec fn view(&self) -> DbV {
        DbV { local: self.local@, mirror: self.mirror@ }
    }
}

impl Db {
    /// Both stores are well-formed.
    pub open spec fn wf(self) -> bool {
        self.local.wf() && self.mirror.wf()
    }

    /// Empty storage: nothing stored locally, nothing mirrored.
    pub fn new() -> (r: Db)
        ensures
            r@.local == Map::<Seq<char>, LocalV>::empty(),
            r@.mirror == Map::<Seq<char>, MirrorV>::empty(),
            r.wf(),
    {
        Db { local: Table::new(), mirror: Table::new() }
    }
}

/// The model of `set`: the local row takes the value and turns pending; the
/// mirror is untouched.
pub open spec fn set_spec(db: DbV, key: Seq<char>, value: JVal) -> DbV {
    DbV {
        local: db.local.insert(key, LocalV { payload: Some(value), pending: true }),
        mirror: db.mirror,
    }
}

/// The model of `clear`: with a mirror row the local row becomes a pending
/// tombstone; with none — the key never reached the server — the local row
/// is removed outright, leaving no trace to upload.
pub open spec fn clear_spec(db: DbV, key: Seq<char>) -> DbV {
    if db.mirror.contains_key(key) {
        DbV {
            local: db.local.insert(key, LocalV { payload: None, pending: true }),
            mirror: db.mirror,
        }
    } else {
        DbV { local: db.local.remove(key), mirror: db.mirror }
    }
}

/// Stores a value for this extension id and marks it pending upload.
pub fn set(db: &mut Db, ext_id: &String, value: JsonValue)
    requires
        old(db).wf(),
        val_wf(value),
    ensures
        final(db)@ == set_spec(old(db)@, ext_id@, crate::json::jv(value)),
        final(db).wf(),
{
    db.local.upsert(ext_id.clone(), LocalRecord { payload: Some(value), pending: true });
}

/// Clears the value for this extension id.
pub fn clear(db: &mut Db, ext_id: &String)
    requires
        old(db).wf(),
    ensures
        final(db)@ == clear_spec(old(db)@, ext_id@),
        final(db).wf(),
{
    match db.mirror.get(ext_id) {
        Some(_) => {
            db.local.upsert(ext_id.clone(), LocalRecord { payload: None, pending: true });
        },
        None => {
            db.local.remove(ext_id);
        },
    }
}

/// Reads the current value for this extension id, if any.
pub fn get(db: &Db, ext_id: &String) -> (r: Option<JsonValue>)
    requires
        db.wf(),
    ensures
        match r {
            Some(v) => db@.local.contains_key(ext_id@) && db@.local[ext_id@].payload == Some(
                crate::json::jv(v),
            ) && val_wf(v),
            None => !db@.local.contains_key(ext_id@) || db@.local[ext_id@].payload is None,
        },
{
    match db.local.get(ext_id) {
        Some(rec) => match &rec.payload {
            Some(v) => Some(json_clone(v)),
            None => None,
        },
        None => None,
    }
}

/// Whether any local row still awaits upload.
pub fn has_pending(db: &Db) -> (r: bool)
    requires
        db.wf(),
    ensures
        r == (exists|k: Seq<char>|
            #[trigger] db@.local.contains_key(k) && db@.local[k].pending),
{
    let n = db.local.rows.len();
    let mut i: usize = 0;
    while i < n
        invariant
            db.wf(),
            n == db.local.rows.len(),
            i <= n,
            forall|j: int| 0 <= j < i ==> !(#[trigger] db.local.rows@[j].1).pending,
        decreases n - i,
    {
        if db.local.rows[i].1.pending {
            proof {
                crate::table::lemma_tbl_index(db.local.rows@, i as int);
            }
            return true;
        }
        i += 1;
    }
    proof {
        crate::table::lemma_tbl_contains(db.local.rows@);
        assert forall|k: Seq<char>|
            #[trigger] db@.local.contains_key(k) implies !db@.local[k].pending by {
            let j = choose|j: int| 0 <= j < db.local.rows@.len() && #[trigger] db.local.rows@[j].0@
                == k;
            crate::table::lemma_tbl_index(db.local.rows@, j);
        }
    }
    false
}

/// What a store holds for one key: no row, a tombstone row, or data.
#[derive(Debug, PartialEq)]
pub enum DbData {
    NoRow,
    NullRow,
    Data(JsonValue),
}

impl DbData {
    /// Whether this is a data row (not absent, not a tombstone).
    pub fn has_data(&self) -> (r: bool)
        ensures
            r == (self is Data),
    {
        match self {
            DbData::Data(_) => true,
            _ => false,
        }
    }
}

/// The local store's row for this extension id, as data-or-tombstone.
pub fn get_local_data(db: &Db, ext_id: &String) -> (r: DbData)
    requires
        db.wf(),
    ensures
        match r {
            DbData::NoRow => !db@.local.contains_key(ext_id@),
            DbData::NullRow => db@.local.contains_key(ext_id@) && db@.local[ext_id@].payload
                is None,
            DbData::Data(v) => db@.local.contains_key(ext_id@) && db@.local[ext_id@].payload
                == Some(crate::json::jv(v)),
        },
{
    match db.local.get(ext_id) {
        None => DbData::NoRow,
        Some(rec) => match &rec.payload {
            None => DbData::NullRow,
            Some(v) => DbData::Data(json_clone(v)),
        },
    }
}

/// The mirror store's row for this extension id, as data-or-tombstone.
pub fn get_mirror_data(db: &Db, ext_id: &String) -> (r: DbData)
    requires
        db.wf(),
    ensures
        match r {
            DbData::NoRow => !db@.mirror.contains_key(ext_id@),
            DbData::NullRow => db@.mirror.contains_key(ext_id@) && db@.mirror[ext_id@].payload
                is None,
            DbData::Data(v) => db@.mirror.contains_key(ext_id@) && db@.mirror[ext_id@].payload
                == Some(crate::json::jv(v)),
        },
{
    match db.mirror.get(ext_id) {
        None => DbData::NoRow,
        Some(rec) => match &rec.payload {
            None => DbData::NullRow,
            Some(v) => DbData::Data(json_clone(v)),
        },
    }
}

} // verus!
