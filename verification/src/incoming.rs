//! The incoming half of a sync cycle: staging, classification, planning and
//! application of server records.

use vstd::prelude::*;
use crate::json::JsonValue;
use crate::json::JsonObject;
use crate::json::JVal;
use crate::json::jv;
use crate::json::opt_v;
use crate::json::opt_wf;
use crate::json::val_wf;
use crate::json::json_eq;
use crate::json::json_obj_eq;
use crate::json::json_clone;
use crate::json::json_clone_opt;
use crate::json::lemma_obj_v_index;
use crate::json::lemma_obj_v_contains;
use crate::store::Db;
use crate::store::DbV;
use crate::store::LocalRecord;
use crate::store::LocalV;
use crate::store::MirrorRecord;
use crate::store::MirrorV;
use crate::CancelSignal;
use crate::Error;

verus! {

// ---------------------------------------------------------------- staging

/// One record of the incoming batch, as the transport hands it over: the
/// data, when present, is still JSON text.
#[derive(Debug)]
pub struct IncomingPayload {
    pub server_id: String,
    pub key: String,
    pub data: Option<String>,
    pub deleted: bool,
    pub server_timestamp: i64,
}

/// The model of an incoming payload.
pub struct PayloadV {
    pub server_id: Seq<char>,
    pub key: Seq<char>,
    pub data: Option<Seq<char>>,
    pub deleted: bool,
    pub server_timestamp: int,
}

impl DeepView for IncomingPayload {
    type V = PayloadV;

    open spec fn deep_view(&self) -> PayloadV {
        PayloadV {
            server_id: self.server_id@,
            key: self.key@,
            data: match self.data {
                Some(s) => Some(s@),
                None => None,
            },
            deleted: self.deleted,
            server_timestamp: self.server_timestamp as int,
        }
    }
}

/// A staged record: the payload's data parsed, `None` meaning a tombstone.
#[derive(Debug)]
pub struct StagedItem {
    pub server_id: String,
    pub key: String,
    pub content: Option<JsonValue>,
    pub server_timestamp: i64,
}

/// The model of a staged record.
pub struct StagedV {
    pub server_id: Seq<char>,
    pub key: Seq<char>,
    pub content: Option<JVal>,
    pub server_timestamp: int,
}

impl DeepView for StagedItem {
    type V = StagedV;

    open spec fn deep_view(&self) -> StagedV {
        StagedV {
            server_id: self.server_id@,
            key: self.key@,
            content: opt_v(self.content),
            server_timestamp: self.server_timestamp as int,
        }
    }
}

impl StagedItem {
    /// The parsed content has unique keys throughout.
    pub open spec fn wf(self) -> bool {
        opt_wf(self.content)
    }
}

/// What parsing a payload's data text yields: `None` when the text is not
/// valid JSON.  Parsing is a function of the text alone; this names its
/// result, it does not restate the grammar.
pub uninterp spec fn json_of(s: Seq<char>) -> Option<JVal>;

/// Declares serde_json's value type to the verifier, so that `from_value`
/// can take one; nothing is assumed about what such a value holds.
#[verifier::external_type_specification]
#[verifier::external_body]
pub struct ExValue(serde_json::Value);

/// Carries a parsed `serde_json::Value` over into this crate's own JSON
/// type, one variant to one variant; a number becomes its decimal text.
/// Relies on serde_json keeping object keys unique at every level.
#[verifier::external_body]
fn from_value(v: serde_json::Value) -> (r: JsonValue) {
    match v {
        serde_json::Value::Null => JsonValue::Null,
        serde_json::Value::Bool(b) => JsonValue::Bool(b),
        serde_json::Value::Number(n) => JsonValue::Num(n.to_string()),
        serde_json::Value::String(s) => JsonValue::Str(s),
        serde_json::Value::Array(a) => JsonValue::Arr(a.into_iter().map(from_value).collect()),
        serde_json::Value::Object(m) => JsonValue::Obj(JsonObject {
            entries: m.into_iter().map(
                |(k, w)| crate::json::JsonEntry { key: k, value: from_value(w) },
            ).collect(),
        }),
    }
}

/// Relies on serde_json::from_str: deserialising JSON text is a function of
/// the text alone, and fails exactly on text that is not valid JSON.  The
/// parsed value is carried over by `from_value`, whose object keys are
/// unique because serde_json's maps are.
#[verifier::external_body]
fn parse_json(s: &String) -> (r: Option<JsonValue>)
    ensures
        match r {
            Some(v) => json_of(s@) == Some(jv(v)) && val_wf(v),
            None => json_of(s@) is None,
        },
{
    serde_json::from_str::<serde_json::Value>(s.as_str()).ok().map(from_value)
}

/// The model of staging one payload: a tombstone for a deletion or absent
/// data, the parsed value otherwise, and `None` for unparsable data.
pub open spec fn stage_one_spec(p: PayloadV) -> Option<StagedV> {
    if p.deleted {
        Some(
            StagedV {
                server_id: p.server_id,
                key: p.key,
                content: None,
                server_timestamp: p.server_timestamp,
            },
        )
    } else {
        match p.data {
            None => Some(
                StagedV {
                    server_id: p.server_id,
                    key: p.key,
                    content: None,
                    server_timestamp: p.server_timestamp,
                },
            ),
            Some(text) => match json_of(text) {
                Some(v) => Some(
                    StagedV {
                        server_id: p.server_id,
                        key: p.key,
                        content: Some(v),
                        server_timestamp: p.server_timestamp,
                    },
                ),
                None => None,
            },
        }
    }
}

/// The model of staging a batch: each payload in order, malformed ones
/// skipped.
pub open spec fn stage_spec(b: Seq<PayloadV>) -> Seq<StagedV>
    decreases b.len(),
{
    if b.len() == 0 {
        Seq::empty()
    } else {
        let head = stage_spec(b.subrange(0, b.len() - 1));
        match stage_one_spec(b[b.len() - 1]) {
            Some(s) => head.push(s),
            None => head,
        }
    }
}

/// The keys of the malformed payloads of a batch, in order.
pub open spec fn malformed_spec(b: Seq<PayloadV>) -> Seq<Seq<char>>
    decreases b.len(),
{
    if b.len() == 0 {
        Seq::empty()
    } else {
        let head = malformed_spec(b.subrange(0, b.len() - 1));
        match stage_one_spec(b[b.len() - 1]) {
            Some(_) => head,
            None => head.push(b[b.len() - 1].key),
        }
    }
}

/// Stages one payload: `MalformedPayload` exactly when its data is present,
/// not a deletion, and not valid JSON.
pub fn stage_payload(p: &IncomingPayload) -> (r: Result<StagedItem, Error>)
    ensures
        match r {
            Ok(item) => stage_one_spec(p.deep_view()) == Some(item.deep_view()) && item.wf(),
            Err(e) => e == Error::MalformedPayload && stage_one_spec(p.deep_view()) is None,
        },
{
    if p.deleted {
        return Ok(
            StagedItem {
                server_id: p.server_id.clone(),
                key: p.key.clone(),
                content: None,
                server_timestamp: p.server_timestamp,
            },
        );
    }
    match &p.data {
        None => Ok(
            StagedItem {
                server_id: p.server_id.clone(),
                key: p.key.clone(),
                content: None,
                server_timestamp: p.server_timestamp,
            },
        ),
        Some(text) => match parse_json(text) {
            Some(v) => Ok(
                StagedItem {
                    server_id: p.server_id.clone(),
                    key: p.key.clone(),
                    content: Some(v),
                    server_timestamp: p.server_timestamp,
                },
            ),
            None => Err(Error::MalformedPayload),
        },
    }
}

/// Stages a whole batch for one cycle.  Malformed payloads are skipped and
/// their keys reported; a raised cancellation signal interrupts the phase.
pub fn stage_incoming(batch: &Vec<IncomingPayload>, cancel: &CancelSignal) -> (r: Result<
    (Vec<StagedItem>, Vec<String>),
    Error,
>)
    ensures
        r is Ok <==> !cancel.raised,
        match r {
            Ok((items, bad)) => items.deep_view() == stage_spec(batch.deep_view())
                && bad.deep_view() == malformed_spec(batch.deep_view()) && forall|i: int|
                0 <= i < items@.len() ==> (#[trigger] items@[i]).wf(),
            Err(e) => e == Error::Interrupted,
        },
{
    let mut items: Vec<StagedItem> = Vec::new();
    let mut bad: Vec<String> = Vec::new();
    let n = batch.len();
    let mut i: usize = 0;
    proof {
        assert(items.deep_view() =~= stage_spec(batch.deep_view().subrange(0, 0)));
        assert(bad.deep_view() =~= malformed_spec(batch.deep_view().subrange(0, 0)));
    }
    while i < n
        invariant
            n == batch@.len(),
            i <= n,
            i > 0 ==> !cancel.raised,
            items.deep_view() == stage_spec(batch.deep_view().subrange(0, i as int)),
            bad.deep_view() == malformed_spec(batch.deep_view().subrange(0, i as int)),
            forall|j: int| 0 <= j < items@.len() ==> (#[trigger] items@[j]).wf(),
        decreases n - i,
    {
        if cancel.was_interrupted() {
            return Err(Error::Interrupted);
        }
        let ghost pre = batch.deep_view().subrange(0, i as int);
        let ghost post = batch.deep_view().subrange(0, i as int + 1);
        proof {
            assert(post.subrange(0, post.len() - 1) =~= pre);
            assert(post[post.len() - 1] == batch.deep_view()[i as int]);
            assert(batch.deep_view()[i as int] == batch@[i as int].deep_view());
        }
        match stage_payload(&batch[i]) {
            Ok(item) => {
                items.push(item);
                proof {
                    assert(items.deep_view() =~= stage_spec(post));
                }
            },
            Err(_) => {
                bad.push(batch[i].key.clone());
                proof {
                    assert(bad.deep_view() =~= malformed_spec(post));
                }
            },
        }
        i += 1;
    }
    if cancel.was_interrupted() {
        return Err(Error::Interrupted);
    }
    proof {
        assert(batch.deep_view().subrange(0, n as int) =~= batch.deep_view());
    }
    Ok((items, bad))
}

// ---------------------------------------------------------- classification

/// The classification of one staged key against local and mirror state.
#[derive(Debug)]
pub enum IncomingState {
    /// Incoming tombstone for a key never seen locally.
    AlreadyGone,
    /// Incoming data for a key with no local and no mirror row.
    NewFromServer { data: JsonValue },
    /// The key was cleared locally after the last sync; the mirror still has
    /// a row.
    LocalDeletedSinceSync { incoming: Option<JsonValue> },
    /// Incoming tombstone for an unmodified local value.
    RemoteDeletesUnmodifiedLocal,
    /// Incoming tombstone for a locally modified value, with no mirror row.
    RemoteDeletesModifiedLocalNoBaseline,
    /// Incoming tombstone for a locally modified value.
    RemoteDeletesModifiedLocal,
    /// Incoming data identical to the unmodified local value.
    NoOpMatches,
    /// Incoming data for an unmodified local value that differs from it.
    RemoteChangedUnmodifiedLocal { data: JsonValue },
    /// Both sides changed the key and no mirror row gives a baseline.
    TwoWayConflict { incoming: JsonValue, local: JsonValue },
    /// Both sides changed the key; the mirror row's payload is the baseline.
    ThreeWayConflict {
        incoming: JsonValue,
        local: JsonValue,
        baseline: Option<JsonValue>,
    },
}

/// The model of a classification.
pub enum StateV {
    AlreadyGone,
    NewFromServer { data: JVal },
    LocalDeletedSinceSync { incoming: Option<JVal> },
    RemoteDeletesUnmodifiedLocal,
    RemoteDeletesModifiedLocalNoBaseline,
    RemoteDeletesModifiedLocal,
    NoOpMatches,
    RemoteChangedUnmodifiedLocal { data: JVal },
    TwoWayConflict { incoming: JVal, local: JVal },
    ThreeWayConflict { incoming: JVal, local: JVal, baseline: Option<JVal> },
}

impl DeepView for IncomingState {
    type V = StateV;

    open spec fn deep_view(&self) -> StateV {
        match *self {
            IncomingState::AlreadyGone => StateV::AlreadyGone,
            IncomingState::NewFromServer { data } => StateV::NewFromServer { data: jv(data) },
            IncomingState::LocalDeletedSinceSync { incoming } => StateV::LocalDeletedSinceSync {
                incoming: opt_v(incoming),
            },
            IncomingState::RemoteDeletesUnmodifiedLocal => StateV::RemoteDeletesUnmodifiedLocal,
            IncomingState::RemoteDeletesModifiedLocalNoBaseline => StateV::RemoteDeletesModifiedLocalNoBaseline,
            IncomingState::RemoteDeletesModifiedLocal => StateV::RemoteDeletesModifiedLocal,
            IncomingState::NoOpMatches => StateV::NoOpMatches,
            IncomingState::RemoteChangedUnmodifiedLocal { data } => StateV::RemoteChangedUnmodifiedLocal {
                data: jv(data),
            },
            IncomingState::TwoWayConflict { incoming, local } => StateV::TwoWayConflict {
                incoming: jv(incoming),
                local: jv(local),
            },
            IncomingState::ThreeWayConflict { incoming, local, baseline } => StateV::ThreeWayConflict {
                incoming: jv(incoming),
                local: jv(local),
                baseline: opt_v(baseline),
            },
        }
    }
}

impl IncomingState {
    /// Every carried value has unique keys throughout.
    pub open spec fn wf(self) -> bool {
        match self {
            IncomingState::NewFromServer { data } => val_wf(data),
            IncomingState::LocalDeletedSinceSync { incoming } => opt_wf(incoming),
            IncomingState::RemoteChangedUnmodifiedLocal { data } => val_wf(data),
            IncomingState::TwoWayConflict { incoming, local } => val_wf(incoming) && val_wf(local),
            IncomingState::ThreeWayConflict { incoming, local, baseline } => val_wf(incoming)
                && val_wf(local) && opt_wf(baseline),
            _ => true,
        }
    }
}

/// The classification table: one state for every combination of local row,
/// mirror row and incoming content ("local absent" covers both a missing row
/// and a local tombstone).
pub open spec fn classify_spec(
    inc: Option<JVal>,
    loc: Option<LocalV>,
    mir: Option<MirrorV>,
) -> StateV {
    let local_data: Option<JVal> = match loc {
        Some(l) => l.payload,
        None => None,
    };
    let pending: bool = match loc {
        Some(l) => l.pending,
        None => false,
    };
    match local_data {
        None => match mir {
            None => match inc {
                None => StateV::AlreadyGone,
                Some(d) => StateV::NewFromServer { data: d },
            },
            Some(_) => StateV::LocalDeletedSinceSync { incoming: inc },
        },
        Some(l) => match inc {
            None => if !pending {
                StateV::RemoteDeletesUnmodifiedLocal
            } else {
                match mir {
                    None => StateV::RemoteDeletesModifiedLocalNoBaseline,
                    Some(_) => StateV::RemoteDeletesModifiedLocal,
                }
            },
            Some(d) => if !pending {
                if d == l {
                    StateV::NoOpMatches
                } else {
                    StateV::RemoteChangedUnmodifiedLocal { data: d }
                }
            } else {
                match mir {
                    None => StateV::TwoWayConflict { incoming: d, local: l },
                    Some(m) => StateV::ThreeWayConflict {
                        incoming: d,
                        local: l,
                        baseline: m.payload,
                    },
                }
            },
        },
    }
}

/// The local row's model for a key, if a row exists.
pub open spec fn local_of(db: DbV, k: Seq<char>) -> Option<LocalV> {
    if db.local.contains_key(k) {
        Some(db.local[k])
    } else {
        None
    }
}

/// The mirror row's model for a key, if a row exists.
pub open spec fn mirror_of(db: DbV, k: Seq<char>) -> Option<MirrorV> {
    if db.mirror.contains_key(k) {
        Some(db.mirror[k])
    } else {
        None
    }
}

/// Classifies one staged record against the stores.
pub fn classify(item: &StagedItem, loc: Option<&LocalRecord>, mir: Option<&MirrorRecord>) -> (s:
    IncomingState)
    requires
        item.wf(),
        match loc {
            Some(l) => opt_wf(l.payload),
            None => true,
        },
        match mir {
            Some(m) => opt_wf(m.payload),
            None => true,
        },
    ensures
        s.deep_view() == classify_spec(
            opt_v(item.content),
            match loc {
                Some(l) => Some(l.deep_view()),
                None => None,
            },
            match mir {
                Some(m) => Some(m.deep_view()),
                None => None,
            },
        ),
        s.wf(),
{
    let local_payload: Option<&JsonValue> = match loc {
        Some(l) => match &l.payload {
            Some(v) => Some(v),
            None => None,
        },
        None => None,
    };
    let pending: bool = match loc {
        Some(l) => l.pending,
        None => false,
    };
    match local_payload {
        None => match mir {
            None => match &item.content {
                None => IncomingState::AlreadyGone,
                Some(d) => IncomingState::NewFromServer { data: json_clone(d) },
            },
            Some(_) => IncomingState::LocalDeletedSinceSync {
                incoming: json_clone_opt(&item.content),
            },
        },
        Some(l) => match &item.content {
            None => if !pending {
                IncomingState::RemoteDeletesUnmodifiedLocal
            } else {
                match mir {
                    None => IncomingState::RemoteDeletesModifiedLocalNoBaseline,
                    Some(_) => IncomingState::RemoteDeletesModifiedLocal,
                }
            },
            Some(d) => if !pending {
                if json_eq(d, l) {
                    IncomingState::NoOpMatches
                } else {
                    IncomingState::RemoteChangedUnmodifiedLocal { data: json_clone(d) }
                }
            } else {
                match mir {
                    None => IncomingState::TwoWayConflict {
                        incoming: json_clone(d),
                        local: json_clone(l),
                    },
                    Some(m) => IncomingState::ThreeWayConflict {
                        incoming: json_clone(d),
                        local: json_clone(l),
                        baseline: json_clone_opt(&m.payload),
                    },
                }
            },
        },
    }
}

// ---------------------------------------------------------------- planning

/// The planner's decision for one key.
#[derive(Debug)]
pub enum IncomingAction {
    /// Remove the key from both stores.
    DeleteLocalAndMirror,
    /// The server's value becomes the local value.
    TakeRemote { data: JsonValue },
    /// Local and incoming already agree; only the pending flag and mirror
    /// metadata change.
    Reconciled,
    /// The merge resolved to exactly the incoming value.
    Same,
    /// The merge produced a new value that still has to be uploaded.
    Merge { data: JsonValue },
}

/// The model of an action.
pub enum ActionV {
    DeleteLocalAndMirror,
    TakeRemote { data: JVal },
    Reconciled,
    Same,
    Merge { data: JVal },
}

impl DeepView for IncomingAction {
    type V = ActionV;

    open spec fn deep_view(&self) -> ActionV {
        match *self {
            IncomingAction::DeleteLocalAndMirror => ActionV::DeleteLocalAndMirror,
            IncomingAction::TakeRemote { data } => ActionV::TakeRemote { data: jv(data) },
            IncomingAction::Reconciled => ActionV::Reconciled,
            IncomingAction::Same => ActionV::Same,
            IncomingAction::Merge { data } => ActionV::Merge { data: jv(data) },
        }
    }
}

impl IncomingAction {
    /// Every carried value has unique keys throughout.
    pub open spec fn wf(self) -> bool {
        match self {
            IncomingAction::TakeRemote { data } => val_wf(data),
            IncomingAction::Merge { data } => val_wf(data),
            _ => true,
        }
    }
}

/// The merge rule for one field, server-wins: the incoming value stands
/// unless only the local side changed it (the baseline agrees with the
/// incoming side), or the server does not mention the field at all.
pub open spec fn merge_field(
    inc: Map<Seq<char>, JVal>,
    loc: Map<Seq<char>, JVal>,
    base: Option<Map<Seq<char>, JVal>>,
    k: Seq<char>,
) -> JVal {
    if !inc.contains_key(k) {
        loc[k]
    } else if !loc.contains_key(k) {
        inc[k]
    } else if loc[k] == inc[k] {
        inc[k]
    } else if base matches Some(b) && b.contains_key(k) && b[k] == inc[k] {
        loc[k]
    } else {
        inc[k]
    }
}

/// The field-level three-way merge: every field of either side, resolved by
/// `merge_field`; fields only the local side has are kept untouched.
pub open spec fn merged_map(
    inc: Map<Seq<char>, JVal>,
    loc: Map<Seq<char>, JVal>,
    base: Option<Map<Seq<char>, JVal>>,
) -> Map<Seq<char>, JVal> {
    Map::new(
        |k: Seq<char>| inc.contains_key(k) || loc.contains_key(k),
        |k: Seq<char>| merge_field(inc, loc, base, k),
    )
}

/// A baseline usable for a field merge: the mirror's payload when it is an
/// object.
pub open spec fn base_obj(base: Option<JVal>) -> Option<Map<Seq<char>, JVal>> {
    match base {
        Some(b) => match b {
            JVal::Obj(m) => Some(m),
            _ => None,
        },
        None => None,
    }
}

/// The resolved value of a conflict.  Two objects are merged field by field;
/// any other shapes are opaque whole values: the local value stands when the
/// baseline matches the incoming value (the server did not change), else the
/// server wins.
pub open spec fn resolved_val(inc: JVal, loc: JVal, base: Option<JVal>) -> JVal {
    match inc {
        JVal::Obj(im) => match loc {
            JVal::Obj(lm) => JVal::Obj(merged_map(im, lm, base_obj(base))),
            _ => if base == Some(inc) {
                loc
            } else {
                inc
            },
        },
        _ => if base == Some(inc) {
            loc
        } else {
            inc
        },
    }
}

/// The action a conflict resolves to: `Same` exactly when the resolved value
/// is structurally equal to the incoming one.
pub open spec fn resolve_spec(inc: JVal, loc: JVal, base: Option<JVal>) -> ActionV {
    let m = resolved_val(inc, loc, base);
    if m == inc {
        ActionV::Same
    } else {
        ActionV::Merge { data: m }
    }
}

/// The planner: a total map from state to action, server-wins on every
/// conflict it does not merge.  An incoming value for a key deleted locally
/// since the last sync is taken from the server.
pub open spec fn plan_spec(s: StateV) -> ActionV {
    match s {
        StateV::AlreadyGone => ActionV::DeleteLocalAndMirror,
        StateV::NewFromServer { data } => ActionV::TakeRemote { data },
        StateV::LocalDeletedSinceSync { incoming } => match incoming {
            None => ActionV::DeleteLocalAndMirror,
            Some(d) => ActionV::TakeRemote { data: d },
        },
        StateV::RemoteDeletesUnmodifiedLocal => ActionV::DeleteLocalAndMirror,
        StateV::RemoteDeletesModifiedLocalNoBaseline => ActionV::DeleteLocalAndMirror,
        StateV::RemoteDeletesModifiedLocal => ActionV::DeleteLocalAndMirror,
        StateV::NoOpMatches => ActionV::Reconciled,
        StateV::RemoteChangedUnmodifiedLocal { data } => ActionV::TakeRemote { data },
        StateV::TwoWayConflict { incoming, local } => resolve_spec(incoming, local, None),
        StateV::ThreeWayConflict { incoming, local, baseline } => resolve_spec(
            incoming,
            local,
            baseline,
        ),
    }
}

/// The baseline maps of an optional parent object.
pub open spec fn parent_v(parent: Option<JsonObject>) -> Option<Map<Seq<char>, JVal>> {
    match parent {
        Some(p) => Some(p@),
        None => None,
    }
}

/// Merges an incoming object into ours, field by field, three ways when a
/// parent is given.  `Same` exactly when the result equals the incoming
/// object.
pub fn merge(other: JsonObject, ours: JsonObject, parent: Option<JsonObject>) -> (r:
    IncomingAction)
    requires
        other.wf(),
        ours.wf(),
        parent matches Some(p) ==> p.wf(),
    ensures
        r.deep_view() == ({
            let m = merged_map(other@, ours@, parent_v(parent));
            if m == other@ {
                ActionV::Same
            } else {
                ActionV::Merge { data: JVal::Obj(m) }
            }
        }),
        r.wf(),
{
    let ghost iv = other@;
    let ghost ov = ours@;
    let ghost pv = parent_v(parent);
    let mut result = ours;
    let n = other.entries.len();
    let mut i: usize = 0;
    while i < n
        invariant
            result.wf(),
            other.wf(),
            iv == other@,
            match parent {
                Some(p) => p.wf() && pv == Some(p@),
                None => pv is None,
            },
            n == other.entries@.len(),
            i <= n,
            forall|k: Seq<char>|
                #[trigger] result@.contains_key(k) <==> (ov.contains_key(k) || (exists|j: int|
                    0 <= j < i && #[trigger] other.entries@[j].key@ == k)),
            forall|k: Seq<char>|
                #[trigger] result@.contains_key(k) ==> result@[k] == (if (exists|j: int|
                    0 <= j < i && #[trigger] other.entries@[j].key@ == k) {
                    merge_field(iv, ov, pv, k)
                } else {
                    ov[k]
                }),
        decreases n - i,
    {
        let e = &other.entries[i];
        let ghost k = e.key@;
        proof {
            lemma_obj_v_index(other.entries@, i as int);
            assert(iv.contains_key(k) && iv[k] == jv(e.value));
            assert(val_wf(e.value)) by {
                assert(crate::json::obj_entries_wf(other.entries@));
            }
            assert forall|j: int| 0 <= j < i implies #[trigger] other.entries@[j].key@ != k by {
                assert(other.entries@[j].key@ != other.entries@[i as int].key@);
            }
        }
        let ghost r_pre = result@;
        match result.get(&e.key) {
            None => {
                let cl = json_clone(&e.value);
                result.insert(e.key.clone(), cl);
                proof {
                    assert(!ov.contains_key(k));
                    assert(result@ == r_pre.insert(k, iv[k]));
                    assert(merge_field(iv, ov, pv, k) == iv[k]);
                }
            },
            Some(cur) => {
                let ghost curv = jv(*cur);
                proof {
                    assert(r_pre.contains_key(k) && r_pre[k] == curv);
                    assert(ov.contains_key(k) && ov[k] == curv);
                }
                if json_eq(cur, &e.value) {
                    proof {
                        assert(ov[k] == iv[k]);
                        assert(merge_field(iv, ov, pv, k) == iv[k]);
                        assert(result@[k] == merge_field(iv, ov, pv, k));
                    }
                } else {
                    let can_take_local: bool = match &parent {
                        Some(pm) => match pm.get(&e.key) {
                            Some(pval) => json_eq(pval, &e.value),
                            None => false,
                        },
                        None => false,
                    };
                    proof {
                        assert(can_take_local == (pv matches Some(b) && b.contains_key(k) && b[k]
                            == iv[k]));
                    }
                    if !can_take_local {
                        let cl = json_clone(&e.value);
                        result.insert(e.key.clone(), cl);
                        proof {
                            assert(result@ == r_pre.insert(k, iv[k]));
                            assert(merge_field(iv, ov, pv, k) == iv[k]);
                        }
                    } else {
                        proof {
                            assert(merge_field(iv, ov, pv, k) == ov[k]);
                            assert(result@[k] == merge_field(iv, ov, pv, k));
                        }
                    }
                }
            },
        }
        proof {
            assert forall|k2: Seq<char>| #[trigger] result@.contains_key(k2) <==> (ov.contains_key(
                k2,
            ) || (exists|j: int| 0 <= j < i + 1 && #[trigger] other.entries@[j].key@ == k2)) by {
                if k2 == k {
                    assert(other.entries@[i as int].key@ == k2);
                } else {
                    assert(result@.contains_key(k2) == r_pre.contains_key(k2));
                    assert((exists|j: int| 0 <= j < i + 1 && #[trigger] other.entries@[j].key@
                        == k2) == (exists|j: int| 0 <= j < i && #[trigger] other.entries@[j].key@
                        == k2));
                }
            }
            assert forall|k2: Seq<char>| #[trigger] result@.contains_key(k2) implies result@[k2]
                == (if (exists|j: int| 0 <= j < i + 1 && #[trigger] other.entries@[j].key@ == k2) {
                merge_field(iv, ov, pv, k2)
            } else {
                ov[k2]
            }) by {
                if k2 == k {
                    assert(other.entries@[i as int].key@ == k2);
                } else {
                    assert(result@[k2] == r_pre[k2]);
                    assert((exists|j: int| 0 <= j < i + 1 && #[trigger] other.entries@[j].key@
                        == k2) == (exists|j: int| 0 <= j < i && #[trigger] other.entries@[j].key@
                        == k2));
                }
            }
        }
        i += 1;
    }
    proof {
        lemma_obj_v_contains(other.entries@);
        assert forall|k: Seq<char>| #[trigger] result@.contains_key(k) <==> merged_map(
            iv,
            ov,
            pv,
        ).contains_key(k) by {
            assert((exists|j: int| 0 <= j < n && #[trigger] other.entries@[j].key@ == k)
                == iv.contains_key(k));
        }
        assert forall|k: Seq<char>| #[trigger] result@.contains_key(k) implies result@[k]
            == merged_map(iv, ov, pv)[k] by {
            assert((exists|j: int| 0 <= j < n && #[trigger] other.entries@[j].key@ == k)
                == iv.contains_key(k));
            if iv.contains_key(k) {
                assert(result@[k] == merge_field(iv, ov, pv, k));
            } else {
                assert(result@[k] == ov[k]);
                assert(merge_field(iv, ov, pv, k) == ov[k]);
            }
        }
        assert(result@ =~= merged_map(iv, ov, pv));
    }
    if json_obj_eq(&result, &other) {
        IncomingAction::Same
    } else {
        IncomingAction::Merge { data: JsonValue::Obj(result) }
    }
}

/// Resolves a conflict between any two values, merging objects field by
/// field and treating every other shape as an opaque whole value.
pub fn resolve_conflict(incoming: JsonValue, local: JsonValue, baseline: Option<JsonValue>) -> (r:
    IncomingAction)
    requires
        val_wf(incoming),
        val_wf(local),
        opt_wf(baseline),
    ensures
        r.deep_view() == resolve_spec(jv(incoming), jv(local), opt_v(baseline)),
        r.wf(),
{
    let both_objects: bool = match (&incoming, &local) {
        (JsonValue::Obj(_), JsonValue::Obj(_)) => true,
        _ => false,
    };
    if both_objects {
        let io = match incoming {
            JsonValue::Obj(o) => o,
            _ => JsonObject::new(),
        };
        let lo = match local {
            JsonValue::Obj(o) => o,
            _ => JsonObject::new(),
        };
        let bo: Option<JsonObject> = match baseline {
            Some(JsonValue::Obj(o)) => Some(o),
            _ => None,
        };
        proof {
            assert(parent_v(bo) == base_obj(opt_v(baseline)));
        }
        merge(io, lo, bo)
    } else {
        let base_matches: bool = match &baseline {
            Some(b) => json_eq(b, &incoming),
            None => false,
        };
        if base_matches {
            if json_eq(&local, &incoming) {
                IncomingAction::Same
            } else {
                IncomingAction::Merge { data: local }
            }
        } else {
            IncomingAction::Same
        }
    }
}

/// Plans the action for one classified key.
pub fn plan_incoming(s: IncomingState) -> (a: IncomingAction)
    requires
        s.wf(),
    ensures
        a.deep_view() == plan_spec(s.deep_view()),
        a.wf(),
{
    match s {
        IncomingState::AlreadyGone => IncomingAction::DeleteLocalAndMirror,
        IncomingState::NewFromServer { data } => IncomingAction::TakeRemote { data },
        IncomingState::LocalDeletedSinceSync { incoming } => match incoming {
            None => IncomingAction::DeleteLocalAndMirror,
            Some(d) => IncomingAction::TakeRemote { data: d },
        },
        IncomingState::RemoteDeletesUnmodifiedLocal => IncomingAction::DeleteLocalAndMirror,
        IncomingState::RemoteDeletesModifiedLocalNoBaseline => IncomingAction::DeleteLocalAndMirror,
        IncomingState::RemoteDeletesModifiedLocal => IncomingAction::DeleteLocalAndMirror,
        IncomingState::NoOpMatches => IncomingAction::Reconciled,
        IncomingState::RemoteChangedUnmodifiedLocal { data } => IncomingAction::TakeRemote { data },
        IncomingState::TwoWayConflict { incoming, local } => resolve_conflict(
            incoming,
            local,
            None,
        ),
        IncomingState::ThreeWayConflict { incoming, local, baseline } => resolve_conflict(
            incoming,
            local,
            baseline,
        ),
    }
}

// ------------------------------------------------------------- application

/// The model of applying one planned action to the stores.
pub open spec fn apply_one_spec(db: DbV, item: StagedV, a: ActionV) -> DbV {
    let k = item.key;
    let meta_mirror = MirrorV {
        payload: item.content,
        server_id: item.server_id,
        server_timestamp: item.server_timestamp,
    };
    match a {
        ActionV::DeleteLocalAndMirror => DbV {
            local: db.local.remove(k),
            mirror: db.mirror.remove(k),
        },
        ActionV::TakeRemote { data } => DbV {
            local: db.local.insert(k, LocalV { payload: Some(data), pending: false }),
            mirror: db.mirror.insert(
                k,
                MirrorV {
                    payload: Some(data),
                    server_id: item.server_id,
                    server_timestamp: item.server_timestamp,
                },
            ),
        },
        ActionV::Reconciled => DbV {
            local: if db.local.contains_key(k) {
                db.local.insert(
                    k,
                    LocalV { payload: db.local[k].payload, pending: false },
                )
            } else {
                db.local
            },
            mirror: db.mirror.insert(k, meta_mirror),
        },
        ActionV::Same => DbV {
            local: db.local.insert(k, LocalV { payload: item.content, pending: false }),
            mirror: db.mirror.insert(k, meta_mirror),
        },
        ActionV::Merge { data } => DbV {
            local: db.local.insert(k, LocalV { payload: Some(data), pending: true }),
            mirror: db.mirror.insert(k, meta_mirror),
        },
    }
}

/// The model of applying a sequence of planned actions, in order.
pub open spec fn apply_seq_spec(db: DbV, acts: Seq<(StagedV, ActionV)>) -> DbV
    decreases acts.len(),
{
    if acts.len() == 0 {
        db
    } else {
        apply_one_spec(
            apply_seq_spec(db, acts.subrange(0, acts.len() - 1)),
            acts[acts.len() - 1].0,
            acts[acts.len() - 1].1,
        )
    }
}

/// The models of a planned batch.
pub open spec fn acts_v(s: Seq<(StagedItem, IncomingAction)>) -> Seq<(StagedV, ActionV)> {
    s.map_values(|p: (StagedItem, IncomingAction)| (p.0.deep_view(), p.1.deep_view()))
}

/// Applies one planned action to the stores.
pub fn apply_one(db: &mut Db, item: &StagedItem, a: &IncomingAction)
    requires
        old(db).wf(),
        item.wf(),
        a.wf(),
    ensures
        final(db)@ == apply_one_spec(old(db)@, item.deep_view(), a.deep_view()),
        final(db).wf(),
{
    match a {
        IncomingAction::DeleteLocalAndMirror => {
            db.local.remove(&item.key);
            db.mirror.remove(&item.key);
        },
        IncomingAction::TakeRemote { data } => {
            db.local.upsert(
                item.key.clone(),
                LocalRecord { payload: Some(json_clone(data)), pending: false },
            );
            db.mirror.upsert(
                item.key.clone(),
                MirrorRecord {
                    payload: Some(json_clone(data)),
                    server_id: item.server_id.clone(),
                    server_timestamp: item.server_timestamp,
                },
            );
        },
        IncomingAction::Reconciled => {
            let kept: Option<LocalRecord> = match db.local.get(&item.key) {
                Some(rec) => Some(
                    LocalRecord { payload: json_clone_opt(&rec.payload), pending: false },
                ),
                None => None,
            };
            match kept {
                Some(rec) => {
                    db.local.upsert(item.key.clone(), rec);
                },
                None => {},
            }
            db.mirror.upsert(
                item.key.clone(),
                MirrorRecord {
                    payload: json_clone_opt(&item.content),
                    server_id: item.server_id.clone(),
                    server_timestamp: item.server_timestamp,
                },
            );
        },
        IncomingAction::Same => {
            db.local.upsert(
                item.key.clone(),
                LocalRecord { payload: json_clone_opt(&item.content), pending: false },
            );
            db.mirror.upsert(
                item.key.clone(),
                MirrorRecord {
                    payload: json_clone_opt(&item.content),
                    server_id: item.server_id.clone(),
                    server_timestamp: item.server_timestamp,
                },
            );
        },
        IncomingAction::Merge { data } => {
            db.local.upsert(
                item.key.clone(),
                LocalRecord { payload: Some(json_clone(data)), pending: true },
            );
            db.mirror.upsert(
                item.key.clone(),
                MirrorRecord {
                    payload: json_clone_opt(&item.content),
                    server_id: item.server_id.clone(),
                    server_timestamp: item.server_timestamp,
                },
            );
        },
    }
}

/// Classifies every staged record against the stores, in order.
pub fn get_incoming(db: &Db, staged: &Vec<StagedItem>) -> (r: Vec<(StagedItem, IncomingState)>)
    requires
        db.wf(),
        forall|i: int| 0 <= i < staged@.len() ==> (#[trigger] staged@[i]).wf(),
    ensures
        r@.len() == staged@.len(),
        forall|i: int|
            0 <= i < r@.len() ==> (#[trigger] r@[i]).0.deep_view() == staged@[i].deep_view()
                && r@[i].0.wf() && r@[i].1.wf() && r@[i].1.deep_view() == classify_spec(
                staged@[i].deep_view().content,
                local_of(db@, staged@[i].deep_view().key),
                mirror_of(db@, staged@[i].deep_view().key),
            ),
{
    let mut out: Vec<(StagedItem, IncomingState)> = Vec::new();
    let n = staged.len();
    let mut i: usize = 0;
    while i < n
        invariant
            db.wf(),
            forall|j: int| 0 <= j < staged@.len() ==> (#[trigger] staged@[j]).wf(),
            n == staged@.len(),
            i <= n,
            out@.len() == i,
            forall|j: int|
                0 <= j < i ==> (#[trigger] out@[j]).0.deep_view() == staged@[j].deep_view()
                    && out@[j].0.wf() && out@[j].1.wf() && out@[j].1.deep_view() == classify_spec(
                    staged@[j].deep_view().content,
                    local_of(db@, staged@[j].deep_view().key),
                    mirror_of(db@, staged@[j].deep_view().key),
                ),
        decreases n - i,
    {
        let item = &staged[i];
        let loc = db.local.get(&item.key);
        let mir = db.mirror.get(&item.key);
        let state = classify(item, loc, mir);
        let copy = StagedItem {
            server_id: item.server_id.clone(),
            key: item.key.clone(),
            content: json_clone_opt(&item.content),
            server_timestamp: item.server_timestamp,
        };
        out.push((copy, state));
        i += 1;
    }
    out
}

/// Applies a planned batch inside one logical transaction: a raised signal
/// leaves the stores untouched, otherwise every action is applied in order.
pub fn apply_actions(db: &mut Db, actions: &Vec<(StagedItem, IncomingAction)>, cancel: &CancelSignal) -> (r:
    Result<(), Error>)
    requires
        old(db).wf(),
        forall|i: int|
            0 <= i < actions@.len() ==> (#[trigger] actions@[i]).0.wf() && actions@[i].1.wf(),
    ensures
        r is Ok <==> !cancel.raised,
        match r {
            Ok(_) => final(db)@ == apply_seq_spec(old(db)@, acts_v(actions@)) && final(db).wf(),
            Err(e) => e == Error::Interrupted && final(db)@ == old(db)@ && final(db).wf(),
        },
{
    let n = actions.len();
    let mut i: usize = 0;
    proof {
        assert(acts_v(actions@.subrange(0, 0)) =~= Seq::<(StagedV, ActionV)>::empty());
    }
    while i < n
        invariant
            db.wf(),
            forall|j: int|
                0 <= j < actions@.len() ==> (#[trigger] actions@[j]).0.wf() && actions@[j].1.wf(),
            n == actions@.len(),
            i <= n,
            i > 0 ==> !cancel.raised,
            db@ == apply_seq_spec(old(db)@, acts_v(actions@.subrange(0, i as int))),
        decreases n - i,
    {
        if cancel.was_interrupted() {
            proof {
                assert(i == 0);
                assert(acts_v(actions@.subrange(0, 0)) =~= Seq::<(StagedV, ActionV)>::empty());
            }
            return Err(Error::Interrupted);
        }
        apply_one(db, &actions[i].0, &actions[i].1);
        proof {
            let pre = acts_v(actions@.subrange(0, i as int));
            let post = acts_v(actions@.subrange(0, i as int + 1));
            assert(post.subrange(0, post.len() - 1) =~= pre);
            assert(post[post.len() - 1]
                == (actions@[i as int].0.deep_view(), actions@[i as int].1.deep_view()));
        }
        i += 1;
    }
    if cancel.was_interrupted() {
        proof {
            assert(acts_v(actions@.subrange(0, 0)) =~= Seq::<(StagedV, ActionV)>::empty());
        }
        return Err(Error::Interrupted);
    }
    proof {
        assert(actions@.subrange(0, n as int) =~= actions@);
    }
    Ok(())
}

} // verus!
