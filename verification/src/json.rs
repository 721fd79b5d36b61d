//! JSON values as this engine stores and compares them.
//!
//! A payload is an arbitrary JSON value; an object is a sequence of fields
//! whose keys are unique.  The mathematical model (`JVal`) turns objects into
//! maps, so that structural equality of values is plain equality of models.

use vstd::prelude::*;
use vstd::pervasive::VecAdditionalExecFns;

verus! {

/// A JSON value.  A number is carried as its decimal text: the engine never
/// does arithmetic on a payload, it only stores and compares it.
#[derive(Debug, PartialEq)]
pub enum JsonValue {
    Null,
    Bool(bool),
    Num(String),
    Str(String),
    Arr(Vec<JsonValue>),
    Obj(JsonObject),
}

/// One field of a JSON object.
#[derive(Debug, PartialEq)]
pub struct JsonEntry {
    pub key: String,
    pub value: JsonValue,
}

/// A JSON object: a sequence of fields whose keys are unique (see `wf`).
#[derive(Debug, PartialEq)]
pub struct JsonObject {
    pub entries: Vec<JsonEntry>,
}

/// The mathematical shape of a JSON value.
pub enum JVal {
    Null,
    Bool(bool),
    Num(Seq<char>),
    Str(Seq<char>),
    Arr(Seq<JVal>),
    Obj(Map<Seq<char>, JVal>),
}

/// The model of a value.
pub open spec fn jv(v: JsonValue) -> JVal
    decreases v,
{
    match v {
        JsonValue::Null => JVal::Null,
        JsonValue::Bool(b) => JVal::Bool(b),
        JsonValue::Num(s) => JVal::Num(s@),
        JsonValue::Str(s) => JVal::Str(s@),
        JsonValue::Arr(a) => JVal::Arr(arr_v(a@)),
        JsonValue::Obj(o) => JVal::Obj(obj_v(o.entries@)),
    }
}

/// The model of an array: its elements' models, in order.
pub open spec fn arr_v(s: Seq<JsonValue>) -> Seq<JVal>
    decreases s,
{
    if s.len() == 0 {
        Seq::empty()
    } else {
        arr_v(s.subrange(0, s.len() - 1)).push(jv(s[s.len() - 1]))
    }
}

/// The model of an object's fields: a map from key to value model.
pub open spec fn obj_v(s: Seq<JsonEntry>) -> Map<Seq<char>, JVal>
    decreases s,
{
    if s.len() == 0 {
        Map::empty()
    } else {
        obj_v(s.subrange(0, s.len() - 1)).insert(s[s.len() - 1].key@, jv(s[s.len() - 1].value))
    }
}

/// No two fields share a key.
pub open spec fn keys_unique(s: Seq<JsonEntry>) -> bool {
    forall|i: int, j: int| 0 <= i < j < s.len() ==> s[i].key@ != s[j].key@
}

/// Keys are unique at every level of the value.
pub open spec fn val_wf(v: JsonValue) -> bool
    decreases v,
{
    match v {
        JsonValue::Arr(a) => forall|i: int| 0 <= i < a@.len() ==> val_wf(#[trigger] a@[i]),
        JsonValue::Obj(o) => obj_entries_wf(o.entries@),
        _ => true,
    }
}

/// Keys are unique among these fields and inside each field's value.
pub open spec fn obj_entries_wf(s: Seq<JsonEntry>) -> bool
    decreases s,
{
    keys_unique(s) && forall|i: int| 0 <= i < s.len() ==> val_wf(#[trigger] s[i].value)
}

/// The model of an optional payload (`None` is a tombstone).
pub open spec fn opt_v(p: Option<JsonValue>) -> Option<JVal> {
    match p {
        Some(v) => Some(jv(v)),
        None => None,
    }
}

/// An optional payload with unique keys throughout.
pub open spec fn opt_wf(p: Option<JsonValue>) -> bool {
    match p {
        Some(v) => val_wf(v),
        None => true,
    }
}

impl View for JsonValue {
    type V = JVal;

    open spec fn view(&self) -> JVal {
        jv(*self)
    }
}

impl View for JsonObject {
    type V = Map<Seq<char>, JVal>;

    open spec fn view(&self) -> Map<Seq<char>, JVal> {
        obj_v(self.entries@)
    }
}

impl JsonObject {
    /// Keys are unique throughout.
    pub open spec fn wf(self) -> bool {
        obj_entries_wf(self.entries@)
    }
}

/// A key occurs in the model exactly when some field carries it.
pub proof fn lemma_obj_v_contains(s: Seq<JsonEntry>)
    ensures
        forall|k: Seq<char>|
            #[trigger] obj_v(s).contains_key(k) <==> (exists|i: int|
                0 <= i < s.len() && #[trigger] s[i].key@ == k),
    decreases s.len(),
{
    if s.len() > 0 {
        let head = s.subrange(0, s.len() - 1);
        lemma_obj_v_contains(head);
        assert forall|k: Seq<char>| #[trigger] obj_v(s).contains_key(k) implies (exists|i: int|
            0 <= i < s.len() && #[trigger] s[i].key@ == k) by {
            if s[s.len() - 1].key@ == k {
                assert(s[s.len() - 1].key@ == k);
            } else {
                assert(obj_v(head).contains_key(k));
                let i = choose|i: int| 0 <= i < head.len() && #[trigger] head[i].key@ == k;
                assert(s[i].key@ == k);
            }
        }
        assert forall|k: Seq<char>|
            (exists|i: int| 0 <= i < s.len() && #[trigger] s[i].key@ == k) implies #[trigger] obj_v(
            s,
        ).contains_key(k) by {
            let i = choose|i: int| 0 <= i < s.len() && #[trigger] s[i].key@ == k;
            if i < s.len() - 1 {
                assert(head[i].key@ == k);
                assert(obj_v(head).contains_key(k));
            }
        }
    }
}

/// With unique keys, the model maps each field's key to that field's value.
pub proof fn lemma_obj_v_index(s: Seq<JsonEntry>, i: int)
    requires
        keys_unique(s),
        0 <= i < s.len(),
    ensures
        obj_v(s).contains_key(s[i].key@),
        obj_v(s)[s[i].key@] == jv(s[i].value),
    decreases s.len(),
{
    let head = s.subrange(0, s.len() - 1);
    if i == s.len() - 1 {
    } else {
        assert(head[i] == s[i]);
        lemma_obj_v_index(head, i);
        assert(s[i].key@ != s[s.len() - 1].key@);
    }
}

/// The model of an array has the elements' models, in order.
pub proof fn lemma_arr_v(s: Seq<JsonValue>)
    ensures
        arr_v(s).len() == s.len(),
        forall|i: int| 0 <= i < s.len() ==> (#[trigger] arr_v(s)[i]) == jv(s[i]),
    decreases s.len(),
{
    if s.len() > 0 {
        let head = s.subrange(0, s.len() - 1);
        lemma_arr_v(head);
        assert forall|i: int| 0 <= i < s.len() implies (#[trigger] arr_v(s)[i]) == jv(s[i]) by {
            if i < s.len() - 1 {
                assert(head[i] == s[i]);
                assert(arr_v(head)[i] == jv(head[i]));
            }
        }
    }
}

/// Fields with the same keys and the same value models give the same object model.
pub proof fn lemma_obj_v_congruent(s1: Seq<JsonEntry>, s2: Seq<JsonEntry>)
    requires
        s1.len() == s2.len(),
        forall|i: int|
            0 <= i < s1.len() ==> #[trigger] s1[i].key@ == s2[i].key@ && jv(s1[i].value) == jv(
                s2[i].value,
            ),
    ensures
        obj_v(s1) == obj_v(s2),
    decreases s1.len(),
{
    if s1.len() > 0 {
        let h1 = s1.subrange(0, s1.len() - 1);
        let h2 = s2.subrange(0, s2.len() - 1);
        assert forall|i: int|
            0 <= i < h1.len() implies #[trigger] h1[i].key@ == h2[i].key@ && jv(h1[i].value) == jv(
            h2[i].value,
        ) by {
            assert(h1[i] == s1[i] && h2[i] == s2[i]);
        }
        lemma_obj_v_congruent(h1, h2);
    }
}

impl JsonObject {
    /// The empty object.
    pub fn new() -> (r: JsonObject)
        ensures
            r@ == Map::<Seq<char>, JVal>::empty(),
            r.wf(),
    {
        JsonObject { entries: Vec::new() }
    }

    /// Looks a field up by key.
    pub fn get(&self, key: &String) -> (r: Option<&JsonValue>)
        requires
            self.wf(),
        ensures
            match r {
                Some(v) => self@.contains_key(key@) && jv(*v) == self@[key@] && val_wf(*v),
                None => !self@.contains_key(key@),
            },
    {
        let n = self.entries.len();
        let mut i: usize = 0;
        while i < n
            invariant
                self.wf(),
                n == self.entries.len(),
                i <= n,
                forall|j: int| 0 <= j < i ==> #[trigger] self.entries@[j].key@ != key@,
            decreases n - i,
        {
            if self.entries[i].key == *key {
                proof {
                    lemma_obj_v_index(self.entries@, i as int);
                }
                return Some(&self.entries[i].value);
            }
            i += 1;
        }
        proof {
            lemma_obj_v_contains(self.entries@);
        }
        None
    }

    /// Sets a field, replacing any field with the same key.
    pub fn insert(&mut self, key: String, value: JsonValue)
        requires
            old(self).wf(),
            val_wf(value),
        ensures
            final(self)@ == old(self)@.insert(key@, jv(value)),
            final(self).wf(),
    {
        let ghost s0 = self.entries@;
        let ghost k0 = key;
        let ghost v0 = value;
        let n = self.entries.len();
        let mut i: usize = 0;
        while i < n
            invariant
                self.wf(),
                self.entries@ == s0,
                s0 == old(self).entries@,
                k0 == key,
                v0 == value,
                val_wf(v0),
                n == self.entries.len(),
                i <= n,
                forall|j: int| 0 <= j < i ==> #[trigger] self.entries@[j].key@ != key@,
            decreases n - i,
        {
            if self.entries[i].key == key {
                let ghost newe = JsonEntry { key: k0, value: v0 };
                self.entries.set(i, JsonEntry { key, value });
                proof {
                    let s1 = self.entries@;
                    assert(s1 == s0.update(i as int, newe));
                    assert(s1[i as int] == newe);
                    assert forall|a: int, b: int| 0 <= a < b < s1.len() implies s1[a].key@
                        != s1[b].key@ by {
                        assert(s0[a].key@ != s0[b].key@);
                        assert(a != i ==> s1[a] == s0[a]);
                        assert(b != i ==> s1[b] == s0[b]);
                        assert(s0[i as int].key@ == k0@);
                    }
                    assert forall|a: int| 0 <= a < s1.len() implies val_wf(#[trigger] s1[a].value) by {
                        if a == i {
                            assert(s1[a] == newe);
                            assert(val_wf(newe.value));
                        } else {
                            assert(s1[a] == s0[a]);
                            assert(val_wf(s0[a].value));
                        }
                    }
                    lemma_obj_v_contains(s0);
                    lemma_obj_v_contains(s1);
                    assert forall|k: Seq<char>| #[trigger] obj_v(s1).contains_key(k) implies obj_v(
                        s0,
                    ).insert(k0@, jv(v0)).contains_key(k) by {
                        let a = choose|a: int| 0 <= a < s1.len() && #[trigger] s1[a].key@ == k;
                        if a != i {
                            assert(s1[a] == s0[a]);
                            assert(s0[a].key@ == k);
                        }
                    }
                    assert forall|k: Seq<char>| obj_v(s0).insert(k0@, jv(v0)).contains_key(
                        k,
                    ) implies #[trigger] obj_v(s1).contains_key(k) by {
                        if k == k0@ {
                            assert(s1[i as int].key@ == k);
                        } else {
                            let a = choose|a: int| 0 <= a < s0.len() && #[trigger] s0[a].key@ == k;
                            assert(a != i);
                            assert(s1[a] == s0[a]);
                            assert(s1[a].key@ == k);
                        }
                    }
                    assert forall|k: Seq<char>| #[trigger] obj_v(s1).contains_key(k) implies obj_v(
                        s1,
                    )[k] == obj_v(s0).insert(k0@, jv(v0))[k] by {
                        let a = choose|a: int| 0 <= a < s1.len() && #[trigger] s1[a].key@ == k;
                        lemma_obj_v_index(s1, a);
                        if a == i {
                            assert(k == k0@);
                            assert(jv(s1[a].value) == jv(v0));
                        } else {
                            assert(s1[a] == s0[a]);
                            assert(s0[a].key@ == k && s0[a].value == s1[a].value);
                            lemma_obj_v_index(s0, a);
                            assert(s0[i as int].key@ == k0@);
                            assert(k != k0@);
                        }
                    }
                    assert(obj_v(s1) =~= obj_v(s0).insert(k0@, jv(v0)));
                }
                return ;
            }
            i += 1;
        }
        self.entries.push(JsonEntry { key, value });
        proof {
            let s1 = self.entries@;
            assert(s1 == s0.push(JsonEntry { key: k0, value: v0 }));
            assert(s1.subrange(0, s1.len() - 1) =~= s0);
            assert(obj_v(s1) == obj_v(s0).insert(k0@, jv(v0)));
            assert forall|a: int, b: int| 0 <= a < b < s1.len() implies s1[a].key@ != s1[b].key@ by {
                if b == s1.len() - 1 {
                    assert(s0[a].key@ != k0@);
                } else {
                    assert(s0[a].key@ != s0[b].key@);
                }
            }
            assert forall|a: int| 0 <= a < s1.len() implies val_wf(#[trigger] s1[a].value) by {
                if a < s1.len() - 1 {
                    assert(val_wf(s0[a].value));
                }
            }
        }
    }
}

/// Structural equality of two values: their models are equal.
pub fn json_eq(a: &JsonValue, b: &JsonValue) -> (r: bool)
    requires
        val_wf(*a),
        val_wf(*b),
    ensures
        r == (jv(*a) == jv(*b)),
    decreases *a,
{
    match a {
        JsonValue::Null => match b {
            JsonValue::Null => true,
            _ => false,
        },
        JsonValue::Bool(x) => match b {
            JsonValue::Bool(y) => x == y,
            _ => false,
        },
        JsonValue::Num(x) => match b {
            JsonValue::Num(y) => *x == *y,
            _ => false,
        },
        JsonValue::Str(x) => match b {
            JsonValue::Str(y) => *x == *y,
            _ => false,
        },
        JsonValue::Arr(x) => match b {
            JsonValue::Arr(y) => {
                proof {
                    assert(*x == (*a)->Arr_0);
                    assert(decreases_to!(*a => (*a)->Arr_0));
                    assert(decreases_to!(*x => x@));
                }
                json_arr_eq(x, y)
            },
            _ => false,
        },
        JsonValue::Obj(x) => match b {
            JsonValue::Obj(y) => {
                proof {
                    assert(*x == (*a)->Obj_0);
                    assert(decreases_to!(*a => (*a)->Obj_0));
                }
                json_obj_eq(x, y)
            },
            _ => false,
        },
    }
}

/// Structural equality of two arrays: their models are equal sequences.
pub fn json_arr_eq(x: &Vec<JsonValue>, y: &Vec<JsonValue>) -> (r: bool)
    requires
        forall|j: int| 0 <= j < x@.len() ==> val_wf(#[trigger] x@[j]),
        forall|j: int| 0 <= j < y@.len() ==> val_wf(#[trigger] y@[j]),
    ensures
        r == (arr_v(x@) == arr_v(y@)),
    decreases x@,
{
    proof {
        lemma_arr_v(x@);
        lemma_arr_v(y@);
    }
    if x.len() != y.len() {
        return false;
    }
    let n = x.len();
    let mut i: usize = 0;
    while i < n
        invariant
            forall|j: int| 0 <= j < x@.len() ==> val_wf(#[trigger] x@[j]),
            forall|j: int| 0 <= j < y@.len() ==> val_wf(#[trigger] y@[j]),
            n == x@.len() && n == y@.len(),
            i <= n,
            forall|j: int| 0 <= j < i ==> jv(#[trigger] x@[j]) == jv(y@[j]),
        decreases n - i,
    {
        proof {
            assert(decreases_to!(x@ => x@[i as int]));
        }
        if !json_eq(&x[i], &y[i]) {
            proof {
                lemma_arr_v(x@);
                lemma_arr_v(y@);
                assert(arr_v(x@)[i as int] != arr_v(y@)[i as int]);
            }
            return false;
        }
        i += 1;
    }
    proof {
        lemma_arr_v(x@);
        lemma_arr_v(y@);
        assert forall|j: int| 0 <= j < n implies (#[trigger] arr_v(x@)[j]) == arr_v(y@)[j] by {
            assert(jv(x@[j]) == jv(y@[j]));
        }
        assert(arr_v(x@) =~= arr_v(y@));
    }
    true
}

/// Structural equality of two objects: their models are equal maps.
pub fn json_obj_eq(a: &JsonObject, b: &JsonObject) -> (r: bool)
    requires
        a.wf(),
        b.wf(),
    ensures
        r == (a@ == b@),
    decreases *a,
{
    let na = a.entries.len();
    let mut i: usize = 0;
    while i < na
        invariant
            a.wf(),
            b.wf(),
            na == a.entries.len(),
            i <= na,
            forall|j: int|
                0 <= j < i ==> b@.contains_key(#[trigger] a.entries@[j].key@) && a@[a.entries@[j].key@]
                    == b@[a.entries@[j].key@],
        decreases na - i,
    {
        proof {
            lemma_obj_v_index(a.entries@, i as int);
            assert(decreases_to!(*a => a.entries));
            assert(decreases_to!(a.entries => a.entries@[i as int]));
            assert(decreases_to!(a.entries@[i as int] => a.entries@[i as int].value));
        }
        match b.get(&a.entries[i].key) {
            None => {
                return false;
            },
            Some(v) => {
                if !json_eq(&a.entries[i].value, v) {
                    return false;
                }
            },
        }
        i += 1;
    }
    let nb = b.entries.len();
    let mut i2: usize = 0;
    while i2 < nb
        invariant
            a.wf(),
            b.wf(),
            nb == b.entries.len(),
            i2 <= nb,
            forall|j: int|
                0 <= j < a.entries@.len() ==> b@.contains_key(#[trigger] a.entries@[j].key@)
                    && a@[a.entries@[j].key@] == b@[a.entries@[j].key@],
            forall|j: int| 0 <= j < i2 ==> a@.contains_key(#[trigger] b.entries@[j].key@),
        decreases nb - i2,
    {
        proof {
            lemma_obj_v_index(b.entries@, i2 as int);
        }
        match a.get(&b.entries[i2].key) {
            None => {
                return false;
            },
            Some(_) => {},
        }
        i2 += 1;
    }
    proof {
        lemma_obj_v_contains(a.entries@);
        lemma_obj_v_contains(b.entries@);
        assert forall|k: Seq<char>| #[trigger] a@.contains_key(k) implies b@.contains_key(k) && a@[k]
            == b@[k] by {
            let j = choose|j: int| 0 <= j < a.entries@.len() && #[trigger] a.entries@[j].key@ == k;
            assert(b@.contains_key(a.entries@[j].key@));
        }
        assert forall|k: Seq<char>| #[trigger] b@.contains_key(k) implies a@.contains_key(k) by {
            let j = choose|j: int| 0 <= j < b.entries@.len() && #[trigger] b.entries@[j].key@ == k;
            assert(a@.contains_key(b.entries@[j].key@));
        }
        assert(a@ =~= b@);
    }
    true
}

/// A copy of a value with the same model.
pub fn json_clone(v: &JsonValue) -> (r: JsonValue)
    ensures
        jv(r) == jv(*v),
        val_wf(*v) ==> val_wf(r),
    decreases *v,
{
    match v {
        JsonValue::Null => JsonValue::Null,
        JsonValue::Bool(b) => JsonValue::Bool(*b),
        JsonValue::Num(s) => JsonValue::Num(s.clone()),
        JsonValue::Str(s) => JsonValue::Str(s.clone()),
        JsonValue::Arr(x) => {
            let n = x.len();
            let mut out: Vec<JsonValue> = Vec::new();
            let mut i: usize = 0;
            while i < n
                invariant
                    v == JsonValue::Arr(*x),
                    n == x.len(),
                    i <= n,
                    out@.len() == i,
                    forall|j: int| 0 <= j < i ==> jv(#[trigger] out@[j]) == jv(x@[j]),
                    forall|j: int| 0 <= j < i ==> (val_wf(x@[j]) ==> val_wf(#[trigger] out@[j])),
                decreases n - i,
            {
                proof {
                    assert(*x == (*v)->Arr_0);
                    assert(decreases_to!(*v => (*v)->Arr_0));
                    assert(decreases_to!(*x => x@[i as int]));
                }
                out.push(json_clone(&x[i]));
                i += 1;
            }
            proof {
                lemma_arr_v(out@);
                lemma_arr_v(x@);
                assert forall|j: int| 0 <= j < n implies (#[trigger] arr_v(out@)[j]) == arr_v(
                    x@,
                )[j] by {
                    assert(jv(out@[j]) == jv(x@[j]));
                }
                assert(arr_v(out@) =~= arr_v(x@));
                if val_wf(*v) {
                    assert forall|j: int| 0 <= j < out@.len() implies val_wf(#[trigger] out@[j]) by {
                        assert(val_wf(x@[j]));
                    }
                }
            }
            JsonValue::Arr(out)
        },
        JsonValue::Obj(o) => {
            proof {
                assert(*o == (*v)->Obj_0);
                assert(decreases_to!(*v => (*v)->Obj_0));
            }
            JsonValue::Obj(json_obj_clone(o))
        },
    }
}

/// A copy of an object with the same model.
pub fn json_obj_clone(o: &JsonObject) -> (r: JsonObject)
    ensures
        r@ == o@,
        o.wf() ==> r.wf(),
    decreases *o,
{
    let n = o.entries.len();
    let mut out: Vec<JsonEntry> = Vec::new();
    let mut i: usize = 0;
    while i < n
        invariant
            n == o.entries.len(),
            i <= n,
            out@.len() == i,
            forall|j: int|
                0 <= j < i ==> #[trigger] out@[j].key@ == o.entries@[j].key@ && jv(out@[j].value)
                    == jv(o.entries@[j].value),
            forall|j: int|
                0 <= j < i ==> (val_wf(o.entries@[j].value) ==> val_wf(#[trigger] out@[j].value)),
        decreases n - i,
    {
        proof {
            assert(decreases_to!(*o => o.entries));
            assert(decreases_to!(o.entries => o.entries@[i as int]));
            assert(decreases_to!(o.entries@[i as int] => o.entries@[i as int].value));
        }
        out.push(JsonEntry { key: o.entries[i].key.clone(), value: json_clone(&o.entries[i].value) });
        i += 1;
    }
    proof {
        lemma_obj_v_congruent(out@, o.entries@);
        if o.wf() {
            assert forall|x: int, y: int| 0 <= x < y < out@.len() implies out@[x].key@
                != out@[y].key@ by {
                assert(o.entries@[x].key@ != o.entries@[y].key@);
            }
            assert forall|x: int| 0 <= x < out@.len() implies val_wf(#[trigger] out@[x].value) by {
                assert(val_wf(o.entries@[x].value));
            }
        }
    }
    JsonObject { entries: out }
}

/// A copy of an optional payload with the same model.
pub fn json_clone_opt(p: &Option<JsonValue>) -> (r: Option<JsonValue>)
    ensures
        opt_v(r) == opt_v(*p),
        opt_wf(*p) ==> opt_wf(r),
{
    match p {
        Some(v) => Some(json_clone(v)),
        None => None,
    }
}

} // verus!
