//! A store keyed by extension identifier, modelled as a map.
//!
//! Both record stores (local and mirror) are tables of rows with unique
//! string keys; the model of a table is the map from each key to the model
//! of its row.

use vstd::prelude::*;
use vstd::pervasive::VecAdditionalExecFns;

verus! {

/// A row value that knows its own well-formedness.
pub trait RowVal: DeepView {
    /// The row's internal invariant (payload keys unique, and the like).
    spec fn row_wf(&self) -> bool;
}

/// A store of rows with unique keys.
pub struct Table<V> {
    pub rows: Vec<(String, V)>,
}

/// The model of a row sequence: a map from key to row model.
pub open spec fn tbl_v<V: DeepView>(s: Seq<(String, V)>) -> Map<Seq<char>, V::V>
    decreases s,
{
    if s.len() == 0 {
        Map::empty()
    } else {
        tbl_v(s.subrange(0, s.len() - 1)).insert(s[s.len() - 1].0@, s[s.len() - 1].1.deep_view())
    }
}

/// No two rows share a key.
pub open spec fn tbl_keys_unique<V>(s: Seq<(String, V)>) -> bool {
    forall|i: int, j: int| 0 <= i < j < s.len() ==> s[i].0@ != s[j].0@
}

impl<V: DeepView> View for Table<V> {
    type V = Map<Seq<char>, V::V>;

    open spec fn view(&self) -> Map<Seq<char>, V::V> {
        tbl_v(self.rows@)
    }
}

impl<V: RowVal> Table<V> {
    /// Keys are unique and every row meets its own invariant.
    pub open spec fn wf(self) -> bool {
        tbl_keys_unique(self.rows@) && forall|i: int|
            0 <= i < self.rows@.len() ==> (#[trigger] self.rows@[i].1).row_wf()
    }
}

/// A key occurs in the model exactly when some row carries it.
pub proof fn lemma_tbl_contains<V: DeepView>(s: Seq<(String, V)>)
    ensures
        forall|k: Seq<char>|
            #[trigger] tbl_v(s).contains_key(k) <==> (exists|i: int|
                0 <= i < s.len() && #[trigger] s[i].0@ == k),
    decreases s.len(),
{
    if s.len() > 0 {
        let head = s.subrange(0, s.len() - 1);
        lemma_tbl_contains(head);
        assert forall|k: Seq<char>| #[trigger] tbl_v(s).contains_key(k) implies (exists|i: int|
            0 <= i < s.len() && #[trigger] s[i].0@ == k) by {
            if s[s.len() - 1].0@ == k {
                assert(s[s.len() - 1].0@ == k);
            } else {
                assert(tbl_v(head).contains_key(k));
                let i = choose|i: int| 0 <= i < head.len() && #[trigger] head[i].0@ == k;
                assert(s[i].0@ == k);
            }
        }
        assert forall|k: Seq<char>|
            (exists|i: int| 0 <= i < s.len() && #[trigger] s[i].0@ == k) implies #[trigger] tbl_v(
            s,
        ).contains_key(k) by {
            let i = choose|i: int| 0 <= i < s.len() && #[trigger] s[i].0@ == k;
            if i < s.len() - 1 {
                assert(head[i].0@ == k);
                assert(tbl_v(head).contains_key(k));
            }
        }
    }
}

/// With unique keys, the model maps each row's key to that row's model.
pub proof fn lemma_tbl_index<V: DeepView>(s: Seq<(String, V)>, i: int)
    requires
        tbl_keys_unique(s),
        0 <= i < s.len(),
    ensures
        tbl_v(s).contains_key(s[i].0@),
        tbl_v(s)[s[i].0@] == s[i].1.deep_view(),
    decreases s.len(),
{
    let head = s.subrange(0, s.len() - 1);
    if i == s.len() - 1 {
    } else {
        assert(head[i] == s[i]);
        lemma_tbl_index(head, i);
        assert(s[i].0@ != s[s.len() - 1].0@);
    }
}

impl<V: RowVal> Table<V> {
    /// The empty store.
    pub fn new() -> (r: Table<V>)
        ensures
            r@ == Map::<Seq<char>, V::V>::empty(),
            r.wf(),
    {
        Table { rows: Vec::new() }
    }

    /// Looks a row up by key.
    pub fn get(&self, key: &String) -> (r: Option<&V>)
        requires
            self.wf(),
        ensures
            match r {
                Some(v) => self@.contains_key(key@) && v.deep_view() == self@[key@] && v.row_wf(),
                None => !self@.contains_key(key@),
            },
    {
        let n = self.rows.len();
        let mut i: usize = 0;
        while i < n
            invariant
                self.wf(),
                n == self.rows.len(),
                i <= n,
                forall|j: int| 0 <= j < i ==> #[trigger] self.rows@[j].0@ != key@,
            decreases n - i,
        {
            if self.rows[i].0 == *key {
                proof {
                    lemma_tbl_index(self.rows@, i as int);
                }
                return Some(&self.rows[i].1);
            }
            i += 1;
        }
        proof {
            lemma_tbl_contains(self.rows@);
        }
        None
    }

    /// Sets a row, replacing any row with the same key.
    pub fn upsert(&mut self, key: String, value: V)
        requires
            old(self).wf(),
            value.row_wf(),
        ensures
            final(self)@ == old(self)@.insert(key@, value.deep_view()),
            final(self).wf(),
    {
        let ghost s0 = self.rows@;
        let ghost k0 = key;
        let ghost v0 = value;
        let n = self.rows.len();
        let mut i: usize = 0;
        while i < n
            invariant
                self.wf(),
                self.rows@ == s0,
                s0 == old(self).rows@,
                k0 == key,
                v0 == value,
                v0.row_wf(),
                n == self.rows.len(),
                i <= n,
                forall|j: int| 0 <= j < i ==> #[trigger] self.rows@[j].0@ != key@,
            decreases n - i,
        {
            if self.rows[i].0 == key {
                let ghost newe = (k0, v0);
                self.rows.set(i, (key, value));
                proof {
                    let s1 = self.rows@;
                    assert(s1 == s0.update(i as int, newe));
                    assert(s1[i as int] == newe);
                    assert forall|a: int, b: int| 0 <= a < b < s1.len() implies s1[a].0@
                        != s1[b].0@ by {
                        assert(s0[a].0@ != s0[b].0@);
                        assert(a != i ==> s1[a] == s0[a]);
                        assert(b != i ==> s1[b] == s0[b]);
                        assert(s0[i as int].0@ == k0@);
                    }
                    assert forall|a: int| 0 <= a < s1.len() implies (#[trigger] s1[a].1).row_wf() by {
                        if a == i {
                            assert(s1[a] == newe);
                        } else {
                            assert(s1[a] == s0[a]);
                            assert(s0[a].1.row_wf());
                        }
                    }
                    lemma_tbl_contains(s0);
                    lemma_tbl_contains(s1);
                    assert forall|k: Seq<char>| #[trigger] tbl_v(s1).contains_key(k) implies tbl_v(
                        s0,
                    ).insert(k0@, v0.deep_view()).contains_key(k) by {
                        let a = choose|a: int| 0 <= a < s1.len() && #[trigger] s1[a].0@ == k;
                        if a != i {
                            assert(s1[a] == s0[a]);
                            assert(s0[a].0@ == k);
                        }
                    }
                    assert forall|k: Seq<char>| tbl_v(s0).insert(k0@, v0.deep_view()).contains_key(
                        k,
                    ) implies #[trigger] tbl_v(s1).contains_key(k) by {
                        if k == k0@ {
                            assert(s1[i as int].0@ == k);
                        } else {
                            let a = choose|a: int| 0 <= a < s0.len() && #[trigger] s0[a].0@ == k;
                            assert(a != i);
                            assert(s1[a] == s0[a]);
                            assert(s1[a].0@ == k);
                        }
                    }
                    assert forall|k: Seq<char>| #[trigger] tbl_v(s1).contains_key(k) implies tbl_v(
                        s1,
                    )[k] == tbl_v(s0).insert(k0@, v0.deep_view())[k] by {
                        let a = choose|a: int| 0 <= a < s1.len() && #[trigger] s1[a].0@ == k;
                        lemma_tbl_index(s1, a);
                        if a == i {
                            assert(k == k0@);
                            assert(s1[a].1.deep_view() == v0.deep_view());
                        } else {
                            assert(s1[a] == s0[a]);
                            assert(s0[a].0@ == k && s0[a].1 == s1[a].1);
                            lemma_tbl_index(s0, a);
                            assert(s0[i as int].0@ == k0@);
                            assert(k != k0@);
                        }
                    }
                    assert(tbl_v(s1) =~= tbl_v(s0).insert(k0@, v0.deep_view()));
                }
                return ;
            }
            i += 1;
        }
        self.rows.push((key, value));
        proof {
            let s1 = self.rows@;
            assert(s1 == s0.push((k0, v0)));
            assert(s1.subrange(0, s1.len() - 1) =~= s0);
            assert(tbl_v(s1) == tbl_v(s0).insert(k0@, v0.deep_view()));
            assert forall|a: int, b: int| 0 <= a < b < s1.len() implies s1[a].0@ != s1[b].0@ by {
                if b == s1.len() - 1 {
                    assert(s0[a].0@ != k0@);
                } else {
                    assert(s0[a].0@ != s0[b].0@);
                }
            }
            assert forall|a: int| 0 <= a < s1.len() implies (#[trigger] s1[a].1).row_wf() by {
                if a < s1.len() - 1 {
                    assert(s0[a].1.row_wf());
                }
            }
        }
    }

    /// Removes the row with this key, if any.
    pub fn remove(&mut self, key: &String)
        requires
            old(self).wf(),
        ensures
            final(self)@ == old(self)@.remove(key@),
            final(self).wf(),
    {
        let ghost s0 = self.rows@;
        let n = self.rows.len();
        let mut i: usize = 0;
        while i < n
            invariant
                self.wf(),
                self.rows@ == s0,
                s0 == old(self).rows@,
                n == self.rows.len(),
                i <= n,
                forall|j: int| 0 <= j < i ==> #[trigger] self.rows@[j].0@ != key@,
            decreases n - i,
        {
            if self.rows[i].0 == *key {
                self.rows.remove(i);
                proof {
                    let s1 = self.rows@;
                    assert(s1 == s0.remove(i as int));
                    assert forall|a: int| 0 <= a < s1.len() implies #[trigger] s1[a] == (if a < i {
                        s0[a]
                    } else {
                        s0[a + 1]
                    }) by {}
                    assert forall|a: int, b: int| 0 <= a < b < s1.len() implies s1[a].0@
                        != s1[b].0@ by {
                        let a0: int = if a < i { a } else { a + 1 };
                        let b0: int = if b < i { b } else { b + 1 };
                        assert(s0[a0].0@ != s0[b0].0@);
                    }
                    assert forall|a: int| 0 <= a < s1.len() implies (#[trigger] s1[a].1).row_wf() by {
                        let a0: int = if a < i { a } else { a + 1 };
                        assert(s0[a0].1.row_wf());
                    }
                    lemma_tbl_contains(s0);
                    lemma_tbl_contains(s1);
                    assert forall|k: Seq<char>| #[trigger] tbl_v(s1).contains_key(k) implies tbl_v(
                        s0,
                    ).remove(key@).contains_key(k) by {
                        let a = choose|a: int| 0 <= a < s1.len() && #[trigger] s1[a].0@ == k;
                        let a0: int = if a < i { a } else { a + 1 };
                        assert(s0[a0].0@ == k);
                        assert(s0[i as int].0@ == key@);
                        assert(k != key@);
                    }
                    assert forall|k: Seq<char>| tbl_v(s0).remove(key@).contains_key(k) implies (
                    #[trigger] tbl_v(s1).contains_key(k)) by {
                        let a = choose|a: int| 0 <= a < s0.len() && #[trigger] s0[a].0@ == k;
                        assert(a != i);
                        let a1: int = if a < i { a } else { a - 1 };
                        assert(s1[a1] == s0[a]);
                        assert(s1[a1].0@ == k);
                    }
                    assert forall|k: Seq<char>| #[trigger] tbl_v(s1).contains_key(k) implies tbl_v(
                        s1,
                    )[k] == tbl_v(s0).remove(key@)[k] by {
                        let a = choose|a: int| 0 <= a < s1.len() && #[trigger] s1[a].0@ == k;
                        lemma_tbl_index(s1, a);
                        let a0: int = if a < i { a } else { a + 1 };
                        assert(s0[a0] == s1[a]);
                        lemma_tbl_index(s0, a0);
                        assert(s0[i as int].0@ == key@);
                        assert(k != key@);
                    }
                    assert(tbl_v(s1) =~= tbl_v(s0).remove(key@));
                }
                return ;
            }
            i += 1;
        }
        proof {
            lemma_tbl_contains(s0);
            assert(!tbl_v(s0).contains_key(key@));
            assert(tbl_v(s0) =~= tbl_v(s0).remove(key@));
        }
    }
}

} // verus!
