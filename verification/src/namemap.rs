//! A map from names to values that keeps its keys in the order of `String`,
//! as a JSON object with sorted keys shows them. It is a sorted vector because
//! vstd states `BTreeMap`'s behaviour only for keys whose `Ord` obeys its
//! comparison model, which it does not establish for `String` keys.
use vstd::prelude::*;

use crate::text::{
    chars_lt, lemma_chars_lt_irreflexive, lemma_strictly_sorted_distinct, sorted_position,
    strictly_sorted, strs_view,
};

verus! {

/// Keys in strictly increasing order, each with its value.
#[derive(Debug)]
pub struct NameMap<V> {
    keys: Vec<String>,
    values: Vec<V>,
}

impl<V> NameMap<V> {
    /// The keys, in increasing order.
    pub closed spec fn keys(&self) -> Seq<Seq<char>> {
        strs_view(self.keys@)
    }

    /// The values, in the order of their keys.
    pub closed spec fn values(&self) -> Seq<V> {
        self.values@
    }

    /// Keys and values pair up, and the keys are strictly increasing.
    pub closed spec fn wf(&self) -> bool {
        &&& self.keys@.len() == self.values@.len()
        &&& strictly_sorted(self.keys())
    }

    /// The map that the keys and values form.
    pub open spec fn map(&self) -> Map<Seq<char>, V> {
        Map::new(
            |k: Seq<char>| self.keys().contains(k),
            |k: Seq<char>| self.values()[self.keys().index_of(k)],
        )
    }

    /// In a well-formed map the keys are strictly sorted, the value stored under
    /// the key at a position is the value at that position, and the keys are
    /// exactly the map's domain.
    pub proof fn lemma_wf_facts(&self)
        requires
            self.wf(),
        ensures
            self.keys().len() == self.values().len(),
            strictly_sorted(self.keys()),
            forall|i: int|
                0 <= i < self.keys().len() ==> #[trigger] self.map().dom().contains(self.keys()[i])
                    && self.map()[self.keys()[i]] == self.values()[i],
            forall|k: Seq<char>| #[trigger] self.map().dom().contains(k) <==> self.keys().contains(k),
    {
        assert forall|i: int| 0 <= i < self.keys().len() implies #[trigger] self.map().dom().contains(
            self.keys()[i],
        ) && self.map()[self.keys()[i]] == self.values()[i] by {
            let k = self.keys()[i];
            assert(self.keys().contains(k));
            let j = self.keys().index_of(k);
            if j != i {
                lemma_strictly_sorted_distinct(self.keys(), i, j);
            }
        }
    }

    pub fn new() -> (m: Self)
        ensures
            m.wf(),
            m.keys() == Seq::<Seq<char>>::empty(),
            m.map() == Map::<Seq<char>, V>::empty(),
    {
        let m = NameMap { keys: Vec::new(), values: Vec::new() };
        assert(m.keys() =~= Seq::<Seq<char>>::empty());
        assert(m.map() =~= Map::<Seq<char>, V>::empty());
        m
    }

    pub fn len(&self) -> (r: usize)
        requires
            self.wf(),
        ensures
            r == self.keys().len(),
    {
        self.keys.len()
    }

    /// The keys, in increasing order.
    pub fn key_list(&self) -> (r: &Vec<String>)
        ensures
            strs_view(r@) == self.keys(),
    {
        &self.keys
    }

    /// The values, in the order of their keys.
    pub fn value_list(&self) -> (r: &Vec<V>)
        ensures
            r@ == self.values(),
    {
        &self.values
    }

    /// Where `key` is or belongs, and whether it is there.
    fn position(&self, key: &str) -> (r: (usize, bool))
        requires
            self.wf(),
        ensures
            r.0 <= self.keys().len(),
            forall|k: int| 0 <= k < r.0 ==> chars_lt(#[trigger] self.keys()[k], key@),
            forall|k: int|
                r.0 < k < self.keys().len() ==> chars_lt(key@, #[trigger] self.keys()[k]),
            r.0 < self.keys().len() && !r.1 ==> chars_lt(key@, self.keys()[r.0 as int]),
            r.1 <==> (r.0 < self.keys().len() && self.keys()[r.0 as int] == key@),
            r.1 <==> self.keys().contains(key@),
    {
        let r = sorted_position(&self.keys, key);
        proof {
            let ks = self.keys();
            assert forall|k: int| r.0 < k < ks.len() implies chars_lt(key@, #[trigger] ks[k]) by {
                assert(ks[k] == self.keys@[k]@);
                if ks[k] == key@ {
                    lemma_strictly_sorted_distinct(ks, r.0 as int, k);
                    assert(ks[r.0 as int] == self.keys@[r.0 as int]@);
                    assert(ks[r.0 as int] != key@);
                    assert(chars_lt(ks[r.0 as int], ks[k]));
                    assert(self.keys@[r.0 as int]@ != key@);
                    assert(chars_lt(key@, self.keys@[r.0 as int]@));
                    crate::text::lemma_chars_lt_asymmetric(key@, ks[r.0 as int]);
                }
            }
            assert forall|k: int| 0 <= k < r.0 implies chars_lt(#[trigger] ks[k], key@) by {
                assert(ks[k] == self.keys@[k]@);
            }
        }
        r
    }

    pub fn contains_key(&self, key: &str) -> (r: bool)
        requires
            self.wf(),
        ensures
            r == self.map().dom().contains(key@),
    {
        let (_, found) = self.position(key);
        found
    }

    pub fn get(&self, key: &str) -> (r: Option<&V>)
        requires
            self.wf(),
        ensures
            match r {
                Some(v) => self.map().dom().contains(key@) && *v == self.map()[key@],
                None => !self.map().dom().contains(key@),
            },
    {
        let (pos, found) = self.position(key);
        proof {
            self.lemma_wf_facts();
        }
        if found {
            assert(self.map().dom().contains(self.keys()[pos as int]));
            assert(self.map()[self.keys()[pos as int]] == self.values()[pos as int]);
            Some(&self.values[pos])
        } else {
            None
        }
    }

    /// Puts `value` under `key`, replacing what was there.
    pub fn insert(&mut self, key: String, value: V)
        requires
            old(self).wf(),
        ensures
            final(self).wf(),
            final(self).map() == old(self).map().insert(key@, value),
    {
        let (pos, found) = self.position(key.as_str());
        let ghost ok = self.keys();
        let ghost ov = self.values();
        let ghost om = self.map();
        proof {
            self.lemma_wf_facts();
        }
        if found {
            self.values.remove(pos);
            self.values.insert(pos, value);
            proof {
                assert(self.keys() == ok);
                assert(self.values() =~= ov.update(pos as int, value));
                assert(self.wf());
                self.lemma_wf_facts();
                assert forall|k: Seq<char>| #[trigger] self.map().dom().contains(k) <==> om.insert(
                    key@,
                    value,
                ).dom().contains(k) by {}
                assert forall|k: Seq<char>| #[trigger] self.map().dom().contains(k) implies self.map()[k]
                    == om.insert(key@, value)[k] by {
                    let i = ok.index_of(k);
                    assert(ok[i] == k);
                    assert(self.map()[ok[i]] == self.values()[i]);
                    if i != pos {
                        lemma_strictly_sorted_distinct(ok, i, pos as int);
                    }
                }
                assert(self.map() =~= om.insert(key@, value));
            }
        } else {
            let ghost kv = key@;
            self.keys.insert(pos, key);
            self.values.insert(pos, value);
            proof {
                let nk = self.keys();
                assert(nk =~= ok.insert(pos as int, kv));
                assert(self.values() =~= ov.insert(pos as int, value));
                assert forall|i: int, j: int| 0 <= i < j < nk.len() implies chars_lt(
                    #[trigger] nk[i],
                    #[trigger] nk[j],
                ) by {
                    if j < pos {
                    } else if j == pos {
                        assert(nk[i] == ok[i]);
                    } else if i == pos {
                        assert(nk[j] == ok[j - 1]);
                        if j - 1 > pos {
                        } else {
                            assert(chars_lt(kv, ok[pos as int]));
                        }
                    } else if i < pos {
                        assert(nk[i] == ok[i]);
                        assert(nk[j] == ok[j - 1]);
                    } else {
                        assert(nk[i] == ok[i - 1]);
                        assert(nk[j] == ok[j - 1]);
                    }
                }
                assert(self.wf());
                self.lemma_wf_facts();
                assert forall|k: Seq<char>| #[trigger] self.map().dom().contains(k) <==> om.insert(
                    kv,
                    value,
                ).dom().contains(k) by {
                    if nk.contains(k) {
                        let i = choose|i: int| 0 <= i < nk.len() && nk[i] == k;
                        if i < pos {
                            assert(ok[i] == k);
                        } else if i > pos {
                            assert(ok[i - 1] == k);
                        }
                    }
                    if ok.contains(k) {
                        let i = choose|i: int| 0 <= i < ok.len() && ok[i] == k;
                        if i < pos {
                            assert(nk[i] == k);
                        } else {
                            assert(nk[i + 1] == k);
                        }
                    }
                    if k == kv {
                        assert(nk[pos as int] == k);
                    }
                }
                assert forall|k: Seq<char>| #[trigger] self.map().dom().contains(k) implies self.map()[k]
                    == om.insert(kv, value)[k] by {
                    let i = nk.index_of(k);
                    assert(nk[i] == k);
                    assert(self.map()[nk[i]] == self.values()[i]);
                    if i < pos {
                        assert(ok[i] == k);
                        assert(om[ok[i]] == ov[i]);
                        assert(k != kv);
                    } else if i > pos {
                        assert(ok[i - 1] == k);
                        assert(om[ok[i - 1]] == ov[i - 1]);
                        assert(k != kv) by {
                            lemma_strictly_sorted_distinct(nk, pos as int, i);
                        }
                    }
                }
                assert(self.map() =~= om.insert(kv, value));
            }
        }
    }

    /// Takes the value under `key` out of the map, if there is one.
    pub fn remove(&mut self, key: &str) -> (r: Option<V>)
        requires
            old(self).wf(),
        ensures
            final(self).wf(),
            final(self).map() == old(self).map().remove(key@),
            match r {
                Some(v) => old(self).map().dom().contains(key@) && v == old(self).map()[key@],
                None => !old(self).map().dom().contains(key@),
            },
    {
        let (pos, found) = self.position(key);
        proof {
            self.lemma_wf_facts();
        }
        if !found {
            assert(self.map() =~= self.map().remove(key@));
            return None;
        }
        let ghost ok = self.keys();
        let ghost ov = self.values();
        let ghost om = self.map();
        assert(self.map().dom().contains(self.keys()[pos as int]));
        assert(self.map()[self.keys()[pos as int]] == self.values()[pos as int]);
        self.keys.remove(pos);
        let v = self.values.remove(pos);
        proof {
            let nk = self.keys();
            assert(nk =~= ok.remove(pos as int));
            assert(self.values() =~= ov.remove(pos as int));
            assert forall|i: int, j: int| 0 <= i < j < nk.len() implies chars_lt(
                #[trigger] nk[i],
                #[trigger] nk[j],
            ) by {
                if j < pos {
                } else if i < pos {
                    assert(nk[i] == ok[i]);
                    assert(nk[j] == ok[j + 1]);
                } else {
                    assert(nk[i] == ok[i + 1]);
                    assert(nk[j] == ok[j + 1]);
                }
            }
            assert(self.wf());
            self.lemma_wf_facts();
            assert forall|k: Seq<char>| #[trigger] self.map().dom().contains(k) <==> om.remove(
                key@,
            ).dom().contains(k) by {
                if nk.contains(k) {
                    let i = choose|i: int| 0 <= i < nk.len() && nk[i] == k;
                    if i < pos {
                        assert(ok[i] == k);
                        lemma_strictly_sorted_distinct(ok, i, pos as int);
                    } else {
                        assert(ok[i + 1] == k);
                        lemma_strictly_sorted_distinct(ok, i + 1, pos as int);
                    }
                }
                if ok.contains(k) && k != key@ {
                    let i = choose|i: int| 0 <= i < ok.len() && ok[i] == k;
                    if i < pos {
                        assert(nk[i] == k);
                    } else {
                        assert(i != pos);
                        assert(nk[i - 1] == k);
                    }
                }
            }
            assert forall|k: Seq<char>| #[trigger] self.map().dom().contains(k) implies self.map()[k]
                == om.remove(key@)[k] by {
                let i = nk.index_of(k);
                assert(nk[i] == k);
                assert(self.map()[nk[i]] == self.values()[i]);
                if i < pos {
                    assert(ok[i] == k);
                    assert(om[ok[i]] == ov[i]);
                } else {
                    assert(ok[i + 1] == k);
                    assert(om[ok[i + 1]] == ov[i + 1]);
                }
            }
            assert(self.map() =~= om.remove(key@));
        }
        Some(v)
    }
}

/// Two lists of names in strictly increasing order that hold the same names are equal.
pub proof fn lemma_sorted_unique(a: Seq<Seq<char>>, b: Seq<Seq<char>>)
    requires
        strictly_sorted(a),
        strictly_sorted(b),
        a.to_set() == b.to_set(),
    ensures
        a == b,
    decreases a.len(),
{
    if a.len() == 0 {
        if b.len() > 0 {
            assert(b.to_set().contains(b[0]));
        }
    } else if b.len() == 0 {
        assert(a.to_set().contains(a[0]));
    } else {
        assert(a.to_set().contains(a[0]));
        assert(b.to_set().contains(b[0]));
        let i = choose|i: int| 0 <= i < b.len() && b[i] == a[0];
        let j = choose|j: int| 0 <= j < a.len() && a[j] == b[0];
        if i > 0 && j > 0 {
            assert(chars_lt(b[0], b[i]));
            assert(chars_lt(a[0], a[j]));
            crate::text::lemma_chars_lt_asymmetric(a[0], b[0]);
        }
        if i > 0 && j == 0 {
            assert(chars_lt(b[0], b[i]));
            lemma_chars_lt_irreflexive(a[0]);
        }
        if j > 0 && i == 0 {
            assert(chars_lt(a[0], a[j]));
            lemma_chars_lt_irreflexive(b[0]);
        }
        assert(a[0] == b[0]);
        let at = a.drop_first();
        let bt = b.drop_first();
        assert forall|x: Seq<char>| at.to_set().contains(x) <==> bt.to_set().contains(x) by {
            if at.contains(x) {
                let k = choose|k: int| 0 <= k < at.len() && at[k] == x;
                assert(a[k + 1] == x);
                assert(a.to_set().contains(x));
                let m = choose|m: int| 0 <= m < b.len() && b[m] == x;
                if m == 0 {
                    lemma_strictly_sorted_distinct(a, 0, k + 1);
                }
                assert(bt[m - 1] == x);
            }
            if bt.contains(x) {
                let k = choose|k: int| 0 <= k < bt.len() && bt[k] == x;
                assert(b[k + 1] == x);
                assert(b.to_set().contains(x));
                let m = choose|m: int| 0 <= m < a.len() && a[m] == x;
                if m == 0 {
                    lemma_strictly_sorted_distinct(b, 0, k + 1);
                }
                assert(at[m - 1] == x);
            }
        }
        assert(at.to_set() =~= bt.to_set());
        lemma_sorted_unique(at, bt);
        assert(a =~= seq![a[0]] + at);
        assert(b =~= seq![b[0]] + bt);
    }
}

} // verus!
