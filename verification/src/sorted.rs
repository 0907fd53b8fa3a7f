//! String order and a map kept sorted by string keys, iterated in key order
//! the way a `BTreeMap<String, _>` is.

use vstd::prelude::*;

use crate::paths::string_views;
use crate::text::chars_of;

verus! {

/// `a` comes before `b` in the order of `String`: character by character,
/// a proper prefix first.
pub open spec fn seq_less(a: Seq<char>, b: Seq<char>) -> bool
    decreases a.len(),
{
    if a.len() == 0 {
        b.len() > 0
    } else if b.len() == 0 {
        false
    } else if a[0] != b[0] {
        (a[0] as int) < (b[0] as int)
    } else {
        seq_less(a.drop_first(), b.drop_first())
    }
}

/// Keys in strictly increasing order.
pub open spec fn strictly_sorted(ks: Seq<Seq<char>>) -> bool {
    forall|i: int, j: int| 0 <= i < j < ks.len() ==> seq_less(#[trigger] ks[i], #[trigger] ks[j])
}

/// Nothing comes before itself.
pub proof fn lemma_less_irreflexive(a: Seq<char>)
    ensures
        !seq_less(a, a),
    decreases a.len(),
{
    if a.len() > 0 {
        lemma_less_irreflexive(a.drop_first());
    }
}

/// The order is transitive.
pub proof fn lemma_less_transitive(a: Seq<char>, b: Seq<char>, c: Seq<char>)
    requires
        seq_less(a, b),
        seq_less(b, c),
    ensures
        seq_less(a, c),
    decreases a.len(),
{
    if a.len() > 0 && b.len() > 0 && c.len() > 0 {
        if a[0] == b[0] && b[0] == c[0] {
            lemma_less_transitive(a.drop_first(), b.drop_first(), c.drop_first());
        }
    }
}

/// Two different strings are ordered one way or the other.
pub proof fn lemma_less_total(a: Seq<char>, b: Seq<char>)
    requires
        a != b,
    ensures
        seq_less(a, b) || seq_less(b, a),
    decreases a.len(),
{
    if a.len() > 0 && b.len() > 0 && a[0] == b[0] {
        if a.drop_first() == b.drop_first() {
            assert(a =~= seq![a[0]] + a.drop_first());
            assert(b =~= seq![b[0]] + b.drop_first());
        }
        lemma_less_total(a.drop_first(), b.drop_first());
    } else if a.len() == 0 && b.len() == 0 {
        assert(a =~= b);
    }
}

/// The order is asymmetric.
pub proof fn lemma_less_asymmetric(a: Seq<char>, b: Seq<char>)
    requires
        seq_less(a, b),
    ensures
        !seq_less(b, a),
{
    if seq_less(b, a) {
        lemma_less_transitive(a, b, a);
        lemma_less_irreflexive(a);
    }
}

proof fn lemma_less_skip(a: Seq<char>, b: Seq<char>, i: int)
    requires
        0 <= i <= a.len(),
        i <= b.len(),
        a.take(i) == b.take(i),
    ensures
        seq_less(a, b) == seq_less(a.skip(i), b.skip(i)),
    decreases i,
{
    if i > 0 {
        assert(a[0] == a.take(i)[0]);
        assert(b[0] == b.take(i)[0]);
        assert(a.drop_first().take(i - 1) =~= a.take(i).drop_first());
        assert(b.drop_first().take(i - 1) =~= b.take(i).drop_first());
        lemma_less_skip(a.drop_first(), b.drop_first(), i - 1);
        assert(a.drop_first().skip(i - 1) =~= a.skip(i));
        assert(b.drop_first().skip(i - 1) =~= b.skip(i));
    } else {
        assert(a.skip(0) =~= a);
        assert(b.skip(0) =~= b);
    }
}

/// The three outcomes of comparing two strings.
#[derive(Clone, Copy, Debug, PartialEq, Eq)]
pub enum Order3 {
    Less,
    Equal,
    Greater,
}

/// Compares two character sequences in the order of `String`.
pub fn compare_chars(a: &Vec<char>, b: &Vec<char>) -> (res: Order3)
    ensures
        (res == Order3::Less) == seq_less(a@, b@),
        (res == Order3::Equal) == (a@ == b@),
        (res == Order3::Greater) == seq_less(b@, a@),
{
    let mut i: usize = 0;
    while i < a.len() && i < b.len() && a[i] == b[i]
        invariant
            i <= a@.len(),
            i <= b@.len(),
            a@.take(i as int) == b@.take(i as int),
        decreases a@.len() - i,
    {
        assert(a@.take(i + 1) =~= a@.take(i as int).push(a@[i as int]));
        assert(b@.take(i + 1) =~= b@.take(i as int).push(b@[i as int]));
        i += 1;
    }
    proof {
        lemma_less_skip(a@, b@, i as int);
        lemma_less_skip(b@, a@, i as int);
    }
    if i == a.len() && i == b.len() {
        assert(a@ =~= a@.take(i as int));
        assert(b@ =~= b@.take(i as int));
        proof {
            lemma_less_irreflexive(a@);
        }
        Order3::Equal
    } else if i == a.len() {
        assert(a@.skip(i as int).len() == 0);
        proof {
            if a@ == b@ {
                assert(false);
            }
        }
        Order3::Less
    } else if i == b.len() {
        assert(b@.skip(i as int).len() == 0);
        assert(a@.skip(i as int)[0] == a@[i as int]);
        proof {
            if a@ == b@ {
                assert(false);
            }
        }
        Order3::Greater
    } else {
        assert(a@.skip(i as int)[0] == a@[i as int]);
        assert(b@.skip(i as int)[0] == b@[i as int]);
        proof {
            if a@ == b@ {
                assert(a@[i as int] == b@[i as int]);
            }
        }
        if a[i] < b[i] {
            Order3::Less
        } else {
            Order3::Greater
        }
    }
}

/// The index of key `k` in `ks`, when it occurs.
pub open spec fn key_index(ks: Seq<Seq<char>>, k: Seq<char>) -> int {
    choose|i: int| 0 <= i < ks.len() && ks[i] == k
}

/// The map that parallel key and value sequences describe.
pub open spec fn pairs_map<V>(ks: Seq<Seq<char>>, vs: Seq<V>) -> Map<Seq<char>, V> {
    Map::new(|k: Seq<char>| ks.contains(k), |k: Seq<char>| vs[key_index(ks, k)])
}

/// A map from strings to values whose entries stay sorted by key, iterated
/// in key order as a `BTreeMap<String, _>` is. vstd's contracts for
/// `BTreeMap` hold only for key types that obey its order specification,
/// and it gives `String` none, so the map is kept here on two `Vec`s with
/// sortedness as its invariant.
pub struct SortedMap<V> {
    keys: Vec<String>,
    vals: Vec<V>,
}

impl<V> SortedMap<V> {
    #[verifier::type_invariant]
    spec fn well_formed(self) -> bool {
        &&& self.keys@.len() == self.vals@.len()
        &&& strictly_sorted(string_views(self.keys@))
    }

    /// The keys, in increasing order.
    pub closed spec fn keys(&self) -> Seq<Seq<char>> {
        string_views(self.keys@)
    }

    /// The values, in the order of their keys.
    pub closed spec fn vals(&self) -> Seq<V> {
        self.vals@
    }

    /// The map the entries describe.
    pub open spec fn as_map(&self) -> Map<Seq<char>, V> {
        pairs_map(self.keys(), self.vals())
    }

    /// An empty map.
    pub fn new() -> (res: Self)
        ensures
            res.keys().len() == 0,
            res.vals().len() == 0,
    {
        SortedMap { keys: Vec::new(), vals: Vec::new() }
    }

    /// The number of entries; the keys are sorted and match the values one for one.
    pub fn len(&self) -> (res: usize)
        ensures
            res == self.keys().len(),
            res == self.vals().len(),
            strictly_sorted(self.keys()),
    {
        proof {
            use_type_invariant(self);
        }
        self.keys.len()
    }

    /// The key of entry `i`.
    pub fn key_at(&self, i: usize) -> (res: &String)
        requires
            i < self.keys().len(),
        ensures
            res@ == self.keys()[i as int],
    {
        &self.keys[i]
    }

    /// The value of entry `i`.
    pub fn val_at(&self, i: usize) -> (res: &V)
        requires
            i < self.vals().len(),
        ensures
            *res == self.vals()[i as int],
    {
        &self.vals[i]
    }

    /// Where `key` is, or where it would go: the number of keys before it.
    pub fn find(&self, key: &str) -> (res: Result<usize, usize>)
        ensures
            match res {
                Ok(i) => i < self.keys().len() && self.keys()[i as int] == key@,
                Err(j) => j <= self.keys().len() && !self.keys().contains(key@) && (forall|
                    k: int,
                | 0 <= k < j ==> seq_less(#[trigger] self.keys()[k], key@)) && (forall|k: int|
                    j <= k < self.keys().len() ==> seq_less(key@, #[trigger] self.keys()[k])),
            },
    {
        proof {
            use_type_invariant(self);
        }
        let kc = chars_of(key);
        let mut i: usize = 0;
        while i < self.keys.len()
            invariant
                i <= self.keys@.len(),
                kc@ == key@,
                strictly_sorted(string_views(self.keys@)),
                forall|k: int| 0 <= k < i ==> seq_less(#[trigger] string_views(self.keys@)[k], key@),
            decreases self.keys@.len() - i,
        {
            let cur = chars_of(self.keys[i].as_str());
            assert(string_views(self.keys@)[i as int] == self.keys@[i as int]@);
            match compare_chars(&cur, &kc) {
                Order3::Less => {},
                Order3::Equal => {
                    return Ok(i);
                },
                Order3::Greater => {
                    proof {
                        let ks = string_views(self.keys@);
                        assert forall|k: int| i <= k < ks.len() implies seq_less(
                            key@,
                            #[trigger] ks[k],
                        ) by {
                            if k > i {
                                lemma_less_transitive(key@, ks[i as int], ks[k]);
                            }
                        }
                        assert(!ks.contains(key@)) by {
                            if ks.contains(key@) {
                                let k = choose|k: int| 0 <= k < ks.len() && ks[k] == key@;
                                lemma_less_irreflexive(key@);
                                if k >= i {
                                    assert(seq_less(key@, ks[k]));
                                } else {
                                    assert(seq_less(ks[k], key@));
                                }
                            }
                        }
                    }
                    return Err(i);
                },
            }
            i += 1;
        }
        proof {
            let ks = string_views(self.keys@);
            assert(!ks.contains(key@)) by {
                if ks.contains(key@) {
                    let k = choose|k: int| 0 <= k < ks.len() && ks[k] == key@;
                    lemma_less_irreflexive(key@);
                    assert(seq_less(ks[k], key@));
                }
            }
        }
        Err(i)
    }

    /// The value stored under `key`.
    pub fn get(&self, key: &str) -> (res: Option<&V>)
        ensures
            match res {
                Some(v) => self.as_map().contains_key(key@) && *v == self.as_map()[key@],
                None => !self.as_map().contains_key(key@),
            },
    {
        proof {
            use_type_invariant(self);
        }
        match self.find(key) {
            Ok(i) => {
                proof {
                    lemma_key_index(self.keys(), i as int);
                }
                Some(&self.vals[i])
            },
            Err(_) => None,
        }
    }

    /// Stores `val` under `key`, replacing what was stored there.
    pub fn insert(&mut self, key: String, val: V)
        ensures
            final(self).as_map() == old(self).as_map().insert(key@, val),
            match old(self).find_spec(key@) {
                Ok(i) => final(self).keys() == old(self).keys()
                    && final(self).vals() == old(self).vals().update(i, val),
                Err(j) => final(self).keys() == old(self).keys().insert(j, key@)
                    && final(self).vals() == old(self).vals().insert(j, val),
            },
    {
        proof {
            use_type_invariant(&*self);
        }
        let ghost old_keys = self.keys();
        let ghost old_vals = self.vals();
        let found = self.find(key.as_str());
        let mut taken = SortedMap::new();
        std::mem::swap(&mut taken, self);
        let SortedMap { mut keys, mut vals } = taken;
        match found {
            Ok(i) => {
                vals.set(i, val);
                proof {
                    lemma_find_spec_ok(old_keys, key@, i as int);
                    lemma_map_update(old_keys, old_vals, i as int, val);
                }
            },
            Err(j) => {
                let ghost kv = key@;
                keys.insert(j, key);
                vals.insert(j, val);
                proof {
                    assert(string_views(keys@) =~= old_keys.insert(j as int, kv));
                    lemma_find_spec_err(old_keys, kv, j as int);
                    lemma_insert_sorted(old_keys, kv, j as int);
                    lemma_map_insert(old_keys, old_vals, kv, j as int, val);
                }
            },
        }
        *self = SortedMap { keys, vals };
    }

    /// Where `key` is or would go, as `find` reports it.
    pub open spec fn find_spec(&self, key: Seq<char>) -> Result<int, int> {
        find_in(self.keys(), key)
    }
}

/// Where `key` is in sorted keys, or how many keys come before it.
pub open spec fn find_in(ks: Seq<Seq<char>>, key: Seq<char>) -> Result<int, int> {
    if ks.contains(key) {
        Ok(key_index(ks, key))
    } else {
        Err(ks.filter(|k: Seq<char>| seq_less(k, key)).len() as int)
    }
}

pub proof fn lemma_key_index(ks: Seq<Seq<char>>, i: int)
    requires
        strictly_sorted(ks),
        0 <= i < ks.len(),
    ensures
        ks.contains(ks[i]),
        key_index(ks, ks[i]) == i,
{
    assert(ks.contains(ks[i]));
    let j = key_index(ks, ks[i]);
    if j != i {
        lemma_less_irreflexive(ks[i]);
        if j < i {
            assert(seq_less(ks[j], ks[i]));
        } else {
            assert(seq_less(ks[i], ks[j]));
        }
    }
}

proof fn lemma_find_spec_ok(ks: Seq<Seq<char>>, key: Seq<char>, i: int)
    requires
        strictly_sorted(ks),
        0 <= i < ks.len(),
        ks[i] == key,
    ensures
        find_in(ks, key) == Ok::<int, int>(i),
{
    lemma_key_index(ks, i);
}

proof fn lemma_count_less(ks: Seq<Seq<char>>, key: Seq<char>, j: int)
    requires
        0 <= j <= ks.len(),
        forall|k: int| 0 <= k < j ==> seq_less(#[trigger] ks[k], key),
        forall|k: int| j <= k < ks.len() ==> !seq_less(#[trigger] ks[k], key),
    ensures
        ks.filter(|k: Seq<char>| seq_less(k, key)).len() == j,
    decreases ks.len(),
{
    reveal(Seq::filter);
    if ks.len() > 0 {
        if j == ks.len() {
            lemma_count_less(ks.drop_last(), key, j - 1);
        } else {
            lemma_count_less(ks.drop_last(), key, j);
        }
    }
}

proof fn lemma_find_spec_err(ks: Seq<Seq<char>>, key: Seq<char>, j: int)
    requires
        strictly_sorted(ks),
        0 <= j <= ks.len(),
        !ks.contains(key),
        forall|k: int| 0 <= k < j ==> seq_less(#[trigger] ks[k], key),
        forall|k: int| j <= k < ks.len() ==> seq_less(key, #[trigger] ks[k]),
    ensures
        find_in(ks, key) == Err::<int, int>(j),
{
    assert forall|k: int| j <= k < ks.len() implies !seq_less(#[trigger] ks[k], key) by {
        lemma_less_asymmetric(key, ks[k]);
    }
    lemma_count_less(ks, key, j);
}

proof fn lemma_insert_sorted(ks: Seq<Seq<char>>, key: Seq<char>, j: int)
    requires
        strictly_sorted(ks),
        0 <= j <= ks.len(),
        forall|k: int| 0 <= k < j ==> seq_less(#[trigger] ks[k], key),
        forall|k: int| j <= k < ks.len() ==> seq_less(key, #[trigger] ks[k]),
    ensures
        strictly_sorted(ks.insert(j, key)),
{
    let n = ks.insert(j, key);
    assert forall|a: int, b: int| 0 <= a < b < n.len() implies seq_less(
        #[trigger] n[a],
        #[trigger] n[b],
    ) by {
        if b < j {
        } else if b == j {
        } else if a < j {
            assert(n[b] == ks[b - 1]);
            lemma_less_transitive(ks[a], key, ks[b - 1]);
        } else if a == j {
            assert(n[b] == ks[b - 1]);
        } else {
            assert(n[a] == ks[a - 1]);
            assert(n[b] == ks[b - 1]);
        }
    }
}

proof fn lemma_map_update<V>(ks: Seq<Seq<char>>, vs: Seq<V>, i: int, v: V)
    requires
        strictly_sorted(ks),
        ks.len() == vs.len(),
        0 <= i < ks.len(),
    ensures
        pairs_map(ks, vs.update(i, v)) == pairs_map(ks, vs).insert(ks[i], v),
{
    lemma_key_index(ks, i);
    let m1 = pairs_map(ks, vs.update(i, v));
    let m2 = pairs_map(ks, vs).insert(ks[i], v);
    assert forall|k: Seq<char>| #[trigger] m1.contains_key(k) implies m1[k] == m2[k] by {
        let t = key_index(ks, k);
        lemma_key_index(ks, t);
    }
    assert(m1 =~= m2);
}

proof fn lemma_map_insert<V>(ks: Seq<Seq<char>>, vs: Seq<V>, key: Seq<char>, j: int, v: V)
    requires
        strictly_sorted(ks),
        ks.len() == vs.len(),
        0 <= j <= ks.len(),
        !ks.contains(key),
        strictly_sorted(ks.insert(j, key)),
    ensures
        pairs_map(ks.insert(j, key), vs.insert(j, v)) == pairs_map(ks, vs).insert(key, v),
{
    let nk = ks.insert(j, key);
    let nv = vs.insert(j, v);
    let m1 = pairs_map(nk, nv);
    let m2 = pairs_map(ks, vs).insert(key, v);
    assert forall|k: Seq<char>| m1.contains_key(k) <==> m2.contains_key(k) by {
        if nk.contains(k) && k != key {
            let t = choose|t: int| 0 <= t < nk.len() && nk[t] == k;
            if t < j {
                assert(ks[t] == k);
            } else {
                assert(ks[t - 1] == k);
            }
        }
        if ks.contains(k) {
            let t = choose|t: int| 0 <= t < ks.len() && ks[t] == k;
            if t < j {
                assert(nk[t] == k);
            } else {
                assert(nk[t + 1] == k);
            }
        }
        assert(nk[j] == key);
    }
    assert forall|k: Seq<char>| #[trigger] m1.contains_key(k) implies m1[k] == m2[k] by {
        let t = key_index(nk, k);
        lemma_key_index(nk, t);
        if k == key {
            lemma_key_index(nk, j);
        } else {
            let s = key_index(ks, k);
            lemma_key_index(ks, s);
            if s < j {
                assert(nk[s] == k);
                lemma_key_index(nk, s);
            } else {
                assert(nk[s + 1] == k);
                lemma_key_index(nk, s + 1);
            }
        }
    }
    assert(m1 =~= m2);
}

} // verus!
