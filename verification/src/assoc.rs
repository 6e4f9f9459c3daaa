//! A map keyed by strings that keeps its keys in the order in which they
//! were first inserted, modelled as an association list without repeated keys.

use vstd::prelude::*;

verus! {

/// The keys of an association list, in order.
pub open spec fn keys_of<T>(s: Seq<(Seq<char>, T)>) -> Seq<Seq<char>> {
    s.map_values(|p: (Seq<char>, T)| p.0)
}

/// No key occurs twice in `s`.
pub open spec fn unique_keys<T>(s: Seq<(Seq<char>, T)>) -> bool {
    forall|i: int, j: int|
        #![trigger s[i], s[j]]
        0 <= i < s.len() && 0 <= j < s.len() && i != j ==> s[i].0 != s[j].0
}

/// `k` is a key of `s`.
pub open spec fn has_key<T>(s: Seq<(Seq<char>, T)>, k: Seq<char>) -> bool {
    exists|i: int| 0 <= i < s.len() && #[trigger] s[i].0 == k
}

/// The position of key `k` in `s` (meaningful when `has_key(s, k)`).
pub open spec fn key_index<T>(s: Seq<(Seq<char>, T)>, k: Seq<char>) -> int {
    choose|i: int| 0 <= i < s.len() && #[trigger] s[i].0 == k
}

/// The value that `s` gives to `k`.
pub open spec fn lookup<T>(s: Seq<(Seq<char>, T)>, k: Seq<char>) -> Option<T> {
    if has_key(s, k) {
        Some(s[key_index(s, k)].1)
    } else {
        None
    }
}

/// `s` with `k` bound to `v`: an existing binding of `k` is replaced in place,
/// a new key goes to the end.
pub open spec fn put<T>(s: Seq<(Seq<char>, T)>, k: Seq<char>, v: T) -> Seq<(Seq<char>, T)> {
    if has_key(s, k) {
        s.update(key_index(s, k), (k, v))
    } else {
        s.push((k, v))
    }
}

/// `s` without the binding of `k`; the other bindings keep their order.
pub open spec fn delete<T>(s: Seq<(Seq<char>, T)>, k: Seq<char>) -> Seq<(Seq<char>, T)> {
    if has_key(s, k) {
        s.remove(key_index(s, k))
    } else {
        s
    }
}

/// The map from keys to values that `s` describes.
pub open spec fn as_map<T>(s: Seq<(Seq<char>, T)>) -> Map<Seq<char>, T> {
    Map::new(|k: Seq<char>| has_key(s, k), |k: Seq<char>| s[key_index(s, k)].1)
}

/// In a list without repeated keys, the position of a key is the one index holding it.
pub proof fn lemma_key_index<T>(s: Seq<(Seq<char>, T)>, i: int)
    requires
        unique_keys(s),
        0 <= i < s.len(),
    ensures
        has_key(s, s[i].0),
        key_index(s, s[i].0) == i,
{
    assert(s[i].0 == s[i].0);
    let j = key_index(s, s[i].0);
    assert(0 <= j < s.len() && s[j].0 == s[i].0);
}

/// Binding a key and then looking it up gives the bound value; other keys keep
/// their values, and keys stay unique.
pub proof fn lemma_put<T>(s: Seq<(Seq<char>, T)>, k: Seq<char>, v: T)
    requires
        unique_keys(s),
    ensures
        unique_keys(put(s, k, v)),
        lookup(put(s, k, v), k) == Some(v),
        forall|k2: Seq<char>| k2 != k ==> lookup(put(s, k, v), k2) == lookup(s, k2),
        keys_of(put(s, k, v)) == (if has_key(s, k) {
            keys_of(s)
        } else {
            keys_of(s).push(k)
        }),
        as_map(put(s, k, v)) == as_map(s).insert(k, v),
{
    let t = put(s, k, v);
    let n = if has_key(s, k) {
        key_index(s, k)
    } else {
        s.len() as int
    };
    if has_key(s, k) {
        assert(0 <= n < s.len() && s[n].0 == k);
    }
    assert(t.len() == (if has_key(s, k) { s.len() } else { s.len() + 1 }));
    assert(t[n] == (k, v));
    assert forall|i: int| 0 <= i < t.len() && i != n implies #[trigger] t[i] == s[i] by {}
    assert forall|i: int, j: int|
        #![trigger t[i], t[j]]
        0 <= i < t.len() && 0 <= j < t.len() && i != j implies t[i].0 != t[j].0 by {
        if i != n && j != n {
            assert(t[i] == s[i] && t[j] == s[j]);
        } else if i == n {
            assert(t[j] == s[j]);
            if !has_key(s, k) {
                assert(s[j].0 != k);
            }
        } else {
            assert(t[i] == s[i]);
            if !has_key(s, k) {
                assert(s[i].0 != k);
            }
        }
    }
    lemma_key_index(t, n);
    assert forall|k2: Seq<char>| k2 != k implies lookup(t, k2) == lookup(s, k2) by {
        if has_key(s, k2) {
            let j = key_index(s, k2);
            assert(0 <= j < s.len() && s[j].0 == k2);
            assert(j != n);
            assert(t[j] == s[j]);
            lemma_key_index(t, j);
        }
        if has_key(t, k2) {
            let j = key_index(t, k2);
            assert(0 <= j < t.len() && t[j].0 == k2);
            assert(j != n);
            assert(t[j] == s[j]);
            lemma_key_index(s, j);
        }
    }
    assert(keys_of(t) =~= (if has_key(s, k) {
        keys_of(s)
    } else {
        keys_of(s).push(k)
    }));
    assert forall|k2: Seq<char>| #[trigger] as_map(t).contains_key(k2) == as_map(s).insert(k, v).contains_key(k2) by {
        if k2 != k {
            assert(lookup(t, k2) == lookup(s, k2));
        }
    }
    assert forall|k2: Seq<char>| as_map(t).contains_key(k2) implies #[trigger] as_map(t)[k2] == as_map(s).insert(k, v)[k2] by {
        if k2 != k {
            assert(lookup(t, k2) == lookup(s, k2));
        }
    }
    assert(as_map(t) =~= as_map(s).insert(k, v));
}

/// Removing a key and then looking it up gives nothing; other keys keep their
/// values, and keys stay unique.
pub proof fn lemma_delete<T>(s: Seq<(Seq<char>, T)>, k: Seq<char>)
    requires
        unique_keys(s),
    ensures
        unique_keys(delete(s, k)),
        lookup(delete(s, k), k) is None,
        forall|k2: Seq<char>| k2 != k ==> lookup(delete(s, k), k2) == lookup(s, k2),
        keys_of(delete(s, k)) == (if has_key(s, k) {
            keys_of(s).remove(key_index(s, k))
        } else {
            keys_of(s)
        }),
        as_map(delete(s, k)) == as_map(s).remove(k),
{
    let t = delete(s, k);
    if has_key(s, k) {
        let n = key_index(s, k);
        assert(0 <= n < s.len() && s[n].0 == k);
        assert forall|i: int| 0 <= i < t.len() implies #[trigger] t[i] == (if i < n {
            s[i]
        } else {
            s[i + 1]
        }) by {}
        assert forall|i: int, j: int|
            #![trigger t[i], t[j]]
            0 <= i < t.len() && 0 <= j < t.len() && i != j implies t[i].0 != t[j].0 by {
            let a = if i < n { i } else { i + 1 };
            let b = if j < n { j } else { j + 1 };
            assert(t[i] == s[a] && t[j] == s[b]);
        }
        assert forall|k2: Seq<char>| k2 != k implies lookup(t, k2) == lookup(s, k2) by {
            if has_key(s, k2) {
                let j = key_index(s, k2);
                assert(0 <= j < s.len() && s[j].0 == k2);
                assert(j != n);
                let jj = if j < n { j } else { j - 1 };
                assert(t[jj] == s[j]);
                lemma_key_index(t, jj);
            }
            if has_key(t, k2) {
                let j = key_index(t, k2);
                assert(0 <= j < t.len() && t[j].0 == k2);
                let jj = if j < n { j } else { j + 1 };
                assert(t[j] == s[jj]);
                lemma_key_index(s, jj);
            }
        }
        if has_key(t, k) {
            let j = key_index(t, k);
            assert(0 <= j < t.len() && t[j].0 == k);
            let jj = if j < n { j } else { j + 1 };
            assert(t[j] == s[jj]);
            assert(jj != n);
        }
        assert(keys_of(t) =~= keys_of(s).remove(n));
    } else {
        assert forall|k2: Seq<char>| k2 != k implies lookup(t, k2) == lookup(s, k2) by {}
    }
    assert forall|k2: Seq<char>| #[trigger] as_map(t).contains_key(k2) == as_map(s).remove(k).contains_key(k2) by {
        if k2 != k {
            assert(lookup(t, k2) == lookup(s, k2));
        }
    }
    assert forall|k2: Seq<char>| as_map(t).contains_key(k2) implies #[trigger] as_map(t)[k2] == as_map(s).remove(k)[k2] by {
        if k2 != k {
            assert(lookup(t, k2) == lookup(s, k2));
        }
    }
    assert(as_map(t) =~= as_map(s).remove(k));
}

/// The view of a list of bindings held as strings and values.
pub open spec fn view_items<V: View>(items: Seq<(String, V)>) -> Seq<(Seq<char>, V::V)> {
    items.map_values(|p: (String, V)| (p.0@, p.1@))
}

/// A map keyed by strings whose keys keep their order of first insertion.
#[verifier::reject_recursive_types(V)]
pub struct StrMap<V: View> {
    items: Vec<(String, V)>,
}

impl<V: View> View for StrMap<V> {
    type V = Seq<(Seq<char>, V::V)>;

    closed spec fn view(&self) -> Self::V {
        view_items(self.items@)
    }
}

impl<V: View> StrMap<V> {
    /// No key occurs twice.
    #[verifier::type_invariant]
    spec fn keys_are_unique(&self) -> bool {
        unique_keys(self@)
    }

    /// The bindings as a map.
    pub open spec fn map(&self) -> Map<Seq<char>, V::V> {
        as_map(self@)
    }

    /// The keys, in order.
    pub open spec fn key_seq(&self) -> Seq<Seq<char>> {
        keys_of(self@)
    }

    /// No key occurs twice.
    pub fn keys_unique(&self)
        ensures
            unique_keys(self@),
    {
        proof {
            use_type_invariant(self);
        }
    }

    /// An empty map.
    pub fn new() -> (r: Self)
        ensures
            r@ == Seq::<(Seq<char>, V::V)>::empty(),
    {
        let items: Vec<(String, V)> = Vec::new();
        assert(view_items(items@) =~= Seq::<(Seq<char>, V::V)>::empty());
        StrMap { items }
    }

    /// The number of bindings.
    pub fn len(&self) -> (r: usize)
        ensures
            r == self@.len(),
    {
        self.items.len()
    }

    /// Whether there is no binding.
    pub fn is_empty(&self) -> (r: bool)
        ensures
            r == (self@.len() == 0),
    {
        self.items.len() == 0
    }

    /// The position of key `k`, if it is bound.
    pub fn find(&self, k: &str) -> (r: Option<usize>)
        ensures
            match r {
                Some(i) => i < self@.len() && self@[i as int].0 == k@ && key_index(self@, k@) == i,
                None => !has_key(self@, k@),
            },
    {
        proof {
            use_type_invariant(self);
        }
        let key = k.to_owned();
        let mut i: usize = 0;
        while i < self.items.len()
            invariant
                i <= self.items@.len(),
                key@ == k@,
                unique_keys(self@),
                self@.len() == self.items@.len(),
                self@ == view_items(self.items@),
                forall|j: int| 0 <= j < i ==> #[trigger] self@[j].0 != k@,
            decreases self.items@.len() - i,
        {
            if self.items[i].0 == key {
                proof {
                    lemma_key_index(self@, i as int);
                }
                return Some(i);
            }
            i += 1;
        }
        None
    }

    /// The value bound to `k`.
    pub fn get(&self, k: &str) -> (r: Option<&V>)
        ensures
            match r {
                Some(v) => lookup(self@, k@) == Some(v@),
                None => lookup(self@, k@) is None,
            },
            match r {
                Some(v) => self.map().contains_key(k@) && self.map()[k@] == v@,
                None => !self.map().contains_key(k@),
            },
    {
        match self.find(k) {
            Some(i) => Some(&self.items[i].1),
            None => None,
        }
    }

    /// Whether `k` is bound.
    pub fn contains_key(&self, k: &str) -> (r: bool)
        ensures
            r == has_key(self@, k@),
            r == self.map().contains_key(k@),
    {
        self.find(k).is_some()
    }

    /// Binds `k` to `v`, replacing an earlier binding of `k` in place.
    pub fn insert(&mut self, k: String, v: V)
        ensures
            final(self)@ == put(old(self)@, k@, v@),
            final(self).map() == old(self).map().insert(k@, v@),
            final(self).key_seq() == (if has_key(old(self)@, k@) {
                old(self).key_seq()
            } else {
                old(self).key_seq().push(k@)
            }),
    {
        proof {
            use_type_invariant(&*self);
            lemma_put(self@, k@, v@);
        }
        let found = self.find(k.as_str());
        let mut items: Vec<(String, V)> = Vec::new();
        std::mem::swap(&mut items, &mut self.items);
        match found {
            Some(i) => {
                items.set(i, (k, v));
            },
            None => {
                items.push((k, v));
            },
        }
        assert(view_items(items@) =~= put(old(self)@, k@, v@));
        self.items = items;
    }

    /// Removes the binding of `k` and returns its value.
    pub fn remove(&mut self, k: &str) -> (r: Option<V>)
        ensures
            final(self)@ == delete(old(self)@, k@),
            final(self).map() == old(self).map().remove(k@),
            final(self).key_seq() == (if has_key(old(self)@, k@) {
                old(self).key_seq().remove(key_index(old(self)@, k@))
            } else {
                old(self).key_seq()
            }),
            match r {
                Some(v) => lookup(old(self)@, k@) == Some(v@),
                None => lookup(old(self)@, k@) is None,
            },
    {
        proof {
            use_type_invariant(&*self);
            lemma_delete(self@, k@);
        }
        match self.find(k) {
            Some(i) => {
                let mut items: Vec<(String, V)> = Vec::new();
                std::mem::swap(&mut items, &mut self.items);
                let (_, v) = items.remove(i);
                assert(view_items(items@) =~= delete(old(self)@, k@));
                self.items = items;
                Some(v)
            },
            None => None,
        }
    }

    /// The key at position `i`.
    pub fn key_at(&self, i: usize) -> (r: &String)
        requires
            i < self@.len(),
        ensures
            r@ == self@[i as int].0,
    {
        &self.items[i].0
    }

    /// The value at position `i`.
    pub fn value_at(&self, i: usize) -> (r: &V)
        requires
            i < self@.len(),
        ensures
            r@ == self@[i as int].1,
    {
        &self.items[i].1
    }

    /// Replaces the value at position `i`, keeping its key, and returns the old value.
    pub fn replace_value_at(&mut self, i: usize, v: V) -> (r: V)
        requires
            i < old(self)@.len(),
        ensures
            r@ == old(self)@[i as int].1,
            final(self)@ == old(self)@.update(i as int, (old(self)@[i as int].0, v@)),
    {
        proof {
            use_type_invariant(&*self);
        }
        let mut items: Vec<(String, V)> = Vec::new();
        std::mem::swap(&mut items, &mut self.items);
        let (k, old_v) = items.remove(i);
        items.insert(i, (k, v));
        let ghost t = view_items(items@);
        assert(t =~= old(self)@.update(i as int, (old(self)@[i as int].0, v@)));
        assert(forall|a: int| 0 <= a < t.len() ==> #[trigger] t[a].0 == old(self)@[a].0);
        self.items = items;
        old_v
    }

    /// The keys, in order.
    pub fn keys(&self) -> (r: Vec<String>)
        ensures
            r@.map_values(|s: String| s@) == keys_of(self@),
    {
        let mut out: Vec<String> = Vec::new();
        let mut i: usize = 0;
        while i < self.items.len()
            invariant
                i <= self.items@.len(),
                self@.len() == self.items@.len(),
                self@ == view_items(self.items@),
                out@.map_values(|s: String| s@) == keys_of(self@).take(i as int),
            decreases self.items@.len() - i,
        {
            out.push(self.items[i].0.clone());
            assert(keys_of(self@).take(i + 1) =~= keys_of(self@).take(i as int).push(self@[i as int].0));
            assert(out@.map_values(|s: String| s@) =~= keys_of(self@).take(i as int).push(self@[i as int].0));
            i += 1;
        }
        assert(keys_of(self@).take(i as int) =~= keys_of(self@));
        out
    }
}

} // verus!
