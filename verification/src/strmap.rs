//! A map keyed by text that keeps its entries in the order of their first insertion.
use vstd::prelude::*;

verus! {

/// The position of the entry with key `k`, or the number of entries.
pub open spec fn key_index<V>(s: Seq<(String, V)>, k: Seq<char>) -> int
    decreases s.len(),
{
    if s.len() == 0 {
        0
    } else if key_index(s.drop_last(), k) < s.len() - 1 {
        key_index(s.drop_last(), k)
    } else if s.last().0@ == k {
        s.len() - 1
    } else {
        s.len() as int
    }
}

/// No key occurs twice.
pub open spec fn distinct_keys<V>(s: Seq<(String, V)>) -> bool {
    forall|i: int, j: int| 0 <= i < j < s.len() ==> #[trigger] s[i].0@ != #[trigger] s[j].0@
}

/// The map that a list of entries stands for.
pub open spec fn map_of<V>(s: Seq<(String, V)>) -> Map<Seq<char>, V>
    decreases s.len(),
{
    if s.len() == 0 {
        Map::empty()
    } else {
        map_of(s.drop_last()).insert(s.last().0@, s.last().1)
    }
}

/// The value under `k`.
pub open spec fn lookup<V>(s: Seq<(String, V)>, k: Seq<char>) -> Option<V> {
    if map_of(s).contains_key(k) {
        Some(map_of(s)[k])
    } else {
        None
    }
}

/// The entries with `v` under `k`: in place where the key is there, at the end otherwise.
pub open spec fn put<V>(s: Seq<(String, V)>, k: String, v: V) -> Seq<(String, V)> {
    let at = key_index(s, k@);
    if at < s.len() {
        s.update(at, (s[at].0, v))
    } else {
        s.push((k, v))
    }
}

/// The entries without the key `k`.
pub open spec fn without<V>(s: Seq<(String, V)>, k: Seq<char>) -> Seq<(String, V)> {
    let at = key_index(s, k);
    if at < s.len() {
        s.remove(at)
    } else {
        s
    }
}

pub proof fn lemma_key_index<V>(s: Seq<(String, V)>, k: Seq<char>)
    ensures
        0 <= key_index(s, k) <= s.len(),
        key_index(s, k) < s.len() ==> s[key_index(s, k)].0@ == k,
        forall|i: int| 0 <= i < key_index(s, k) ==> #[trigger] s[i].0@ != k,
    decreases s.len(),
{
    if s.len() > 0 {
        lemma_key_index(s.drop_last(), k);
        assert forall|i: int| 0 <= i < key_index(s, k) implies #[trigger] s[i].0@ != k by {
            if i < s.len() - 1 {
                assert(s.drop_last()[i] == s[i]);
            }
        }
    }
}

pub proof fn lemma_map_of<V>(s: Seq<(String, V)>, k: Seq<char>)
    requires
        distinct_keys(s),
    ensures
        map_of(s).contains_key(k) <==> key_index(s, k) < s.len(),
        map_of(s).contains_key(k) ==> map_of(s)[k] == s[key_index(s, k)].1,
        map_of(s).dom().finite(),
    decreases s.len(),
{
    if s.len() > 0 {
        assert(distinct_keys(s.drop_last()));
        lemma_map_of(s.drop_last(), k);
        lemma_key_index(s.drop_last(), k);
        if s.last().0@ == k && key_index(s.drop_last(), k) < s.len() - 1 {
            let i = key_index(s.drop_last(), k);
            assert(s.drop_last()[i] == s[i]);
            assert(s[i].0@ != s[s.len() - 1].0@);
        }
    }
}

pub proof fn lemma_put<V>(s: Seq<(String, V)>, k: String, v: V)
    requires
        distinct_keys(s),
    ensures
        distinct_keys(put(s, k, v)),
        map_of(put(s, k, v)) == map_of(s).insert(k@, v),
{
    let t = put(s, k, v);
    lemma_key_index(s, k@);
    assert(distinct_keys(t)) by {
        assert forall|i: int, j: int| 0 <= i < j < t.len() implies #[trigger] t[i].0@
            != #[trigger] t[j].0@ by {
            if j < s.len() {
                assert(s[i].0@ != s[j].0@);
            } else {
                assert(s[i].0@ != k@);
            }
        }
    }
    assert(map_of(t) =~= map_of(s).insert(k@, v)) by {
        assert forall|q: Seq<char>|
            #![trigger map_of(t).contains_key(q)]
            #![trigger map_of(s).contains_key(q)]
            (map_of(t).contains_key(q) <==> map_of(s).insert(k@, v).contains_key(q)) && (map_of(
                t,
            ).contains_key(q) ==> map_of(t)[q] == map_of(s).insert(k@, v)[q]) by {
            lemma_map_of(s, q);
            lemma_map_of(t, q);
            lemma_key_index(s, q);
            lemma_key_index(t, q);
            let a = key_index(s, q);
            let b = key_index(t, q);
            if a < s.len() {
                assert(t[a].0@ == q);
                assert(b == a);
            }
            if b < t.len() && b < s.len() {
                assert(s[b].0@ == q);
            }
            let at = key_index(s, k@);
            if q == k@ {
                if at < s.len() {
                    assert(t[at].0@ == q);
                } else {
                    assert(t[s.len() as int].0@ == q);
                }
            }
        }
    }
}

pub proof fn lemma_without<V>(s: Seq<(String, V)>, k: Seq<char>)
    requires
        distinct_keys(s),
    ensures
        distinct_keys(without(s, k)),
        map_of(without(s, k)) == map_of(s).remove(k),
{
    let t = without(s, k);
    let at = key_index(s, k);
    lemma_key_index(s, k);
    assert forall|i: int| 0 <= i < t.len() implies #[trigger] t[i] == s[if at < s.len() && i >= at {
        i + 1
    } else {
        i
    }] by {}
    assert(distinct_keys(t)) by {
        assert forall|i: int, j: int| 0 <= i < j < t.len() implies #[trigger] t[i].0@
            != #[trigger] t[j].0@ by {
            let i1 = if at < s.len() && i >= at {
                i + 1
            } else {
                i
            };
            let j1 = if at < s.len() && j >= at {
                j + 1
            } else {
                j
            };
            assert(s[i1].0@ != s[j1].0@);
        }
    }
    assert(map_of(t) =~= map_of(s).remove(k)) by {
        assert forall|q: Seq<char>|
            #![trigger map_of(t).contains_key(q)]
            #![trigger map_of(s).contains_key(q)]
            (map_of(t).contains_key(q) <==> map_of(s).remove(k).contains_key(q)) && (map_of(
                t,
            ).contains_key(q) ==> map_of(t)[q] == map_of(s).remove(k)[q]) by {
            lemma_map_of(s, q);
            lemma_map_of(t, q);
            lemma_key_index(s, q);
            lemma_key_index(t, q);
            let a = key_index(s, q);
            let b = key_index(t, q);
            if b < t.len() {
                let b1 = if at < s.len() && b >= at {
                    b + 1
                } else {
                    b
                };
                assert(s[b1].0@ == q);
                if a != b1 {
                    if a < b1 {
                        assert(s[a].0@ != s[b1].0@);
                    } else {
                        assert(s[b1].0@ != q);
                    }
                }
                assert(a == b1);
                if q == k {
                    assert(at == a);
                }
            }
            if a < s.len() && q != k {
                let a1 = if at < s.len() && a > at {
                    a - 1
                } else {
                    a
                };
                assert(t[a1].0@ == q);
            }
        }
    }
}

/// The key of an entry is not among those before it.
pub proof fn lemma_new_key<V>(s: Seq<(String, V)>, i: int)
    requires
        distinct_keys(s),
        0 <= i < s.len(),
    ensures
        key_index(s.subrange(0, i), s[i].0@) == i,
{
    let head = s.subrange(0, i);
    lemma_key_index(head, s[i].0@);
    let a = key_index(head, s[i].0@);
    if a < i {
        assert(head[a] == s[a]);
        assert(s[a].0@ != s[i].0@);
    }
}

/// The entries with the given keys and values.
pub open spec fn paired<V>(keys: Seq<String>, values: Seq<V>) -> Seq<(String, V)> {
    Seq::new(keys.len(), |i: int| (keys[i], values[i]))
}

/// A map from text to `V`.
#[derive(Debug)]
pub struct StrMap<V> {
    keys: Vec<String>,
    values: Vec<V>,
}

impl<V> StrMap<V> {
    #[verifier::type_invariant]
    spec fn well_formed(self) -> bool {
        &&& self.keys@.len() == self.values@.len()
        &&& forall|i: int, j: int|
            0 <= i < j < self.keys@.len() ==> #[trigger] self.keys@[i]@ != #[trigger] self.keys@[j]@
    }

    /// The entries in order.
    pub closed spec fn list(&self) -> Seq<(String, V)> {
        paired(self.keys@, self.values@)
    }

    /// The map.
    pub open spec fn view(&self) -> Map<Seq<char>, V> {
        map_of(self.list())
    }

    /// The empty map.
    pub fn new() -> (r: Self)
        ensures
            r.list() == Seq::<(String, V)>::empty(),
            r@ == Map::<Seq<char>, V>::empty(),
    {
        let r = StrMap { keys: Vec::new(), values: Vec::new() };
        assert(r.list() =~= Seq::<(String, V)>::empty());
        r
    }

    /// The number of entries.
    pub fn len(&self) -> (r: usize)
        ensures
            r == self.list().len(),
            distinct_keys(self.list()),
    {
        proof {
            use_type_invariant(self);
        }
        self.keys.len()
    }

    fn find(&self, k: &str) -> (r: usize)
        ensures
            r == key_index(self.list(), k@),
    {
        let mut i: usize = 0;
        while i < self.keys.len()
            invariant
                i <= self.keys@.len(),
                forall|j: int| 0 <= j < i ==> #[trigger] self.keys@[j]@ != k@,
            decreases self.keys@.len() - i,
        {
            if crate::text::same_text(self.keys[i].as_str(), k) {
                proof {
                    lemma_key_index(self.list(), k@);
                    assert(self.list()[i as int].0@ == k@);
                }
                return i;
            }
            i = i + 1;
        }
        proof {
            lemma_key_index(self.list(), k@);
        }
        i
    }

    /// Whether the key is there.
    pub fn contains(&self, k: &str) -> (r: bool)
        ensures
            r == self@.contains_key(k@),
    {
        proof {
            use_type_invariant(self);
            lemma_map_of(self.list(), k@);
            lemma_key_index(self.list(), k@);
        }
        self.find(k) < self.keys.len()
    }

    /// The value under `k`.
    pub fn get(&self, k: &str) -> (r: Option<&V>)
        ensures
            r == (if self@.contains_key(k@) {
                Some(&self@[k@])
            } else {
                None
            }),
    {
        proof {
            use_type_invariant(self);
            lemma_map_of(self.list(), k@);
            lemma_key_index(self.list(), k@);
        }
        let i: usize = self.find(k);
        if i < self.keys.len() {
            Some(&self.values[i])
        } else {
            None
        }
    }

    /// The value under `k`, to be changed in place.
    pub fn get_mut(&mut self, k: &str) -> (r: Option<&mut V>)
        ensures
            match r {
                Some(v) => {
                    let at = key_index(old(self).list(), k@);
                    &&& old(self)@.contains_key(k@)
                    &&& 0 <= at < old(self).list().len()
                    &&& *v == old(self)@[k@]
                    &&& final(self).list() == old(self).list().update(
                        at,
                        (old(self).list()[at].0, *final(v)),
                    )
                },
                None => !old(self)@.contains_key(k@) && final(self).list() == old(self).list(),
            },
    {
        proof {
            use_type_invariant(&*self);
            lemma_map_of(self.list(), k@);
            lemma_key_index(self.list(), k@);
        }
        let i: usize = self.find(k);
        if i < self.keys.len() {
            Some(&mut self.values[i])
        } else {
            None
        }
    }

    /// The entry at position `i`.
    pub fn at(&self, i: usize) -> (r: (&String, &V))
        requires
            i < self.list().len(),
        ensures
            *r.0 == self.list()[i as int].0,
            *r.1 == self.list()[i as int].1,
            distinct_keys(self.list()),
            self@.contains_key(r.0@),
            self@[r.0@] == *r.1,
    {
        proof {
            use_type_invariant(self);
            let s = self.list();
            let k = s[i as int].0@;
            lemma_map_of(s, k);
            lemma_key_index(s, k);
            let a = key_index(s, k);
            if a != i {
                if a < i {
                    assert(s[a].0@ != s[i as int].0@);
                } else {
                    assert(s[i as int].0@ != k);
                }
            }
        }
        (&self.keys[i], &self.values[i])
    }

    /// Puts `v` under `k`.
    pub fn insert(&mut self, k: String, v: V)
        ensures
            final(self).list() == put(old(self).list(), k, v),
            final(self)@ == old(self)@.insert(k@, v),
    {
        proof {
            use_type_invariant(&*self);
            lemma_put(self.list(), k, v);
            lemma_key_index(self.list(), k@);
        }
        let i: usize = self.find(k.as_str());
        if i < self.keys.len() {
            self.values[i] = v;
        } else {
            let mut whole: StrMap<V> = StrMap::new();
            std::mem::swap(&mut whole, self);
            let StrMap { mut keys, mut values } = whole;
            keys.push(k);
            values.push(v);
            proof {
                let t = put(old(self).list(), k, v);
                assert(paired(keys@, values@) =~= t);
                assert forall|a: int, b: int| 0 <= a < b < keys@.len() implies #[trigger] keys@[a]@
                    != #[trigger] keys@[b]@ by {
                    assert(t[a].0@ != t[b].0@);
                }
            }
            *self = StrMap { keys, values };
        }
        assert(self.list() =~= put(old(self).list(), k, v));
    }

    /// Takes out the entry under `k`.
    pub fn remove(&mut self, k: &str) -> (r: Option<V>)
        ensures
            r is None ==> final(self).list() == old(self).list(),
            final(self).list() == without(old(self).list(), k@),
            final(self)@ == old(self)@.remove(k@),
            r == (if old(self)@.contains_key(k@) {
                Some(old(self)@[k@])
            } else {
                None
            }),
    {
        proof {
            use_type_invariant(&*self);
            lemma_without(self.list(), k@);
            lemma_map_of(self.list(), k@);
            lemma_key_index(self.list(), k@);
        }
        let i: usize = self.find(k);
        if i < self.keys.len() {
            let mut whole: StrMap<V> = StrMap::new();
            std::mem::swap(&mut whole, self);
            let StrMap { mut keys, mut values } = whole;
            keys.remove(i);
            let value = values.remove(i);
            proof {
                let t = without(old(self).list(), k@);
                assert(paired(keys@, values@) =~= t);
                assert forall|a: int, b: int| 0 <= a < b < keys@.len() implies #[trigger] keys@[a]@
                    != #[trigger] keys@[b]@ by {
                    assert(t[a].0@ != t[b].0@);
                }
            }
            *self = StrMap { keys, values };
            Some(value)
        } else {
            assert(old(self)@.remove(k@) =~= old(self)@);
            None
        }
    }

    /// Takes out every entry.
    pub fn clear(&mut self)
        ensures
            final(self).list() == Seq::<(String, V)>::empty(),
            final(self)@ == Map::<Seq<char>, V>::empty(),
    {
        *self = StrMap::new();
    }
}

impl<V: Copy> StrMap<V> {
    /// The same entries in the same order.
    pub fn copy(&self) -> (r: StrMap<V>)
        ensures
            r.list() == self.list(),
            r@ == self@,
    {
        let mut out: StrMap<V> = StrMap::new();
        let n: usize = self.len();
        let mut i: usize = 0;
        while i < n
            invariant
                n == self.list().len(),
                i <= n,
                distinct_keys(self.list()),
                out.list() == self.list().subrange(0, i as int),
            decreases n - i,
        {
            let e = self.at(i);
            proof {
                lemma_new_key(self.list(), i as int);
            }
            out.insert(e.0.clone(), *e.1);
            assert(out.list() =~= self.list().subrange(0, i + 1));
            i = i + 1;
        }
        assert(self.list().subrange(0, n as int) =~= self.list());
        out
    }
}

} // verus!
