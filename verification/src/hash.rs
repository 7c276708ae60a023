use ahash::RandomState;
use std::collections::HashMap;
use std::collections::HashSet;
use std::hash::Hash;
use std::ops::Deref;
use std::ops::DerefMut;
use vstd::prelude::*;
use vstd::std_specs::hash::obeys_key_model;

verus! {

/// `ahash::RandomState`, the hasher factory of the maps and sets below. Its
/// keys are of no concern to the contracts, so it is declared opaque.
#[verifier::external_type_specification]
#[verifier::external_body]
pub struct ExAhashRandomState(ahash::RandomState);

/// `ahash::RandomState::with_seeds(0, 0, 0, 0)`: a hasher factory whose keys
/// are fixed, so that every process hashes alike. The value is opaque here.
#[verifier::external_body]
fn fixed_state() -> RandomState {
    RandomState::with_seeds(0, 0, 0, 0)
}

/// `HashMap::with_hasher`: an empty map that hashes with the given factory.
#[verifier::external_body]
fn map_with_hasher<K, V>(hb: RandomState) -> (m: HashMap<K, V, RandomState>)
    ensures
        m@.dom() == Set::<K>::empty(),
{
    HashMap::with_hasher(hb)
}

/// `HashMap::insert` on a map hashed by `ahash::RandomState`. All hashers that
/// one such factory builds hash the same bytes alike, so for keys whose `Hash`
/// and `Eq` agree with equality the map gains or overwrites the entry and
/// hands back the value that the key held before.
#[verifier::external_body]
fn map_insert<K: Eq + Hash, V>(m: &mut HashMap<K, V, RandomState>, k: K, v: V) -> (r: Option<V>)
    ensures
        obeys_key_model::<K>() ==> {
            &&& final(m)@ == old(m)@.insert(k, v)
            &&& r == if old(m)@.contains_key(k) {
                Some(old(m)@[k])
            } else {
                None
            }
        },
{
    m.insert(k, v)
}

/// `HashMap::get` on a map hashed by `ahash::RandomState`: the value stored
/// under the key, if there is one.
#[verifier::external_body]
fn map_get<'a, K: Eq + Hash, V>(m: &'a HashMap<K, V, RandomState>, k: &K) -> (r: Option<&'a V>)
    ensures
        obeys_key_model::<K>() ==> r == if m@.contains_key(*k) {
            Some(&m@[*k])
        } else {
            None
        },
{
    m.get(k)
}

/// `HashMap::len` on a map hashed by `ahash::RandomState`: the number of keys.
#[verifier::external_body]
fn map_len<K, V>(m: &HashMap<K, V, RandomState>) -> (r: usize)
    ensures
        obeys_key_model::<K>() ==> r == m@.len(),
{
    m.len()
}

/// `HashSet::with_hasher`: an empty set that hashes with the given factory.
#[verifier::external_body]
fn set_with_hasher<T>(hb: RandomState) -> (s: HashSet<T, RandomState>)
    ensures
        s@ == Set::<T>::empty(),
{
    HashSet::with_hasher(hb)
}

/// `HashSet::insert` on a set hashed by `ahash::RandomState`: adds the value
/// and says whether it was new.
#[verifier::external_body]
fn set_insert<T: Eq + Hash>(s: &mut HashSet<T, RandomState>, v: T) -> (r: bool)
    ensures
        obeys_key_model::<T>() ==> {
            &&& final(s)@ == old(s)@.insert(v)
            &&& r == !old(s)@.contains(v)
        },
{
    s.insert(v)
}

/// `HashSet::contains` on a set hashed by `ahash::RandomState`.
#[verifier::external_body]
fn set_contains<T: Eq + Hash>(s: &HashSet<T, RandomState>, v: &T) -> (r: bool)
    ensures
        obeys_key_model::<T>() ==> r == s@.contains(*v),
{
    s.contains(v)
}

/// `HashSet::len` on a set hashed by `ahash::RandomState`: the number of values.
#[verifier::external_body]
fn set_len<T>(s: &HashSet<T, RandomState>) -> (r: usize)
    ensures
        obeys_key_model::<T>() ==> r == s@.len(),
{
    s.len()
}

/// A hash set whose hasher is seeded with constants, so that iteration order
/// and hashes do not vary from run to run. Its view is the set of its values.
pub struct GHashSet<T> {
    h: HashSet<T, RandomState>,
}

impl<T> View for GHashSet<T> {
    type V = Set<T>;

    closed spec fn view(&self) -> Set<T> {
        self.h@
    }
}

impl<T> GHashSet<T> {
    pub fn new() -> (r: Self)
        ensures
            r@ == Set::<T>::empty(),
    {
        GHashSet { h: set_with_hasher(fixed_state()) }
    }

    pub fn len(&self) -> (r: usize)
        ensures
            obeys_key_model::<T>() ==> r == self@.len(),
    {
        set_len(&self.h)
    }
}

impl<T: Eq + Hash> GHashSet<T> {
    /// Adds `v`; the result says whether `v` was not yet in the set.
    pub fn insert(&mut self, v: T) -> (r: bool)
        ensures
            obeys_key_model::<T>() ==> {
                &&& final(self)@ == old(self)@.insert(v)
                &&& r == !old(self)@.contains(v)
            },
    {
        set_insert(&mut self.h, v)
    }

    pub fn contains(&self, v: &T) -> (r: bool)
        ensures
            obeys_key_model::<T>() ==> r == self@.contains(*v),
    {
        set_contains(&self.h, v)
    }
}

impl<T> Default for GHashSet<T> {
    fn default() -> (r: Self)
        ensures
            r@ == Set::<T>::empty(),
    {
        GHashSet::new()
    }
}

impl<T> Deref for GHashSet<T> {
    type Target = HashSet<T, RandomState>;

    #[inline]
    fn deref(&self) -> (r: &HashSet<T, RandomState>)
        ensures
            r@ == self@,
    {
        &self.h
    }
}

impl<T> DerefMut for GHashSet<T> {
    #[inline]
    fn deref_mut(&mut self) -> (r: &mut HashSet<T, RandomState>)
        ensures
            r@ == old(self)@,
            final(self)@ == final(r)@,
    {
        &mut self.h
    }
}

/// A hash map whose hasher is seeded with constants, so that iteration order
/// and hashes do not vary from run to run. Its view is the map it holds.
pub struct GHashMap<K, V> {
    h: HashMap<K, V, RandomState>,
}

impl<K, V> View for GHashMap<K, V> {
    type V = Map<K, V>;

    closed spec fn view(&self) -> Map<K, V> {
        self.h@
    }
}

impl<K, V> GHashMap<K, V> {
    pub fn new() -> (r: Self)
        ensures
            r@ == Map::<K, V>::empty(),
    {
        let h = map_with_hasher(fixed_state());
        assert(h@ =~= Map::<K, V>::empty());
        GHashMap { h }
    }

    pub fn len(&self) -> (r: usize)
        ensures
            obeys_key_model::<K>() ==> r == self@.len(),
    {
        map_len(&self.h)
    }
}

impl<K: Eq + Hash, V> GHashMap<K, V> {
    /// Binds `k` to `v`; the result is the value that `k` was bound to before.
    pub fn insert(&mut self, k: K, v: V) -> (r: Option<V>)
        ensures
            obeys_key_model::<K>() ==> {
                &&& final(self)@ == old(self)@.insert(k, v)
                &&& r == if old(self)@.contains_key(k) {
                    Some(old(self)@[k])
                } else {
                    None
                }
            },
    {
        map_insert(&mut self.h, k, v)
    }

    /// The value that `k` is bound to, if any.
    pub fn get(&self, k: &K) -> (r: Option<&V>)
        ensures
            obeys_key_model::<K>() ==> r == if self@.contains_key(*k) {
                Some(&self@[*k])
            } else {
                None
            },
    {
        map_get(&self.h, k)
    }

    pub fn contains_key(&self, k: &K) -> (r: bool)
        ensures
            obeys_key_model::<K>() ==> r == self@.contains_key(*k),
    {
        map_get(&self.h, k).is_some()
    }
}

impl<K, V> Default for GHashMap<K, V> {
    fn default() -> (r: Self)
        ensures
            r@ == Map::<K, V>::empty(),
    {
        GHashMap::new()
    }
}

impl<K, V> Deref for GHashMap<K, V> {
    type Target = HashMap<K, V, RandomState>;

    #[inline]
    fn deref(&self) -> (r: &HashMap<K, V, RandomState>)
        ensures
            r@ == self@,
    {
        &self.h
    }
}

impl<K, V> DerefMut for GHashMap<K, V> {
    #[inline]
    fn deref_mut(&mut self) -> (r: &mut HashMap<K, V, RandomState>)
        ensures
            r@ == old(self)@,
            final(self)@ == final(r)@,
    {
        &mut self.h
    }
}

impl<K: Clone, V: Clone> Clone for GHashMap<K, V> {
    fn clone(&self) -> (r: Self)
        ensures
            r@ == self@,
    {
        GHashMap { h: self.h.clone() }
    }
}

} // verus!
