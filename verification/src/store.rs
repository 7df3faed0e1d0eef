//! In-memory model of the hash-oriented key-value store that backs the
//! service: a field-to-value hash per key, plus a membership set of known
//! subscriber ids.
//!
//! Hashes are kept as association lists with unique keys; their mathematical
//! model is a `Map<Seq<char>, _>` built by inserting the pairs in order.
//! Every operation states its effect on that model.

use vstd::prelude::*;
use vstd::string::*;

verus! {

/// The map described by an association list: each pair inserted in order,
/// later pairs winning (with unique keys the order is immaterial).
pub open spec fn assoc_view<V: View>(s: Seq<(String, V)>) -> Map<Seq<char>, V::V>
    decreases s.len(),
{
    if s.len() == 0 {
        Map::empty()
    } else {
        assoc_view(s.drop_last()).insert(s.last().0@, s.last().1@)
    }
}

/// Well-formedness of an association list: keys are pairwise distinct.
pub open spec fn assoc_wf<V>(s: Seq<(String, V)>) -> bool {
    forall|i: int, j: int|
        0 <= i < s.len() && 0 <= j < s.len() && i != j ==> s[i].0@ != s[j].0@
}

/// A key is in the association-list map exactly when some pair carries it.
pub proof fn lemma_assoc_contains<V: View>(s: Seq<(String, V)>, k: Seq<char>)
    ensures
        assoc_view(s).contains_key(k) <==> exists|i: int|
            0 <= i < s.len() && #[trigger] s[i].0@ == k,
    decreases s.len(),
{
    if s.len() == 0 {
    } else {
        lemma_assoc_contains(s.drop_last(), k);
        if s.last().0@ == k {
            assert(s[s.len() - 1].0@ == k);
        } else {
            if assoc_view(s).contains_key(k) {
                let i = choose|i: int|
                    0 <= i < s.drop_last().len() && #[trigger] s.drop_last()[i].0@ == k;
                assert(s[i].0@ == k);
            }
            if exists|i: int| 0 <= i < s.len() && #[trigger] s[i].0@ == k {
                let i = choose|i: int| 0 <= i < s.len() && #[trigger] s[i].0@ == k;
                assert(s.drop_last()[i].0@ == k);
            }
        }
    }
}

/// With unique keys, the map sends each listed key to its listed value.
pub proof fn lemma_assoc_index<V: View>(s: Seq<(String, V)>, i: int)
    requires
        assoc_wf(s),
        0 <= i < s.len(),
    ensures
        assoc_view(s).contains_key(s[i].0@),
        assoc_view(s)[s[i].0@] == s[i].1@,
    decreases s.len(),
{
    if i == s.len() - 1 {
    } else {
        assert forall|a: int, b: int|
            0 <= a < s.drop_last().len() && 0 <= b < s.drop_last().len() && a != b implies
            s.drop_last()[a].0@ != s.drop_last()[b].0@ by {
            assert(s[a].0@ != s[b].0@);
        }
        lemma_assoc_index(s.drop_last(), i);
        assert(s.drop_last()[i] == s[i]);
        assert(s[i].0@ != s.last().0@);
    }
}

/// Appending a pair inserts its key into the map.
pub proof fn lemma_assoc_push<V: View>(s: Seq<(String, V)>, p: (String, V))
    ensures
        assoc_view(s.push(p)) == assoc_view(s).insert(p.0@, p.1@),
{
    assert(s.push(p).drop_last() =~= s);
    assert(s.push(p).last() == p);
}

/// Appending a pair whose key is fresh keeps the keys distinct.
pub proof fn lemma_assoc_push_wf<V: View>(s: Seq<(String, V)>, p: (String, V))
    requires
        assoc_wf(s),
        forall|i: int| 0 <= i < s.len() ==> #[trigger] s[i].0@ != p.0@,
    ensures
        assoc_wf(s.push(p)),
{
    let t = s.push(p);
    assert forall|i: int, j: int|
        0 <= i < t.len() && 0 <= j < t.len() && i != j implies t[i].0@ != t[j].0@ by {
        if i < s.len() && j < s.len() {
            assert(s[i].0@ != s[j].0@);
        } else if i < s.len() {
            assert(s[i].0@ != p.0@);
        } else {
            assert(s[j].0@ != p.0@);
        }
    }
}

/// With unique keys, removing the pair at an index removes its key from the
/// map and keeps the remaining keys distinct.
pub proof fn lemma_assoc_remove<V: View>(s: Seq<(String, V)>, i: int)
    requires
        assoc_wf(s),
        0 <= i < s.len(),
    ensures
        assoc_wf(s.remove(i)),
        assoc_view(s.remove(i)) == assoc_view(s).remove(s[i].0@),
    decreases s.len(),
{
    s.remove_ensures(i);
    assert forall|a: int, b: int|
        0 <= a < s.remove(i).len() && 0 <= b < s.remove(i).len() && a != b implies
        s.remove(i)[a].0@ != s.remove(i)[b].0@ by {
        let a0 = if a < i { a } else { a + 1 };
        let b0 = if b < i { b } else { b + 1 };
        assert(s.remove(i)[a] == s[a0]);
        assert(s.remove(i)[b] == s[b0]);
        assert(s[a0].0@ != s[b0].0@);
    }
    if i == s.len() - 1 {
        assert(s.remove(i) =~= s.drop_last());
        lemma_assoc_contains(s.drop_last(), s[i].0@);
        assert forall|a: int| 0 <= a < s.drop_last().len() implies
            #[trigger] s.drop_last()[a].0@ != s[i].0@ by {
            assert(s[a].0@ != s[i].0@);
        }
        assert(!assoc_view(s.drop_last()).contains_key(s[i].0@));
        assert(assoc_view(s.remove(i)) =~= assoc_view(s).remove(s[i].0@));
    } else {
        assert forall|a: int, b: int|
            0 <= a < s.drop_last().len() && 0 <= b < s.drop_last().len() && a != b implies
            s.drop_last()[a].0@ != s.drop_last()[b].0@ by {
            assert(s[a].0@ != s[b].0@);
        }
        lemma_assoc_remove(s.drop_last(), i);
        assert(s.remove(i).drop_last() =~= s.drop_last().remove(i));
        assert(s.remove(i).last() == s.last());
        assert(s.drop_last()[i] == s[i]);
        assert(s.last().0@ != s[i].0@);
        assert(assoc_view(s.remove(i)) ==
            assoc_view(s.drop_last()).remove(s[i].0@).insert(s.last().0@, s.last().1@));
        assert(assoc_view(s.remove(i)) =~= assoc_view(s).remove(s[i].0@));
    }
}

/// A hash: a mapping from field names to string values, modelled as a
/// `Map<Seq<char>, Seq<char>>`.
pub struct StrMap {
    pub pairs: Vec<(String, String)>,
}

impl View for StrMap {
    type V = Map<Seq<char>, Seq<char>>;

    open spec fn view(&self) -> Map<Seq<char>, Seq<char>> {
        assoc_view(self.pairs@)
    }
}

impl StrMap {
    /// Field names are pairwise distinct.
    pub open spec fn wf(&self) -> bool {
        assoc_wf(self.pairs@)
    }

    /// An empty hash.
    pub fn new() -> (m: StrMap)
        ensures
            m.wf(),
            m@ == Map::<Seq<char>, Seq<char>>::empty(),
    {
        let m = StrMap { pairs: Vec::new() };
        proof {
            assert(m.pairs@.len() == 0);
        }
        m
    }

    /// Index of the pair holding `field`, if any.
    fn find(&self, field: &String) -> (r: Option<usize>)
        ensures
            match r {
                Some(i) => i < self.pairs@.len() && self.pairs@[i as int].0@ == field@,
                None => forall|i: int|
                    0 <= i < self.pairs@.len() ==> #[trigger] self.pairs@[i].0@ != field@,
            },
    {
        let mut i: usize = 0;
        while i < self.pairs.len()
            invariant
                i <= self.pairs@.len(),
                forall|j: int| 0 <= j < i ==> #[trigger] self.pairs@[j].0@ != field@,
            decreases self.pairs@.len() - i,
        {
            if self.pairs[i].0 == *field {
                return Some(i);
            }
            i = i + 1;
        }
        None
    }

    /// Value of `field`, or `None` when the field is absent.
    pub fn get(&self, field: &String) -> (r: Option<String>)
        requires
            self.wf(),
        ensures
            r is Some <==> self@.contains_key(field@),
            r matches Some(v) ==> v@ == self@[field@],
    {
        proof {
            lemma_assoc_contains(self.pairs@, field@);
        }
        match self.find(field) {
            Some(i) => {
                proof {
                    lemma_assoc_index(self.pairs@, i as int);
                }
                Some(self.pairs[i].1.clone())
            },
            None => None,
        }
    }

    /// Stores `value` under `field`, overwriting any previous value.
    pub fn set(&mut self, field: String, value: String)
        requires
            old(self).wf(),
        ensures
            final(self).wf(),
            final(self)@ == old(self)@.insert(field@, value@),
    {
        self.del(&field);
        proof {
            lemma_assoc_contains(self.pairs@, field@);
            lemma_assoc_push(self.pairs@, (field, value));
            lemma_assoc_push_wf(self.pairs@, (field, value));
            assert(old(self)@.remove(field@).insert(field@, value@) =~=
                old(self)@.insert(field@, value@));
        }
        self.pairs.push((field, value));
    }

    /// Stores `value` under `field` only when the field is absent; reports
    /// whether the field was added.
    pub fn set_nx(&mut self, field: String, value: String) -> (added: bool)
        requires
            old(self).wf(),
        ensures
            final(self).wf(),
            added == !old(self)@.contains_key(field@),
            final(self)@ == if added {
                old(self)@.insert(field@, value@)
            } else {
                old(self)@
            },
    {
        proof {
            lemma_assoc_contains(self.pairs@, field@);
        }
        match self.find(&field) {
            Some(_) => false,
            None => {
                proof {
                    lemma_assoc_push(self.pairs@, (field, value));
                    lemma_assoc_push_wf(self.pairs@, (field, value));
                }
                self.pairs.push((field, value));
                true
            },
        }
    }

    /// Removes `field`; absence of the field is a no-op.
    pub fn del(&mut self, field: &String)
        requires
            old(self).wf(),
        ensures
            final(self).wf(),
            final(self)@ == old(self)@.remove(field@),
    {
        proof {
            lemma_assoc_contains(self.pairs@, field@);
        }
        match self.find(field) {
            Some(i) => {
                proof {
                    lemma_assoc_remove(self.pairs@, i as int);
                }
                self.pairs.remove(i);
            },
            None => {
                proof {
                    assert(final(self)@ =~= old(self)@.remove(field@));
                }
            },
        }
    }

    /// All `(field, value)` pairs of the hash, fields pairwise distinct and
    /// covering the whole map.
    pub fn entries(&self) -> (r: Vec<(String, String)>)
        requires
            self.wf(),
        ensures
            forall|i: int| 0 <= i < r@.len() ==> self@.contains_key(#[trigger] r@[i].0@)
                && self@[r@[i].0@] == r@[i].1@,
            forall|i: int, j: int|
                0 <= i < r@.len() && 0 <= j < r@.len() && i != j ==> r@[i].0@ != r@[j].0@,
            forall|k: Seq<char>| self@.contains_key(k) ==> exists|i: int|
                0 <= i < r@.len() && #[trigger] r@[i].0@ == k,
    {
        let mut r: Vec<(String, String)> = Vec::new();
        let mut i: usize = 0;
        while i < self.pairs.len()
            invariant
                i <= self.pairs@.len(),
                r@.len() == i,
                forall|j: int| 0 <= j < i ==> r@[j] == self.pairs@[j],
            decreases self.pairs@.len() - i,
        {
            r.push((self.pairs[i].0.clone(), self.pairs[i].1.clone()));
            i = i + 1;
        }
        proof {
            assert forall|a: int| 0 <= a < r@.len() implies
                self@.contains_key(#[trigger] r@[a].0@) && self@[r@[a].0@] == r@[a].1@ by {
                lemma_assoc_index(self.pairs@, a);
            }
            lemma_assoc_contains(self.pairs@, Seq::<char>::empty());
            assert forall|k: Seq<char>| self@.contains_key(k) implies exists|a: int|
                0 <= a < r@.len() && #[trigger] r@[a].0@ == k by {
                lemma_assoc_contains(self.pairs@, k);
                let a = choose|a: int|
                    0 <= a < self.pairs@.len() && #[trigger] self.pairs@[a].0@ == k;
                assert(r@[a].0@ == k);
            }
        }
        r
    }
}

/// A namespace of hashes: each key names one hash. Modelled as a map from
/// key to the hash's own map.
pub struct HashSpace {
    pub entries: Vec<(String, StrMap)>,
}

impl View for HashSpace {
    type V = Map<Seq<char>, Map<Seq<char>, Seq<char>>>;

    open spec fn view(&self) -> Map<Seq<char>, Map<Seq<char>, Seq<char>>> {
        assoc_view(self.entries@)
    }
}

impl HashSpace {
    /// Keys are pairwise distinct and every hash is well formed.
    pub open spec fn wf(&self) -> bool {
        &&& assoc_wf(self.entries@)
        &&& forall|i: int| 0 <= i < self.entries@.len() ==> (#[trigger] self.entries@[i].1).wf()
    }

    /// The hash stored under `k`, or the empty hash when `k` is absent.
    /// Reading a key that was never written behaves as reading an empty
    /// hash, as it does in the underlying store.
    pub open spec fn hash_at(&self, k: Seq<char>) -> Map<Seq<char>, Seq<char>> {
        if self@.contains_key(k) {
            self@[k]
        } else {
            Map::empty()
        }
    }

    /// An empty namespace.
    pub fn new() -> (h: HashSpace)
        ensures
            h.wf(),
            h@ == Map::<Seq<char>, Map<Seq<char>, Seq<char>>>::empty(),
    {
        let h = HashSpace { entries: Vec::new() };
        proof {
            assert(h.entries@.len() == 0);
        }
        h
    }

    /// Index of the hash stored under `key`, if any.
    fn find(&self, key: &String) -> (r: Option<usize>)
        ensures
            match r {
                Some(i) => i < self.entries@.len() && self.entries@[i as int].0@ == key@,
                None => forall|i: int|
                    0 <= i < self.entries@.len() ==> #[trigger] self.entries@[i].0@ != key@,
            },
    {
        let mut i: usize = 0;
        while i < self.entries.len()
            invariant
                i <= self.entries@.len(),
                forall|j: int| 0 <= j < i ==> #[trigger] self.entries@[j].0@ != key@,
            decreases self.entries@.len() - i,
        {
            if self.entries[i].0 == *key {
                return Some(i);
            }
            i = i + 1;
        }
        None
    }

    /// Value of `field` in the hash under `key`, or `None` when either is
    /// absent.
    pub fn hget(&self, key: &String, field: &String) -> (r: Option<String>)
        requires
            self.wf(),
        ensures
            r is Some <==> self.hash_at(key@).contains_key(field@),
            r matches Some(v) ==> v@ == self.hash_at(key@)[field@],
    {
        proof {
            lemma_assoc_contains(self.entries@, key@);
        }
        match self.find(key) {
            Some(i) => {
                proof {
                    lemma_assoc_index(self.entries@, i as int);
                }
                self.entries[i].1.get(field)
            },
            None => None,
        }
    }

    /// Takes the hash stored under `key` out of the namespace, or an empty
    /// hash when `key` is absent; the namespace no longer holds `key`.
    fn take_hash(&mut self, key: &String) -> (m: StrMap)
        requires
            old(self).wf(),
        ensures
            final(self).wf(),
            m.wf(),
            m@ == old(self).hash_at(key@),
            final(self)@ == old(self)@.remove(key@),
            forall|i: int| 0 <= i < final(self).entries@.len()
                ==> #[trigger] final(self).entries@[i].0@ != key@,
    {
        proof {
            lemma_assoc_contains(self.entries@, key@);
        }
        match self.find(key) {
            Some(i) => {
                proof {
                    lemma_assoc_index(self.entries@, i as int);
                    lemma_assoc_remove(self.entries@, i as int);
                    self.entries@.remove_ensures(i as int);
                    assert forall|a: int| 0 <= a < self.entries@.remove(i as int).len() implies
                        #[trigger] self.entries@.remove(i as int)[a].0@ != key@ by {
                        let a0 = if a < i as int { a } else { a + 1 };
                        assert(self.entries@.remove(i as int)[a] == self.entries@[a0]);
                        assert(self.entries@[a0].0@ != self.entries@[i as int].0@);
                    }
                }
                let (_, m) = self.entries.remove(i);
                m
            },
            None => {
                proof {
                    assert(final(self)@ =~= old(self)@.remove(key@));
                }
                StrMap::new()
            },
        }
    }

    /// Puts `m` back under `key`; `key` must be absent.
    fn put_hash(&mut self, key: String, m: StrMap)
        requires
            old(self).wf(),
            m.wf(),
            forall|i: int| 0 <= i < old(self).entries@.len()
                ==> #[trigger] old(self).entries@[i].0@ != key@,
        ensures
            final(self).wf(),
            final(self)@ == old(self)@.insert(key@, m@),
    {
        proof {
            lemma_assoc_push(self.entries@, (key, m));
            lemma_assoc_push_wf(self.entries@, (key, m));
        }
        self.entries.push((key, m));
    }

    /// Stores `value` under `field` of the hash at `key`, creating the hash
    /// when `key` is absent.
    pub fn hset(&mut self, key: &String, field: String, value: String)
        requires
            old(self).wf(),
        ensures
            final(self).wf(),
            final(self)@ == old(self)@.insert(
                key@,
                old(self).hash_at(key@).insert(field@, value@),
            ),
    {
        let mut m = self.take_hash(key);
        m.set(field, value);
        self.put_hash(key.clone(), m);
        proof {
            assert(final(self)@ =~= old(self)@.insert(
                key@,
                old(self).hash_at(key@).insert(field@, value@),
            ));
        }
    }

    /// Stores `value` under `field` of the hash at `key` only when that
    /// field is absent; reports whether the field was added.
    pub fn hset_nx(&mut self, key: &String, field: String, value: String) -> (added: bool)
        requires
            old(self).wf(),
        ensures
            final(self).wf(),
            added == !old(self).hash_at(key@).contains_key(field@),
            added ==> final(self)@ == old(self)@.insert(
                key@,
                old(self).hash_at(key@).insert(field@, value@),
            ),
            !added ==> *final(self) == *old(self),
    {
        match self.hget(key, &field) {
            Some(_) => false,
            None => {
                self.hset(key, field, value);
                true
            },
        }
    }

    /// Removes `field` from the hash at `key`; a missing key or field is a
    /// no-op.
    pub fn hdel(&mut self, key: &String, field: &String)
        requires
            old(self).wf(),
        ensures
            final(self).wf(),
            final(self)@ == if old(self)@.contains_key(key@) {
                old(self)@.insert(key@, old(self)@[key@].remove(field@))
            } else {
                old(self)@
            },
    {
        proof {
            lemma_assoc_contains(self.entries@, key@);
        }
        match self.find(key) {
            Some(_) => {
                let mut m = self.take_hash(key);
                m.del(field);
                self.put_hash(key.clone(), m);
                proof {
                    assert(final(self)@ =~= old(self)@.insert(
                        key@,
                        old(self)@[key@].remove(field@),
                    ));
                }
            },
            None => {},
        }
    }

    /// All `(field, value)` pairs of the hash at `key`; empty when `key` is
    /// absent.
    pub fn hgetall(&self, key: &String) -> (r: Vec<(String, String)>)
        requires
            self.wf(),
        ensures
            forall|i: int| 0 <= i < r@.len()
                ==> self.hash_at(key@).contains_key(#[trigger] r@[i].0@)
                    && self.hash_at(key@)[r@[i].0@] == r@[i].1@,
            forall|i: int, j: int|
                0 <= i < r@.len() && 0 <= j < r@.len() && i != j ==> r@[i].0@ != r@[j].0@,
            forall|k: Seq<char>| self.hash_at(key@).contains_key(k) ==> exists|i: int|
                0 <= i < r@.len() && #[trigger] r@[i].0@ == k,
    {
        proof {
            lemma_assoc_contains(self.entries@, key@);
        }
        match self.find(key) {
            Some(i) => {
                proof {
                    lemma_assoc_index(self.entries@, i as int);
                }
                self.entries[i].1.entries()
            },
            None => Vec::new(),
        }
    }
}

/// The whole store: the identity mapping, the membership set of known
/// subscriber ids, and the namespace of per-subscriber hashes.
pub struct Store {
    /// Maps `"<provider>:<externalSubject>"` to the internal id.
    pub token_map: StrMap,
    /// The internal ids recognised as subscribers.
    pub members: Vec<String>,
    /// Friend lists, profiles and item collections, keyed
    /// `"<id>:<suffix>"`.
    pub hashes: HashSpace,
}

impl Store {
    /// Both hash structures are well formed.
    pub open spec fn wf(&self) -> bool {
        self.token_map.wf() && self.hashes.wf()
    }

    /// The identity mapping as a map.
    pub open spec fn token_view(&self) -> Map<Seq<char>, Seq<char>> {
        self.token_map@
    }

    /// The membership set as a set of ids.
    pub open spec fn member_set(&self) -> Set<Seq<char>> {
        Set::new(|k: Seq<char>| exists|i: int|
            0 <= i < self.members@.len() && #[trigger] self.members@[i]@ == k)
    }

    /// The hash stored under `k`, or the empty hash.
    pub open spec fn hash_at(&self, k: Seq<char>) -> Map<Seq<char>, Seq<char>> {
        self.hashes.hash_at(k)
    }

    /// An empty store.
    pub fn new() -> (s: Store)
        ensures
            s.wf(),
            s.token_view() == Map::<Seq<char>, Seq<char>>::empty(),
            s.member_set() == Set::<Seq<char>>::empty(),
            s.hashes@ == Map::<Seq<char>, Map<Seq<char>, Seq<char>>>::empty(),
    {
        let s = Store { token_map: StrMap::new(), members: Vec::new(), hashes: HashSpace::new() };
        proof {
            assert(s.member_set() =~= Set::<Seq<char>>::empty());
        }
        s
    }

    /// Whether `id` is a recognised subscriber.
    pub fn member_check(&self, id: &String) -> (r: bool)
        ensures
            r == self.member_set().contains(id@),
    {
        let mut i: usize = 0;
        while i < self.members.len()
            invariant
                i <= self.members@.len(),
                forall|j: int| 0 <= j < i ==> #[trigger] self.members@[j]@ != id@,
            decreases self.members@.len() - i,
        {
            if self.members[i] == *id {
                return true;
            }
            i = i + 1;
        }
        false
    }

    /// Registers `id` as a subscriber; registering an id twice is a no-op.
    pub fn member_add(&mut self, id: &String)
        ensures
            final(self).member_set() == old(self).member_set().insert(id@),
            final(self).token_map == old(self).token_map,
            final(self).hashes == old(self).hashes,
    {
        if self.member_check(id) {
            proof {
                assert(final(self).member_set() =~= old(self).member_set().insert(id@));
            }
        } else {
            self.members.push(id.clone());
            proof {
                assert forall|k: Seq<char>| final(self).member_set().contains(k) implies
                    old(self).member_set().insert(id@).contains(k) by {
                    let i = choose|i: int|
                        0 <= i < final(self).members@.len()
                            && #[trigger] final(self).members@[i]@ == k;
                    if i < old(self).members@.len() {
                        assert(old(self).members@[i]@ == k);
                    }
                }
                assert forall|k: Seq<char>| old(self).member_set().insert(id@).contains(k) implies
                    final(self).member_set().contains(k) by {
                    if k == id@ {
                        assert(final(self).members@[old(self).members@.len() as int]@ == k);
                    } else {
                        let i = choose|i: int|
                            0 <= i < old(self).members@.len()
                                && #[trigger] old(self).members@[i]@ == k;
                        assert(final(self).members@[i]@ == k);
                    }
                }
                assert(final(self).member_set() =~= old(self).member_set().insert(id@));
            }
        }
    }
}

} // verus!
