//! Maps and sets keyed by text.
//!
//! A `StrMap` keeps its entries in a vector beside a hash index from key to position, so
//! that lookups are direct and a walk over the entries is a walk over the vector.
use vstd::hash_map::StringHashMap;
use vstd::prelude::*;

verus! {

/// A value that can be copied into another one with the same view.
pub trait Duplicate: View + Sized {
    /// A second value with the view of the first.
    fn duplicate(&self) -> (r: Self)
        ensures
            r@ == self@,
    ;
}

impl Duplicate for () {
    fn duplicate(&self) -> (r: ()) {
        ()
    }
}

impl Duplicate for u64 {
    fn duplicate(&self) -> (r: u64) {
        *self
    }
}

/// A map from text to `V`.
pub struct StrMap<V> {
    index: StringHashMap<usize>,
    entries: Vec<(String, V)>,
}

/// The index and the entries describe each other.
spec fn linked<V>(index: Map<Seq<char>, usize>, entries: Seq<(String, V)>) -> bool {
    &&& forall|i: int|
        0 <= i < entries.len() ==> {
            &&& index.contains_key((#[trigger] entries[i]).0@)
            &&& index[entries[i].0@] == i
        }
    &&& forall|k: Seq<char>| #[trigger]
        index.contains_key(k) ==> {
            &&& index[k] < entries.len()
            &&& entries[index[k] as int].0@ == k
        }
}

impl<V> StrMap<V> {
    #[verifier::type_invariant]
    spec fn inv(self) -> bool {
        linked(self.index@, self.entries@)
    }

    /// The keys in the order of the entries.
    pub closed spec fn keys(self) -> Seq<Seq<char>> {
        self.entries@.map_values(|e: (String, V)| e.0@)
    }
}

impl<V: View> View for StrMap<V> {
    type V = Map<Seq<char>, V::V>;

    closed spec fn view(&self) -> Map<Seq<char>, V::V> {
        Map::new(
            |k: Seq<char>| self.index@.contains_key(k),
            |k: Seq<char>| self.entries@[self.index@[k] as int].1@,
        )
    }
}

/// `keys` lists each key of `m` once.
pub open spec fn lists_keys<T>(keys: Seq<Seq<char>>, m: Map<Seq<char>, T>) -> bool {
    &&& keys.no_duplicates()
    &&& forall|i: int| 0 <= i < keys.len() ==> m.contains_key(#[trigger] keys[i])
    &&& forall|k: Seq<char>| #[trigger] m.contains_key(k) ==> keys.contains(k)
}

/// A map whose keys a list gives has finitely many, as many as the list is long.
pub proof fn lemma_lists_keys<T>(keys: Seq<Seq<char>>, m: Map<Seq<char>, T>)
    requires
        lists_keys(keys, m),
    ensures
        m.dom().finite(),
        m.dom().len() == keys.len(),
        m.dom() == keys.to_set(),
{
    assert(m.dom() =~= keys.to_set());
    keys.unique_seq_to_set();
    vstd::seq_lib::seq_to_set_is_finite(keys);
}

impl<V: View> StrMap<V> {
    /// The empty map.
    pub fn new() -> (r: Self)
        ensures
            r@ == Map::<Seq<char>, V::V>::empty(),
            r.keys() == Seq::<Seq<char>>::empty(),
    {
        let r = StrMap { index: StringHashMap::new(), entries: Vec::new() };
        assert(r@ =~= Map::<Seq<char>, V::V>::empty());
        r
    }

    /// The number of entries.
    pub fn len(&self) -> (n: usize)
        ensures
            n == self.keys().len(),
            n == self@.dom().len(),
            self@.dom().finite(),
            lists_keys(self.keys(), self@),
    {
        proof {
            use_type_invariant(self);
            let keys = self.keys();
            assert forall|k: Seq<char>| #[trigger] self@.contains_key(k) implies keys.contains(k) by {
                assert(keys[self.index@[k] as int] == k);
            }
            assert forall|i: int, j: int| 0 <= i < keys.len() && 0 <= j < keys.len() && i != j implies
                keys[i] != keys[j] by {
                assert(self.index@[self.entries@[i].0@] == i);
                assert(self.index@[self.entries@[j].0@] == j);
            }
            lemma_lists_keys(keys, self@);
        }
        self.entries.len()
    }

    /// Whether there are no entries.
    pub fn is_empty(&self) -> (r: bool)
        ensures
            r == (self@ == Map::<Seq<char>, V::V>::empty()),
            r == self@.dom().is_empty(),
    {
        let n: usize = self.len();
        proof {
            if n == 0 {
                assert(self@.dom() =~= Set::<Seq<char>>::empty());
                assert(self@ =~= Map::<Seq<char>, V::V>::empty());
            } else {
                assert(self@.contains_key(self.keys()[0]));
                assert(self@.dom().contains(self.keys()[0]));
            }
        }
        n == 0
    }

    /// The key of the entry at position `i`.
    pub fn key_at(&self, i: usize) -> (r: &String)
        requires
            i < self.keys().len(),
        ensures
            r@ == self.keys()[i as int],
            self@.contains_key(r@),
    {
        proof {
            use_type_invariant(self);
        }
        &self.entries[i].0
    }

    /// The value of the entry at position `i`.
    pub fn value_at(&self, i: usize) -> (r: &V)
        requires
            i < self.keys().len(),
        ensures
            self@.contains_key(self.keys()[i as int]),
            r@ == self@[self.keys()[i as int]],
    {
        proof {
            use_type_invariant(self);
        }
        &self.entries[i].1
    }

    /// Whether `k` is a key.
    pub fn contains_key(&self, k: &str) -> (r: bool)
        ensures
            r == self@.contains_key(k@),
    {
        self.index.contains_key(k)
    }

    /// The value at `k`.
    pub fn get(&self, k: &str) -> (r: Option<&V>)
        ensures
            match r {
                Some(v) => self@.contains_key(k@) && v@ == self@[k@],
                None => !self@.contains_key(k@),
            },
    {
        proof {
            use_type_invariant(self);
        }
        match self.index.get(k) {
            Some(i) => Some(&self.entries[*i].1),
            None => None,
        }
    }

    /// Sets the value at `k`.
    pub fn insert(&mut self, k: String, v: V)
        ensures
            final(self)@ == old(self)@.insert(k@, v@),
    {
        let ghost start = self@;
        let mut tmp = StrMap::new();
        std::mem::swap(self, &mut tmp);
        proof {
            use_type_invariant(&tmp);
        }
        let StrMap { mut index, mut entries } = tmp;
        let found: Option<usize> = match index.get(&k) {
            Some(i) => Some(*i),
            None => None,
        };
        let ghost key = k@;
        let ghost val = v@;
        match found {
            Some(i) => {
                entries.set(i, (k, v));
            },
            None => {
                let n: usize = entries.len();
                let key_copy = k.clone();
                index.insert(key_copy, n);
                entries.push((k, v));
            },
        }
        *self = StrMap { index, entries };
        assert(self@ =~= start.insert(key, val));
    }

    /// Takes the entry at `k` out.
    pub fn remove(&mut self, k: &str) -> (r: Option<V>)
        ensures
            match r {
                Some(v) => {
                    &&& old(self)@.contains_key(k@)
                    &&& v@ == old(self)@[k@]
                },
                None => !old(self)@.contains_key(k@),
            },
            final(self)@ == old(self)@.remove(k@),
    {
        let ghost start = self@;
        let mut tmp = StrMap::new();
        std::mem::swap(self, &mut tmp);
        proof {
            use_type_invariant(&tmp);
        }
        let StrMap { mut index, mut entries } = tmp;
        let found: Option<usize> = match index.get(k) {
            Some(i) => Some(*i),
            None => None,
        };
        let ghost entries0 = entries@;
        let r: Option<V> = match found {
            Some(i) => {
                let last: usize = entries.len() - 1;
                let gone = entries.swap_remove(i);
                index.remove(k);
                if i != last {
                    let moved = entries[i].0.clone();
                    assert(moved@ == entries0[last as int].0@);
                    index.insert(moved, i);
                }
                proof {
                    assert forall|j: int| 0 <= j < entries@.len() implies {
                        &&& index@.contains_key((#[trigger] entries@[j]).0@)
                        &&& index@[entries@[j].0@] == j
                    } by {
                        if j == i {
                            assert(entries@[j] == entries0[last as int]);
                        } else {
                            assert(entries@[j] == entries0[j]);
                        }
                    }
                }
                Some(gone.1)
            },
            None => None,
        };
        *self = StrMap { index, entries };
        assert(self@ =~= start.remove(k@));
        r
    }

    /// Takes every entry out.
    pub fn clear(&mut self)
        ensures
            final(self)@ == Map::<Seq<char>, V::V>::empty(),
    {
        *self = StrMap::new();
    }
}

impl<V: Duplicate> Duplicate for StrMap<V> {
    fn duplicate(&self) -> (r: Self) {
        let mut out: StrMap<V> = StrMap::new();
        let n: usize = self.len();
        let mut i: usize = 0;
        while i < n
            invariant
                n == self.keys().len(),
                i <= n,
                lists_keys(self.keys(), self@),
                forall|k: Seq<char>| #[trigger] out@.contains_key(k)
                    <==> self.keys().take(i as int).contains(k),
                forall|k: Seq<char>| #[trigger] out@.contains_key(k) ==> out@[k] == self@[k],
            decreases n - i,
        {
            let ghost prev = out@;
            let key = self.key_at(i).clone();
            let value = self.value_at(i).duplicate();
            out.insert(key, value);
            proof {
                let before = self.keys().take(i as int);
                let after = self.keys().take(i + 1);
                assert(after =~= before.push(self.keys()[i as int]));
                assert forall|k: Seq<char>| #[trigger] out@.contains_key(k) <==> after.contains(k) by {
                    if before.contains(k) {
                        let j = choose|j: int| 0 <= j < before.len() && before[j] == k;
                        assert(after[j] == k);
                    }
                    if k == self.keys()[i as int] {
                        assert(after[i as int] == k);
                    }
                    if after.contains(k) && k != self.keys()[i as int] {
                        let j = choose|j: int| 0 <= j < after.len() && after[j] == k;
                        assert(before[j] == k);
                    }
                }
            }
            i += 1;
        }
        assert(self.keys().take(n as int) =~= self.keys());
        assert(out@ =~= self@);
        out
    }
}

/// A set of texts.
pub struct StrSet {
    members: StrMap<()>,
}

impl View for StrSet {
    type V = Set<Seq<char>>;

    closed spec fn view(&self) -> Set<Seq<char>> {
        self.members@.dom()
    }
}

/// `list` has each member of `s` once.
pub open spec fn lists_set(list: Seq<Seq<char>>, s: Set<Seq<char>>) -> bool {
    &&& list.no_duplicates()
    &&& forall|i: int| 0 <= i < list.len() ==> s.contains(#[trigger] list[i])
    &&& forall|k: Seq<char>| #[trigger] s.contains(k) ==> list.contains(k)
}

impl StrSet {
    /// The members in the order of a walk.
    pub closed spec fn list(self) -> Seq<Seq<char>> {
        self.members.keys()
    }

    /// The empty set.
    pub fn new() -> (r: Self)
        ensures
            r@ == Set::<Seq<char>>::empty(),
    {
        let members = StrMap::new();
        let r = StrSet { members };
        assert(r@ =~= Set::<Seq<char>>::empty());
        r
    }

    /// The number of members.
    pub fn len(&self) -> (n: usize)
        ensures
            n == self.list().len(),
            n == self@.len(),
            self@.finite(),
            lists_set(self.list(), self@),
    {
        let n: usize = self.members.len();
        assert forall|k: Seq<char>| #[trigger] self@.contains(k) implies self.list().contains(k) by {
            assert(self.members@.contains_key(k));
        }
        assert forall|i: int| 0 <= i < self.list().len() implies self@.contains(
            #[trigger] self.list()[i],
        ) by {
            assert(self.members@.contains_key(self.list()[i]));
        }
        n
    }

    /// Whether there are no members.
    pub fn is_empty(&self) -> (r: bool)
        ensures
            r == (self@ == Set::<Seq<char>>::empty()),
    {
        let r = self.members.is_empty();
        assert(r ==> self@ =~= Set::<Seq<char>>::empty());
        r
    }

    /// The member at position `i` of the walk.
    pub fn member_at(&self, i: usize) -> (r: &String)
        requires
            i < self.list().len(),
        ensures
            r@ == self.list()[i as int],
            self@.contains(r@),
    {
        self.members.key_at(i)
    }

    /// Whether `k` is a member.
    pub fn contains(&self, k: &str) -> (r: bool)
        ensures
            r == self@.contains(k@),
    {
        self.members.contains_key(k)
    }

    /// Adds `k`.
    pub fn insert(&mut self, k: String)
        ensures
            final(self)@ == old(self)@.insert(k@),
    {
        let ghost start = self@;
        self.members.insert(k, ());
        assert(self@ =~= start.insert(k@));
    }

    /// Takes `k` out.
    pub fn remove(&mut self, k: &str)
        ensures
            final(self)@ == old(self)@.remove(k@),
    {
        let ghost start = self@;
        self.members.remove(k);
        assert(self@ =~= start.remove(k@));
    }
}

impl Duplicate for StrSet {
    fn duplicate(&self) -> (r: Self) {
        StrSet { members: self.members.duplicate() }
    }
}

} // verus!
