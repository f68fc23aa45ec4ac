//! A map whose entries stand in the order of their keys.

use vstd::prelude::*;

use crate::text::{lemma_lex_irreflexive, lemma_lex_total, lemma_lex_transitive, less, lex_less, same, text_less, texts};

verus! {

/// A key of an [`OrderedMap`]: a value with a strict total order.
pub trait MapKey: Sized {
    /// What the key stands for.
    type Key;

    /// The key's model.
    spec fn key(&self) -> Self::Key;

    /// The order of the keys.
    spec fn key_less(a: Self::Key, b: Self::Key) -> bool;

    /// No key orders before itself.
    proof fn key_irreflexive(a: Self::Key)
        ensures
            !Self::key_less(a, a),
    ;

    /// The order is transitive.
    proof fn key_transitive(a: Self::Key, b: Self::Key, c: Self::Key)
        requires
            Self::key_less(a, b),
            Self::key_less(b, c),
        ensures
            Self::key_less(a, c),
    ;

    /// Of two keys that differ one orders before the other.
    proof fn key_total(a: Self::Key, b: Self::Key)
        ensures
            a == b || Self::key_less(a, b) || Self::key_less(b, a),
    ;

    /// Whether this key orders before `other`.
    fn before(&self, other: &Self) -> (r: bool)
        ensures
            r == Self::key_less(self.key(), other.key()),
    ;

    /// A copy of this key.
    fn copy_key(&self) -> (r: Self)
        ensures
            r.key() == self.key(),
    ;
}

impl MapKey for String {
    type Key = Seq<char>;

    open spec fn key(&self) -> Seq<char> {
        self@
    }

    open spec fn key_less(a: Seq<char>, b: Seq<char>) -> bool {
        text_less(a, b)
    }

    proof fn key_irreflexive(a: Seq<char>) {
        lemma_lex_irreflexive(a, |x: char, y: char| (x as int) < (y as int));
    }

    proof fn key_transitive(a: Seq<char>, b: Seq<char>, c: Seq<char>) {
        lemma_lex_transitive(a, b, c, |x: char, y: char| (x as int) < (y as int));
    }

    proof fn key_total(a: Seq<char>, b: Seq<char>) {
        lemma_lex_total(a, b, |x: char, y: char| (x as int) < (y as int));
    }

    fn before(&self, other: &Self) -> (r: bool) {
        less(self.as_str(), other.as_str())
    }

    fn copy_key(&self) -> (r: Self) {
        self.clone()
    }
}

/// The order of attribute paths: by their first different name.
pub open spec fn path_less(a: Seq<Seq<char>>, b: Seq<Seq<char>>) -> bool {
    lex_less(a, b, |x: Seq<char>, y: Seq<char>| text_less(x, y))
}

fn path_before(a: &Vec<String>, b: &Vec<String>) -> (r: bool)
    ensures
        r == path_less(texts(a@), texts(b@)),
{
    let mut i: usize = 0;
    let ghost order = |x: Seq<char>, y: Seq<char>| text_less(x, y);
    proof {
        assert(texts(a@).skip(0) == texts(a@));
        assert(texts(b@).skip(0) == texts(b@));
    }
    while i < a.len() && i < b.len()
        invariant
            i <= a.len(),
            i <= b.len(),
            order == (|x: Seq<char>, y: Seq<char>| text_less(x, y)),
            path_less(texts(a@), texts(b@)) == lex_less(
                texts(a@).skip(i as int),
                texts(b@).skip(i as int),
                order,
            ),
        decreases a.len() - i,
    {
        proof {
            assert(texts(a@).skip(i as int)[0] == a@[i as int]@);
            assert(texts(b@).skip(i as int)[0] == b@[i as int]@);
            assert(texts(a@).skip(i as int).skip(1) == texts(a@).skip(i + 1));
            assert(texts(b@).skip(i as int).skip(1) == texts(b@).skip(i + 1));
        }
        if !same(a[i].as_str(), b[i].as_str()) {
            return less(a[i].as_str(), b[i].as_str());
        }
        i += 1;
    }
    i < b.len()
}

/// A copy of a list of strings.
pub fn copy_texts(v: &Vec<String>) -> (r: Vec<String>)
    ensures
        r@ == v@,
{
    let mut out: Vec<String> = Vec::new();
    let mut i: usize = 0;
    while i < v.len()
        invariant
            i <= v.len(),
            out@ == v@.take(i as int),
        decreases v.len() - i,
    {
        out.push(v[i].clone());
        i += 1;
    }
    out
}

impl MapKey for Vec<String> {
    type Key = Seq<Seq<char>>;

    open spec fn key(&self) -> Seq<Seq<char>> {
        texts(self@)
    }

    open spec fn key_less(a: Seq<Seq<char>>, b: Seq<Seq<char>>) -> bool {
        path_less(a, b)
    }

    proof fn key_irreflexive(a: Seq<Seq<char>>) {
        lemma_lex_irreflexive(a, |x: Seq<char>, y: Seq<char>| text_less(x, y));
    }

    proof fn key_transitive(a: Seq<Seq<char>>, b: Seq<Seq<char>>, c: Seq<Seq<char>>) {
        let order = |x: Seq<char>, y: Seq<char>| text_less(x, y);
        assert forall|x: Seq<char>, y: Seq<char>, z: Seq<char>| #[trigger]
            order(x, y) && #[trigger] order(y, z) implies order(x, z) by {
            <String as MapKey>::key_transitive(x, y, z);
        }
        assert forall|x: Seq<char>| !#[trigger] order(x, x) by {
            <String as MapKey>::key_irreflexive(x);
        }
        lemma_lex_transitive(a, b, c, order);
    }

    proof fn key_total(a: Seq<Seq<char>>, b: Seq<Seq<char>>) {
        let order = |x: Seq<char>, y: Seq<char>| text_less(x, y);
        assert forall|x: Seq<char>, y: Seq<char>| x == y || #[trigger] order(x, y) || order(y, x) by {
            <String as MapKey>::key_total(x, y);
        }
        lemma_lex_total(a, b, order);
    }

    fn before(&self, other: &Self) -> (r: bool) {
        path_before(self, other)
    }

    fn copy_key(&self) -> (r: Self) {
        copy_texts(self)
    }
}

/// A map from keys to values that hands its entries out in the order of their keys.
#[derive(Debug)]
pub struct OrderedMap<K: MapKey, V> {
    entries: Vec<(K, V)>,
}

impl<K: MapKey, V> View for OrderedMap<K, V> {
    type V = Map<K::Key, V>;

    closed spec fn view(&self) -> Map<K::Key, V> {
        Map::new(
            |k: K::Key| self.keys().contains(k),
            |k: K::Key| self.entries@[self.keys().index_of(k)].1,
        )
    }
}

impl<K: MapKey, V> OrderedMap<K, V> {
    #[verifier::type_invariant]
    spec fn sorted(self) -> bool {
        forall|i: int, j: int|
            0 <= i < j < self.entries@.len() ==> K::key_less(
                #[trigger] self.entries@[i].0.key(),
                #[trigger] self.entries@[j].0.key(),
            )
    }

    /// The keys, in the order in which the entries are handed out.
    pub closed spec fn keys(&self) -> Seq<K::Key> {
        self.entries@.map_values(|e: (K, V)| e.0.key())
    }

    /// The keys stand in strictly ascending order, and they are the map's domain.
    pub open spec fn ordered(&self) -> bool {
        &&& forall|i: int, j: int|
            0 <= i < j < self.keys().len() ==> K::key_less(
                #[trigger] self.keys()[i],
                #[trigger] self.keys()[j],
            )
        &&& forall|k: K::Key| #[trigger] self@.contains_key(k) <==> self.keys().contains(k)
    }

    proof fn lemma_at(&self, i: int)
        requires
            self.sorted(),
            0 <= i < self.entries@.len(),
        ensures
            self.keys()[i] == self.entries@[i].0.key(),
            self@.contains_key(self.keys()[i]),
            self@[self.keys()[i]] == self.entries@[i].1,
            self.ordered(),
    {
        let k = self.keys()[i];
        let j = self.keys().index_of(k);
        assert(self.keys().contains(k));
        assert(0 <= j < self.keys().len() && self.keys()[j] == k);
        K::key_irreflexive(k);
        assert(self.keys()[j] == self.entries@[j].0.key());
        assert(i == j);
        self.lemma_ordered();
    }

    proof fn lemma_ordered(&self)
        requires
            self.sorted(),
        ensures
            self.ordered(),
    {
        assert forall|i: int, j: int| 0 <= i < j < self.keys().len() implies K::key_less(
            #[trigger] self.keys()[i],
            #[trigger] self.keys()[j],
        ) by {
            assert(self.keys()[i] == self.entries@[i].0.key());
            assert(self.keys()[j] == self.entries@[j].0.key());
        }
    }

    /// The map without entries.
    pub fn new() -> (r: Self)
        ensures
            r@ == Map::<K::Key, V>::empty(),
            r.keys() == Seq::<K::Key>::empty(),
    {
        OrderedMap { entries: Vec::new() }
    }

    /// The number of entries.
    pub fn len(&self) -> (n: usize)
        ensures
            n == self.keys().len(),
            self.ordered(),
    {
        proof {
            use_type_invariant(self);
            self.lemma_ordered();
        }
        self.entries.len()
    }

    /// The key at an index, in the order of the keys.
    pub fn key_at(&self, i: usize) -> (k: &K)
        requires
            i < self.keys().len(),
        ensures
            k.key() == self.keys()[i as int],
    {
        &self.entries[i].0
    }

    /// The value at an index, in the order of the keys.
    pub fn value_at(&self, i: usize) -> (v: &V)
        requires
            i < self.keys().len(),
        ensures
            self@.contains_key(self.keys()[i as int]),
            *v == self@[self.keys()[i as int]],
    {
        proof {
            use_type_invariant(self);
            self.lemma_at(i as int);
        }
        &self.entries[i].1
    }

    /// The index of the first key that does not order before `key`.
    fn rank(&self, key: &K) -> (r: usize)
        ensures
            r <= self.entries@.len(),
            forall|i: int| 0 <= i < r ==> K::key_less(#[trigger] self.entries@[i].0.key(), key.key()),
            r < self.entries@.len() ==> !K::key_less(self.entries@[r as int].0.key(), key.key()),
    {
        let mut i: usize = 0;
        while i < self.entries.len() && self.entries[i].0.before(key)
            invariant
                i <= self.entries@.len(),
                forall|j: int|
                    0 <= j < i ==> K::key_less(#[trigger] self.entries@[j].0.key(), key.key()),
            decreases self.entries@.len() - i,
        {
            i += 1;
        }
        i
    }

    proof fn lemma_rank(&self, key: K::Key, r: int)
        requires
            self.sorted(),
            0 <= r <= self.entries@.len(),
            forall|i: int| 0 <= i < r ==> K::key_less(#[trigger] self.entries@[i].0.key(), key),
            r < self.entries@.len() ==> !K::key_less(self.entries@[r].0.key(), key),
        ensures
            self@.contains_key(key) <==> r < self.entries@.len() && !K::key_less(
                key,
                self.entries@[r].0.key(),
            ),
            self@.contains_key(key) ==> self.entries@[r].0.key() == key && self@[key]
                == self.entries@[r].1,
            !self@.contains_key(key) ==> forall|i: int|
                r <= i < self.entries@.len() ==> K::key_less(
                    key,
                    #[trigger] self.entries@[i].0.key(),
                ),
    {
        K::key_irreflexive(key);
        if r < self.entries@.len() {
            K::key_total(key, self.entries@[r].0.key());
            self.lemma_at(r);
        }
        if self@.contains_key(key) {
            let j = self.keys().index_of(key);
            assert(self.keys()[j] == self.entries@[j].0.key());
            assert(r <= j);
            if r < j {
                assert(K::key_less(self.entries@[r].0.key(), self.entries@[j].0.key()));
            }
        } else if r < self.entries@.len() {
            assert(K::key_less(key, self.entries@[r].0.key()));
            assert forall|i: int| r <= i < self.entries@.len() implies K::key_less(
                key,
                #[trigger] self.entries@[i].0.key(),
            ) by {
                if r < i {
                    K::key_transitive(key, self.entries@[r].0.key(), self.entries@[i].0.key());
                }
            }
        }
    }

    /// The value of `key`.
    pub fn get(&self, key: &K) -> (r: Option<&V>)
        ensures
            match r {
                Some(v) => self@.contains_key(key.key()) && *v == self@[key.key()],
                None => !self@.contains_key(key.key()),
            },
    {
        let i: usize = self.rank(key);
        proof {
            use_type_invariant(self);
            self.lemma_rank(key.key(), i as int);
        }
        if i < self.entries.len() && !key.before(&self.entries[i].0) {
            Some(&self.entries[i].1)
        } else {
            None
        }
    }

    /// Sets the value of `key`.
    pub fn insert(&mut self, key: K, value: V)
        ensures
            final(self)@ == old(self)@.insert(key.key(), value),
    {
        let i: usize = self.rank(&key);
        proof {
            use_type_invariant(&*self);
            self.lemma_rank(key.key(), i as int);
        }
        let ghost before = *self;
        let present: bool = i < self.entries.len() && !key.before(&self.entries[i].0);
        let mut entries: Vec<(K, V)> = Vec::new();
        std::mem::swap(&mut entries, &mut self.entries);
        if present {
            entries.set(i, (key, value));
        } else {
            entries.insert(i, (key, value));
        }
        proof {
            let m = OrderedMap { entries };
            assert forall|a: int, b: int| 0 <= a < b < entries@.len() implies K::key_less(
                #[trigger] entries@[a].0.key(),
                #[trigger] entries@[b].0.key(),
            ) by {
                if !present {
                    if a < i && i < b {
                        assert(entries@[a] == before.entries@[a]);
                        assert(entries@[b] == before.entries@[b - 1]);
                    }
                }
            }
            assert(m.sorted());
            lemma_insert(before, m, key.key(), value, i as int, present);
        }
        self.entries = entries;
    }
}

impl<K: MapKey, V: Clone> OrderedMap<K, V> {
    /// A map with the same keys and with copies of the values.
    pub fn copy(&self) -> (r: Self)
        ensures
            r.keys() == self.keys(),
            r@.dom() == self@.dom(),
            forall|k: K::Key| #[trigger]
                self@.contains_key(k) ==> cloned::<V>(self@[k], r@[k]),
    {
        proof {
            use_type_invariant(self);
        }
        let mut entries: Vec<(K, V)> = Vec::new();
        let mut i: usize = 0;
        while i < self.entries.len()
            invariant
                i <= self.entries.len(),
                entries.len() == i,
                forall|j: int| #![trigger entries@[j]]
                    0 <= j < i ==> entries@[j].0.key() == self.entries@[j].0.key() && cloned::<V>(
                        self.entries@[j].1,
                        entries@[j].1,
                    ),
            decreases self.entries.len() - i,
        {
            entries.push((self.entries[i].0.copy_key(), self.entries[i].1.clone()));
            i += 1;
        }
        let r = OrderedMap { entries };
        proof {
            assert(r.keys() =~= self.keys());
            assert(r@.dom() =~= self@.dom());
            assert forall|k: K::Key| #[trigger] self@.contains_key(k) implies cloned::<V>(
                self@[k],
                r@[k],
            ) by {
                let j = self.keys().index_of(k);
                assert(entries@[j].0.key() == self.entries@[j].0.key());
            }
        }
        r
    }
}

/// What an entry put at its rank makes of the map.
proof fn lemma_insert<K: MapKey, V>(
    before: OrderedMap<K, V>,
    after: OrderedMap<K, V>,
    key: K::Key,
    value: V,
    i: int,
    present: bool,
)
    requires
        before.sorted(),
        after.sorted(),
        0 <= i < after.entries@.len(),
        after.entries@[i].0.key() == key,
        after.entries@[i].1 == value,
        present == before@.contains_key(key),
        present ==> i < before.entries@.len() && before.entries@[i].0.key() == key,
        present ==> after.entries@ == before.entries@.update(i, after.entries@[i]),
        !present ==> i <= before.entries@.len() && after.entries@ == before.entries@.insert(
            i,
            after.entries@[i],
        ),
    ensures
        after@ == before@.insert(key, value),
{
    after.lemma_at(i);
    assert forall|k: K::Key| #[trigger]
        after@.contains_key(k) implies before@.insert(key, value).contains_key(k) && after@[k]
        == before@.insert(key, value)[k] by {
        let a = after.keys().index_of(k);
        after.lemma_at(a);
        if k != key {
            let b = if present || a < i { a } else { a - 1 };
            assert(before.entries@[b] == after.entries@[a]);
            before.lemma_at(b);
        }
    }
    assert forall|k: K::Key| #[trigger]
        before@.insert(key, value).contains_key(k) implies after@.contains_key(k) by {
        if k != key {
            let b = before.keys().index_of(k);
            before.lemma_at(b);
            let a = if present || b < i { b } else { b + 1 };
            assert(before.entries@[b] == after.entries@[a]);
            after.lemma_at(a);
        }
    }
    assert(after@ =~= before@.insert(key, value));
}

/// Paths are ordered by the first name in which they differ, and a path comes before every
/// longer one that begins with it.
pub proof fn law_paths_are_ordered_by_their_first_difference(
    start: Seq<Seq<char>>,
    x: Seq<char>,
    y: Seq<char>,
    a: Seq<Seq<char>>,
    b: Seq<Seq<char>>,
)
    ensures
        path_less(start, start + seq![x] + a),
        !path_less(start + seq![x] + a, start),
        x != y ==> (path_less(start + seq![x] + a, start + seq![y] + b) <==> text_less(x, y)),
    decreases start.len(),
{
    let l = start + seq![x] + a;
    let r = start + seq![y] + b;
    if start.len() > 0 {
        let t = start.skip(1);
        law_paths_are_ordered_by_their_first_difference(t, x, y, a, b);
        assert(l.skip(1) =~= t + seq![x] + a);
        assert(r.skip(1) =~= t + seq![y] + b);
        assert(l[0] == start[0] && r[0] == start[0]);
    } else {
        assert(l[0] == x && r[0] == y);
    }
}

} // verus!
