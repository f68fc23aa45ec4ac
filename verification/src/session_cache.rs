//! The warm sessions of a daemon: which are kept, and which configuration each belongs to.

use std::collections::VecDeque;

use vstd::hash_map::StringHashMap;
use vstd::prelude::*;

use crate::config::Config;
use crate::error::ErrorChain;
use crate::session_key::{key_text, session_key};
use crate::text::{same, texts};

verus! {

/// How many sessions a daemon keeps.
pub const MAX_SESSIONS: usize = 32;

#[verifier::reject_recursive_types(T)]
struct Entries<T> {
    sessions: StringHashMap<T>,
    order: VecDeque<String>,
}

impl<T> Entries<T> {
    spec fn keys(self) -> Seq<Seq<char>> {
        texts(self.order@)
    }

    spec fn filed(self) -> bool {
        &&& self.keys().no_duplicates()
        &&& forall|k: Seq<char>| #[trigger]
            self.sessions@.contains_key(k) <==> self.keys().contains(k)
    }

    spec fn listed(self) -> Seq<(Seq<char>, T)> {
        self.keys().map_values(|k: Seq<char>| (k, self.sessions@[k]))
    }
}

/// Values by name, of which only the most recently used are kept.
#[verifier::reject_recursive_types(T)]
pub struct SessionRegistry<T> {
    entries: Entries<T>,
    max: usize,
}

impl<T> View for SessionRegistry<T> {
    type V = Seq<(Seq<char>, T)>;

    /// The entries, the least recently used first.
    closed spec fn view(&self) -> Seq<(Seq<char>, T)> {
        self.entries.listed()
    }
}

/// Whether the entries hold a name.
pub open spec fn holds<T>(entries: Seq<(Seq<char>, T)>, key: Seq<char>) -> bool {
    exists|i: int| 0 <= i < entries.len() && (#[trigger] entries[i]).0 == key
}

/// The entries but the one with a name.
pub open spec fn without<T>(entries: Seq<(Seq<char>, T)>, key: Seq<char>) -> Seq<(Seq<char>, T)>
    decreases entries.len(),
{
    if entries.len() == 0 {
        Seq::empty()
    } else if entries.last().0 == key {
        without(entries.drop_last(), key)
    } else {
        without(entries.drop_last(), key).push(entries.last())
    }
}

/// How many of the other entries have to go before one is set: those beyond the limit, where
/// an entry of the same name still counts.
pub open spec fn evicted<T>(entries: Seq<(Seq<char>, T)>, key: Seq<char>, max: int) -> int {
    let others = without(entries, key).len() as int;
    let over = entries.len() + 1 - max;
    if over < 0 {
        0
    } else if over > others {
        others
    } else {
        over
    }
}

/// The entries once one was set: it is the most recently used.
pub open spec fn inserted<T>(
    entries: Seq<(Seq<char>, T)>,
    key: Seq<char>,
    value: T,
    max: int,
) -> Seq<(Seq<char>, T)> {
    without(entries, key).skip(evicted(entries, key, max)).push((key, value))
}

/// The entries once one was used.
pub open spec fn touched<T>(entries: Seq<(Seq<char>, T)>, key: Seq<char>) -> Seq<
    (Seq<char>, T),
> {
    if holds(entries, key) {
        without(entries, key).push((key, value_of(entries, key)))
    } else {
        entries
    }
}

/// The value of a name.
pub open spec fn value_of<T>(entries: Seq<(Seq<char>, T)>, key: Seq<char>) -> T {
    entries[choose|i: int| 0 <= i < entries.len() && (#[trigger] entries[i]).0 == key].1
}

/// Whether no name occurs twice.
pub open spec fn names_unique<T>(entries: Seq<(Seq<char>, T)>) -> bool {
    forall|i: int, j: int|
        0 <= i < j < entries.len() ==> (#[trigger] entries[i]).0 != (#[trigger] entries[j]).0
}

proof fn lemma_without<T>(entries: Seq<(Seq<char>, T)>, key: Seq<char>)
    requires
        names_unique(entries),
    ensures
        !holds(without(entries, key), key),
        names_unique(without(entries, key)),
        without(entries, key).len() == entries.len() - (if holds(entries, key) {
            1int
        } else {
            0int
        }),
        !holds(entries, key) ==> without(entries, key) == entries,
        forall|i: int|
            0 <= i < entries.len() && (#[trigger] entries[i]).0 == key ==> without(entries, key)
                == entries.remove(i),
    decreases entries.len(),
{
    if entries.len() > 0 {
        let init = entries.drop_last();
        assert(names_unique(init)) by {
            assert forall|i: int, j: int| 0 <= i < j < init.len() implies (#[trigger] init[i]).0
                != (#[trigger] init[j]).0 by {
                assert(init[i] == entries[i] && init[j] == entries[j]);
            }
        }
        lemma_without(init, key);
        let last = entries.last();
        let at = entries.len() - 1;
        assert(entries[at] == last);
        if last.0 == key {
            assert(!holds(init, key)) by {
                if holds(init, key) {
                    let i = choose|i: int| 0 <= i < init.len() && (#[trigger] init[i]).0 == key;
                    assert(entries[i].0 == key);
                }
            }
            assert(holds(entries, key));
            assert(entries.remove(at) =~= init);
        } else {
            assert(holds(init, key) <==> holds(entries, key)) by {
                if holds(init, key) {
                    let i = choose|i: int| 0 <= i < init.len() && (#[trigger] init[i]).0 == key;
                    assert(entries[i].0 == key);
                }
                if holds(entries, key) {
                    let i = choose|i: int|
                        0 <= i < entries.len() && (#[trigger] entries[i]).0 == key;
                    assert(init[i].0 == key);
                }
            }
            let rest = without(init, key);
            let out = rest.push(last);
            assert(!holds(out, key)) by {
                if holds(out, key) {
                    let i = choose|i: int| 0 <= i < out.len() && (#[trigger] out[i]).0 == key;
                    assert(rest[i].0 == key);
                }
            }
            assert forall|i: int| 0 <= i < entries.len() && (#[trigger] entries[i]).0
                == key implies out == entries.remove(i) by {
                assert(init[i].0 == key);
                assert(rest == init.remove(i));
                assert(out =~= entries.remove(i));
            }
            if !holds(entries, key) {
                assert(out =~= entries);
            } else {
                let i = choose|i: int|
                    0 <= i < entries.len() && (#[trigger] entries[i]).0 == key;
                assert(out == entries.remove(i));
            }
            assert(names_unique(out)) by {
                assert forall|i: int, j: int| 0 <= i < j < out.len() implies (#[trigger] out[i]).0
                    != (#[trigger] out[j]).0 by {
                    if holds(entries, key) {
                        let k = choose|k: int|
                            0 <= k < entries.len() && (#[trigger] entries[k]).0 == key;
                        assert(out == entries.remove(k));
                        let a = if i < k { i } else { i + 1 };
                        let b = if j < k { j } else { j + 1 };
                        assert(out[i] == entries[a] && out[j] == entries[b]);
                    }
                }
            }
        }
    }
}

impl<T> Entries<T> {
    proof fn lemma_listed(self)
        requires
            self.filed(),
        ensures
            names_unique(self.listed()),
            forall|k: Seq<char>| #[trigger] holds(self.listed(), k) <==> self.keys().contains(k),
            forall|k: Seq<char>| #[trigger]
                holds(self.listed(), k) ==> value_of(self.listed(), k) == self.sessions@[k],
    {
        let list = self.listed();
        let keys = self.keys();
        assert forall|k: Seq<char>| #[trigger] holds(list, k) <==> keys.contains(k) by {
            if holds(list, k) {
                let i = choose|i: int| 0 <= i < list.len() && (#[trigger] list[i]).0 == k;
                assert(keys[i] == k);
            }
            if keys.contains(k) {
                let i = keys.index_of(k);
                assert(list[i].0 == k);
            }
        }
        assert forall|i: int, j: int| 0 <= i < j < list.len() implies (#[trigger] list[i]).0 != (
        #[trigger] list[j]).0 by {
            assert(list[i].0 == keys[i] && list[j].0 == keys[j]);
        }
    }

    /// Takes a name out of the order, where it stands there.
    fn remove_order_entry(&mut self, key: &str)
        requires
            old(self).keys().no_duplicates(),
        ensures
            final(self).sessions == old(self).sessions,
            final(self).keys() == minus(old(self).keys(), key@),
    {
        let n: usize = self.order.len();
        let mut i: usize = 0;
        let ghost keys = self.keys();
        while i < n
            invariant
                i <= n,
                n == self.order@.len(),
                *self == *old(self),
                keys == self.keys(),
                forall|j: int| 0 <= j < i ==> #[trigger] keys[j] != key@,
                keys.no_duplicates(),
            decreases n - i,
        {
            if same(self.order[i].as_str(), key) {
                let _ = self.order.remove(i);
                proof {
                    assert(keys[i as int] == key@);
                    assert(self.keys() =~= keys.remove(i as int));
                    lemma_minus_one(keys, i as int);
                }
                return;
            }
            proof {
                assert(keys[i as int] == self.order@[i as int]@);
            }
            i += 1;
        }
        proof {
            lemma_minus_none(keys, key@);
        }
    }
}

/// The names but one.
spec fn minus(keys: Seq<Seq<char>>, key: Seq<char>) -> Seq<Seq<char>>
    decreases keys.len(),
{
    if keys.len() == 0 {
        Seq::empty()
    } else if keys.last() == key {
        minus(keys.drop_last(), key)
    } else {
        minus(keys.drop_last(), key).push(keys.last())
    }
}

proof fn lemma_minus_contains(keys: Seq<Seq<char>>, key: Seq<char>, k: Seq<char>)
    ensures
        minus(keys, key).contains(k) <==> keys.contains(k) && k != key,
    decreases keys.len(),
{
    if keys.len() > 0 {
        let init = keys.drop_last();
        let last = keys.last();
        lemma_minus_contains(init, key, k);
        let rest = minus(init, key);
        assert(keys.contains(k) <==> init.contains(k) || k == last) by {
            if keys.contains(k) && k != last {
                let i = keys.index_of(k);
                assert(init[i] == k);
            }
            if init.contains(k) {
                let i = init.index_of(k);
                assert(keys[i] == k);
            }
            assert(keys[keys.len() - 1] == last);
        }
        if last != key {
            let out = rest.push(last);
            assert(out.contains(k) <==> rest.contains(k) || k == last) by {
                if rest.contains(k) {
                    let i = rest.index_of(k);
                    assert(out[i] == k);
                }
                if out.contains(k) && k != last {
                    let i = out.index_of(k);
                    assert(rest[i] == k);
                }
                assert(out[rest.len() as int] == last);
            }
        }
    }
}

proof fn lemma_minus_none(keys: Seq<Seq<char>>, key: Seq<char>)
    requires
        forall|j: int| 0 <= j < keys.len() ==> #[trigger] keys[j] != key,
    ensures
        minus(keys, key) == keys,
    decreases keys.len(),
{
    if keys.len() > 0 {
        let init = keys.drop_last();
        assert forall|j: int| 0 <= j < init.len() implies #[trigger] init[j] != key by {
            assert(init[j] == keys[j]);
        }
        lemma_minus_none(init, key);
        assert(keys.last() == keys[keys.len() - 1]);
        assert(init.push(keys.last()) =~= keys);
    } else {
        assert(minus(keys, key) =~= keys);
    }
}

proof fn lemma_minus_one(keys: Seq<Seq<char>>, i: int)
    requires
        keys.no_duplicates(),
        0 <= i < keys.len(),
    ensures
        minus(keys, keys[i]) == keys.remove(i),
    decreases keys.len(),
{
    let key = keys[i];
    let init = keys.drop_last();
    if i == keys.len() - 1 {
        assert forall|j: int| 0 <= j < init.len() implies #[trigger] init[j] != key by {
            assert(init[j] == keys[j]);
        }
        lemma_minus_none(init, key);
        assert(keys.remove(i) =~= init);
    } else {
        assert(init.no_duplicates()) by {
            assert forall|a: int, b: int|
                0 <= a < init.len() && 0 <= b < init.len() && a != b implies init[a] != init[b] by {
                assert(init[a] == keys[a] && init[b] == keys[b]);
            }
        }
        assert(init[i] == key);
        lemma_minus_one(init, i);
        assert(keys.last() == keys[keys.len() - 1]);
        assert(keys.last() != key);
        assert(keys.remove(i) =~= init.remove(i).push(keys.last()));
    }
}

/// A map and a list of its names without repetition have the same size.
proof fn lemma_size<T>(m: Map<Seq<char>, T>, names: Seq<Seq<char>>)
    requires
        names.no_duplicates(),
        forall|k: Seq<char>| #[trigger] m.contains_key(k) <==> names.contains(k),
    ensures
        m.len() == names.len(),
        m.dom().finite(),
{
    names.unique_seq_to_set();
    assert(m.dom() =~= names.to_set());
}

impl<T> SessionRegistry<T> {
    #[verifier::type_invariant]
    spec fn filed(self) -> bool {
        self.entries.filed()
    }

    /// How many entries are kept.
    pub closed spec fn limit(&self) -> int {
        self.max as int
    }

    /// A registry that keeps `max` entries, and always the one that was set last.
    pub fn new(max: usize) -> (r: Self)
        ensures
            r@ == Seq::<(Seq<char>, T)>::empty(),
            r.limit() == max,
    {
        let entries = Entries { sessions: StringHashMap::new(), order: VecDeque::new() };
        proof {
            assert(entries.keys() =~= Seq::empty());
        }
        let r = SessionRegistry { entries, max };
        proof {
            assert(r@ =~= Seq::empty());
        }
        r
    }

    /// The number of entries; no name occurs twice.
    pub fn len(&self) -> (n: usize)
        ensures
            n == self@.len(),
            names_unique(self@),
    {
        proof {
            use_type_invariant(self);
            self.entries.lemma_listed();
        }
        self.entries.order.len()
    }

    /// Sets an entry and makes it the most recently used. Those used least recently go first
    /// until the limit leaves room; an entry of the same name counts until it is replaced.
    pub fn insert(&mut self, key: String, value: T)
        ensures
            final(self)@ == inserted(old(self)@, key@, value, old(self).limit()),
            final(self).limit() == old(self).limit(),
    {
        proof {
            use_type_invariant(&*self);
        }
        let mut entries: Entries<T> = Entries {
            sessions: StringHashMap::new(),
            order: VecDeque::new(),
        };
        proof {
            assert(entries.keys() =~= Seq::empty());
        }
        std::mem::swap(&mut entries, &mut self.entries);
        let ghost before = entries;
        let ghost list = before.listed();
        let ghost others = without(list, key@);
        let ghost rest = minus(before.keys(), key@);
        proof {
            before.lemma_listed();
            lemma_without(list, key@);
            lemma_size(before.sessions@, before.keys());
        }
        let max: usize = self.max;
        entries.remove_order_entry(key.as_str());
        proof {
            if before.keys().contains(key@) {
                let i = before.keys().index_of(key@);
                lemma_minus_one(before.keys(), i);
                assert(list[i].0 == key@);
                assert(others == list.remove(i));
                assert(rest == before.keys().remove(i));
                assert forall|j: int| 0 <= j < rest.len() implies #[trigger] rest[j] == others[j].0
                    && others[j].1 == before.sessions@[rest[j]] by {
                    let a = if j < i { j } else { j + 1 };
                    assert(rest[j] == before.keys()[a]);
                    assert(others[j] == list[a]);
                }
            } else {
                assert forall|j: int| 0 <= j < before.keys().len() implies #[trigger] before.keys()[j]
                    != key@ by {
                    assert(before.keys().contains(before.keys()[j]));
                }
                lemma_minus_none(before.keys(), key@);
                assert(others == list);
            }
            assert(rest.len() == others.len());
            assert(!rest.contains(key@)) by {
                if rest.contains(key@) {
                    let j = rest.index_of(key@);
                    assert(others[j].0 == key@);
                    assert(holds(others, key@));
                }
            }
            assert(rest.no_duplicates()) by {
                assert forall|a: int, b: int|
                    0 <= a < rest.len() && 0 <= b < rest.len() && a != b implies rest[a]
                    != rest[b] by {
                    assert(others[a].0 == rest[a] && others[b].0 == rest[b]);
                    if a < b {
                        assert(others[a].0 != others[b].0);
                    } else {
                        assert(others[b].0 != others[a].0);
                    }
                }
            }
        }
        let ghost gone: int = 0;
        proof {
            assert(rest.skip(0) =~= rest);
            assert forall|k: Seq<char>| #[trigger] entries.sessions@.contains_key(k) <==> rest.contains(
                k,
            ) || (k == key@ && holds(list, key@)) by {
                assert(before.sessions@.contains_key(k) <==> before.keys().contains(k));
                lemma_minus_contains(before.keys(), key@, k);
            }
        }
        loop
            invariant_except_break
                gone <= evicted(list, key@, max as int),
            invariant
                0 <= gone <= rest.len(),
                entries.keys() == rest.skip(gone),
                rest.no_duplicates(),
                !rest.contains(key@),
                others.len() == rest.len(),
                others == without(list, key@),
                others.len() == list.len() - (if holds(list, key@) { 1int } else { 0int }),
                forall|k: Seq<char>| #[trigger]
                    entries.sessions@.contains_key(k) <==> rest.skip(gone).contains(k) || (k == key@
                        && holds(list, key@)),
                forall|k: Seq<char>| #[trigger]
                    entries.sessions@.contains_key(k) ==> entries.sessions@[k]
                        == before.sessions@[k],
            ensures
                gone == evicted(list, key@, max as int),
            decreases rest.len() - gone,
        {
            proof {
                let left = rest.skip(gone);
                let names = if holds(list, key@) {
                    left.push(key@)
                } else {
                    left
                };
                assert(left.no_duplicates()) by {
                    assert forall|a: int, b: int|
                        0 <= a < left.len() && 0 <= b < left.len() && a != b implies left[a]
                        != left[b] by {
                        assert(left[a] == rest[gone + a] && left[b] == rest[gone + b]);
                    }
                }
                assert forall|j: int| 0 <= j < left.len() implies #[trigger] left[j] != key@ by {
                    assert(rest.contains(rest[gone + j]));
                }
                assert(names.no_duplicates());
                assert forall|k: Seq<char>| #[trigger]
                    entries.sessions@.contains_key(k) <==> names.contains(k) by {
                    if holds(list, key@) {
                        assert(names[left.len() as int] == key@);
                        if left.contains(k) {
                            let j = left.index_of(k);
                            assert(names[j] == k);
                        }
                        if names.contains(k) && k != key@ {
                            let j = names.index_of(k);
                            assert(left[j] == k);
                        }
                    }
                }
                lemma_size(entries.sessions@, names);
            }
            if entries.sessions.len() < max {
                break;
            }
            let ghost left = rest.skip(gone);
            match entries.order.pop_front() {
                None => {
                    proof {
                        assert(left.len() == 0);
                    }
                    break;
                },
                Some(oldest) => {
                    entries.sessions.remove(oldest.as_str());
                    proof {
                        assert(oldest@ == left[0]);
                        assert(entries.keys() =~= left.skip(1));
                        assert(left.skip(1) =~= rest.skip(gone + 1));
                        assert(rest[gone] == oldest@);
                        assert forall|k: Seq<char>| #[trigger]
                            entries.sessions@.contains_key(k) <==> rest.skip(gone + 1).contains(k)
                                || (k == key@ && holds(list, key@)) by {
                            let fewer = rest.skip(gone + 1);
                            if fewer.contains(k) {
                                let j = fewer.index_of(k);
                                assert(left[j + 1] == k);
                                assert(rest[gone + 1 + j] == k);
                                assert(k != oldest@);
                            }
                            if left.contains(k) && k != oldest@ {
                                let j = left.index_of(k);
                                assert(fewer[j - 1] == k);
                            }
                            assert(rest.contains(rest[gone]));
                        }
                        gone = gone + 1;
                    }
                },
            }
        }
        let ghost kept = rest.skip(gone);
        let ghost survivors = entries.sessions@;
        entries.order.push_back(key.clone());
        entries.sessions.insert(key, value);
        proof {
            assert(entries.keys() =~= kept.push(key@));
            assert forall|j: int| 0 <= j < kept.len() implies #[trigger] kept[j] != key@ by {
                assert(rest.contains(rest[gone + j]));
            }
            assert(entries.keys().no_duplicates()) by {
                assert forall|a: int, b: int|
                    0 <= a < b < entries.keys().len() implies entries.keys()[a]
                    != entries.keys()[b] by {
                    if b < kept.len() {
                        assert(kept[a] == rest[gone + a] && kept[b] == rest[gone + b]);
                    }
                }
            }
            assert forall|k: Seq<char>| #[trigger]
                entries.sessions@.contains_key(k) <==> entries.keys().contains(k) by {
                assert(entries.keys()[kept.len() as int] == key@);
                if kept.contains(k) {
                    let j = kept.index_of(k);
                    assert(entries.keys()[j] == k);
                    assert(survivors.contains_key(k));
                }
                if entries.keys().contains(k) && k != key@ {
                    let j = entries.keys().index_of(k);
                    assert(kept[j] == k);
                    assert(survivors.contains_key(k));
                }
            }
            let result = entries.listed();
            let wanted = inserted(list, key@, value, max as int);
            assert(result.len() == wanted.len());
            assert forall|j: int| 0 <= j < result.len() implies result[j] == wanted[j] by {
                if j < kept.len() {
                    assert(entries.keys()[j] == kept[j]);
                    assert(kept[j] == rest[gone + j]);
                    assert(others[gone + j].0 == rest[gone + j]);
                    assert(kept.contains(kept[j]));
                    assert(survivors.contains_key(kept[j]));
                    assert(wanted[j] == others[gone + j]);
                    assert(entries.sessions@[kept[j]] == before.sessions@[kept[j]]);
                }
            }
            assert(result =~= wanted);
        }
        self.entries = entries;
    }
}

impl<T: Clone> SessionRegistry<T> {
    /// A copy of the value of a name, which becomes the most recently used.
    pub fn get(&mut self, key: &str) -> (r: Option<T>)
        ensures
            final(self)@ == touched(old(self)@, key@),
            final(self).limit() == old(self).limit(),
            match r {
                Some(v) => holds(old(self)@, key@) && cloned::<T>(value_of(old(self)@, key@), v),
                None => !holds(old(self)@, key@),
            },
    {
        proof {
            use_type_invariant(&*self);
            self.entries.lemma_listed();
        }
        let value = match self.entries.sessions.get(key) {
            Some(value) => value.clone(),
            None => {
                return None;
            },
        };
        let mut entries: Entries<T> = Entries {
            sessions: StringHashMap::new(),
            order: VecDeque::new(),
        };
        proof {
            assert(entries.keys() =~= Seq::empty());
        }
        std::mem::swap(&mut entries, &mut self.entries);
        let ghost before = entries;
        let ghost list = before.listed();
        entries.remove_order_entry(key);
        entries.order.push_back(key.to_owned());
        proof {
            lemma_without(list, key@);
            let i = before.keys().index_of(key@);
            lemma_minus_one(before.keys(), i);
            let rest = before.keys().remove(i);
            assert(entries.keys() =~= rest.push(key@));
            assert(list[i].0 == key@);
            assert forall|k: Seq<char>| #[trigger]
                entries.sessions@.contains_key(k) <==> entries.keys().contains(k) by {
                assert(before.sessions@.contains_key(k) <==> before.keys().contains(k));
                assert(entries.keys()[rest.len() as int] == key@);
                if before.keys().contains(k) && k != key@ {
                    let j = before.keys().index_of(k);
                    let a = if j < i { j } else { j - 1 };
                    assert(entries.keys()[a] == k);
                }
                if entries.keys().contains(k) && k != key@ {
                    let a = entries.keys().index_of(k);
                    let j = if a < i { a } else { a + 1 };
                    assert(before.keys()[j] == k);
                }
            }
            assert(entries.keys().no_duplicates()) by {
                assert forall|a: int, b: int| 0 <= a < b < entries.keys().len() implies entries.keys()[a]
                    != entries.keys()[b] by {
                    let j = if a < i { a } else { a + 1 };
                    assert(entries.keys()[a] == before.keys()[j]);
                    if b < rest.len() {
                        let m = if b < i { b } else { b + 1 };
                        assert(entries.keys()[b] == before.keys()[m]);
                    }
                }
            }
            let result = entries.listed();
            let wanted = touched(list, key@);
            assert(holds(list, key@));
            assert forall|j: int| 0 <= j < result.len() implies result[j] == wanted[j] by {
                if j < rest.len() {
                    let a = if j < i { j } else { j + 1 };
                    assert(entries.keys()[j] == before.keys()[a]);
                    assert(wanted[j] == list[a]);
                }
            }
            assert(result =~= wanted);
        }
        self.entries = entries;
        Some(value)
    }
}

impl<T> Default for SessionRegistry<T> {
    fn default() -> (r: Self)
        ensures
            r@ == Seq::<(Seq<char>, T)>::empty(),
            r.limit() == MAX_SESSIONS,
    {
        SessionRegistry::new(MAX_SESSIONS)
    }
}

/// The message of a configuration without a warm session.
pub open spec fn no_session_text() -> Seq<char> {
    "no warm session for requested daemon config; query/diff reuse a session only when all daemon-protocol config values match a completed eval or watch"@
}

/// What a daemon keeps: its sessions, each under the key of its configuration. `T` is what
/// stands for a session.
#[verifier::reject_recursive_types(T)]
pub struct DaemonState<T> {
    /// The sessions.
    pub sessions: SessionRegistry<T>,
}

impl<T> Default for DaemonState<T> {
    fn default() -> (r: Self)
        ensures
            r.sessions@ == Seq::<(Seq<char>, T)>::empty(),
            r.sessions.limit() == MAX_SESSIONS,
    {
        DaemonState { sessions: SessionRegistry::default() }
    }
}

impl<T> DaemonState<T> {
    /// Files a new session under its configuration, in place of an earlier one.
    pub fn replace_session(&mut self, config: &Config, session: T) -> (r: Result<(), ErrorChain>)
        ensures
            r is Ok,
            final(self).sessions@ == inserted(
                old(self).sessions@,
                key_text(config@.wire),
                session,
                old(self).sessions.limit(),
            ),
            final(self).sessions.limit() == old(self).sessions.limit(),
    {
        let key = match session_key(config) {
            Ok(key) => key,
            Err(e) => {
                return Err(e);
            },
        };
        self.sessions.insert(key, session);
        Ok(())
    }
}

impl<T: Clone> DaemonState<T> {
    /// The session of a configuration.
    pub fn warm_session(&mut self, config: &Config) -> (r: Result<T, ErrorChain>)
        ensures
            final(self).sessions@ == touched(old(self).sessions@, key_text(config@.wire)),
            final(self).sessions.limit() == old(self).sessions.limit(),
            match r {
                Ok(session) => {
                    &&& holds(old(self).sessions@, key_text(config@.wire))
                    &&& cloned::<T>(
                        value_of(old(self).sessions@, key_text(config@.wire)),
                        session,
                    )
                },
                Err(e) => {
                    &&& !holds(old(self).sessions@, key_text(config@.wire))
                    &&& e@ == seq![no_session_text()]
                },
            },
    {
        let key = match session_key(config) {
            Ok(key) => key,
            Err(e) => {
                return Err(e);
            },
        };
        match self.sessions.get(key.as_str()) {
            Some(session) => Ok(session),
            None => Err(
                ErrorChain::new(
                    "no warm session for requested daemon config; query/diff reuse a session only when all daemon-protocol config values match a completed eval or watch",
                ),
            ),
        }
    }
}

/// A registry never grows beyond its limit, or beyond one entry where the limit is zero; what
/// was set last is always kept.
pub proof fn law_registry_is_bounded<T>(
    entries: Seq<(Seq<char>, T)>,
    key: Seq<char>,
    value: T,
    max: int,
)
    requires
        names_unique(entries),
        max >= 0,
        entries.len() <= max || entries.len() <= 1,
    ensures
        inserted(entries, key, value, max).len() <= max || inserted(entries, key, value, max).len()
            == 1,
        inserted(entries, key, value, max).last() == (key, value),
        names_unique(inserted(entries, key, value, max)),
{
    lemma_without(entries, key);
    let others = without(entries, key);
    let n = evicted(entries, key, max);
    let kept = others.skip(n);
    let out = kept.push((key, value));
    assert forall|i: int, j: int| 0 <= i < j < out.len() implies (#[trigger] out[i]).0 != (
    #[trigger] out[j]).0 by {
        assert(out[i] == others[n + i]);
        if j < kept.len() {
            assert(out[j] == others[n + j]);
        } else if out[i].0 == key {
            assert(holds(others, key));
        }
    }
}

/// Where a new name is set in a full registry, the least recently used entry goes, and only
/// that one.
pub proof fn law_least_recently_used_goes<T>(
    entries: Seq<(Seq<char>, T)>,
    key: Seq<char>,
    value: T,
    max: int,
)
    requires
        names_unique(entries),
        max > 0,
        entries.len() == max,
        !holds(entries, key),
    ensures
        inserted(entries, key, value, max) == entries.skip(1).push((key, value)),
{
    lemma_without(entries, key);
}

/// A use makes an entry the most recently used and changes nothing else.
pub proof fn law_use_moves_to_the_end<T>(entries: Seq<(Seq<char>, T)>, key: Seq<char>)
    requires
        names_unique(entries),
        holds(entries, key),
    ensures
        touched(entries, key).last() == (key, value_of(entries, key)),
        touched(entries, key).len() == entries.len(),
        touched(entries, key).drop_last() == without(entries, key),
{
    lemma_without(entries, key);
    assert(touched(entries, key).drop_last() =~= without(entries, key));
}

proof fn lemma_found<T>(entries: Seq<(Seq<char>, T)>, key: Seq<char>, i: int)
    requires
        names_unique(entries),
        0 <= i < entries.len(),
        entries[i].0 == key,
    ensures
        holds(entries, key),
        value_of(entries, key) == entries[i].1,
        without(entries, key) == entries.remove(i),
{
    lemma_without(entries, key);
    assert(holds(entries, key));
    let j = choose|j: int| 0 <= j < entries.len() && (#[trigger] entries[j]).0 == key;
    if j < i {
        assert(entries[j].0 != entries[i].0);
    } else if i < j {
        assert(entries[i].0 != entries[j].0);
    }
}

/// What is found under a name is what was set under it, and looking it up moves it to the end of
/// the entries and leaves the others in their order; a name that is not there finds nothing and
/// moves nothing.
pub proof fn law_lookups_find_what_was_set<T>(
    entries: Seq<(Seq<char>, T)>,
    key: Seq<char>,
    i: int,
)
    requires
        names_unique(entries),
    ensures
        0 <= i < entries.len() && entries[i].0 == key ==> {
            &&& value_of(entries, key) == entries[i].1
            &&& touched(entries, key) == entries.remove(i).push(entries[i])
        },
        (forall|j: int| 0 <= j < entries.len() ==> (#[trigger] entries[j]).0 != key) ==> touched(
            entries,
            key,
        ) == entries,
{
    if 0 <= i < entries.len() && entries[i].0 == key {
        lemma_found(entries, key, i);
        assert(entries[i] == (key, value_of(entries, key)));
    }
}

/// What is set under a name takes the place of what was there, as the last entry; while there is
/// room nothing else goes, and without room the first of the others do.
pub proof fn law_setting_replaces_and_evicts_the_first<T>(
    entries: Seq<(Seq<char>, T)>,
    key: Seq<char>,
    value: T,
    max: int,
    i: int,
)
    requires
        names_unique(entries),
    ensures
        value_of(inserted(entries, key, value, max), key) == value,
        (forall|j: int| 0 <= j < entries.len() ==> (#[trigger] entries[j]).0 != key) ==> {
            &&& entries.len() < max ==> inserted(entries, key, value, max) == entries.push(
                (key, value),
            )
            &&& 0 < max <= entries.len() ==> inserted(entries, key, value, max) == entries.skip(
                entries.len() + 1 - max,
            ).push((key, value))
        },
        0 <= i < entries.len() && entries[i].0 == key ==> {
            &&& entries.len() < max ==> inserted(entries, key, value, max) == entries.remove(i).push(
                (key, value),
            )
            &&& entries.len() == max && max > 1 ==> inserted(entries, key, value, max)
                == entries.remove(i).skip(1).push((key, value))
        },
{
    lemma_without(entries, key);
    let others = without(entries, key);
    let out = inserted(entries, key, value, max);
    assert(others.skip(0) =~= others);
    if forall|j: int| 0 <= j < entries.len() ==> (#[trigger] entries[j]).0 != key {
        assert(!holds(entries, key));
    }
    if 0 <= i < entries.len() && entries[i].0 == key {
        lemma_found(entries, key, i);
    }
    assert(names_unique(out)) by {
        let n = evicted(entries, key, max);
        assert forall|a: int, b: int| 0 <= a < b < out.len() implies (#[trigger] out[a]).0 != (
        #[trigger] out[b]).0 by {
            assert(out[a] == others[n + a]);
            if b < out.len() - 1 {
                assert(out[b] == others[n + b]);
            } else if out[a].0 == key {
                assert(holds(others, key));
            }
        }
    }
    lemma_found(out, key, out.len() - 1);
}

/// A daemon keeps thirty-two sessions, and says of a configuration that it has none for what
/// would find one.
pub proof fn law_daemons_say_which_sessions_are_reused()
    ensures
        MAX_SESSIONS == 32,
        no_session_text()
            == "no warm session for requested daemon config; query/diff reuse a session only when all daemon-protocol config values match a completed eval or watch"@,
{
}

} // verus!
