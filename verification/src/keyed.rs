//! A small string-keyed table: entries in a vector, no key twice, seen as a
//! `Map` from key text to value.
use vstd::prelude::*;

use crate::text::{chars_of, eq_chars};

verus! {

/// The map the entries stand for: later entries of a key win (with distinct
/// keys there is only one).
pub open spec fn as_map<V>(e: Seq<(String, V)>) -> Map<Seq<char>, V>
    decreases e.len(),
{
    if e.len() == 0 {
        Map::empty()
    } else {
        as_map(e.drop_last()).insert(e.last().0@, e.last().1)
    }
}

pub open spec fn keys_distinct<V>(e: Seq<(String, V)>) -> bool {
    forall|i: int, j: int| 0 <= i < j < e.len() ==> #[trigger] e[i].0@ != #[trigger] e[j].0@
}

pub proof fn lemma_as_map<V>(e: Seq<(String, V)>, k: Seq<char>)
    requires
        keys_distinct(e),
    ensures
        as_map(e).dom().contains(k) <==> exists|i: int| 0 <= i < e.len() && #[trigger] e[i].0@ == k,
        forall|i: int| 0 <= i < e.len() && #[trigger] e[i].0@ == k ==> as_map(e)[k] == e[i].1,
    decreases e.len(),
{
    if e.len() > 0 {
        let p = e.drop_last();
        assert(keys_distinct(p)) by {
            assert forall|i: int, j: int| 0 <= i < j < p.len() implies #[trigger] p[i].0@ != #[trigger] p[j].0@ by {
                assert(p[i] == e[i] && p[j] == e[j]);
            }
        }
        lemma_as_map(p, k);
        if as_map(e).dom().contains(k) && e.last().0@ != k {
            let i = choose|i: int| 0 <= i < p.len() && #[trigger] p[i].0@ == k;
            assert(e[i] == p[i]);
        }
        assert forall|i: int| 0 <= i < e.len() && #[trigger] e[i].0@ == k implies as_map(e)[k] == e[i].1 by {
            if i < e.len() - 1 {
                assert(e[i] == p[i]);
                assert(e.last().0@ != k);
            }
        }
        if exists|i: int| 0 <= i < e.len() && #[trigger] e[i].0@ == k {
            let i = choose|i: int| 0 <= i < e.len() && #[trigger] e[i].0@ == k;
            if i < e.len() - 1 {
                assert(p[i] == e[i]);
            }
        }
    }
}

proof fn lemma_distinct_remove<V>(e: Seq<(String, V)>, i: int)
    requires
        keys_distinct(e),
        0 <= i < e.len(),
    ensures
        keys_distinct(e.remove(i)),
{
    let r = e.remove(i);
    assert forall|a: int, b: int| 0 <= a < b < r.len() implies #[trigger] r[a].0@ != #[trigger] r[b].0@ by {
        let ea = if a < i { a } else { a + 1 };
        let eb = if b < i { b } else { b + 1 };
        assert(r[a] == e[ea] && r[b] == e[eb]);
    }
}

proof fn lemma_as_map_remove<V>(e: Seq<(String, V)>, i: int)
    requires
        keys_distinct(e),
        0 <= i < e.len(),
    ensures
        as_map(e.remove(i)) == as_map(e).remove(e[i].0@),
{
    let r = e.remove(i);
    let k = e[i].0@;
    lemma_distinct_remove(e, i);
    assert forall|k2: Seq<char>| #[trigger] as_map(r).dom().contains(k2) <==> as_map(e).remove(k).dom().contains(k2) by {
        lemma_as_map(r, k2);
        lemma_as_map(e, k2);
        if as_map(r).dom().contains(k2) {
            let a = choose|a: int| 0 <= a < r.len() && #[trigger] r[a].0@ == k2;
            let ea = if a < i { a } else { a + 1 };
            assert(r[a] == e[ea]);
            assert(e[ea].0@ == k2);
            assert(k2 != k);
        }
        if as_map(e).remove(k).dom().contains(k2) {
            let b = choose|b: int| 0 <= b < e.len() && #[trigger] e[b].0@ == k2;
            assert(b != i);
            let rb = if b < i { b } else { b - 1 };
            assert(r[rb] == e[b]);
        }
    }
    assert forall|k2: Seq<char>| #[trigger] as_map(r).dom().contains(k2) implies as_map(r)[k2] == as_map(e).remove(k)[k2] by {
        lemma_as_map(r, k2);
        lemma_as_map(e, k2);
        let a = choose|a: int| 0 <= a < r.len() && #[trigger] r[a].0@ == k2;
        let ea = if a < i { a } else { a + 1 };
        assert(r[a] == e[ea]);
    }
    assert(as_map(r) =~= as_map(e).remove(k));
}

proof fn lemma_as_map_update<V>(e: Seq<(String, V)>, i: int, key: String, v: V)
    requires
        keys_distinct(e),
        0 <= i < e.len(),
        e[i].0@ == key@,
    ensures
        as_map(e.update(i, (key, v))) == as_map(e).insert(key@, v),
        keys_distinct(e.update(i, (key, v))),
{
    let r = e.update(i, (key, v));
    assert(keys_distinct(r)) by {
        assert forall|a: int, b: int| 0 <= a < b < r.len() implies #[trigger] r[a].0@ != #[trigger] r[b].0@ by {
            assert(r[a].0@ == e[a].0@ && r[b].0@ == e[b].0@);
        }
    }
    assert forall|k2: Seq<char>| #[trigger] as_map(r).dom().contains(k2) <==> as_map(e).insert(key@, v).dom().contains(k2) by {
        lemma_as_map(r, k2);
        lemma_as_map(e, k2);
        if as_map(r).dom().contains(k2) {
            let a = choose|a: int| 0 <= a < r.len() && #[trigger] r[a].0@ == k2;
            assert(e[a].0@ == k2);
        }
        if as_map(e).dom().contains(k2) {
            let b = choose|b: int| 0 <= b < e.len() && #[trigger] e[b].0@ == k2;
            assert(r[b].0@ == k2);
        }
        if k2 == key@ {
            assert(r[i].0@ == k2);
        }
    }
    assert forall|k2: Seq<char>| #[trigger] as_map(r).dom().contains(k2) implies as_map(r)[k2] == as_map(e).insert(key@, v)[k2] by {
        lemma_as_map(r, k2);
        lemma_as_map(e, k2);
        let a = choose|a: int| 0 <= a < r.len() && #[trigger] r[a].0@ == k2;
        if a != i {
            assert(r[a] == e[a]);
        }
    }
    assert(as_map(r) =~= as_map(e).insert(key@, v));
}

/// A table from strings to values.
#[derive(Debug)]
pub struct Keyed<V> {
    entries: Vec<(String, V)>,
}

impl<V> View for Keyed<V> {
    type V = Map<Seq<char>, V>;

    closed spec fn view(&self) -> Map<Seq<char>, V> {
        as_map(self.entries@)
    }
}

impl<V> Keyed<V> {
    #[verifier::type_invariant]
    closed spec fn wf(self) -> bool {
        keys_distinct(self.entries@)
    }

    fn find(&self, key: &str) -> (r: usize)
        ensures
            r <= self.entries@.len(),
            r < self.entries@.len() ==> self.entries@[r as int].0@ == key@,
            r == self.entries@.len() ==> forall|j: int| 0 <= j < self.entries@.len() ==> #[trigger] self.entries@[j].0@ != key@,
    {
        let mut i: usize = 0;
        while i < self.entries.len()
            invariant
                i <= self.entries@.len(),
                forall|j: int| 0 <= j < i ==> #[trigger] self.entries@[j].0@ != key@,
            decreases self.entries@.len() - i,
        {
            if eq_chars(&chars_of(self.entries[i].0.as_str()), &chars_of(key)) {
                return i;
            }
            i = i + 1;
        }
        i
    }

    pub fn new() -> (r: Keyed<V>)
        ensures
            r@ == Map::<Seq<char>, V>::empty(),
    {
        Keyed { entries: Vec::new() }
    }

    /// The value stored under `key`.
    pub fn get(&self, key: &str) -> (r: Option<&V>)
        ensures
            match r {
                Some(v) => self@.dom().contains(key@) && *v == self@[key@],
                None => !self@.dom().contains(key@),
            },
    {
        proof {
            use_type_invariant(self);
            lemma_as_map(self.entries@, key@);
        }
        let i = self.find(key);
        if i < self.entries.len() {
            Some(&self.entries[i].1)
        } else {
            None
        }
    }

    pub fn contains(&self, key: &str) -> (r: bool)
        ensures
            r == self@.dom().contains(key@),
    {
        proof {
            use_type_invariant(self);
            lemma_as_map(self.entries@, key@);
        }
        self.find(key) < self.entries.len()
    }

    /// Stores `value` under `key`, replacing what was there.
    pub fn insert(&mut self, key: String, value: V)
        ensures
            final(self)@ == old(self)@.insert(key@, value),
    {
        proof {
            use_type_invariant(&*self);
        }
        let i = self.find(key.as_str());
        let mut entries: Vec<(String, V)> = Vec::new();
        std::mem::swap(&mut entries, &mut self.entries);
        let ghost e = entries@;
        if i < entries.len() {
            proof {
                lemma_as_map_update(e, i as int, key, value);
            }
            entries.set(i, (key, value));
        } else {
            proof {
                assert forall|a: int, b: int| 0 <= a < b < e.push((key, value)).len() implies #[trigger] e.push((key, value))[a].0@
                    != #[trigger] e.push((key, value))[b].0@ by {
                    if b < e.len() {
                        assert(e.push((key, value))[a] == e[a] && e.push((key, value))[b] == e[b]);
                    }
                }
                assert(e.push((key, value)).drop_last() =~= e);
            }
            entries.push((key, value));
        }
        self.entries = entries;
    }

    /// Removes `key`, giving back its value.
    pub fn remove(&mut self, key: &str) -> (r: Option<V>)
        ensures
            final(self)@ == old(self)@.remove(key@),
            match r {
                Some(v) => old(self)@.dom().contains(key@) && v == old(self)@[key@],
                None => !old(self)@.dom().contains(key@),
            },
    {
        proof {
            use_type_invariant(&*self);
            lemma_as_map(self.entries@, key@);
        }
        let i = self.find(key);
        let mut entries: Vec<(String, V)> = Vec::new();
        std::mem::swap(&mut entries, &mut self.entries);
        let ghost e = entries@;
        if i < entries.len() {
            proof {
                lemma_as_map_remove(e, i as int);
                lemma_distinct_remove(e, i as int);
            }
            let (_, v) = entries.remove(i);
            self.entries = entries;
            Some(v)
        } else {
            assert(as_map(e).remove(key@) =~= as_map(e));
            self.entries = entries;
            None
        }
    }

    /// The keys, each once.
    pub fn keys(&self) -> (r: Vec<String>)
        ensures
            forall|k: Seq<char>| self@.dom().contains(k) <==> exists|i: int| 0 <= i < r@.len() && #[trigger] r@[i]@ == k,
            forall|i: int, j: int| 0 <= i < j < r@.len() ==> #[trigger] r@[i]@ != #[trigger] r@[j]@,
    {
        proof {
            use_type_invariant(self);
        }
        let mut out: Vec<String> = Vec::new();
        let mut i: usize = 0;
        while i < self.entries.len()
            invariant
                i <= self.entries@.len(),
                out@.len() == i,
                forall|j: int| 0 <= j < i ==> #[trigger] out@[j]@ == self.entries@[j].0@,
            decreases self.entries@.len() - i,
        {
            out.push(self.entries[i].0.clone());
            i = i + 1;
        }
        proof {
            assert forall|k: Seq<char>| self@.dom().contains(k) <==> exists|i: int| 0 <= i < out@.len() && #[trigger] out@[i]@ == k by {
                lemma_as_map(self.entries@, k);
                if self@.dom().contains(k) {
                    let j = choose|j: int| 0 <= j < self.entries@.len() && #[trigger] self.entries@[j].0@ == k;
                    assert(out@[j]@ == k);
                }
                if exists|i: int| 0 <= i < out@.len() && #[trigger] out@[i]@ == k {
                    let j = choose|j: int| 0 <= j < out@.len() && #[trigger] out@[j]@ == k;
                    assert(self.entries@[j].0@ == k);
                }
            }
            assert forall|a: int, b: int| 0 <= a < b < out@.len() implies #[trigger] out@[a]@ != #[trigger] out@[b]@ by {
                assert(out@[a]@ == self.entries@[a].0@);
                assert(out@[b]@ == self.entries@[b].0@);
            }
        }
        out
    }

    /// The number of keys.
    pub fn len(&self) -> (r: usize)
        ensures
            r == self@.dom().len(),
    {
        proof {
            use_type_invariant(self);
            lemma_len(self.entries@);
        }
        self.entries.len()
    }
}

proof fn lemma_len<V>(e: Seq<(String, V)>)
    requires
        keys_distinct(e),
    ensures
        as_map(e).dom().finite(),
        as_map(e).dom().len() == e.len(),
    decreases e.len(),
{
    if e.len() > 0 {
        let p = e.drop_last();
        assert(keys_distinct(p)) by {
            assert forall|i: int, j: int| 0 <= i < j < p.len() implies #[trigger] p[i].0@ != #[trigger] p[j].0@ by {
                assert(p[i] == e[i] && p[j] == e[j]);
            }
        }
        lemma_len(p);
        lemma_as_map(p, e.last().0@);
        if as_map(p).dom().contains(e.last().0@) {
            let i = choose|i: int| 0 <= i < p.len() && #[trigger] p[i].0@ == e.last().0@;
            assert(e[i] == p[i]);
        }
    }
}

} // verus!
