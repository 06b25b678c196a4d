//! The workflow output buffer, filled by `Extract` actions and returned to the
//! caller when a workflow completes.
//!
//! Each key maps to an ordered list of extracted values. A key written once
//! has exactly one entry; repeated writes append in order.
use vstd::prelude::*;

use crate::text::{first_idx, lemma_first_idx, lemma_first_idx_props};

verus! {

/// Keys with their value lists, in the order the keys were first written.
pub type Entries = Seq<(Seq<char>, Seq<Seq<char>>)>;

pub open spec fn values_view(v: Seq<String>) -> Seq<Seq<char>> {
    v.map_values(|s: String| s@)
}

pub open spec fn entries_view(v: Seq<(String, Vec<String>)>) -> Entries {
    v.map_values(|p: (String, Vec<String>)| (p.0@, values_view(p.1@)))
}

pub open spec fn key_at(e: Entries, k: Seq<char>) -> spec_fn(int) -> bool {
    |i: int| e[i].0 == k
}

/// Index of the entry for `k`, or `e.len()` when there is none.
pub open spec fn key_index(e: Entries, k: Seq<char>) -> int {
    first_idx(0, e.len() as int, key_at(e, k))
}

/// All values stored under `k`; empty when `k` was never written.
pub open spec fn lookup(e: Entries, k: Seq<char>) -> Seq<Seq<char>> {
    let i = key_index(e, k);
    if 0 <= i < e.len() {
        e[i].1
    } else {
        Seq::empty()
    }
}

pub open spec fn distinct_keys(e: Entries) -> bool {
    forall|i: int, j: int| 0 <= i < j < e.len() ==> #[trigger] e[i].0 != #[trigger] e[j].0
}

/// Every stored key holds at least one value.
pub open spec fn no_empty_lists(e: Entries) -> bool {
    forall|i: int| 0 <= i < e.len() ==> #[trigger] e[i].1.len() > 0
}

/// `vs` appended under `k` (a new key is added at the end, even when `vs` is empty).
pub open spec fn extended(e: Entries, k: Seq<char>, vs: Seq<Seq<char>>) -> Entries {
    let i = key_index(e, k);
    if 0 <= i < e.len() {
        e.update(i, (k, e[i].1 + vs))
    } else {
        e.push((k, vs))
    }
}

/// One value appended under `k`.
pub open spec fn pushed(e: Entries, k: Seq<char>, v: Seq<char>) -> Entries {
    extended(e, k, seq![v])
}

/// The entries of `b` merged into `a`, key by key in the order of `b`.
pub open spec fn merged(a: Entries, b: Entries) -> Entries
    decreases b.len(),
{
    if b.len() == 0 {
        a
    } else {
        extended(merged(a, b.drop_last()), b.last().0, b.last().1)
    }
}

#[derive(Debug)]
pub struct Output {
    entries: Vec<(String, Vec<String>)>,
}

impl View for Output {
    type V = Entries;

    closed spec fn view(&self) -> Entries {
        entries_view(self.entries@)
    }
}

impl Output {
    #[verifier::type_invariant]
    closed spec fn wf(self) -> bool {
        &&& distinct_keys(entries_view(self.entries@))
        &&& no_empty_lists(entries_view(self.entries@))
    }
}

proof fn lemma_key_index(e: Entries, k: Seq<char>)
    ensures
        0 <= key_index(e, k) <= e.len(),
        key_index(e, k) < e.len() ==> e[key_index(e, k)].0 == k,
        key_index(e, k) == e.len() ==> forall|j: int| 0 <= j < e.len() ==> #[trigger] e[j].0 != k,
{
    lemma_first_idx_props(0, e.len() as int, key_at(e, k));
    if key_index(e, k) == e.len() {
        assert forall|j: int| 0 <= j < e.len() implies #[trigger] e[j].0 != k by {
            assert(!key_at(e, k)(j));
        }
    }
}

proof fn lemma_extended_distinct(e: Entries, k: Seq<char>, vs: Seq<Seq<char>>)
    requires
        distinct_keys(e),
    ensures
        distinct_keys(extended(e, k, vs)),
{
    lemma_key_index(e, k);
    let r = extended(e, k, vs);
    assert forall|i: int, j: int| 0 <= i < j < r.len() implies #[trigger] r[i].0 != #[trigger] r[j].0 by {
        if key_index(e, k) == e.len() {
            if j == e.len() {
                assert(e[i].0 != k);
            } else {
                assert(e[i].0 != e[j].0);
            }
        } else {
            assert(e[i].0 != e[j].0);
        }
    }
}

proof fn lemma_extended_no_empty(e: Entries, k: Seq<char>, vs: Seq<Seq<char>>)
    requires
        no_empty_lists(e),
        vs.len() > 0,
    ensures
        no_empty_lists(extended(e, k, vs)),
{
    lemma_key_index(e, k);
    let r = extended(e, k, vs);
    assert forall|i: int| 0 <= i < r.len() implies #[trigger] r[i].1.len() > 0 by {
        if i < e.len() {
            assert(e[i].1.len() > 0);
        }
    }
}

/// Index of the entry for `key` in the stored list.
fn find_entry(entries: &Vec<(String, Vec<String>)>, key: &String) -> (r: usize)
    ensures
        r as int == key_index(entries_view(entries@), key@),
{
    let ghost ev = entries_view(entries@);
    let mut i: usize = 0;
    while i < entries.len()
        invariant
            i <= entries.len(),
            ev == entries_view(entries@),
            forall|j: int| 0 <= j < i ==> #[trigger] ev[j].0 != key@,
        decreases entries.len() - i,
    {
        assert(ev[i as int].0 == entries@[i as int].0@);
        if entries[i].0 == *key {
            proof {
                lemma_first_idx(0, ev.len() as int, key_at(ev, key@), i as int);
            }
            return i;
        }
        i = i + 1;
    }
    proof {
        lemma_first_idx(0, ev.len() as int, key_at(ev, key@), i as int);
    }
    i
}

/// Appends `vs` under `key` in place.
fn extend_entries(entries: &mut Vec<(String, Vec<String>)>, key: String, vs: Vec<String>)
    ensures
        entries_view(final(entries)@) == extended(entries_view(old(entries)@), key@, values_view(vs@)),
{
    let ghost ev = entries_view(entries@);
    let i = find_entry(entries, &key);
    proof {
        lemma_key_index(ev, key@);
    }
    if i < entries.len() {
        let (k, mut old_vs) = entries.remove(i);
        let ghost before_vs = old_vs@;
        let mut vs = vs;
        let ghost added = vs@;
        old_vs.append(&mut vs);
        assert(values_view(old_vs@) =~= values_view(before_vs) + values_view(added));
        entries.insert(i, (k, old_vs));
        proof {
            assert(entries_view(entries@) =~= ev.update(i as int, (key@, ev[i as int].1 + values_view(added))));
        }
    } else {
        entries.push((key, vs));
        proof {
            assert(entries_view(entries@) =~= ev.push((key@, values_view(vs@))));
        }
    }
}

impl Output {
    pub fn new() -> (r: Output)
        ensures
            r@ == Seq::<(Seq<char>, Seq<Seq<char>>)>::empty(),
            distinct_keys(r@),
    {
        let r = Output { entries: Vec::new() };
        assert(r@ =~= Seq::<(Seq<char>, Seq<Seq<char>>)>::empty());
        r
    }

    /// Appends `value` under `key`.
    pub fn push(&mut self, key: &str, value: &str)
        ensures
            final(self)@ == pushed(old(self)@, key@, value@),
            distinct_keys(old(self)@),
            distinct_keys(final(self)@),
    {
        proof {
            use_type_invariant(&*self);
        }
        let mut entries: Vec<(String, Vec<String>)> = Vec::new();
        std::mem::swap(&mut entries, &mut self.entries);
        let ghost ev = entries_view(entries@);
        let mut vs: Vec<String> = Vec::new();
        vs.push(value.to_owned());
        assert(values_view(vs@) =~= seq![value@]);
        extend_entries(&mut entries, key.to_owned(), vs);
        proof {
            lemma_extended_distinct(ev, key@, seq![value@]);
            lemma_extended_no_empty(ev, key@, seq![value@]);
        }
        self.entries = entries;
    }

    /// All values stored under `key`; empty if the key was never written.
    pub fn get(&self, key: &str) -> (r: &[String])
        ensures
            values_view(r@) == lookup(self@, key@),
    {
        let k = key.to_owned();
        let i = find_entry(&self.entries, &k);
        proof {
            lemma_key_index(self@, key@);
        }
        if i < self.entries.len() {
            self.entries[i].1.as_slice()
        } else {
            assert(values_view(Seq::<String>::empty()) =~= Seq::<Seq<char>>::empty());
            &[]
        }
    }

    /// The stored entries, consumed: each key with its values, keys in the
    /// order they were first written.
    pub fn into_map(self) -> (r: Vec<(String, Vec<String>)>)
        ensures
            entries_view(r@) == self@,
    {
        self.entries
    }

    /// The stored entries, keys in the order they were first written.
    pub fn as_map(&self) -> (r: &Vec<(String, Vec<String>)>)
        ensures
            entries_view(r@) == self@,
    {
        &self.entries
    }

    /// Whether nothing was written: no key holds a value.
    pub fn is_empty(&self) -> (r: bool)
        ensures
            r == (self@.len() == 0),
            r == (forall|k: Seq<char>| #[trigger] lookup(self@, k).len() == 0),
    {
        proof {
            use_type_invariant(self);
            let e = self@;
            if e.len() > 0 {
                let k0 = e[0].0;
                lemma_first_idx(0, e.len() as int, key_at(e, k0), 0);
                assert(lookup(e, k0).len() > 0);
            } else {
                assert forall|k: Seq<char>| #[trigger] lookup(e, k).len() == 0 by {
                    lemma_key_index(e, k);
                }
            }
        }
        self.entries.len() == 0
    }

    /// Appends every key's values from `other` under the same key here.
    pub fn merge(&mut self, other: Output)
        ensures
            final(self)@ == merged(old(self)@, other@),
            distinct_keys(old(self)@),
            distinct_keys(other@),
            distinct_keys(final(self)@),
    {
        proof {
            use_type_invariant(&*self);
            use_type_invariant(&other);
        }
        let mut entries: Vec<(String, Vec<String>)> = Vec::new();
        std::mem::swap(&mut entries, &mut self.entries);
        let ghost a = entries_view(entries@);
        let ghost b = other@;
        let mut rest = other.entries;
        let mut i: usize = 0;
        let n = rest.len();
        let ghost restv = entries_view(rest@);
        assert(restv == b);
        while i < n
            invariant
                i <= n,
                n == rest.len(),
                restv == entries_view(rest@),
                restv == b,
                distinct_keys(entries_view(entries@)),
                no_empty_lists(entries_view(entries@)),
                no_empty_lists(b),
                distinct_keys(b),
                entries_view(entries@) == merged(a, b.take(i as int)),
            decreases n - i,
        {
            let (k, vs) = clone_entry(&rest[i]);
            assert(k@ == b[i as int].0 && values_view(vs@) == b[i as int].1);
            let ghost before = entries_view(entries@);
            extend_entries(&mut entries, k, vs);
            proof {
                lemma_extended_distinct(before, b[i as int].0, b[i as int].1);
                assert(b[i as int].1.len() > 0);
                lemma_extended_no_empty(before, b[i as int].0, b[i as int].1);
                assert(b.take(i + 1).drop_last() =~= b.take(i as int));
                assert(b.take(i + 1).last() == b[i as int]);
            }
            i = i + 1;
        }
        assert(b.take(n as int) =~= b);
        self.entries = entries;
    }
}

/// A value-equal copy of an entry.
fn clone_entry(e: &(String, Vec<String>)) -> (r: (String, Vec<String>))
    ensures
        r.0@ == e.0@,
        values_view(r.1@) == values_view(e.1@),
{
    let mut vs: Vec<String> = Vec::new();
    let mut i: usize = 0;
    while i < e.1.len()
        invariant
            i <= e.1.len(),
            values_view(vs@) == values_view(e.1@.take(i as int)),
        decreases e.1.len() - i,
    {
        let ghost before = vs@;
        let c = e.1[i].clone();
        vs.push(c);
        proof {
            assert(e.1@.take(i + 1) =~= e.1@.take(i as int).push(e.1@[i as int]));
            assert(values_view(vs@) =~= values_view(before).push(c@));
            assert(values_view(vs@) =~= values_view(e.1@.take(i + 1)));
        }
        i = i + 1;
    }
    assert(e.1@.take(e.1.len() as int) =~= e.1@);
    (e.0.clone(), vs)
}

impl Clone for Output {
    fn clone(&self) -> (r: Self)
        ensures
            r@ == self@,
    {
        proof {
            use_type_invariant(self);
        }
        let mut entries: Vec<(String, Vec<String>)> = Vec::new();
        let mut i: usize = 0;
        while i < self.entries.len()
            invariant
                i <= self.entries.len(),
                entries_view(entries@) == entries_view(self.entries@).take(i as int),
            decreases self.entries.len() - i,
        {
            let ghost before = entries@;
            let c = clone_entry(&self.entries[i]);
            let ghost cv = (c.0@, values_view(c.1@));
            entries.push(c);
            proof {
                assert(entries_view(entries@) =~= entries_view(before).push(cv));
                assert(cv == entries_view(self.entries@)[i as int]);
                assert(entries_view(entries@) =~= entries_view(self.entries@).take(i + 1));
            }
            i = i + 1;
        }
        assert(entries_view(self.entries@).take(self.entries.len() as int) =~= entries_view(
            self.entries@,
        ));
        Output { entries }
    }
}

// ── Laws ──────────────────────────────────────────────────────────────────────

/// A read gives back what the writes wrote: after `push(k, v)` the values
/// under `k` are the earlier ones followed by `v`; other keys are untouched.
pub proof fn law_get_after_push(e: Entries, k: Seq<char>, v: Seq<char>, k2: Seq<char>)
    requires
        distinct_keys(e),
    ensures
        lookup(pushed(e, k, v), k2) == if k2 == k {
            lookup(e, k).push(v)
        } else {
            lookup(e, k2)
        },
{
    lemma_lookup_extended(e, k, seq![v], k2);
    assert(lookup(e, k) + seq![v] =~= lookup(e, k).push(v));
}

proof fn lemma_lookup_extended(e: Entries, k: Seq<char>, vs: Seq<Seq<char>>, k2: Seq<char>)
    requires
        distinct_keys(e),
    ensures
        lookup(extended(e, k, vs), k2) == if k2 == k {
            lookup(e, k) + vs
        } else {
            lookup(e, k2)
        },
{
    lemma_key_index(e, k);
    lemma_key_index(e, k2);
    lemma_extended_distinct(e, k, vs);
    let r = extended(e, k, vs);
    lemma_key_index(r, k2);
    let i = key_index(e, k);
    let j = key_index(r, k2);
    if k2 == k {
        if i < e.len() {
            lemma_first_idx(0, r.len() as int, key_at(r, k2), i);
        } else {
            lemma_first_idx(0, r.len() as int, key_at(r, k2), e.len() as int);
            assert(Seq::<Seq<char>>::empty() + vs =~= vs);
        }
    } else {
        if j < r.len() {
            assert(r[j].0 == k2);
            if i < e.len() {
                assert(e[j].0 == k2);
                lemma_first_idx(0, e.len() as int, key_at(e, k2), j);
            } else {
                assert(j < e.len());
                lemma_first_idx(0, e.len() as int, key_at(e, k2), j);
            }
        } else {
            assert forall|m: int| 0 <= m < e.len() implies #[trigger] e[m].0 != k2 by {
                assert(r[m].0 != k2);
            }
            lemma_first_idx(0, e.len() as int, key_at(e, k2), e.len() as int);
        }
    }
}

/// Merging appends, key by key: the values under any key after `merge` are
/// this buffer's values followed by the other buffer's.
pub proof fn law_merge_appends(a: Entries, b: Entries, k: Seq<char>)
    requires
        distinct_keys(a),
        distinct_keys(b),
    ensures
        lookup(merged(a, b), k) == lookup(a, k) + lookup(b, k),
    decreases b.len(),
{
    if b.len() == 0 {
        lemma_key_index(b, k);
        assert(lookup(a, k) + Seq::<Seq<char>>::empty() =~= lookup(a, k));
    } else {
        let b0 = b.drop_last();
        assert(distinct_keys(b0));
        law_merge_appends(a, b0, k);
        lemma_merged_distinct(a, b0);
        lemma_lookup_extended(merged(a, b0), b.last().0, b.last().1, k);
        lemma_lookup_drop_last(b, k);
        assert(lookup(a, k) + lookup(b0, k) + b.last().1 =~= lookup(a, k) + (lookup(b0, k)
            + b.last().1));
    }
}

proof fn lemma_merged_distinct(a: Entries, b: Entries)
    requires
        distinct_keys(a),
    ensures
        distinct_keys(merged(a, b)),
    decreases b.len(),
{
    if b.len() > 0 {
        lemma_merged_distinct(a, b.drop_last());
        lemma_extended_distinct(merged(a, b.drop_last()), b.last().0, b.last().1);
    }
}

proof fn lemma_lookup_drop_last(b: Entries, k: Seq<char>)
    requires
        distinct_keys(b),
        b.len() > 0,
    ensures
        lookup(b, k) == if k == b.last().0 {
            lookup(b.drop_last(), k) + b.last().1
        } else {
            lookup(b.drop_last(), k)
        },
{
    let b0 = b.drop_last();
    lemma_key_index(b, k);
    lemma_key_index(b0, k);
    let n = b.len() - 1;
    if k == b.last().0 {
        assert forall|m: int| 0 <= m < b0.len() implies #[trigger] b0[m].0 != k by {
            assert(b[m].0 != b[n].0);
        }
        lemma_first_idx(0, b0.len() as int, key_at(b0, k), b0.len() as int);
        lemma_first_idx(0, b.len() as int, key_at(b, k), n);
        assert(Seq::<Seq<char>>::empty() + b.last().1 =~= b.last().1);
    } else {
        let j = key_index(b0, k);
        if j < b0.len() {
            lemma_first_idx(0, b.len() as int, key_at(b, k), j);
        } else {
            assert forall|m: int| 0 <= m < b.len() implies #[trigger] b[m].0 != k by {
                if m < n {
                    assert(b[m] == b0[m]);
                }
            }
            lemma_first_idx(0, b.len() as int, key_at(b, k), b.len() as int);
        }
    }
}

} // verus!
