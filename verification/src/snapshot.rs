//! Point-in-time snapshots of an element and its child tree, rendered as
//! text and compared to report what changed.
//!
//! Siblings are matched by `(role, name)`, which stays stable when elements
//! are inserted or removed; siblings sharing a key are matched by position
//! within the key. Each change is one line, for example:
//!
//! ```text
//! dom: notepad: ADDED [menu "Format"]
//! dom: notepad > [window "Untitled - Notepad"]: name "Untitled - Notepad" → "*Untitled - Notepad"
//! dom: notepad: REMOVED [menu "Format"]
//! ```
use vstd::prelude::*;

use crate::text::{
    append, chars_lt, chars_of, chars_seqs, debug_quoted, debug_str, decimal, decimal_string, eq_chars,
    less_chars, string_of, strings_seqs, lemma_chars_lt_irrefl, lemma_chars_lt_total, lemma_chars_lt_trans,
};

verus! {

/// Depth to which the tree is snapshotted when it is synchronised.
pub const SNAP_DEPTH: usize = 2;

/// One element of a snapshot.
#[derive(Debug)]
pub struct SnapNode {
    pub role: String,
    pub name: String,
    /// Text content, kept for `text` elements, whose text may say more than
    /// their name.
    pub text: Option<String>,
    pub children: Vec<SnapNode>,
}

// ── Rendering ─────────────────────────────────────────────────────────────────

/// `[role]`, or `[role "name"]` with the name quoted as `Debug` quotes it.
pub open spec fn elem_label(role: Seq<char>, name: Seq<char>) -> Seq<char> {
    if name.len() == 0 {
        "["@ + role + "]"@
    } else {
        "["@ + role + " "@ + debug_quoted(name) + "]"@
    }
}

/// Two spaces per level.
pub open spec fn indent_text(n: nat) -> Seq<char>
    decreases n,
{
    if n == 0 {
        Seq::empty()
    } else {
        indent_text((n - 1) as nat) + "  "@
    }
}

/// A node's own line: its label, and its text when that says more than its name.
pub open spec fn node_line(n: SnapNode, indent: nat) -> Seq<char> {
    let label = elem_label(n.role@, n.name@);
    match n.text {
        Some(t) if t@.len() > 0 && t@ != n.name@ => indent_text(indent) + label + ": "@ + debug_quoted(t@),
        _ => indent_text(indent) + label,
    }
}

/// A node and its subtree, one line each, children indented one level deeper.
pub open spec fn tree_text(n: SnapNode, indent: nat) -> Seq<char>
    decreases n, 1nat,
{
    proof {
        assert(decreases_to!(n => n.children@)) by {
            assert(decreases_to!(n => n.children));
            assert(decreases_to!(n.children => n.children@));
        }
    }
    node_line(n, indent) + children_text(n.children@, indent + 1, n.children@.len())
}

/// The first `k` subtrees of `cs`, each on a new line.
pub open spec fn children_text(cs: Seq<SnapNode>, indent: nat, k: nat) -> Seq<char>
    decreases cs, k,
{
    if k == 0 || k > cs.len() {
        Seq::empty()
    } else {
        children_text(cs, indent, (k - 1) as nat) + "\n"@ + tree_text(cs[k - 1], indent)
    }
}

/// How deep the tree under `n` goes (1 for a leaf).
pub open spec fn tree_depth(n: SnapNode) -> nat
    decreases n, 1nat,
{
    proof {
        assert(decreases_to!(n => n.children@)) by {
            assert(decreases_to!(n => n.children));
            assert(decreases_to!(n.children => n.children@));
        }
    }
    1 + children_depth(n.children@, n.children@.len())
}

pub open spec fn children_depth(cs: Seq<SnapNode>, k: nat) -> nat
    decreases cs, k,
{
    if k == 0 || k > cs.len() {
        0
    } else {
        let a = children_depth(cs, (k - 1) as nat);
        let b = tree_depth(cs[k - 1]);
        if a < b {
            b
        } else {
            a
        }
    }
}

proof fn lemma_children_depth(cs: Seq<SnapNode>, k: nat, i: int)
    requires
        k <= cs.len(),
        0 <= i < k,
    ensures
        tree_depth(cs[i]) <= children_depth(cs, k),
    decreases k,
{
    if i < k - 1 {
        lemma_children_depth(cs, (k - 1) as nat, i);
    }
}

fn elem_label_exec(role: &str, name: &str) -> (r: Vec<char>)
    ensures
        r@ == elem_label(role@, name@),
{
    let mut v = chars_of("[");
    append(&mut v, &chars_of(role));
    let nc = chars_of(name);
    if nc.len() == 0 {
        append(&mut v, &chars_of("]"));
    } else {
        append(&mut v, &chars_of(" "));
        let q = debug_str(name);
        append(&mut v, &chars_of(q.as_str()));
        append(&mut v, &chars_of("]"));
    }
    v
}

impl SnapNode {
    /// This node and its subtree as indented text.
    pub fn format_tree(&self, indent: usize) -> (r: String)
        requires
            indent + tree_depth(*self) <= usize::MAX,
        ensures
            r@ == tree_text(*self, indent as nat),
        decreases *self,
    {
        let mut v: Vec<char> = Vec::new();
        let mut k: usize = 0;
        while k < indent
            invariant
                k <= indent,
                v@ == indent_text(k as nat),
            decreases indent - k,
        {
            append(&mut v, &chars_of("  "));
            k = k + 1;
        }
        append(&mut v, &elem_label_exec(self.role.as_str(), self.name.as_str()));
        match &self.text {
            Some(t) => {
                let tc = chars_of(t.as_str());
                if tc.len() > 0 && !eq_chars(&tc, &chars_of(self.name.as_str())) {
                    append(&mut v, &chars_of(": "));
                    let q = debug_str(t.as_str());
                    append(&mut v, &chars_of(q.as_str()));
                }
            },
            None => {},
        }
        let ghost cs = self.children@;
        let mut i: usize = 0;
        proof {
            assert(decreases_to!(*self => self.children@)) by {
                assert(decreases_to!(*self => self.children));
                assert(decreases_to!(self.children => self.children@));
            }
        }
        while i < self.children.len()
            invariant
                i <= cs.len(),
                cs == self.children@,
                indent + tree_depth(*self) <= usize::MAX,
                tree_depth(*self) == 1 + children_depth(cs, cs.len()),
                decreases_to!(*self => self.children@),
                v@ == node_line(*self, indent as nat) + children_text(cs, (indent + 1) as nat, i as nat),
            decreases cs.len() - i,
        {
            proof {
                lemma_children_depth(cs, cs.len(), i as int);
                assert(decreases_to!(self.children@ => self.children@[i as int]));
            }
            append(&mut v, &chars_of("\n"));
            let sub = self.children[i].format_tree(indent + 1);
            append(&mut v, &chars_of(sub.as_str()));
            i = i + 1;
        }
        string_of(&v)
    }
}


// ── Comparing ─────────────────────────────────────────────────────────────────

/// The identity of a sibling: its role and name.
pub type Key = (Seq<char>, Seq<char>);

pub open spec fn key_of(n: SnapNode) -> Key {
    (n.role@, n.name@)
}

/// The order of `(role, name)` pairs: by role, then by name.
pub open spec fn key_lt(a: Key, b: Key) -> bool {
    chars_lt(a.0, b.0) || (a.0 == b.0 && chars_lt(a.1, b.1))
}

pub open spec fn insert_key(ks: Seq<Key>, k: Key) -> Seq<Key>
    decreases ks.len(),
{
    if ks.len() == 0 {
        seq![k]
    } else if ks[0] == k {
        ks
    } else if key_lt(k, ks[0]) {
        seq![k] + ks
    } else {
        seq![ks[0]] + insert_key(ks.skip(1), k)
    }
}

/// The distinct keys of `s`, in order.
pub open spec fn sorted_keys(s: Seq<SnapNode>) -> Seq<Key>
    decreases s.len(),
{
    if s.len() == 0 {
        Seq::empty()
    } else {
        insert_key(sorted_keys(s.drop_last()), key_of(s.last()))
    }
}

/// The positions in `s` of the nodes with key `k`, in order.
pub open spec fn group(s: Seq<SnapNode>, k: Key) -> Seq<int>
    decreases s.len(),
{
    if s.len() == 0 {
        Seq::empty()
    } else {
        group(s.drop_last(), k) + if key_of(s.last()) == k {
            seq![s.len() - 1]
        } else {
            Seq::empty()
        }
    }
}

pub open spec fn min_nat(a: nat, b: nat) -> nat {
    if a < b {
        a
    } else {
        b
    }
}

/// Path of the `i`-th of `m` matched children with label `label`.
pub open spec fn child_path(parent: Seq<char>, label: Seq<char>, m: nat, i: nat) -> Seq<char> {
    if m > 1 {
        parent + " > "@ + label + "["@ + decimal(i) + "]"@
    } else {
        parent + " > "@ + label
    }
}

/// Path of the `i`-th of `c` changed children of role `role`.
pub open spec fn role_path(parent: Seq<char>, role: Seq<char>, c: nat, i: nat) -> Seq<char> {
    if c > 1 {
        parent + " > ["@ + role + "]["@ + decimal(i) + "]"@
    } else {
        parent + " > ["@ + role + "]"@
    }
}

/// An optional text as `Debug` writes it.
pub open spec fn debug_option(o: Option<String>) -> Seq<char> {
    match o {
        Some(s) => "Some("@ + debug_quoted(s@) + ")"@,
        None => "None"@,
    }
}

pub open spec fn opt_text(o: Option<String>) -> Option<Seq<char>> {
    match o {
        Some(s) => Some(s@),
        None => None,
    }
}

/// The lines about the node itself: a changed name, and a changed text
/// unless the text merely mirrors the name on both sides.
pub open spec fn own_lines(o: SnapNode, n: SnapNode, path: Seq<char>) -> Seq<Seq<char>> {
    (if o.name@ != n.name@ {
        seq!["dom: "@ + path + ": name "@ + debug_quoted(o.name@) + " → "@ + debug_quoted(n.name@)]
    } else {
        Seq::empty()
    }) + if opt_text(o.text) != opt_text(n.text) && !(opt_text(o.text) == Some(o.name@) && opt_text(n.text)
        == Some(n.name@)) {
        seq!["dom: "@ + path + ": text "@ + debug_option(o.text) + " → "@ + debug_option(n.text)]
    } else {
        Seq::empty()
    }
}

/// What changed from `o` to `n`, `path` naming `o`.
pub open spec fn node_diff(o: SnapNode, n: SnapNode, path: Seq<char>) -> Seq<Seq<char>>
    decreases o, 0nat, 0nat,
{
    proof {
        assert(decreases_to!(o => o.children@)) by {
            assert(decreases_to!(o => o.children));
            assert(decreases_to!(o.children => o.children@));
        }
    }
    own_lines(o, n, path) + list_diff(path, o.children@, n.children@)
}

/// The positions of `old`'s nodes left without a partner, for keys with
/// role `role` among the first `t` keys, in key order.
pub open spec fn orphans(a: Seq<SnapNode>, b: Seq<SnapNode>, keys: Seq<Key>, role: Seq<char>, t: nat) -> Seq<int>
    decreases t,
{
    if t == 0 || t > keys.len() {
        Seq::empty()
    } else {
        orphans(a, b, keys, role, (t - 1) as nat) + if keys[t - 1].0 == role && group(b, keys[t - 1]).len()
            < group(a, keys[t - 1]).len() {
            group(a, keys[t - 1]).skip(group(b, keys[t - 1]).len() as int)
        } else {
            Seq::empty()
        }
    }
}

/// The roles that have partnerless nodes on either side, in order.
pub open spec fn orphan_roles(old: Seq<SnapNode>, new: Seq<SnapNode>, keys: Seq<Key>, t: nat) -> Seq<Seq<char>>
    decreases t,
{
    if t == 0 || t > keys.len() {
        Seq::empty()
    } else {
        let prev = orphan_roles(old, new, keys, (t - 1) as nat);
        if group(old, keys[t - 1]).len() != group(new, keys[t - 1]).len() {
            crate::text::insert_sorted(prev, keys[t - 1].0)
        } else {
            prev
        }
    }
}

/// What changed between two child lists, `parent` naming their parent.
pub open spec fn list_diff(parent: Seq<char>, old: Seq<SnapNode>, new: Seq<SnapNode>) -> Seq<Seq<char>>
    decreases old, 3nat, 0nat,
{
    let keys = sorted_keys(old + new);
    let roles = orphan_roles(old, new, keys, keys.len());
    matched_lines(parent, old, new, keys, keys.len()) + role_lines(parent, old, new, keys, roles, roles.len())
}

/// The changes inside the matched pairs of the first `t` keys.
pub open spec fn matched_lines(parent: Seq<char>, old: Seq<SnapNode>, new: Seq<SnapNode>, keys: Seq<Key>, t: nat) -> Seq<
    Seq<char>,
>
    decreases old, 2nat, t,
{
    if t == 0 || t > keys.len() {
        Seq::empty()
    } else {
        let k = keys[t - 1];
        let m = min_nat(group(old, k).len(), group(new, k).len());
        matched_lines(parent, old, new, keys, (t - 1) as nat) + pair_lines(parent, old, new, k, m, m)
    }
}

/// The changes inside the first `j` of the `m` pairs of key `k`.
pub open spec fn pair_lines(parent: Seq<char>, old: Seq<SnapNode>, new: Seq<SnapNode>, k: Key, m: nat, j: nat) -> Seq<
    Seq<char>,
>
    decreases old, 1nat, j,
{
    let go = group(old, k);
    let gn = group(new, k);
    if j == 0 || j > m || j > go.len() || j > gn.len() {
        Seq::empty()
    } else {
        let a = go[j - 1];
        let b = gn[j - 1];
        if 0 <= a < old.len() && 0 <= b < new.len() {
            proof {
                assert(decreases_to!(old => old[a]));
            }
            pair_lines(parent, old, new, k, m, (j - 1) as nat) + node_diff(
                old[a],
                new[b],
                child_path(parent, elem_label(k.0, k.1), m, (j - 1) as nat),
            )
        } else {
            Seq::empty()
        }
    }
}

/// For the first `t` roles: the changed pairs, then the removed and the added nodes.
pub open spec fn role_lines(
    parent: Seq<char>,
    old: Seq<SnapNode>,
    new: Seq<SnapNode>,
    keys: Seq<Key>,
    roles: Seq<Seq<char>>,
    t: nat,
) -> Seq<Seq<char>>
    decreases old, 2nat, t,
{
    if t == 0 || t > roles.len() {
        Seq::empty()
    } else {
        let role = roles[t - 1];
        let rm = orphans(old, new, keys, role, keys.len());
        let ad = orphans(new, old, keys, role, keys.len());
        let c = min_nat(rm.len(), ad.len());
        role_lines(parent, old, new, keys, roles, (t - 1) as nat) + changed_lines(parent, old, new, rm, ad, role, c, c)
            + removed_lines(parent, old, rm, c, rm.len()) + added_lines(parent, new, ad, c, ad.len())
    }
}

/// The first `j` of the `c` pairs of a removed and an added node of one role,
/// reported as changed, each followed by the changes inside it.
pub open spec fn changed_lines(
    parent: Seq<char>,
    old: Seq<SnapNode>,
    new: Seq<SnapNode>,
    rm: Seq<int>,
    ad: Seq<int>,
    role: Seq<char>,
    c: nat,
    j: nat,
) -> Seq<Seq<char>>
    decreases old, 1nat, j,
{
    if j == 0 || j > c || j > rm.len() || j > ad.len() {
        Seq::empty()
    } else {
        let a = rm[j - 1];
        let b = ad[j - 1];
        if 0 <= a < old.len() && 0 <= b < new.len() {
            proof {
                assert(decreases_to!(old => old[a].children@)) by {
                    assert(decreases_to!(old => old[a]));
                    assert(decreases_to!(old[a] => old[a].children));
                    assert(decreases_to!(old[a].children => old[a].children@));
                }
            }
            changed_lines(parent, old, new, rm, ad, role, c, (j - 1) as nat) + seq![
                "dom: "@ + parent + ": CHANGED "@ + elem_label(old[a].role@, old[a].name@) + " → "@ + elem_label(
                    new[b].role@,
                    new[b].name@,
                ),
            ] + list_diff(role_path(parent, role, c, (j - 1) as nat), old[a].children@, new[b].children@)
        } else {
            Seq::empty()
        }
    }
}

/// The removed nodes past the first `c`, up to the `j`-th.
pub open spec fn removed_lines(parent: Seq<char>, old: Seq<SnapNode>, rm: Seq<int>, c: nat, j: nat) -> Seq<Seq<char>>
    decreases j,
{
    if j <= c || j > rm.len() {
        Seq::empty()
    } else {
        removed_lines(parent, old, rm, c, (j - 1) as nat) + seq![
            "dom: "@ + parent + ": REMOVED "@ + elem_label(old[rm[j - 1]].role@, old[rm[j - 1]].name@),
        ]
    }
}

/// The added nodes past the first `c`, up to the `j`-th, each with its subtree.
pub open spec fn added_lines(parent: Seq<char>, new: Seq<SnapNode>, ad: Seq<int>, c: nat, j: nat) -> Seq<Seq<char>>
    decreases j,
{
    if j <= c || j > ad.len() {
        Seq::empty()
    } else {
        added_lines(parent, new, ad, c, (j - 1) as nat) + seq![
            "dom: "@ + parent + ": ADDED\n"@ + tree_text(new[ad[j - 1]], 0),
        ]
    }
}


// ── Comparing: implementation ─────────────────────────────────────────────────

pub open spec fn keys_view(v: Seq<(Vec<char>, Vec<char>)>) -> Seq<Key> {
    v.map_values(|k: (Vec<char>, Vec<char>)| (k.0@, k.1@))
}

pub open spec fn idx_view(v: Seq<usize>) -> Seq<int> {
    v.map_values(|i: usize| i as int)
}

proof fn lemma_group_bounds(s: Seq<SnapNode>, k: Key)
    ensures
        forall|j: int| 0 <= j < group(s, k).len() ==> 0 <= #[trigger] group(s, k)[j] < s.len(),
        group(s, k).len() <= s.len(),
    decreases s.len(),
{
    if s.len() > 0 {
        lemma_group_bounds(s.drop_last(), k);
    }
}

proof fn lemma_orphans_bounds(a: Seq<SnapNode>, b: Seq<SnapNode>, keys: Seq<Key>, role: Seq<char>, t: nat)
    ensures
        forall|j: int| 0 <= j < orphans(a, b, keys, role, t).len() ==> 0 <= #[trigger] orphans(a, b, keys, role, t)[j]
            < a.len(),
    decreases t,
{
    if t > 0 && t <= keys.len() {
        lemma_orphans_bounds(a, b, keys, role, (t - 1) as nat);
        lemma_group_bounds(a, keys[t - 1]);
        let prev = orphans(a, b, keys, role, (t - 1) as nat);
        let g = group(a, keys[t - 1]);
        let gb = group(b, keys[t - 1]);
        let add = if keys[t - 1].0 == role && gb.len() < g.len() {
            g.skip(gb.len() as int)
        } else {
            Seq::empty()
        };
        assert forall|j: int| 0 <= j < (prev + add).len() implies 0 <= #[trigger] (prev + add)[j] < a.len() by {
            if j >= prev.len() && keys[t - 1].0 == role && gb.len() < g.len() {
                assert(add[j - prev.len()] == g[gb.len() + (j - prev.len())]);
            }
        }
    }
}

fn key_less(a: &(Vec<char>, Vec<char>), b: &(Vec<char>, Vec<char>)) -> (r: bool)
    ensures
        r == key_lt((a.0@, a.1@), (b.0@, b.1@)),
{
    less_chars(&a.0, &b.0) || (eq_chars(&a.0, &b.0) && less_chars(&a.1, &b.1))
}

fn key_eq(a: &(Vec<char>, Vec<char>), b: &(Vec<char>, Vec<char>)) -> (r: bool)
    ensures
        r == ((a.0@, a.1@) == (b.0@, b.1@)),
{
    eq_chars(&a.0, &b.0) && eq_chars(&a.1, &b.1)
}

fn insert_key_exec(ks: Vec<(Vec<char>, Vec<char>)>, k: (Vec<char>, Vec<char>)) -> (r: Vec<(Vec<char>, Vec<char>)>)
    ensures
        keys_view(r@) == insert_key(keys_view(ks@), (k.0@, k.1@)),
{
    let ghost orig = keys_view(ks@);
    let ghost kv = (k.0@, k.1@);
    let mut i: usize = 0;
    assert(orig.take(0) + insert_key(orig.skip(0), kv) =~= insert_key(orig, kv)) by {
        assert(orig.skip(0) =~= orig);
    }
    while i < ks.len() && !key_eq(&ks[i], &k) && !key_less(&k, &ks[i])
        invariant
            i <= ks@.len(),
            orig == keys_view(ks@),
            kv == (k.0@, k.1@),
            insert_key(orig, kv) == orig.take(i as int) + insert_key(orig.skip(i as int), kv),
        decreases ks@.len() - i,
    {
        proof {
            let rest = orig.skip(i as int);
            assert(rest[0] == orig[i as int]);
            assert(rest.skip(1) =~= orig.skip(i + 1));
            assert(orig.take(i + 1) =~= orig.take(i as int) + seq![rest[0]]);
        }
        i += 1;
    }
    proof {
        if i < ks@.len() {
            assert(orig.skip(i as int)[0] == orig[i as int]);
        } else {
            assert(orig.skip(i as int) =~= Seq::<Key>::empty());
        }
        assert(orig.take(i as int) + orig.skip(i as int) =~= orig);
    }
    if i < ks.len() && key_eq(&ks[i], &k) {
        return ks;
    }
    let mut r = ks;
    r.insert(i, k);
    proof {
        assert(keys_view(r@) =~= orig.take(i as int) + seq![kv] + orig.skip(i as int));
        if i == ks@.len() {
            assert(orig.skip(i as int) =~= Seq::<Key>::empty());
            assert(insert_key(orig.skip(i as int), kv) =~= seq![kv]);
        }
    }
    r
}

fn key_of_exec(n: &SnapNode) -> (r: (Vec<char>, Vec<char>))
    ensures
        (r.0@, r.1@) == key_of(*n),
{
    (chars_of(n.role.as_str()), chars_of(n.name.as_str()))
}

/// The distinct keys of `old` then `new`, in order.
fn sorted_keys_exec(old: &Vec<SnapNode>, new: &Vec<SnapNode>) -> (r: Vec<(Vec<char>, Vec<char>)>)
    ensures
        keys_view(r@) == sorted_keys(old@ + new@),
{
    let ghost all = old@ + new@;
    let mut ks: Vec<(Vec<char>, Vec<char>)> = Vec::new();
    let mut i: usize = 0;
    assert(all.take(0) =~= Seq::<SnapNode>::empty());
    while i < old.len()
        invariant
            i <= old@.len(),
            all == old@ + new@,
            keys_view(ks@) == sorted_keys(all.take(i as int)),
        decreases old@.len() - i,
    {
        assert(all.take(i + 1).drop_last() =~= all.take(i as int));
        assert(all.take(i + 1).last() == old@[i as int]);
        ks = insert_key_exec(ks, key_of_exec(&old[i]));
        i += 1;
    }
    let mut j: usize = 0;
    while j < new.len()
        invariant
            j <= new@.len(),
            all == old@ + new@,
            keys_view(ks@) == sorted_keys(all.take(old@.len() + j)),
        decreases new@.len() - j,
    {
        assert(all.take(old@.len() + j + 1).drop_last() =~= all.take(old@.len() + j));
        assert(all.take(old@.len() + j + 1).last() == new@[j as int]);
        ks = insert_key_exec(ks, key_of_exec(&new[j]));
        j += 1;
    }
    assert(all.take(old@.len() + j) =~= all);
    ks
}

fn group_exec(s: &Vec<SnapNode>, k: &(Vec<char>, Vec<char>)) -> (r: Vec<usize>)
    ensures
        idx_view(r@) == group(s@, (k.0@, k.1@)),
{
    let ghost kv = (k.0@, k.1@);
    let mut r: Vec<usize> = Vec::new();
    let mut i: usize = 0;
    assert(s@.take(0) =~= Seq::<SnapNode>::empty());
    while i < s.len()
        invariant
            i <= s@.len(),
            kv == (k.0@, k.1@),
            idx_view(r@) == group(s@.take(i as int), kv),
        decreases s@.len() - i,
    {
        assert(s@.take(i + 1).drop_last() =~= s@.take(i as int));
        assert(s@.take(i + 1).last() == s@[i as int]);
        let ghost before = r@;
        if key_eq(&key_of_exec(&s[i]), k) {
            r.push(i);
            assert(idx_view(r@) =~= idx_view(before) + seq![i as int]);
        } else {
            assert(idx_view(r@) =~= idx_view(before) + Seq::<int>::empty());
        }
        i += 1;
    }
    assert(s@.take(i as int) =~= s@);
    r
}

fn orphans_exec(a: &Vec<SnapNode>, b: &Vec<SnapNode>, keys: &Vec<(Vec<char>, Vec<char>)>, role: &Vec<char>) -> (r: Vec<usize>)
    ensures
        idx_view(r@) == orphans(a@, b@, keys_view(keys@), role@, keys@.len() as nat),
{
    let ghost kv = keys_view(keys@);
    let mut r: Vec<usize> = Vec::new();
    let mut t: usize = 0;
    while t < keys.len()
        invariant
            t <= keys@.len(),
            kv == keys_view(keys@),
            idx_view(r@) == orphans(a@, b@, kv, role@, t as nat),
        decreases keys@.len() - t,
    {
        let ghost before = r@;
        let ghost k = kv[t as int];
        let ga = group_exec(a, &keys[t]);
        let gb = group_exec(b, &keys[t]);
        if eq_chars(&keys[t].0, role) && gb.len() < ga.len() {
            let mut j: usize = gb.len();
            assert(idx_view(r@) =~= idx_view(before) + group(a@, k).skip(gb@.len() as int).take(0));
            while j < ga.len()
                invariant
                    gb@.len() <= j <= ga@.len(),
                    idx_view(ga@) == group(a@, k),
                    idx_view(r@) == idx_view(before) + group(a@, k).skip(gb@.len() as int).take(j - gb@.len()),
                decreases ga@.len() - j,
            {
                let ghost mid = r@;
                r.push(ga[j]);
                assert(group(a@, k).skip(gb@.len() as int).take(j + 1 - gb@.len()) =~= group(a@, k).skip(
                    gb@.len() as int,
                ).take(j - gb@.len()).push(ga@[j as int] as int));
                assert(idx_view(r@) =~= idx_view(mid).push(ga@[j as int] as int));
                j += 1;
            }
            assert(group(a@, k).skip(gb@.len() as int).take(ga@.len() - gb@.len()) =~= group(a@, k).skip(
                gb@.len() as int,
            ));
        } else {
            assert(idx_view(r@) =~= idx_view(before) + Seq::<int>::empty());
        }
        t += 1;
    }
    r
}

fn orphan_roles_exec(old: &Vec<SnapNode>, new: &Vec<SnapNode>, keys: &Vec<(Vec<char>, Vec<char>)>) -> (r: Vec<Vec<char>>)
    ensures
        chars_seqs(r@) == orphan_roles(old@, new@, keys_view(keys@), keys@.len() as nat),
{
    let ghost kv = keys_view(keys@);
    let mut r: Vec<Vec<char>> = Vec::new();
    let mut t: usize = 0;
    while t < keys.len()
        invariant
            t <= keys@.len(),
            kv == keys_view(keys@),
            chars_seqs(r@) == orphan_roles(old@, new@, kv, t as nat),
        decreases keys@.len() - t,
    {
        let go = group_exec(old, &keys[t]);
        let gn = group_exec(new, &keys[t]);
        if go.len() != gn.len() {
            let role = crate::text::slice_of(&keys[t].0, 0, keys[t].0.len());
            assert(role@ =~= keys[t as int].0@);
            r = crate::text::insert_sorted_exec(r, role);
        }
        t += 1;
    }
    r
}

fn push_line(out: &mut Vec<String>, line: &Vec<char>)
    ensures
        strings_seqs(final(out)@) == strings_seqs(old(out)@) + seq![line@],
{
    let ghost before = out@;
    out.push(string_of(line));
    assert(strings_seqs(out@) =~= strings_seqs(before) + seq![line@]);
}

fn child_path_exec(parent: &str, label: &Vec<char>, m: usize, i: usize) -> (r: String)
    ensures
        r@ == child_path(parent@, label@, m as nat, i as nat),
{
    let mut v = chars_of(parent);
    append(&mut v, &chars_of(" > "));
    append(&mut v, label);
    if m > 1 {
        append(&mut v, &chars_of("["));
        append(&mut v, &decimal_string(i as u64));
        append(&mut v, &chars_of("]"));
    }
    string_of(&v)
}

fn role_path_exec(parent: &str, role: &Vec<char>, c: usize, i: usize) -> (r: String)
    ensures
        r@ == role_path(parent@, role@, c as nat, i as nat),
{
    let mut v = chars_of(parent);
    append(&mut v, &chars_of(" > ["));
    append(&mut v, role);
    if c > 1 {
        append(&mut v, &chars_of("]["));
        append(&mut v, &decimal_string(i as u64));
    }
    append(&mut v, &chars_of("]"));
    string_of(&v)
}

fn debug_option_exec(o: &Option<String>) -> (r: Vec<char>)
    ensures
        r@ == debug_option(*o),
{
    match o {
        Some(s) => {
            let mut v = chars_of("Some(");
            let q = debug_str(s.as_str());
            append(&mut v, &chars_of(q.as_str()));
            append(&mut v, &chars_of(")"));
            v
        },
        None => chars_of("None"),
    }
}

fn same_opt_text(a: &Option<String>, b: &Option<String>) -> (r: bool)
    ensures
        r == (opt_text(*a) == opt_text(*b)),
{
    match (a, b) {
        (Some(x), Some(y)) => eq_chars(&chars_of(x.as_str()), &chars_of(y.as_str())),
        (None, None) => true,
        _ => false,
    }
}

fn mirrors(t: &Option<String>, name: &String) -> (r: bool)
    ensures
        r == (opt_text(*t) == Some(name@)),
{
    match t {
        Some(x) => eq_chars(&chars_of(x.as_str()), &chars_of(name.as_str())),
        None => false,
    }
}

pub open spec fn forest_depth(s: Seq<SnapNode>) -> nat {
    children_depth(s, s.len())
}

impl SnapNode {
    /// Appends to `out` the changes from `self` (old) to `new`, `path`
    /// naming this node.
    pub fn diff_into(&self, new: &SnapNode, path: &str, out: &mut Vec<String>)
        requires
            tree_depth(*new) <= usize::MAX,
        ensures
            strings_seqs(final(out)@) == strings_seqs(old(out)@) + node_diff(*self, *new, path@),
        decreases *self, 0nat,
    {
        let ghost base = strings_seqs(out@);
        if !eq_chars(&chars_of(self.name.as_str()), &chars_of(new.name.as_str())) {
            let mut v = chars_of("dom: ");
            append(&mut v, &chars_of(path));
            append(&mut v, &chars_of(": name "));
            append(&mut v, &chars_of(debug_str(self.name.as_str()).as_str()));
            append(&mut v, &chars_of(" → "));
            append(&mut v, &chars_of(debug_str(new.name.as_str()).as_str()));
            push_line(out, &v);
        }
        if !same_opt_text(&self.text, &new.text) {
            let was = mirrors(&self.text, &self.name);
            let is = mirrors(&new.text, &new.name);
            if !(was && is) {
                let mut v = chars_of("dom: ");
                append(&mut v, &chars_of(path));
                append(&mut v, &chars_of(": text "));
                append(&mut v, &debug_option_exec(&self.text));
                append(&mut v, &chars_of(" → "));
                append(&mut v, &debug_option_exec(&new.text));
                push_line(out, &v);
            }
        }
        proof {
            assert(strings_seqs(out@) =~= base + own_lines(*self, *new, path@));
            assert(decreases_to!(*self => self.children@)) by {
                assert(decreases_to!(*self => self.children));
                assert(decreases_to!(self.children => self.children@));
            }
            assert(forest_depth(new.children@) <= usize::MAX);
        }
        let ghost mid = strings_seqs(out@);
        diff_children(path, &self.children, &new.children, out);
        assert(strings_seqs(out@) =~= base + node_diff(*self, *new, path@));
    }
}

/// Appends to `out` the changes between the child lists `old` and `new` of
/// the node named `parent`.
pub fn diff_children(parent: &str, olds: &Vec<SnapNode>, news: &Vec<SnapNode>, out: &mut Vec<String>)
    requires
        forest_depth(news@) <= usize::MAX,
    ensures
        strings_seqs(final(out)@) == strings_seqs(old(out)@) + list_diff(parent@, olds@, news@),
    decreases olds@, 1nat,
{
    let ghost base = strings_seqs(out@);
    let keys = sorted_keys_exec(olds, news);
    let ghost kv = keys_view(keys@);
    // Matched pairs, key by key.
    let mut t: usize = 0;
    while t < keys.len()
        invariant
            t <= keys@.len(),
            kv == keys_view(keys@),
            kv == sorted_keys(olds@ + news@),
            forest_depth(news@) <= usize::MAX,
            strings_seqs(out@) == base + matched_lines(parent@, olds@, news@, kv, t as nat),
        decreases keys@.len() - t,
    {
        let ghost k = kv[t as int];
        let go = group_exec(olds, &keys[t]);
        let gn = group_exec(news, &keys[t]);
        proof {
            lemma_group_bounds(olds@, k);
            lemma_group_bounds(news@, k);
        }
        let m = if go.len() < gn.len() {
            go.len()
        } else {
            gn.len()
        };
        let label = elem_label_exec(
            string_of(&keys[t].0).as_str(),
            string_of(&keys[t].1).as_str(),
        );
        let ghost before = strings_seqs(out@);
        let mut j: usize = 0;
        while j < m
            invariant
                j <= m,
                m as nat == min_nat(group(olds@, k).len(), group(news@, k).len()),
                idx_view(go@) == group(olds@, k),
                idx_view(gn@) == group(news@, k),
                forall|x: int| 0 <= x < group(olds@, k).len() ==> 0 <= #[trigger] group(olds@, k)[x] < olds@.len(),
                forall|x: int| 0 <= x < group(news@, k).len() ==> 0 <= #[trigger] group(news@, k)[x] < news@.len(),
                label@ == elem_label(k.0, k.1),
                forest_depth(news@) <= usize::MAX,
                strings_seqs(out@) == before + pair_lines(parent@, olds@, news@, k, m as nat, j as nat),
            decreases m - j,
        {
            let a = go[j];
            let b = gn[j];
            assert(group(olds@, k)[j as int] == a as int);
            assert(group(news@, k)[j as int] == b as int);
            let p = child_path_exec(parent, &label, m, j);
            proof {
                assert(decreases_to!(olds@ => olds@[a as int]));
                lemma_children_depth(news@, news@.len(), b as int);
            }
            olds[a].diff_into(&news[b], p.as_str(), out);
            j += 1;
        }
        t += 1;
    }
    // Partnerless nodes, role by role.
    let roles = orphan_roles_exec(olds, news, &keys);
    let ghost rv = chars_seqs(roles@);
    let ghost after_matched = strings_seqs(out@);
    let mut r: usize = 0;
    while r < roles.len()
        invariant
            r <= roles@.len(),
            kv == keys_view(keys@),
            rv == chars_seqs(roles@),
            rv == orphan_roles(olds@, news@, kv, kv.len()),
            forest_depth(news@) <= usize::MAX,
            strings_seqs(out@) == after_matched + role_lines(parent@, olds@, news@, kv, rv, r as nat),
        decreases roles@.len() - r,
    {
        let ghost role = rv[r as int];
        let rm = orphans_exec(olds, news, &keys, &roles[r]);
        let ad = orphans_exec(news, olds, &keys, &roles[r]);
        proof {
            lemma_orphans_bounds(olds@, news@, kv, role, kv.len());
            lemma_orphans_bounds(news@, olds@, kv, role, kv.len());
        }
        let c = if rm.len() < ad.len() {
            rm.len()
        } else {
            ad.len()
        };
        let ghost before = strings_seqs(out@);
        let mut j: usize = 0;
        while j < c
            invariant
                j <= c,
                r < roles@.len(),
                c as nat == min_nat(rm@.len(), ad@.len()),
                idx_view(rm@) == orphans(olds@, news@, kv, role, kv.len()),
                idx_view(ad@) == orphans(news@, olds@, kv, role, kv.len()),
                forall|x: int| 0 <= x < idx_view(rm@).len() ==> 0 <= #[trigger] idx_view(rm@)[x] < olds@.len(),
                forall|x: int| 0 <= x < idx_view(ad@).len() ==> 0 <= #[trigger] idx_view(ad@)[x] < news@.len(),
                roles@[r as int]@ == role,
                forest_depth(news@) <= usize::MAX,
                strings_seqs(out@) == before + changed_lines(parent@, olds@, news@, idx_view(rm@), idx_view(ad@), role, c as nat, j as nat),
            decreases c - j,
        {
            let a = rm[j];
            let b = ad[j];
            assert(idx_view(rm@)[j as int] == a as int);
            assert(idx_view(ad@)[j as int] == b as int);
            let mut v = chars_of("dom: ");
            append(&mut v, &chars_of(parent));
            append(&mut v, &chars_of(": CHANGED "));
            append(&mut v, &elem_label_exec(olds[a].role.as_str(), olds[a].name.as_str()));
            append(&mut v, &chars_of(" → "));
            append(&mut v, &elem_label_exec(news[b].role.as_str(), news[b].name.as_str()));
            push_line(out, &v);
            let p = role_path_exec(parent, &roles[r], c, j);
            proof {
                assert(decreases_to!(olds@ => olds@[a as int].children@)) by {
                    assert(decreases_to!(olds@ => olds@[a as int]));
                    assert(decreases_to!(olds@[a as int] => olds@[a as int].children));
                    assert(decreases_to!(olds@[a as int].children => olds@[a as int].children@));
                }
                lemma_children_depth(news@, news@.len(), b as int);
                assert(forest_depth(news@[b as int].children@) < tree_depth(news@[b as int]));
            }
            diff_children(p.as_str(), &olds[a].children, &news[b].children, out);
            j += 1;
        }
        let ghost mid = strings_seqs(out@);
        let mut j: usize = c;
        while j < rm.len()
            invariant
                c <= j <= rm@.len(),
                idx_view(rm@) == orphans(olds@, news@, kv, role, kv.len()),
                forall|x: int| 0 <= x < idx_view(rm@).len() ==> 0 <= #[trigger] idx_view(rm@)[x] < olds@.len(),
                strings_seqs(out@) == mid + removed_lines(parent@, olds@, idx_view(rm@), c as nat, j as nat),
            decreases rm@.len() - j,
        {
            let a = rm[j];
            assert(idx_view(rm@)[j as int] == a as int);
            let mut v = chars_of("dom: ");
            append(&mut v, &chars_of(parent));
            append(&mut v, &chars_of(": REMOVED "));
            append(&mut v, &elem_label_exec(olds[a].role.as_str(), olds[a].name.as_str()));
            push_line(out, &v);
            j += 1;
        }
        let ghost mid2 = strings_seqs(out@);
        let mut j: usize = c;
        while j < ad.len()
            invariant
                c <= j <= ad@.len(),
                idx_view(ad@) == orphans(news@, olds@, kv, role, kv.len()),
                forall|x: int| 0 <= x < idx_view(ad@).len() ==> 0 <= #[trigger] idx_view(ad@)[x] < news@.len(),
                forest_depth(news@) <= usize::MAX,
                strings_seqs(out@) == mid2 + added_lines(parent@, news@, idx_view(ad@), c as nat, j as nat),
            decreases ad@.len() - j,
        {
            let b = ad[j];
            assert(idx_view(ad@)[j as int] == b as int);
            proof {
                lemma_children_depth(news@, news@.len(), b as int);
            }
            let mut v = chars_of("dom: ");
            append(&mut v, &chars_of(parent));
            append(&mut v, &chars_of(": ADDED\n"));
            append(&mut v, &chars_of(news[b].format_tree(0).as_str()));
            push_line(out, &v);
            j += 1;
        }
        r += 1;
    }
}


// ── Laws ──────────────────────────────────────────────────────────────────────

proof fn lemma_orphan_roles_same(cs: Seq<SnapNode>, keys: Seq<Key>, t: nat)
    ensures
        orphan_roles(cs, cs, keys, t) == Seq::<Seq<char>>::empty(),
    decreases t,
{
    if t > 0 && t <= keys.len() {
        lemma_orphan_roles_same(cs, keys, (t - 1) as nat);
    }
}

proof fn lemma_pairs_same(parent: Seq<char>, cs: Seq<SnapNode>, k: Key, m: nat, j: nat)
    requires
        m == group(cs, k).len(),
    ensures
        pair_lines(parent, cs, cs, k, m, j) == Seq::<Seq<char>>::empty(),
    decreases cs, 1nat, j,
{
    let g = group(cs, k);
    if !(j == 0 || j > m || j > g.len()) {
        lemma_pairs_same(parent, cs, k, m, (j - 1) as nat);
        let a = g[j - 1];
        if 0 <= a < cs.len() {
            assert(decreases_to!(cs => cs[a]));
            law_same_tree_no_changes(cs[a], child_path(parent, elem_label(k.0, k.1), m, (j - 1) as nat));
        }
    }
}

proof fn lemma_matched_same(parent: Seq<char>, cs: Seq<SnapNode>, keys: Seq<Key>, t: nat)
    ensures
        matched_lines(parent, cs, cs, keys, t) == Seq::<Seq<char>>::empty(),
    decreases cs, 2nat, t,
{
    if t > 0 && t <= keys.len() {
        lemma_matched_same(parent, cs, keys, (t - 1) as nat);
        let k = keys[t - 1];
        lemma_pairs_same(parent, cs, k, group(cs, k).len(), group(cs, k).len());
    }
}

/// Two identical child lists differ in nothing.
pub proof fn law_same_children_no_changes(parent: Seq<char>, cs: Seq<SnapNode>)
    ensures
        list_diff(parent, cs, cs) == Seq::<Seq<char>>::empty(),
    decreases cs, 3nat, 0nat,
{
    let keys = sorted_keys(cs + cs);
    lemma_orphan_roles_same(cs, keys, keys.len());
    lemma_matched_same(parent, cs, keys, keys.len());
    let roles = orphan_roles(cs, cs, keys, keys.len());
    assert(role_lines(parent, cs, cs, keys, roles, roles.len()) == Seq::<Seq<char>>::empty());
    assert(list_diff(parent, cs, cs) =~= Seq::<Seq<char>>::empty());
}

/// A tree compared with itself reports no change: a stable UI yields no
/// change lines.
pub proof fn law_same_tree_no_changes(n: SnapNode, path: Seq<char>)
    ensures
        node_diff(n, n, path) == Seq::<Seq<char>>::empty(),
    decreases n, 0nat, 0nat,
{
    assert(decreases_to!(n => n.children@)) by {
        assert(decreases_to!(n => n.children));
        assert(decreases_to!(n.children => n.children@));
    }
    law_same_children_no_changes(path, n.children@);
    assert(own_lines(n, n, path) =~= Seq::<Seq<char>>::empty());
    assert(node_diff(n, n, path) =~= Seq::<Seq<char>>::empty());
}

/// Two trees of the same shape: the same role, name and text at every node,
/// and children of the same shape, in the same order.
pub open spec fn same_shape(a: SnapNode, b: SnapNode) -> bool
    decreases a, 1nat,
{
    proof {
        assert(decreases_to!(a => a.children@)) by {
            assert(decreases_to!(a => a.children));
            assert(decreases_to!(a.children => a.children@));
        }
    }
    &&& a.role@ == b.role@
    &&& a.name@ == b.name@
    &&& opt_text(a.text) == opt_text(b.text)
    &&& a.children@.len() == b.children@.len()
    &&& same_shapes(a.children@, b.children@, a.children@.len())
}

/// The first `k` nodes of `xs` and `ys` pairwise of the same shape.
pub open spec fn same_shapes(xs: Seq<SnapNode>, ys: Seq<SnapNode>, k: nat) -> bool
    decreases xs, k,
{
    if k == 0 || k > xs.len() || k > ys.len() {
        k == 0
    } else {
        proof {
            assert(decreases_to!(xs => xs[k - 1]));
        }
        same_shapes(xs, ys, (k - 1) as nat) && same_shape(xs[k - 1], ys[k - 1])
    }
}

proof fn lemma_same_shapes_at(xs: Seq<SnapNode>, ys: Seq<SnapNode>, k: nat, i: int)
    requires
        same_shapes(xs, ys, k),
        0 <= i < k,
    ensures
        same_shape(xs[i], ys[i]),
        key_of(xs[i]) == key_of(ys[i]),
    decreases k,
{
    if i < k - 1 {
        lemma_same_shapes_at(xs, ys, (k - 1) as nat, i);
    }
}

/// Lists whose nodes carry the same keys, position by position.
pub open spec fn same_keys(xs: Seq<SnapNode>, ys: Seq<SnapNode>) -> bool {
    xs.len() == ys.len() && forall|i: int| 0 <= i < xs.len() ==> key_of(#[trigger] xs[i]) == key_of(ys[i])
}

proof fn lemma_same_keys_group(xs: Seq<SnapNode>, ys: Seq<SnapNode>, k: Key)
    requires
        same_keys(xs, ys),
    ensures
        group(xs, k) == group(ys, k),
    decreases xs.len(),
{
    if xs.len() > 0 {
        assert(key_of(xs[xs.len() - 1]) == key_of(ys[ys.len() - 1]));
        assert(same_keys(xs.drop_last(), ys.drop_last())) by {
            assert forall|i: int| 0 <= i < xs.drop_last().len() implies key_of(#[trigger] xs.drop_last()[i])
                == key_of(ys.drop_last()[i]) by {
                assert(key_of(xs[i]) == key_of(ys[i]));
            }
        }
        lemma_same_keys_group(xs.drop_last(), ys.drop_last(), k);
    }
}

proof fn lemma_same_keys_sorted(xs: Seq<SnapNode>, ys: Seq<SnapNode>)
    requires
        same_keys(xs, ys),
    ensures
        sorted_keys(xs) == sorted_keys(ys),
    decreases xs.len(),
{
    if xs.len() > 0 {
        assert(key_of(xs[xs.len() - 1]) == key_of(ys[ys.len() - 1]));
        assert(same_keys(xs.drop_last(), ys.drop_last())) by {
            assert forall|i: int| 0 <= i < xs.drop_last().len() implies key_of(#[trigger] xs.drop_last()[i])
                == key_of(ys.drop_last()[i]) by {
                assert(key_of(xs[i]) == key_of(ys[i]));
            }
        }
        lemma_same_keys_sorted(xs.drop_last(), ys.drop_last());
    }
}

proof fn lemma_orphan_roles_same_keys(xs: Seq<SnapNode>, ys: Seq<SnapNode>, keys: Seq<Key>, t: nat)
    requires
        same_keys(xs, ys),
    ensures
        orphan_roles(xs, ys, keys, t) == Seq::<Seq<char>>::empty(),
    decreases t,
{
    if t > 0 && t <= keys.len() {
        lemma_orphan_roles_same_keys(xs, ys, keys, (t - 1) as nat);
        lemma_same_keys_group(xs, ys, keys[t - 1]);
    }
}

proof fn lemma_pairs_same_shape(parent: Seq<char>, xs: Seq<SnapNode>, ys: Seq<SnapNode>, k: Key, m: nat, j: nat)
    requires
        xs.len() == ys.len(),
        same_shapes(xs, ys, xs.len()),
        same_keys(xs, ys),
    ensures
        pair_lines(parent, xs, ys, k, m, j) == Seq::<Seq<char>>::empty(),
    decreases xs, 1nat, j,
{
    let go = group(xs, k);
    let gn = group(ys, k);
    lemma_same_keys_group(xs, ys, k);
    if !(j == 0 || j > m || j > go.len() || j > gn.len()) {
        lemma_pairs_same_shape(parent, xs, ys, k, m, (j - 1) as nat);
        let a = go[j - 1];
        if 0 <= a < xs.len() {
            assert(decreases_to!(xs => xs[a]));
            lemma_same_shapes_at(xs, ys, xs.len(), a);
            law_same_shape_no_changes(xs[a], ys[a], child_path(parent, elem_label(k.0, k.1), m, (j - 1) as nat));
        }
    }
}

proof fn lemma_matched_same_shape(parent: Seq<char>, xs: Seq<SnapNode>, ys: Seq<SnapNode>, keys: Seq<Key>, t: nat)
    requires
        xs.len() == ys.len(),
        same_shapes(xs, ys, xs.len()),
        same_keys(xs, ys),
    ensures
        matched_lines(parent, xs, ys, keys, t) == Seq::<Seq<char>>::empty(),
    decreases xs, 2nat, t,
{
    if t > 0 && t <= keys.len() {
        lemma_matched_same_shape(parent, xs, ys, keys, (t - 1) as nat);
        let k = keys[t - 1];
        let m = min_nat(group(xs, k).len(), group(ys, k).len());
        lemma_pairs_same_shape(parent, xs, ys, k, m, m);
    }
}

proof fn lemma_list_same_shape(parent: Seq<char>, xs: Seq<SnapNode>, ys: Seq<SnapNode>)
    requires
        xs.len() == ys.len(),
        same_shapes(xs, ys, xs.len()),
    ensures
        list_diff(parent, xs, ys) == Seq::<Seq<char>>::empty(),
    decreases xs, 3nat, 0nat,
{
    assert(same_keys(xs, ys)) by {
        assert forall|i: int| 0 <= i < xs.len() implies key_of(#[trigger] xs[i]) == key_of(ys[i]) by {
            lemma_same_shapes_at(xs, ys, xs.len(), i);
        }
    }
    let keys = sorted_keys(xs + ys);
    lemma_orphan_roles_same_keys(xs, ys, keys, keys.len());
    lemma_matched_same_shape(parent, xs, ys, keys, keys.len());
    let roles = orphan_roles(xs, ys, keys, keys.len());
    assert(role_lines(parent, xs, ys, keys, roles, roles.len()) == Seq::<Seq<char>>::empty());
    assert(list_diff(parent, xs, ys) =~= Seq::<Seq<char>>::empty());
}

/// A tree compared with one of the same shape reports no change: a UI that
/// did not change yields no change lines, however often it is snapshotted.
pub proof fn law_same_shape_no_changes(o: SnapNode, n: SnapNode, path: Seq<char>)
    requires
        same_shape(o, n),
    ensures
        node_diff(o, n, path) == Seq::<Seq<char>>::empty(),
    decreases o, 0nat, 0nat,
{
    assert(decreases_to!(o => o.children@)) by {
        assert(decreases_to!(o => o.children));
        assert(decreases_to!(o.children => o.children@));
    }
    lemma_list_same_shape(path, o.children@, n.children@);
    assert(own_lines(o, n, path) =~= Seq::<Seq<char>>::empty());
    assert(node_diff(o, n, path) =~= Seq::<Seq<char>>::empty());
}

proof fn lemma_leaf_diff(o: SnapNode, n: SnapNode, path: Seq<char>)
    requires
        o.children@.len() == 0,
        n.children@.len() == 0,
    ensures
        node_diff(o, n, path) == own_lines(o, n, path),
{
    law_same_children_no_changes(path, Seq::<SnapNode>::empty());
    assert(o.children@ =~= Seq::<SnapNode>::empty());
    assert(n.children@ =~= Seq::<SnapNode>::empty());
    assert(node_diff(o, n, path) =~= own_lines(o, n, path));
}

/// A node without children whose name did not change reports a change
/// exactly when its text changed: a text that changes is reported even when
/// the old text was the name.
pub proof fn law_leaf_text_change_reported(o: SnapNode, n: SnapNode, path: Seq<char>)
    requires
        o.children@.len() == 0,
        n.children@.len() == 0,
        o.name@ == n.name@,
    ensures
        node_diff(o, n, path).len() == 0 <==> opt_text(o.text) == opt_text(n.text),
        opt_text(o.text) != opt_text(n.text) ==> node_diff(o, n, path) == seq![
            "dom: "@ + path + ": text "@ + debug_option(o.text) + " → "@ + debug_option(n.text),
        ],
{
    lemma_leaf_diff(o, n, path);
    if opt_text(o.text) != opt_text(n.text) {
        assert(opt_text(o.text) != Some(o.name@) || opt_text(n.text) != Some(n.name@));
        assert(own_lines(o, n, path) =~= seq![
            "dom: "@ + path + ": text "@ + debug_option(o.text) + " → "@ + debug_option(n.text),
        ]);
    } else {
        assert(own_lines(o, n, path) =~= Seq::<Seq<char>>::empty());
    }
}

/// A renamed node without children reports the rename first; a change of
/// its text follows unless the text was the name before and is the name
/// after (it only followed the rename).
pub proof fn law_leaf_rename_reported(o: SnapNode, n: SnapNode, path: Seq<char>)
    requires
        o.children@.len() == 0,
        n.children@.len() == 0,
        o.name@ != n.name@,
    ensures
        node_diff(o, n, path).len() >= 1,
        node_diff(o, n, path)[0] == "dom: "@ + path + ": name "@ + debug_quoted(o.name@) + " → "@ + debug_quoted(n.name@),
        opt_text(o.text) == Some(o.name@) && opt_text(n.text) == Some(n.name@) ==> node_diff(o, n, path).len() == 1,
        opt_text(o.text) != opt_text(n.text) && (opt_text(o.text) != Some(o.name@) || opt_text(n.text) != Some(
            n.name@,
        )) ==> node_diff(o, n, path).len() == 2,
        opt_text(o.text) == opt_text(n.text) ==> node_diff(o, n, path).len() == 1,
{
    lemma_leaf_diff(o, n, path);
}

// ── Laws: inserting a sibling ─────────────────────────────────────────────────

/// The keys of `ks` rise strictly.
pub open spec fn keys_sorted(ks: Seq<Key>) -> bool {
    forall|a: int, b: int| 0 <= a < b < ks.len() ==> key_lt(#[trigger] ks[a], #[trigger] ks[b])
}

proof fn lemma_key_lt_irrefl(k: Key)
    ensures
        !key_lt(k, k),
{
    lemma_chars_lt_irrefl(k.0);
    lemma_chars_lt_irrefl(k.1);
}

proof fn lemma_key_lt_trans(a: Key, b: Key, c: Key)
    requires
        key_lt(a, b),
        key_lt(b, c),
    ensures
        key_lt(a, c),
{
    if chars_lt(a.0, b.0) && chars_lt(b.0, c.0) {
        lemma_chars_lt_trans(a.0, b.0, c.0);
    } else if chars_lt(a.0, b.0) {
    } else if chars_lt(b.0, c.0) {
    } else {
        lemma_chars_lt_trans(a.1, b.1, c.1);
    }
}

proof fn lemma_key_lt_total(a: Key, b: Key)
    ensures
        a == b || key_lt(a, b) || key_lt(b, a),
{
    lemma_chars_lt_total(a.0, b.0);
    lemma_chars_lt_total(a.1, b.1);
}

proof fn lemma_insert_key(ks: Seq<Key>, k: Key)
    requires
        keys_sorted(ks),
    ensures
        keys_sorted(insert_key(ks, k)),
        forall|x: Key| #[trigger] insert_key(ks, k).contains(x) <==> (ks.contains(x) || x == k),
    decreases ks.len(),
{
    let r = insert_key(ks, k);
    if ks.len() == 0 {
        assert forall|x: Key| r.contains(x) <==> (ks.contains(x) || x == k) by {
            if r.contains(x) {
                let j = choose|j: int| 0 <= j < r.len() && r[j] == x;
                assert(j == 0);
            }
            if x == k {
                assert(r[0] == k);
            }
        }
    } else if ks[0] == k {
        assert forall|x: Key| r.contains(x) <==> (ks.contains(x) || x == k) by {
            if x == k {
                assert(ks[0] == k);
            }
        }
    } else if key_lt(k, ks[0]) {
        assert(r =~= seq![k] + ks);
        assert forall|a: int, b: int| 0 <= a < b < r.len() implies key_lt(#[trigger] r[a], #[trigger] r[b]) by {
            if a == 0 {
                if b > 1 {
                    assert(key_lt(ks[0], ks[b - 1]));
                    lemma_key_lt_trans(k, ks[0], ks[b - 1]);
                }
            } else {
                assert(key_lt(ks[a - 1], ks[b - 1]));
            }
        }
        assert forall|x: Key| r.contains(x) <==> (ks.contains(x) || x == k) by {
            if r.contains(x) {
                let j = choose|j: int| 0 <= j < r.len() && r[j] == x;
                if j > 0 {
                    assert(ks[j - 1] == x);
                }
            }
            if ks.contains(x) {
                let j = choose|j: int| 0 <= j < ks.len() && ks[j] == x;
                assert(r[j + 1] == x);
            }
            if x == k {
                assert(r[0] == k);
            }
        }
    } else {
        lemma_key_lt_total(k, ks[0]);
        let rest = ks.skip(1);
        assert(keys_sorted(rest)) by {
            assert forall|a: int, b: int| 0 <= a < b < rest.len() implies key_lt(#[trigger] rest[a], #[trigger] rest[b]) by {
                assert(key_lt(ks[a + 1], ks[b + 1]));
            }
        }
        lemma_insert_key(rest, k);
        let ir = insert_key(rest, k);
        assert(r =~= seq![ks[0]] + ir);
        assert forall|a: int, b: int| 0 <= a < b < r.len() implies key_lt(#[trigger] r[a], #[trigger] r[b]) by {
            if a == 0 {
                let y = ir[b - 1];
                assert(ir.contains(y));
                if rest.contains(y) {
                    let j = choose|j: int| 0 <= j < rest.len() && rest[j] == y;
                    assert(key_lt(ks[0], ks[j + 1]));
                }
            } else {
                assert(key_lt(ir[a - 1], ir[b - 1]));
            }
        }
        assert forall|x: Key| r.contains(x) <==> (ks.contains(x) || x == k) by {
            if r.contains(x) {
                let j = choose|j: int| 0 <= j < r.len() && r[j] == x;
                if j > 0 {
                    assert(ir.contains(x));
                    if rest.contains(x) {
                        let m = choose|m: int| 0 <= m < rest.len() && rest[m] == x;
                        assert(ks[m + 1] == x);
                    }
                } else {
                    assert(ks[0] == x);
                }
            }
            if ks.contains(x) {
                let j = choose|j: int| 0 <= j < ks.len() && ks[j] == x;
                if j > 0 {
                    assert(rest[j - 1] == x);
                    assert(rest.contains(x));
                    assert(ir.contains(x));
                    let m = choose|m: int| 0 <= m < ir.len() && ir[m] == x;
                    assert(r[m + 1] == x);
                } else {
                    assert(r[0] == x);
                }
            }
            if x == k {
                assert(ir.contains(x));
                let m = choose|m: int| 0 <= m < ir.len() && ir[m] == x;
                assert(r[m + 1] == x);
            }
        }
    }
}

proof fn lemma_sorted_keys(s: Seq<SnapNode>)
    ensures
        keys_sorted(sorted_keys(s)),
        forall|x: Key| sorted_keys(s).contains(x) <==> exists|j: int| 0 <= j < s.len() && #[trigger] key_of(s[j]) == x,
    decreases s.len(),
{
    if s.len() > 0 {
        let init = s.drop_last();
        lemma_sorted_keys(init);
        lemma_insert_key(sorted_keys(init), key_of(s.last()));
        assert forall|x: Key| sorted_keys(s).contains(x) <==> exists|j: int| 0 <= j < s.len() && #[trigger] key_of(s[j]) == x by {
            if sorted_keys(init).contains(x) {
                let j = choose|j: int| 0 <= j < init.len() && #[trigger] key_of(init[j]) == x;
                assert(key_of(s[j]) == x);
            }
            if exists|j: int| 0 <= j < s.len() && #[trigger] key_of(s[j]) == x {
                let j = choose|j: int| 0 <= j < s.len() && #[trigger] key_of(s[j]) == x;
                if j < s.len() - 1 {
                    assert(key_of(init[j]) == x);
                }
            }
        }
    } else {
        assert forall|x: Key| sorted_keys(s).contains(x) <==> exists|j: int| 0 <= j < s.len() && #[trigger] key_of(s[j]) == x by {
        }
    }
}

/// `cs` with `p` inserted at position `i`.
pub open spec fn inserted(cs: Seq<SnapNode>, i: int, p: SnapNode) -> Seq<SnapNode> {
    cs.take(i) + seq![p] + cs.skip(i)
}

/// Where position `x` of `cs` lands once a node is inserted at `i`.
pub open spec fn shifted(i: int, x: int) -> int {
    if x < i {
        x
    } else {
        x + 1
    }
}

proof fn lemma_group_none(s: Seq<SnapNode>, k: Key)
    requires
        forall|j: int| 0 <= j < s.len() ==> key_of(#[trigger] s[j]) != k,
    ensures
        group(s, k) == Seq::<int>::empty(),
    decreases s.len(),
{
    if s.len() > 0 {
        lemma_group_none(s.drop_last(), k);
        assert(key_of(s[s.len() - 1]) != k);
    }
}

proof fn lemma_inserted_at(cs: Seq<SnapNode>, i: int, p: SnapNode, a: int)
    requires
        0 <= i <= cs.len(),
    ensures
        inserted(cs, i, p).len() == cs.len() + 1,
        0 <= a < cs.len() ==> inserted(cs, i, p)[shifted(i, a)] == cs[a],
        inserted(cs, i, p)[i] == p,
{
}

proof fn lemma_group_inserted(cs: Seq<SnapNode>, i: int, p: SnapNode, k: Key)
    requires
        0 <= i <= cs.len(),
        k != key_of(p),
    ensures
        group(inserted(cs, i, p), k) == group(cs, k).map_values(|x: int| shifted(i, x)),
    decreases cs.len(),
{
    let ins = inserted(cs, i, p);
    if i == cs.len() {
        assert(ins.drop_last() =~= cs);
        lemma_group_bounds(cs, k);
        assert(group(cs, k).map_values(|x: int| shifted(i, x)) =~= group(cs, k));
    } else {
        let init = cs.drop_last();
        lemma_group_inserted(init, i, p, k);
        assert(ins.drop_last() =~= inserted(init, i, p));
        assert(ins.last() == cs.last());
        assert(group(cs, k).map_values(|x: int| shifted(i, x)) =~= group(init, k).map_values(
            |x: int| shifted(i, x),
        ) + if key_of(cs.last()) == k {
            seq![ins.len() - 1]
        } else {
            Seq::<int>::empty()
        });
    }
}

proof fn lemma_group_inserted_new(cs: Seq<SnapNode>, i: int, p: SnapNode)
    requires
        0 <= i <= cs.len(),
        forall|j: int| 0 <= j < cs.len() ==> key_of(#[trigger] cs[j]) != key_of(p),
    ensures
        group(inserted(cs, i, p), key_of(p)) == seq![i],
    decreases cs.len(),
{
    let ins = inserted(cs, i, p);
    if i == cs.len() {
        assert(ins.drop_last() =~= cs);
        lemma_group_none(cs, key_of(p));
        assert(group(ins, key_of(p)) =~= seq![i]);
    } else {
        let init = cs.drop_last();
        lemma_group_inserted_new(init, i, p);
        assert(ins.drop_last() =~= inserted(init, i, p));
        assert(ins.last() == cs.last());
        assert(key_of(cs[cs.len() - 1]) != key_of(p));
    }
}

proof fn lemma_pairs_inserted(
    parent: Seq<char>,
    cs: Seq<SnapNode>,
    i: int,
    p: SnapNode,
    k: Key,
    m: nat,
    j: nat,
    removal: bool,
)
    requires
        0 <= i <= cs.len(),
        k != key_of(p),
        m == group(cs, k).len(),
    ensures
        !removal ==> pair_lines(parent, cs, inserted(cs, i, p), k, m, j) == Seq::<Seq<char>>::empty(),
        removal ==> pair_lines(parent, inserted(cs, i, p), cs, k, m, j) == Seq::<Seq<char>>::empty(),
    decreases j,
{
    let ins = inserted(cs, i, p);
    let g = group(cs, k);
    lemma_group_inserted(cs, i, p, k);
    lemma_group_bounds(cs, k);
    if !(j == 0 || j > m || j > g.len()) {
        lemma_pairs_inserted(parent, cs, i, p, k, m, (j - 1) as nat, removal);
        let a = g[j - 1];
        lemma_inserted_at(cs, i, p, a);
        assert(group(ins, k)[j - 1] == shifted(i, a));
        law_same_tree_no_changes(cs[a], child_path(parent, elem_label(k.0, k.1), m, (j - 1) as nat));
    }
}

proof fn lemma_matched_inserted(
    parent: Seq<char>,
    cs: Seq<SnapNode>,
    i: int,
    p: SnapNode,
    keys: Seq<Key>,
    t: nat,
    removal: bool,
)
    requires
        0 <= i <= cs.len(),
        forall|j: int| 0 <= j < cs.len() ==> key_of(#[trigger] cs[j]) != key_of(p),
    ensures
        !removal ==> matched_lines(parent, cs, inserted(cs, i, p), keys, t) == Seq::<Seq<char>>::empty(),
        removal ==> matched_lines(parent, inserted(cs, i, p), cs, keys, t) == Seq::<Seq<char>>::empty(),
    decreases t,
{
    if t > 0 && t <= keys.len() {
        lemma_matched_inserted(parent, cs, i, p, keys, (t - 1) as nat, removal);
        let k = keys[t - 1];
        let ins = inserted(cs, i, p);
        if k == key_of(p) {
            lemma_group_none(cs, k);
            assert(pair_lines(parent, cs, ins, k, 0, 0) == Seq::<Seq<char>>::empty());
            assert(pair_lines(parent, ins, cs, k, 0, 0) == Seq::<Seq<char>>::empty());
        } else {
            lemma_group_inserted(cs, i, p, k);
            assert(group(ins, k).len() == group(cs, k).len());
            lemma_pairs_inserted(parent, cs, i, p, k, group(cs, k).len(), group(cs, k).len(), removal);
        }
        assert(matched_lines(parent, cs, ins, keys, t) =~= matched_lines(parent, cs, ins, keys, (t - 1) as nat)
            + pair_lines(parent, cs, ins, k, min_nat(group(cs, k).len(), group(ins, k).len()), min_nat(group(cs, k).len(), group(ins, k).len())));
    }
}

proof fn lemma_orphan_roles_inserted(
    cs: Seq<SnapNode>,
    i: int,
    p: SnapNode,
    keys: Seq<Key>,
    q: int,
    t: nat,
    removal: bool,
)
    requires
        0 <= i <= cs.len(),
        forall|j: int| 0 <= j < cs.len() ==> key_of(#[trigger] cs[j]) != key_of(p),
        0 <= q < keys.len(),
        keys[q] == key_of(p),
        forall|a: int| 0 <= a < keys.len() && a != q ==> #[trigger] keys[a] != key_of(p),
        t <= keys.len(),
    ensures
        !removal ==> orphan_roles(cs, inserted(cs, i, p), keys, t) == if t > q {
            seq![p.role@]
        } else {
            Seq::<Seq<char>>::empty()
        },
        removal ==> orphan_roles(inserted(cs, i, p), cs, keys, t) == if t > q {
            seq![p.role@]
        } else {
            Seq::<Seq<char>>::empty()
        },
    decreases t,
{
    if t > 0 {
        lemma_orphan_roles_inserted(cs, i, p, keys, q, (t - 1) as nat, removal);
        let k = keys[t - 1];
        if t - 1 == q {
            lemma_group_none(cs, k);
            lemma_group_inserted_new(cs, i, p);
            assert(crate::text::insert_sorted(Seq::<Seq<char>>::empty(), p.role@) == seq![p.role@]);
        } else {
            lemma_group_inserted(cs, i, p, k);
        }
    }
}

proof fn lemma_orphans_inserted(
    cs: Seq<SnapNode>,
    i: int,
    p: SnapNode,
    keys: Seq<Key>,
    q: int,
    role: Seq<char>,
    t: nat,
)
    requires
        0 <= i <= cs.len(),
        forall|j: int| 0 <= j < cs.len() ==> key_of(#[trigger] cs[j]) != key_of(p),
        0 <= q < keys.len(),
        keys[q] == key_of(p),
        forall|a: int| 0 <= a < keys.len() && a != q ==> #[trigger] keys[a] != key_of(p),
        t <= keys.len(),
    ensures
        orphans(cs, inserted(cs, i, p), keys, role, t) == Seq::<int>::empty(),
        orphans(inserted(cs, i, p), cs, keys, role, t) == if t > q && role == p.role@ {
            seq![i]
        } else {
            Seq::<int>::empty()
        },
    decreases t,
{
    if t > 0 {
        lemma_orphans_inserted(cs, i, p, keys, q, role, (t - 1) as nat);
        let k = keys[t - 1];
        let ins = inserted(cs, i, p);
        if t - 1 == q {
            lemma_group_none(cs, k);
            lemma_group_inserted_new(cs, i, p);
            assert(group(ins, k).skip(0) =~= seq![i]);
        } else {
            lemma_group_inserted(cs, i, p, k);
            assert(group(ins, k).len() == group(cs, k).len());
        }
        assert(orphans(cs, ins, keys, role, t) =~= Seq::<int>::empty());
    }
}

/// The index of a fresh key in the sorted keys of two child lists, where it
/// stands once.
proof fn lemma_key_position(s: Seq<SnapNode>, at: int) -> (q: int)
    requires
        0 <= at < s.len(),
    ensures
        0 <= q < sorted_keys(s).len(),
        sorted_keys(s)[q] == key_of(s[at]),
        forall|a: int| 0 <= a < sorted_keys(s).len() && a != q ==> #[trigger] sorted_keys(s)[a] != key_of(s[at]),
{
    let keys = sorted_keys(s);
    lemma_sorted_keys(s);
    assert(keys.contains(key_of(s[at])));
    let q = choose|q: int| 0 <= q < keys.len() && keys[q] == key_of(s[at]);
    assert forall|a: int| 0 <= a < keys.len() && a != q implies #[trigger] keys[a] != key_of(s[at]) by {
        lemma_key_lt_irrefl(key_of(s[at]));
        if a < q {
            assert(key_lt(keys[a], keys[q]));
        } else {
            assert(key_lt(keys[q], keys[a]));
        }
    }
    q
}

/// Siblings are matched by role and name, so inserting a node whose role and
/// name no sibling shares, anywhere in the list, reports exactly that node as
/// added (with its subtree) and nothing about the siblings around it.
pub proof fn law_insert_reports_only_added(parent: Seq<char>, cs: Seq<SnapNode>, i: int, p: SnapNode)
    requires
        0 <= i <= cs.len(),
        forall|j: int| 0 <= j < cs.len() ==> key_of(#[trigger] cs[j]) != key_of(p),
    ensures
        list_diff(parent, cs, inserted(cs, i, p)) == seq!["dom: "@ + parent + ": ADDED\n"@ + tree_text(p, 0)],
{
    let ins = inserted(cs, i, p);
    let both = cs + ins;
    lemma_inserted_at(cs, i, p, 0);
    assert(both[cs.len() + i] == p);
    let q = lemma_key_position(both, cs.len() + i);
    let keys = sorted_keys(both);
    lemma_matched_inserted(parent, cs, i, p, keys, keys.len(), false);
    lemma_orphan_roles_inserted(cs, i, p, keys, q, keys.len(), false);
    lemma_orphans_inserted(cs, i, p, keys, q, p.role@, keys.len());
    let roles = orphan_roles(cs, ins, keys, keys.len());
    assert(roles == seq![p.role@]);
    let ad = orphans(ins, cs, keys, p.role@, keys.len());
    assert(ad == seq![i]);
    assert(added_lines(parent, ins, ad, 0, 0) == Seq::<Seq<char>>::empty());
    assert(role_lines(parent, cs, ins, keys, roles, 0) == Seq::<Seq<char>>::empty());
    let rm0 = orphans(cs, ins, keys, p.role@, keys.len());
    assert(rm0 == Seq::<int>::empty());
    assert(changed_lines(parent, cs, ins, rm0, ad, p.role@, 0, 0) == Seq::<Seq<char>>::empty());
    assert(removed_lines(parent, cs, rm0, 0, 0) == Seq::<Seq<char>>::empty());
    assert(added_lines(parent, ins, ad, 0, 1) =~= seq!["dom: "@ + parent + ": ADDED\n"@ + tree_text(p, 0)]);
    assert(role_lines(parent, cs, ins, keys, roles, 1) =~= seq!["dom: "@ + parent + ": ADDED\n"@ + tree_text(p, 0)]);
    assert(list_diff(parent, cs, ins) =~= seq!["dom: "@ + parent + ": ADDED\n"@ + tree_text(p, 0)]);
}

/// Likewise, removing a node whose role and name no other sibling shares
/// reports exactly that node as removed.
pub proof fn law_remove_reports_only_removed(parent: Seq<char>, cs: Seq<SnapNode>, i: int, p: SnapNode)
    requires
        0 <= i <= cs.len(),
        forall|j: int| 0 <= j < cs.len() ==> key_of(#[trigger] cs[j]) != key_of(p),
    ensures
        list_diff(parent, inserted(cs, i, p), cs) == seq![
            "dom: "@ + parent + ": REMOVED "@ + elem_label(p.role@, p.name@),
        ],
{
    let ins = inserted(cs, i, p);
    let both = ins + cs;
    lemma_inserted_at(cs, i, p, 0);
    assert(both[i] == p);
    let q = lemma_key_position(both, i);
    let keys = sorted_keys(both);
    lemma_matched_inserted(parent, cs, i, p, keys, keys.len(), true);
    lemma_orphan_roles_inserted(cs, i, p, keys, q, keys.len(), true);
    lemma_orphans_inserted(cs, i, p, keys, q, p.role@, keys.len());
    let roles = orphan_roles(ins, cs, keys, keys.len());
    assert(roles == seq![p.role@]);
    let rm = orphans(ins, cs, keys, p.role@, keys.len());
    assert(rm == seq![i]);
    let line = "dom: "@ + parent + ": REMOVED "@ + elem_label(p.role@, p.name@);
    assert(removed_lines(parent, ins, rm, 0, 0) == Seq::<Seq<char>>::empty());
    assert(role_lines(parent, ins, cs, keys, roles, 0) == Seq::<Seq<char>>::empty());
    let ad0 = orphans(cs, ins, keys, p.role@, keys.len());
    assert(ad0 == Seq::<int>::empty());
    assert(changed_lines(parent, ins, cs, rm, ad0, p.role@, 0, 0) == Seq::<Seq<char>>::empty());
    assert(added_lines(parent, cs, ad0, 0, 0) == Seq::<Seq<char>>::empty());
    assert(removed_lines(parent, ins, rm, 0, 1) =~= seq![line]);
    assert(role_lines(parent, ins, cs, keys, roles, 1) =~= seq![line]);
    assert(list_diff(parent, ins, cs) =~= seq![line]);
}

// ── Laws: replacing a sibling ─────────────────────────────────────────────────

proof fn lemma_pairs_replaced(
    parent: Seq<char>,
    cs: Seq<SnapNode>,
    i: int,
    x: SnapNode,
    y: SnapNode,
    k: Key,
    m: nat,
    j: nat,
)
    requires
        0 <= i <= cs.len(),
        k != key_of(x),
        k != key_of(y),
        m == group(cs, k).len(),
    ensures
        pair_lines(parent, inserted(cs, i, x), inserted(cs, i, y), k, m, j) == Seq::<Seq<char>>::empty(),
    decreases j,
{
    let g = group(cs, k);
    lemma_group_inserted(cs, i, x, k);
    lemma_group_inserted(cs, i, y, k);
    lemma_group_bounds(cs, k);
    if !(j == 0 || j > m || j > g.len()) {
        lemma_pairs_replaced(parent, cs, i, x, y, k, m, (j - 1) as nat);
        let a = g[j - 1];
        lemma_inserted_at(cs, i, x, a);
        lemma_inserted_at(cs, i, y, a);
        law_same_tree_no_changes(cs[a], child_path(parent, elem_label(k.0, k.1), m, (j - 1) as nat));
    }
}

proof fn lemma_matched_replaced(
    parent: Seq<char>,
    cs: Seq<SnapNode>,
    i: int,
    x: SnapNode,
    y: SnapNode,
    keys: Seq<Key>,
    t: nat,
)
    requires
        0 <= i <= cs.len(),
        key_of(x) != key_of(y),
        forall|j: int| 0 <= j < cs.len() ==> key_of(#[trigger] cs[j]) != key_of(x) && key_of(cs[j]) != key_of(y),
    ensures
        matched_lines(parent, inserted(cs, i, x), inserted(cs, i, y), keys, t) == Seq::<Seq<char>>::empty(),
    decreases t,
{
    if t > 0 && t <= keys.len() {
        lemma_matched_replaced(parent, cs, i, x, y, keys, (t - 1) as nat);
        let k = keys[t - 1];
        let ox = inserted(cs, i, x);
        let ny = inserted(cs, i, y);
        if k == key_of(x) {
            lemma_group_none(ny, k);
            assert(pair_lines(parent, ox, ny, k, 0, 0) == Seq::<Seq<char>>::empty());
        } else if k == key_of(y) {
            lemma_group_none(ox, k);
            assert(pair_lines(parent, ox, ny, k, 0, 0) == Seq::<Seq<char>>::empty());
        } else {
            lemma_group_inserted(cs, i, x, k);
            lemma_group_inserted(cs, i, y, k);
            lemma_pairs_replaced(parent, cs, i, x, y, k, group(cs, k).len(), group(cs, k).len());
        }
    }
}

proof fn lemma_orphans_replaced(
    cs: Seq<SnapNode>,
    i: int,
    x: SnapNode,
    y: SnapNode,
    keys: Seq<Key>,
    qx: int,
    qy: int,
    role: Seq<char>,
    t: nat,
)
    requires
        0 <= i <= cs.len(),
        x.role@ == role,
        y.role@ == role,
        key_of(x) != key_of(y),
        forall|j: int| 0 <= j < cs.len() ==> key_of(#[trigger] cs[j]) != key_of(x) && key_of(cs[j]) != key_of(y),
        0 <= qx < keys.len(),
        0 <= qy < keys.len(),
        keys[qx] == key_of(x),
        keys[qy] == key_of(y),
        forall|a: int| 0 <= a < keys.len() && a != qx ==> #[trigger] keys[a] != key_of(x),
        forall|a: int| 0 <= a < keys.len() && a != qy ==> #[trigger] keys[a] != key_of(y),
        t <= keys.len(),
    ensures
        orphans(inserted(cs, i, x), inserted(cs, i, y), keys, role, t) == if t > qx {
            seq![i]
        } else {
            Seq::<int>::empty()
        },
        orphans(inserted(cs, i, y), inserted(cs, i, x), keys, role, t) == if t > qy {
            seq![i]
        } else {
            Seq::<int>::empty()
        },
        orphan_roles(inserted(cs, i, x), inserted(cs, i, y), keys, t) == if t > qx || t > qy {
            seq![role]
        } else {
            Seq::<Seq<char>>::empty()
        },
    decreases t,
{
    if t > 0 {
        lemma_orphans_replaced(cs, i, x, y, keys, qx, qy, role, (t - 1) as nat);
        let k = keys[t - 1];
        let ox = inserted(cs, i, x);
        let ny = inserted(cs, i, y);
        if t - 1 == qx {
            lemma_group_inserted_new(cs, i, x);
            lemma_group_none(ny, k);
            assert(group(ox, k).skip(0) =~= seq![i]);
        } else if t - 1 == qy {
            lemma_group_inserted_new(cs, i, y);
            lemma_group_none(ox, k);
            assert(group(ny, k).skip(0) =~= seq![i]);
        } else {
            lemma_group_inserted(cs, i, x, k);
            lemma_group_inserted(cs, i, y, k);
            assert(group(ox, k).len() == group(ny, k).len());
        }
        assert(crate::text::insert_sorted(Seq::<Seq<char>>::empty(), role) == seq![role]);
        assert(crate::text::insert_sorted(seq![role], role) == seq![role]);
    }
}

/// A sibling whose name changes while its role stays (a status bar text
/// updating, say) is reported as one change, followed by what changed inside
/// it, not as a removal and an addition: provided neither name is shared by
/// another sibling of that role.
pub proof fn law_rename_reports_changed(parent: Seq<char>, cs: Seq<SnapNode>, i: int, x: SnapNode, y: SnapNode)
    requires
        0 <= i <= cs.len(),
        x.role@ == y.role@,
        x.name@ != y.name@,
        forall|j: int| 0 <= j < cs.len() ==> key_of(#[trigger] cs[j]) != key_of(x) && key_of(cs[j]) != key_of(y),
    ensures
        list_diff(parent, inserted(cs, i, x), inserted(cs, i, y)) == seq![
            "dom: "@ + parent + ": CHANGED "@ + elem_label(x.role@, x.name@) + " → "@ + elem_label(y.role@, y.name@),
        ] + list_diff(role_path(parent, x.role@, 1, 0), x.children@, y.children@),
{
    let ox = inserted(cs, i, x);
    let ny = inserted(cs, i, y);
    let both = ox + ny;
    let role = x.role@;
    lemma_inserted_at(cs, i, x, 0);
    lemma_inserted_at(cs, i, y, 0);
    assert(both[i] == x);
    assert(both[ox.len() + i] == y);
    let qx = lemma_key_position(both, i);
    let qy = lemma_key_position(both, ox.len() + i);
    let keys = sorted_keys(both);
    lemma_matched_replaced(parent, cs, i, x, y, keys, keys.len());
    lemma_orphans_replaced(cs, i, x, y, keys, qx, qy, role, keys.len());
    let roles = orphan_roles(ox, ny, keys, keys.len());
    assert(roles == seq![role]);
    let rm = orphans(ox, ny, keys, role, keys.len());
    let ad = orphans(ny, ox, keys, role, keys.len());
    assert(rm == seq![i]);
    assert(ad == seq![i]);
    let line = "dom: "@ + parent + ": CHANGED "@ + elem_label(x.role@, x.name@) + " → "@ + elem_label(y.role@, y.name@);
    let inner = list_diff(role_path(parent, role, 1, 0), x.children@, y.children@);
    assert(role_lines(parent, ox, ny, keys, roles, 0) == Seq::<Seq<char>>::empty());
    assert(changed_lines(parent, ox, ny, rm, ad, role, 1, 0) == Seq::<Seq<char>>::empty());
    assert(changed_lines(parent, ox, ny, rm, ad, role, 1, 1) =~= seq![line] + inner);
    assert(removed_lines(parent, ox, rm, 1, 1) == Seq::<Seq<char>>::empty());
    assert(added_lines(parent, ny, ad, 1, 1) == Seq::<Seq<char>>::empty());
    assert(role_lines(parent, ox, ny, keys, roles, 1) =~= seq![line] + inner);
    assert(list_diff(parent, ox, ny) =~= seq![line] + inner);
}

} // verus!
