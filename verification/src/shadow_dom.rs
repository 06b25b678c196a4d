//! The bookkeeping of the shadow DOM: which anchors are declared, under which
//! storage key, with which cached handle, lock, snapshot and tab.
//!
//! At subflow depth 0 an anchor is stored under its own name. At depth `N`,
//! stable, ephemeral and tab anchors are stored under `N` colons followed by
//! the name, so a child workflow's anchors never collide with its parent's;
//! root, session and browser anchors are shared by all depths under their
//! own name, and the first registration wins.
//!
//! `AnchorRegistry` decides what is stored, under which key, and what goes
//! when; `ShadowDom` resolves handles against a live desktop through the
//! platform traits and hands the registry what it found.
use vstd::prelude::*;

use crate::error::AutomataError;
use crate::keyed::Keyed;
use crate::node_cache::NodeCache;
use crate::platform::{Browser, UiDesktop};
use crate::registry::{topmost_candidate, AnchorDef, LaunchContext, Tier};
use crate::search::{element_is_live, fixed_tree, UiElement};
use crate::selector::SelectorPath;
use crate::snapshot::{law_same_tree_no_changes, node_diff, tree_depth, SnapNode, SNAP_DEPTH};
use crate::tab_handle::TabHandle;
use crate::text::{
    append, chars_of, debug_quoted, debug_str, decimal, decimal_string, eq_chars, string_of, strings_seqs,
    upper_hex_string,
};

verus! {

/// `n` colons: the storage prefix at subflow depth `n`.
pub open spec fn colons(n: nat) -> Seq<char> {
    Seq::new(n, |i: int| ':')
}

/// The storage key of a depth-scoped anchor.
pub open spec fn prefixed_key(depth: nat, name: Seq<char>) -> Seq<char> {
    colons(depth) + name
}

/// Root, session and browser anchors are shared by all subflow depths.
pub open spec fn is_global(t: Tier) -> bool {
    t == Tier::Root || t == Tier::Session || t == Tier::Browser
}

/// Registers one definition at `depth`: the map afterwards and the key it
/// went under (`None` when a shared anchor of that name was already there).
pub open spec fn register_one(m: Map<Seq<char>, AnchorDef>, depth: usize, d: AnchorDef) -> (
    Map<Seq<char>, AnchorDef>,
    Option<Seq<char>>,
) {
    let stored = AnchorDef { mount_depth: depth, ..d };
    if is_global(d.tier) {
        if m.dom().contains(d.name@) {
            (m, None)
        } else {
            (m.insert(d.name@, stored), Some(d.name@))
        }
    } else {
        let k = prefixed_key(depth as nat, d.name@);
        (m.insert(k, stored), Some(k))
    }
}

/// Registers the definitions in order: the map afterwards and the keys that
/// were registered, with their tiers.
pub open spec fn register_all(m: Map<Seq<char>, AnchorDef>, depth: usize, ds: Seq<AnchorDef>) -> (
    Map<Seq<char>, AnchorDef>,
    Seq<(Seq<char>, Tier)>,
)
    decreases ds.len(),
{
    if ds.len() == 0 {
        (m, Seq::empty())
    } else {
        let (m1, ks) = register_all(m, depth, ds.drop_last());
        let (m2, k) = register_one(m1, depth, ds.last());
        (
            m2,
            match k {
                Some(k) => ks.push((k, ds.last().tier)),
                None => ks,
            },
        )
    }
}

pub open spec fn opt_name(o: Option<String>) -> Option<Seq<char>> {
    match o {
        Some(s) => Some(s@),
        None => None,
    }
}

/// Whether following parent names from `p`, through the definitions stored
/// under those names, reaches `target` within `fuel` lookups.
pub open spec fn chain_reaches(
    defs: Map<Seq<char>, AnchorDef>,
    p: Option<Seq<char>>,
    target: Seq<char>,
    fuel: nat,
) -> bool
    decreases fuel,
{
    match p {
        None => false,
        Some(n) => n == target || (fuel > 0 && defs.dom().contains(n) && chain_reaches(
            defs,
            opt_name(defs[n].parent),
            target,
            (fuel - 1) as nat,
        )),
    }
}

/// `d` hangs, through its parents, under the anchor named `target`. One
/// lookup per stored definition suffices: a longer chain has run into a cycle
/// that does not pass `target`.
pub open spec fn depends_on_spec(defs: Map<Seq<char>, AnchorDef>, d: AnchorDef, target: Seq<char>) -> bool {
    chain_reaches(defs, opt_name(d.parent), target, defs.dom().len())
}

/// The names of the stored definitions that hang under `target`.
pub open spec fn dependents(defs: Map<Seq<char>, AnchorDef>, target: Seq<char>) -> Set<Seq<char>> {
    Set::new(
        |n: Seq<char>|
            exists|k: Seq<char>|
                #![trigger defs[k]]
                defs.dom().contains(k) && defs[k].name@ == n && depends_on_spec(defs, defs[k], target),
    )
}

/// A key that starts with exactly `depth` colons and has more after them.
pub open spec fn exact_depth_key(k: Seq<char>, depth: nat) -> bool {
    &&& k.len() > depth
    &&& k.take(depth as int) == colons(depth)
    &&& k[depth as int] != ':'
}

/// The shadow DOM's registry. `E` is the platform's element handle type.
pub struct AnchorRegistry<E> {
    /// Declared anchors, by storage key.
    pub defs: Keyed<AnchorDef>,
    /// Cached handles and find results.
    pub nodes: NodeCache<E>,
    /// Last tree snapshot per anchor, the baseline of the next change report.
    pub snapshots: Keyed<SnapNode>,
    /// Window handle and process id captured when a root-level anchor was
    /// first resolved; later resolutions stay on that window.
    pub locks: Keyed<(Option<u64>, u32)>,
    /// Set after a successful `launch:` wait; filters the first resolution
    /// of root anchors.
    pub launch_context: Option<LaunchContext>,
    /// Current subflow depth.
    pub depth: usize,
    /// Mounted tabs, by storage key.
    pub tab_handles: Keyed<TabHandle>,
}

/// The registry's contents apart from the cached handles.
pub open spec fn same_tables<E>(a: &AnchorRegistry<E>, b: &AnchorRegistry<E>) -> bool {
    &&& a.defs@ == b.defs@
    &&& a.snapshots@ == b.snapshots@
    &&& a.locks@ == b.locks@
    &&& a.tab_handles@ == b.tab_handles@
    &&& a.depth == b.depth
}

fn colons_exec(n: usize) -> (r: Vec<char>)
    ensures
        r@ == colons(n as nat),
{
    let mut v: Vec<char> = Vec::new();
    let mut i: usize = 0;
    while i < n
        invariant
            i <= n,
            v@ == colons(i as nat),
        decreases n - i,
    {
        v.push(':');
        i = i + 1;
        assert(v@ =~= colons(i as nat));
    }
    v
}

fn clone_opt(o: &Option<String>) -> (r: Option<String>)
    ensures
        r == *o,
{
    match o {
        Some(s) => Some(s.clone()),
        None => None,
    }
}

impl<E> AnchorRegistry<E> {
    /// The storage key `name` resolves to at the current depth: at depth 0
    /// the name itself; deeper, the prefixed key when an anchor is stored
    /// under it, else the name (anchors shared with the parent workflow).
    pub open spec fn effective_key_spec(&self, raw: Seq<char>) -> Seq<char> {
        if self.depth == 0 {
            raw
        } else {
            let p = prefixed_key(self.depth as nat, raw);
            if self.defs@.dom().contains(p) || self.nodes.anchors@.dom().contains(p) {
                p
            } else {
                raw
            }
        }
    }

    pub fn new() -> (r: AnchorRegistry<E>)
        ensures
            r.defs@ == Map::<Seq<char>, AnchorDef>::empty(),
            r.nodes.anchors@.dom() == Set::<Seq<char>>::empty(),
            r.snapshots@ == Map::<Seq<char>, SnapNode>::empty(),
            r.locks@ == Map::<Seq<char>, (Option<u64>, u32)>::empty(),
            r.tab_handles@ == Map::<Seq<char>, TabHandle>::empty(),
            r.launch_context is None,
            r.depth == 0,
    {
        let r = AnchorRegistry {
            defs: Keyed::new(),
            nodes: NodeCache::new(),
            snapshots: Keyed::new(),
            locks: Keyed::new(),
            launch_context: None,
            depth: 0,
            tab_handles: Keyed::new(),
        };
        assert(r.nodes.anchors@.dom() =~= Set::<Seq<char>>::empty());
        r
    }

    /// `name` with the current depth's prefix.
    pub fn prefixed(&self, name: &str) -> (r: String)
        ensures
            r@ == prefixed_key(self.depth as nat, name@),
    {
        let mut v = colons_exec(self.depth);
        append(&mut v, &chars_of(name));
        string_of(&v)
    }

    /// The storage key `raw_name` refers to (see `effective_key_spec`).
    pub fn effective_key(&self, raw_name: &str) -> (r: String)
        ensures
            r@ == self.effective_key_spec(raw_name@),
    {
        if self.depth == 0 {
            return raw_name.to_string();
        }
        let p = self.prefixed(raw_name);
        if self.defs.contains(p.as_str()) || self.nodes.element(p.as_str()).is_some() {
            p
        } else {
            raw_name.to_string()
        }
    }

    /// Registers anchor definitions at the current depth (see
    /// `register_all`) and returns the keys registered, with their tiers, in
    /// order: the caller resolves the new browser and root anchors and opens
    /// the new tabs.
    pub fn register(&mut self, anchors: Vec<AnchorDef>) -> (r: Vec<(String, Tier)>)
        ensures
            final(self).defs@ == register_all(old(self).defs@, old(self).depth, anchors@).0,
            r@.len() == register_all(old(self).defs@, old(self).depth, anchors@).1.len(),
            forall|i: int|
                0 <= i < r@.len() ==> (#[trigger] r@[i]).0@ == register_all(
                    old(self).defs@,
                    old(self).depth,
                    anchors@,
                ).1[i].0 && r@[i].1 == register_all(old(self).defs@, old(self).depth, anchors@).1[i].1,
            final(self).nodes.anchors@ == old(self).nodes.anchors@,
            final(self).snapshots@ == old(self).snapshots@,
            final(self).locks@ == old(self).locks@,
            final(self).tab_handles@ == old(self).tab_handles@,
            final(self).depth == old(self).depth,
    {
        let ghost all = anchors@;
        let ghost m0 = self.defs@;
        let mut rest = anchors;
        let mut out: Vec<(String, Tier)> = Vec::new();
        let mut i: usize = 0;
        let n = rest.len();
        while i < n
            invariant
                n == all.len(),
                i <= n,
                rest@ == all.skip(i as int),
                self.defs@ == register_all(m0, self.depth, all.take(i as int)).0,
                out@.len() == register_all(m0, self.depth, all.take(i as int)).1.len(),
                forall|j: int|
                    0 <= j < out@.len() ==> (#[trigger] out@[j]).0@ == register_all(
                        m0,
                        self.depth,
                        all.take(i as int),
                    ).1[j].0 && out@[j].1 == register_all(m0, self.depth, all.take(i as int)).1[j].1,
                self.nodes.anchors@ == old(self).nodes.anchors@,
                self.snapshots@ == old(self).snapshots@,
                self.locks@ == old(self).locks@,
                self.tab_handles@ == old(self).tab_handles@,
                self.depth == old(self).depth,
            decreases n - i,
        {
            assert(all.take(i + 1).drop_last() =~= all.take(i as int));
            assert(all.take(i + 1).last() == all[i as int]);
            assert(rest@[0] == all[i as int]);
            let mut def = rest.remove(0);
            assert(rest@ =~= all.skip(i + 1));
            let global = match def.tier {
                Tier::Root | Tier::Session | Tier::Browser => true,
                _ => false,
            };
            let ghost d0 = def;
            def.mount_depth = self.depth;
            assert(def == AnchorDef { mount_depth: self.depth, ..d0 });
            if global {
                if self.defs.contains(def.name.as_str()) {
                    i = i + 1;
                    continue;
                }
                let key = def.name.clone();
                let tier = def.tier;
                out.push((key.clone(), tier));
                self.defs.insert(key, def);
            } else {
                let key = self.prefixed(def.name.as_str());
                let tier = def.tier;
                out.push((key.clone(), tier));
                self.defs.insert(key, def);
            }
            i = i + 1;
        }
        assert(all.take(n as int) =~= all);
        out
    }

    /// Stores a handle captured under `raw_name` (ephemeral captures), keyed
    /// at the current depth; returns the handle's id.
    pub fn insert(&mut self, raw_name: &str, element: E) -> (id: u64)
        ensures
            id == old(self).nodes.next_id,
            final(self).nodes.anchors@ == old(self).nodes.anchors@.insert(
                prefixed_key(old(self).depth as nat, raw_name@),
                crate::node_cache::CachedNode { element, id },
            ),
            same_tables(&*final(self), &*old(self)),
    {
        let key = self.prefixed(raw_name);
        self.nodes.insert(key, element)
    }

    /// For a tab anchor stored under `key`, the browser anchor it belongs to:
    /// a tab has no element of its own.
    pub fn tab_parent(&self, key: &str) -> (r: Option<String>)
        ensures
            r == (if self.defs@.dom().contains(key@) && self.defs@[key@].tier == Tier::Tab {
                self.defs@[key@].parent
            } else {
                None
            }),
    {
        match self.defs.get(key) {
            Some(d) => if d.tier == Tier::Tab {
                clone_opt(&d.parent)
            } else {
                None
            },
            None => None,
        }
    }

    /// Whether `def` hangs under `session_name` (see `depends_on_spec`).
    pub fn depends_on(&self, def: &AnchorDef, session_name: &str) -> (r: bool)
        ensures
            r == depends_on_spec(self.defs@, *def, session_name@),
    {
        let n = self.defs.len();
        let mut cur: Option<String> = clone_opt(&def.parent);
        let mut fuel: usize = n;
        let target = chars_of(session_name);
        loop
            invariant
                target@ == session_name@,
                fuel <= n,
                n == self.defs@.dom().len(),
                depends_on_spec(self.defs@, *def, session_name@) == chain_reaches(
                    self.defs@,
                    opt_name(cur),
                    session_name@,
                    fuel as nat,
                ),
            decreases fuel,
        {
            let p = match cur {
                None => {
                    return false;
                },
                Some(p) => p,
            };
            if eq_chars(&chars_of(p.as_str()), &target) {
                return true;
            }
            if fuel == 0 {
                return false;
            }
            match self.defs.get(p.as_str()) {
                None => {
                    return false;
                },
                Some(d) => {
                    cur = clone_opt(&d.parent);
                },
            }
            fuel = fuel - 1;
        }
    }
}


/// The keys `invalidate_session` drops handles, locks and snapshots under:
/// the session's and those of the anchors hanging under it.
pub open spec fn invalidated(defs: Map<Seq<char>, AnchorDef>, session: Seq<char>) -> Set<Seq<char>> {
    dependents(defs, session).insert(session)
}

impl<E> AnchorRegistry<E> {
    /// Drops the cached handle, lock and snapshot of a session anchor and of
    /// every anchor hanging under it; their definitions stay, so they are
    /// resolved afresh on next use.
    pub fn invalidate_session(&mut self, session_name: &str)
        ensures
            final(self).defs@ == old(self).defs@,
            final(self).tab_handles@ == old(self).tab_handles@,
            final(self).depth == old(self).depth,
            final(self).locks@ == old(self).locks@.remove_keys(invalidated(old(self).defs@, session_name@)),
            final(self).snapshots@ == old(self).snapshots@.remove_keys(
                invalidated(old(self).defs@, session_name@),
            ),
            final(self).nodes.anchors@ == old(self).nodes.anchors@.remove_keys(
                invalidated(old(self).defs@, session_name@),
            ),
            final(self).nodes.found@ == old(self).nodes.found@.remove_keys(
                invalidated(old(self).defs@, session_name@),
            ),
    {
        let ghost defs = self.defs@;
        let ghost target = session_name@;
        let _ = self.locks.remove(session_name);
        let _ = self.nodes.remove(session_name);
        let _ = self.snapshots.remove(session_name);
        let keys = self.defs.keys();
        let ghost mut gone: Set<Seq<char>> = set![target];
        proof {
            assert(self.locks@ =~= old(self).locks@.remove_keys(gone));
            assert(self.snapshots@ =~= old(self).snapshots@.remove_keys(gone));
            assert(self.nodes.anchors@ =~= old(self).nodes.anchors@.remove_keys(gone));
            assert(self.nodes.found@ =~= old(self).nodes.found@.remove_keys(gone));
        }
        let mut i: usize = 0;
        while i < keys.len()
            invariant
                i <= keys@.len(),
                self.defs@ == defs,
                defs == old(self).defs@,
                target == session_name@,
                self.tab_handles@ == old(self).tab_handles@,
                self.depth == old(self).depth,
                forall|k: Seq<char>| defs.dom().contains(k) <==> exists|t: int| 0 <= t < keys@.len() && #[trigger] keys@[t]@ == k,
                gone == Set::new(
                    |n: Seq<char>|
                        n == target || exists|t: int|
                            #![trigger keys@[t]]
                            0 <= t < i && defs[keys@[t]@].name@ == n && depends_on_spec(
                                defs,
                                defs[keys@[t]@],
                                target,
                            ),
                ),
                self.locks@ == old(self).locks@.remove_keys(gone),
                self.snapshots@ == old(self).snapshots@.remove_keys(gone),
                self.nodes.anchors@ == old(self).nodes.anchors@.remove_keys(gone),
                self.nodes.found@ == old(self).nodes.found@.remove_keys(gone),
            decreases keys@.len() - i,
        {
            let ghost key_i = keys@[i as int]@;
            assert(defs.dom().contains(key_i));
            let d = self.defs.get(keys[i].as_str()).unwrap();
            let hit = self.depends_on(d, session_name);
            if hit {
                let name = d.name.clone();
                let _ = self.locks.remove(name.as_str());
                let _ = self.nodes.remove(name.as_str());
                let _ = self.snapshots.remove(name.as_str());
                proof {
                    let g2 = gone.insert(name@);
                    assert(self.locks@ =~= old(self).locks@.remove_keys(g2));
                    assert(self.snapshots@ =~= old(self).snapshots@.remove_keys(g2));
                    assert(self.nodes.anchors@ =~= old(self).nodes.anchors@.remove_keys(g2));
                    assert(self.nodes.found@ =~= old(self).nodes.found@.remove_keys(g2));
                    gone = g2;
                }
            }
            proof {
                let next = Set::new(
                    |n: Seq<char>|
                        n == target || exists|t: int|
                            #![trigger keys@[t]]
                            0 <= t < i + 1 && defs[keys@[t]@].name@ == n && depends_on_spec(
                                defs,
                                defs[keys@[t]@],
                                target,
                            ),
                );
                assert forall|n: Seq<char>| #[trigger] gone.contains(n) <==> next.contains(n) by {
                    if next.contains(n) && n != target {
                        let t = choose|t: int|
                            #![trigger keys@[t]]
                            0 <= t < i + 1 && defs[keys@[t]@].name@ == n && depends_on_spec(
                                defs,
                                defs[keys@[t]@],
                                target,
                            );
                        if t < i {
                            assert(gone.contains(n));
                        }
                    }
                }
                assert(gone =~= next);
            }
            i = i + 1;
        }
        proof {
            assert forall|n: Seq<char>| #[trigger] gone.contains(n) <==> invalidated(defs, target).contains(n) by {
                if invalidated(defs, target).contains(n) && n != target {
                    let k = choose|k: Seq<char>|
                        #![trigger defs[k]]
                        defs.dom().contains(k) && defs[k].name@ == n && depends_on_spec(defs, defs[k], target);
                    let t = choose|t: int| 0 <= t < keys@.len() && #[trigger] keys@[t]@ == k;
                    assert(defs[keys@[t]@].name@ == n);
                }
                if gone.contains(n) && n != target {
                    let t = choose|t: int|
                        #![trigger keys@[t]]
                        0 <= t < keys@.len() && defs[keys@[t]@].name@ == n && depends_on_spec(
                            defs,
                            defs[keys@[t]@],
                            target,
                        );
                    let k = keys@[t]@;
                    assert(defs.dom().contains(k));
                    assert(dependents(defs, target).contains(n));
                }
            }
            assert(gone =~= invalidated(defs, target));
        }
    }
}

/// Unmounting `names` in order at `depth`: the definitions afterwards and
/// the storage keys dropped. A name whose stored definition is a shared
/// (root, session or browser) anchor is skipped; any other name drops its
/// key at the current depth.
pub open spec fn unmount_fold(defs: Map<Seq<char>, AnchorDef>, depth: nat, names: Seq<Seq<char>>) -> (
    Map<Seq<char>, AnchorDef>,
    Set<Seq<char>>,
)
    decreases names.len(),
{
    if names.len() == 0 {
        (defs, Set::empty())
    } else {
        let (d1, r1) = unmount_fold(defs, depth, names.drop_last());
        let n = names.last();
        if d1.dom().contains(n) && is_global(d1[n].tier) {
            (d1, r1)
        } else {
            let k = prefixed_key(depth, n);
            (d1.remove(k), r1.insert(k))
        }
    }
}

pub open spec fn names_view(v: Seq<String>) -> Seq<Seq<char>> {
    v.map_values(|s: String| s@)
}

/// What unmounting leaves of the definitions is the definitions without the
/// dropped keys.
pub proof fn lemma_unmount_fold(defs: Map<Seq<char>, AnchorDef>, depth: nat, names: Seq<Seq<char>>)
    ensures
        unmount_fold(defs, depth, names).0 == defs.remove_keys(unmount_fold(defs, depth, names).1),
    decreases names.len(),
{
    if names.len() > 0 {
        lemma_unmount_fold(defs, depth, names.drop_last());
        let (d1, r1) = unmount_fold(defs, depth, names.drop_last());
        let n = names.last();
        if !(d1.dom().contains(n) && is_global(d1[n].tier)) {
            let k = prefixed_key(depth, n);
            assert(d1.remove(k) =~= defs.remove_keys(r1.insert(k)));
        }
    }
}

/// The definition keys mounted at `depth`.
pub open spec fn defs_at_depth(defs: Map<Seq<char>, AnchorDef>, depth: usize) -> Set<Seq<char>> {
    Set::new(|k: Seq<char>| defs.dom().contains(k) && defs[k].mount_depth == depth)
}

/// The handle keys stored at exactly `depth` (captures without a definition
/// included).
pub open spec fn nodes_at_depth<E>(nodes: Map<Seq<char>, crate::node_cache::CachedNode<E>>, depth: usize) -> Set<
    Seq<char>,
> {
    Set::new(|k: Seq<char>| nodes.dom().contains(k) && exact_depth_key(k, depth as nat))
}

/// The tab keys mounted at `depth`.
pub open spec fn tabs_at_depth(tabs: Map<Seq<char>, TabHandle>, depth: usize) -> Set<Seq<char>> {
    Set::new(|k: Seq<char>| tabs.dom().contains(k) && tabs[k].depth == depth)
}

fn is_exact_depth_key(k: &String, depth: usize) -> (r: bool)
    ensures
        r == exact_depth_key(k@, depth as nat),
{
    let c = chars_of(k.as_str());
    if c.len() <= depth {
        return false;
    }
    let p = colons_exec(depth);
    let head = crate::text::slice_of(&c, 0, depth);
    assert(head@ =~= c@.take(depth as int));
    eq_chars(&head, &p) && c[depth] != ':'
}

impl<E> AnchorRegistry<E> {
    /// Unmounts anchors by name, at the current depth (see `unmount_fold`):
    /// their definitions, handles, locks, snapshots and tabs all go, so the
    /// names are unknown afterwards. Gives back the dropped tabs; the caller
    /// closes those the workflow opened.
    pub fn unmount(&mut self, names: &Vec<String>) -> (closed: Vec<(String, TabHandle)>)
        ensures
            ({
                let (d, gone) = unmount_fold(old(self).defs@, old(self).depth as nat, names_view(names@));
                &&& final(self).defs@ == d
                &&& final(self).defs@ == old(self).defs@.remove_keys(gone)
                &&& final(self).locks@ == old(self).locks@.remove_keys(gone)
                &&& final(self).snapshots@ == old(self).snapshots@.remove_keys(gone)
                &&& final(self).nodes.anchors@ == old(self).nodes.anchors@.remove_keys(gone)
                &&& final(self).nodes.found@ == old(self).nodes.found@.remove_keys(gone)
                &&& final(self).tab_handles@ == old(self).tab_handles@.remove_keys(gone)
                &&& forall|i: int| 0 <= i < closed@.len() ==> gone.contains(#[trigger] closed@[i].0@)
                    && old(self).tab_handles@.dom().contains(closed@[i].0@)
                    && old(self).tab_handles@[closed@[i].0@] == closed@[i].1
            }),
            final(self).depth == old(self).depth,
    {
        let ghost nv = names_view(names@);
        let ghost d0 = old(self).defs@;
        let ghost depth = self.depth as nat;
        let mut closed: Vec<(String, TabHandle)> = Vec::new();
        let mut i: usize = 0;
        proof {
            assert(nv.take(0) =~= Seq::<Seq<char>>::empty());
            let gone0 = Set::<Seq<char>>::empty();
            assert(self.locks@ =~= old(self).locks@.remove_keys(gone0));
            assert(self.snapshots@ =~= old(self).snapshots@.remove_keys(gone0));
            assert(self.nodes.anchors@ =~= old(self).nodes.anchors@.remove_keys(gone0));
            assert(self.nodes.found@ =~= old(self).nodes.found@.remove_keys(gone0));
            assert(self.tab_handles@ =~= old(self).tab_handles@.remove_keys(gone0));
        }
        while i < names.len()
            invariant
                i <= names@.len(),
                nv == names_view(names@),
                depth == self.depth as nat,
                self.depth == old(self).depth,
                d0 == old(self).defs@,
                ({
                    let (d, gone) = unmount_fold(d0, depth, nv.take(i as int));
                    &&& self.defs@ == d
                    &&& self.locks@ == old(self).locks@.remove_keys(gone)
                    &&& self.snapshots@ == old(self).snapshots@.remove_keys(gone)
                    &&& self.nodes.anchors@ == old(self).nodes.anchors@.remove_keys(gone)
                    &&& self.nodes.found@ == old(self).nodes.found@.remove_keys(gone)
                    &&& self.tab_handles@ == old(self).tab_handles@.remove_keys(gone)
                    &&& forall|j: int| 0 <= j < closed@.len() ==> gone.contains(#[trigger] closed@[j].0@)
                        && old(self).tab_handles@.dom().contains(closed@[j].0@)
                        && old(self).tab_handles@[closed@[j].0@] == closed@[j].1
                }),
            decreases names@.len() - i,
        {
            let ghost prev = unmount_fold(d0, depth, nv.take(i as int));
            let ghost n = names@[i as int]@;
            assert(nv.take(i + 1).drop_last() =~= nv.take(i as int));
            assert(nv.take(i + 1).last() == n);
            let name = names[i].as_str();
            let shared = match self.defs.get(name) {
                Some(d) => match d.tier {
                    Tier::Root | Tier::Session | Tier::Browser => true,
                    _ => false,
                },
                None => false,
            };
            assert(shared == (prev.0.dom().contains(n) && is_global(prev.0[n].tier)));
            if !shared {
                let key = self.prefixed(name);
                let ghost k = key@;
                let ghost gone2 = prev.1.insert(k);
                assert(unmount_fold(d0, depth, nv.take(i + 1)) == (prev.0.remove(k), gone2));
                let ghost tabs_before = self.tab_handles@;
                let ghost closed_before = closed@;
                match self.tab_handles.remove(key.as_str()) {
                    Some(h) => {
                        closed.push((key.clone(), h));
                        assert(old(self).tab_handles@.dom().contains(k));
                        assert(old(self).tab_handles@[k] == h);
                    },
                    None => {},
                }
                let _ = self.defs.remove(key.as_str());
                let _ = self.locks.remove(key.as_str());
                let _ = self.nodes.remove(key.as_str());
                let _ = self.snapshots.remove(key.as_str());
                proof {
                    assert(self.locks@ =~= old(self).locks@.remove_keys(gone2));
                    assert(self.snapshots@ =~= old(self).snapshots@.remove_keys(gone2));
                    assert(self.nodes.anchors@ =~= old(self).nodes.anchors@.remove_keys(gone2));
                    assert(self.nodes.found@ =~= old(self).nodes.found@.remove_keys(gone2));
                    assert(self.tab_handles@ =~= old(self).tab_handles@.remove_keys(gone2));
                }
            } else {
                assert(unmount_fold(d0, depth, nv.take(i + 1)) == prev);
            }
            i = i + 1;
        }
        proof {
            assert(nv.take(i as int) =~= nv);
            lemma_unmount_fold(d0, depth, nv);
        }
        closed
    }
}

impl<E> AnchorRegistry<E> {
    /// Removes everything mounted at exactly `depth`, as a safety net when a
    /// subflow ends: the tabs mounted there (given back, for the caller to
    /// close those the workflow opened), the definitions registered there
    /// with their handles, locks and snapshots, and handles stored under
    /// that depth's prefix without a definition.
    pub fn cleanup_depth(&mut self, depth: usize) -> (closed: Vec<(String, TabHandle)>)
        ensures
            ({
                let d = defs_at_depth(old(self).defs@, depth);
                let n = nodes_at_depth(old(self).nodes.anchors@, depth);
                let t = tabs_at_depth(old(self).tab_handles@, depth);
                &&& final(self).tab_handles@ == old(self).tab_handles@.remove_keys(t)
                &&& final(self).defs@ == old(self).defs@.remove_keys(d)
                &&& final(self).locks@ == old(self).locks@.remove_keys(d)
                &&& final(self).snapshots@ == old(self).snapshots@.remove_keys(d)
                &&& final(self).nodes.anchors@ == old(self).nodes.anchors@.remove_keys(d.union(n))
                &&& final(self).nodes.found@ == old(self).nodes.found@.remove_keys(d.union(n))
                &&& forall|i: int| 0 <= i < closed@.len() ==> t.contains(#[trigger] closed@[i].0@)
                    && old(self).tab_handles@[closed@[i].0@] == closed@[i].1
                &&& closed@.len() == t.len()
            }),
            final(self).depth == old(self).depth,
    {
        let ghost t_all = tabs_at_depth(old(self).tab_handles@, depth);
        let ghost d_all = defs_at_depth(old(self).defs@, depth);
        let ghost n_all = nodes_at_depth(old(self).nodes.anchors@, depth);
        // Tabs at this depth.
        let tab_keys = self.tab_handles.keys();
        let mut closed: Vec<(String, TabHandle)> = Vec::new();
        let ghost mut t_set: Set<Seq<char>> = Set::empty();
        let mut i: usize = 0;
        proof {
            assert(self.tab_handles@ =~= old(self).tab_handles@.remove_keys(t_set));
        }
        while i < tab_keys.len()
            invariant
                i <= tab_keys@.len(),
                forall|k: Seq<char>| old(self).tab_handles@.dom().contains(k) <==> exists|t: int| 0 <= t < tab_keys@.len() && #[trigger] tab_keys@[t]@ == k,
                forall|a: int, b: int| 0 <= a < b < tab_keys@.len() ==> #[trigger] tab_keys@[a]@ != #[trigger] tab_keys@[b]@,
                t_set == Set::new(|k: Seq<char>| exists|t: int| 0 <= t < i && #[trigger] tab_keys@[t]@ == k && old(self).tab_handles@[k].depth == depth),
                self.tab_handles@ == old(self).tab_handles@.remove_keys(t_set),
                t_set.finite(),
                closed@.len() == t_set.len(),
                forall|j: int| 0 <= j < closed@.len() ==> t_set.contains(#[trigger] closed@[j].0@)
                    && old(self).tab_handles@[closed@[j].0@] == closed@[j].1,
                self.defs@ == old(self).defs@,
                self.locks@ == old(self).locks@,
                self.snapshots@ == old(self).snapshots@,
                self.nodes.anchors@ == old(self).nodes.anchors@,
                self.nodes.found@ == old(self).nodes.found@,
                self.depth == old(self).depth,
            decreases tab_keys@.len() - i,
        {
            let ghost k = tab_keys@[i as int]@;
            assert(old(self).tab_handles@.dom().contains(k));
            assert(!t_set.contains(k)) by {
                if t_set.contains(k) {
                    let t = choose|t: int| 0 <= t < i && #[trigger] tab_keys@[t]@ == k && old(self).tab_handles@[k].depth == depth;
                    assert(tab_keys@[t]@ != tab_keys@[i as int]@);
                }
            }
            let at_depth = match self.tab_handles.get(tab_keys[i].as_str()) {
                Some(h) => h.depth == depth,
                None => false,
            };
            let ghost next = Set::new(|k2: Seq<char>| exists|t: int| 0 <= t < i + 1 && #[trigger] tab_keys@[t]@ == k2 && old(self).tab_handles@[k2].depth == depth);
            if at_depth {
                let h = self.tab_handles.remove(tab_keys[i].as_str());
                match h {
                    Some(h) => {
                        closed.push((tab_keys[i].clone(), h));
                    },
                    None => {},
                }
                proof {
                    assert(next =~= t_set.insert(k));
                    t_set = t_set.insert(k);
                    assert(self.tab_handles@ =~= old(self).tab_handles@.remove_keys(t_set));
                }
            } else {
                proof {
                    assert(next =~= t_set);
                }
            }
            i = i + 1;
        }
        proof {
            assert(t_set =~= t_all) by {
                assert forall|k: Seq<char>| #[trigger] t_all.contains(k) implies t_set.contains(k) by {
                    let t = choose|t: int| 0 <= t < tab_keys@.len() && #[trigger] tab_keys@[t]@ == k;
                }
            }
        }
        // Handles stored under this depth's prefix.
        let node_keys = self.nodes.anchor_names();
        // Definitions registered at this depth, with their handles, locks and snapshots.
        let def_keys = self.defs.keys();
        let ghost mut d_set: Set<Seq<char>> = Set::empty();
        let mut j: usize = 0;
        proof {
            assert(self.defs@ =~= old(self).defs@.remove_keys(d_set));
            assert(self.locks@ =~= old(self).locks@.remove_keys(d_set));
            assert(self.snapshots@ =~= old(self).snapshots@.remove_keys(d_set));
            assert(self.nodes.anchors@ =~= old(self).nodes.anchors@.remove_keys(d_set));
            assert(self.nodes.found@ =~= old(self).nodes.found@.remove_keys(d_set));
        }
        while j < def_keys.len()
            invariant
                j <= def_keys@.len(),
                forall|k: Seq<char>| old(self).defs@.dom().contains(k) <==> exists|t: int| 0 <= t < def_keys@.len() && #[trigger] def_keys@[t]@ == k,
                forall|a: int, b: int| 0 <= a < b < def_keys@.len() ==> #[trigger] def_keys@[a]@ != #[trigger] def_keys@[b]@,
                d_set == Set::new(|k: Seq<char>| exists|t: int| 0 <= t < j && #[trigger] def_keys@[t]@ == k && old(self).defs@[k].mount_depth == depth),
                self.defs@ == old(self).defs@.remove_keys(d_set),
                self.locks@ == old(self).locks@.remove_keys(d_set),
                self.snapshots@ == old(self).snapshots@.remove_keys(d_set),
                self.nodes.anchors@ == old(self).nodes.anchors@.remove_keys(d_set),
                self.nodes.found@ == old(self).nodes.found@.remove_keys(d_set),
                self.tab_handles@ == old(self).tab_handles@.remove_keys(t_all),
                self.depth == old(self).depth,
            decreases def_keys@.len() - j,
        {
            let ghost k = def_keys@[j as int]@;
            assert(old(self).defs@.dom().contains(k));
            assert(!d_set.contains(k)) by {
                if d_set.contains(k) {
                    let t = choose|t: int| 0 <= t < j && #[trigger] def_keys@[t]@ == k && old(self).defs@[k].mount_depth == depth;
                    assert(def_keys@[t]@ != def_keys@[j as int]@);
                }
            }
            let at_depth = match self.defs.get(def_keys[j].as_str()) {
                Some(d) => d.mount_depth == depth,
                None => false,
            };
            let ghost next = Set::new(|k2: Seq<char>| exists|t: int| 0 <= t < j + 1 && #[trigger] def_keys@[t]@ == k2 && old(self).defs@[k2].mount_depth == depth);
            if at_depth {
                let key = def_keys[j].as_str();
                let _ = self.defs.remove(key);
                let _ = self.locks.remove(key);
                let _ = self.nodes.remove(key);
                let _ = self.snapshots.remove(key);
                proof {
                    assert(next =~= d_set.insert(k));
                    d_set = d_set.insert(k);
                    assert(self.defs@ =~= old(self).defs@.remove_keys(d_set));
                    assert(self.locks@ =~= old(self).locks@.remove_keys(d_set));
                    assert(self.snapshots@ =~= old(self).snapshots@.remove_keys(d_set));
                    assert(self.nodes.anchors@ =~= old(self).nodes.anchors@.remove_keys(d_set));
                    assert(self.nodes.found@ =~= old(self).nodes.found@.remove_keys(d_set));
                }
            } else {
                proof {
                    assert(next =~= d_set);
                }
            }
            j = j + 1;
        }
        proof {
            assert(d_set =~= d_all) by {
                assert forall|k: Seq<char>| #[trigger] d_all.contains(k) implies d_set.contains(k) by {
                    let t = choose|t: int| 0 <= t < def_keys@.len() && #[trigger] def_keys@[t]@ == k;
                }
            }
        }
        let ghost mut n_set: Set<Seq<char>> = d_all;
        let mut m: usize = 0;
        while m < node_keys.len()
            invariant
                m <= node_keys@.len(),
                forall|k: Seq<char>| old(self).nodes.anchors@.dom().contains(k) <==> exists|t: int| 0 <= t < node_keys@.len() && #[trigger] node_keys@[t]@ == k,
                n_set == d_all.union(Set::new(|k: Seq<char>| exists|t: int| 0 <= t < m && #[trigger] node_keys@[t]@ == k && exact_depth_key(k, depth as nat))),
                self.nodes.anchors@ == old(self).nodes.anchors@.remove_keys(n_set),
                self.nodes.found@ == old(self).nodes.found@.remove_keys(n_set),
                self.defs@ == old(self).defs@.remove_keys(d_all),
                self.locks@ == old(self).locks@.remove_keys(d_all),
                self.snapshots@ == old(self).snapshots@.remove_keys(d_all),
                self.tab_handles@ == old(self).tab_handles@.remove_keys(t_all),
                self.depth == old(self).depth,
            decreases node_keys@.len() - m,
        {
            let ghost k = node_keys@[m as int]@;
            let ghost next = d_all.union(Set::new(|k2: Seq<char>| exists|t: int| 0 <= t < m + 1 && #[trigger] node_keys@[t]@ == k2 && exact_depth_key(k2, depth as nat)));
            if is_exact_depth_key(&node_keys[m], depth) {
                let _ = self.nodes.remove(node_keys[m].as_str());
                proof {
                    assert(next =~= n_set.insert(k));
                    n_set = n_set.insert(k);
                    assert(self.nodes.anchors@ =~= old(self).nodes.anchors@.remove_keys(n_set));
                    assert(self.nodes.found@ =~= old(self).nodes.found@.remove_keys(n_set));
                }
            } else {
                proof {
                    assert(next =~= n_set);
                }
            }
            m = m + 1;
        }
        proof {
            let u = d_all.union(n_all);
            assert forall|k: Seq<char>| #[trigger] old(self).nodes.anchors@.remove_keys(n_set).dom().contains(k) == old(self).nodes.anchors@.remove_keys(u).dom().contains(k) by {
                if old(self).nodes.anchors@.dom().contains(k) && exact_depth_key(k, depth as nat) {
                    let t = choose|t: int| 0 <= t < node_keys@.len() && #[trigger] node_keys@[t]@ == k;
                }
            }
            assert(old(self).nodes.anchors@.remove_keys(n_set) =~= old(self).nodes.anchors@.remove_keys(u));
            assert forall|k: Seq<char>| #[trigger] old(self).nodes.found@.remove_keys(n_set).dom().contains(k) == old(self).nodes.found@.remove_keys(u).dom().contains(k) by {
                if old(self).nodes.anchors@.dom().contains(k) && exact_depth_key(k, depth as nat) {
                    let t = choose|t: int| 0 <= t < node_keys@.len() && #[trigger] node_keys@[t]@ == k;
                }
                if n_set.contains(k) && !d_all.contains(k) {
                    let t = choose|t: int| 0 <= t < node_keys@.len() && #[trigger] node_keys@[t]@ == k && exact_depth_key(k, depth as nat);
                    assert(old(self).nodes.anchors@.dom().contains(k));
                }
            }
            assert(old(self).nodes.found@.remove_keys(n_set) =~= old(self).nodes.found@.remove_keys(u));
        }
        closed
    }
}

impl<E> AnchorRegistry<E> {
    /// The process id of anchor `name`: the one locked on its first
    /// resolution, else the one its definition pins.
    pub fn anchor_pid(&self, name: &str) -> (r: Option<u32>)
        ensures
            ({
                let k = self.effective_key_spec(name@);
                r == if self.locks@.dom().contains(k) {
                    Some(self.locks@[k].1)
                } else if self.defs@.dom().contains(k) {
                    self.defs@[k].pid
                } else {
                    None
                }
            }),
    {
        let key = self.effective_key(name);
        match self.locks.get(key.as_str()) {
            Some(l) => Some(l.1),
            None => match self.defs.get(key.as_str()) {
                Some(d) => d.pid,
                None => None,
            },
        }
    }

    /// The window handle locked for anchor `name`, if one was captured.
    pub fn anchor_hwnd(&self, name: &str) -> (r: Option<u64>)
        ensures
            ({
                let k = self.effective_key_spec(name@);
                r == if self.locks@.dom().contains(k) {
                    self.locks@[k].0
                } else {
                    None
                }
            }),
    {
        let key = self.effective_key(name);
        match self.locks.get(key.as_str()) {
            Some(l) => l.0,
            None => None,
        }
    }

    /// The tab mounted for anchor `name`.
    pub fn tab_handle(&self, name: &str) -> (r: Option<&TabHandle>)
        ensures
            ({
                let k = self.effective_key_spec(name@);
                match r {
                    Some(t) => self.tab_handles@.dom().contains(k) && *t == self.tab_handles@[k],
                    None => !self.tab_handles@.dom().contains(k),
                }
            }),
    {
        let key = self.effective_key(name);
        self.tab_handles.get(key.as_str())
    }

    /// Takes `new_snap` as the anchor's snapshot and returns the changes from
    /// the snapshot held before, named by `name`; none when there was none.
    pub fn sync_snapshot(&mut self, name: &str, new_snap: SnapNode) -> (r: Vec<String>)
        requires
            tree_depth(new_snap) <= usize::MAX,
        ensures
            ({
                let key = old(self).effective_key_spec(name@);
                &&& final(self).snapshots@ == old(self).snapshots@.insert(key, new_snap)
                &&& strings_seqs(r@) == if old(self).snapshots@.dom().contains(key) {
                    node_diff(old(self).snapshots@[key], new_snap, name@)
                } else {
                    Seq::<Seq<char>>::empty()
                }
            }),
            final(self).defs@ == old(self).defs@,
            final(self).nodes == old(self).nodes,
            final(self).locks@ == old(self).locks@,
            final(self).tab_handles@ == old(self).tab_handles@,
            final(self).launch_context == old(self).launch_context,
            final(self).depth == old(self).depth,
    {
        let key = self.effective_key(name);
        let mut changes: Vec<String> = Vec::new();
        assert(strings_seqs(changes@) =~= Seq::<Seq<char>>::empty());
        match self.snapshots.get(key.as_str()) {
            Some(old_snap) => {
                old_snap.diff_into(&new_snap, name, &mut changes);
            },
            None => {},
        }
        self.snapshots.insert(key, new_snap);
        changes
    }

    /// Records a resolution of the anchor stored under `key`: its handle (the
    /// scope's find results go), its first snapshot, and, when the platform
    /// reported a process id, the window lock. Returns the handle's id.
    pub fn record_resolved(
        &mut self,
        key: &str,
        element: E,
        snapshot: SnapNode,
        lock: Option<(Option<u64>, u32)>,
    ) -> (id: u64)
        ensures
            id == old(self).nodes.next_id,
            final(self).nodes.anchors@ == old(self).nodes.anchors@.insert(
                key@,
                crate::node_cache::CachedNode { element, id },
            ),
            final(self).nodes.found@ == old(self).nodes.found@.remove(key@),
            final(self).snapshots@ == old(self).snapshots@.insert(key@, snapshot),
            final(self).locks@ == match lock {
                Some(l) => old(self).locks@.insert(key@, l),
                None => old(self).locks@,
            },
            final(self).defs@ == old(self).defs@,
            final(self).tab_handles@ == old(self).tab_handles@,
            final(self).depth == old(self).depth,
    {
        match lock {
            Some(l) => {
                self.locks.insert(key.to_string(), l);
            },
            None => {},
        }
        self.snapshots.insert(key.to_string(), snapshot);
        self.nodes.insert(key.to_string(), element)
    }
}

// ── The shadow DOM ────────────────────────────────────────────────────────────

/// The message an anchor that was never declared is refused with.
pub open spec fn not_registered_message(key: Seq<char>) -> Seq<char> {
    "anchor '"@ + key + "' is not registered"@
}

/// The message a search in a scope that was never mounted is refused with.
pub open spec fn not_mounted_message(scope: Seq<char>) -> Seq<char> {
    "scope '"@ + scope + "' is not mounted"@
}

fn internal(v: &Vec<char>) -> (e: AutomataError)
    ensures
        e matches AutomataError::Internal(m) && m@ == v@,
{
    AutomataError::Internal(string_of(v))
}

/// Named live element handles on a desktop, re-resolved when they go
/// stale. What is stored under which key, and what goes when, is the
/// registry's; this type asks the platform for windows, children and
/// liveness, and hands the registry what it found.
pub struct ShadowDom<D: UiDesktop> {
    pub registry: AnchorRegistry<D::Elem>,
}

/// Appends `'text'` in quotes.
fn push_quoted_name(v: &mut Vec<char>, text: &str)
    ensures
        final(v)@ == old(v)@ + "'"@ + text@ + "'"@,
{
    append(v, &chars_of("'"));
    append(v, &chars_of(text));
    append(v, &chars_of("'"));
}

/// An optional number as `{:?}` writes it.
pub open spec fn debug_opt_u32_spec(o: Option<u32>) -> Seq<char> {
    match o {
        Some(n) => "Some("@ + decimal(n as nat) + ")"@,
        None => "None"@,
    }
}

/// An optional string as `{:?}` writes it.
pub open spec fn debug_opt_str_spec(o: Option<String>) -> Seq<char> {
    match o {
        Some(t) => "Some("@ + debug_quoted(t@) + ")"@,
        None => "None"@,
    }
}

/// `Some(n)` or `None`, as `{:?}` writes an optional number.
fn debug_opt_u32(o: Option<u32>) -> (r: Vec<char>)
    ensures
        r@ == debug_opt_u32_spec(o),
{
    match o {
        Some(n) => {
            let mut v = chars_of("Some(");
            append(&mut v, &decimal_string(n as u64));
            append(&mut v, &chars_of(")"));
            v
        },
        None => chars_of("None"),
    }
}

/// `Some("s")` or `None`, as `{:?}` writes an optional string.
fn debug_opt_str(o: &Option<String>) -> (r: Vec<char>)
    ensures
        r@ == debug_opt_str_spec(*o),
{
    match o {
        Some(t) => {
            let mut v = chars_of("Some(");
            append(&mut v, &chars_of(debug_str(t.as_str()).as_str()));
            append(&mut v, &chars_of(")"));
            v
        },
        None => chars_of("None"),
    }
}

/// Whether `mount` resolves anchors of this tier at once.
pub open spec fn resolved_at_mount(t: Tier) -> bool {
    t == Tier::Browser || t == Tier::Root
}

/// The registered tab keys, in order, that are declared in `defs` and have
/// no tab handle yet: the tabs `mount` leaves for its caller to open.
pub open spec fn pending_tabs(
    keys: Seq<(Seq<char>, Tier)>,
    defs: Map<Seq<char>, AnchorDef>,
    tabs: Map<Seq<char>, TabHandle>,
) -> Seq<Seq<char>>
    decreases keys.len(),
{
    if keys.len() == 0 {
        Seq::empty()
    } else {
        let k = keys.last();
        pending_tabs(keys.drop_last(), defs, tabs) + if k.1 == Tier::Tab && defs.dom().contains(k.0)
            && !tabs.dom().contains(k.0) {
            seq![k.0]
        } else {
            Seq::<Seq<char>>::empty()
        }
    }
}

impl<D: UiDesktop> ShadowDom<D> {
    pub fn new() -> (r: Self)
        ensures
            r.registry.defs@ == Map::<Seq<char>, AnchorDef>::empty(),
            r.registry.nodes.anchors@.dom() == Set::<Seq<char>>::empty(),
            r.registry.snapshots@ == Map::<Seq<char>, SnapNode>::empty(),
            r.registry.locks@ == Map::<Seq<char>, (Option<u64>, u32)>::empty(),
            r.registry.tab_handles@ == Map::<Seq<char>, TabHandle>::empty(),
            r.registry.launch_context is None,
            r.registry.depth == 0,
    {
        ShadowDom { registry: AnchorRegistry::new() }
    }

    /// Sets the subflow depth at which anchors are mounted from now on.
    pub fn set_depth(&mut self, depth: usize)
        ensures
            final(self).registry.depth == depth,
            final(self).registry.defs@ == old(self).registry.defs@,
            final(self).registry.nodes == old(self).registry.nodes,
    {
        self.registry.depth = depth;
    }

    pub fn depth(&self) -> (r: usize)
        ensures
            r == self.registry.depth,
    {
        self.registry.depth
    }

    /// Records how the application was launched, for picking its window.
    pub fn set_launch_context(&mut self, ctx: LaunchContext)
        ensures
            final(self).registry.launch_context == Some(ctx),
            final(self).registry.defs@ == old(self).registry.defs@,
            final(self).registry.depth == old(self).registry.depth,
    {
        self.registry.launch_context = Some(ctx);
    }

    /// Registers `anchors` and resolves the new browser anchors, then the new
    /// root anchors; an anchor that cannot be resolved is unregistered again
    /// and its error returned. Gives the keys of the new tab anchors, which
    /// the caller opens or attaches (waiting on the browser) and records with
    /// `attach_tab`.
    pub fn mount(&mut self, anchors: Vec<AnchorDef>, desktop: &D) -> (r: Result<Vec<String>, AutomataError>)
        ensures
            ({
                let (defs1, keys) = register_all(old(self).registry.defs@, old(self).registry.depth, anchors@);
                &&& final(self).registry.tab_handles@ == old(self).registry.tab_handles@
                &&& final(self).registry.depth == old(self).registry.depth
                &&& (r matches Ok(tabs) ==> final(self).registry.defs@ == defs1 && strings_seqs(tabs@)
                    == pending_tabs(keys, defs1, old(self).registry.tab_handles@))
                &&& (r is Err ==> exists|i: int|
                    0 <= i < keys.len() && resolved_at_mount(#[trigger] keys[i].1) && final(self).registry.defs@
                        == defs1.remove(keys[i].0))
                &&& ((forall|i: int| 0 <= i < keys.len() ==> !resolved_at_mount(#[trigger] keys[i].1))
                    ==> r is Ok)
            }),
    {
        let ghost all = anchors@;
        let ghost reg = register_all(self.registry.defs@, self.registry.depth, anchors@);
        let ghost th0 = self.registry.tab_handles@;
        let ghost d0 = self.registry.depth;
        let keys = self.registry.register(anchors);
        let ghost ks = reg.1;
        let ghost defs1 = reg.0;
        let mut pass: usize = 0;
        while pass < 2
            invariant
                pass <= 2,
                keys@.len() == ks.len(),
                forall|j: int| 0 <= j < ks.len() ==> (#[trigger] keys@[j]).0@ == ks[j].0 && keys@[j].1 == ks[j].1,
                self.registry.defs@ == defs1,
                self.registry.tab_handles@ == th0,
                self.registry.depth == d0,
                all == anchors@,
                reg == register_all(old(self).registry.defs@, old(self).registry.depth, all),
                ks == reg.1,
                defs1 == reg.0,
                th0 == old(self).registry.tab_handles@,
                d0 == old(self).registry.depth,
            decreases 2 - pass,
        {
            let tier = if pass == 0 {
                Tier::Browser
            } else {
                Tier::Root
            };
            let mut i: usize = 0;
            while i < keys.len()
                invariant
                    i <= keys@.len(),
                    resolved_at_mount(tier),
                    keys@.len() == ks.len(),
                    forall|j: int| 0 <= j < ks.len() ==> (#[trigger] keys@[j]).0@ == ks[j].0 && keys@[j].1 == ks[j].1,
                    self.registry.defs@ == defs1,
                    self.registry.tab_handles@ == th0,
                    self.registry.depth == d0,
                    all == anchors@,
                    reg == register_all(old(self).registry.defs@, old(self).registry.depth, all),
                    ks == reg.1,
                    defs1 == reg.0,
                    th0 == old(self).registry.tab_handles@,
                    d0 == old(self).registry.depth,
                decreases keys@.len() - i,
            {
                let (key, t) = &keys[i];
                if *t == tier && self.registry.nodes.element(key.as_str()).is_none() {
                    let fuel = self.walk_fuel();
                    match self.resolve(key.as_str(), desktop, fuel) {
                        Ok(()) => {},
                        Err(e) => {
                            let _ = self.registry.defs.remove(key.as_str());
                            proof {
                                assert(keys@[i as int].0@ == ks[i as int].0);
                                assert(resolved_at_mount(ks[i as int].1));
                                assert(self.registry.defs@ == defs1.remove(ks[i as int].0));
                                assert(exists|j: int|
                                    0 <= j < ks.len() && resolved_at_mount(#[trigger] ks[j].1)
                                        && self.registry.defs@ == defs1.remove(ks[j].0));
                            }
                            return Err(e);
                        },
                    }
                }
                i = i + 1;
            }
            pass = pass + 1;
        }
        let mut tabs: Vec<String> = Vec::new();
        let mut i: usize = 0;
        assert(ks.take(0) =~= Seq::<(Seq<char>, Tier)>::empty());
        assert(strings_seqs(tabs@) =~= Seq::<Seq<char>>::empty());
        while i < keys.len()
            invariant
                i <= keys@.len(),
                keys@.len() == ks.len(),
                forall|j: int| 0 <= j < ks.len() ==> (#[trigger] keys@[j]).0@ == ks[j].0 && keys@[j].1 == ks[j].1,
                self.registry.defs@ == defs1,
                self.registry.tab_handles@ == th0,
                self.registry.depth == d0,
                all == anchors@,
                reg == register_all(old(self).registry.defs@, old(self).registry.depth, all),
                ks == reg.1,
                defs1 == reg.0,
                th0 == old(self).registry.tab_handles@,
                d0 == old(self).registry.depth,
                strings_seqs(tabs@) == pending_tabs(ks.take(i as int), defs1, th0),
            decreases keys@.len() - i,
        {
            let (key, t) = &keys[i];
            proof {
                assert(ks.take(i + 1).drop_last() =~= ks.take(i as int));
                assert(ks.take(i + 1).last() == ks[i as int]);
                assert(keys@[i as int].0@ == ks[i as int].0);
            }
            let ghost before = strings_seqs(tabs@);
            if *t == Tier::Tab && !self.registry.tab_handles.contains(key.as_str())
                && self.registry.defs.contains(key.as_str()) {
                tabs.push(key.clone());
                assert(strings_seqs(tabs@) =~= before.push(key@));
            }
            i = i + 1;
        }
        assert(ks.take(i as int) =~= ks);
        Ok(tabs)
    }

    /// Records the outcome of opening or attaching the tab anchor `key`: its
    /// handle, or, on failure, the anchor unregistered again and the error.
    pub fn attach_tab(&mut self, key: &str, handle: Result<TabHandle, AutomataError>) -> (r: Result<(), AutomataError>)
        ensures
            match handle {
                Ok(h) => r is Ok && final(self).registry.tab_handles@ == old(self).registry.tab_handles@.insert(key@, h)
                    && final(self).registry.defs@ == old(self).registry.defs@,
                Err(e) => r == Err::<(), AutomataError>(e) && final(self).registry.defs@ == old(self).registry.defs@.remove(key@)
                    && final(self).registry.tab_handles@ == old(self).registry.tab_handles@,
            },
    {
        match handle {
            Ok(h) => {
                self.registry.tab_handles.insert(key.to_string(), h);
                Ok(())
            },
            Err(e) => {
                let _ = self.registry.defs.remove(key);
                Err(e)
            },
        }
    }

    /// Stores a captured element under `name` at the current depth.
    pub fn insert(&mut self, name: &str, element: D::Elem)
        ensures
            final(self).registry.nodes.anchors@.dom() == old(self).registry.nodes.anchors@.dom().insert(
                prefixed_key(old(self).registry.depth as nat, name@),
            ),
            final(self).registry.nodes.anchors@[prefixed_key(old(self).registry.depth as nat, name@)].element
                == element,
            final(self).registry.defs@ == old(self).registry.defs@,
    {
        let _ = self.registry.insert(name, element);
    }

    /// How many anchor hops a lookup may take: a chain of parents through
    /// every declared anchor and one more, so a chain that loops is refused
    /// rather than followed without end.
    fn walk_fuel(&self) -> (r: usize)
        ensures
            r == if self.registry.defs@.dom().len() < usize::MAX - 1 {
                self.registry.defs@.dom().len() + 1
            } else {
                self.registry.defs@.dom().len()
            },
    {
        let n = self.registry.defs.len();
        if n < usize::MAX - 1 {
            n + 1
        } else {
            n
        }
    }

    /// A live handle for `name`, re-resolved when the cached one is stale.
    /// A name that is neither declared nor cached is refused.
    pub fn get(&mut self, name: &str, desktop: &D) -> (r: Result<&D::Elem, AutomataError>)
        ensures
            r matches Ok(e) ==> exists|k: Seq<char>|
                final(self).registry.nodes.anchors@.dom().contains(k)
                    && #[trigger] final(self).registry.nodes.anchors@[k].element == *e,
            final(self).registry.defs@ == old(self).registry.defs@,
            final(self).registry.tab_handles@ == old(self).registry.tab_handles@,
            final(self).registry.depth == old(self).registry.depth,
            old(self).registry.snapshots@.dom().subset_of(final(self).registry.snapshots@.dom()),
            ({
                let key = old(self).registry.effective_key_spec(name@);
                !old(self).registry.defs@.dom().contains(key) && !old(self).registry.nodes.anchors@.dom().contains(key)
                    ==> r is Err
            }),
    {
        let fuel = self.walk_fuel();
        self.get_within(name, desktop, fuel)
    }

    fn get_within(&mut self, name: &str, desktop: &D, fuel: usize) -> (r: Result<&D::Elem, AutomataError>)
        ensures
            r matches Ok(e) ==> exists|k: Seq<char>|
                final(self).registry.nodes.anchors@.dom().contains(k)
                    && #[trigger] final(self).registry.nodes.anchors@[k].element == *e,
            final(self).registry.defs@ == old(self).registry.defs@,
            final(self).registry.tab_handles@ == old(self).registry.tab_handles@,
            final(self).registry.depth == old(self).registry.depth,
            old(self).registry.snapshots@.dom().subset_of(final(self).registry.snapshots@.dom()),
            ({
                let key = old(self).registry.effective_key_spec(name@);
                !old(self).registry.defs@.dom().contains(key) && !old(self).registry.nodes.anchors@.dom().contains(key)
                    ==> r is Err
            }),
        decreases fuel, 1nat,
    {
        let key = self.registry.effective_key(name);
        if let Some(parent) = self.registry.tab_parent(key.as_str()) {
            if fuel == 0 {
                let mut m = chars_of("anchor ");
                push_quoted_name(&mut m, name);
                append(&mut m, &chars_of(" has a parent chain that loops"));
                return Err(internal(&m));
            }
            return self.get_within(parent.as_str(), desktop, fuel - 1);
        }
        let live = match self.registry.nodes.element(key.as_str()) {
            Some(e) => element_is_live(e),
            None => false,
        };
        if !live {
            let _ = self.registry.nodes.remove(key.as_str());
            self.resolve(key.as_str(), desktop, fuel)?;
        }
        match self.registry.nodes.element(key.as_str()) {
            Some(e) => Ok(e),
            None => {
                let mut m = chars_of("anchor ");
                push_quoted_name(&mut m, name);
                append(&mut m, &chars_of(" not found after resolve"));
                Err(internal(&m))
            },
        }
    }

    /// Finds the window of a root-level anchor among the application
    /// windows: the one it is locked to once resolved, otherwise the topmost
    /// window the anchor admits and its selector matches.
    fn find_root_window(&self, key: &str, def: &AnchorDef, desktop: &D) -> (r: Result<D::Elem, AutomataError>) {
        let windows = desktop.application_windows()?;
        match self.registry.locks.get(key) {
            Some(lock) => {
                let locked = lock.0;
                let mut i: usize = 0;
                while i < windows.len()
                    invariant
                        i <= windows@.len(),
                    decreases windows@.len() - i,
                {
                    if windows[i].hwnd() == locked {
                        return Ok(windows[i].clone());
                    }
                    i = i + 1;
                }
                let mut m = chars_of("anchor ");
                push_quoted_name(&mut m, key);
                append(&mut m, &chars_of(" window (hwnd="));
                match locked {
                    Some(h) => {
                        append(&mut m, &chars_of("0x"));
                        append(&mut m, &upper_hex_string(h));
                    },
                    None => append(&mut m, &chars_of("unknown")),
                }
                append(&mut m, &chars_of(") is no longer present"));
                Err(internal(&m))
            },
            None => {
                let launch = match &self.registry.launch_context {
                    Some(c) => Some(c),
                    None => None,
                };
                let mut candidates: Vec<D::Elem> = Vec::new();
                let mut hwnds: Vec<Option<u64>> = Vec::new();
                let mut i: usize = 0;
                while i < windows.len()
                    invariant
                        i <= windows@.len(),
                        candidates@.len() == hwnds@.len(),
                    decreases windows@.len() - i,
                {
                    let w = &windows[i];
                    let pid = match w.process_id() {
                        Ok(p) => Some(p),
                        Err(_) => None,
                    };
                    let pname = w.process_name();
                    let pname_ref = match &pname {
                        Some(n) => Some(n.as_str()),
                        None => None,
                    };
                    if def.admits_window(launch, pid, pname_ref, w.hwnd()) && def.selector.matches(w) {
                        candidates.push(w.clone());
                        hwnds.push(w.hwnd());
                    }
                    i = i + 1;
                }
                let chosen = if candidates.len() > 1 {
                    let z_order = desktop.hwnd_z_order();
                    if z_order.len() == 0 {
                        Some(0)
                    } else {
                        topmost_candidate(&z_order, &hwnds)
                    }
                } else if candidates.len() == 0 {
                    None
                } else {
                    Some(0)
                };
                match chosen {
                    Some(c) => Ok(candidates[c].clone()),
                    None => {
                        let mut m = chars_of("anchor ");
                        push_quoted_name(&mut m, key);
                        append(&mut m, &chars_of(" not found in application windows (selector: "));
                        append(&mut m, &chars_of(def.selector.to_string().as_str()));
                        append(&mut m, &chars_of(", pid: "));
                        append(&mut m, &debug_opt_u32(def.pid));
                        append(&mut m, &chars_of(", process: "));
                        append(&mut m, &debug_opt_str(&def.process_name));
                        append(&mut m, &chars_of(")"));
                        Err(internal(&m))
                    },
                }
            },
        }
    }

    /// Resolves the anchor stored under `key` and records the handle, its
    /// first snapshot and its window lock.
    fn resolve(&mut self, key: &str, desktop: &D, fuel: usize) -> (r: Result<(), AutomataError>)
        ensures
            r is Ok ==> final(self).registry.nodes.anchors@.dom().contains(key@)
                && final(self).registry.snapshots@.dom().contains(key@),
            final(self).registry.defs@ == old(self).registry.defs@,
            final(self).registry.tab_handles@ == old(self).registry.tab_handles@,
            final(self).registry.depth == old(self).registry.depth,
            old(self).registry.snapshots@.dom().subset_of(final(self).registry.snapshots@.dom()),
            !old(self).registry.defs@.dom().contains(key@) ==> r is Err,
        decreases fuel, 0nat,
    {
        let def = match self.registry.defs.get(key) {
            Some(d) => d.clone(),
            None => {
                let mut m = chars_of("anchor ");
                push_quoted_name(&mut m, key);
                append(&mut m, &chars_of(" is not registered"));
                return Err(internal(&m));
            },
        };
        if def.tier == Tier::Browser {
            match desktop.browser().ensure() {
                Ok(()) => {},
                Err(e) => {
                    let mut m = chars_of("browser.ensure(): ");
                    append(&mut m, &chars_of(e.to_string().as_str()));
                    return Err(internal(&m));
                },
            }
        }
        let found: D::Elem = match &def.parent {
            None => self.find_root_window(key, &def, desktop)?,
            Some(parent_name) => {
                let unavailable = {
                    let mut m = chars_of("parent anchor ");
                    push_quoted_name(&mut m, parent_name.as_str());
                    append(&mut m, &chars_of(" unavailable while resolving "));
                    push_quoted_name(&mut m, key);
                    m
                };
                if fuel == 0 {
                    return Err(internal(&unavailable));
                }
                let parent = match self.get_within(parent_name.as_str(), desktop, fuel - 1) {
                    Ok(p) => p.clone(),
                    Err(_) => {
                        return Err(internal(&unavailable));
                    },
                };
                match def.selector.find_one(&parent) {
                    Some(el) => el,
                    None => {
                        let mut m = chars_of("anchor ");
                        push_quoted_name(&mut m, key);
                        append(&mut m, &chars_of(" not found under "));
                        push_quoted_name(&mut m, parent_name.as_str());
                        append(&mut m, &chars_of(" (selector: "));
                        append(&mut m, &chars_of(def.selector.to_string().as_str()));
                        append(&mut m, &chars_of(")"));
                        return Err(internal(&m));
                    },
                }
            },
        };
        if def.tier == Tier::Browser {
            let _ = found.activate_window();
        }
        let lock = match found.process_id() {
            Ok(pid) => Some((found.hwnd(), pid)),
            Err(_) => None,
        };
        let snap = SnapNode::capture(&found, SNAP_DEPTH);
        let _ = self.registry.record_resolved(key, found, snap, lock);
        Ok(())
    }

    /// Drops the session anchor `session_name` and everything resolved under it.
    pub fn invalidate_session(&mut self, session_name: &str)
        ensures
            final(self).registry.defs@ == old(self).registry.defs@,
            final(self).registry.locks@ == old(self).registry.locks@.remove_keys(
                invalidated(old(self).registry.defs@, session_name@),
            ),
            final(self).registry.tab_handles@ == old(self).registry.tab_handles@,
    {
        self.registry.invalidate_session(session_name);
    }

    /// Unmounts anchors by name; tabs the workflow opened are closed.
    pub fn unmount(&mut self, names: &Vec<String>, desktop: &D)
        ensures
            ({
                let (d, gone) = unmount_fold(
                    old(self).registry.defs@,
                    old(self).registry.depth as nat,
                    names_view(names@),
                );
                &&& final(self).registry.defs@ == d
                &&& final(self).registry.nodes.anchors@ == old(self).registry.nodes.anchors@.remove_keys(gone)
                &&& final(self).registry.tab_handles@ == old(self).registry.tab_handles@.remove_keys(gone)
            }),
    {
        let closed = self.registry.unmount(names);
        let mut i: usize = 0;
        while i < closed.len()
            invariant
                i <= closed@.len(),
            decreases closed@.len() - i,
        {
            closed[i].1.close_if_created(desktop.browser());
            i = i + 1;
        }
    }

    /// Removes what was mounted at `depth`, closing the tabs opened there.
    pub fn cleanup_depth(&mut self, depth: usize, desktop: &D)
        ensures
            final(self).registry.defs@ == old(self).registry.defs@.remove_keys(
                defs_at_depth(old(self).registry.defs@, depth),
            ),
            final(self).registry.tab_handles@ == old(self).registry.tab_handles@.remove_keys(
                tabs_at_depth(old(self).registry.tab_handles@, depth),
            ),
    {
        let closed = self.registry.cleanup_depth(depth);
        let mut i: usize = 0;
        while i < closed.len()
            invariant
                i <= closed@.len(),
            decreases closed@.len() - i,
        {
            closed[i].1.close_if_created(desktop.browser());
            i = i + 1;
        }
    }

    /// Whether a handle is cached under `name` and still live (no re-query).
    pub fn is_live(&self, name: &str) -> (r: bool)
        ensures
            !self.registry.nodes.anchors@.dom().contains(name@) ==> !r,
    {
        match self.registry.nodes.element(name) {
            Some(e) => element_is_live(e),
            None => false,
        }
    }

    /// A descendant of `scope` matching `selector`: the cached find result
    /// when the last step still yields it from its step parent, otherwise a
    /// full search from the scope's handle, whose result is cached. A scope
    /// that was never mounted is refused. Over a fixed tree, an element found
    /// is the one the cache now holds for the search.
    pub fn find_descendant(&mut self, scope: &str, selector: &SelectorPath, desktop: &D) -> (r: Result<
        Option<D::Elem>,
        AutomataError,
    >)
        ensures
            ({
                let key = old(self).registry.effective_key_spec(scope@);
                !old(self).registry.defs@.dom().contains(key) ==> (r matches Err(AutomataError::Internal(m))
                    && m@ == not_mounted_message(scope@))
            }),
            fixed_tree::<D::Elem>() ==> (r matches Ok(Some(e)) ==> exists|s: Seq<char>, k: Seq<char>|
                #[trigger] final(self).registry.nodes.found_at(s, k) matches Some(f) && f.element == e),
    {
        self.find_descendant_within(scope, selector, desktop, 1)
    }

    fn find_descendant_within(&mut self, scope: &str, selector: &SelectorPath, desktop: &D, hops: usize) -> (r: Result<
        Option<D::Elem>,
        AutomataError,
    >)
        ensures
            ({
                let key = old(self).registry.effective_key_spec(scope@);
                !old(self).registry.defs@.dom().contains(key) ==> (r matches Err(AutomataError::Internal(m))
                    && m@ == not_mounted_message(scope@))
            }),
            fixed_tree::<D::Elem>() ==> (r matches Ok(Some(e)) ==> exists|s: Seq<char>, k: Seq<char>|
                #[trigger] final(self).registry.nodes.found_at(s, k) matches Some(f) && f.element == e),
        decreases hops,
    {
        let key = self.registry.effective_key(scope);
        let tab = match self.registry.defs.get(key.as_str()) {
            Some(d) => if d.tier == Tier::Tab {
                match self.registry.tab_handles.get(key.as_str()) {
                    Some(h) => Some(h.clone()),
                    None => None,
                }
            } else {
                None
            },
            None => None,
        };
        if let Some(handle) = tab {
            if hops > 0 {
                let (parent_browser, doc_sel) = handle.scoped_selector(desktop.browser(), selector)?;
                return self.find_descendant_within(parent_browser.as_str(), &doc_sel, desktop, hops - 1);
            }
        }
        if !self.registry.defs.contains(key.as_str()) {
            let mut m = chars_of("scope ");
            push_quoted_name(&mut m, scope);
            append(&mut m, &chars_of(" is not mounted"));
            proof {
                reveal_strlit("scope ");
                reveal_strlit("'");
                reveal_strlit(" is not mounted");
                reveal_strlit("scope '");
                reveal_strlit("' is not mounted");
                assert(m@ =~= not_mounted_message(scope@));
            }
            return Err(internal(&m));
        }
        let sel_key = selector.to_string();
        let cached = match self.registry.nodes.found(key.as_str(), sel_key.as_str()) {
            Some(c) => {
                let cc = c.clone();
                proof {
                    if fixed_tree::<D::Elem>() {
                        assert(cc == *c);
                    }
                }
                Some(cc)
            },
            None => None,
        };
        let ghost held = self.registry.nodes.found_at(key@, sel_key@);
        if let Some(cached) = cached {
            let step_parent = match self.registry.nodes.found_parent(key.as_str(), sel_key.as_str()) {
                Some(p) => Some(p.clone()),
                None => None,
            };
            match step_parent {
                Some(sp) => {
                    if element_is_live(&sp) {
                        if let Some(el) = selector.find_one_from_step_parent(&sp) {
                            let c = el.clone();
                            let ghost k = sel_key@;
                            self.registry.nodes.set_found(key.as_str(), sel_key, c, Some(sp));
                            proof {
                                assert(self.registry.nodes.found_at(key@, k) matches Some(f) && f.element == c);
                            }
                            return Ok(Some(el));
                        }
                    }
                    self.registry.nodes.remove_found(key.as_str(), sel_key.as_str());
                },
                None => {
                    if element_is_live(&cached) {
                        proof {
                            assert(self.registry.nodes.found_at(key@, sel_key@) == held);
                        }
                        return Ok(Some(cached));
                    }
                    self.registry.nodes.remove_found(key.as_str(), sel_key.as_str());
                },
            }
        }
        let root = match self.get(scope, desktop) {
            Ok(el) => el.clone(),
            Err(_) => {
                return Ok(None);
            },
        };
        match selector.find_one_with_parent(&root) {
            Some((el, parent)) => {
                let c = el.clone();
                let ghost k = sel_key@;
                self.registry.nodes.set_found(key.as_str(), sel_key, c, parent);
                proof {
                    assert(self.registry.nodes.found_at(key@, k) matches Some(f) && f.element == c);
                }
                Ok(Some(el))
            },
            None => Ok(None),
        }
    }

    /// Re-snapshots `name` and returns the changes against its previous
    /// snapshot; none when the anchor cannot be had. Getting the anchor may
    /// resolve it (or its parents) first, which records fresh snapshots, so
    /// the baseline is the snapshot held once the anchor was had; taking the
    /// new snapshot and diffing is `AnchorRegistry::sync_snapshot`.
    pub fn sync_changes(&mut self, name: &str, desktop: &D) -> (r: Vec<String>)
        ensures
            final(self).registry.defs@ == old(self).registry.defs@,
            final(self).registry.tab_handles@ == old(self).registry.tab_handles@,
            final(self).registry.depth == old(self).registry.depth,
            sync_outcome(old(self).registry, final(self).registry, name@, strings_seqs(r@)),
    {
        let el = match self.get(name, desktop) {
            Ok(e) => e.clone(),
            Err(_) => {
                let none: Vec<String> = Vec::new();
                assert(strings_seqs(none@).len() == 0);
                return none;
            },
        };
        let snap = SnapNode::capture(&el, SNAP_DEPTH);
        let ghost mid = self.registry.snapshots@;
        let ghost key = self.registry.effective_key_spec(name@);
        let r = self.registry.sync_snapshot(name, snap);
        proof {
            assert(key == self.registry.effective_key_spec(name@));
            assert(synced_from(mid, self.registry.snapshots@, key, snap, name@, strings_seqs(r@)));
            assert(old(self).registry.snapshots@.dom().subset_of(mid.dom()));
            assert(old(self).registry.snapshots@.dom().subset_of(self.registry.snapshots@.dom()));
        }
        r
    }

    /// Like `sync_changes`, for the poll loop: the changes are not kept.
    pub fn sync(&mut self, name: &str, desktop: &D)
        ensures
            final(self).registry.defs@ == old(self).registry.defs@,
            final(self).registry.tab_handles@ == old(self).registry.tab_handles@,
            final(self).registry.depth == old(self).registry.depth,
            exists|r: Seq<Seq<char>>| #[trigger] sync_outcome(old(self).registry, final(self).registry, name@, r),
    {
        let r = self.sync_changes(name, desktop);
        assert(sync_outcome(old(self).registry, self.registry, name@, strings_seqs(r@)));
    }

    /// The process id the anchor is locked to, or else the one it declares.
    pub fn anchor_pid(&self, name: &str) -> (r: Option<u32>)
        ensures
            ({
                let g = self.registry;
                let k = g.effective_key_spec(name@);
                r == if g.locks@.dom().contains(k) {
                    Some(g.locks@[k].1)
                } else if g.defs@.dom().contains(k) {
                    g.defs@[k].pid
                } else {
                    None::<u32>
                }
            }),
    {
        self.registry.anchor_pid(name)
    }

    /// The window handle the anchor is locked to, if one was captured.
    pub fn anchor_hwnd(&self, name: &str) -> (r: Option<u64>)
        ensures
            ({
                let g = self.registry;
                let k = g.effective_key_spec(name@);
                r == if g.locks@.dom().contains(k) {
                    g.locks@[k].0
                } else {
                    None::<u64>
                }
            }),
    {
        self.registry.anchor_hwnd(name)
    }

    /// The tab handle mounted under `name`, if any.
    pub fn tab_handle(&self, name: &str) -> (r: Option<&TabHandle>)
        ensures
            ({
                let g = self.registry;
                let k = g.effective_key_spec(name@);
                match r {
                    Some(t) => g.tab_handles@.dom().contains(k) && *t == g.tab_handles@[k],
                    None => !g.tab_handles@.dom().contains(k),
                }
            }),
    {
        self.registry.tab_handle(name)
    }
}

/// One sync from the snapshots `mid`, held once the anchor was had, to
/// `after`: the new snapshot `s` stored under `key`, and `changes` the diff
/// from the snapshot held there before, none when there was none.
pub open spec fn synced_from(
    mid: Map<Seq<char>, SnapNode>,
    after: Map<Seq<char>, SnapNode>,
    key: Seq<char>,
    s: SnapNode,
    name: Seq<char>,
    changes: Seq<Seq<char>>,
) -> bool {
    &&& after == mid.insert(key, s)
    &&& changes == if mid.dom().contains(key) {
        node_diff(mid[key], s, name)
    } else {
        Seq::<Seq<char>>::empty()
    }
}

/// What syncing `name` does to the snapshots: no snapshot is dropped, and
/// either the anchor could not be had and nothing is reported, or, from
/// snapshots `mid` that keep every earlier one, one sync took place under
/// the key `name` is stored under afterwards.
pub open spec fn sync_outcome<E>(
    before: AnchorRegistry<E>,
    after: AnchorRegistry<E>,
    name: Seq<char>,
    changes: Seq<Seq<char>>,
) -> bool {
    let key = after.effective_key_spec(name);
    &&& before.snapshots@.dom().subset_of(after.snapshots@.dom())
    &&& {
        ||| changes.len() == 0
        ||| exists|mid: Map<Seq<char>, SnapNode>, s: SnapNode|
            before.snapshots@.dom().subset_of(mid.dom()) && #[trigger] synced_from(
                mid,
                after.snapshots@,
                key,
                s,
                name,
                changes,
            )
    }
}

// ── Laws ──────────────────────────────────────────────────────────────────────

/// Registering one more definition after `ds`: an anchor of a shared tier
/// (root, session or browser) goes under its raw name at any depth, and is
/// skipped when that name is already defined, the earlier definition
/// winning; any other anchor goes under its name prefixed for the depth,
/// replacing what was there. Either way it is stored with the depth it was
/// mounted at, and the key it went under is returned after the earlier ones.
pub proof fn law_register_keys(m: Map<Seq<char>, AnchorDef>, depth: usize, ds: Seq<AnchorDef>, d: AnchorDef)
    ensures
        ({
            let (m1, ks) = register_all(m, depth, ds);
            let stored = AnchorDef { mount_depth: depth, ..d };
            register_all(m, depth, ds.push(d)) == if d.tier == Tier::Root || d.tier == Tier::Session || d.tier
                == Tier::Browser {
                if m1.dom().contains(d.name@) {
                    (m1, ks)
                } else {
                    (m1.insert(d.name@, stored), ks.push((d.name@, d.tier)))
                }
            } else {
                let k = colons(depth as nat) + d.name@;
                (m1.insert(k, stored), ks.push((k, d.tier)))
            }
        }),
{
    assert(ds.push(d).drop_last() =~= ds);
    assert(ds.push(d).last() == d);
}

/// Unmounting is the inverse of mounting: registering a depth-scoped anchor
/// whose key was free and then unmounting it by name gives back the
/// definitions there were, provided no shared anchor holds that name.
pub proof fn law_unmount_undoes_register(m: Map<Seq<char>, AnchorDef>, depth: usize, d: AnchorDef)
    requires
        !is_global(d.tier),
        !m.dom().contains(prefixed_key(depth as nat, d.name@)),
        !(m.dom().contains(d.name@) && is_global(m[d.name@].tier)),
    ensures
        unmount_fold(register_all(m, depth, seq![d]).0, depth as nat, seq![d.name@]).0 == m,
{
    let k = prefixed_key(depth as nat, d.name@);
    let ds = seq![d];
    assert(ds.drop_last() =~= Seq::<AnchorDef>::empty());
    assert(register_all(m, depth, ds.drop_last()).0 == m);
    let after = register_all(m, depth, ds).0;
    assert(after == m.insert(k, AnchorDef { mount_depth: depth, ..d }));
    let names = seq![d.name@];
    assert(names.drop_last() =~= Seq::<Seq<char>>::empty());
    assert(unmount_fold(after, depth as nat, names.drop_last()).0 == after);
    if after.dom().contains(d.name@) && is_global(after[d.name@].tier) {
        if d.name@ == k {
            assert(after[d.name@].tier == d.tier);
        } else {
            assert(after[d.name@] == m[d.name@]);
        }
    }
    assert(after.remove(k) =~= m);
}

/// After unmounting, none of the unmounted keys is known to the registry.
pub proof fn law_unmounted_keys_unknown<E>(before: AnchorRegistry<E>, after: AnchorRegistry<E>, names: Seq<Seq<char>>, k: Seq<char>)
    requires
        after.defs@ == before.defs@.remove_keys(unmount_fold(before.defs@, before.depth as nat, names).1),
        after.locks@ == before.locks@.remove_keys(unmount_fold(before.defs@, before.depth as nat, names).1),
        after.snapshots@ == before.snapshots@.remove_keys(unmount_fold(before.defs@, before.depth as nat, names).1),
        after.nodes.anchors@ == before.nodes.anchors@.remove_keys(unmount_fold(before.defs@, before.depth as nat, names).1),
        after.tab_handles@ == before.tab_handles@.remove_keys(unmount_fold(before.defs@, before.depth as nat, names).1),
        unmount_fold(before.defs@, before.depth as nat, names).1.contains(k),
    ensures
        !after.defs@.dom().contains(k),
        !after.locks@.dom().contains(k),
        !after.snapshots@.dom().contains(k),
        !after.nodes.anchors@.dom().contains(k),
        !after.tab_handles@.dom().contains(k),
{
}

/// Changes are reported once: syncing an anchor whose tree has not changed
/// since the last sync reports nothing.
pub proof fn law_sync_not_repeated<E>(
    before: AnchorRegistry<E>,
    after: AnchorRegistry<E>,
    name: Seq<char>,
    snap: SnapNode,
)
    requires
        after.snapshots@ == before.snapshots@.insert(before.effective_key_spec(name), snap),
        after.defs@ == before.defs@,
        after.nodes == before.nodes,
        after.depth == before.depth,
    ensures
        after.snapshots@.dom().contains(after.effective_key_spec(name)),
        node_diff(after.snapshots@[after.effective_key_spec(name)], snap, name) == Seq::<
            Seq<char>,
        >::empty(),
{
    law_same_tree_no_changes(snap, name);
}

} // verus!
