//! Walking a live element tree with a selector path, and snapshotting it.
//!
//! The tree is read through `UiElement`, which each platform back end
//! implements. Its reads describe a live UI that may change between two
//! calls, so nothing here assumes two reads agree. The contracts state what
//! holds whatever the reads return, and, for reads that describe one fixed
//! tree (`fixed_tree`), exactly what the walk returns over that tree
//! (`walk`). Whether one element passes a step is decided by
//! `PathStep::matches_attrs` on the attributes read.
use vstd::prelude::*;

use crate::error::AutomataError;
use crate::selector::{element_step_matches, steps_view, Combinator, PathStep, SelectorPath, StepView};
use crate::snapshot::{children_depth, tree_depth, SnapNode};
use crate::text::{chars_of, eq_chars};

verus! {

/// What the engine needs of a UI element besides input: its attributes and
/// tree links as the selector walk reads them, whether the handle is still
/// live, which window and process it belongs to, and bringing its window to
/// the foreground. Implemented by each platform back end.
pub trait UiElement: Sized + Clone {
    /// Accessible name; `None` when the handle is stale.
    fn name(&self) -> Option<String>;

    /// Control type in lower case, e.g. `button`.
    fn role(&self) -> String;

    /// Value text, falling back to the name.
    fn text(&self) -> Result<String, AutomataError>;

    /// The automation id, when the element has one.
    fn automation_id(&self) -> (r: Option<String>)
        default_ensures
            r is None,
    {
        None
    }

    /// The direct children, in order.
    fn children(&self) -> Result<Vec<Self>, AutomataError>;

    /// The parent element; `None` at the root.
    fn parent(&self) -> (r: Option<Self>)
        default_ensures
            r is None,
    {
        None
    }

    /// Whether the element is on screen; `Err` for a destroyed element.
    fn is_visible(&self) -> Result<bool, AutomataError>;

    /// `false` for elements detached from the tree.
    fn has_parent(&self) -> (r: bool)
        default_ensures
            r,
    {
        true
    }

    /// The id of the process that owns the element.
    fn process_id(&self) -> Result<u32, AutomataError>;

    /// The owning process's executable name, when known.
    fn process_name(&self) -> (r: Option<String>)
        default_ensures
            r is None,
    {
        None
    }

    /// The native window handle, for window elements.
    fn hwnd(&self) -> (r: Option<u64>)
        default_ensures
            r is None,
    {
        None
    }

    /// Brings the element's window to the foreground.
    fn activate_window(&self) -> Result<(), AutomataError>;
}

proof fn lemma_filled_assoc<E>(a: Seq<E>, s: Seq<E>, t: Seq<E>, limit: Option<usize>)
    ensures
        filled(filled(a, s, limit), t, limit) == filled(a, s + t, limit),
{
    match limit {
        None => {
            assert((a + s) + t =~= a + (s + t));
        },
        Some(l) => {
            if a.len() < l {
                let k = (l - a.len()) as usize;
                if s.len() > k {
                    assert((s + t).take(k as int) =~= s.take(k as int));
                } else if a.len() + s.len() >= l {
                    if s.len() + t.len() > k {
                        assert((s + t).take(k as int) =~= s);
                    } else {
                        assert(s + t =~= s);
                    }
                } else {
                    let k2 = (l - (a + s).len()) as usize;
                    if t.len() > k2 {
                        assert((s + t).take(k as int) =~= s + t.take(k2 as int));
                        assert((a + s) + t.take(k2 as int) =~= a + (s + t.take(k2 as int)));
                    } else {
                        assert((a + s) + t =~= a + (s + t));
                    }
                }
            }
        },
    }
}

proof fn lemma_filled_nothing<E>(a: Seq<E>, limit: Option<usize>)
    ensures
        filled(a, Seq::empty(), limit) == a,
{
    assert(a + Seq::<E>::empty() =~= a);
}

proof fn lemma_descendants_append<E: UiElement>(step: StepView, s1: Seq<E>, s2: Seq<E>, depth: nat)
    ensures
        descendants_of_all(step, s1 + s2, depth) == descendants_of_all(step, s1, depth)
            + descendants_of_all(step, s2, depth),
    decreases s2.len(),
{
    if s2.len() == 0 {
        assert(s1 + s2 =~= s1);
        assert(descendants_of_all(step, s1, depth) + Seq::<E>::empty() =~= descendants_of_all(
            step,
            s1,
            depth,
        ));
    } else {
        assert((s1 + s2).drop_last() =~= s1 + s2.drop_last());
        assert((s1 + s2).last() == s2.last());
        lemma_descendants_append(step, s1, s2.drop_last(), depth);
        let item = (if passes(step, s2.last()) {
            seq![s2.last()]
        } else {
            Seq::empty()
        }) + descendants(step, s2.last(), depth);
        assert(descendants_of_all(step, s1 + s2, depth) =~= descendants_of_all(step, s1 + s2.drop_last(), depth) + item);
        assert(descendants_of_all(step, s2, depth) =~= descendants_of_all(step, s2.drop_last(), depth) + item);
    }
}

/// Whether the handle still answers and is attached to the live tree.
pub(crate) fn element_is_live<E: UiElement>(el: &E) -> bool {
    el.is_visible().is_ok() && el.has_parent()
}

/// How deep a walk may descend. Trees that deep do not fit in memory, so
/// the bound never cuts a real walk short; it only gives the walk a measure.
pub const WALK_DEPTH: usize = 0xffff_ffff;

// ── The walk over a fixed tree ────────────────────────────────────────────────

/// The text a step reads from an optional attribute: empty when absent.
pub open spec fn text_or_empty(o: Option<String>) -> Seq<char> {
    match o {
        Some(s) => s@,
        None => Seq::empty(),
    }
}

/// The children a walk reads from a `children` result: none on an error.
pub open spec fn children_or_none<E>(c: Result<Vec<E>, AutomataError>) -> Seq<E> {
    match c {
        Ok(v) => v@,
        Err(_) => Seq::empty(),
    }
}

/// The reads of `E` describe one fixed tree: reading the same element twice
/// gives the same name, role, automation id and children as the walk reads
/// them, and the same parent, and a clone is the element itself. A live UI
/// need not behave so between two reads; where it does, the walk's results
/// are the ones stated below.
pub open spec fn fixed_tree<E: UiElement>() -> bool {
    &&& forall|e: E, a: Option<String>, b: Option<String>|
        #[trigger] call_ensures(E::name, (&e,), a) && #[trigger] call_ensures(E::name, (&e,), b)
            ==> text_or_empty(a) == text_or_empty(b)
    &&& forall|e: E, a: String, b: String|
        #[trigger] call_ensures(E::role, (&e,), a) && #[trigger] call_ensures(E::role, (&e,), b) ==> a@ == b@
    &&& forall|e: E, a: Option<String>, b: Option<String>|
        #[trigger] call_ensures(E::automation_id, (&e,), a) && #[trigger] call_ensures(
            E::automation_id,
            (&e,),
            b,
        ) ==> text_or_empty(a) == text_or_empty(b)
    &&& forall|e: E, a: Result<Vec<E>, AutomataError>, b: Result<Vec<E>, AutomataError>|
        #[trigger] call_ensures(E::children, (&e,), a) && #[trigger] call_ensures(E::children, (&e,), b)
            ==> children_or_none(a) == children_or_none(b)
    &&& forall|e: E, a: Option<E>, b: Option<E>|
        #[trigger] call_ensures(E::parent, (&e,), a) && #[trigger] call_ensures(E::parent, (&e,), b) ==> a
            == b
    &&& forall|a: E, b: E| #[trigger] call_ensures(E::clone, (&a,), b) ==> a == b
}

/// The element's name as a step reads it (empty when it has none).
pub open spec fn name_read<E: UiElement>(e: E) -> Seq<char> {
    text_or_empty(choose|n: Option<String>| call_ensures(E::name, (&e,), n))
}

/// The element's role.
pub open spec fn role_read<E: UiElement>(e: E) -> Seq<char> {
    (choose|n: String| call_ensures(E::role, (&e,), n))@
}

/// The element's automation id as a step reads it (empty when it has none).
pub open spec fn aid_read<E: UiElement>(e: E) -> Seq<char> {
    text_or_empty(choose|n: Option<String>| call_ensures(E::automation_id, (&e,), n))
}

/// The element's children, in order (none when they cannot be read).
pub open spec fn children_read<E: UiElement>(e: E) -> Seq<E> {
    children_or_none(choose|c: Result<Vec<E>, AutomataError>| call_ensures(E::children, (&e,), c))
}

/// The element's parent.
pub open spec fn parent_read<E: UiElement>(e: E) -> Option<E> {
    choose|p: Option<E>| call_ensures(E::parent, (&e,), p)
}

/// Whether `e` passes `step`.
pub open spec fn passes<E: UiElement>(step: StepView, e: E) -> bool {
    element_step_matches(step, role_read(e), name_read(e), aid_read(e))
}

/// The elements of `cs` that pass `step`, in order.
pub open spec fn passing<E: UiElement>(step: StepView, cs: Seq<E>) -> Seq<E>
    decreases cs.len(),
{
    if cs.len() == 0 {
        Seq::empty()
    } else {
        passing(step, cs.drop_last()) + if passes(step, cs.last()) {
            seq![cs.last()]
        } else {
            Seq::empty()
        }
    }
}

/// Depth-first, the descendants of `e` down to `depth` levels that pass
/// `step`: each child (when it passes) before its own descendants.
pub open spec fn descendants<E: UiElement>(step: StepView, e: E, depth: nat) -> Seq<E>
    decreases depth, 0int,
{
    if depth == 0 {
        Seq::empty()
    } else {
        descendants_of_all(step, children_read(e), (depth - 1) as nat)
    }
}

/// `descendants` for each element of `cs` in turn, each preceded by the
/// element itself when it passes.
pub open spec fn descendants_of_all<E: UiElement>(step: StepView, cs: Seq<E>, depth: nat) -> Seq<E>
    decreases depth, cs.len(),
{
    if cs.len() == 0 {
        Seq::empty()
    } else {
        descendants_of_all(step, cs.drop_last(), depth) + (if passes(step, cs.last()) {
            seq![cs.last()]
        } else {
            Seq::empty()
        }) + descendants(step, cs.last(), depth)
    }
}

/// The `n`-th ancestor of `e`; `None` when the root comes first.
pub open spec fn ancestor<E: UiElement>(e: E, n: nat) -> Option<E>
    decreases n,
{
    if n == 0 {
        Some(e)
    } else {
        match parent_read(e) {
            Some(p) => ancestor(p, (n - 1) as nat),
            None => None,
        }
    }
}

/// The `n`-th ancestors of the elements of `cs`, in order, skipping those
/// that have none.
pub open spec fn ancestors_of_all<E: UiElement>(cs: Seq<E>, n: nat) -> Seq<E>
    decreases cs.len(),
{
    if cs.len() == 0 {
        Seq::empty()
    } else {
        ancestors_of_all(cs.drop_last(), n) + match ancestor(cs.last(), n) {
            Some(a) => seq![a],
            None => Seq::empty(),
        }
    }
}

/// `:parent` / `:ancestor(n)` on a candidate list; nothing to do for 0.
pub open spec fn ascended<E: UiElement>(cs: Seq<E>, n: nat) -> Seq<E> {
    if n == 0 {
        cs
    } else {
        ancestors_of_all(cs, n)
    }
}

/// `:nth(n)`: only the candidate at position `n`, if there is one.
pub open spec fn nth_of<E>(cs: Seq<E>, nth: Option<usize>) -> Seq<E> {
    match nth {
        None => cs,
        Some(n) => if n < cs.len() {
            seq![cs[n as int]]
        } else {
            Seq::empty()
        },
    }
}

/// At most `limit` elements of `s`, from the front.
pub open spec fn capped<E>(s: Seq<E>, limit: Option<usize>) -> Seq<E> {
    match limit {
        Some(l) => if s.len() > l {
            s.take(l as int)
        } else {
            s
        },
        None => s,
    }
}

/// `more` appended to `acc` until `acc` holds `limit` elements.
pub open spec fn filled<E>(acc: Seq<E>, more: Seq<E>, limit: Option<usize>) -> Seq<E> {
    match limit {
        Some(l) => if acc.len() >= l {
            acc
        } else {
            acc + capped(more, Some((l - acc.len()) as usize))
        },
        None => acc + more,
    }
}

/// What one step selects from `origin` before `:nth` and ascension: the
/// origin itself when it passes (first step), its passing children (`>`),
/// or its passing descendants in depth-first order (`>>`).
pub open spec fn step_candidates<E: UiElement>(step: StepView, origin: E) -> Seq<E> {
    match step.combinator {
        Combinator::Root => if passes(step, origin) {
            seq![origin]
        } else {
            Seq::empty()
        },
        Combinator::Child => passing(step, children_read(origin)),
        Combinator::Descendant => descendants(step, origin, WALK_DEPTH as nat),
    }
}

/// What one step reaches from `origin`: its candidates, the `:nth` of them
/// (counted among those that pass the step), then ascended.
pub open spec fn step_results<E: UiElement>(step: StepView, origin: E) -> Seq<E> {
    ascended(nth_of(step_candidates(step, origin), step.nth), step.ascend as nat)
}

/// Every element steps `i..` reach from `origin`, in document order: what
/// step `i` reaches, each followed through the remaining steps in turn.
pub open spec fn walk<E: UiElement>(steps: Seq<StepView>, i: int, origin: E) -> Seq<E>
    decreases steps.len() - i, 0int,
{
    if i < 0 || i >= steps.len() {
        Seq::empty()
    } else if i == steps.len() - 1 {
        step_results(steps[i], origin)
    } else {
        walk_all(steps, i + 1, step_results(steps[i], origin))
    }
}

/// `walk` from each element of `cs` in turn, concatenated.
pub open spec fn walk_all<E: UiElement>(steps: Seq<StepView>, i: int, cs: Seq<E>) -> Seq<E>
    decreases steps.len() - i, cs.len() + 1,
{
    if cs.len() == 0 || i > steps.len() {
        Seq::empty()
    } else {
        walk_all(steps, i, cs.drop_last()) + walk(steps, i, cs.last())
    }
}

/// The first element of `s`, if any.
pub open spec fn first_of<E>(s: Seq<E>) -> Option<E> {
    if s.len() == 0 {
        None
    } else {
        Some(s[0])
    }
}

/// Whether the last step stops its walk at the first match before ascending:
/// a `>>` step with `:parent` / `:ancestor(n)` and no `:nth`. Only there may
/// `find_one` miss what `find_all` finds (the first match having no ancestor
/// that far up while a later one has).
pub open spec fn ascends_after_first_match(steps: Seq<StepView>) -> bool {
    steps.len() > 0 && steps.last().combinator == Combinator::Descendant && steps.last().nth is None
        && steps.last().ascend > 0
}

/// Whether the last step neither ascends nor is a first step with `:nth`:
/// there `find_one_with_parent` finds what `find_one` finds.
pub open spec fn plain_last_step(steps: Seq<StepView>) -> bool {
    steps.len() > 0 && steps.last().ascend == 0 && !(steps.last().combinator == Combinator::Root
        && steps.last().nth is Some)
}

/// `r` is the start of `w`: all of it, or at least `l` elements.
pub open spec fn prefix_reaching<E>(r: Seq<E>, w: Seq<E>, l: usize) -> bool {
    &&& r.len() <= w.len()
    &&& r == w.take(r.len() as int)
    &&& (r.len() >= l || r == w)
}

proof fn lemma_read_name<E: UiElement>(e: E, n: Option<String>)
    requires
        fixed_tree::<E>(),
        call_ensures(E::name, (&e,), n),
    ensures
        name_read(e) == match n {
            Some(s) => s@,
            None => Seq::<char>::empty(),
        },
{
    let c = choose|m: Option<String>| call_ensures(E::name, (&e,), m);
    assert(call_ensures(E::name, (&e,), c));
}

proof fn lemma_read_role<E: UiElement>(e: E, n: String)
    requires
        fixed_tree::<E>(),
        call_ensures(E::role, (&e,), n),
    ensures
        role_read(e) == n@,
{
    let c = choose|m: String| call_ensures(E::role, (&e,), m);
    assert(call_ensures(E::role, (&e,), c));
}

proof fn lemma_read_aid<E: UiElement>(e: E, n: Option<String>)
    requires
        fixed_tree::<E>(),
        call_ensures(E::automation_id, (&e,), n),
    ensures
        aid_read(e) == match n {
            Some(s) => s@,
            None => Seq::<char>::empty(),
        },
{
    let c = choose|m: Option<String>| call_ensures(E::automation_id, (&e,), m);
    assert(call_ensures(E::automation_id, (&e,), c));
}

proof fn lemma_read_children<E: UiElement>(e: E, r: Result<Vec<E>, AutomataError>)
    requires
        fixed_tree::<E>(),
        call_ensures(E::children, (&e,), r),
    ensures
        children_read(e) == match r {
            Ok(v) => v@,
            Err(_) => Seq::<E>::empty(),
        },
{
    let c = choose|m: Result<Vec<E>, AutomataError>| call_ensures(E::children, (&e,), m);
    assert(call_ensures(E::children, (&e,), c));
}

proof fn lemma_read_parent<E: UiElement>(e: E, r: Option<E>)
    requires
        fixed_tree::<E>(),
        call_ensures(E::parent, (&e,), r),
    ensures
        parent_read(e) == r,
{
    let c = choose|m: Option<E>| call_ensures(E::parent, (&e,), m);
    assert(call_ensures(E::parent, (&e,), c));
}

fn step_matches<E: UiElement>(step: &PathStep, el: &E) -> (r: bool)
    ensures
        fixed_tree::<E>() ==> r == passes(step@, *el),
{
    let n = el.name();
    let name = match n {
        Some(n) => n,
        None => String::new(),
    };
    let a = el.automation_id();
    let aid = match a {
        Some(a) => a,
        None => String::new(),
    };
    let role = el.role();
    proof {
        if fixed_tree::<E>() {
            lemma_read_name(*el, n);
            lemma_read_aid(*el, a);
            lemma_read_role(*el, role);
        }
    }
    step.matches_attrs(role.as_str(), name.as_str(), aid.as_str())
}

/// Walks up `n` parents; `None` when the root comes first.
fn ascend_n<E: UiElement>(el: E, n: usize) -> (r: Option<E>)
    ensures
        n == 0 ==> r == Some(el),
        fixed_tree::<E>() ==> r == ancestor(el, n as nat),
{
    let mut cur = el;
    let mut k: usize = 0;
    while k < n
        invariant
            k <= n,
            n == 0 ==> cur == el,
            fixed_tree::<E>() ==> ancestor(el, n as nat) == ancestor(cur, (n - k) as nat),
        decreases n - k,
    {
        let p = cur.parent();
        proof {
            if fixed_tree::<E>() {
                lemma_read_parent(cur, p);
            }
        }
        match p {
            Some(p) => {
                cur = p;
            },
            None => {
                return None;
            },
        }
        k = k + 1;
    }
    Some(cur)
}

/// `:nth(n)`: only the candidate at position `n`, if there is one.
fn apply_nth<E>(candidates: Vec<E>, nth: Option<usize>) -> (r: Vec<E>)
    ensures
        nth is None ==> r@ == candidates@,
        nth matches Some(n) ==> r@ == if n < candidates@.len() {
            seq![candidates@[n as int]]
        } else {
            Seq::<E>::empty()
        },
{
    match nth {
        None => candidates,
        Some(n) => {
            let mut candidates = candidates;
            if n < candidates.len() {
                let ghost c = candidates@;
                let el = candidates.swap_remove(n);
                let mut r: Vec<E> = Vec::new();
                r.push(el);
                assert(r@ =~= seq![c[n as int]]);
                r
            } else {
                Vec::new()
            }
        },
    }
}

/// `:parent` / `:ancestor(n)` on every candidate; those without an ancestor
/// that far up drop out.
fn ascend_all<E: UiElement>(candidates: Vec<E>, n: usize) -> (r: Vec<E>)
    ensures
        r@.len() <= candidates@.len(),
        n == 0 ==> r@ == candidates@,
        fixed_tree::<E>() ==> r@ == ascended(candidates@, n as nat),
{
    if n == 0 {
        return candidates;
    }
    let mut r: Vec<E> = Vec::new();
    let mut i: usize = 0;
    while i < candidates.len()
        invariant
            i <= candidates@.len(),
            r@.len() <= i,
            n > 0,
            fixed_tree::<E>() ==> r@ == ancestors_of_all(candidates@.take(i as int), n as nat),
        decreases candidates@.len() - i,
    {
        let c = candidates[i].clone();
        proof {
            if fixed_tree::<E>() {
                assert(c == candidates@[i as int]);
                assert(candidates@.take(i + 1).drop_last() =~= candidates@.take(i as int));
            }
        }
        match ascend_n(c, n) {
            Some(a) => r.push(a),
            None => {},
        }
        i = i + 1;
    }
    assert(candidates@.take(candidates@.len() as int) =~= candidates@);
    r
}

/// Depth-first, the descendants of `parent` that pass `step`, appended to
/// `acc`; once `acc` holds `limit` elements the walk stops.
fn collect_descendants<E: UiElement>(
    parent: &E,
    step: &PathStep,
    acc: &mut Vec<E>,
    limit: Option<usize>,
    depth: usize,
)
    ensures
        final(acc)@.len() >= old(acc)@.len(),
        limit is Some && old(acc)@.len() >= limit->0 ==> final(acc)@.len() == old(acc)@.len(),
        limit is Some && old(acc)@.len() <= limit->0 ==> final(acc)@.len() <= limit->0,
        fixed_tree::<E>() ==> final(acc)@ == filled(old(acc)@, descendants(step@, *parent, depth as nat), limit),
    decreases depth,
{
    if let Some(l) = limit {
        if acc.len() >= l {
            return;
        }
    }
    if depth == 0 {
        proof {
            lemma_filled_nothing(acc@, limit);
        }
        return;
    }
    let read = parent.children();
    proof {
        if fixed_tree::<E>() {
            lemma_read_children(*parent, read);
        }
    }
    let children = match read {
        Ok(c) => c,
        Err(_) => {
            proof {
                lemma_filled_nothing(acc@, limit);
            }
            return;
        },
    };
    let ghost start = acc@;
    let ghost d = (depth - 1) as nat;
    let ghost full = descendants_of_all(step@, children@, d);
    let mut i: usize = 0;
    while i < children.len()
        invariant
            i <= children@.len(),
            depth > 0,
            d == depth - 1,
            start == old(acc)@,
            acc@.len() >= start.len(),
            limit is Some ==> start.len() < limit->0 && acc@.len() < limit->0,
            full == descendants_of_all(step@, children@, d),
            fixed_tree::<E>() ==> full == descendants(step@, *parent, depth as nat),
            fixed_tree::<E>() ==> acc@ == filled(start, descendants_of_all(step@, children@.take(i as int), d), limit),
        decreases children@.len() - i,
    {
        let ghost prefix = descendants_of_all(step@, children@.take(i as int), d);
        let ghost rest = descendants_of_all(step@, children@.skip(i + 1), d);
        let ghost upto = descendants_of_all(step@, children@.take(i + 1), d);
        proof {
            assert(children@.take(i + 1).drop_last() =~= children@.take(i as int));
            assert(children@ =~= children@.take(i + 1) + children@.skip(i + 1));
            lemma_descendants_append(step@, children@.take(i + 1), children@.skip(i + 1), d);
        }
        let child = &children[i];
        let ghost mid = if fixed_tree::<E>() && passes(step@, *child) {
            prefix + seq![*child]
        } else {
            prefix
        };
        if step_matches(step, child) {
            let c = child.clone();
            proof {
                if fixed_tree::<E>() {
                    assert(c == *child);
                    lemma_filled_assoc(start, prefix, seq![c], limit);
                    assert(acc@ + seq![c] =~= acc@.push(c));
                }
            }
            acc.push(c);
            if let Some(l) = limit {
                if acc.len() >= l {
                    proof {
                        if fixed_tree::<E>() {
                            lemma_filled_assoc(start, mid, descendants(step@, *child, d) + rest, limit);
                            assert(upto == mid + descendants(step@, *child, d));
                            assert(full == mid + (descendants(step@, *child, d) + rest));
                        }
                    }
                    return;
                }
            }
        } else {
            proof {
                if fixed_tree::<E>() {
                    assert(prefix + Seq::<E>::empty() =~= prefix);
                }
            }
        }
        proof {
            if fixed_tree::<E>() {
                lemma_filled_assoc(start, mid, descendants(step@, *child, d), limit);
                assert(upto =~= mid + descendants(step@, *child, d));
            }
        }
        collect_descendants(child, step, acc, limit, depth - 1);
        if let Some(l) = limit {
            if acc.len() >= l {
                proof {
                    if fixed_tree::<E>() {
                        lemma_filled_assoc(start, upto, rest, limit);
                    }
                }
                return;
            }
        }
        i = i + 1;
    }
    proof {
        assert(children@.take(children@.len() as int) =~= children@);
    }
}

/// Depth-first, the first descendant of `parent` that passes `step`, with
/// the element whose children it was found among.
fn collect_first_with_parent<E: UiElement>(parent: &E, step: &PathStep, depth: usize) -> (r:
    Option<(E, E)>)
    ensures
        fixed_tree::<E>() ==> match r {
            Some((e, _)) => first_of(descendants(step@, *parent, depth as nat)) == Some(e),
            None => descendants(step@, *parent, depth as nat).len() == 0,
        },
    decreases depth,
{
    if depth == 0 {
        return None;
    }
    let read = parent.children();
    proof {
        if fixed_tree::<E>() {
            lemma_read_children(*parent, read);
        }
    }
    let children = match read {
        Ok(c) => c,
        Err(_) => {
            return None;
        },
    };
    let ghost d = (depth - 1) as nat;
    let mut i: usize = 0;
    while i < children.len()
        invariant
            i <= children@.len(),
            depth > 0,
            d == depth - 1,
            fixed_tree::<E>() ==> descendants(step@, *parent, depth as nat) == descendants_of_all(
                step@,
                children@,
                d,
            ),
            fixed_tree::<E>() ==> descendants_of_all(step@, children@.take(i as int), d).len() == 0,
        decreases children@.len() - i,
    {
        let child = &children[i];
        let ghost rest = descendants_of_all(step@, children@.skip(i + 1), d);
        let ghost prefix = descendants_of_all(step@, children@.take(i as int), d);
        let ghost upto = descendants_of_all(step@, children@.take(i + 1), d);
        proof {
            assert(children@.take(i + 1).drop_last() =~= children@.take(i as int));
            assert(children@ =~= children@.take(i + 1) + children@.skip(i + 1));
            lemma_descendants_append(step@, children@.take(i + 1), children@.skip(i + 1), d);
            if fixed_tree::<E>() {
                assert(prefix =~= Seq::<E>::empty());
            }
        }
        if step_matches(step, child) {
            let c = child.clone();
            proof {
                if fixed_tree::<E>() {
                    assert(c == *child);
                    assert((upto + rest)[0] == c);
                }
            }
            return Some((c, parent.clone()));
        }
        match collect_first_with_parent(child, step, depth - 1) {
            Some(found) => {
                proof {
                    if fixed_tree::<E>() {
                        assert(upto =~= descendants(step@, *child, d));
                        assert((upto + rest)[0] == found.0);
                    }
                }
                return Some(found);
            },
            None => {},
        }
        proof {
            if fixed_tree::<E>() {
                assert(upto =~= Seq::<E>::empty());
            }
        }
        i = i + 1;
    }
    proof {
        assert(children@.take(children@.len() as int) =~= children@);
    }
    None
}

/// The children of `origin` that pass `step`, in order.
fn matching_children<E: UiElement>(origin: &E, step: &PathStep) -> (r: Vec<E>)
    ensures
        fixed_tree::<E>() ==> r@ == passing(step@, children_read(*origin)),
{
    let mut r: Vec<E> = Vec::new();
    let read = origin.children();
    proof {
        if fixed_tree::<E>() {
            lemma_read_children(*origin, read);
        }
    }
    match read {
        Ok(children) => {
            let mut i: usize = 0;
            while i < children.len()
                invariant
                    i <= children@.len(),
                    fixed_tree::<E>() ==> r@ == passing(step@, children@.take(i as int)),
                decreases children@.len() - i,
            {
                proof {
                    assert(children@.take(i + 1).drop_last() =~= children@.take(i as int));
                }
                if step_matches(step, &children[i]) {
                    r.push(children[i].clone());
                }
                i = i + 1;
            }
            assert(children@.take(children@.len() as int) =~= children@);
        },
        Err(_) => {},
    }
    r
}

/// The candidates one step reaches from `origin`: the origin itself, its
/// matching children, or its matching descendants (at most `limit`).
fn candidates_for<E: UiElement>(origin: &E, step: &PathStep, limit: Option<usize>) -> (r: Vec<E>)
    ensures
        step.combinator == Combinator::Root ==> r@.len() <= 1,
        step.combinator == Combinator::Descendant && limit is Some ==> r@.len() <= limit->0,
        fixed_tree::<E>() ==> r@ == capped(
            step_candidates(step@, *origin),
            if step.combinator == Combinator::Descendant {
                limit
            } else {
                None
            },
        ),
{
    match step.combinator {
        Combinator::Root => {
            let mut r: Vec<E> = Vec::new();
            if step_matches(step, origin) {
                let c = origin.clone();
                r.push(c);
                proof {
                    if fixed_tree::<E>() {
                        assert(c == *origin);
                        assert(r@ =~= seq![*origin]);
                    }
                }
            }
            r
        },
        Combinator::Child => matching_children(origin, step),
        Combinator::Descendant => {
            let mut acc: Vec<E> = Vec::new();
            collect_descendants(origin, step, &mut acc, limit, WALK_DEPTH);
            proof {
                let m = descendants(step@, *origin, WALK_DEPTH as nat);
                assert(Seq::<E>::empty() + m =~= m);
                match limit {
                    Some(l) => {
                        assert(Seq::<E>::empty() + capped(m, Some(l)) =~= capped(m, Some(l)));
                        if l == 0 {
                            assert(capped(m, Some(l)) =~= Seq::<E>::empty());
                        }
                    },
                    None => {},
                }
            }
            acc
        },
    }
}

/// Whether the walk for the last step stops at a limit: a descendant walk
/// without `:nth`, or any step with `:nth` (which keeps at most one).
pub open spec fn last_step_bounded(steps: Seq<PathStep>) -> bool {
    steps.len() > 0 && (steps.last().nth is Some || steps.last().combinator
        == Combinator::Descendant)
}

proof fn lemma_walk_all_append<E: UiElement>(steps: Seq<StepView>, i: int, s1: Seq<E>, s2: Seq<E>)
    requires
        0 < i <= steps.len(),
    ensures
        walk_all(steps, i, s1 + s2) == walk_all(steps, i, s1) + walk_all(steps, i, s2),
    decreases s2.len(),
{
    if s2.len() == 0 {
        assert(s1 + s2 =~= s1);
        assert(walk_all(steps, i, s1) + Seq::<E>::empty() =~= walk_all(steps, i, s1));
    } else {
        assert((s1 + s2).drop_last() =~= s1 + s2.drop_last());
        assert((s1 + s2).last() == s2.last());
        lemma_walk_all_append(steps, i, s1, s2.drop_last());
        assert(walk_all(steps, i, s1 + s2) =~= walk_all(steps, i, s1 + s2.drop_last()) + walk(steps, i, s2.last()));
        assert(walk_all(steps, i, s2) =~= walk_all(steps, i, s2.drop_last()) + walk(steps, i, s2.last()));
    }
}

/// The elements steps `i..` reach from `origin`, in document order;
/// `limit` caps how many are collected.
fn match_steps<E: UiElement>(origin: &E, steps: &Vec<PathStep>, i: usize, limit: Option<usize>) -> (r:
    Vec<E>)
    requires
        i < steps@.len(),
        limit is Some ==> limit->0 > 0,
    ensures
        i + 1 == steps@.len() && steps@[i as int].nth is Some ==> r@.len() <= 1,
        limit is Some && last_step_bounded(steps@) ==> r@.len() <= limit->0,
        fixed_tree::<E>() && limit is None ==> r@ == walk(steps_view(steps@), i as int, *origin),
        fixed_tree::<E>() && limit is Some && !ascends_after_first_match(steps_view(steps@))
            ==> prefix_reaching(r@, walk(steps_view(steps@), i as int, *origin), limit->0),
    decreases steps@.len() - i,
{
    let ghost sv = steps_view(steps@);
    let n = steps.len();
    let step = &steps[i];
    let last = i == n - 1;
    let step_limit = if last && step.nth.is_none() {
        limit
    } else {
        None
    };
    let candidates = ascend_all(
        apply_nth(candidates_for(origin, step, step_limit), step.nth),
        step.ascend,
    );
    proof {
        assert(sv[i as int] == step@);
        if fixed_tree::<E>() {
            let w = step_results(step@, *origin);
            if step_limit is None || step.combinator != Combinator::Descendant {
                assert(candidates@ == w);
            }
        }
    }
    if last {
        proof {
            if fixed_tree::<E>() {
                let w = walk(sv, i as int, *origin);
                assert(w == step_results(step@, *origin));
                if limit is Some && !ascends_after_first_match(sv) {
                    assert(sv.last() == step@);
                    if step_limit is Some && step.combinator == Combinator::Descendant {
                        assert(step.ascend == 0);
                        assert(candidates@ == capped(w, limit));
                        assert(w.take(w.len() as int) =~= w);
                    } else {
                        assert(candidates@ == w);
                        assert(w.take(w.len() as int) =~= w);
                    }
                }
            }
        }
        return candidates;
    }
    let ghost cands = candidates@;
    let ghost w_all = walk_all(sv, i + 1, cands);
    proof {
        if fixed_tree::<E>() {
            assert(walk(sv, i as int, *origin) == w_all);
        }
    }
    assert(cands.take(cands.len() as int) =~= cands);
    assert(w_all.take(w_all.len() as int) =~= w_all);
    let mut results: Vec<E> = Vec::new();
    let mut k: usize = 0;
    while k < candidates.len()
        invariant_except_break
            limit is Some ==> results@.len() < limit->0,
            fixed_tree::<E>() && (limit is None || !ascends_after_first_match(sv)) ==> results@ == walk_all(
                sv,
                i + 1,
                cands.take(k as int),
            ),
        invariant
            cands.take(cands.len() as int) == cands,
            w_all.take(w_all.len() as int) == w_all,
            n == steps@.len(),
            i + 1 < n,
            sv == steps_view(steps@),
            cands == candidates@,
            w_all == walk_all(sv, i + 1, cands),
            k <= candidates@.len(),
            limit is Some ==> limit->0 > 0,
            limit is Some && last_step_bounded(steps@) ==> results@.len() <= limit->0,
        ensures
            limit is Some && last_step_bounded(steps@) ==> results@.len() <= limit->0,
            fixed_tree::<E>() && limit is None ==> results@ == w_all,
            fixed_tree::<E>() && limit is Some && !ascends_after_first_match(sv) ==> prefix_reaching(
                results@,
                w_all,
                limit->0,
            ),
        decreases candidates@.len() - k,
    {
        let remaining = match limit {
            Some(l) => Some(l - if results.len() < l {
                results.len()
            } else {
                l
            }),
            None => None,
        };
        let found = match_steps(&candidates[k], steps, i + 1, remaining);
        let ghost before = results@;
        let ghost c = cands[k as int];
        proof {
            assert(cands.take(k + 1).drop_last() =~= cands.take(k as int));
            assert(cands =~= cands.take(k + 1) + cands.skip(k + 1));
            lemma_walk_all_append(sv, i + 1, cands.take(k + 1), cands.skip(k + 1));
        }
        let mut j: usize = 0;
        while j < found.len()
            invariant
                j <= found@.len(),
                results@.len() == before.len() + j,
                fixed_tree::<E>() ==> results@ == before + found@.take(j as int),
                limit is Some && last_step_bounded(steps@) ==> before.len() + found@.len() <= limit->0,
            decreases found@.len() - j,
        {
            let e = found[j].clone();
            proof {
                if fixed_tree::<E>() {
                    assert(found@.take(j + 1) =~= found@.take(j as int).push(e));
                }
            }
            results.push(e);
            j = j + 1;
        }
        proof {
            if fixed_tree::<E>() {
                assert(found@.take(found@.len() as int) =~= found@);
                let wc = walk(sv, i + 1, c);
                let rest = walk_all(sv, i + 1, cands.skip(k + 1));
                assert(walk_all(sv, i + 1, cands.take(k + 1)) == walk_all(sv, i + 1, cands.take(k as int)) + wc);
                if limit is None {
                    assert(found@ == wc);
                    assert(results@ == walk_all(sv, i + 1, cands.take(k + 1)));
                }
                if limit is Some && !ascends_after_first_match(sv) {
                    assert(found@ != wc ==> results@.len() >= limit->0);
                    if found@ == wc {
                        assert(results@ == walk_all(sv, i + 1, cands.take(k + 1)));
                        assert(w_all == results@ + rest);
                        assert(results@ =~= w_all.take(results@.len() as int));
                    } else {
                        assert(found@.len() >= remaining->0);
                        assert(w_all =~= before + (wc + rest));
                        assert(results@ =~= w_all.take(results@.len() as int));
                    }
                }
            }
        }
        if let Some(l) = limit {
            if results.len() >= l {
                break;
            }
        }
        k = k + 1;
    }
    proof {
        if fixed_tree::<E>() && limit is Some && !ascends_after_first_match(sv) {
            assert(w_all.take(w_all.len() as int) =~= w_all);
        }
    }
    results
}

/// The first element steps `i..` reach from `origin`, with the element the
/// last step was found among (its step parent); there is no step parent when
/// the last step ascends or matches the origin itself.
fn find_first_with_step_parent<E: UiElement>(origin: &E, steps: &Vec<PathStep>, i: usize) -> (r:
    Option<(E, Option<E>)>)
    requires
        i < steps@.len(),
    ensures
        r matches Some((_, Some(_))) ==> steps@.last().ascend == 0 && steps@.last().combinator
            != Combinator::Root,
        fixed_tree::<E>() && plain_last_step(steps_view(steps@)) ==> match r {
            Some((e, _)) => first_of(walk(steps_view(steps@), i as int, *origin)) == Some(e),
            None => walk(steps_view(steps@), i as int, *origin).len() == 0,
        },
    decreases steps@.len() - i,
{
    let ghost sv = steps_view(steps@);
    let n = steps.len();
    let step = &steps[i];
    proof {
        assert(sv[i as int] == step@);
    }
    if i == n - 1 {
        proof {
            assert(sv.last() == step@);
            assert(walk(sv, i as int, *origin) == step_results(step@, *origin));
        }
        return match step.combinator {
            Combinator::Root => {
                if !step_matches(step, origin) {
                    proof {
                        assert(nth_of(Seq::<E>::empty(), step.nth) =~= Seq::<E>::empty());
                    }
                    None
                } else if step.ascend > 0 {
                    match ascend_n(origin.clone(), step.ascend) {
                        Some(a) => Some((a, None)),
                        None => None,
                    }
                } else {
                    let c = origin.clone();
                    proof {
                        if fixed_tree::<E>() {
                            assert(c == *origin);
                        }
                    }
                    Some((c, None))
                }
            },
            Combinator::Child => {
                let picked = apply_nth(matching_children(origin, step), step.nth);
                if picked.len() == 0 {
                    None
                } else if step.ascend > 0 {
                    match ascend_n(picked[0].clone(), step.ascend) {
                        Some(a) => Some((a, None)),
                        None => None,
                    }
                } else {
                    let c = picked[0].clone();
                    proof {
                        if fixed_tree::<E>() {
                            assert(c == picked@[0]);
                        }
                    }
                    Some((c, Some(origin.clone())))
                }
            },
            Combinator::Descendant => {
                if step.nth.is_some() {
                    let mut acc: Vec<E> = Vec::new();
                    collect_descendants(origin, step, &mut acc, None, WALK_DEPTH);
                    proof {
                        let m = descendants(step@, *origin, WALK_DEPTH as nat);
                        assert(Seq::<E>::empty() + m =~= m);
                    }
                    let picked = apply_nth(acc, step.nth);
                    if picked.len() == 0 {
                        None
                    } else if step.ascend > 0 {
                        match ascend_n(picked[0].clone(), step.ascend) {
                            Some(a) => Some((a, None)),
                            None => None,
                        }
                    } else {
                        let c = picked[0].clone();
                        proof {
                            if fixed_tree::<E>() {
                                assert(c == picked@[0]);
                            }
                        }
                        Some((c, Some(origin.clone())))
                    }
                } else {
                    match collect_first_with_parent(origin, step, WALK_DEPTH) {
                        None => None,
                        Some((el, p)) => {
                            if step.ascend > 0 {
                                match ascend_n(el, step.ascend) {
                                    Some(a) => Some((a, None)),
                                    None => None,
                                }
                            } else {
                                Some((el, Some(p)))
                            }
                        },
                    }
                }
            },
        };
    }
    let candidates = ascend_all(apply_nth(candidates_for(origin, step, None), step.nth), step.ascend);
    let ghost cands = candidates@;
    proof {
        if fixed_tree::<E>() {
            assert(cands == step_results(step@, *origin));
            assert(walk(sv, i as int, *origin) == walk_all(sv, i + 1, cands));
        }
        assert(cands.take(0) =~= Seq::<E>::empty());
    }
    let mut k: usize = 0;
    while k < candidates.len()
        invariant
            n == steps@.len(),
            i + 1 < n,
            sv == steps_view(steps@),
            cands == candidates@,
            k <= candidates@.len(),
            fixed_tree::<E>() && plain_last_step(sv) ==> walk_all(sv, i + 1, cands.take(k as int)).len()
                == 0,
            fixed_tree::<E>() ==> walk(sv, i as int, *origin) == walk_all(sv, i + 1, cands),
        decreases candidates@.len() - k,
    {
        let ghost rest = walk_all(sv, i + 1, cands.skip(k + 1));
        let ghost upto = walk_all(sv, i + 1, cands.take(k + 1));
        proof {
            assert(cands.take(k + 1).drop_last() =~= cands.take(k as int));
            assert(cands =~= cands.take(k + 1) + cands.skip(k + 1));
            lemma_walk_all_append(sv, i + 1, cands.take(k + 1), cands.skip(k + 1));
        }
        match find_first_with_step_parent(&candidates[k], steps, i + 1) {
            Some(found) => {
                proof {
                    if fixed_tree::<E>() && plain_last_step(sv) {
                        assert(upto =~= walk(sv, i + 1, cands[k as int]));
                        assert((upto + rest)[0] == found.0);
                        assert(walk(sv, i as int, *origin) == upto + rest);
                    }
                }
                return Some(found);
            },
            None => {},
        }
        proof {
            if fixed_tree::<E>() && plain_last_step(sv) {
                assert(upto =~= Seq::<E>::empty());
            }
        }
        k = k + 1;
    }
    proof {
        assert(cands.take(cands.len() as int) =~= cands);
    }
    None
}

impl SelectorPath {
    /// The first element the path reaches from `root`: over a fixed tree,
    /// the first of `find_all`'s results. The walk stops at the first match,
    /// so a last `>>` step that ascends, without `:nth`, yields nothing when
    /// that first match has no ancestor so far up.
    pub fn find_one<E: UiElement>(&self, root: &E) -> (r: Option<E>)
        ensures
            self@.len() == 0 ==> r is None,
            fixed_tree::<E>() && !ascends_after_first_match(self@) ==> r == first_of(walk(self@, 0, *root)),
    {
        let steps = self.steps();
        if steps.len() == 0 {
            return None;
        }
        let found = match_steps(root, steps, 0, Some(1));
        if found.len() == 0 {
            None
        } else {
            let e = found[0].clone();
            proof {
                if fixed_tree::<E>() && !ascends_after_first_match(self@) {
                    let w = walk(self@, 0, *root);
                    assert(found@.take(found@.len() as int)[0] == w[0]);
                }
            }
            Some(e)
        }
    }

    /// Every element the path reaches from `root`, in document order: over
    /// a fixed tree, `walk`.
    pub fn find_all<E: UiElement>(&self, root: &E) -> (r: Vec<E>)
        ensures
            self@.len() == 0 ==> r@.len() == 0,
            self@.len() == 1 && self@[0].nth is Some ==> r@.len() <= 1,
            fixed_tree::<E>() ==> r@ == walk(self@, 0, *root),
    {
        let steps = self.steps();
        if steps.len() == 0 {
            return Vec::new();
        }
        match_steps(root, steps, 0, None)
    }

    /// Whether `element` passes the first step.
    pub fn matches<E: UiElement>(&self, element: &E) -> (r: bool)
        ensures
            self@.len() == 0 ==> !r,
            fixed_tree::<E>() ==> r == (self@.len() > 0 && passes(self@[0], *element)),
    {
        let steps = self.steps();
        if steps.len() == 0 {
            return false;
        }
        assert(steps@[0]@ == self@[0]);
        step_matches(&steps[0], element)
    }

    /// Like `find_one`, with the element the last step was found among, for
    /// re-resolving the element later from there alone. Over a fixed tree,
    /// and when the last step neither ascends nor is a first step with
    /// `:nth`, the element is the first of `find_all`'s results.
    pub fn find_one_with_parent<E: UiElement>(&self, root: &E) -> (r: Option<(E, Option<E>)>)
        ensures
            self@.len() == 0 ==> r is None,
            fixed_tree::<E>() && plain_last_step(self@) ==> match r {
                Some((e, _)) => first_of(walk(self@, 0, *root)) == Some(e),
                None => walk(self@, 0, *root).len() == 0,
            },
            r matches Some((_, Some(_))) ==> self@.last().ascend == 0 && self@.last().combinator
                != Combinator::Root,
    {
        let steps = self.steps();
        if steps.len() == 0 {
            return None;
        }
        find_first_with_step_parent(root, steps, 0)
    }

    /// Runs only the last step from a cached step parent: among its children
    /// (a root or child step) or its descendants.
    pub fn find_one_from_step_parent<E: UiElement>(&self, step_parent: &E) -> (r: Option<E>)
        ensures
            self@.len() == 0 ==> r is None,
            self@.len() > 0 && fixed_tree::<E>() ==> r == from_step_parent(self@.last(), *step_parent),
    {
        let steps = self.steps();
        if steps.len() == 0 {
            return None;
        }
        let step = &steps[steps.len() - 1];
        proof {
            assert(step@ == self@.last());
        }
        let picked = match step.combinator {
            Combinator::Root | Combinator::Child => apply_nth(matching_children(step_parent, step), step.nth),
            Combinator::Descendant => {
                let mut acc: Vec<E> = Vec::new();
                let limit = if step.nth.is_none() {
                    Some(1)
                } else {
                    None
                };
                collect_descendants(step_parent, step, &mut acc, limit, WALK_DEPTH);
                proof {
                    if fixed_tree::<E>() {
                        let m = descendants(step@, *step_parent, WALK_DEPTH as nat);
                        assert(Seq::<E>::empty() + m =~= m);
                        if m.len() > 0 {
                            assert(Seq::<E>::empty() + capped(m, Some(1)) =~= m.take(1));
                        } else {
                            assert(Seq::<E>::empty() + capped(m, Some(1)) =~= m);
                        }
                    }
                }
                apply_nth(acc, step.nth)
            },
        };
        if picked.len() == 0 {
            return None;
        }
        let el = picked[0].clone();
        proof {
            if fixed_tree::<E>() {
                assert(el == picked@[0]);
            }
        }
        if step.ascend > 0 {
            ascend_n(el, step.ascend)
        } else {
            Some(el)
        }
    }
}

/// The last step run from a step parent alone: the first of its candidates
/// there (passing children for a first or `>` step, passing descendants for
/// `>>`), after `:nth`, then ascended.
pub open spec fn from_step_parent<E: UiElement>(step: StepView, sp: E) -> Option<E> {
    let cands = match step.combinator {
        Combinator::Descendant => descendants(step, sp, WALK_DEPTH as nat),
        _ => passing(step, children_read(sp)),
    };
    match first_of(nth_of(cands, step.nth)) {
        Some(el) => ancestor(el, step.ascend as nat),
        None => None,
    }
}

// ── Snapshots ─────────────────────────────────────────────────────────────────

proof fn lemma_children_depth_bound(cs: Seq<SnapNode>, k: nat, d: nat)
    requires
        k <= cs.len(),
        forall|j: int| 0 <= j < k ==> tree_depth(#[trigger] cs[j]) <= d,
    ensures
        children_depth(cs, k) <= d,
    decreases k,
{
    if k > 0 {
        lemma_children_depth_bound(cs, (k - 1) as nat, d);
    }
}

impl SnapNode {
    /// A snapshot of `el` and its subtree down to `depth` levels below it:
    /// role, name, and for `text` elements their text. Children that cannot
    /// be read count as none.
    pub fn capture<E: UiElement>(el: &E, depth: usize) -> (r: SnapNode)
        ensures
            tree_depth(r) <= depth + 1,
            depth == 0 ==> r.children@.len() == 0,
            r.role@ != "text"@ ==> r.text is None,
        decreases depth,
    {
        let name = match el.name() {
            Some(n) => n,
            None => String::new(),
        };
        let role = el.role();
        let text_role = chars_of("text");
        let is_text = eq_chars(&chars_of(role.as_str()), &text_role);
        let text = if is_text {
            match el.text() {
                Ok(t) => Some(t),
                Err(_) => None,
            }
        } else {
            None
        };
        let mut children: Vec<SnapNode> = Vec::new();
        if depth > 0 {
            let kids = match el.children() {
                Ok(c) => c,
                Err(_) => Vec::new(),
            };
            let mut i: usize = 0;
            while i < kids.len()
                invariant
                    i <= kids@.len(),
                    depth > 0,
                    children@.len() == i,
                    forall|j: int| 0 <= j < i ==> tree_depth(#[trigger] children@[j]) <= depth,
                decreases kids@.len() - i,
            {
                let c = SnapNode::capture(&kids[i], depth - 1);
                children.push(c);
                i = i + 1;
            }
        }
        proof {
            lemma_children_depth_bound(children@, children@.len(), depth as nat);
        }
        SnapNode { role, name, text, children }
    }
}

} // verus!
