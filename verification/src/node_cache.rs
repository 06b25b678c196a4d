//! Cache of anchor element handles and of selector find results.
//!
//! Two tables share one invalidation boundary: the handle of each named
//! anchor, and per scope the elements earlier searches found (keyed by the
//! selector's text) with the "step parent" each was found under. Whenever an
//! anchor handle is stored or dropped, the find results of that scope go too:
//! a new handle means what was found under the old one may be stale.
//!
//! Elements are opaque here; whether one is still alive is the caller's
//! question to the platform.
use vstd::prelude::*;

use crate::keyed::Keyed;

verus! {

/// A cached anchor handle with the id it was stored under.
#[derive(Debug)]
pub struct CachedNode<E> {
    pub element: E,
    /// Assigned at insertion, for log messages.
    pub id: u64,
}

/// One find result: the element and the step parent it was found under
/// (`None` when the selector matched at the scope root).
#[derive(Debug)]
pub struct FoundEntry<E> {
    pub element: E,
    pub parent: Option<E>,
}

pub struct NodeCache<E> {
    /// Named anchor handles.
    pub anchors: Keyed<CachedNode<E>>,
    /// Find results per scope, keyed by selector text.
    pub found: Keyed<Keyed<FoundEntry<E>>>,
    /// The id the next stored handle gets.
    pub next_id: u64,
}

impl<E> NodeCache<E> {
    /// The find result stored for `(scope, key)`, if any.
    pub open spec fn found_at(&self, scope: Seq<char>, key: Seq<char>) -> Option<FoundEntry<E>> {
        if self.found@.dom().contains(scope) && self.found@[scope]@.dom().contains(key) {
            Some(self.found@[scope]@[key])
        } else {
            None
        }
    }

    pub fn new() -> (r: NodeCache<E>)
        ensures
            r.anchors@ == Map::<Seq<char>, CachedNode<E>>::empty(),
            r.found@ == Map::<Seq<char>, Keyed<FoundEntry<E>>>::empty(),
    {
        NodeCache { anchors: Keyed::new(), found: Keyed::new(), next_id: 1 }
    }

    /// The handle stored for `name`.
    pub fn element(&self, name: &str) -> (r: Option<&E>)
        ensures
            match r {
                Some(e) => self.anchors@.dom().contains(name@) && *e == self.anchors@[name@].element,
                None => !self.anchors@.dom().contains(name@),
            },
    {
        match self.anchors.get(name) {
            Some(n) => Some(&n.element),
            None => None,
        }
    }

    /// The id of the handle stored for `name`.
    pub fn node_id(&self, name: &str) -> (r: Option<u64>)
        ensures
            match r {
                Some(i) => self.anchors@.dom().contains(name@) && i == self.anchors@[name@].id,
                None => !self.anchors@.dom().contains(name@),
            },
    {
        match self.anchors.get(name) {
            Some(n) => Some(n.id),
            None => None,
        }
    }

    /// Stores the handle of anchor `name` and returns the id it got; the find
    /// results of that scope are dropped.
    pub fn insert(&mut self, name: String, element: E) -> (id: u64)
        ensures
            id == old(self).next_id,
            final(self).anchors@ == old(self).anchors@.insert(name@, CachedNode { element, id }),
            final(self).found@ == old(self).found@.remove(name@),
    {
        let id = self.next_id;
        self.next_id = self.next_id.wrapping_add(1);
        let _ = self.found.remove(name.as_str());
        self.anchors.insert(name, CachedNode { element, id });
        id
    }

    /// The names of the stored handles, each once.
    pub fn anchor_names(&self) -> (r: Vec<String>)
        ensures
            forall|k: Seq<char>| self.anchors@.dom().contains(k) <==> exists|i: int| 0 <= i < r@.len() && #[trigger] r@[i]@ == k,
    {
        self.anchors.keys()
    }

    /// Drops the handle of anchor `name`, with the find results of that scope,
    /// and gives back the dropped handle.
    pub fn remove(&mut self, name: &str) -> (r: Option<CachedNode<E>>)
        ensures
            final(self).anchors@ == old(self).anchors@.remove(name@),
            final(self).found@ == old(self).found@.remove(name@),
            final(self).next_id == old(self).next_id,
            match r {
                Some(n) => old(self).anchors@.dom().contains(name@) && n == old(self).anchors@[name@],
                None => !old(self).anchors@.dom().contains(name@),
            },
    {
        let _ = self.found.remove(name);
        self.anchors.remove(name)
    }

    /// The element found earlier for `(scope, key)`.
    pub fn found(&self, scope: &str, key: &str) -> (r: Option<&E>)
        ensures
            match r {
                Some(e) => self.found_at(scope@, key@) matches Some(f) && *e == f.element,
                None => self.found_at(scope@, key@) is None,
            },
    {
        match self.found.get(scope) {
            Some(m) => match m.get(key) {
                Some(f) => Some(&f.element),
                None => None,
            },
            None => None,
        }
    }

    /// The step parent stored with the element found for `(scope, key)`.
    pub fn found_parent(&self, scope: &str, key: &str) -> (r: Option<&E>)
        ensures
            match r {
                Some(e) => self.found_at(scope@, key@) matches Some(f) && f.parent == Some(*e),
                None => !(self.found_at(scope@, key@) matches Some(f) && f.parent is Some),
            },
    {
        match self.found.get(scope) {
            Some(m) => match m.get(key) {
                Some(f) => match &f.parent {
                    Some(p) => Some(p),
                    None => None,
                },
                None => None,
            },
            None => None,
        }
    }

    /// Stores a find result for `(scope, key)`, replacing any earlier one.
    pub fn set_found(&mut self, scope: &str, key: String, element: E, parent: Option<E>)
        ensures
            final(self).anchors@ == old(self).anchors@,
            final(self).found@.dom() == old(self).found@.dom().insert(scope@),
            forall|s: Seq<char>, k: Seq<char>|
                #[trigger] final(self).found_at(s, k) == if s == scope@ && k == key@ {
                    Some(FoundEntry { element, parent })
                } else {
                    old(self).found_at(s, k)
                },
    {
        let ghost before = self.found@;
        let mut inner = match self.found.remove(scope) {
            Some(m) => m,
            None => Keyed::new(),
        };
        let ghost inner_before = inner@;
        let ghost k = key@;
        inner.insert(key, FoundEntry { element, parent });
        self.found.insert(scope.to_string(), inner);
        proof {
            assert forall|s: Seq<char>, k2: Seq<char>|
                #[trigger] self.found_at(s, k2) == if s == scope@ && k2 == k {
                    Some(FoundEntry { element, parent })
                } else {
                    old(self).found_at(s, k2)
                } by {
                if s != scope@ {
                    assert(self.found@.dom().contains(s) == before.dom().contains(s));
                }
            }
            assert(self.found@.dom() =~= before.dom().insert(scope@));
        }
    }

    /// Drops the find result for `(scope, key)`.
    pub fn remove_found(&mut self, scope: &str, key: &str)
        ensures
            final(self).anchors@ == old(self).anchors@,
            forall|s: Seq<char>, k: Seq<char>|
                #[trigger] final(self).found_at(s, k) == if s == scope@ && k == key@ {
                    None
                } else {
                    old(self).found_at(s, k)
                },
    {
        let ghost before = self.found@;
        match self.found.remove(scope) {
            Some(m) => {
                let mut inner = m;
                let _ = inner.remove(key);
                self.found.insert(scope.to_string(), inner);
            },
            None => {},
        }
        proof {
            assert forall|s: Seq<char>, k2: Seq<char>|
                #[trigger] self.found_at(s, k2) == if s == scope@ && k2 == key@ {
                    None
                } else {
                    old(self).found_at(s, k2)
                } by {
                if s != scope@ {
                    assert(self.found@.dom().contains(s) == before.dom().contains(s));
                }
            }
        }
    }
}

} // verus!
