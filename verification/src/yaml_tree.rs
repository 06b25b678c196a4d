//! A YAML document as the linter reads it: strings, booleans, sequences and
//! mappings with string keys, each node with its source range. Documents are
//! parsed by `saphyr` and copied into this form.
use vstd::prelude::*;

use crate::lint::Span;
use crate::text::{chars_of, eq_chars, first_idx, lemma_first_idx, lemma_first_idx_props};

verus! {

// ── The tree ──────────────────────────────────────────────────────────────────

/// What a node holds.
#[derive(Debug)]
pub enum YamlValue {
    /// A string scalar.
    Str(String),
    /// A boolean scalar.
    Bool(bool),
    /// A sequence.
    List(Vec<YamlNode>),
    /// A mapping, in document order; a key that is not a string is `None`.
    Mapping(Vec<(Option<String>, YamlNode)>),
    /// Anything else (numbers, null, aliases, tagged nodes).
    Other,
}

/// A node with its source range.
#[derive(Debug)]
pub struct YamlNode {
    pub value: YamlValue,
    pub span: Span,
}

pub open spec fn entry_with_key(es: Seq<(Option<String>, YamlNode)>, key: Seq<char>) -> spec_fn(int) -> bool {
    |i: int| es[i].0 is Some && es[i].0->0@ == key
}

/// The value under `key` when `n` is a mapping that has it.
pub open spec fn map_get(n: YamlNode, key: Seq<char>) -> Option<YamlNode> {
    match n.value {
        YamlValue::Mapping(es) => {
            let i = first_idx(0, es@.len() as int, entry_with_key(es@, key));
            if i < es@.len() {
                Some(es@[i].1)
            } else {
                None
            }
        },
        _ => None,
    }
}

/// The string `n` holds, if it is a string scalar.
pub open spec fn str_of(n: YamlNode) -> Option<Seq<char>> {
    match n.value {
        YamlValue::Str(s) => Some(s@),
        _ => None,
    }
}

/// The string under `key`, with the span of its node.
pub open spec fn get_str(n: YamlNode, key: Seq<char>) -> Option<(Seq<char>, Span)> {
    match map_get(n, key) {
        Some(c) => match str_of(c) {
            Some(s) => Some((s, c.span)),
            None => None,
        },
        None => None,
    }
}

/// The items of `n`, if it is a sequence.
pub open spec fn items_of(n: YamlNode) -> Option<Seq<YamlNode>> {
    match n.value {
        YamlValue::List(v) => Some(v@),
        _ => None,
    }
}

/// The entries of `n`, if it is a mapping.
pub open spec fn entries_of(n: YamlNode) -> Option<Seq<(Option<String>, YamlNode)>> {
    match n.value {
        YamlValue::Mapping(v) => Some(v@),
        _ => None,
    }
}

pub proof fn lemma_entry_smaller(n: YamlNode, i: int)
    requires
        n.value is Mapping,
        0 <= i < n.value->Mapping_0@.len(),
    ensures
        decreases_to!(n => n.value->Mapping_0@[i].1),
{
    let es = n.value->Mapping_0;
    assert(decreases_to!(n => es@[i].1)) by {
        assert(decreases_to!(n => n.value));
        assert(decreases_to!(n.value => es));
        assert(decreases_to!(es => es@));
        assert(decreases_to!(es@ => es@[i]));
        assert(decreases_to!(es@[i] => es@[i].1));
    }
}

pub proof fn lemma_item_smaller(n: YamlNode, i: int)
    requires
        n.value is List,
        0 <= i < n.value->List_0@.len(),
    ensures
        decreases_to!(n => n.value->List_0@[i]),
{
    let v = n.value->List_0;
    assert(decreases_to!(n => v@[i])) by {
        assert(decreases_to!(n => n.value));
        assert(decreases_to!(n.value => v));
        assert(decreases_to!(v => v@));
        assert(decreases_to!(v@ => v@[i]));
    }
}

pub proof fn lemma_map_get_smaller(n: YamlNode, key: Seq<char>)
    ensures
        map_get(n, key) matches Some(c) ==> decreases_to!(n => c),
{
    if n.value is Mapping {
        let es = n.value->Mapping_0@;
        lemma_first_idx_props(0, es.len() as int, entry_with_key(es, key));
        let i = first_idx(0, es.len() as int, entry_with_key(es, key));
        if i < es.len() {
            lemma_entry_smaller(n, i);
        }
    }
}

impl YamlValue {
    pub fn is_list(&self) -> (r: bool)
        ensures
            r == (*self is List),
    {
        match self {
            YamlValue::List(_) => true,
            _ => false,
        }
    }
}

impl YamlNode {
    /// The value under `key`, if this is a mapping that has it.
    pub fn get(&self, key: &str) -> (r: Option<&YamlNode>)
        ensures
            match (r, map_get(*self, key@)) {
                (Some(c), Some(w)) => *c == w,
                (None, None) => true,
                _ => false,
            },
    {
        match &self.value {
            YamlValue::Mapping(es) => {
                let k = chars_of(key);
                let mut i: usize = 0;
                while i < es.len()
                    invariant
                        i <= es@.len(),
                        k@ == key@,
                        self.value == YamlValue::Mapping(*es),
                        forall|j: int| 0 <= j < i ==> !#[trigger] entry_with_key(es@, key@)(j),
                    decreases es@.len() - i,
                {
                    let hit = match &es[i].0 {
                        Some(s) => eq_chars(&chars_of(s.as_str()), &k),
                        None => false,
                    };
                    if hit {
                        proof {
                            lemma_first_idx(0, es@.len() as int, entry_with_key(es@, key@), i as int);
                        }
                        return Some(&es[i].1);
                    }
                    i = i + 1;
                }
                proof {
                    lemma_first_idx(0, es@.len() as int, entry_with_key(es@, key@), i as int);
                }
                None
            },
            _ => None,
        }
    }

    /// The string this node holds, if it is a string scalar.
    pub fn as_str(&self) -> (r: Option<&String>)
        ensures
            match (r, str_of(*self)) {
                (Some(s), Some(w)) => s@ == w,
                (None, None) => true,
                _ => false,
            },
    {
        match &self.value {
            YamlValue::Str(s) => Some(s),
            _ => None,
        }
    }

    /// The string under `key`, with the span of its node.
    pub fn get_str(&self, key: &str) -> (r: Option<(&String, Span)>)
        ensures
            match (r, get_str(*self, key@)) {
                (Some((s, sp)), Some((w, wsp))) => s@ == w && sp == wsp,
                (None, None) => true,
                _ => false,
            },
    {
        match self.get(key) {
            Some(c) => match c.as_str() {
                Some(s) => Some((s, c.span)),
                None => None,
            },
            None => None,
        }
    }
}


// ── Reading documents with saphyr ─────────────────────────────────────────────

#[verifier::external_type_specification]
#[verifier::external_body]
pub struct ExMarkedYaml<'input>(saphyr::MarkedYaml<'input>);

/// The shape of one parsed node, as far as the linter reads it.
#[derive(Debug)]
pub enum NodeKind {
    Str(String),
    Bool(bool),
    List,
    Mapping,
    Other,
}

/// The node's `span`, by `Marker::line` and `Marker::col` of its ends (not
/// stated here: Verus sees nothing inside a parsed node).
#[verifier::external_body]
fn node_span(n: &saphyr::MarkedYaml) -> (r: Span) {
    Span { line: n.span.start.line(), col: n.span.start.col(), end_line: n.span.end.line(), end_col: n.span.end.col() }
}

/// Which variant of `YamlData` the node holds: a string or boolean value, a
/// sequence, a mapping, or something else (not stated here).
#[verifier::external_body]
fn node_kind(n: &saphyr::MarkedYaml) -> (r: NodeKind) {
    match &n.data {
        saphyr::YamlData::Value(saphyr::Scalar::String(s)) => NodeKind::Str(s.to_string()),
        saphyr::YamlData::Value(saphyr::Scalar::Boolean(b)) => NodeKind::Bool(*b),
        saphyr::YamlData::Sequence(_) => NodeKind::List,
        saphyr::YamlData::Mapping(_) => NodeKind::Mapping,
        _ => NodeKind::Other,
    }
}

/// The items of a sequence node, in order (`YamlData::as_sequence`); none for
/// another node (not stated here).
#[verifier::external_body]
fn node_items<'a>(n: &'a saphyr::MarkedYaml<'a>) -> (r: Vec<&'a saphyr::MarkedYaml<'a>>) {
    match n.data.as_sequence() {
        Some(items) => items.iter().collect(),
        None => Vec::new(),
    }
}

/// The entries of a mapping node in document order, each key as its string
/// when it is one (`YamlData::as_mapping`, `YamlData::as_str`); none for
/// another node (not stated here).
#[verifier::external_body]
fn node_entries<'a>(n: &'a saphyr::MarkedYaml<'a>) -> (r: Vec<(Option<String>, &'a saphyr::MarkedYaml<'a>)>) {
    match n.data.as_mapping() {
        Some(m) => m.iter().map(|(k, v)| (k.data.as_str().map(|s| s.to_owned()), v)).collect(),
        None => Vec::new(),
    }
}

/// Copies a parsed node into a `YamlNode`, down to `depth` levels (deeper
/// nodes count as `Other`; a document nests no deeper than its length).
fn to_tree<'a>(n: &'a saphyr::MarkedYaml<'a>, depth: usize) -> (r: YamlNode)
    ensures
        depth == 0 ==> r.value is Other,
    decreases depth,
{
    let span = node_span(n);
    if depth == 0 {
        return YamlNode { value: YamlValue::Other, span };
    }
    let value = match node_kind(n) {
        NodeKind::Str(s) => YamlValue::Str(s),
        NodeKind::Bool(b) => YamlValue::Bool(b),
        NodeKind::List => {
            let items = node_items(n);
            let mut v: Vec<YamlNode> = Vec::new();
            let mut i: usize = 0;
            while i < items.len()
                invariant
                    i <= items@.len(),
                    depth > 0,
                decreases items@.len() - i,
            {
                v.push(to_tree(items[i], depth - 1));
                i = i + 1;
            }
            YamlValue::List(v)
        },
        NodeKind::Mapping => {
            let entries = node_entries(n);
            let mut v: Vec<(Option<String>, YamlNode)> = Vec::new();
            let mut i: usize = 0;
            while i < entries.len()
                invariant
                    i <= entries@.len(),
                    depth > 0,
                decreases entries@.len() - i,
            {
                let key = entries[i].0.clone();
                v.push((key, to_tree(entries[i].1, depth - 1)));
                i = i + 1;
            }
            YamlValue::Mapping(v)
        },
        NodeKind::Other => YamlValue::Other,
    };
    YamlNode { value, span }
}

/// What reading a workflow's text gives: the first document, none for an
/// empty text, or the parse error's line, column and message.
pub enum Loaded {
    Document(YamlNode),
    Empty,
    ParseError(usize, usize, String),
}

/// What `saphyr` reads from a workflow's text, as `parse_first_document`
/// hands it over. The parse depends on the text alone; what it makes of a
/// given text is not stated.
pub uninterp spec fn first_document(raw: Seq<char>) -> Loaded;

/// `MarkedYaml::load_from_str` on `raw`: a scan error as its
/// `ScanError::marker` line and column and its `ScanError::info`; no document
/// as `Empty`; else the first document, copied by `to_tree` no deeper than the
/// text is long. The result is named `first_document`.
#[verifier::external_body]
fn parse_first_document(raw: &str) -> (r: Loaded)
    ensures
        r == first_document(raw@),
{
    match <saphyr::MarkedYaml as saphyr::LoadableYamlNode>::load_from_str(raw) {
        Err(e) => Loaded::ParseError(e.marker().line(), e.marker().col(), e.info().to_owned()),
        Ok(docs) => match docs.first() {
            None => Loaded::Empty,
            Some(d) => Loaded::Document(to_tree(d, raw.len())),
        },
    }
}

/// Parses `raw` with `saphyr` and copies its first document.
pub fn load_first_document(raw: &str) -> (r: Loaded)
    ensures
        r == first_document(raw@),
{
    parse_first_document(raw)
}

} // verus!
