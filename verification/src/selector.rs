//! CSS-like selector paths for navigating UI element trees.
//!
//! ```text
//! [Combinator] Step [Combinator Step]*
//!
//! Step        ::= Predicate+ [":nth(" n ")"] [":parent" | ":ancestor(" n ")"]
//!               | "*" [":nth(" n ")"]
//! Predicate   ::= "[" attr Op value ("|" value)* "]"   (or a bare role first)
//! attr        ::= "role" | "name" | "title" | "id" | "automation_id" | "url"
//! Op          ::= "=" | "~=" | "^=" | "$="
//! Combinator  ::= ">" (immediate child) | ">>" (any descendant)
//! ```
//!
//! Without a leading combinator the first step is matched against the scope
//! root itself; with a leading `>` or `>>` the search starts inside it.
//! `~=`, `^=` and `$=` compare ASCII-case-insensitively; `=` is exact.
//! Walking a live element tree with a path is in `search`.
use vstd::prelude::*;

use crate::error::AutomataError;
use crate::text::{
    append, chars_of, concat, parse_uint, to_ascii_lower, contains, starts_with, decimal_string, eq_chars, ends_with, find_char, find_pair, rfind_char, slice_of,
    string_of, trim, trim_end, trim_quotes, char_at, contains_seq, decimal, ends_with_seq, find_pair_seq, find_seq, first_idx,
    lemma_first_idx_props, lemma_last_idx_props, lemma_last_idx, last_idx, char_is_whitespace, lower_seq, nonws_at, pair_at,
    parse_usize_spec, rfind_seq, starts_with_seq, trim_end_seq, trim_quotes_seq, trim_seq,
};

verus! {

// ── Types ─────────────────────────────────────────────────────────────────────

/// How a step finds its candidates relative to the previous step's result.
#[derive(Debug, Clone, Copy, PartialEq, Eq, Structural)]
pub enum Combinator {
    /// The first step without a combinator: the origin element itself.
    Root,
    /// `>` — immediate children only.
    Child,
    /// `>>` — any descendant (depth-first).
    Descendant,
}

#[derive(Debug, Clone, Copy, PartialEq, Eq, Structural)]
pub enum Attr {
    Role,
    Name,
    /// Alias for `Name` on window elements.
    Title,
    AutomationId,
    /// Tab anchor matching only; empty on UI elements.
    Url,
}

#[derive(Debug, Clone, Copy, PartialEq, Eq, Structural)]
pub enum Op {
    /// `=`
    Exact,
    /// `~=`
    Contains,
    /// `^=`
    StartsWith,
    /// `$=`
    EndsWith,
}

/// One `[attr op value|value...]` test. It passes when any value matches.
#[derive(Debug, Clone, PartialEq, Eq)]
pub struct Predicate {
    pub attr: Attr,
    pub op: Op,
    pub values: Vec<String>,
}

/// One step of a path: a combinator, predicates that must all hold, an
/// optional `:nth(n)` (0-indexed among matches) and an ascension count
/// (`:parent` = 1, `:ancestor(n)` = n).
#[derive(Debug, Clone, PartialEq, Eq)]
pub struct PathStep {
    pub combinator: Combinator,
    pub predicates: Vec<Predicate>,
    pub nth: Option<usize>,
    pub ascend: usize,
}

#[derive(Debug, Clone, PartialEq, Eq)]
pub struct SelectorPath {
    steps: Vec<PathStep>,
}

// ── Mathematical model ────────────────────────────────────────────────────────

pub struct PredicateView {
    pub attr: Attr,
    pub op: Op,
    pub values: Seq<Seq<char>>,
}

pub struct StepView {
    pub combinator: Combinator,
    pub predicates: Seq<PredicateView>,
    pub nth: Option<usize>,
    pub ascend: usize,
}

pub open spec fn strings_view(v: Seq<String>) -> Seq<Seq<char>> {
    v.map_values(|s: String| s@)
}

impl View for Predicate {
    type V = PredicateView;

    open spec fn view(&self) -> PredicateView {
        PredicateView { attr: self.attr, op: self.op, values: strings_view(self.values@) }
    }
}

pub open spec fn predicates_view(v: Seq<Predicate>) -> Seq<PredicateView> {
    v.map_values(|p: Predicate| p@)
}

impl View for PathStep {
    type V = StepView;

    open spec fn view(&self) -> StepView {
        StepView {
            combinator: self.combinator,
            predicates: predicates_view(self.predicates@),
            nth: self.nth,
            ascend: self.ascend,
        }
    }
}

pub open spec fn steps_view(v: Seq<PathStep>) -> Seq<StepView> {
    v.map_values(|s: PathStep| s@)
}

impl View for SelectorPath {
    type V = Seq<StepView>;

    closed spec fn view(&self) -> Seq<StepView> {
        steps_view(self.steps@)
    }
}

// ── Literals ──────────────────────────────────────────────────────────────────

pub open spec fn star_lit() -> Seq<char> {
    seq!['*']
}

pub open spec fn parent_lit() -> Seq<char> {
    seq![':', 'p', 'a', 'r', 'e', 'n', 't']
}

pub open spec fn ancestor_lit() -> Seq<char> {
    seq![':', 'a', 'n', 'c', 'e', 's', 't', 'o', 'r']
}

pub open spec fn nth_lit() -> Seq<char> {
    seq![':', 'n', 't', 'h']
}

pub open spec fn role_lit() -> Seq<char> {
    seq!['r', 'o', 'l', 'e']
}

pub open spec fn name_lit() -> Seq<char> {
    seq!['n', 'a', 'm', 'e']
}

pub open spec fn title_lit() -> Seq<char> {
    seq!['t', 'i', 't', 'l', 'e']
}

pub open spec fn id_lit() -> Seq<char> {
    seq!['i', 'd']
}

pub open spec fn automation_id_lit() -> Seq<char> {
    seq!['a', 'u', 't', 'o', 'm', 'a', 't', 'i', 'o', 'n', '_', 'i', 'd']
}

pub open spec fn url_lit() -> Seq<char> {
    seq!['u', 'r', 'l']
}

// ── Parsing: specification ───────────────────────────────────────────────────

/// The steps of the selector `*`.
pub open spec fn wildcard_steps() -> Seq<StepView> {
    seq![StepView { combinator: Combinator::Root, predicates: Seq::empty(), nth: None, ascend: 0 }]
}

pub open spec fn default_combinator(segs_empty: bool) -> Combinator {
    if segs_empty {
        Combinator::Root
    } else {
        Combinator::Child
    }
}

pub open spec fn combinator_for(pending: Option<Combinator>, segs_empty: bool) -> Combinator {
    match pending {
        Some(c) => c,
        None => default_combinator(segs_empty),
    }
}

/// State of the left-to-right scan that cuts a selector at top-level `>` / `>>`.
pub struct SplitState {
    pub segs: Seq<(Combinator, Seq<char>)>,
    pub depth: nat,
    pub seg_start: int,
    pub pending: Option<Combinator>,
    /// The previous character began a `>>`; this one is its second half.
    pub skip: bool,
}

pub open spec fn split_init() -> SplitState {
    SplitState { segs: Seq::empty(), depth: 0, seg_start: 0, pending: None, skip: false }
}

pub open spec fn split_step(st: SplitState, s: Seq<char>, i: int) -> SplitState {
    if st.skip {
        SplitState {
            segs: st.segs,
            depth: st.depth,
            seg_start: st.seg_start,
            pending: st.pending,
            skip: false,
        }
    } else if s[i] == '[' {
        SplitState {
            segs: st.segs,
            depth: st.depth + 1,
            seg_start: st.seg_start,
            pending: st.pending,
            skip: false,
        }
    } else if s[i] == ']' {
        SplitState {
            segs: st.segs,
            depth: if st.depth > 0 {
                (st.depth - 1) as nat
            } else {
                0
            },
            seg_start: st.seg_start,
            pending: st.pending,
            skip: false,
        }
    } else if s[i] == '>' && st.depth == 0 {
        let seg = trim_seq(s.subrange(st.seg_start, i));
        let segs = if seg.len() > 0 {
            st.segs.push((combinator_for(st.pending, st.segs.len() == 0), seg))
        } else {
            st.segs
        };
        let desc = i + 1 < s.len() && s[i + 1] == '>';
        SplitState {
            segs: segs,
            depth: 0,
            seg_start: if desc {
                i + 2
            } else {
                i + 1
            },
            pending: Some(
                if desc {
                    Combinator::Descendant
                } else {
                    Combinator::Child
                },
            ),
            skip: desc,
        }
    } else {
        st
    }
}

/// The scan state after the first `n` characters.
pub open spec fn split_scan(s: Seq<char>, n: int) -> SplitState
    decreases n,
{
    if n <= 0 {
        split_init()
    } else {
        split_step(split_scan(s, n - 1), s, n - 1)
    }
}

/// The `(combinator, segment)` pairs of a selector, or why there are none.
pub open spec fn spec_split_segments(s: Seq<char>) -> Result<
    Seq<(Combinator, Seq<char>)>,
    Seq<char>,
> {
    let st = split_scan(s, s.len() as int);
    let tail = trim_seq(s.subrange(st.seg_start, s.len() as int));
    let segs = if tail.len() > 0 {
        st.segs.push((combinator_for(st.pending, st.segs.len() == 0), tail))
    } else {
        st.segs
    };
    if st.depth != 0 {
        Err("unclosed '[' in selector"@)
    } else if segs.len() == 0 {
        Err("selector produced no segments"@)
    } else {
        Ok(segs)
    }
}

/// Pseudo-class suffixes stripped from the right: `(rest, nth, ascend)`.
pub open spec fn spec_pseudos(s: Seq<char>, seg: Seq<char>, nth: Option<usize>, ascend: usize) -> Result<
    (Seq<char>, Option<usize>, usize),
    Seq<char>,
>
    decreases s.len(),
{
    let t = trim_end_seq(s);
    if ends_with_seq(t, parent_lit()) {
        proof {
            lemma_trim_end_len(s);
        }
        spec_pseudos(t.take(t.len() - 7), seg, nth, 1)
    } else if t.len() > 0 && t.last() == ')' && rfind_seq(t, '(') is Some {
        let open = rfind_seq(t, '(').unwrap();
        let before = t.take(open);
        let inner = t.subrange(open + 1, t.len() - 1);
        proof {
            lemma_trim_end_len(s);
            lemma_rfind_bounds(t, '(');
        }
        if ends_with_seq(before, ancestor_lit()) {
            match parse_usize_spec(trim_seq(inner)) {
                None => Err("invalid :ancestor index in '"@ + seg + "'"@),
                Some(n) => spec_pseudos(before.take(before.len() - 9), seg, nth, n as usize),
            }
        } else if ends_with_seq(before, nth_lit()) {
            match parse_usize_spec(trim_seq(inner)) {
                None => Err("invalid :nth index in '"@ + seg + "'"@),
                Some(n) => spec_pseudos(before.take(before.len() - 4), seg, Some(n as usize), ascend),
            }
        } else {
            Ok((s, nth, ascend))
        }
    } else {
        Ok((s, nth, ascend))
    }
}

pub open spec fn split_bare_role_seq(s: Seq<char>) -> (Seq<char>, Seq<char>) {
    match find_seq(s, '[') {
        Some(p) => (s.take(p), s.skip(p)),
        None => (s, Seq::empty()),
    }
}

/// `str::split` on a character: the pieces between separators, empty ones included.
pub open spec fn split_seq(s: Seq<char>, c: char) -> Seq<Seq<char>>
    decreases s.len(),
{
    match find_seq(s, c) {
        None => seq![s],
        Some(i) => {
            proof {
                lemma_find_bounds(s, c);
            }
            seq![s.take(i)] + split_seq(s.skip(i + 1), c)
        },
    }
}

pub open spec fn attr_of(s: Seq<char>) -> Option<Attr> {
    if s == role_lit() {
        Some(Attr::Role)
    } else if s == name_lit() {
        Some(Attr::Name)
    } else if s == title_lit() {
        Some(Attr::Title)
    } else if s == id_lit() || s == automation_id_lit() {
        Some(Attr::AutomationId)
    } else if s == url_lit() {
        Some(Attr::Url)
    } else {
        None
    }
}

/// Where the operator sits in a predicate body: `(position, op, width)`.
/// `~=`, `^=`, `$=` are looked for first, in that order, then a plain `=`.
pub open spec fn operator_of(t: Seq<char>) -> Option<(int, Op, int)> {
    if find_pair_seq(t, '~', '=') is Some {
        Some((find_pair_seq(t, '~', '=').unwrap(), Op::Contains, 2))
    } else if find_pair_seq(t, '^', '=') is Some {
        Some((find_pair_seq(t, '^', '=').unwrap(), Op::StartsWith, 2))
    } else if find_pair_seq(t, '$', '=') is Some {
        Some((find_pair_seq(t, '$', '=').unwrap(), Op::EndsWith, 2))
    } else if find_seq(t, '=') is Some {
        Some((find_seq(t, '=').unwrap(), Op::Exact, 1))
    } else {
        None
    }
}

pub open spec fn clean_value(v: Seq<char>) -> Seq<char> {
    trim_quotes_seq(trim_seq(v))
}

/// The contents of one `[...]`.
pub open spec fn spec_parse_predicate(inner: Seq<char>) -> Result<PredicateView, Seq<char>> {
    let t = trim_seq(inner);
    match operator_of(t) {
        None => Err("no operator found in predicate: '"@ + t + "'"@),
        Some((pos, op, w)) => {
            let attr_s = trim_seq(t.take(pos));
            let value = trim_seq(t.skip(pos + w));
            match attr_of(attr_s) {
                None => Err("unknown attribute '"@ + attr_s + "' in selector"@),
                Some(a) => Ok(
                    PredicateView {
                        attr: a,
                        op: op,
                        values: split_seq(value, '|').map_values(|v: Seq<char>| clean_value(v)),
                    },
                ),
            }
        },
    }
}

/// Consecutive `[...]` groups at the start of `r`; text after them is ignored.
pub open spec fn spec_brackets(r: Seq<char>, seg: Seq<char>) -> Result<Seq<PredicateView>, Seq<char>>
    decreases r.len(),
{
    if r.len() > 0 && r[0] == '[' {
        match find_seq(r, ']') {
            None => Err("unclosed '[' in selector segment: "@ + seg),
            Some(close) => {
                proof {
                    lemma_find_bounds(r, ']');
                    lemma_trim_len(r.skip(close + 1));
                }
                match spec_parse_predicate(r.subrange(1, close)) {
                    Err(e) => Err(e),
                    Ok(p) => match spec_brackets(trim_seq(r.skip(close + 1)), seg) {
                        Err(e) => Err(e),
                        Ok(ps) => Ok(seq![p] + ps),
                    },
                }
            },
        }
    } else {
        Ok(Seq::empty())
    }
}

/// One segment of a selector, parsed into a step.
pub open spec fn spec_parse_step(comb: Combinator, seg: Seq<char>) -> Result<StepView, Seq<char>> {
    let seg1 = trim_seq(seg);
    match spec_pseudos(seg1, seg1, None, 0) {
        Err(e) => Err(e),
        Ok((s, nth, ascend)) => if s == star_lit() {
            Ok(StepView { combinator: comb, predicates: Seq::empty(), nth: nth, ascend: ascend })
        } else {
            let bare = split_bare_role_seq(s).0;
            let rest = split_bare_role_seq(s).1;
            let first = if bare.len() > 0 {
                seq![PredicateView { attr: Attr::Role, op: Op::Exact, values: seq![bare] }]
            } else {
                Seq::empty()
            };
            match spec_brackets(trim_seq(rest), s) {
                Err(e) => Err(e),
                Ok(ps) => if first.len() + ps.len() == 0 {
                    Err("selector step has no predicates: '"@ + s + "'"@)
                } else {
                    Ok(
                        StepView {
                            combinator: comb,
                            predicates: first + ps,
                            nth: nth,
                            ascend: ascend,
                        },
                    )
                },
            }
        },
    }
}

/// The steps of the first `n` segments, or the first error among them.
pub open spec fn spec_parse_steps(segs: Seq<(Combinator, Seq<char>)>, n: int) -> Result<
    Seq<StepView>,
    Seq<char>,
>
    decreases n,
{
    if n <= 0 {
        Ok(Seq::empty())
    } else {
        match spec_parse_steps(segs, n - 1) {
            Err(e) => Err(e),
            Ok(v) => match spec_parse_step(segs[n - 1].0, segs[n - 1].1) {
                Err(e) => Err(e),
                Ok(st) => Ok(v.push(st)),
            },
        }
    }
}

/// What `SelectorPath::parse` gives for `input`: the steps, or the error message.
pub open spec fn spec_parse(input: Seq<char>) -> Result<Seq<StepView>, Seq<char>> {
    let t = trim_seq(input);
    if t.len() == 0 {
        Err("empty selector"@)
    } else {
        match spec_split_segments(t) {
            Err(e) => Err(e),
            Ok(segs) => spec_parse_steps(segs, segs.len() as int),
        }
    }
}


// ── Parsing: implementation ──────────────────────────────────────────────────

/// `e` is the internal error whose message is `msg`.
pub open spec fn is_internal(e: AutomataError, msg: Seq<char>) -> bool {
    e matches AutomataError::Internal(m) && m@ == msg
}

pub open spec fn segs_view(v: Seq<(Combinator, Vec<char>)>) -> Seq<(Combinator, Seq<char>)> {
    v.map_values(|p: (Combinator, Vec<char>)| (p.0, p.1@))
}

/// An internal error whose message is `a`, then `b`, then `c`.
fn internal_error3(a: &str, b: &Vec<char>, c: &str) -> (e: AutomataError)
    ensures
        is_internal(e, a@ + b@ + c@),
{
    let m1 = concat(&chars_of(a), b);
    let m = concat(&m1, &chars_of(c));
    AutomataError::Internal(string_of(&m))
}

fn internal_error2(a: &str, b: &Vec<char>) -> (e: AutomataError)
    ensures
        is_internal(e, a@ + b@),
{
    AutomataError::Internal(string_of(&concat(&chars_of(a), b)))
}

fn internal_error(a: &str) -> (e: AutomataError)
    ensures
        is_internal(e, a@),
{
    AutomataError::Internal(a.to_owned())
}

fn split_segments(s: &Vec<char>) -> (r: Result<Vec<(Combinator, Vec<char>)>, AutomataError>)
    ensures
        match (r, spec_split_segments(s@)) {
            (Ok(v), Ok(w)) => segs_view(v@) == w,
            (Err(e), Err(w)) => is_internal(e, w),
            _ => false,
        },
{
    let mut segs: Vec<(Combinator, Vec<char>)> = Vec::new();
    let mut depth: usize = 0;
    let mut seg_start: usize = 0;
    let mut pending: Option<Combinator> = None;
    let mut skip = false;
    let mut i: usize = 0;
    assert(segs_view(segs@) =~= Seq::<(Combinator, Seq<char>)>::empty());
    while i < s.len()
        invariant
            i <= s.len(),
            depth <= i,
            split_scan(s@, i as int) == (SplitState {
                segs: segs_view(segs@),
                depth: depth as nat,
                seg_start: seg_start as int,
                pending: pending,
                skip: skip,
            }),
        decreases s.len() - i,
    {
        proof {
            lemma_split_scan_bounds(s@, i as int);
        }
        let ghost st = split_scan(s@, i as int);
        let c = s[i];
        if skip {
            skip = false;
        } else if c == '[' {
            depth = depth + 1;
        } else if c == ']' {
            if depth > 0 {
                depth = depth - 1;
            }
        } else if c == '>' && depth == 0 {
            let raw = slice_of(s, seg_start, i);
            let seg = trim(&raw);
            if seg.len() > 0 {
                let comb = match pending {
                    Some(p) => p,
                    None => if segs.len() == 0 {
                        Combinator::Root
                    } else {
                        Combinator::Child
                    },
                };
                let ghost before = segs@;
                segs.push((comb, seg));
                proof {
                    assert(segs_view(segs@) =~= segs_view(before).push((comb, seg@)));
                }
            }
            let desc = i + 1 < s.len() && s[i + 1] == '>';
            seg_start = if desc {
                i + 2
            } else {
                i + 1
            };
            pending = Some(
                if desc {
                    Combinator::Descendant
                } else {
                    Combinator::Child
                },
            );
            skip = desc;
        }
        i = i + 1;
        proof {
            assert(split_scan(s@, i as int) == split_step(st, s@, i - 1));
        }
    }
    proof {
        lemma_split_scan_bounds(s@, s@.len() as int);
    }
    let raw_tail = slice_of(s, seg_start, s.len());
    let tail = trim(&raw_tail);
    if tail.len() > 0 {
        let comb = match pending {
            Some(p) => p,
            None => if segs.len() == 0 {
                Combinator::Root
            } else {
                Combinator::Child
            },
        };
        let ghost before = segs@;
        segs.push((comb, tail));
        proof {
            assert(segs_view(segs@) =~= segs_view(before).push((comb, tail@)));
        }
    }
    if depth != 0 {
        return Err(internal_error("unclosed '[' in selector"));
    }
    if segs.len() == 0 {
        return Err(internal_error("selector produced no segments"));
    }
    Ok(segs)
}

fn lit_vec(l: &str) -> (r: Vec<char>)
    ensures
        r@ == l@,
{
    chars_of(l)
}

/// Parses the decimal index of `:nth(..)` / `:ancestor(..)`.
fn parse_index(s: &Vec<char>) -> (r: Option<usize>)
    ensures
        r matches Some(v) ==> parse_usize_spec(s@) == Some(v as nat),
        r is None ==> parse_usize_spec(s@) is None,
{
    match parse_uint(s, usize::MAX as u64) {
        Some(v) => Some(v as usize),
        None => None,
    }
}

fn extract_pseudos(seg: &Vec<char>) -> (r: Result<(Vec<char>, Option<usize>, usize), AutomataError>)
    ensures
        match (r, spec_pseudos(seg@, seg@, None, 0)) {
            (Ok((s, n, a)), Ok((s2, n2, a2))) => s@ == s2 && n == n2 && a == a2,
            (Err(e), Err(w)) => is_internal(e, w),
            _ => false,
        },
{
    let parent: Vec<char> = vec![':', 'p', 'a', 'r', 'e', 'n', 't'];
    let ancestor: Vec<char> = vec![':', 'a', 'n', 'c', 'e', 's', 't', 'o', 'r'];
    let nth_s: Vec<char> = vec![':', 'n', 't', 'h'];
    assert(parent@ =~= parent_lit());
    assert(ancestor@ =~= ancestor_lit());
    assert(nth_s@ =~= nth_lit());
    let mut cur = slice_of(seg, 0, seg.len());
    assert(cur@ =~= seg@);
    let mut nth: Option<usize> = None;
    let mut ascend: usize = 0;
    loop
        invariant
            parent@ == parent_lit(),
            ancestor@ == ancestor_lit(),
            nth_s@ == nth_lit(),
            spec_pseudos(cur@, seg@, nth, ascend) == spec_pseudos(seg@, seg@, None, 0),
        ensures
            spec_pseudos(seg@, seg@, None, 0) == Ok::<(Seq<char>, Option<usize>, usize), Seq<char>>(
                (cur@, nth, ascend),
            ),
        decreases cur@.len(),
    {
        let t = trim_end(&cur);
        proof {
            lemma_trim_end_len(cur@);
        }
        if ends_with(&t, &parent) {
            cur = slice_of(&t, 0, t.len() - 7);
            ascend = 1;
            continue ;
        }
        if t.len() > 0 && t[t.len() - 1] == ')' {
            if let Some(open) = rfind_char(&t, '(') {
                proof {
                    lemma_rfind_bounds(t@, '(');
                }
                let before = slice_of(&t, 0, open);
                let inner = slice_of(&t, open + 1, t.len() - 1);
                if ends_with(&before, &ancestor) {
                    match parse_index(&trim(&inner)) {
                        None => {
                            return Err(
                                internal_error3("invalid :ancestor index in '", seg, "'"),
                            );
                        },
                        Some(n) => {
                            cur = slice_of(&before, 0, before.len() - 9);
                            ascend = n;
                            continue ;
                        },
                    }
                }
                if ends_with(&before, &nth_s) {
                    match parse_index(&trim(&inner)) {
                        None => {
                            return Err(internal_error3("invalid :nth index in '", seg, "'"));
                        },
                        Some(n) => {
                            cur = slice_of(&before, 0, before.len() - 4);
                            nth = Some(n);
                            continue ;
                        },
                    }
                }
            }
        }
        proof {
            assert(!ends_with_seq(t@, parent_lit()));
            assert(spec_pseudos(cur@, seg@, nth, ascend) == Ok::<
                (Seq<char>, Option<usize>, usize),
                Seq<char>,
            >((cur@, nth, ascend)));
        }
        break ;
    }
    Ok((cur, nth, ascend))
}

fn split_bare_role(s: &Vec<char>) -> (r: (Vec<char>, Vec<char>))
    ensures
        r.0@ == split_bare_role_seq(s@).0,
        r.1@ == split_bare_role_seq(s@).1,
{
    proof {
        lemma_find_bounds(s@, '[');
    }
    match find_char(s, '[') {
        Some(pos) => (slice_of(s, 0, pos), slice_of(s, pos, s.len())),
        None => (slice_of(s, 0, s.len()), Vec::new()),
    }
}

fn attr_from(s: &Vec<char>) -> (r: Option<Attr>)
    ensures
        r == attr_of(s@),
{
    let role: Vec<char> = vec!['r', 'o', 'l', 'e'];
    let name: Vec<char> = vec!['n', 'a', 'm', 'e'];
    let title: Vec<char> = vec!['t', 'i', 't', 'l', 'e'];
    let id: Vec<char> = vec!['i', 'd'];
    let aid: Vec<char> = vec!['a', 'u', 't', 'o', 'm', 'a', 't', 'i', 'o', 'n', '_', 'i', 'd'];
    let url: Vec<char> = vec!['u', 'r', 'l'];
    assert(role@ =~= role_lit());
    assert(name@ =~= name_lit());
    assert(title@ =~= title_lit());
    assert(id@ =~= id_lit());
    assert(aid@ =~= automation_id_lit());
    assert(url@ =~= url_lit());
    if eq_chars(s, &role) {
        Some(Attr::Role)
    } else if eq_chars(s, &name) {
        Some(Attr::Name)
    } else if eq_chars(s, &title) {
        Some(Attr::Title)
    } else if eq_chars(s, &id) || eq_chars(s, &aid) {
        Some(Attr::AutomationId)
    } else if eq_chars(s, &url) {
        Some(Attr::Url)
    } else {
        None
    }
}

fn clean_value_exec(v: &Vec<char>) -> (r: Vec<char>)
    ensures
        r@ == clean_value(v@),
{
    trim_quotes(&trim(v))
}

/// The alternatives of a predicate value, split on `|` and cleaned.
fn split_values(value: &Vec<char>) -> (r: Vec<String>)
    ensures
        strings_view(r@) == split_seq(value@, '|').map_values(|v: Seq<char>| clean_value(v)),
{
    let mut rest = slice_of(value, 0, value.len());
    assert(rest@ =~= value@);
    let mut vals: Vec<String> = Vec::new();
    loop
        invariant
            split_seq(value@, '|').map_values(|v: Seq<char>| clean_value(v)) == strings_view(vals@)
                + split_seq(rest@, '|').map_values(|v: Seq<char>| clean_value(v)),
        decreases rest@.len(),
    {
        proof {
            lemma_find_bounds(rest@, '|');
        }
        match find_char(&rest, '|') {
            None => {
                let piece = string_of(&clean_value_exec(&rest));
                let ghost before = vals@;
                vals.push(piece);
                proof {
                    assert(split_seq(rest@, '|') == seq![rest@]);
                    assert(seq![rest@].map_values(|v: Seq<char>| clean_value(v)) =~= seq![
                        clean_value(rest@),
                    ]);
                    assert(strings_view(vals@) =~= strings_view(before) + seq![
                        clean_value(rest@),
                    ]);
                }
                return vals;
            },
            Some(i) => {
                assert(i < rest.len());
                let head = slice_of(&rest, 0, i);
                let piece = string_of(&clean_value_exec(&head));
                let tail = slice_of(&rest, i + 1, rest.len());
                let ghost before = vals@;
                let ghost old_rest = rest@;
                vals.push(piece);
                proof {
                    assert(split_seq(old_rest, '|') == seq![old_rest.take(i as int)] + split_seq(
                        old_rest.skip(i + 1),
                        '|',
                    ));
                    assert(tail@ =~= old_rest.skip(i + 1));
                    assert(head@ =~= old_rest.take(i as int));
                    assert((seq![head@] + split_seq(tail@, '|')).map_values(
                        |v: Seq<char>| clean_value(v),
                    ) =~= seq![clean_value(head@)] + split_seq(tail@, '|').map_values(
                        |v: Seq<char>| clean_value(v),
                    ));
                    assert(strings_view(vals@) =~= strings_view(before) + seq![
                        clean_value(head@),
                    ]);
                }
                rest = tail;
            },
        }
    }
}

fn parse_predicate(inner: &Vec<char>) -> (r: Result<Predicate, AutomataError>)
    ensures
        match (r, spec_parse_predicate(inner@)) {
            (Ok(p), Ok(w)) => p@ == w,
            (Err(e), Err(w)) => is_internal(e, w),
            _ => false,
        },
{
    let t = trim(inner);
    proof {
        lemma_find_pair_bounds(t@, '~', '=');
        lemma_find_pair_bounds(t@, '^', '=');
        lemma_find_pair_bounds(t@, '$', '=');
        lemma_find_bounds(t@, '=');
    }
    let (pos, op, w): (usize, Op, usize) = if let Some(p) = find_pair(&t, '~', '=') {
        (p, Op::Contains, 2)
    } else if let Some(p) = find_pair(&t, '^', '=') {
        (p, Op::StartsWith, 2)
    } else if let Some(p) = find_pair(&t, '$', '=') {
        (p, Op::EndsWith, 2)
    } else if let Some(p) = find_char(&t, '=') {
        (p, Op::Exact, 1)
    } else {
        return Err(internal_error3("no operator found in predicate: '", &t, "'"));
    };
    let attr_s = trim(&slice_of(&t, 0, pos));
    let value = trim(&slice_of(&t, pos + w, t.len()));
    match attr_from(&attr_s) {
        None => Err(internal_error3("unknown attribute '", &attr_s, "' in selector")),
        Some(a) => {
            let values = split_values(&value);
            Ok(Predicate { attr: a, op: op, values: values })
        },
    }
}

fn parse_brackets(r0: &Vec<char>, seg: &Vec<char>) -> (r: Result<Vec<Predicate>, AutomataError>)
    ensures
        match (r, spec_brackets(r0@, seg@)) {
            (Ok(v), Ok(w)) => predicates_view(v@) == w,
            (Err(e), Err(w)) => is_internal(e, w),
            _ => false,
        },
{
    let mut cur = slice_of(r0, 0, r0.len());
    assert(cur@ =~= r0@);
    let mut acc: Vec<Predicate> = Vec::new();
    loop
        invariant
            spec_brackets(r0@, seg@) == (match spec_brackets(cur@, seg@) {
                Ok(ps) => Ok(predicates_view(acc@) + ps),
                Err(e) => Err(e),
            }),
        decreases cur@.len(),
    {
        if !(cur.len() > 0 && cur[0] == '[') {
            assert(predicates_view(acc@) + Seq::<PredicateView>::empty() =~= predicates_view(
                acc@,
            ));
            return Ok(acc);
        }
        proof {
            lemma_find_bounds(cur@, ']');
        }
        let close = match find_char(&cur, ']') {
            None => {
                return Err(internal_error2("unclosed '[' in selector segment: ", seg));
            },
            Some(c) => c,
        };
        let inner = slice_of(&cur, 1, close);
        let p = match parse_predicate(&inner) {
            Err(e) => {
                return Err(e);
            },
            Ok(p) => p,
        };
        let next = trim(&slice_of(&cur, close + 1, cur.len()));
        proof {
            lemma_trim_len(cur@.skip(close + 1));
            assert(slice_of_spec_eq(cur@, close as int));
        }
        let ghost before = acc@;
        acc.push(p);
        proof {
            assert(predicates_view(acc@) =~= predicates_view(before).push(p@));
            match spec_brackets(next@, seg@) {
                Ok(ps) => {
                    assert(predicates_view(before) + (seq![p@] + ps) =~= predicates_view(acc@)
                        + ps);
                },
                Err(_) => {},
            }
        }
        cur = next;
    }
}

/// `s.subrange(c + 1, len) == s.skip(c + 1)`, for the bracket loop.
pub open spec fn slice_of_spec_eq(s: Seq<char>, c: int) -> bool {
    0 <= c < s.len() ==> s.subrange(c + 1, s.len() as int) == s.skip(c + 1)
}

fn parse_step(comb: Combinator, seg0: &Vec<char>) -> (r: Result<PathStep, AutomataError>)
    ensures
        match (r, spec_parse_step(comb, seg0@)) {
            (Ok(st), Ok(w)) => st@ == w,
            (Err(e), Err(w)) => is_internal(e, w),
            _ => false,
        },
{
    let seg1 = trim(seg0);
    let (seg, nth, ascend) = match extract_pseudos(&seg1) {
        Err(e) => {
            return Err(e);
        },
        Ok(x) => x,
    };
    let star: Vec<char> = vec!['*'];
    assert(star@ =~= star_lit());
    if eq_chars(&seg, &star) {
        let st = PathStep { combinator: comb, predicates: Vec::new(), nth: nth, ascend: ascend };
        assert(predicates_view(st.predicates@) =~= Seq::<PredicateView>::empty());
        return Ok(st);
    }
    let (bare_role, rest) = split_bare_role(&seg);
    let mut predicates: Vec<Predicate> = Vec::new();
    if bare_role.len() > 0 {
        let mut vals: Vec<String> = Vec::new();
        vals.push(string_of(&bare_role));
        predicates.push(Predicate { attr: Attr::Role, op: Op::Exact, values: vals });
        proof {
            assert(strings_view(vals@) =~= seq![bare_role@]);
        }
    }
    let ghost first = predicates_view(predicates@);
    proof {
        if bare_role.len() > 0 {
            assert(first =~= seq![
                PredicateView { attr: Attr::Role, op: Op::Exact, values: seq![bare_role@] },
            ]);
        } else {
            assert(first =~= Seq::<PredicateView>::empty());
        }
    }
    let mut ps = match parse_brackets(&trim(&rest), &seg) {
        Err(e) => {
            return Err(e);
        },
        Ok(ps) => ps,
    };
    let ghost psv = predicates_view(ps@);
    let ghost before = predicates@;
    predicates.append(&mut ps);
    proof {
        assert(predicates_view(predicates@) =~= first + psv);
    }
    if predicates.len() == 0 {
        return Err(internal_error3("selector step has no predicates: '", &seg, "'"));
    }
    Ok(PathStep { combinator: comb, predicates: predicates, nth: nth, ascend: ascend })
}

proof fn lemma_parse_steps_err(segs: Seq<(Combinator, Seq<char>)>, i: int, n: int)
    requires
        0 <= i <= n,
        spec_parse_steps(segs, i) is Err,
    ensures
        spec_parse_steps(segs, n) == spec_parse_steps(segs, i),
    decreases n - i,
{
    if i < n {
        lemma_parse_steps_err(segs, i, n - 1);
    }
}

impl SelectorPath {
    /// Parses a selector. Errors are `AutomataError::Internal` with the
    /// message that `spec_parse` gives.
    pub fn parse(input: &str) -> (r: Result<SelectorPath, AutomataError>)
        ensures
            match (r, spec_parse(input@)) {
                (Ok(p), Ok(w)) => p@ == w,
                (Err(e), Err(w)) => is_internal(e, w),
                _ => false,
            },
    {
        let all = chars_of(input);
        let t = trim(&all);
        if t.len() == 0 {
            return Err(internal_error("empty selector"));
        }
        let segments = match split_segments(&t) {
            Err(e) => {
                return Err(e);
            },
            Ok(s) => s,
        };
        let ghost sv = segs_view(segments@);
        let mut steps: Vec<PathStep> = Vec::new();
        let mut i: usize = 0;
        assert(steps_view(steps@) =~= Seq::<StepView>::empty());
        while i < segments.len()
            invariant
                i <= segments.len(),
                sv == segs_view(segments@),
                spec_parse(input@) == spec_parse_steps(sv, sv.len() as int),
                spec_parse_steps(sv, i as int) == Ok::<Seq<StepView>, Seq<char>>(
                    steps_view(steps@),
                ),
            decreases segments.len() - i,
        {
            let comb = segments[i].0;
            assert(sv[i as int] == (comb, segments@[i as int].1@));
            match parse_step(comb, &segments[i].1) {
                Err(e) => {
                    proof {
                        lemma_parse_steps_err(sv, i + 1, sv.len() as int);
                    }
                    return Err(e);
                },
                Ok(st) => {
                    let ghost before = steps@;
                    steps.push(st);
                    proof {
                        assert(steps_view(steps@) =~= steps_view(before).push(st@));
                    }
                },
            }
            i = i + 1;
        }
        Ok(SelectorPath { steps: steps })
    }

    /// The selector `*`: one root step without predicates.
    pub fn wildcard() -> (r: SelectorPath)
        ensures
            r@ == wildcard_steps(),
    {
        let mut steps: Vec<PathStep> = Vec::new();
        steps.push(PathStep { combinator: Combinator::Root, predicates: Vec::new(), nth: None, ascend: 0 });
        let r = SelectorPath { steps };
        assert(predicates_view(Seq::<Predicate>::empty()) =~= Seq::<PredicateView>::empty());
        assert(r@ =~= wildcard_steps());
        r
    }

    /// True for a bare wildcard (`*`): one step without predicates.
    pub fn is_wildcard(&self) -> (r: bool)
        ensures
            r == (self@.len() == 1 && self@[0].predicates.len() == 0),
    {
        self.steps.len() == 1 && self.steps[0].predicates.len() == 0
    }
}


// ── Display ───────────────────────────────────────────────────────────────────

pub open spec fn attr_text(a: Attr) -> Seq<char> {
    match a {
        Attr::Role => role_lit(),
        Attr::Name => name_lit(),
        Attr::Title => name_lit(),
        Attr::AutomationId => id_lit(),
        Attr::Url => url_lit(),
    }
}

pub open spec fn op_text(o: Op) -> Seq<char> {
    match o {
        Op::Exact => seq!['='],
        Op::Contains => seq!['~', '='],
        Op::StartsWith => seq!['^', '='],
        Op::EndsWith => seq!['$', '='],
    }
}

/// The pieces of `v` joined by `sep`.
pub open spec fn join_seq(v: Seq<Seq<char>>, sep: Seq<char>) -> Seq<char>
    decreases v.len(),
{
    if v.len() == 0 {
        Seq::empty()
    } else if v.len() == 1 {
        v[0]
    } else {
        join_seq(v.drop_last(), sep) + sep + v.last()
    }
}

pub open spec fn display_pred(p: PredicateView) -> Seq<char> {
    seq!['['] + attr_text(p.attr) + op_text(p.op) + join_seq(p.values, seq!['|']) + seq![']']
}

pub open spec fn display_preds(ps: Seq<PredicateView>) -> Seq<char>
    decreases ps.len(),
{
    if ps.len() == 0 {
        Seq::empty()
    } else {
        display_preds(ps.drop_last()) + display_pred(ps.last())
    }
}

pub open spec fn display_combinator(c: Combinator, first: bool) -> Seq<char> {
    if first {
        Seq::empty()
    } else {
        match c {
            Combinator::Child => seq![' ', '>', ' '],
            Combinator::Descendant => seq![' ', '>', '>', ' '],
            Combinator::Root => Seq::empty(),
        }
    }
}

pub open spec fn display_nth(nth: Option<usize>) -> Seq<char> {
    match nth {
        Some(n) => nth_lit() + seq!['('] + decimal(n as nat) + seq![')'],
        None => Seq::empty(),
    }
}

pub open spec fn display_ascend(a: usize) -> Seq<char> {
    if a == 0 {
        Seq::empty()
    } else if a == 1 {
        parent_lit()
    } else {
        ancestor_lit() + seq!['('] + decimal(a as nat) + seq![')']
    }
}

pub open spec fn display_step(st: StepView, first: bool) -> Seq<char> {
    display_combinator(st.combinator, first) + (if st.predicates.len() == 0 {
        star_lit()
    } else {
        Seq::empty()
    }) + display_preds(st.predicates) + display_nth(st.nth) + display_ascend(st.ascend)
}

/// The text of the first `n` steps.
pub open spec fn display_steps(steps: Seq<StepView>, n: int) -> Seq<char>
    decreases n,
{
    if n <= 0 {
        Seq::empty()
    } else {
        display_steps(steps, n - 1) + display_step(steps[n - 1], n - 1 == 0)
    }
}

pub open spec fn spec_display(steps: Seq<StepView>) -> Seq<char> {
    display_steps(steps, steps.len() as int)
}

fn push_lit(out: &mut Vec<char>, l: &Vec<char>)
    ensures
        final(out)@ == old(out)@ + l@,
{
    append(out, l);
}

fn attr_text_exec(a: Attr) -> (r: Vec<char>)
    ensures
        r@ == attr_text(a),
{
    let r: Vec<char> = match a {
        Attr::Role => vec!['r', 'o', 'l', 'e'],
        Attr::Name => vec!['n', 'a', 'm', 'e'],
        Attr::Title => vec!['n', 'a', 'm', 'e'],
        Attr::AutomationId => vec!['i', 'd'],
        Attr::Url => vec!['u', 'r', 'l'],
    };
    assert(r@ =~= attr_text(a));
    r
}

fn op_text_exec(o: Op) -> (r: Vec<char>)
    ensures
        r@ == op_text(o),
{
    let r: Vec<char> = match o {
        Op::Exact => vec!['='],
        Op::Contains => vec!['~', '='],
        Op::StartsWith => vec!['^', '='],
        Op::EndsWith => vec!['$', '='],
    };
    assert(r@ =~= op_text(o));
    r
}

fn display_pred_exec(p: &Predicate) -> (r: Vec<char>)
    ensures
        r@ == display_pred(p@),
{
    let mut out: Vec<char> = vec!['['];
    append(&mut out, &attr_text_exec(p.attr));
    append(&mut out, &op_text_exec(p.op));
    let ghost prefix = out@;
    let mut i: usize = 0;
    let ghost vals = strings_view(p.values@);
    while i < p.values.len()
        invariant
            i <= p.values.len(),
            vals == strings_view(p.values@),
            out@ == prefix + join_seq(vals.take(i as int), seq!['|']),
        decreases p.values.len() - i,
    {
        let piece = chars_of(p.values[i].as_str());
        let ghost before = out@;
        if i > 0 {
            out.push('|');
        }
        append(&mut out, &piece);
        proof {
            assert(vals.take(i + 1).drop_last() =~= vals.take(i as int));
            assert(vals[i as int] == piece@);
            if i == 0 {
                assert(join_seq(vals.take(1), seq!['|']) == vals.take(1)[0]);
            }
            assert(out@ =~= prefix + join_seq(vals.take(i + 1), seq!['|']));
        }
        i = i + 1;
    }
    out.push(']');
    proof {
        assert(vals.take(p.values.len() as int) =~= vals);
        assert(out@ =~= display_pred(p@));
    }
    out
}

fn display_preds_exec(ps: &Vec<Predicate>) -> (r: Vec<char>)
    ensures
        r@ == display_preds(predicates_view(ps@)),
{
    let ghost pv = predicates_view(ps@);
    let mut out: Vec<char> = Vec::new();
    let mut j: usize = 0;
    while j < ps.len()
        invariant
            j <= ps.len(),
            pv == predicates_view(ps@),
            out@ == display_preds(pv.take(j as int)),
        decreases ps.len() - j,
    {
        let piece = display_pred_exec(&ps[j]);
        append(&mut out, &piece);
        proof {
            assert(pv.take(j + 1).drop_last() =~= pv.take(j as int));
            assert(pv[j as int] == ps@[j as int]@);
        }
        j = j + 1;
    }
    proof {
        assert(pv.take(ps.len() as int) =~= pv);
    }
    out
}

fn display_nth_exec(nth: Option<usize>) -> (r: Vec<char>)
    ensures
        r@ == display_nth(nth),
{
    match nth {
        Some(n) => {
            let mut out: Vec<char> = vec![':', 'n', 't', 'h', '('];
            append(&mut out, &decimal_string(n as u64));
            out.push(')');
            assert(out@ =~= display_nth(nth));
            out
        },
        None => {
            let out: Vec<char> = Vec::new();
            assert(out@ =~= display_nth(nth));
            out
        },
    }
}

fn display_ascend_exec(a: usize) -> (r: Vec<char>)
    ensures
        r@ == display_ascend(a),
{
    if a == 0 {
        let out: Vec<char> = Vec::new();
        assert(out@ =~= display_ascend(a));
        out
    } else if a == 1 {
        let out: Vec<char> = vec![':', 'p', 'a', 'r', 'e', 'n', 't'];
        assert(out@ =~= display_ascend(a));
        out
    } else {
        let mut out: Vec<char> = vec![':', 'a', 'n', 'c', 'e', 's', 't', 'o', 'r', '('];
        append(&mut out, &decimal_string(a as u64));
        out.push(')');
        assert(out@ =~= display_ascend(a));
        out
    }
}

fn display_combinator_exec(c: Combinator, first: bool) -> (r: Vec<char>)
    ensures
        r@ == display_combinator(c, first),
{
    let out: Vec<char> = if first {
        Vec::new()
    } else {
        match c {
            Combinator::Child => vec![' ', '>', ' '],
            Combinator::Descendant => vec![' ', '>', '>', ' '],
            Combinator::Root => Vec::new(),
        }
    };
    assert(out@ =~= display_combinator(c, first));
    out
}

fn display_step_exec(step: &PathStep, first: bool) -> (r: Vec<char>)
    ensures
        r@ == display_step(step@, first),
{
    let a = display_combinator_exec(step.combinator, first);
    let b: Vec<char> = if step.predicates.len() == 0 {
        vec!['*']
    } else {
        Vec::new()
    };
    let c = display_preds_exec(&step.predicates);
    let d = display_nth_exec(step.nth);
    let e = display_ascend_exec(step.ascend);
    proof {
        assert(b@ =~= (if step@.predicates.len() == 0 {
            star_lit()
        } else {
            Seq::empty()
        }));
    }
    let ab = concat(&a, &b);
    let abc = concat(&ab, &c);
    let abcd = concat(&abc, &d);
    concat(&abcd, &e)
}

impl SelectorPath {
    /// The selector written back as text (what `Display` shows).
    pub fn to_string(&self) -> (r: String)
        ensures
            r@ == spec_display(self@),
    {
        let ghost sv = self@;
        let mut out: Vec<char> = Vec::new();
        let mut i: usize = 0;
        while i < self.steps.len()
            invariant
                i <= self.steps.len(),
                sv == steps_view(self.steps@),
                out@ == display_steps(sv, i as int),
            decreases self.steps.len() - i,
        {
            let piece = display_step_exec(&self.steps[i], i == 0);
            append(&mut out, &piece);
            proof {
                assert(sv[i as int] == self.steps@[i as int]@);
            }
            i = i + 1;
        }
        string_of(&out)
    }
}

// ── Matching a single element ─────────────────────────────────────────────────

/// Whether `actual` passes the comparison `op` against `v`; the three
/// non-exact operators compare ASCII-case-insensitively.
pub open spec fn value_matches(op: Op, actual: Seq<char>, v: Seq<char>) -> bool {
    match op {
        Op::Exact => actual == v,
        Op::Contains => contains_seq(lower_seq(actual), lower_seq(v)),
        Op::StartsWith => starts_with_seq(lower_seq(actual), lower_seq(v)),
        Op::EndsWith => ends_with_seq(lower_seq(actual), lower_seq(v)),
    }
}

pub open spec fn any_value_matches(op: Op, actual: Seq<char>, values: Seq<Seq<char>>) -> bool {
    exists|i: int| 0 <= i < values.len() && value_matches(op, actual, #[trigger] values[i])
}

/// A predicate tested against an element's role, name and automation id
/// (an absent name or id reads as empty; `url` is empty on elements).
pub open spec fn element_pred_matches(
    p: PredicateView,
    role: Seq<char>,
    name: Seq<char>,
    aid: Seq<char>,
) -> bool {
    let actual = match p.attr {
        Attr::Role => role,
        Attr::Name => name,
        Attr::Title => name,
        Attr::AutomationId => aid,
        Attr::Url => Seq::empty(),
    };
    any_value_matches(p.op, actual, p.values)
}

pub open spec fn element_step_matches(
    st: StepView,
    role: Seq<char>,
    name: Seq<char>,
    aid: Seq<char>,
) -> bool {
    forall|i: int|
        0 <= i < st.predicates.len() ==> element_pred_matches(
            #[trigger] st.predicates[i],
            role,
            name,
            aid,
        )
}

/// A predicate tested against a browser tab: `name`/`title` read the title,
/// `url` the URL; `role` and `id` always pass.
pub open spec fn tab_pred_matches(p: PredicateView, title: Seq<char>, url: Seq<char>) -> bool {
    match p.attr {
        Attr::Name => any_value_matches(p.op, title, p.values),
        Attr::Title => any_value_matches(p.op, title, p.values),
        Attr::Url => any_value_matches(p.op, url, p.values),
        Attr::Role => true,
        Attr::AutomationId => true,
    }
}

pub open spec fn spec_matches_tab_info(steps: Seq<StepView>, title: Seq<char>, url: Seq<char>) -> bool {
    steps.len() > 0 && forall|i: int|
        0 <= i < steps[0].predicates.len() ==> tab_pred_matches(
            #[trigger] steps[0].predicates[i],
            title,
            url,
        )
}

/// Matching an element against a step with one predicate: `role` reads the
/// role, `name` and `title` the name, `id` the automation id, and `url`
/// reads nothing (an element has none) and is tested against empty text.
pub proof fn law_element_predicate_reads(st: StepView, role: Seq<char>, name: Seq<char>, aid: Seq<char>)
    requires
        st.predicates.len() == 1,
    ensures
        ({
            let p = st.predicates[0];
            element_step_matches(st, role, name, aid) == if p.attr == Attr::Role {
                any_value_matches(p.op, role, p.values)
            } else if p.attr == Attr::AutomationId {
                any_value_matches(p.op, aid, p.values)
            } else if p.attr == Attr::Url {
                any_value_matches(p.op, Seq::empty(), p.values)
            } else {
                any_value_matches(p.op, name, p.values)
            }
        }),
{
    if element_step_matches(st, role, name, aid) {
        assert(element_pred_matches(st.predicates[0], role, name, aid));
    }
}

/// Matching a tab against a first step with one predicate: `name` and
/// `title` read the tab's title and nothing else, `url` reads its URL and
/// nothing else, and `role` and `id` always pass. So `[name=T]` matches every
/// tab titled `T`, whatever its URL.
pub proof fn law_tab_predicate_reads(st: StepView, rest: Seq<StepView>, title: Seq<char>, url: Seq<char>)
    requires
        st.predicates.len() == 1,
    ensures
        ({
            let p = st.predicates[0];
            spec_matches_tab_info(seq![st] + rest, title, url) == if p.attr == Attr::Url {
                any_value_matches(p.op, url, p.values)
            } else if p.attr == Attr::Name || p.attr == Attr::Title {
                any_value_matches(p.op, title, p.values)
            } else {
                true
            }
        }),
        st.predicates[0].attr == Attr::Name && st.predicates[0].op == Op::Exact && st.predicates[0].values
            == seq![title] ==> spec_matches_tab_info(seq![st] + rest, title, url),
{
    let steps = seq![st] + rest;
    assert(steps[0] == st);
    let p = st.predicates[0];
    if spec_matches_tab_info(steps, title, url) {
        assert(tab_pred_matches(steps[0].predicates[0], title, url));
    }
    if p.attr == Attr::Name && p.op == Op::Exact && p.values == seq![title] {
        assert(value_matches(p.op, title, p.values[0]));
    }
}

fn value_matches_exec(op: Op, actual: &Vec<char>, v: &Vec<char>) -> (r: bool)
    ensures
        r == value_matches(op, actual@, v@),
{
    match op {
        Op::Exact => eq_chars(actual, v),
        Op::Contains => contains(&to_ascii_lower(actual), &to_ascii_lower(v)),
        Op::StartsWith => starts_with(&to_ascii_lower(actual), &to_ascii_lower(v)),
        Op::EndsWith => ends_with(&to_ascii_lower(actual), &to_ascii_lower(v)),
    }
}

fn any_value_matches_exec(op: Op, actual: &Vec<char>, values: &Vec<String>) -> (r: bool)
    ensures
        r == any_value_matches(op, actual@, strings_view(values@)),
{
    let ghost vals = strings_view(values@);
    let mut i: usize = 0;
    while i < values.len()
        invariant
            i <= values.len(),
            vals == strings_view(values@),
            forall|k: int| 0 <= k < i ==> !value_matches(op, actual@, #[trigger] vals[k]),
        decreases values.len() - i,
    {
        let v = chars_of(values[i].as_str());
        if value_matches_exec(op, actual, &v) {
            assert(vals[i as int] == v@);
            return true;
        }
        i = i + 1;
    }
    false
}

impl PathStep {
    /// Whether an element with this role, name and automation id passes every
    /// predicate of the step.
    pub fn matches_attrs(&self, role: &str, name: &str, automation_id: &str) -> (r: bool)
        ensures
            r == element_step_matches(self@, role@, name@, automation_id@),
    {
        let role_c = chars_of(role);
        let name_c = chars_of(name);
        let aid_c = chars_of(automation_id);
        let empty: Vec<char> = Vec::new();
        let ghost sw = self@;
        let mut i: usize = 0;
        while i < self.predicates.len()
            invariant
                i <= self.predicates.len(),
                sw == self@,
                role_c@ == role@,
                name_c@ == name@,
                aid_c@ == automation_id@,
                empty@ == Seq::<char>::empty(),
                forall|k: int|
                    0 <= k < i ==> element_pred_matches(
                        #[trigger] sw.predicates[k],
                        role@,
                        name@,
                        automation_id@,
                    ),
            decreases self.predicates.len() - i,
        {
            let p = &self.predicates[i];
            let actual = match p.attr {
                Attr::Role => &role_c,
                Attr::Name => &name_c,
                Attr::Title => &name_c,
                Attr::AutomationId => &aid_c,
                Attr::Url => &empty,
            };
            assert(sw.predicates[i as int] == p@);
            if !any_value_matches_exec(p.op, actual, &p.values) {
                assert(!element_pred_matches(sw.predicates[i as int], role@, name@, automation_id@));
                return false;
            }
            i = i + 1;
        }
        true
    }
}

impl SelectorPath {
    /// The parsed steps, in order.
    pub fn steps(&self) -> (r: &Vec<PathStep>)
        ensures
            steps_view(r@) == self@,
    {
        &self.steps
    }

    /// Whether an element with this role, name and automation id matches the
    /// first step (single-step selectors used as element filters).
    pub fn matches_attrs(&self, role: &str, name: &str, automation_id: &str) -> (r: bool)
        ensures
            r == (self@.len() > 0 && element_step_matches(self@[0], role@, name@, automation_id@)),
    {
        if self.steps.len() == 0 {
            return false;
        }
        self.steps[0].matches_attrs(role, name, automation_id)
    }

    /// Whether a browser tab with this title and URL matches the predicates of
    /// the first step (tab anchors in attach mode).
    pub fn matches_tab_info(&self, title: &str, url: &str) -> (r: bool)
        ensures
            r == spec_matches_tab_info(self@, title@, url@),
    {
        if self.steps.len() == 0 {
            return false;
        }
        let title_c = chars_of(title);
        let url_c = chars_of(url);
        let step = &self.steps[0];
        let ghost sw = step@;
        assert(self@[0] == sw);
        let mut i: usize = 0;
        while i < step.predicates.len()
            invariant
                i <= step.predicates.len(),
                sw == step@,
                self@[0] == sw,
                title_c@ == title@,
                url_c@ == url@,
                forall|k: int|
                    0 <= k < i ==> tab_pred_matches(#[trigger] sw.predicates[k], title@, url@),
            decreases step.predicates.len() - i,
        {
            let p = &step.predicates[i];
            assert(sw.predicates[i as int] == p@);
            let ok = match p.attr {
                Attr::Name => any_value_matches_exec(p.op, &title_c, &p.values),
                Attr::Title => any_value_matches_exec(p.op, &title_c, &p.values),
                Attr::Url => any_value_matches_exec(p.op, &url_c, &p.values),
                Attr::Role => true,
                Attr::AutomationId => true,
            };
            if !ok {
                assert(!tab_pred_matches(sw.predicates[i as int], title@, url@));
                return false;
            }
            i = i + 1;
        }
        true
    }
}

// ── Supporting lemmas ─────────────────────────────────────────────────────────

pub proof fn lemma_trim_len(s: Seq<char>)
    ensures
        trim_seq(s).len() <= s.len(),
{
    lemma_first_idx_props(0, s.len() as int, nonws_at(s));
    lemma_last_idx_props(0, s.len() as int, nonws_at(s));
}

pub proof fn lemma_trim_end_len(s: Seq<char>)
    ensures
        trim_end_seq(s).len() <= s.len(),
{
    lemma_last_idx_props(0, s.len() as int, nonws_at(s));
}

pub proof fn lemma_find_bounds(s: Seq<char>, c: char)
    ensures
        find_seq(s, c) matches Some(i) ==> 0 <= i < s.len() && s[i] == c,
{
    lemma_first_idx_props(0, s.len() as int, char_at(s, c));
}

pub proof fn lemma_rfind_bounds(s: Seq<char>, c: char)
    ensures
        rfind_seq(s, c) matches Some(i) ==> 0 <= i < s.len() && s[i] == c,
{
    lemma_last_idx_props(0, s.len() as int, char_at(s, c));
}

pub proof fn lemma_find_pair_bounds(s: Seq<char>, a: char, b: char)
    ensures
        find_pair_seq(s, a, b) matches Some(i) ==> 0 <= i && i + 1 < s.len() && s[i] == a && s[i
            + 1] == b,
{
    lemma_first_idx_props(0, s.len() as int, pair_at(s, a, b));
}

proof fn lemma_split_scan_bounds(s: Seq<char>, n: int)
    requires
        0 <= n <= s.len(),
    ensures
        0 <= split_scan(s, n).seg_start <= s.len(),
        split_scan(s, n).skip ==> split_scan(s, n).seg_start == n + 1 && n < s.len(),
        !split_scan(s, n).skip ==> split_scan(s, n).seg_start <= n,
    decreases n,
{
    if n > 0 {
        lemma_split_scan_bounds(s, n - 1);
    }
}

/// `name(d)`: a pseudo-class with an argument.
pub open spec fn pseudo_call(name: Seq<char>, d: Seq<char>) -> Seq<char> {
    name + seq!['('] + d + seq![')']
}

/// A step text that ends in none of the pseudo-class suffixes.
pub open spec fn no_pseudo_suffix(b: Seq<char>) -> bool {
    let t = trim_end_seq(b);
    &&& !ends_with_seq(t, parent_lit())
    &&& !(t.len() > 0 && t.last() == ')' && rfind_seq(t, '(') is Some && {
        let before = t.take(rfind_seq(t, '(').unwrap());
        ends_with_seq(before, ancestor_lit()) || ends_with_seq(before, nth_lit())
    })
}

proof fn lemma_trim_end_keeps(s: Seq<char>)
    requires
        s.len() > 0,
        !char_is_whitespace(s.last()),
    ensures
        trim_end_seq(s) == s,
{
    assert(s.take(s.len() as int) =~= s);
}

proof fn lemma_rfind_call(x: Seq<char>, d: Seq<char>)
    requires
        forall|i: int| 0 <= i < d.len() ==> d[i] != '(',
    ensures
        rfind_seq(x + seq!['('] + d + seq![')'], '(') == Some(x.len() as int),
{
    let s = x + seq!['('] + d + seq![')'];
    assert forall|j: int| x.len() < j < s.len() implies !#[trigger] char_at(s, '(')(j) by {
        if j < s.len() - 1 {
            assert(s[j] == d[j - x.len() - 1]);
        }
    }
    lemma_last_idx(0, s.len() as int, char_at(s, '('), x.len() as int);
}

proof fn lemma_pseudos_base(b: Seq<char>, seg: Seq<char>, nth: Option<usize>, ascend: usize)
    requires
        no_pseudo_suffix(b),
    ensures
        spec_pseudos(b, seg, nth, ascend) == Ok::<(Seq<char>, Option<usize>, usize), Seq<char>>(
            (b, nth, ascend),
        ),
{
}

/// Strips `x:nth(d)` down to `x`, recording the index.
proof fn lemma_pseudos_nth(x: Seq<char>, d: Seq<char>, seg: Seq<char>, nth: Option<usize>, ascend: usize)
    requires
        !char_is_whitespace(')'),
        forall|i: int| 0 <= i < d.len() ==> d[i] != '(',
        parse_usize_spec(trim_seq(d)) is Some,
    ensures
        spec_pseudos(x + pseudo_call(nth_lit(), d), seg, nth, ascend) == spec_pseudos(
            x,
            seg,
            Some(parse_usize_spec(trim_seq(d)).unwrap() as usize),
            ascend,
        ),
{
    let xs = x + nth_lit();
    let s = x + pseudo_call(nth_lit(), d);
    assert(s =~= xs + seq!['('] + d + seq![')']);
    lemma_trim_end_keeps(s);
    lemma_rfind_call(xs, d);
    assert(!ends_with_seq(s, parent_lit())) by {
        assert(s.skip(s.len() - 7).last() == ')');
    }
    let before = s.take(xs.len() as int);
    assert(before =~= xs);
    assert(s.subrange(xs.len() as int + 1, s.len() - 1) =~= d);
    assert(!ends_with_seq(before, ancestor_lit())) by {
        if before.len() >= 9 {
            assert(before.skip(before.len() - 9)[5] == ':');
        }
    }
    assert(ends_with_seq(before, nth_lit())) by {
        assert(before.skip(before.len() - 4) =~= nth_lit());
    }
    assert(before.take(before.len() - 4) =~= x);
}

/// Strips `x:parent` down to `x`.
proof fn lemma_pseudos_parent(x: Seq<char>, seg: Seq<char>, nth: Option<usize>, ascend: usize)
    requires
        !char_is_whitespace('t'),
    ensures
        spec_pseudos(x + parent_lit(), seg, nth, ascend) == spec_pseudos(x, seg, nth, 1),
{
    let s = x + parent_lit();
    lemma_trim_end_keeps(s);
    assert(s.skip(s.len() - 7) =~= parent_lit());
    assert(s.take(s.len() - 7) =~= x);
}

/// Strips `x:ancestor(e)` down to `x`, recording the number of levels.
proof fn lemma_pseudos_ancestor(
    x: Seq<char>,
    e: Seq<char>,
    seg: Seq<char>,
    nth: Option<usize>,
    ascend: usize,
)
    requires
        !char_is_whitespace(')'),
        forall|i: int| 0 <= i < e.len() ==> e[i] != '(',
        parse_usize_spec(trim_seq(e)) is Some,
    ensures
        spec_pseudos(x + pseudo_call(ancestor_lit(), e), seg, nth, ascend) == spec_pseudos(
            x,
            seg,
            nth,
            parse_usize_spec(trim_seq(e)).unwrap() as usize,
        ),
{
    let xs = x + ancestor_lit();
    let s = x + pseudo_call(ancestor_lit(), e);
    assert(s =~= xs + seq!['('] + e + seq![')']);
    lemma_trim_end_keeps(s);
    lemma_rfind_call(xs, e);
    assert(!ends_with_seq(s, parent_lit())) by {
        assert(s.skip(s.len() - 7).last() == ')');
    }
    let before = s.take(xs.len() as int);
    assert(before =~= xs);
    assert(s.subrange(xs.len() as int + 1, s.len() - 1) =~= e);
    assert(ends_with_seq(before, ancestor_lit())) by {
        assert(before.skip(before.len() - 9) =~= ancestor_lit());
    }
    assert(before.take(before.len() - 9) =~= x);
}

/// Pseudo-classes are stripped right to left, so `:nth(n)` and `:parent`
/// may be written in either order after a step, and so may `:nth(n)` and
/// `:ancestor(m)`: both orders give the same step text, the same index and
/// the same number of levels to ascend.
pub proof fn law_pseudo_order(b: Seq<char>, d: Seq<char>, e: Seq<char>, seg: Seq<char>)
    requires
        !char_is_whitespace(')'),
        !char_is_whitespace('t'),
        no_pseudo_suffix(b),
        forall|i: int| 0 <= i < d.len() ==> d[i] != '(',
        forall|i: int| 0 <= i < e.len() ==> e[i] != '(',
        parse_usize_spec(trim_seq(d)) is Some,
        parse_usize_spec(trim_seq(e)) is Some,
    ensures
        ({
            let n = parse_usize_spec(trim_seq(d)).unwrap() as usize;
            let m = parse_usize_spec(trim_seq(e)).unwrap() as usize;
            &&& spec_pseudos(b + pseudo_call(nth_lit(), d) + parent_lit(), seg, None, 0) == Ok::<
                (Seq<char>, Option<usize>, usize),
                Seq<char>,
            >((b, Some(n), 1))
            &&& spec_pseudos(b + parent_lit() + pseudo_call(nth_lit(), d), seg, None, 0) == Ok::<
                (Seq<char>, Option<usize>, usize),
                Seq<char>,
            >((b, Some(n), 1))
            &&& spec_pseudos(
                b + pseudo_call(nth_lit(), d) + pseudo_call(ancestor_lit(), e),
                seg,
                None,
                0,
            ) == Ok::<(Seq<char>, Option<usize>, usize), Seq<char>>((b, Some(n), m))
            &&& spec_pseudos(
                b + pseudo_call(ancestor_lit(), e) + pseudo_call(nth_lit(), d),
                seg,
                None,
                0,
            ) == Ok::<(Seq<char>, Option<usize>, usize), Seq<char>>((b, Some(n), m))
        }),
{
    let n = parse_usize_spec(trim_seq(d)).unwrap() as usize;
    lemma_pseudos_parent(b + pseudo_call(nth_lit(), d), seg, None, 0);
    lemma_pseudos_nth(b, d, seg, None, 1);
    lemma_pseudos_base(b, seg, Some(n), 1);
    lemma_pseudos_nth(b + parent_lit(), d, seg, None, 0);
    lemma_pseudos_parent(b, seg, Some(n), 0);
    let m = parse_usize_spec(trim_seq(e)).unwrap() as usize;
    lemma_pseudos_ancestor(b + pseudo_call(nth_lit(), d), e, seg, None, 0);
    lemma_pseudos_nth(b, d, seg, None, m);
    lemma_pseudos_base(b, seg, Some(n), m);
    lemma_pseudos_nth(b + pseudo_call(ancestor_lit(), e), d, seg, None, 0);
    lemma_pseudos_ancestor(b, e, seg, Some(n), 0);
}

} // verus!
