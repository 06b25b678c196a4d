//! Workflow linter: diagnostics with source locations for unknown fields,
//! missing required fields, invalid selectors and expressions, anchor and
//! parameter cross-references, and pattern-matcher constraints.
//!
//! This module holds the diagnostics and the checks on single values; the
//! walk over a workflow's YAML tree hands them the values it finds.
use vstd::prelude::*;

use crate::error::error_text;
use crate::yaml_tree::{
    first_document, load_first_document, Loaded, entries_of, get_str, items_of, lemma_item_smaller, lemma_map_get_smaller, map_get, str_of, YamlNode, YamlValue,
};
use crate::expression::{check_expr_syntax, spec_parse_expr};
use crate::selector::{spec_parse, SelectorPath};
use crate::text::{
    append, chars_of, chars_seqs, decimal, decimal_string, eq_chars, join_chars, join_seqs, slice_of,
    sorted_distinct, sorted_distinct_exec, starts_with, starts_with_seq, string_of, strings_seqs,
};

verus! {

// ── Diagnostics ───────────────────────────────────────────────────────────────

/// A source range: 1-based lines, columns as the YAML parser counts them.
#[derive(Debug, Clone, Copy, PartialEq, Eq, Structural)]
pub struct Span {
    pub line: usize,
    pub col: usize,
    pub end_line: usize,
    pub end_col: usize,
}

/// One diagnostic with its location.
#[derive(Debug, Clone)]
pub struct LintDiag {
    /// 1-based start line, if known.
    pub line: Option<usize>,
    /// Start column, if known.
    pub col: Option<usize>,
    /// End column when the range stays on one line (for underlines).
    pub end_col: Option<usize>,
    /// Dot-bracket path to the node, e.g. `phases[2].steps[0].action.selector`.
    pub path: String,
    /// What is wrong.
    pub message: String,
}

/// A position that is known (zero means unknown).
pub open spec fn known_pos(n: usize) -> Option<usize> {
    if n > 0 {
        Some(n)
    } else {
        None
    }
}

/// What a diagnostic should be: where, at which path, saying what.
pub type DiagSpec = (Span, Seq<char>, Seq<char>);

/// `d` is the diagnostic described by `spec`.
pub open spec fn diag_is(d: LintDiag, spec: DiagSpec) -> bool {
    let (span, path, msg) = spec;
    &&& d.line == known_pos(span.line)
    &&& d.col == known_pos(span.col)
    &&& d.end_col == (if span.end_line == span.line {
        known_pos(span.end_col)
    } else {
        None
    })
    &&& d.path@ == path
    &&& d.message@ == msg
}

/// `after` is `before` followed by the diagnostics described by `specs`.
pub open spec fn pushed(before: Seq<LintDiag>, after: Seq<LintDiag>, specs: Seq<DiagSpec>) -> bool {
    &&& after.len() == before.len() + specs.len()
    &&& forall|i: int| 0 <= i < before.len() ==> after[i] == before[i]
    &&& forall|i: int| 0 <= i < specs.len() ==> diag_is(#[trigger] after[before.len() + i], specs[i])
}

/// The text a diagnostic displays as.
pub open spec fn diag_text(d: LintDiag) -> Seq<char> {
    match (d.line, d.col) {
        (Some(l), Some(c)) => decimal(l as nat) + ":"@ + decimal(c as nat) + " "@ + d.path@ + ": "@
            + d.message@,
        (Some(l), None) => decimal(l as nat) + " "@ + d.path@ + ": "@ + d.message@,
        _ => d.path@ + ": "@ + d.message@,
    }
}

impl LintDiag {
    /// `line:col path: message`, dropping what is unknown.
    pub fn to_string(&self) -> (r: String)
        ensures
            r@ == diag_text(*self),
    {
        let mut v: Vec<char> = Vec::new();
        match (self.line, self.col) {
            (Some(l), Some(c)) => {
                append(&mut v, &decimal_string(l as u64));
                append(&mut v, &chars_of(":"));
                append(&mut v, &decimal_string(c as u64));
                append(&mut v, &chars_of(" "));
            },
            (Some(l), None) => {
                append(&mut v, &decimal_string(l as u64));
                append(&mut v, &chars_of(" "));
            },
            _ => {},
        }
        append(&mut v, &chars_of(self.path.as_str()));
        append(&mut v, &chars_of(": "));
        append(&mut v, &chars_of(self.message.as_str()));
        string_of(&v)
    }
}

/// The diagnostic for `span` at `path` saying `msg`.
pub fn diag_at(span: Span, path: &str, msg: String) -> (d: LintDiag)
    ensures
        diag_is(d, (span, path@, msg@)),
{
    let end_col = if span.end_line == span.line {
        if span.end_col > 0 {
            Some(span.end_col)
        } else {
            None
        }
    } else {
        None
    };
    LintDiag {
        line: if span.line > 0 {
            Some(span.line)
        } else {
            None
        },
        col: if span.col > 0 {
            Some(span.col)
        } else {
            None
        },
        end_col,
        path: path.to_owned(),
        message: msg,
    }
}

fn push_diag(diags: &mut Vec<LintDiag>, span: Span, path: &str, msg: String)
    ensures
        pushed(old(diags)@, final(diags)@, seq![(span, path@, msg@)]),
{
    let d = diag_at(span, path, msg);
    diags.push(d);
    assert(diags@[old(diags)@.len() as int] == d);
}

proof fn lemma_pushed_trans(a: Seq<LintDiag>, b: Seq<LintDiag>, c: Seq<LintDiag>, s: Seq<DiagSpec>, t: Seq<DiagSpec>)
    requires
        pushed(a, b, s),
        pushed(b, c, t),
    ensures
        pushed(a, c, s + t),
{
    assert forall|i: int| 0 <= i < (s + t).len() implies diag_is(#[trigger] c[a.len() + i], (s + t)[i]) by {
        if i < s.len() {
            assert(c[a.len() + i] == b[a.len() + i]);
        } else {
            assert(c[b.len() + (i - s.len())] == c[a.len() + i]);
        }
    }
}

// ── Interpolation tokens ──────────────────────────────────────────────────────

/// Where the scan of a value for `{...}` tokens stands.
pub struct InterpScan {
    /// Nesting depth of `{`.
    pub depth: nat,
    /// Where the current outermost token's text starts.
    pub start: Option<int>,
    /// Names of `{param.<name>}` tokens that are not declared, in order.
    pub unknown: Seq<Seq<char>>,
}

pub open spec fn param_prefix() -> Seq<char> {
    seq!['p', 'a', 'r', 'a', 'm', '.']
}

pub open spec fn interp_step(st: InterpScan, s: Seq<char>, i: int, params: Seq<Seq<char>>) -> InterpScan {
    if s[i] == '{' {
        InterpScan {
            depth: st.depth + 1,
            start: if st.depth == 0 {
                Some(i + 1)
            } else {
                st.start
            },
            unknown: st.unknown,
        }
    } else if s[i] == '}' && st.depth > 0 {
        if st.depth == 1 && st.start is Some {
            let token = s.subrange(st.start->0, i);
            let name = token.skip(6);
            let missing = starts_with_seq(token, param_prefix()) && params.len() > 0 && !params.contains(name);
            InterpScan {
                depth: (st.depth - 1) as nat,
                start: None,
                unknown: if missing {
                    st.unknown.push(name)
                } else {
                    st.unknown
                },
            }
        } else {
            InterpScan { depth: (st.depth - 1) as nat, start: st.start, unknown: st.unknown }
        }
    } else {
        st
    }
}

/// The scan after the first `n` characters of `s`.
pub open spec fn interp_scan(s: Seq<char>, n: int, params: Seq<Seq<char>>) -> InterpScan
    decreases n,
{
    if n <= 0 {
        InterpScan { depth: 0, start: None, unknown: Seq::empty() }
    } else {
        interp_step(interp_scan(s, n - 1, params), s, n - 1, params)
    }
}

pub open spec fn unknown_param_message(name: Seq<char>, params: Seq<Seq<char>>) -> Seq<char> {
    "unknown param '"@ + name + "' (declared: "@ + join_seqs(sorted_distinct(params), ", "@) + ")"@
}

/// The diagnostics for a string value: each `{param.<name>}` whose name is
/// not declared (only when some parameter is), then an unclosed `{`.
pub open spec fn interpolation_diags(s: Seq<char>, span: Span, path: Seq<char>, params: Seq<Seq<char>>) -> Seq<
    DiagSpec,
> {
    let st = interp_scan(s, s.len() as int, params);
    st.unknown.map_values(|n: Seq<char>| (span, path, unknown_param_message(n, params))) + if st.depth
        > 0 {
        seq![(span, path, "unclosed '{' in interpolation token"@)]
    } else {
        Seq::empty()
    }
}

proof fn lemma_interp_start(s: Seq<char>, n: int, params: Seq<Seq<char>>)
    requires
        0 <= n <= s.len(),
    ensures
        interp_scan(s, n, params).start matches Some(a) ==> 0 <= a <= n,
        interp_scan(s, n, params).depth == 0 ==> interp_scan(s, n, params).start is None,
        interp_scan(s, n, params).depth > 0 ==> interp_scan(s, n, params).start is Some,
    decreases n,
{
    if n > 0 {
        lemma_interp_start(s, n - 1, params);
    }
}

fn contains_name(params: &Vec<String>, name: &Vec<char>) -> (r: bool)
    ensures
        r == strings_seqs(params@).contains(name@),
{
    let ghost pv = strings_seqs(params@);
    let mut i: usize = 0;
    while i < params.len()
        invariant
            i <= params@.len(),
            pv == strings_seqs(params@),
            forall|j: int| 0 <= j < i ==> pv[j] != name@,
        decreases params@.len() - i,
    {
        if eq_chars(&chars_of(params[i].as_str()), name) {
            assert(pv[i as int] == name@);
            return true;
        }
        i += 1;
    }
    false
}

/// Checks a string value for `{param.<name>}` tokens naming no declared
/// parameter (when any is declared) and for an unclosed `{`.
pub fn check_interpolation(s: &str, span: Span, path: &str, params: &Vec<String>, diags: &mut Vec<LintDiag>)
    ensures
        pushed(old(diags)@, final(diags)@, interpolation_diags(s@, span, path@, strings_seqs(params@))),
{
    let ghost pv = strings_seqs(params@);
    let c = chars_of(s);
    let known = join_chars(&sorted_distinct_exec(params), &chars_of(", "));
    let prefix = chars_of("param.");
    proof {
        reveal_strlit("param.");
        assert(prefix@ =~= param_prefix());
    }
    let ghost before = diags@;
    let mut depth: usize = 0;
    let mut start: Option<usize> = None;
    let mut i: usize = 0;
    while i < c.len()
        invariant
            i <= c@.len(),
            c@ == s@,
            pv == strings_seqs(params@),
            known@ == join_seqs(sorted_distinct(pv), ", "@),
            prefix@ == param_prefix(),
            depth <= i,
            ({
                let st = interp_scan(c@, i as int, pv);
                &&& st.depth == depth as nat
                &&& st.start == (match start {
                    Some(a) => Some(a as int),
                    None => None,
                })
                &&& pushed(
                    before,
                    diags@,
                    st.unknown.map_values(|n: Seq<char>| (span, path@, unknown_param_message(n, pv))),
                )
            }),
        decreases c@.len() - i,
    {
        proof {
            lemma_interp_start(c@, i as int, pv);
        }
        let ghost st0 = interp_scan(c@, i as int, pv);
        let ghost d0 = diags@;
        if c[i] == '{' {
            depth = depth + 1;
            if depth == 1 {
                start = Some(i + 1);
            }
        } else if c[i] == '}' && depth > 0 {
            if depth == 1 && start.is_some() {
                let a = start.unwrap();
                let token = slice_of(&c, a, i);
                start = None;
                if starts_with(&token, &prefix) {
                    let name = slice_of(&token, 6, token.len());
                    assert(name@ =~= token@.skip(6));
                    if params.len() > 0 && !contains_name(params, &name) {
                        let mut msg = chars_of("unknown param '");
                        append(&mut msg, &name);
                        append(&mut msg, &chars_of("' (declared: "));
                        append(&mut msg, &known);
                        append(&mut msg, &chars_of(")"));
                        push_diag(diags, span, path, string_of(&msg));
                        proof {
                            let f = |n: Seq<char>| (span, path@, unknown_param_message(n, pv));
                            lemma_pushed_trans(before, d0, diags@, st0.unknown.map_values(f), seq![f(name@)]);
                            assert(st0.unknown.push(name@).map_values(f) =~= st0.unknown.map_values(f) + seq![f(name@)]);
                        }
                    }
                }
            }
            depth = depth - 1;
        }
        i = i + 1;
    }
    let ghost st = interp_scan(c@, c@.len() as int, pv);
    let ghost f = |n: Seq<char>| (span, path@, unknown_param_message(n, pv));
    if depth > 0 {
        let ghost d0 = diags@;
        push_diag(diags, span, path, "unclosed '{' in interpolation token".to_owned());
        proof {
            lemma_pushed_trans(before, d0, diags@, st.unknown.map_values(f), seq![(span, path@, "unclosed '{' in interpolation token"@)]);
        }
    } else {
        proof {
            assert(st.unknown.map_values(f) + Seq::<DiagSpec>::empty() =~= st.unknown.map_values(f));
        }
    }
}


// ── Paths and common messages ─────────────────────────────────────────────────

pub open spec fn dot(path: Seq<char>, field: Seq<char>) -> Seq<char> {
    path + "."@ + field
}

pub open spec fn at_index(path: Seq<char>, i: nat) -> Seq<char> {
    path + "["@ + decimal(i) + "]"@
}

pub open spec fn missing_field(v: YamlNode, path: Seq<char>, field: Seq<char>) -> Seq<DiagSpec> {
    seq![(v.span, path, "missing required field '"@ + field + "'"@)]
}

pub open spec fn when(c: bool, d: Seq<DiagSpec>) -> Seq<DiagSpec> {
    if c {
        d
    } else {
        Seq::empty()
    }
}

fn dot_exec(path: &str, field: &str) -> (r: String)
    ensures
        r@ == dot(path@, field@),
{
    let mut v = chars_of(path);
    append(&mut v, &chars_of("."));
    append(&mut v, &chars_of(field));
    string_of(&v)
}

fn at_index_exec(path: &str, i: usize) -> (r: String)
    ensures
        r@ == at_index(path@, i as nat),
{
    let mut v = chars_of(path);
    append(&mut v, &chars_of("["));
    append(&mut v, &decimal_string(i as u64));
    append(&mut v, &chars_of("]"));
    string_of(&v)
}

fn quoted_msg(a: &str, b: &str, c: &str) -> (r: String)
    ensures
        r@ == a@ + b@ + c@,
{
    let mut v = chars_of(a);
    append(&mut v, &chars_of(b));
    append(&mut v, &chars_of(c));
    string_of(&v)
}

fn push_missing(diags: &mut Vec<LintDiag>, v: &YamlNode, path: &str, field: &str)
    ensures
        pushed(old(diags)@, final(diags)@, missing_field(*v, path@, field@)),
{
    push_diag(diags, v.span, path, quoted_msg("missing required field '", field, "'"));
}

// ── Checks on one node ────────────────────────────────────────────────────────

/// A required string field: its absence is reported.
pub open spec fn require_str_diags(v: YamlNode, field: Seq<char>, path: Seq<char>) -> Seq<DiagSpec> {
    when(get_str(v, field) is None, missing_field(v, path, field))
}

fn require_str<'a>(v: &'a YamlNode, field: &str, path: &str, diags: &mut Vec<LintDiag>) -> (r: Option<(&'a String, Span)>)
    ensures
        pushed(old(diags)@, final(diags)@, require_str_diags(*v, field@, path@)),
        match (r, get_str(*v, field@)) {
            (Some((s, sp)), Some((w, wsp))) => s@ == w && sp == wsp,
            (None, None) => true,
            _ => false,
        },
{
    let r = v.get_str(field);
    if r.is_none() {
        push_missing(diags, v, path, field);
    }
    r
}

/// A selector field that is present must parse.
pub open spec fn selector_diags(v: YamlNode, field: Seq<char>, path: Seq<char>) -> Seq<DiagSpec> {
    match get_str(v, field) {
        Some((s, sp)) => match spec_parse(s) {
            Err(e) => seq![(sp, dot(path, field), e)],
            Ok(_) => Seq::empty(),
        },
        None => Seq::empty(),
    }
}

fn check_selector(v: &YamlNode, field: &str, path: &str, diags: &mut Vec<LintDiag>)
    ensures
        pushed(old(diags)@, final(diags)@, selector_diags(*v, field@, path@)),
{
    if let Some((s, sp)) = v.get_str(field) {
        if let Err(e) = SelectorPath::parse(s.as_str()) {
            push_diag(diags, sp, dot_exec(path, field).as_str(), e.to_string());
            return;
        }
    }
}

pub open spec fn declared_list(names: Seq<Seq<char>>) -> Seq<char> {
    join_seqs(sorted_distinct(names), ", "@)
}

/// A reference to an anchor must name a declared one.
pub open spec fn anchor_ref_diags(
    name: Seq<char>,
    span: Span,
    anchors: Seq<Seq<char>>,
    path: Seq<char>,
    field: Seq<char>,
) -> Seq<DiagSpec> {
    when(
        !anchors.contains(name),
        seq![(span, dot(path, field), "unknown anchor '"@ + name + "' (declared: "@ + declared_list(anchors) + ")"@)],
    )
}

fn check_anchor_ref(
    name: &str,
    span: Span,
    anchors: &Vec<String>,
    path: &str,
    field: &str,
    diags: &mut Vec<LintDiag>,
)
    ensures
        pushed(old(diags)@, final(diags)@, anchor_ref_diags(name@, span, strings_seqs(anchors@), path@, field@)),
{
    if !contains_name(anchors, &chars_of(name)) {
        let known = join_chars(&sorted_distinct_exec(anchors), &chars_of(", "));
        let mut msg = chars_of("unknown anchor '");
        append(&mut msg, &chars_of(name));
        append(&mut msg, &chars_of("' (declared: "));
        append(&mut msg, &known);
        append(&mut msg, &chars_of(")"));
        push_diag(diags, span, dot_exec(path, field).as_str(), string_of(&msg));
    }
}

/// A `scope` must name a declared anchor that is mounted at that point.
pub open spec fn scope_ref_diags(
    name: Seq<char>,
    span: Span,
    anchors: Seq<Seq<char>>,
    mounted: Seq<Seq<char>>,
    path: Seq<char>,
    field: Seq<char>,
) -> Seq<DiagSpec> {
    if !anchors.contains(name) {
        anchor_ref_diags(name, span, anchors, path, field)
    } else {
        when(
            !mounted.contains(name),
            seq![(span, dot(path, field), "anchor '"@ + name + "' is not mounted in this phase — add it to 'mount:'"@)],
        )
    }
}

fn check_scope_ref(
    name: &str,
    span: Span,
    anchors: &Vec<String>,
    mounted: &Vec<String>,
    path: &str,
    field: &str,
    diags: &mut Vec<LintDiag>,
)
    ensures
        pushed(
            old(diags)@,
            final(diags)@,
            scope_ref_diags(name@, span, strings_seqs(anchors@), strings_seqs(mounted@), path@, field@),
        ),
{
    let n = chars_of(name);
    if !contains_name(anchors, &n) {
        check_anchor_ref(name, span, anchors, path, field, diags);
    } else if !contains_name(mounted, &n) {
        let msg = quoted_msg("anchor '", name, "' is not mounted in this phase — add it to 'mount:'");
        push_diag(diags, span, dot_exec(path, field).as_str(), msg);
    }
}

/// The `scope` field: required, and a mounted anchor.
pub open spec fn scope_field_diags(
    v: YamlNode,
    path: Seq<char>,
    anchors: Seq<Seq<char>>,
    mounted: Seq<Seq<char>>,
) -> Seq<DiagSpec> {
    match get_str(v, "scope"@) {
        None => missing_field(v, path, "scope"@),
        Some((s, sp)) => scope_ref_diags(s, sp, anchors, mounted, path, "scope"@),
    }
}

fn check_scope_field(v: &YamlNode, path: &str, anchors: &Vec<String>, mounted: &Vec<String>, diags: &mut Vec<LintDiag>)
    ensures
        pushed(
            old(diags)@,
            final(diags)@,
            scope_field_diags(*v, path@, strings_seqs(anchors@), strings_seqs(mounted@)),
        ),
{
    match require_str(v, "scope", path, diags) {
        None => {},
        Some((s, sp)) => {
            let ghost d0 = diags@;
            check_scope_ref(s.as_str(), sp, anchors, mounted, path, "scope", diags);
            proof {
                lemma_pushed_trans(old(diags)@, d0, diags@, Seq::empty(), scope_ref_diags(s@, sp, strings_seqs(anchors@), strings_seqs(mounted@), path@, "scope"@));
                assert(Seq::<DiagSpec>::empty() + scope_ref_diags(s@, sp, strings_seqs(anchors@), strings_seqs(mounted@), path@, "scope"@)
                    =~= scope_ref_diags(s@, sp, strings_seqs(anchors@), strings_seqs(mounted@), path@, "scope"@));
            }
        },
    }
}

/// A required string field checked for interpolation tokens.
pub open spec fn interp_field_diags(v: YamlNode, field: Seq<char>, path: Seq<char>, params: Seq<Seq<char>>) -> Seq<
    DiagSpec,
> {
    match get_str(v, field) {
        None => missing_field(v, path, field),
        Some((s, sp)) => interpolation_diags(s, sp, dot(path, field), params),
    }
}

fn check_interp_field(v: &YamlNode, field: &str, path: &str, params: &Vec<String>, diags: &mut Vec<LintDiag>)
    ensures
        pushed(old(diags)@, final(diags)@, interp_field_diags(*v, field@, path@, strings_seqs(params@))),
{
    match v.get_str(field) {
        None => push_missing(diags, v, path, field),
        Some((s, sp)) => check_interpolation(s.as_str(), sp, dot_exec(path, field).as_str(), params, diags),
    }
}

/// How many of `fields` are present on `v`.
pub open spec fn present_count(v: YamlNode, fields: Seq<Seq<char>>) -> nat
    decreases fields.len(),
{
    if fields.len() == 0 {
        0
    } else {
        present_count(v, fields.drop_last()) + if map_get(v, fields.last()) is Some {
            1nat
        } else {
            0nat
        }
    }
}

pub open spec fn bool_of(n: YamlNode) -> Option<bool> {
    match n.value {
        YamlValue::Bool(b) => Some(b),
        _ => None,
    }
}

/// A text matcher sets exactly one pattern, or only `non_empty: true`.
pub open spec fn text_match_diags(v: YamlNode, path: Seq<char>) -> Seq<DiagSpec> {
    let n = present_count(v, seq!["exact"@, "contains"@, "starts_with"@, "regex"@]);
    if n == 0 {
        let non_empty = match map_get(v, "non_empty"@) {
            Some(c) => bool_of(c) == Some(true),
            None => false,
        };
        when(
            !non_empty,
            seq![(v.span, path, "TextMatch must specify at least one of: exact, contains, starts_with, regex, non_empty"@)],
        )
    } else if n >= 2 {
        seq![(v.span, path, "TextMatch must specify exactly one of: exact, contains, starts_with, regex"@)]
    } else {
        Seq::empty()
    }
}

fn present(v: &YamlNode, f: &str) -> (r: u64)
    ensures
        r == (if map_get(*v, f@) is Some {
            1u64
        } else {
            0u64
        }),
{
    if v.get(f).is_some() {
        1
    } else {
        0
    }
}

fn lint_text_match(v: &YamlNode, path: &str, diags: &mut Vec<LintDiag>)
    ensures
        pushed(old(diags)@, final(diags)@, text_match_diags(*v, path@)),
{
    let n = present(v, "exact") + present(v, "contains") + present(v, "starts_with") + present(v, "regex");
    proof {
        let fs = seq!["exact"@, "contains"@, "starts_with"@, "regex"@];
        assert(fs.drop_last().drop_last().drop_last().drop_last() =~= Seq::<Seq<char>>::empty());
        assert(fs.drop_last().drop_last().drop_last() =~= seq!["exact"@]);
        assert(fs.drop_last().drop_last() =~= seq!["exact"@, "contains"@]);
        assert(fs.drop_last() =~= seq!["exact"@, "contains"@, "starts_with"@]);
        reveal_with_fuel(present_count, 5);
        assert(n == present_count(*v, fs));
    }
    if n == 0 {
        let non_empty = match v.get("non_empty") {
            Some(c) => match &c.value {
                YamlValue::Bool(b) => *b,
                _ => false,
            },
            None => false,
        };
        if !non_empty {
            push_diag(
                diags,
                v.span,
                path,
                "TextMatch must specify at least one of: exact, contains, starts_with, regex, non_empty".to_owned(),
            );
        }
    } else if n >= 2 {
        push_diag(
            diags,
            v.span,
            path,
            "TextMatch must specify exactly one of: exact, contains, starts_with, regex".to_owned(),
        );
    }
}

/// A title matcher sets exactly one pattern.
pub open spec fn title_match_diags(v: YamlNode, path: Seq<char>) -> Seq<DiagSpec> {
    let n = present_count(v, seq!["exact"@, "contains"@, "starts_with"@]);
    if n == 0 {
        seq![(v.span, path, "TitleMatch must specify at least one of: exact, contains, starts_with"@)]
    } else if n >= 2 {
        seq![(v.span, path, "TitleMatch must specify exactly one of: exact, contains, starts_with"@)]
    } else {
        Seq::empty()
    }
}

fn lint_title_match(v: &YamlNode, path: &str, diags: &mut Vec<LintDiag>)
    ensures
        pushed(old(diags)@, final(diags)@, title_match_diags(*v, path@)),
{
    let n = present(v, "exact") + present(v, "contains") + present(v, "starts_with");
    proof {
        let fs = seq!["exact"@, "contains"@, "starts_with"@];
        assert(fs.drop_last().drop_last().drop_last() =~= Seq::<Seq<char>>::empty());
        assert(fs.drop_last().drop_last() =~= seq!["exact"@]);
        assert(fs.drop_last() =~= seq!["exact"@, "contains"@]);
        reveal_with_fuel(present_count, 4);
        assert(n == present_count(*v, fs));
    }
    if n == 0 {
        push_diag(diags, v.span, path, "TitleMatch must specify at least one of: exact, contains, starts_with".to_owned());
    } else if n >= 2 {
        push_diag(diags, v.span, path, "TitleMatch must specify exactly one of: exact, contains, starts_with".to_owned());
    }
}

/// An optional matcher field: checked when present.
pub open spec fn text_match_field_diags(v: YamlNode, field: Seq<char>, path: Seq<char>) -> Seq<DiagSpec> {
    match map_get(v, field) {
        Some(c) => text_match_diags(c, dot(path, field)),
        None => Seq::empty(),
    }
}

pub open spec fn title_match_field_diags(v: YamlNode, field: Seq<char>, path: Seq<char>) -> Seq<DiagSpec> {
    match map_get(v, field) {
        Some(c) => title_match_diags(c, dot(path, field)),
        None => Seq::empty(),
    }
}

fn check_text_match_field(v: &YamlNode, field: &str, path: &str, diags: &mut Vec<LintDiag>)
    ensures
        pushed(old(diags)@, final(diags)@, text_match_field_diags(*v, field@, path@)),
{
    if let Some(c) = v.get(field) {
        lint_text_match(c, dot_exec(path, field).as_str(), diags);
    }
}

fn check_title_match_field(v: &YamlNode, field: &str, path: &str, diags: &mut Vec<LintDiag>)
    ensures
        pushed(old(diags)@, final(diags)@, title_match_field_diags(*v, field@, path@)),
{
    if let Some(c) = v.get(field) {
        lint_title_match(c, dot_exec(path, field).as_str(), diags);
    }
}

/// `on_failure` is `abort` or `continue`.
pub open spec fn on_failure_diags(v: YamlNode, path: Seq<char>) -> Seq<DiagSpec> {
    match str_of(v) {
        Some(s) => when(
            !(s == "abort"@ || s == "continue"@),
            seq![(v.span, path, "unknown on_failure value '"@ + s + "' — expected 'abort' or 'continue'"@)],
        ),
        None => seq![(v.span, path, "on_failure must be 'abort' or 'continue'"@)],
    }
}

/// `on_success` is `continue` or `return_phase`.
pub open spec fn on_success_diags(v: YamlNode, path: Seq<char>) -> Seq<DiagSpec> {
    match str_of(v) {
        Some(s) => when(
            !(s == "continue"@ || s == "return_phase"@),
            seq![(v.span, path, "unknown on_success value '"@ + s + "' — expected 'continue' or 'return_phase'"@)],
        ),
        None => seq![(v.span, path, "on_success must be 'continue' or 'return_phase'"@)],
    }
}

fn is_word(s: &String, w: &str) -> (r: bool)
    ensures
        r == (s@ == w@),
{
    eq_chars(&chars_of(s.as_str()), &chars_of(w))
}

fn lint_on_failure(v: &YamlNode, path: &str, diags: &mut Vec<LintDiag>)
    ensures
        pushed(old(diags)@, final(diags)@, on_failure_diags(*v, path@)),
{
    match v.as_str() {
        Some(s) => {
            if !(is_word(s, "abort") || is_word(s, "continue")) {
                push_diag(diags, v.span, path, quoted_msg("unknown on_failure value '", s.as_str(), "' — expected 'abort' or 'continue'"));
            }
        },
        None => push_diag(diags, v.span, path, "on_failure must be 'abort' or 'continue'".to_owned()),
    }
}

fn lint_on_success(v: &YamlNode, path: &str, diags: &mut Vec<LintDiag>)
    ensures
        pushed(old(diags)@, final(diags)@, on_success_diags(*v, path@)),
{
    match v.as_str() {
        Some(s) => {
            if !(is_word(s, "continue") || is_word(s, "return_phase")) {
                push_diag(
                    diags,
                    v.span,
                    path,
                    quoted_msg("unknown on_success value '", s.as_str(), "' — expected 'continue' or 'return_phase'"),
                );
            }
        },
        None => push_diag(diags, v.span, path, "on_success must be 'continue' or 'return_phase'".to_owned()),
    }
}

/// An expression field: required, checked for interpolation and syntax.
pub open spec fn expr_field_diags(v: YamlNode, path: Seq<char>, params: Seq<Seq<char>>) -> Seq<DiagSpec> {
    match get_str(v, "expr"@) {
        None => missing_field(v, path, "expr"@),
        Some((s, sp)) => interpolation_diags(s, sp, dot(path, "expr"@), params) + match spec_parse_expr(s) {
            Err(e) => seq![(sp, dot(path, "expr"@), e)],
            Ok(_) => Seq::empty(),
        },
    }
}

fn check_expr_field(v: &YamlNode, path: &str, params: &Vec<String>, diags: &mut Vec<LintDiag>)
    ensures
        pushed(old(diags)@, final(diags)@, expr_field_diags(*v, path@, strings_seqs(params@))),
{
    match v.get_str("expr") {
        None => push_missing(diags, v, path, "expr"),
        Some((s, sp)) => {
            let p = dot_exec(path, "expr");
            let ghost d0 = diags@;
            check_interpolation(s.as_str(), sp, p.as_str(), params, diags);
            let ghost d1 = diags@;
            let ghost a = interpolation_diags(s@, sp, dot(path@, "expr"@), strings_seqs(params@));
            match check_expr_syntax(s.as_str()) {
                Err(e) => {
                    push_diag(diags, sp, p.as_str(), e);
                    proof {
                        lemma_pushed_trans(d0, d1, diags@, a, seq![(sp, dot(path@, "expr"@), e@)]);
                    }
                },
                Ok(_) => {
                    proof {
                        assert(a + Seq::<DiagSpec>::empty() =~= a);
                    }
                },
            }
        },
    }
}


// ── Actions ───────────────────────────────────────────────────────────────────

pub open spec fn is_scope_selector_action(t: Seq<char>) -> bool {
    t == "Click"@ || t == "DoubleClick"@ || t == "Hover"@ || t == "ScrollIntoView"@ || t == "ClickAt"@
        || t == "TypeText"@ || t == "PressKey"@ || t == "Focus"@ || t == "Invoke"@ || t == "SetValue"@
        || t == "SetToggle"@ || t == "Extract"@
}

pub open spec fn is_scope_only_action(t: Seq<char>) -> bool {
    t == "ActivateWindow"@ || t == "MinimizeWindow"@ || t == "CloseWindow"@ || t == "DismissDialog"@
}

pub open spec fn is_action_type(t: Seq<char>) -> bool {
    is_scope_selector_action(t) || is_scope_only_action(t) || t == "ClickForegroundButton"@ || t
        == "ClickForeground"@ || t == "NoOp"@ || t == "Sleep"@ || t == "WriteOutput"@ || t == "Exec"@
        || t == "Eval"@ || t == "MoveFile"@ || t == "BrowserNavigate"@ || t == "BrowserEval"@
}

fn scope_selector_action(t: &String) -> (r: bool)
    ensures
        r == is_scope_selector_action(t@),
{
    is_word(t, "Click") || is_word(t, "DoubleClick") || is_word(t, "Hover") || is_word(t, "ScrollIntoView")
        || is_word(t, "ClickAt") || is_word(t, "TypeText") || is_word(t, "PressKey") || is_word(t, "Focus")
        || is_word(t, "Invoke") || is_word(t, "SetValue") || is_word(t, "SetToggle") || is_word(t, "Extract")
}

fn scope_only_action(t: &String) -> (r: bool)
    ensures
        r == is_scope_only_action(t@),
{
    is_word(t, "ActivateWindow") || is_word(t, "MinimizeWindow") || is_word(t, "CloseWindow") || is_word(
        t,
        "DismissDialog",
    )
}

fn action_type(t: &String) -> (r: bool)
    ensures
        r == is_action_type(t@),
{
    scope_selector_action(t) || scope_only_action(t) || is_word(t, "ClickForegroundButton") || is_word(
        t,
        "ClickForeground",
    ) || is_word(t, "NoOp") || is_word(t, "Sleep") || is_word(t, "WriteOutput") || is_word(t, "Exec")
        || is_word(t, "Eval") || is_word(t, "MoveFile") || is_word(t, "BrowserNavigate") || is_word(
        t,
        "BrowserEval",
    )
}

pub open spec fn all_action_types() -> Seq<char> {
    "Click, DoubleClick, Hover, ScrollIntoView, ClickAt, TypeText, PressKey, Focus, Invoke, SetValue, SetToggle, ActivateWindow, MinimizeWindow, CloseWindow, DismissDialog, ClickForegroundButton, ClickForeground, NoOp, Sleep, WriteOutput, Extract, Exec, Eval, MoveFile, BrowserNavigate, BrowserEval"@
}

/// Each string argument of `Exec` is checked for interpolation tokens.
pub open spec fn args_item_diags(items: Seq<YamlNode>, path: Seq<char>, params: Seq<Seq<char>>, k: nat) -> Seq<DiagSpec>
    decreases k,
{
    if k == 0 || k > items.len() {
        Seq::empty()
    } else {
        args_item_diags(items, path, params, (k - 1) as nat) + match str_of(items[k - 1]) {
            Some(s) => interpolation_diags(s, items[k - 1].span, at_index(dot(path, "args"@), (k - 1) as nat), params),
            None => Seq::empty(),
        }
    }
}

pub open spec fn args_diags(v: YamlNode, path: Seq<char>, params: Seq<Seq<char>>) -> Seq<DiagSpec> {
    match map_get(v, "args"@) {
        Some(a) => match items_of(a) {
            Some(items) => args_item_diags(items, path, params, items.len()),
            None => Seq::empty(),
        },
        None => Seq::empty(),
    }
}

pub open spec fn click_kind_diags(v: YamlNode, path: Seq<char>) -> Seq<DiagSpec> {
    match get_str(v, "kind"@) {
        None => missing_field(v, path, "kind"@),
        Some((k, sp)) => when(
            !(k == "left"@ || k == "double"@ || k == "triple"@ || k == "right"@ || k == "middle"@),
            seq![(sp, dot(path, "kind"@), "unknown click kind '"@ + k + "' — expected 'left', 'double', 'triple', 'right', or 'middle'"@)],
        ),
    }
}

/// The click kinds accepted are exactly the five the message names: `kind`
/// draws no diagnostic when it is `left`, `double`, `triple`, `right` or
/// `middle`, and one naming all five otherwise.
pub proof fn law_click_kinds_accepted(v: YamlNode, path: Seq<char>, k: Seq<char>, sp: Span)
    requires
        get_str(v, "kind"@) == Some((k, sp)),
    ensures
        click_kind_diags(v, path).len() == 0 <==> (k == "middle"@ || k == "right"@ || k == "triple"@ || k
            == "double"@ || k == "left"@),
        click_kind_diags(v, path).len() != 0 ==> click_kind_diags(v, path) == seq![
            (
                sp,
                dot(path, "kind"@),
                "unknown click kind '"@ + k + "' — expected 'left', 'double', 'triple', 'right', or 'middle'"@,
            ),
        ],
{
}

pub open spec fn attribute_diags(v: YamlNode, path: Seq<char>) -> Seq<DiagSpec> {
    match get_str(v, "attribute"@) {
        Some((a, sp)) => when(
            !(a == "name"@ || a == "text"@ || a == "inner_text"@),
            seq![(sp, dot(path, "attribute"@), "unknown attribute '"@ + a + "' — expected 'name', 'text', or 'inner_text'"@)],
        ),
        None => Seq::empty(),
    }
}

pub open spec fn presence_diags(v: YamlNode, path: Seq<char>, field: Seq<char>) -> Seq<DiagSpec> {
    when(map_get(v, field) is None, missing_field(v, path, field))
}

/// The checks particular to each action type.
pub open spec fn action_kind_diags(
    v: YamlNode,
    t: Seq<char>,
    path: Seq<char>,
    anchors: Seq<Seq<char>>,
    mounted: Seq<Seq<char>>,
    params: Seq<Seq<char>>,
) -> Seq<DiagSpec> {
    if t == "TypeText"@ {
        interp_field_diags(v, "text"@, path, params)
    } else if t == "PressKey"@ {
        interp_field_diags(v, "key"@, path, params)
    } else if t == "SetValue"@ {
        interp_field_diags(v, "value"@, path, params)
    } else if t == "SetToggle"@ {
        presence_diags(v, path, "state"@)
    } else if t == "ClickForegroundButton"@ || t == "ClickForeground"@ {
        interp_field_diags(v, "name"@, path, params)
    } else if t == "Sleep"@ {
        presence_diags(v, path, "duration"@)
    } else if t == "WriteOutput"@ {
        require_str_diags(v, "key"@, path) + interp_field_diags(v, "path"@, path, params)
    } else if t == "Extract"@ {
        require_str_diags(v, "key"@, path) + attribute_diags(v, path)
    } else if t == "Eval"@ {
        require_str_diags(v, "key"@, path) + expr_field_diags(v, path, params)
    } else if t == "MoveFile"@ {
        interp_field_diags(v, "source"@, path, params) + interp_field_diags(v, "destination"@, path, params)
    } else if t == "Exec"@ {
        interp_field_diags(v, "command"@, path, params) + args_diags(v, path, params)
    } else if t == "ClickAt"@ {
        presence_diags(v, path, "x_pct"@) + presence_diags(v, path, "y_pct"@) + click_kind_diags(v, path)
    } else if t == "BrowserNavigate"@ {
        scope_field_diags(v, path, anchors, mounted) + interp_field_diags(v, "url"@, path, params)
    } else if t == "BrowserEval"@ {
        scope_field_diags(v, path, anchors, mounted) + interp_field_diags(v, "expr"@, path, params)
    } else {
        Seq::empty()
    }
}

/// The diagnostics of one action.
pub open spec fn action_diags(
    v: YamlNode,
    path: Seq<char>,
    anchors: Seq<Seq<char>>,
    mounted: Seq<Seq<char>>,
    params: Seq<Seq<char>>,
) -> Seq<DiagSpec> {
    match get_str(v, "type"@) {
        None => missing_field(v, path, "type"@),
        Some((t, tsp)) => if !is_action_type(t) {
            seq![(tsp, dot(path, "type"@), "unknown action type '"@ + t + "' — expected one of: "@ + all_action_types())]
                + selector_diags(v, "selector"@, path)
        } else {
            when(
                is_scope_selector_action(t),
                scope_field_diags(v, path, anchors, mounted) + require_str_diags(v, "selector"@, path)
                    + selector_diags(v, "selector"@, path),
            ) + when(is_scope_only_action(t), scope_field_diags(v, path, anchors, mounted))
                + action_kind_diags(v, t, path, anchors, mounted, params)
        },
    }
}

fn check_presence(v: &YamlNode, path: &str, field: &str, diags: &mut Vec<LintDiag>)
    ensures
        pushed(old(diags)@, final(diags)@, presence_diags(*v, path@, field@)),
{
    if v.get(field).is_none() {
        push_missing(diags, v, path, field);
    }
}

fn check_click_kind(v: &YamlNode, path: &str, diags: &mut Vec<LintDiag>)
    ensures
        pushed(old(diags)@, final(diags)@, click_kind_diags(*v, path@)),
{
    match v.get_str("kind") {
        None => push_missing(diags, v, path, "kind"),
        Some((k, sp)) => {
            if !(is_word(k, "left") || is_word(k, "double") || is_word(k, "triple") || is_word(k, "right")
                || is_word(k, "middle")) {
                push_diag(
                    diags,
                    sp,
                    dot_exec(path, "kind").as_str(),
                    quoted_msg("unknown click kind '", k.as_str(), "' — expected 'left', 'double', 'triple', 'right', or 'middle'"),
                );
            }
        },
    }
}

fn check_attribute(v: &YamlNode, path: &str, diags: &mut Vec<LintDiag>)
    ensures
        pushed(old(diags)@, final(diags)@, attribute_diags(*v, path@)),
{
    if let Some((a, sp)) = v.get_str("attribute") {
        if !(is_word(a, "name") || is_word(a, "text") || is_word(a, "inner_text")) {
            push_diag(
                diags,
                sp,
                dot_exec(path, "attribute").as_str(),
                quoted_msg("unknown attribute '", a.as_str(), "' — expected 'name', 'text', or 'inner_text'"),
            );
        }
    }
}

fn check_args(v: &YamlNode, path: &str, params: &Vec<String>, diags: &mut Vec<LintDiag>)
    ensures
        pushed(old(diags)@, final(diags)@, args_diags(*v, path@, strings_seqs(params@))),
{
    let ghost pv = strings_seqs(params@);
    match v.get("args") {
        Some(a) => match &a.value {
            YamlValue::List(items) => {
                let argp = dot_exec(path, "args");
                let ghost d0 = diags@;
                let mut i: usize = 0;
                while i < items.len()
                    invariant
                        i <= items@.len(),
                        pv == strings_seqs(params@),
                        argp@ == dot(path@, "args"@),
                        pushed(d0, diags@, args_item_diags(items@, path@, pv, i as nat)),
                    decreases items@.len() - i,
                {
                    let ghost d1 = diags@;
                    match items[i].as_str() {
                        Some(s) => {
                            let p = at_index_exec(argp.as_str(), i);
                            check_interpolation(s.as_str(), items[i].span, p.as_str(), params, diags);
                            proof {
                                lemma_pushed_trans(d0, d1, diags@, args_item_diags(items@, path@, pv, i as nat),
                                    interpolation_diags(s@, items@[i as int].span, at_index(dot(path@, "args"@), i as nat), pv));
                            }
                        },
                        None => {
                            proof {
                                assert(args_item_diags(items@, path@, pv, i as nat) + Seq::<DiagSpec>::empty()
                                    =~= args_item_diags(items@, path@, pv, i as nat));
                            }
                        },
                    }
                    i = i + 1;
                }
            },
            _ => {},
        },
        None => {},
    }
}

fn lint_action_kind(
    v: &YamlNode,
    t: &String,
    path: &str,
    anchors: &Vec<String>,
    mounted: &Vec<String>,
    params: &Vec<String>,
    diags: &mut Vec<LintDiag>,
)
    ensures
        pushed(
            old(diags)@,
            final(diags)@,
            action_kind_diags(*v, t@, path@, strings_seqs(anchors@), strings_seqs(mounted@), strings_seqs(params@)),
        ),
{
    let ghost d0 = diags@;
    let ghost av = strings_seqs(anchors@);
    let ghost mv = strings_seqs(mounted@);
    let ghost pv = strings_seqs(params@);
    if is_word(t, "TypeText") {
        check_interp_field(v, "text", path, params, diags);
    } else if is_word(t, "PressKey") {
        check_interp_field(v, "key", path, params, diags);
    } else if is_word(t, "SetValue") {
        check_interp_field(v, "value", path, params, diags);
    } else if is_word(t, "SetToggle") {
        check_presence(v, path, "state", diags);
    } else if is_word(t, "ClickForegroundButton") || is_word(t, "ClickForeground") {
        check_interp_field(v, "name", path, params, diags);
    } else if is_word(t, "Sleep") {
        check_presence(v, path, "duration", diags);
    } else if is_word(t, "WriteOutput") {
        require_str(v, "key", path, diags);
        let ghost d1 = diags@;
        check_interp_field(v, "path", path, params, diags);
        proof {
            lemma_pushed_trans(d0, d1, diags@, require_str_diags(*v, "key"@, path@), interp_field_diags(*v, "path"@, path@, pv));
        }
    } else if is_word(t, "Extract") {
        require_str(v, "key", path, diags);
        let ghost d1 = diags@;
        check_attribute(v, path, diags);
        proof {
            lemma_pushed_trans(d0, d1, diags@, require_str_diags(*v, "key"@, path@), attribute_diags(*v, path@));
        }
    } else if is_word(t, "Eval") {
        require_str(v, "key", path, diags);
        let ghost d1 = diags@;
        check_expr_field(v, path, params, diags);
        proof {
            lemma_pushed_trans(d0, d1, diags@, require_str_diags(*v, "key"@, path@), expr_field_diags(*v, path@, pv));
        }
    } else if is_word(t, "MoveFile") {
        check_interp_field(v, "source", path, params, diags);
        let ghost d1 = diags@;
        check_interp_field(v, "destination", path, params, diags);
        proof {
            lemma_pushed_trans(d0, d1, diags@, interp_field_diags(*v, "source"@, path@, pv), interp_field_diags(*v, "destination"@, path@, pv));
        }
    } else if is_word(t, "Exec") {
        check_interp_field(v, "command", path, params, diags);
        let ghost d1 = diags@;
        check_args(v, path, params, diags);
        proof {
            lemma_pushed_trans(d0, d1, diags@, interp_field_diags(*v, "command"@, path@, pv), args_diags(*v, path@, pv));
        }
    } else if is_word(t, "ClickAt") {
        check_presence(v, path, "x_pct", diags);
        let ghost d1 = diags@;
        check_presence(v, path, "y_pct", diags);
        let ghost d2 = diags@;
        check_click_kind(v, path, diags);
        proof {
            lemma_pushed_trans(d0, d1, d2, presence_diags(*v, path@, "x_pct"@), presence_diags(*v, path@, "y_pct"@));
            lemma_pushed_trans(d0, d2, diags@, presence_diags(*v, path@, "x_pct"@) + presence_diags(*v, path@, "y_pct"@), click_kind_diags(*v, path@));
        }
    } else if is_word(t, "BrowserNavigate") {
        check_scope_field(v, path, anchors, mounted, diags);
        let ghost d1 = diags@;
        check_interp_field(v, "url", path, params, diags);
        proof {
            lemma_pushed_trans(d0, d1, diags@, scope_field_diags(*v, path@, av, mv), interp_field_diags(*v, "url"@, path@, pv));
        }
    } else if is_word(t, "BrowserEval") {
        check_scope_field(v, path, anchors, mounted, diags);
        let ghost d1 = diags@;
        check_interp_field(v, "expr", path, params, diags);
        proof {
            lemma_pushed_trans(d0, d1, diags@, scope_field_diags(*v, path@, av, mv), interp_field_diags(*v, "expr"@, path@, pv));
        }
    }
}

/// Checks one action.
fn lint_action(
    v: &YamlNode,
    path: &str,
    anchors: &Vec<String>,
    mounted: &Vec<String>,
    params: &Vec<String>,
    diags: &mut Vec<LintDiag>,
)
    ensures
        pushed(
            old(diags)@,
            final(diags)@,
            action_diags(*v, path@, strings_seqs(anchors@), strings_seqs(mounted@), strings_seqs(params@)),
        ),
{
    let ghost d0 = diags@;
    let ghost av = strings_seqs(anchors@);
    let ghost mv = strings_seqs(mounted@);
    let ghost pv = strings_seqs(params@);
    let (t, tsp) = match v.get_str("type") {
        None => {
            push_missing(diags, v, path, "type");
            return;
        },
        Some(x) => x,
    };
    if !action_type(t) {
        let mut msg = chars_of("unknown action type '");
        append(&mut msg, &chars_of(t.as_str()));
        append(&mut msg, &chars_of("' — expected one of: "));
        append(&mut msg, &chars_of("Click, DoubleClick, Hover, ScrollIntoView, ClickAt, TypeText, PressKey, Focus, Invoke, SetValue, SetToggle, ActivateWindow, MinimizeWindow, CloseWindow, DismissDialog, ClickForegroundButton, ClickForeground, NoOp, Sleep, WriteOutput, Extract, Exec, Eval, MoveFile, BrowserNavigate, BrowserEval"));
        push_diag(diags, tsp, dot_exec(path, "type").as_str(), string_of(&msg));
        let ghost d1 = diags@;
        check_selector(v, "selector", path, diags);
        proof {
            lemma_pushed_trans(d0, d1, diags@, seq![(tsp, dot(path@, "type"@), msg@)], selector_diags(*v, "selector"@, path@));
        }
        return;
    }
    let ghost a: Seq<DiagSpec>;
    if scope_selector_action(t) {
        check_scope_field(v, path, anchors, mounted, diags);
        let ghost d1 = diags@;
        require_str(v, "selector", path, diags);
        let ghost d2 = diags@;
        check_selector(v, "selector", path, diags);
        proof {
            lemma_pushed_trans(d0, d1, d2, scope_field_diags(*v, path@, av, mv), require_str_diags(*v, "selector"@, path@));
            lemma_pushed_trans(d0, d2, diags@, scope_field_diags(*v, path@, av, mv) + require_str_diags(*v, "selector"@, path@), selector_diags(*v, "selector"@, path@));
            a = scope_field_diags(*v, path@, av, mv) + require_str_diags(*v, "selector"@, path@) + selector_diags(*v, "selector"@, path@);
        }
    } else {
        proof {
            a = Seq::empty();
        }
    }
    let ghost d3 = diags@;
    let ghost b: Seq<DiagSpec>;
    if scope_only_action(t) {
        check_scope_field(v, path, anchors, mounted, diags);
        proof {
            b = scope_field_diags(*v, path@, av, mv);
        }
    } else {
        proof {
            b = Seq::empty();
        }
    }
    let ghost d4 = diags@;
    lint_action_kind(v, t, path, anchors, mounted, params, diags);
    proof {
        lemma_pushed_trans(d0, d3, d4, a, b);
        lemma_pushed_trans(d0, d4, diags@, a + b, action_kind_diags(*v, t@, path@, av, mv, pv));
    }
}


// ── Conditions ────────────────────────────────────────────────────────────────

pub open spec fn is_element_condition(t: Seq<char>) -> bool {
    t == "ElementFound"@ || t == "ElementEnabled"@ || t == "ElementVisible"@ || t == "ElementHasChildren"@
        || t == "ElementChecked"@
}

pub open spec fn is_condition_type(t: Seq<char>) -> bool {
    is_element_condition(t) || t == "ElementHasText"@ || t == "WindowWithAttribute"@ || t
        == "ProcessRunning"@ || t == "WindowClosed"@ || t == "WindowWithState"@ || t == "DialogPresent"@
        || t == "DialogAbsent"@ || t == "ForegroundIsDialog"@ || t == "FileExists"@ || t == "Always"@ || t
        == "AllOf"@ || t == "AnyOf"@ || t == "Not"@ || t == "EvalCondition"@ || t == "ExecSucceeded"@ || t
        == "TabWithAttribute"@ || t == "TabWithState"@
}

fn element_condition(t: &String) -> (r: bool)
    ensures
        r == is_element_condition(t@),
{
    is_word(t, "ElementFound") || is_word(t, "ElementEnabled") || is_word(t, "ElementVisible") || is_word(
        t,
        "ElementHasChildren",
    ) || is_word(t, "ElementChecked")
}

fn condition_type(t: &String) -> (r: bool)
    ensures
        r == is_condition_type(t@),
{
    element_condition(t) || is_word(t, "ElementHasText") || is_word(t, "WindowWithAttribute") || is_word(
        t,
        "ProcessRunning",
    ) || is_word(t, "WindowClosed") || is_word(t, "WindowWithState") || is_word(t, "DialogPresent")
        || is_word(t, "DialogAbsent") || is_word(t, "ForegroundIsDialog") || is_word(t, "FileExists")
        || is_word(t, "Always") || is_word(t, "AllOf") || is_word(t, "AnyOf") || is_word(t, "Not")
        || is_word(t, "EvalCondition") || is_word(t, "ExecSucceeded") || is_word(t, "TabWithAttribute")
        || is_word(t, "TabWithState")
}

pub open spec fn all_condition_types() -> Seq<char> {
    "ElementFound, ElementEnabled, ElementVisible, ElementHasText, ElementHasChildren, ElementChecked, WindowWithAttribute, ProcessRunning, WindowClosed, WindowWithState, DialogPresent, DialogAbsent, ForegroundIsDialog, FileExists, Always, AllOf, AnyOf, Not, EvalCondition, ExecSucceeded, TabWithAttribute, TabWithState"@
}

/// An `anchor` field: required, and a declared anchor (mounted or not).
pub open spec fn anchor_field_diags(v: YamlNode, path: Seq<char>, anchors: Seq<Seq<char>>) -> Seq<DiagSpec> {
    match get_str(v, "anchor"@) {
        None => missing_field(v, path, "anchor"@),
        Some((a, sp)) => anchor_ref_diags(a, sp, anchors, path, "anchor"@),
    }
}

pub open spec fn window_state_diags(v: YamlNode, path: Seq<char>) -> Seq<DiagSpec> {
    match get_str(v, "state"@) {
        None => missing_field(v, path, "state"@),
        Some((st, sp)) => when(
            !(st == "active"@ || st == "visible"@),
            seq![(sp, dot(path, "state"@), "unknown state '"@ + st + "' — expected 'active' or 'visible'"@)],
        ),
    }
}

/// The diagnostics of one condition; `AllOf`, `AnyOf` and `Not` recurse.
pub open spec fn condition_diags(
    v: YamlNode,
    path: Seq<char>,
    anchors: Seq<Seq<char>>,
    mounted: Seq<Seq<char>>,
    params: Seq<Seq<char>>,
) -> Seq<DiagSpec>
    decreases v, 0nat,
{
    match get_str(v, "type"@) {
        None => missing_field(v, path, "type"@),
        Some((t, tsp)) => if !is_condition_type(t) {
            seq![(tsp, dot(path, "type"@), "unknown condition type '"@ + t + "' — expected one of: "@ + all_condition_types())]
        } else if is_element_condition(t) {
            scope_field_diags(v, path, anchors, mounted) + require_str_diags(v, "selector"@, path)
                + selector_diags(v, "selector"@, path)
        } else if t == "ElementHasText"@ {
            scope_field_diags(v, path, anchors, mounted) + require_str_diags(v, "selector"@, path)
                + selector_diags(v, "selector"@, path) + match map_get(v, "pattern"@) {
                None => missing_field(v, path, "pattern"@),
                Some(p) => text_match_diags(p, dot(path, "pattern"@)),
            }
        } else if t == "WindowWithAttribute"@ {
            when(
                map_get(v, "title"@) is None && map_get(v, "automation_id"@) is None && map_get(v, "pid"@) is None,
                seq![(v.span, path, "WindowWithAttribute requires at least one of: title, automation_id, pid"@)],
            ) + title_match_field_diags(v, "title"@, path)
        } else if t == "ProcessRunning"@ {
            require_str_diags(v, "process"@, path)
        } else if t == "WindowClosed"@ {
            anchor_field_diags(v, path, anchors)
        } else if t == "WindowWithState"@ {
            anchor_field_diags(v, path, anchors) + window_state_diags(v, path)
        } else if t == "DialogPresent"@ || t == "DialogAbsent"@ {
            scope_field_diags(v, path, anchors, mounted)
        } else if t == "ForegroundIsDialog"@ {
            title_match_field_diags(v, "title"@, path)
        } else if t == "FileExists"@ {
            interp_field_diags(v, "path"@, path, params)
        } else if t == "AllOf"@ || t == "AnyOf"@ {
            match map_get(v, "conditions"@) {
                Some(c) if c.value is List => {
                    proof {
                        lemma_map_get_smaller(v, "conditions"@);
                    }
                    conditions_diags(c, dot(path, "conditions"@), anchors, mounted, params, c.value->List_0@.len())
                },
                _ => missing_field(v, path, "conditions"@),
            }
        } else if t == "Not"@ {
            match map_get(v, "condition"@) {
                None => missing_field(v, path, "condition"@),
                Some(c) => {
                    proof {
                        lemma_map_get_smaller(v, "condition"@);
                    }
                    condition_diags(c, dot(path, "condition"@), anchors, mounted, params)
                },
            }
        } else if t == "TabWithAttribute"@ {
            scope_field_diags(v, path, anchors, mounted) + when(
                map_get(v, "title"@) is None && map_get(v, "url"@) is None,
                seq![(v.span, path, "TabWithAttribute requires at least one of: title, url"@)],
            ) + text_match_field_diags(v, "title"@, path) + text_match_field_diags(v, "url"@, path)
        } else if t == "TabWithState"@ {
            scope_field_diags(v, path, anchors, mounted) + require_str_diags(v, "expr"@, path)
        } else if t == "EvalCondition"@ {
            expr_field_diags(v, path, params)
        } else {
            Seq::empty()
        },
    }
}

/// The diagnostics of the first `k` items of a condition list.
pub open spec fn conditions_diags(
    list: YamlNode,
    path: Seq<char>,
    anchors: Seq<Seq<char>>,
    mounted: Seq<Seq<char>>,
    params: Seq<Seq<char>>,
    k: nat,
) -> Seq<DiagSpec>
    decreases list, k,
{
    if list.value is List && k <= list.value->List_0@.len() && k > 0 {
        proof {
            lemma_item_smaller(list, k - 1);
        }
        conditions_diags(list, path, anchors, mounted, params, (k - 1) as nat) + condition_diags(
            list.value->List_0@[k - 1],
            at_index(path, (k - 1) as nat),
            anchors,
            mounted,
            params,
        )
    } else {
        Seq::empty()
    }
}

fn check_anchor_field(v: &YamlNode, path: &str, anchors: &Vec<String>, diags: &mut Vec<LintDiag>)
    ensures
        pushed(old(diags)@, final(diags)@, anchor_field_diags(*v, path@, strings_seqs(anchors@))),
{
    match v.get_str("anchor") {
        None => push_missing(diags, v, path, "anchor"),
        Some((a, sp)) => check_anchor_ref(a.as_str(), sp, anchors, path, "anchor", diags),
    }
}

fn check_window_state(v: &YamlNode, path: &str, diags: &mut Vec<LintDiag>)
    ensures
        pushed(old(diags)@, final(diags)@, window_state_diags(*v, path@)),
{
    match v.get_str("state") {
        None => push_missing(diags, v, path, "state"),
        Some((st, sp)) => {
            if !(is_word(st, "active") || is_word(st, "visible")) {
                push_diag(
                    diags,
                    sp,
                    dot_exec(path, "state").as_str(),
                    quoted_msg("unknown state '", st.as_str(), "' — expected 'active' or 'visible'"),
                );
            }
        },
    }
}

/// Checks one condition, recursing into `AllOf`, `AnyOf` and `Not`.
fn lint_condition(
    v: &YamlNode,
    path: &str,
    anchors: &Vec<String>,
    mounted: &Vec<String>,
    params: &Vec<String>,
    diags: &mut Vec<LintDiag>,
)
    ensures
        pushed(
            old(diags)@,
            final(diags)@,
            condition_diags(*v, path@, strings_seqs(anchors@), strings_seqs(mounted@), strings_seqs(params@)),
        ),
    decreases *v,
{
    let ghost d0 = diags@;
    let ghost av = strings_seqs(anchors@);
    let ghost mv = strings_seqs(mounted@);
    let ghost pv = strings_seqs(params@);
    let (t, tsp) = match v.get_str("type") {
        None => {
            push_missing(diags, v, path, "type");
            return;
        },
        Some(x) => x,
    };
    if !condition_type(t) {
        let mut msg = chars_of("unknown condition type '");
        append(&mut msg, &chars_of(t.as_str()));
        append(&mut msg, &chars_of("' — expected one of: "));
        append(&mut msg, &chars_of("ElementFound, ElementEnabled, ElementVisible, ElementHasText, ElementHasChildren, ElementChecked, WindowWithAttribute, ProcessRunning, WindowClosed, WindowWithState, DialogPresent, DialogAbsent, ForegroundIsDialog, FileExists, Always, AllOf, AnyOf, Not, EvalCondition, ExecSucceeded, TabWithAttribute, TabWithState"));
        push_diag(diags, tsp, dot_exec(path, "type").as_str(), string_of(&msg));
        return;
    }
    if element_condition(t) || is_word(t, "ElementHasText") {
        check_scope_field(v, path, anchors, mounted, diags);
        let ghost d1 = diags@;
        require_str(v, "selector", path, diags);
        let ghost d2 = diags@;
        check_selector(v, "selector", path, diags);
        let ghost d3 = diags@;
        proof {
            lemma_pushed_trans(d0, d1, d2, scope_field_diags(*v, path@, av, mv), require_str_diags(*v, "selector"@, path@));
            lemma_pushed_trans(d0, d2, d3, scope_field_diags(*v, path@, av, mv) + require_str_diags(*v, "selector"@, path@), selector_diags(*v, "selector"@, path@));
        }
        if !element_condition(t) {
            let ghost base = scope_field_diags(*v, path@, av, mv) + require_str_diags(*v, "selector"@, path@) + selector_diags(*v, "selector"@, path@);
            match v.get("pattern") {
                None => {
                    push_missing(diags, v, path, "pattern");
                    proof {
                        lemma_pushed_trans(d0, d3, diags@, base, missing_field(*v, path@, "pattern"@));
                    }
                },
                Some(p) => {
                    lint_text_match(p, dot_exec(path, "pattern").as_str(), diags);
                    proof {
                        lemma_pushed_trans(d0, d3, diags@, base, text_match_diags(*p, dot(path@, "pattern"@)));
                    }
                },
            }
        }
    } else if is_word(t, "WindowWithAttribute") {
        if v.get("title").is_none() && v.get("automation_id").is_none() && v.get("pid").is_none() {
            push_diag(diags, v.span, path, "WindowWithAttribute requires at least one of: title, automation_id, pid".to_owned());
        }
        let ghost d1 = diags@;
        let ghost a = when(
            map_get(*v, "title"@) is None && map_get(*v, "automation_id"@) is None && map_get(*v, "pid"@) is None,
            seq![(v.span, path@, "WindowWithAttribute requires at least one of: title, automation_id, pid"@)],
        );
        check_title_match_field(v, "title", path, diags);
        proof {
            lemma_pushed_trans(d0, d1, diags@, a, title_match_field_diags(*v, "title"@, path@));
        }
    } else if is_word(t, "ProcessRunning") {
        require_str(v, "process", path, diags);
    } else if is_word(t, "WindowClosed") {
        check_anchor_field(v, path, anchors, diags);
    } else if is_word(t, "WindowWithState") {
        check_anchor_field(v, path, anchors, diags);
        let ghost d1 = diags@;
        check_window_state(v, path, diags);
        proof {
            lemma_pushed_trans(d0, d1, diags@, anchor_field_diags(*v, path@, av), window_state_diags(*v, path@));
        }
    } else if is_word(t, "DialogPresent") || is_word(t, "DialogAbsent") {
        check_scope_field(v, path, anchors, mounted, diags);
    } else if is_word(t, "ForegroundIsDialog") {
        check_title_match_field(v, "title", path, diags);
    } else if is_word(t, "FileExists") {
        check_interp_field(v, "path", path, params, diags);
    } else if is_word(t, "AllOf") || is_word(t, "AnyOf") {
        let list = v.get("conditions");
        let is_list = match list {
            Some(c) => c.value.is_list(),
            None => false,
        };
        if !is_list {
            push_missing(diags, v, path, "conditions");
        } else {
            let c = list.unwrap();
            proof {
                lemma_map_get_smaller(*v, "conditions"@);
            }
            match &c.value {
                YamlValue::List(items) => {
                    let cpath = dot_exec(path, "conditions");
                    let mut i: usize = 0;
                    while i < items.len()
                        invariant
                            i <= items@.len(),
                            c.value == YamlValue::List(*items),
                            decreases_to!(*v => *c),
                            av == strings_seqs(anchors@),
                            mv == strings_seqs(mounted@),
                            pv == strings_seqs(params@),
                            cpath@ == dot(path@, "conditions"@),
                            pushed(d0, diags@, conditions_diags(*c, cpath@, av, mv, pv, i as nat)),
                        decreases items@.len() - i,
                    {
                        let ghost d1 = diags@;
                        proof {
                            lemma_item_smaller(*c, i as int);
                        }
                        let p = at_index_exec(cpath.as_str(), i);
                        lint_condition(&items[i], p.as_str(), anchors, mounted, params, diags);
                        proof {
                            lemma_pushed_trans(d0, d1, diags@, conditions_diags(*c, cpath@, av, mv, pv, i as nat),
                                condition_diags(items@[i as int], at_index(cpath@, i as nat), av, mv, pv));
                        }
                        i = i + 1;
                    }
                },
                _ => {},
            }
        }
    } else if is_word(t, "Not") {
        match v.get("condition") {
            None => push_missing(diags, v, path, "condition"),
            Some(c) => {
                proof {
                    lemma_map_get_smaller(*v, "condition"@);
                }
                lint_condition(c, dot_exec(path, "condition").as_str(), anchors, mounted, params, diags);
            },
        }
    } else if is_word(t, "TabWithAttribute") {
        check_scope_field(v, path, anchors, mounted, diags);
        let ghost d1 = diags@;
        if v.get("title").is_none() && v.get("url").is_none() {
            push_diag(diags, v.span, path, "TabWithAttribute requires at least one of: title, url".to_owned());
        }
        let ghost d2 = diags@;
        let ghost a = scope_field_diags(*v, path@, av, mv);
        let ghost b = when(
            map_get(*v, "title"@) is None && map_get(*v, "url"@) is None,
            seq![(v.span, path@, "TabWithAttribute requires at least one of: title, url"@)],
        );
        check_text_match_field(v, "title", path, diags);
        let ghost d3 = diags@;
        check_text_match_field(v, "url", path, diags);
        proof {
            lemma_pushed_trans(d0, d1, d2, a, b);
            lemma_pushed_trans(d0, d2, d3, a + b, text_match_field_diags(*v, "title"@, path@));
            lemma_pushed_trans(d0, d3, diags@, a + b + text_match_field_diags(*v, "title"@, path@), text_match_field_diags(*v, "url"@, path@));
        }
    } else if is_word(t, "TabWithState") {
        check_scope_field(v, path, anchors, mounted, diags);
        let ghost d1 = diags@;
        require_str(v, "expr", path, diags);
        proof {
            lemma_pushed_trans(d0, d1, diags@, scope_field_diags(*v, path@, av, mv), require_str_diags(*v, "expr"@, path@));
        }
    } else if is_word(t, "EvalCondition") {
        check_expr_field(v, path, params, diags);
    }
}


// ── Steps ─────────────────────────────────────────────────────────────────────

pub open spec fn opt_child_diags(c: Option<YamlNode>, d: spec_fn(YamlNode) -> Seq<DiagSpec>) -> Seq<DiagSpec> {
    match c {
        Some(n) => d(n),
        None => Seq::empty(),
    }
}

/// The diagnostics of one step.
pub open spec fn step_diags(
    v: YamlNode,
    path: Seq<char>,
    anchors: Seq<Seq<char>>,
    mounted: Seq<Seq<char>>,
    params: Seq<Seq<char>>,
) -> Seq<DiagSpec> {
    presence_diags(v, path, "intent"@) + match map_get(v, "precondition"@) {
        Some(p) => condition_diags(p, dot(path, "precondition"@), anchors, mounted, params),
        None => Seq::empty(),
    } + match map_get(v, "action"@) {
        None => missing_field(v, path, "action"@),
        Some(a) => action_diags(a, dot(path, "action"@), anchors, mounted, params),
    } + match map_get(v, "expect"@) {
        None => missing_field(v, path, "expect"@),
        Some(e) => condition_diags(e, dot(path, "expect"@), anchors, mounted, params),
    } + match map_get(v, "fallback"@) {
        Some(f) => action_diags(f, dot(path, "fallback"@), anchors, mounted, params),
        None => Seq::empty(),
    } + match map_get(v, "on_failure"@) {
        Some(f) => on_failure_diags(f, dot(path, "on_failure"@)),
        None => Seq::empty(),
    } + match map_get(v, "on_success"@) {
        Some(f) => on_success_diags(f, dot(path, "on_success"@)),
        None => Seq::empty(),
    }
}

proof fn lemma_push_empty(a: Seq<LintDiag>, b: Seq<LintDiag>, s: Seq<DiagSpec>)
    requires
        pushed(a, b, s),
    ensures
        pushed(a, b, s + Seq::<DiagSpec>::empty()),
{
    assert(s + Seq::<DiagSpec>::empty() =~= s);
}

fn lint_step(
    v: &YamlNode,
    path: &str,
    anchors: &Vec<String>,
    mounted: &Vec<String>,
    params: &Vec<String>,
    diags: &mut Vec<LintDiag>,
)
    ensures
        pushed(
            old(diags)@,
            final(diags)@,
            step_diags(*v, path@, strings_seqs(anchors@), strings_seqs(mounted@), strings_seqs(params@)),
        ),
{
    let ghost d0 = diags@;
    let ghost av = strings_seqs(anchors@);
    let ghost mv = strings_seqs(mounted@);
    let ghost pv = strings_seqs(params@);
    check_presence(v, path, "intent", diags);
    let ghost a = presence_diags(*v, path@, "intent"@);
    let ghost d1 = diags@;
    let ghost b = match map_get(*v, "precondition"@) {
        Some(p) => condition_diags(p, dot(path@, "precondition"@), av, mv, pv),
        None => Seq::empty(),
    };
    match v.get("precondition") {
        Some(p) => lint_condition(p, dot_exec(path, "precondition").as_str(), anchors, mounted, params, diags),
        None => {},
    }
    proof {
        lemma_pushed_trans(d0, d1, diags@, a, b);
    }
    let ghost d2 = diags@;
    let ghost c = match map_get(*v, "action"@) {
        None => missing_field(*v, path@, "action"@),
        Some(x) => action_diags(x, dot(path@, "action"@), av, mv, pv),
    };
    match v.get("action") {
        None => push_missing(diags, v, path, "action"),
        Some(x) => lint_action(x, dot_exec(path, "action").as_str(), anchors, mounted, params, diags),
    }
    proof {
        lemma_pushed_trans(d0, d2, diags@, a + b, c);
    }
    let ghost d3 = diags@;
    let ghost e = match map_get(*v, "expect"@) {
        None => missing_field(*v, path@, "expect"@),
        Some(x) => condition_diags(x, dot(path@, "expect"@), av, mv, pv),
    };
    match v.get("expect") {
        None => push_missing(diags, v, path, "expect"),
        Some(x) => lint_condition(x, dot_exec(path, "expect").as_str(), anchors, mounted, params, diags),
    }
    proof {
        lemma_pushed_trans(d0, d3, diags@, a + b + c, e);
    }
    let ghost d4 = diags@;
    let ghost f = match map_get(*v, "fallback"@) {
        Some(x) => action_diags(x, dot(path@, "fallback"@), av, mv, pv),
        None => Seq::empty(),
    };
    match v.get("fallback") {
        Some(x) => lint_action(x, dot_exec(path, "fallback").as_str(), anchors, mounted, params, diags),
        None => {},
    }
    proof {
        lemma_pushed_trans(d0, d4, diags@, a + b + c + e, f);
    }
    let ghost d5 = diags@;
    let ghost g = match map_get(*v, "on_failure"@) {
        Some(x) => on_failure_diags(x, dot(path@, "on_failure"@)),
        None => Seq::empty(),
    };
    match v.get("on_failure") {
        Some(x) => lint_on_failure(x, dot_exec(path, "on_failure").as_str(), diags),
        None => {},
    }
    proof {
        lemma_pushed_trans(d0, d5, diags@, a + b + c + e + f, g);
    }
    let ghost d6 = diags@;
    let ghost h = match map_get(*v, "on_success"@) {
        Some(x) => on_success_diags(x, dot(path@, "on_success"@)),
        None => Seq::empty(),
    };
    match v.get("on_success") {
        Some(x) => lint_on_success(x, dot_exec(path, "on_success").as_str(), diags),
        None => {},
    }
    proof {
        lemma_pushed_trans(d0, d6, diags@, a + b + c + e + f + g, h);
    }
}

// ── Phases ────────────────────────────────────────────────────────────────────

/// Each string of a `mount`/`unmount` list must name a declared anchor.
pub open spec fn anchor_list_item_diags(items: Seq<YamlNode>, path: Seq<char>, field: Seq<char>, anchors: Seq<Seq<char>>, k: nat) -> Seq<
    DiagSpec,
>
    decreases k,
{
    if k == 0 || k > items.len() {
        Seq::empty()
    } else {
        anchor_list_item_diags(items, path, field, anchors, (k - 1) as nat) + match str_of(items[k - 1]) {
            Some(s) => anchor_ref_diags(s, items[k - 1].span, anchors, path, at_index(field, (k - 1) as nat)),
            None => Seq::empty(),
        }
    }
}

pub open spec fn anchor_list_diags(v: YamlNode, path: Seq<char>, field: Seq<char>, anchors: Seq<Seq<char>>) -> Seq<DiagSpec> {
    match map_get(v, field) {
        Some(l) => match items_of(l) {
            Some(items) => anchor_list_item_diags(items, path, field, anchors, items.len()),
            None => Seq::empty(),
        },
        None => Seq::empty(),
    }
}

pub open spec fn handler_list_text(handlers: Seq<Seq<char>>) -> Seq<char> {
    if handlers.len() == 0 {
        "none"@
    } else {
        declared_list(handlers)
    }
}

/// Each handler a phase enables must be declared.
pub open spec fn handler_item_diags(items: Seq<YamlNode>, path: Seq<char>, handlers: Seq<Seq<char>>, k: nat) -> Seq<DiagSpec>
    decreases k,
{
    if k == 0 || k > items.len() {
        Seq::empty()
    } else {
        handler_item_diags(items, path, handlers, (k - 1) as nat) + match str_of(items[k - 1]) {
            Some(s) => when(
                !handlers.contains(s),
                seq![(items[k - 1].span, at_index(dot(dot(path, "recovery"@), "handlers"@), (k - 1) as nat),
                    "unknown recovery handler '"@ + s + "' (declared: "@ + handler_list_text(handlers) + ")"@)],
            ),
            None => Seq::empty(),
        }
    }
}

pub open spec fn handler_ref_diags(v: YamlNode, path: Seq<char>, handlers: Seq<Seq<char>>) -> Seq<DiagSpec> {
    match map_get(v, "recovery"@) {
        Some(r) => match map_get(r, "handlers"@) {
            Some(h) => match items_of(h) {
                Some(items) => handler_item_diags(items, path, handlers, items.len()),
                None => Seq::empty(),
            },
            None => Seq::empty(),
        },
        None => Seq::empty(),
    }
}

pub open spec fn step_item_diags(
    items: Seq<YamlNode>,
    path: Seq<char>,
    anchors: Seq<Seq<char>>,
    mounted: Seq<Seq<char>>,
    params: Seq<Seq<char>>,
    k: nat,
) -> Seq<DiagSpec>
    decreases k,
{
    if k == 0 || k > items.len() {
        Seq::empty()
    } else {
        step_item_diags(items, path, anchors, mounted, params, (k - 1) as nat) + step_diags(
            items[k - 1],
            at_index(dot(path, "steps"@), (k - 1) as nat),
            anchors,
            mounted,
            params,
        )
    }
}

/// A phase with steps.
pub open spec fn action_phase_diags(
    v: YamlNode,
    path: Seq<char>,
    anchors: Seq<Seq<char>>,
    mounted: Seq<Seq<char>>,
    params: Seq<Seq<char>>,
    handlers: Seq<Seq<char>>,
) -> Seq<DiagSpec> {
    anchor_list_diags(v, path, "mount"@, anchors) + anchor_list_diags(v, path, "unmount"@, anchors)
        + handler_ref_diags(v, path, handlers) + match map_get(v, "steps"@) {
        Some(l) if l.value is List => step_item_diags(l.value->List_0@, path, anchors, mounted, params, l.value->List_0@.len()),
        _ => missing_field(v, path, "steps"@),
    }
}

pub open spec fn go_to_diags(fc: YamlNode, fcp: Seq<char>, phase_names: Seq<Seq<char>>) -> Seq<DiagSpec> {
    match get_str(fc, "go_to"@) {
        Some((g, sp)) => when(!phase_names.contains(g), seq![(sp, dot(fcp, "go_to"@), "unknown phase '"@ + g + "'"@)]),
        None => seq![(fc.span, fcp, "missing required field 'go_to'"@)],
    }
}

/// A flow-control phase: its `go_to` must name a phase, its condition must
/// be there, and it has no steps.
pub open spec fn flow_control_phase_diags(v: YamlNode, path: Seq<char>, phase_names: Seq<Seq<char>>) -> Seq<DiagSpec> {
    let fcp = dot(path, "flow_control"@);
    (match map_get(v, "flow_control"@) {
        Some(fc) => go_to_diags(fc, fcp, phase_names) + when(
            map_get(fc, "condition"@) is None,
            seq![(fc.span, fcp, "missing required field 'condition'"@)],
        ),
        None => Seq::empty(),
    }) + when(map_get(v, "steps"@) is Some, seq![(v.span, path, "flow_control phase must not have 'steps'"@)])
}

/// A subflow phase names its workflow and has no steps.
pub open spec fn subflow_phase_diags(v: YamlNode, path: Seq<char>) -> Seq<DiagSpec> {
    require_str_diags(v, "subflow"@, path) + when(
        map_get(v, "steps"@) is Some,
        seq![(v.span, path, "subflow phase must not have 'steps'"@)],
    )
}

/// The diagnostics of one phase.
pub open spec fn phase_diags(
    v: YamlNode,
    path: Seq<char>,
    anchors: Seq<Seq<char>>,
    mounted: Seq<Seq<char>>,
    params: Seq<Seq<char>>,
    phase_names: Seq<Seq<char>>,
    handlers: Seq<Seq<char>>,
) -> Seq<DiagSpec> {
    if !(v.value is Mapping) {
        seq![(v.span, path, "phase must be a YAML mapping"@)]
    } else {
        require_str_diags(v, "name"@, path) + if map_get(v, "flow_control"@) is Some {
            flow_control_phase_diags(v, path, phase_names)
        } else if map_get(v, "subflow"@) is Some {
            subflow_phase_diags(v, path)
        } else {
            action_phase_diags(v, path, anchors, mounted, params, handlers)
        }
    }
}

fn check_anchor_list(v: &YamlNode, path: &str, field: &str, anchors: &Vec<String>, diags: &mut Vec<LintDiag>)
    ensures
        pushed(old(diags)@, final(diags)@, anchor_list_diags(*v, path@, field@, strings_seqs(anchors@))),
{
    let ghost av = strings_seqs(anchors@);
    match v.get(field) {
        Some(l) => match &l.value {
            YamlValue::List(items) => {
                let ghost d0 = diags@;
                let mut i: usize = 0;
                while i < items.len()
                    invariant
                        i <= items@.len(),
                        av == strings_seqs(anchors@),
                        pushed(d0, diags@, anchor_list_item_diags(items@, path@, field@, av, i as nat)),
                    decreases items@.len() - i,
                {
                    let ghost d1 = diags@;
                    match items[i].as_str() {
                        Some(s) => {
                            let f = at_index_exec(field, i);
                            check_anchor_ref(s.as_str(), items[i].span, anchors, path, f.as_str(), diags);
                            proof {
                                lemma_pushed_trans(d0, d1, diags@, anchor_list_item_diags(items@, path@, field@, av, i as nat),
                                    anchor_ref_diags(s@, items@[i as int].span, av, path@, at_index(field@, i as nat)));
                            }
                        },
                        None => {
                            proof {
                                lemma_push_empty(d0, diags@, anchor_list_item_diags(items@, path@, field@, av, i as nat));
                            }
                        },
                    }
                    i = i + 1;
                }
            },
            _ => {},
        },
        None => {},
    }
}

fn check_handler_refs(v: &YamlNode, path: &str, handlers: &Vec<String>, diags: &mut Vec<LintDiag>)
    ensures
        pushed(old(diags)@, final(diags)@, handler_ref_diags(*v, path@, strings_seqs(handlers@))),
{
    let ghost hv = strings_seqs(handlers@);
    let r = match v.get("recovery") {
        Some(r) => r,
        None => {
            return;
        },
    };
    let h = match r.get("handlers") {
        Some(h) => h,
        None => {
            return;
        },
    };
    match &h.value {
        YamlValue::List(items) => {
            let known: Vec<char> = if handlers.len() == 0 {
                chars_of("none")
            } else {
                join_chars(&sorted_distinct_exec(handlers), &chars_of(", "))
            };
            let hp = dot_exec(dot_exec(path, "recovery").as_str(), "handlers");
            let ghost d0 = diags@;
            let mut i: usize = 0;
            while i < items.len()
                invariant
                    i <= items@.len(),
                    hv == strings_seqs(handlers@),
                    known@ == handler_list_text(hv),
                    hp@ == dot(dot(path@, "recovery"@), "handlers"@),
                    pushed(d0, diags@, handler_item_diags(items@, path@, hv, i as nat)),
                decreases items@.len() - i,
            {
                let ghost d1 = diags@;
                match items[i].as_str() {
                    Some(s) => {
                        if !contains_name(handlers, &chars_of(s.as_str())) {
                            let mut msg = chars_of("unknown recovery handler '");
                            append(&mut msg, &chars_of(s.as_str()));
                            append(&mut msg, &chars_of("' (declared: "));
                            append(&mut msg, &known);
                            append(&mut msg, &chars_of(")"));
                            let p = at_index_exec(hp.as_str(), i);
                            push_diag(diags, items[i].span, p.as_str(), string_of(&msg));
                            proof {
                                lemma_pushed_trans(d0, d1, diags@, handler_item_diags(items@, path@, hv, i as nat),
                                    seq![(items@[i as int].span, p@, msg@)]);
                            }
                        } else {
                            proof {
                                lemma_push_empty(d0, diags@, handler_item_diags(items@, path@, hv, i as nat));
                            }
                        }
                    },
                    None => {
                        proof {
                            lemma_push_empty(d0, diags@, handler_item_diags(items@, path@, hv, i as nat));
                        }
                    },
                }
                i = i + 1;
            }
        },
        _ => {},
    }
}

fn lint_action_phase(
    v: &YamlNode,
    path: &str,
    anchors: &Vec<String>,
    mounted: &Vec<String>,
    params: &Vec<String>,
    handlers: &Vec<String>,
    diags: &mut Vec<LintDiag>,
)
    ensures
        pushed(
            old(diags)@,
            final(diags)@,
            action_phase_diags(
                *v,
                path@,
                strings_seqs(anchors@),
                strings_seqs(mounted@),
                strings_seqs(params@),
                strings_seqs(handlers@),
            ),
        ),
{
    let ghost d0 = diags@;
    let ghost av = strings_seqs(anchors@);
    let ghost mv = strings_seqs(mounted@);
    let ghost pv = strings_seqs(params@);
    let ghost hv = strings_seqs(handlers@);
    check_anchor_list(v, path, "mount", anchors, diags);
    let ghost d1 = diags@;
    check_anchor_list(v, path, "unmount", anchors, diags);
    let ghost d2 = diags@;
    check_handler_refs(v, path, handlers, diags);
    let ghost d3 = diags@;
    let ghost a = anchor_list_diags(*v, path@, "mount"@, av);
    let ghost b = anchor_list_diags(*v, path@, "unmount"@, av);
    let ghost c = handler_ref_diags(*v, path@, hv);
    proof {
        lemma_pushed_trans(d0, d1, d2, a, b);
        lemma_pushed_trans(d0, d2, d3, a + b, c);
    }
    let steps = v.get("steps");
    let is_list = match steps {
        Some(l) => l.value.is_list(),
        None => false,
    };
    if !is_list {
        push_missing(diags, v, path, "steps");
        proof {
            lemma_pushed_trans(d0, d3, diags@, a + b + c, missing_field(*v, path@, "steps"@));
        }
        return;
    }
    let l = steps.unwrap();
    match &l.value {
        YamlValue::List(items) => {
            let sp = dot_exec(path, "steps");
            let mut i: usize = 0;
            while i < items.len()
                invariant
                    i <= items@.len(),
                    av == strings_seqs(anchors@),
                    mv == strings_seqs(mounted@),
                    pv == strings_seqs(params@),
                    sp@ == dot(path@, "steps"@),
                    pushed(d3, diags@, step_item_diags(items@, path@, av, mv, pv, i as nat)),
                decreases items@.len() - i,
            {
                let ghost d4 = diags@;
                let p = at_index_exec(sp.as_str(), i);
                lint_step(&items[i], p.as_str(), anchors, mounted, params, diags);
                proof {
                    lemma_pushed_trans(d3, d4, diags@, step_item_diags(items@, path@, av, mv, pv, i as nat),
                        step_diags(items@[i as int], at_index(dot(path@, "steps"@), i as nat), av, mv, pv));
                }
                i = i + 1;
            }
            proof {
                lemma_pushed_trans(d0, d3, diags@, a + b + c, step_item_diags(items@, path@, av, mv, pv, items@.len()));
            }
        },
        _ => {},
    }
}

fn lint_flow_control_phase(v: &YamlNode, path: &str, phase_names: &Vec<String>, diags: &mut Vec<LintDiag>)
    ensures
        pushed(old(diags)@, final(diags)@, flow_control_phase_diags(*v, path@, strings_seqs(phase_names@))),
{
    let ghost d0 = diags@;
    let ghost nv = strings_seqs(phase_names@);
    let fcp = dot_exec(path, "flow_control");
    let ghost a: Seq<DiagSpec>;
    match v.get("flow_control") {
        Some(fc) => {
            match fc.get_str("go_to") {
                Some((g, sp)) => {
                    if !contains_name(phase_names, &chars_of(g.as_str())) {
                        push_diag(diags, sp, dot_exec(fcp.as_str(), "go_to").as_str(), quoted_msg("unknown phase '", g.as_str(), "'"));
                    }
                },
                None => push_diag(diags, fc.span, fcp.as_str(), "missing required field 'go_to'".to_owned()),
            }
            let ghost d1 = diags@;
            let ghost x = go_to_diags(*fc, fcp@, nv);
            if fc.get("condition").is_none() {
                push_diag(diags, fc.span, fcp.as_str(), "missing required field 'condition'".to_owned());
            }
            proof {
                lemma_pushed_trans(d0, d1, diags@, x, when(map_get(*fc, "condition"@) is None, seq![(fc.span, fcp@, "missing required field 'condition'"@)]));
                a = x + when(map_get(*fc, "condition"@) is None, seq![(fc.span, fcp@, "missing required field 'condition'"@)]);
            }
        },
        None => {
            proof {
                a = Seq::empty();
            }
        },
    }
    let ghost d2 = diags@;
    if v.get("steps").is_some() {
        push_diag(diags, v.span, path, "flow_control phase must not have 'steps'".to_owned());
    }
    proof {
        lemma_pushed_trans(d0, d2, diags@, a, when(map_get(*v, "steps"@) is Some, seq![(v.span, path@, "flow_control phase must not have 'steps'"@)]));
    }
}

fn lint_subflow_phase(v: &YamlNode, path: &str, diags: &mut Vec<LintDiag>)
    ensures
        pushed(old(diags)@, final(diags)@, subflow_phase_diags(*v, path@)),
{
    let ghost d0 = diags@;
    require_str(v, "subflow", path, diags);
    let ghost d1 = diags@;
    if v.get("steps").is_some() {
        push_diag(diags, v.span, path, "subflow phase must not have 'steps'".to_owned());
    }
    proof {
        lemma_pushed_trans(d0, d1, diags@, require_str_diags(*v, "subflow"@, path@), when(map_get(*v, "steps"@) is Some, seq![(v.span, path@, "subflow phase must not have 'steps'"@)]));
    }
}

fn lint_phase(
    v: &YamlNode,
    path: &str,
    anchors: &Vec<String>,
    mounted: &Vec<String>,
    params: &Vec<String>,
    phase_names: &Vec<String>,
    handlers: &Vec<String>,
    diags: &mut Vec<LintDiag>,
)
    ensures
        pushed(
            old(diags)@,
            final(diags)@,
            phase_diags(
                *v,
                path@,
                strings_seqs(anchors@),
                strings_seqs(mounted@),
                strings_seqs(params@),
                strings_seqs(phase_names@),
                strings_seqs(handlers@),
            ),
        ),
{
    let is_map = match &v.value {
        YamlValue::Mapping(_) => true,
        _ => false,
    };
    if !is_map {
        push_diag(diags, v.span, path, "phase must be a YAML mapping".to_owned());
        return;
    }
    let ghost d0 = diags@;
    require_str(v, "name", path, diags);
    let ghost d1 = diags@;
    let ghost a = require_str_diags(*v, "name"@, path@);
    if v.get("flow_control").is_some() {
        lint_flow_control_phase(v, path, phase_names, diags);
        proof {
            lemma_pushed_trans(d0, d1, diags@, a, flow_control_phase_diags(*v, path@, strings_seqs(phase_names@)));
        }
    } else if v.get("subflow").is_some() {
        lint_subflow_phase(v, path, diags);
        proof {
            lemma_pushed_trans(d0, d1, diags@, a, subflow_phase_diags(*v, path@));
        }
    } else {
        lint_action_phase(v, path, anchors, mounted, params, handlers, diags);
        proof {
            lemma_pushed_trans(d0, d1, diags@, a, action_phase_diags(*v, path@, strings_seqs(anchors@), strings_seqs(mounted@), strings_seqs(params@), strings_seqs(handlers@)));
        }
    }
}


// ── Anchors ───────────────────────────────────────────────────────────────────

/// The type declared for the anchor `name`, if any.
pub open spec fn type_lookup(types: Seq<(Seq<char>, Seq<char>)>, name: Seq<char>) -> Option<Seq<char>>
    decreases types.len(),
{
    if types.len() == 0 {
        None
    } else if types[0].0 == name {
        Some(types[0].1)
    } else {
        type_lookup(types.skip(1), name)
    }
}

pub open spec fn anchor_type_is(ty: Option<(Seq<char>, Span)>, w: Seq<char>) -> bool {
    ty matches Some((t, _)) && t == w
}

/// The diagnostics of one anchor declaration.
pub open spec fn anchor_diags(
    v: YamlNode,
    path: Seq<char>,
    anchors: Seq<Seq<char>>,
    types: Seq<(Seq<char>, Seq<char>)>,
) -> Seq<DiagSpec> {
    let ty = get_str(v, "type"@);
    let is_tab = anchor_type_is(ty, "Tab"@);
    when(ty is None, missing_field(v, path, "type"@)) + when(
        !(anchor_type_is(ty, "Session"@) || anchor_type_is(ty, "Browser"@) || is_tab),
        if map_get(v, "selector"@) is None {
            missing_field(v, path, "selector"@)
        } else {
            selector_diags(v, "selector"@, path)
        },
    ) + match get_str(v, "parent"@) {
        Some((p, sp)) => anchor_ref_diags(p, sp, anchors, path, "parent"@) + when(
            is_tab && type_lookup(types, p) is Some && type_lookup(types, p)->0 != "Browser"@,
            seq![(sp, dot(path, "parent"@), "Tab anchor's parent '"@ + p + "' must be of type Browser, got '"@
                + type_lookup(types, p)->0 + "'"@)],
        ),
        None => when(is_tab, seq![(v.span, path, "Tab anchor requires a 'parent' of type Browser"@)]),
    }
}

pub open spec fn pairs_seqs(v: Seq<(String, String)>) -> Seq<(Seq<char>, Seq<char>)> {
    v.map_values(|p: (String, String)| (p.0@, p.1@))
}

fn lookup_type<'a>(types: &'a Vec<(String, String)>, name: &String) -> (r: Option<&'a String>)
    ensures
        match (r, type_lookup(pairs_seqs(types@), name@)) {
            (Some(t), Some(w)) => t@ == w,
            (None, None) => true,
            _ => false,
        },
{
    let ghost tv = pairs_seqs(types@);
    let mut i: usize = 0;
    assert(tv.skip(0) =~= tv);
    while i < types.len()
        invariant
            i <= types@.len(),
            tv == pairs_seqs(types@),
            type_lookup(tv.skip(i as int), name@) == type_lookup(tv, name@),
        decreases types@.len() - i,
    {
        assert(tv.skip(i as int)[0] == tv[i as int]);
        assert(tv.skip(i as int).skip(1) =~= tv.skip(i + 1));
        if types[i].0 == *name {
            return Some(&types[i].1);
        }
        i = i + 1;
    }
    None
}

fn lint_anchor(v: &YamlNode, path: &str, anchors: &Vec<String>, types: &Vec<(String, String)>, diags: &mut Vec<LintDiag>)
    ensures
        pushed(old(diags)@, final(diags)@, anchor_diags(*v, path@, strings_seqs(anchors@), pairs_seqs(types@))),
{
    let ghost d0 = diags@;
    let ghost av = strings_seqs(anchors@);
    let ghost tv = pairs_seqs(types@);
    let ty = v.get_str("type");
    let ghost tyv = get_str(*v, "type"@);
    let (is_session, is_browser, is_tab) = match ty {
        Some((t, _)) => (is_word(t, "Session"), is_word(t, "Browser"), is_word(t, "Tab")),
        None => (false, false, false),
    };
    assert(is_tab == anchor_type_is(tyv, "Tab"@));
    assert(is_session == anchor_type_is(tyv, "Session"@));
    assert(is_browser == anchor_type_is(tyv, "Browser"@));
    if ty.is_none() {
        push_missing(diags, v, path, "type");
    }
    let ghost d1 = diags@;
    let ghost a = when(tyv is None, missing_field(*v, path@, "type"@));
    let ghost b = when(
        !(is_session || is_browser || is_tab),
        if map_get(*v, "selector"@) is None {
            missing_field(*v, path@, "selector"@)
        } else {
            selector_diags(*v, "selector"@, path@)
        },
    );
    if !(is_session || is_browser || is_tab) {
        if v.get("selector").is_none() {
            push_missing(diags, v, path, "selector");
        } else {
            check_selector(v, "selector", path, diags);
        }
    }
    proof {
        lemma_pushed_trans(d0, d1, diags@, a, b);
    }
    let ghost d2 = diags@;
    match v.get_str("parent") {
        Some((p, sp)) => {
            check_anchor_ref(p.as_str(), sp, anchors, path, "parent", diags);
            let ghost d3 = diags@;
            let ghost c = when(
                is_tab && type_lookup(tv, p@) is Some && type_lookup(tv, p@)->0 != "Browser"@,
                seq![(sp, dot(path@, "parent"@), "Tab anchor's parent '"@ + p@ + "' must be of type Browser, got '"@
                    + type_lookup(tv, p@)->0 + "'"@)],
            );
            if is_tab {
                match lookup_type(types, p) {
                    Some(pt) => {
                        if !is_word(pt, "Browser") {
                            let mut msg = chars_of("Tab anchor's parent '");
                            append(&mut msg, &chars_of(p.as_str()));
                            append(&mut msg, &chars_of("' must be of type Browser, got '"));
                            append(&mut msg, &chars_of(pt.as_str()));
                            append(&mut msg, &chars_of("'"));
                            push_diag(diags, sp, dot_exec(path, "parent").as_str(), string_of(&msg));
                        }
                    },
                    None => {},
                }
            }
            proof {
                lemma_pushed_trans(d2, d3, diags@, anchor_ref_diags(p@, sp, av, path@, "parent"@), c);
                lemma_pushed_trans(d0, d2, diags@, a + b, anchor_ref_diags(p@, sp, av, path@, "parent"@) + c);
            }
        },
        None => {
            if is_tab {
                push_diag(diags, v.span, path, "Tab anchor requires a 'parent' of type Browser".to_owned());
            }
            proof {
                lemma_pushed_trans(d0, d2, diags@, a + b, when(is_tab, seq![(v.span, path@, "Tab anchor requires a 'parent' of type Browser"@)]));
            }
        },
    }
}


// ── The whole workflow ────────────────────────────────────────────────────────

/// The entries of the mapping under `key` (none when absent or no mapping).
pub open spec fn entries_under(v: YamlNode, key: Seq<char>) -> Seq<(Option<String>, YamlNode)> {
    match map_get(v, key) {
        Some(m) => match entries_of(m) {
            Some(es) => es,
            None => Seq::empty(),
        },
        None => Seq::empty(),
    }
}

/// The items of the sequence under `key` (none when absent or no sequence).
pub open spec fn items_under(v: YamlNode, key: Seq<char>) -> Seq<YamlNode> {
    match map_get(v, key) {
        Some(m) => match items_of(m) {
            Some(items) => items,
            None => Seq::empty(),
        },
        None => Seq::empty(),
    }
}

/// The string keys of a mapping, in order.
pub open spec fn key_names(es: Seq<(Option<String>, YamlNode)>) -> Seq<Seq<char>>
    decreases es.len(),
{
    if es.len() == 0 {
        Seq::empty()
    } else {
        key_names(es.drop_last()) + match es.last().0 {
            Some(k) => seq![k@],
            None => Seq::empty(),
        }
    }
}

/// Each anchor's declared `type`, for anchors that declare one.
pub open spec fn anchor_types_of(es: Seq<(Option<String>, YamlNode)>) -> Seq<(Seq<char>, Seq<char>)>
    decreases es.len(),
{
    if es.len() == 0 {
        Seq::empty()
    } else {
        anchor_types_of(es.drop_last()) + match (es.last().0, get_str(es.last().1, "type"@)) {
            (Some(k), Some((t, _))) => seq![(k@, t)],
            _ => Seq::empty(),
        }
    }
}

/// The `name` strings of a list of items, in order.
pub open spec fn item_names(items: Seq<YamlNode>) -> Seq<Seq<char>>
    decreases items.len(),
{
    if items.len() == 0 {
        Seq::empty()
    } else {
        item_names(items.drop_last()) + match get_str(items.last(), "name"@) {
            Some((n, _)) => seq![n],
            None => Seq::empty(),
        }
    }
}

pub open spec fn declared_params(v: YamlNode) -> Seq<Seq<char>> {
    item_names(items_under(v, "params"@))
}

/// `params` must be a sequence.
pub open spec fn params_shape_diags(v: YamlNode) -> Seq<DiagSpec> {
    match map_get(v, "params"@) {
        Some(p) => when(
            items_of(p) is None,
            seq![(p.span, "params"@, "params must be a sequence of {name, default?} objects, not a map"@)],
        ),
        None => Seq::empty(),
    }
}

/// A phase name used by an earlier phase is reported.
pub open spec fn duplicate_name_diags(items: Seq<YamlNode>, k: nat) -> Seq<DiagSpec>
    decreases k,
{
    if k == 0 || k > items.len() {
        Seq::empty()
    } else {
        duplicate_name_diags(items, (k - 1) as nat) + match get_str(items[k - 1], "name"@) {
            Some((n, sp)) => when(
                item_names(items.take(k - 1)).contains(n),
                seq![(sp, dot(at_index("phases"@, (k - 1) as nat), "name"@), "duplicate phase name '"@ + n + "'"@)],
            ),
            None => Seq::empty(),
        }
    }
}

pub open spec fn anchor_entry_diags(
    es: Seq<(Option<String>, YamlNode)>,
    anchors: Seq<Seq<char>>,
    types: Seq<(Seq<char>, Seq<char>)>,
    k: nat,
) -> Seq<DiagSpec>
    decreases k,
{
    if k == 0 || k > es.len() {
        Seq::empty()
    } else {
        anchor_entry_diags(es, anchors, types, (k - 1) as nat) + match es[k - 1].0 {
            Some(name) => anchor_diags(es[k - 1].1, dot("anchors"@, name@), anchors, types),
            None => Seq::empty(),
        }
    }
}

/// The string items of `items`, in order.
pub open spec fn strings_in(items: Seq<YamlNode>) -> Seq<Seq<char>>
    decreases items.len(),
{
    if items.len() == 0 {
        Seq::empty()
    } else {
        strings_in(items.drop_last()) + match str_of(items.last()) {
            Some(x) => seq![x],
            None => Seq::empty(),
        }
    }
}

/// The strings of the sequence `n` (none when it is no sequence).
pub open spec fn list_strings(n: Option<YamlNode>) -> Seq<Seq<char>> {
    match n {
        Some(l) => match items_of(l) {
            Some(items) => strings_in(items),
            None => Seq::empty(),
        },
        None => Seq::empty(),
    }
}

/// `s` without the strings that `r` holds.
pub open spec fn without(s: Seq<Seq<char>>, r: Seq<Seq<char>>) -> Seq<Seq<char>>
    decreases s.len(),
{
    if s.len() == 0 {
        s
    } else if r.contains(s.last()) {
        without(s.drop_last(), r)
    } else {
        without(s.drop_last(), r).push(s.last())
    }
}

/// The anchors mounted after the first `k` phases: each phase mounts its
/// `mount` list before its checks and releases its `unmount` list after.
pub open spec fn mounted_after(items: Seq<YamlNode>, k: nat) -> Seq<Seq<char>>
    decreases k,
{
    if k == 0 || k > items.len() {
        Seq::empty()
    } else {
        without(
            mounted_after(items, (k - 1) as nat) + list_strings(map_get(items[k - 1], "mount"@)),
            list_strings(map_get(items[k - 1], "unmount"@)),
        )
    }
}

pub open spec fn phase_entry_diags(
    items: Seq<YamlNode>,
    anchors: Seq<Seq<char>>,
    params: Seq<Seq<char>>,
    phase_names: Seq<Seq<char>>,
    handlers: Seq<Seq<char>>,
    k: nat,
) -> Seq<DiagSpec>
    decreases k,
{
    if k == 0 || k > items.len() {
        Seq::empty()
    } else {
        phase_entry_diags(items, anchors, params, phase_names, handlers, (k - 1) as nat) + phase_diags(
            items[k - 1],
            at_index("phases"@, (k - 1) as nat),
            anchors,
            mounted_after(items, (k - 1) as nat) + list_strings(map_get(items[k - 1], "mount"@)),
            params,
            phase_names,
            handlers,
        )
    }
}

pub open spec fn handler_action_diags(
    items: Seq<YamlNode>,
    path: Seq<char>,
    anchors: Seq<Seq<char>>,
    params: Seq<Seq<char>>,
    k: nat,
) -> Seq<DiagSpec>
    decreases k,
{
    if k == 0 || k > items.len() {
        Seq::empty()
    } else {
        handler_action_diags(items, path, anchors, params, (k - 1) as nat) + action_diags(
            items[k - 1],
            at_index(dot(path, "actions"@), (k - 1) as nat),
            anchors,
            anchors,
            params,
        )
    }
}

/// A recovery handler may use any declared anchor, mounted or not.
pub open spec fn handler_diags(h: YamlNode, path: Seq<char>, anchors: Seq<Seq<char>>, params: Seq<Seq<char>>) -> Seq<DiagSpec> {
    (match map_get(h, "trigger"@) {
        Some(t) => condition_diags(t, dot(path, "trigger"@), anchors, anchors, params),
        None => Seq::empty(),
    }) + handler_action_diags(items_under(h, "actions"@), path, anchors, params, items_under(h, "actions"@).len())
}

pub open spec fn handler_entry_diags(
    es: Seq<(Option<String>, YamlNode)>,
    anchors: Seq<Seq<char>>,
    params: Seq<Seq<char>>,
    k: nat,
) -> Seq<DiagSpec>
    decreases k,
{
    if k == 0 || k > es.len() {
        Seq::empty()
    } else {
        handler_entry_diags(es, anchors, params, (k - 1) as nat) + match es[k - 1].0 {
            Some(name) => handler_diags(es[k - 1].1, dot("recovery_handlers"@, name@), anchors, params),
            None => Seq::empty(),
        }
    }
}

/// Everything the linter reports on a workflow document, in order: the
/// shape of `params`, duplicate phase names, anchors, phases, recovery handlers.
pub open spec fn workflow_diags(v: YamlNode) -> Seq<DiagSpec> {
    let aes = entries_under(v, "anchors"@);
    let anchors = key_names(aes);
    let types = anchor_types_of(aes);
    let params = declared_params(v);
    let phases = items_under(v, "phases"@);
    let phase_names = item_names(phases);
    let hes = entries_under(v, "recovery_handlers"@);
    let handlers = key_names(hes);
    params_shape_diags(v) + duplicate_name_diags(phases, phases.len()) + anchor_entry_diags(
        aes,
        anchors,
        types,
        aes.len(),
    ) + phase_entry_diags(phases, anchors, params, phase_names, handlers, phases.len())
        + handler_entry_diags(hes, anchors, params, hes.len())
}

fn key_names_exec(es: &Vec<(Option<String>, YamlNode)>) -> (r: Vec<String>)
    ensures
        strings_seqs(r@) == key_names(es@),
{
    let mut r: Vec<String> = Vec::new();
    let mut i: usize = 0;
    assert(es@.take(0) =~= Seq::<(Option<String>, YamlNode)>::empty());
    while i < es.len()
        invariant
            i <= es@.len(),
            strings_seqs(r@) == key_names(es@.take(i as int)),
        decreases es@.len() - i,
    {
        assert(es@.take(i + 1).drop_last() =~= es@.take(i as int));
        let ghost before = r@;
        match &es[i].0 {
            Some(k) => {
                r.push(k.clone());
                assert(strings_seqs(r@) =~= strings_seqs(before) + seq![k@]);
            },
            None => {
                assert(strings_seqs(r@) =~= strings_seqs(before) + Seq::<Seq<char>>::empty());
            },
        }
        i = i + 1;
    }
    assert(es@.take(i as int) =~= es@);
    r
}

fn anchor_types_exec(es: &Vec<(Option<String>, YamlNode)>) -> (r: Vec<(String, String)>)
    ensures
        pairs_seqs(r@) == anchor_types_of(es@),
{
    let mut r: Vec<(String, String)> = Vec::new();
    let mut i: usize = 0;
    assert(es@.take(0) =~= Seq::<(Option<String>, YamlNode)>::empty());
    while i < es.len()
        invariant
            i <= es@.len(),
            pairs_seqs(r@) == anchor_types_of(es@.take(i as int)),
        decreases es@.len() - i,
    {
        assert(es@.take(i + 1).drop_last() =~= es@.take(i as int));
        let ghost before = r@;
        match (&es[i].0, es[i].1.get_str("type")) {
            (Some(k), Some((t, _))) => {
                r.push((k.clone(), t.clone()));
                assert(pairs_seqs(r@) =~= pairs_seqs(before) + seq![(k@, t@)]);
            },
            _ => {
                assert(pairs_seqs(r@) =~= pairs_seqs(before) + Seq::<(Seq<char>, Seq<char>)>::empty());
            },
        }
        i = i + 1;
    }
    assert(es@.take(i as int) =~= es@);
    r
}

fn item_names_exec(items: &Vec<YamlNode>) -> (r: Vec<String>)
    ensures
        strings_seqs(r@) == item_names(items@),
{
    let mut r: Vec<String> = Vec::new();
    let mut i: usize = 0;
    assert(items@.take(0) =~= Seq::<YamlNode>::empty());
    while i < items.len()
        invariant
            i <= items@.len(),
            strings_seqs(r@) == item_names(items@.take(i as int)),
        decreases items@.len() - i,
    {
        assert(items@.take(i + 1).drop_last() =~= items@.take(i as int));
        let ghost before = r@;
        match items[i].get_str("name") {
            Some((n, _)) => {
                r.push(n.clone());
                assert(strings_seqs(r@) =~= strings_seqs(before) + seq![n@]);
            },
            None => {
                assert(strings_seqs(r@) =~= strings_seqs(before) + Seq::<Seq<char>>::empty());
            },
        }
        i = i + 1;
    }
    assert(items@.take(i as int) =~= items@);
    r
}

pub open spec fn opt_node(list: Option<&YamlNode>) -> Option<YamlNode> {
    match list {
        Some(l) => Some(*l),
        None => None,
    }
}

/// Appends the strings of the sequence `list` to `set`.
fn add_items(set: &mut Vec<String>, list: Option<&YamlNode>)
    ensures
        strings_seqs(final(set)@) == strings_seqs(old(set)@) + list_strings(opt_node(list)),
{
    match list {
        Some(l) => match &l.value {
            YamlValue::List(items) => {
                let ghost s0 = strings_seqs(set@);
                let mut i: usize = 0;
                assert(items@.take(0) =~= Seq::<YamlNode>::empty());
                assert(s0 + strings_in(items@.take(0)) =~= s0);
                while i < items.len()
                    invariant
                        i <= items@.len(),
                        strings_seqs(set@) == s0 + strings_in(items@.take(i as int)),
                    decreases items@.len() - i,
                {
                    assert(items@.take(i + 1).drop_last() =~= items@.take(i as int));
                    let ghost before = set@;
                    match items[i].as_str() {
                        Some(n) => {
                            set.push(n.clone());
                            assert(strings_seqs(set@) =~= strings_seqs(before) + seq![n@]);
                            assert(strings_seqs(set@) =~= s0 + strings_in(items@.take(i + 1)));
                        },
                        None => {
                            assert(strings_seqs(set@) =~= s0 + strings_in(items@.take(i + 1)));
                        },
                    }
                    i = i + 1;
                }
                assert(items@.take(i as int) =~= items@);
            },
            _ => {
                assert(strings_seqs(set@) + list_strings(opt_node(list)) =~= strings_seqs(set@));
            },
        },
        None => {
            assert(strings_seqs(set@) + list_strings(opt_node(list)) =~= strings_seqs(set@));
        },
    }
}

fn list_strings_exec(list: Option<&YamlNode>) -> (r: Vec<String>)
    ensures
        strings_seqs(r@) == list_strings(opt_node(list)),
{
    let mut r: Vec<String> = Vec::new();
    add_items(&mut r, list);
    assert(strings_seqs(Seq::<String>::empty()) + list_strings(opt_node(list)) =~= list_strings(opt_node(list)));
    r
}

/// Removes from `set` every string that the sequence `list` holds.
fn remove_items(set: &mut Vec<String>, list: Option<&YamlNode>)
    ensures
        strings_seqs(final(set)@) == without(strings_seqs(old(set)@), list_strings(opt_node(list))),
{
    let gone = list_strings_exec(list);
    let ghost gv = strings_seqs(gone@);
    let ghost sv = strings_seqs(set@);
    let mut kept: Vec<String> = Vec::new();
    let mut i: usize = 0;
    assert(sv.take(0) =~= Seq::<Seq<char>>::empty());
    while i < set.len()
        invariant
            i <= sv.len(),
            sv == strings_seqs(set@),
            gv == strings_seqs(gone@),
            strings_seqs(kept@) == without(sv.take(i as int), gv),
        decreases sv.len() - i,
    {
        assert(sv.take(i + 1).drop_last() =~= sv.take(i as int));
        assert(sv.take(i + 1).last() == set@[i as int]@);
        if !contains_name(&gone, &chars_of(set[i].as_str())) {
            let ghost before = kept@;
            kept.push(set[i].clone());
            assert(strings_seqs(kept@) =~= strings_seqs(before).push(set@[i as int]@));
        }
        i = i + 1;
    }
    assert(sv.take(i as int) =~= sv);
    *set = kept;
}


fn lint_handler(h: &YamlNode, path: &str, anchors: &Vec<String>, params: &Vec<String>, diags: &mut Vec<LintDiag>)
    ensures
        pushed(old(diags)@, final(diags)@, handler_diags(*h, path@, strings_seqs(anchors@), strings_seqs(params@))),
{
    let ghost d0 = diags@;
    let ghost av = strings_seqs(anchors@);
    let ghost pv = strings_seqs(params@);
    match h.get("trigger") {
        Some(t) => lint_condition(t, dot_exec(path, "trigger").as_str(), anchors, anchors, params, diags),
        None => {},
    }
    let ghost d1 = diags@;
    let ghost a = match map_get(*h, "trigger"@) {
        Some(t) => condition_diags(t, dot(path@, "trigger"@), av, av, pv),
        None => Seq::empty(),
    };
    let none: Vec<YamlNode> = Vec::new();
    let items: &Vec<YamlNode> = match h.get("actions") {
        Some(a) => match &a.value {
            YamlValue::List(items) => items,
            _ => &none,
        },
        None => &none,
    };
    assert(items@ == items_under(*h, "actions"@));
    let ap = dot_exec(path, "actions");
    let mut j: usize = 0;
    while j < items.len()
        invariant
            j <= items@.len(),
            items@ == items_under(*h, "actions"@),
            av == strings_seqs(anchors@),
            pv == strings_seqs(params@),
            ap@ == dot(path@, "actions"@),
            pushed(d1, diags@, handler_action_diags(items@, path@, av, pv, j as nat)),
        decreases items@.len() - j,
    {
        let ghost d2 = diags@;
        let p = at_index_exec(ap.as_str(), j);
        lint_action(&items[j], p.as_str(), anchors, anchors, params, diags);
        proof {
            lemma_pushed_trans(d1, d2, diags@, handler_action_diags(items@, path@, av, pv, j as nat),
                action_diags(items@[j as int], at_index(dot(path@, "actions"@), j as nat), av, av, pv));
        }
        j = j + 1;
    }
    proof {
        lemma_pushed_trans(d0, d1, diags@, a, handler_action_diags(items@, path@, av, pv, items@.len()));
    }
}

/// All diagnostics for a workflow document (see `workflow_diags`).
pub fn lint_tree(v: &YamlNode) -> (r: Vec<LintDiag>)
    ensures
        pushed(Seq::empty(), r@, workflow_diags(*v)),
{
    let mut diags: Vec<LintDiag> = Vec::new();
    let no_entries: Vec<(Option<String>, YamlNode)> = Vec::new();
    let no_items: Vec<YamlNode> = Vec::new();

    let aes: &Vec<(Option<String>, YamlNode)> = match v.get("anchors") {
        Some(m) => match &m.value {
            YamlValue::Mapping(es) => es,
            _ => &no_entries,
        },
        None => &no_entries,
    };
    assert(aes@ == entries_under(*v, "anchors"@));
    let anchors = key_names_exec(aes);
    let types = anchor_types_exec(aes);
    let ghost av = strings_seqs(anchors@);
    let ghost tv = pairs_seqs(types@);

    let params: Vec<String> = match v.get("params") {
        Some(p) => match &p.value {
            YamlValue::List(items) => item_names_exec(items),
            _ => {
                push_diag(
                    &mut diags,
                    p.span,
                    "params",
                    "params must be a sequence of {name, default?} objects, not a map".to_owned(),
                );
                Vec::new()
            },
        },
        None => Vec::new(),
    };
    let ghost pv = strings_seqs(params@);
    assert(pv == declared_params(*v)) by {
        assert(strings_seqs(Seq::<String>::empty()) =~= item_names(Seq::<YamlNode>::empty()));
    }
    let ghost d0 = diags@;
    assert(pushed(Seq::empty(), d0, params_shape_diags(*v)));

    let phases: &Vec<YamlNode> = match v.get("phases") {
        Some(m) => match &m.value {
            YamlValue::List(items) => items,
            _ => &no_items,
        },
        None => &no_items,
    };
    assert(phases@ == items_under(*v, "phases"@));
    let phase_names = item_names_exec(phases);
    let ghost nv = strings_seqs(phase_names@);

    // Duplicate phase names.
    let mut seen: Vec<String> = Vec::new();
    let mut i: usize = 0;
    assert(phases@.take(0) =~= Seq::<YamlNode>::empty());
    while i < phases.len()
        invariant
            i <= phases@.len(),
            strings_seqs(seen@) == item_names(phases@.take(i as int)),
            pushed(d0, diags@, duplicate_name_diags(phases@, i as nat)),
        decreases phases@.len() - i,
    {
        let ghost d1 = diags@;
        assert(phases@.take(i + 1).drop_last() =~= phases@.take(i as int));
        match phases[i].get_str("name") {
            Some((n, sp)) => {
                if contains_name(&seen, &chars_of(n.as_str())) {
                    let p = dot_exec(at_index_exec("phases", i).as_str(), "name");
                    push_diag(&mut diags, sp, p.as_str(), quoted_msg("duplicate phase name '", n.as_str(), "'"));
                }
                proof {
                    lemma_pushed_trans(d0, d1, diags@, duplicate_name_diags(phases@, i as nat),
                        when(item_names(phases@.take(i as int)).contains(n@),
                            seq![(sp, dot(at_index("phases"@, i as nat), "name"@), "duplicate phase name '"@ + n@ + "'"@)]));
                }
                let ghost before = seen@;
                seen.push(n.clone());
                assert(strings_seqs(seen@) =~= strings_seqs(before) + seq![n@]);
            },
            None => {
                proof {
                    lemma_push_empty(d0, diags@, duplicate_name_diags(phases@, i as nat));
                }
            },
        }
        i = i + 1;
    }
    let ghost d2 = diags@;
    proof {
        lemma_pushed_trans(Seq::empty(), d0, d2, params_shape_diags(*v), duplicate_name_diags(phases@, phases@.len()));
    }

    // Anchors.
    let mut k: usize = 0;
    while k < aes.len()
        invariant
            k <= aes@.len(),
            av == strings_seqs(anchors@),
            tv == pairs_seqs(types@),
            pushed(d2, diags@, anchor_entry_diags(aes@, av, tv, k as nat)),
        decreases aes@.len() - k,
    {
        let ghost d3 = diags@;
        match &aes[k].0 {
            Some(name) => {
                let p = dot_exec("anchors", name.as_str());
                lint_anchor(&aes[k].1, p.as_str(), &anchors, &types, &mut diags);
                proof {
                    lemma_pushed_trans(d2, d3, diags@, anchor_entry_diags(aes@, av, tv, k as nat),
                        anchor_diags(aes@[k as int].1, dot("anchors"@, name@), av, tv));
                }
            },
            None => {
                proof {
                    lemma_push_empty(d2, diags@, anchor_entry_diags(aes@, av, tv, k as nat));
                }
            },
        }
        k = k + 1;
    }
    let ghost d4 = diags@;
    proof {
        lemma_pushed_trans(Seq::empty(), d2, d4, params_shape_diags(*v) + duplicate_name_diags(phases@, phases@.len()),
            anchor_entry_diags(aes@, av, tv, aes@.len()));
    }

    let hes: &Vec<(Option<String>, YamlNode)> = match v.get("recovery_handlers") {
        Some(m) => match &m.value {
            YamlValue::Mapping(es) => es,
            _ => &no_entries,
        },
        None => &no_entries,
    };
    assert(hes@ == entries_under(*v, "recovery_handlers"@));
    let handlers = key_names_exec(hes);
    let ghost hv = strings_seqs(handlers@);

    // Phases, tracking the mounted anchors.
    let mut mounted: Vec<String> = Vec::new();
    let mut i: usize = 0;
    while i < phases.len()
        invariant
            i <= phases@.len(),
            av == strings_seqs(anchors@),
            pv == strings_seqs(params@),
            nv == strings_seqs(phase_names@),
            hv == strings_seqs(handlers@),
            strings_seqs(mounted@) == mounted_after(phases@, i as nat),
            pushed(d4, diags@, phase_entry_diags(phases@, av, pv, nv, hv, i as nat)),
        decreases phases@.len() - i,
    {
        let ghost d5 = diags@;
        add_items(&mut mounted, phases[i].get("mount"));
        let p = at_index_exec("phases", i);
        lint_phase(&phases[i], p.as_str(), &anchors, &mounted, &params, &phase_names, &handlers, &mut diags);
        proof {
            lemma_pushed_trans(d4, d5, diags@, phase_entry_diags(phases@, av, pv, nv, hv, i as nat),
                phase_diags(phases@[i as int], at_index("phases"@, i as nat), av,
                    mounted_after(phases@, i as nat) + list_strings(map_get(phases@[i as int], "mount"@)), pv, nv, hv));
        }
        remove_items(&mut mounted, phases[i].get("unmount"));
        i = i + 1;
    }
    let ghost d6 = diags@;
    proof {
        lemma_pushed_trans(Seq::empty(), d4, d6,
            params_shape_diags(*v) + duplicate_name_diags(phases@, phases@.len()) + anchor_entry_diags(aes@, av, tv, aes@.len()),
            phase_entry_diags(phases@, av, pv, nv, hv, phases@.len()));
    }

    // Recovery handlers: any declared anchor counts as mounted.
    let mut k: usize = 0;
    while k < hes.len()
        invariant
            k <= hes@.len(),
            av == strings_seqs(anchors@),
            pv == strings_seqs(params@),
            pushed(d6, diags@, handler_entry_diags(hes@, av, pv, k as nat)),
        decreases hes@.len() - k,
    {
        let ghost d7 = diags@;
        match &hes[k].0 {
            Some(name) => {
                let p = dot_exec("recovery_handlers", name.as_str());
                lint_handler(&hes[k].1, p.as_str(), &anchors, &params, &mut diags);
                proof {
                    lemma_pushed_trans(d6, d7, diags@, handler_entry_diags(hes@, av, pv, k as nat),
                        handler_diags(hes@[k as int].1, dot("recovery_handlers"@, name@), av, pv));
                }
            },
            None => {
                proof {
                    lemma_push_empty(d6, diags@, handler_entry_diags(hes@, av, pv, k as nat));
                }
            },
        }
        k = k + 1;
    }
    proof {
        lemma_pushed_trans(Seq::empty(), d6, diags@,
            params_shape_diags(*v) + duplicate_name_diags(phases@, phases@.len()) + anchor_entry_diags(aes@, av, tv, aes@.len())
                + phase_entry_diags(phases@, av, pv, nv, hv, phases@.len()),
            handler_entry_diags(hes@, av, pv, hes@.len()));
    }
    diags
}


// ── Entry points ──────────────────────────────────────────────────────────────

/// The diagnostics for what reading a workflow's text gave: a parse error is
/// the one diagnostic, at its position; an empty text has none.
pub open spec fn loaded_diags(l: Loaded) -> Seq<DiagSpec> {
    match l {
        Loaded::ParseError(line, col, info) => seq![(
            Span { line, col, end_line: line, end_col: col },
            Seq::empty(),
            "YAML parse error: "@ + info@,
        )],
        Loaded::Empty => Seq::empty(),
        Loaded::Document(doc) => workflow_diags(doc),
    }
}

/// The diagnostics for what reading a workflow's text gave (see `loaded_diags`).
pub fn lint_loaded(l: &Loaded) -> (r: Vec<LintDiag>)
    ensures
        pushed(Seq::empty(), r@, loaded_diags(*l)),
{
    match l {
        Loaded::ParseError(line, col, info) => {
            let mut r: Vec<LintDiag> = Vec::new();
            let msg = quoted_msg("YAML parse error: ", info.as_str(), "");
            let sp = Span { line: *line, col: *col, end_line: *line, end_col: *col };
            proof {
                reveal_strlit("");
                assert(""@ =~= Seq::<char>::empty());
                assert(msg@ =~= "YAML parse error: "@ + info@);
            }
            push_diag(&mut r, sp, "", msg);
            assert(seq![(sp, ""@, msg@)] =~= loaded_diags(*l));
            r
        },
        Loaded::Empty => Vec::new(),
        Loaded::Document(doc) => lint_tree(doc),
    }
}

/// Lints a workflow's YAML text; an empty result means no problem was found.
/// What the YAML parser makes of the text is `saphyr`'s (`first_document`);
/// everything after it is `lint_loaded`.
pub fn lint(raw: &str) -> (r: Vec<LintDiag>)
    ensures
        pushed(Seq::empty(), r@, loaded_diags(first_document(raw@))),
{
    let l = load_first_document(raw);
    lint_loaded(&l)
}

/// `workflow lint errors:` followed by one line per diagnostic, as a
/// workflow that fails the linter is refused.
pub open spec fn lint_error_line(d: LintDiag) -> Seq<char> {
    match (d.line, d.col) {
        (Some(l), Some(c)) => "  "@ + decimal(l as nat) + ":"@ + decimal(c as nat) + " ["@ + d.path@ + "] "@
            + d.message@,
        _ => "  ["@ + d.path@ + "] "@ + d.message@,
    }
}

pub open spec fn lint_error_lines(ds: Seq<LintDiag>) -> Seq<char>
    decreases ds.len(),
{
    if ds.len() == 0 {
        Seq::empty()
    } else if ds.len() == 1 {
        lint_error_line(ds[0])
    } else {
        lint_error_lines(ds.drop_last()) + "\n"@ + lint_error_line(ds.last())
    }
}

fn error_line_chars(d: &LintDiag) -> (r: Vec<char>)
    ensures
        r@ == lint_error_line(*d),
{
    let mut v: Vec<char> = Vec::new();
    match (d.line, d.col) {
        (Some(l), Some(c)) => {
            append(&mut v, &chars_of("  "));
            append(&mut v, &decimal_string(l as u64));
            append(&mut v, &chars_of(":"));
            append(&mut v, &decimal_string(c as u64));
            append(&mut v, &chars_of(" ["));
        },
        _ => {
            append(&mut v, &chars_of("  ["));
        },
    }
    append(&mut v, &chars_of(d.path.as_str()));
    append(&mut v, &chars_of("] "));
    append(&mut v, &chars_of(d.message.as_str()));
    v
}

/// The message a workflow that fails the linter is refused with.
pub fn lint_error_report(diags: &Vec<LintDiag>) -> (r: String)
    ensures
        r@ == "workflow lint errors:\n"@ + lint_error_lines(diags@),
{
    let mut v = chars_of("workflow lint errors:\n");
    let ghost head = v@;
    let mut i: usize = 0;
    assert(diags@.take(0) =~= Seq::<LintDiag>::empty());
    while i < diags.len()
        invariant
            i <= diags@.len(),
            head == "workflow lint errors:\n"@,
            v@ == head + lint_error_lines(diags@.take(i as int)),
        decreases diags@.len() - i,
    {
        assert(diags@.take(i + 1).drop_last() =~= diags@.take(i as int));
        assert(diags@.take(i + 1).last() == diags@[i as int]);
        if i > 0 {
            append(&mut v, &chars_of("\n"));
        } else {
            assert(diags@.take(i as int) =~= Seq::<LintDiag>::empty());
        }
        let line = error_line_chars(&diags[i]);
        append(&mut v, &line);
        i = i + 1;
    }
    assert(diags@.take(i as int) =~= diags@);
    string_of(&v)
}


// ── Rendering a diagnostic against its source ────────────────────────────────

/// `n` copies of `c`.
pub open spec fn repeat_char(c: char, n: nat) -> Seq<char> {
    Seq::new(n, |i: int| c)
}

/// How many carets underline a diagnostic starting at column `col`.
pub open spec fn caret_len(col: usize, end_col: Option<usize>) -> nat {
    match end_col {
        Some(e) if e > col => (e - col) as nat,
        _ => 1,
    }
}

/// The source line a 1-based line number points at (empty past the end).
pub open spec fn source_line(lines: Seq<String>, line: usize) -> Seq<char> {
    let i = if line > 0 { line - 1 } else { 0 };
    if i < lines.len() {
        lines[i]@
    } else {
        Seq::empty()
    }
}

/// Where a diagnostic points: `  --> file:line:col`, as far as known.
pub open spec fn diag_location(d: LintDiag, file: Seq<char>) -> Seq<char> {
    match (d.line, d.col) {
        (Some(l), Some(c)) => "  --> "@ + file + ":"@ + decimal(l as nat) + ":"@ + decimal(c as nat) + "\n"@,
        (Some(l), None) => "  --> "@ + file + ":"@ + decimal(l as nat) + "\n"@,
        _ => "  --> "@ + file + "\n"@,
    }
}

/// The underline of a diagnostic at column `c`, with its path beside it.
pub open spec fn diag_underline(d: LintDiag, pad: Seq<char>, c: usize) -> Seq<char> {
    let indent: nat = if c > 0 { (c - 1) as nat } else { 0 };
    let underline = repeat_char(' ', indent) + repeat_char('^', caret_len(c, d.end_col));
    if d.path@.len() == 0 {
        pad + "  | "@ + underline + "\n"@
    } else {
        pad + "  | "@ + underline + " "@ + d.path@ + "\n"@
    }
}

/// The source excerpt of a diagnostic: its line with the range underlined,
/// or its path as a note when the line is unknown.
pub open spec fn diag_excerpt(d: LintDiag, lines: Seq<String>) -> Seq<char> {
    match d.line {
        Some(l) => {
            let num = decimal(l as nat);
            let pad = repeat_char(' ', num.len());
            let src = pad + "  |\n"@ + num + "  | "@ + source_line(lines, l) + "\n"@;
            match d.col {
                Some(c) => src + diag_underline(d, pad, c),
                None => src,
            }
        },
        None => if d.path@.len() > 0 {
            "      = note: "@ + d.path@ + "\n"@
        } else {
            Seq::empty()
        },
    }
}

/// A diagnostic as the workflow checker prints it, compiler style: the
/// message, the location, then the source line with the range underlined
/// and the path beside it (or the path as a note when the line is unknown),
/// then a blank line. Every line ends with a newline.
pub open spec fn rendered_diag(d: LintDiag, file: Seq<char>, lines: Seq<String>) -> Seq<char> {
    "error: "@ + d.message@ + "\n"@ + diag_location(d, file) + diag_excerpt(d, lines) + "\n"@
}

fn push_repeat(v: &mut Vec<char>, c: char, n: usize)
    ensures
        final(v)@ == old(v)@ + repeat_char(c, n as nat),
{
    let mut i: usize = 0;
    while i < n
        invariant
            i <= n,
            v@ == old(v)@ + repeat_char(c, i as nat),
        decreases n - i,
    {
        v.push(c);
        i = i + 1;
        assert(v@ =~= old(v)@ + repeat_char(c, i as nat));
    }
}

fn location_text(d: &LintDiag, file: &str) -> (r: Vec<char>)
    ensures
        r@ == diag_location(*d, file@),
{
    let mut v = chars_of("  --> ");
    append(&mut v, &chars_of(file));
    match (d.line, d.col) {
        (Some(l), Some(c)) => {
            append(&mut v, &chars_of(":"));
            append(&mut v, &decimal_string(l as u64));
            append(&mut v, &chars_of(":"));
            append(&mut v, &decimal_string(c as u64));
        },
        (Some(l), None) => {
            append(&mut v, &chars_of(":"));
            append(&mut v, &decimal_string(l as u64));
        },
        _ => {},
    }
    append(&mut v, &chars_of("\n"));
    v
}

fn underline_text(d: &LintDiag, pad: &Vec<char>, c: usize) -> (r: Vec<char>)
    ensures
        r@ == diag_underline(*d, pad@, c),
{
    let mut v = pad.clone();
    append(&mut v, &chars_of("  | "));
    let indent: usize = if c > 0 { c - 1 } else { 0 };
    push_repeat(&mut v, ' ', indent);
    let carets: usize = match d.end_col {
        Some(e) => if e > c { e - c } else { 1 },
        None => 1,
    };
    push_repeat(&mut v, '^', carets);
    let pc = chars_of(d.path.as_str());
    if pc.len() > 0 {
        append(&mut v, &chars_of(" "));
        append(&mut v, &pc);
    }
    append(&mut v, &chars_of("\n"));
    v
}

fn excerpt_text(d: &LintDiag, lines: &Vec<String>) -> (r: Vec<char>)
    ensures
        r@ == diag_excerpt(*d, lines@),
{
    match d.line {
        Some(l) => {
            let num = decimal_string(l as u64);
            let i: usize = if l > 0 { l - 1 } else { 0 };
            let src: Vec<char> = if i < lines.len() {
                chars_of(lines[i].as_str())
            } else {
                Vec::new()
            };
            assert(src@ == source_line(lines@, l));
            let mut pad: Vec<char> = Vec::new();
            push_repeat(&mut pad, ' ', num.len());
            assert(pad@ =~= repeat_char(' ', num@.len()));
            let mut v = pad.clone();
            append(&mut v, &chars_of("  |\n"));
            append(&mut v, &num);
            append(&mut v, &chars_of("  | "));
            append(&mut v, &src);
            append(&mut v, &chars_of("\n"));
            match d.col {
                Some(c) => {
                    append(&mut v, &underline_text(d, &pad, c));
                },
                None => {},
            }
            v
        },
        None => {
            let pc = chars_of(d.path.as_str());
            if pc.len() > 0 {
                let mut v = chars_of("      = note: ");
                append(&mut v, &pc);
                append(&mut v, &chars_of("\n"));
                v
            } else {
                Vec::new()
            }
        },
    }
}

/// Renders one diagnostic of `file`, whose lines are `lines` (see
/// `rendered_diag`).
pub fn render_diag(d: &LintDiag, file: &str, lines: &Vec<String>) -> (r: String)
    ensures
        r@ == rendered_diag(*d, file@, lines@),
{
    let mut v = chars_of("error: ");
    append(&mut v, &chars_of(d.message.as_str()));
    append(&mut v, &chars_of("\n"));
    append(&mut v, &location_text(d, file));
    append(&mut v, &excerpt_text(d, lines));
    append(&mut v, &chars_of("\n"));
    string_of(&v)
}

} // verus!
