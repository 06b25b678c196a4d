//! The parts of workflow actions that are pure text and bookkeeping: which
//! property an `Extract` reads, `{output.<key>}` substitution into action
//! fields, where extracted and evaluated values are stored, the CSV that
//! `WriteOutput` writes, and which child an action picks.
use vstd::prelude::*;

use crate::executor::{var_set, vars_view, Vars, VarsView};
use crate::output::{entries_view, pushed, Entries, Output};
use crate::text::{
    append, char_at, chars_of, eq_chars, find_char, lemma_first_idx_props, find_seq, matches_at, replace_all, replace_seq, slice_of,
    starts_with_seq, string_of,
};

verus! {

/// Which text property an `Extract` action reads from each matched element.
#[derive(Debug, Clone, Copy, PartialEq, Eq, Structural)]
pub enum ExtractAttribute {
    /// The accessible name (label or caption).
    Name,
    /// The value text, falling back to the name. The default.
    Text,
    /// The direct children's names joined by newlines.
    InnerText,
}

impl Default for ExtractAttribute {
    fn default() -> (r: Self)
        ensures
            r == ExtractAttribute::Text,
    {
        ExtractAttribute::Text
    }
}

/// The placeholder `{output.<k>}`.
pub open spec fn output_pattern(k: Seq<char>) -> Seq<char> {
    seq!['{', 'o', 'u', 't', 'p', 'u', 't', '.'] + k + seq!['}']
}

/// `s` after substituting, entry by entry in order, the first value of each
/// output key that has one.
pub open spec fn subst_outputs(s: Seq<char>, e: Entries) -> Seq<char>
    decreases e.len(),
{
    if e.len() == 0 {
        s
    } else {
        let prev = subst_outputs(s, e.drop_last());
        if e.last().1.len() > 0 {
            replace_seq(prev, output_pattern(e.last().0), e.last().1[0])
        } else {
            prev
        }
    }
}

/// `s` after substituting each local, in order.
pub open spec fn subst_locals(s: Seq<char>, l: VarsView) -> Seq<char>
    decreases l.len(),
{
    if l.len() == 0 {
        s
    } else {
        replace_seq(subst_locals(s, l.drop_last()), output_pattern(l.last().0), l.last().1)
    }
}

/// `s` with every `{output.<key>}` token still in it removed: scanning left
/// to right, a `{output.` that a `}` follows is dropped through that `}`.
pub open spec fn blank_placeholders(s: Seq<char>) -> Seq<char>
    decreases s.len(),
{
    let lead = seq!['{', 'o', 'u', 't', 'p', 'u', 't', '.'];
    if s.len() == 0 {
        s
    } else if starts_with_seq(s, lead) && find_seq(s.skip(8), '}') is Some {
        proof {
            lemma_first_idx_props(0, s.skip(8).len() as int, char_at(s.skip(8), '}'));
        }
        blank_placeholders(s.skip(8 + find_seq(s.skip(8), '}')->0 + 1))
    } else {
        seq![s[0]] + blank_placeholders(s.skip(1))
    }
}

/// Output values first, then locals; a key known to neither expands to
/// nothing.
pub open spec fn spec_sub_output(s: Seq<char>, locals: VarsView, output: Entries) -> Seq<char> {
    blank_placeholders(subst_locals(subst_outputs(s, output), locals))
}

fn blank_unknown(s: &Vec<char>) -> (r: Vec<char>)
    ensures
        r@ == blank_placeholders(s@),
{
    let lead: Vec<char> = vec!['{', 'o', 'u', 't', 'p', 'u', 't', '.'];
    assert(lead@ =~= seq!['{', 'o', 'u', 't', 'p', 'u', 't', '.']);
    let mut out: Vec<char> = Vec::new();
    let mut i: usize = 0;
    assert(s@.skip(0) =~= s@);
    while i < s.len()
        invariant
            i <= s.len(),
            lead@ == seq!['{', 'o', 'u', 't', 'p', 'u', 't', '.'],
            out@ + blank_placeholders(s@.skip(i as int)) == blank_placeholders(s@),
        decreases s.len() - i,
    {
        let ghost rest = s@.skip(i as int);
        let mut close: Option<usize> = None;
        if 8 <= s.len() - i && matches_at(s, &lead, i) {
            let tail = slice_of(s, i + 8, s.len());
            assert(tail@ =~= rest.skip(8));
            assert(rest.take(8) =~= s@.subrange(i as int, i + 8));
            close = find_char(&tail, '}');
        }
        proof {
            if 8 <= rest.len() && rest.take(8) == lead@ {
                assert(rest.take(8) =~= s@.subrange(i as int, i + 8));
            }
        }
        match close {
            Some(k) => {
                assert(starts_with_seq(rest, lead@));
                assert(rest.skip(8 + k + 1) =~= s@.skip(i + 8 + k + 1));
                i = i + 8 + k + 1;
            },
            None => {
                assert(!(starts_with_seq(rest, lead@) && find_seq(rest.skip(8), '}') is Some));
                assert(rest.skip(1) =~= s@.skip(i + 1));
                let ghost before = out@;
                out.push(s[i]);
                i = i + 1;
                assert(out@ + blank_placeholders(s@.skip(i as int)) =~= before + (seq![rest[0]]
                    + blank_placeholders(rest.skip(1))));
            },
        }
    }
    assert(s@.skip(i as int) =~= Seq::<char>::empty());
    assert(out@ + blank_placeholders(s@.skip(i as int)) =~= out@);
    out
}

fn pattern_for(k: &String) -> (r: Vec<char>)
    ensures
        r@ == output_pattern(k@),
{
    let lead = "{output.";
    proof {
        reveal_strlit("{output.");
    }
    let mut p = chars_of(lead);
    let kc = chars_of(k.as_str());
    append(&mut p, &kc);
    p.push('}');
    assert(p@ =~= output_pattern(k@));
    p
}

/// Replaces `{output.<key>}` placeholders in `s`: first with the first value
/// of each output key, then with each local's value; those of unknown keys
/// expand to nothing.
pub fn sub_output(s: &str, locals: &Vars, output: &Output) -> (r: String)
    ensures
        r@ == spec_sub_output(s@, locals@, output@),
{
    let mut out = chars_of(s);
    let entries = output.as_map();
    let ghost ev = entries_view(entries@);
    let mut i: usize = 0;
    assert(ev.take(0) =~= Seq::<(Seq<char>, Seq<Seq<char>>)>::empty());
    while i < entries.len()
        invariant
            i <= entries.len(),
            ev == entries_view(entries@),
            out@ == subst_outputs(s@, ev.take(i as int)),
        decreases entries.len() - i,
    {
        assert(ev.take(i + 1).drop_last() =~= ev.take(i as int));
        assert(ev.take(i + 1).last() == ev[i as int]);
        let vs = &entries[i].1;
        if vs.len() > 0 {
            let pat = pattern_for(&entries[i].0);
            let rep = chars_of(vs[0].as_str());
            out = replace_all(&out, &pat, &rep);
        }
        i = i + 1;
    }
    assert(ev.take(i as int) =~= ev);
    let pairs = locals.entries();
    let ghost lv = vars_view(pairs@);
    let ghost mid = out@;
    let mut j: usize = 0;
    assert(lv.take(0) =~= Seq::<(Seq<char>, Seq<char>)>::empty());
    while j < pairs.len()
        invariant
            j <= pairs.len(),
            lv == vars_view(pairs@),
            out@ == subst_locals(mid, lv.take(j as int)),
        decreases pairs.len() - j,
    {
        assert(lv.take(j + 1).drop_last() =~= lv.take(j as int));
        assert(lv.take(j + 1).last() == lv[j as int]);
        let pat = pattern_for(&pairs[j].0);
        let rep = chars_of(pairs[j].1.as_str());
        out = replace_all(&out, &pat, &rep);
        j = j + 1;
    }
    assert(lv.take(j as int) =~= lv);
    string_of(&blank_unknown(&out))
}

// ── Recording values ──────────────────────────────────────────────────────────

/// `e` after pushing each of `vs` under `k`, in order.
pub open spec fn pushed_all(e: Entries, k: Seq<char>, vs: Seq<Seq<char>>) -> Entries
    decreases vs.len(),
{
    if vs.len() == 0 {
        e
    } else {
        pushed(pushed_all(e, k, vs.drop_last()), k, vs.last())
    }
}

/// Appends each of `values` under `key`, in order.
pub fn push_all(output: &mut Output, key: &str, values: &Vec<String>)
    ensures
        final(output)@ == pushed_all(old(output)@, key@, values@.map_values(|v: String| v@)),
{
    let ghost start = output@;
    let ghost vs = values@.map_values(|v: String| v@);
    let mut i: usize = 0;
    while i < values.len()
        invariant
            i <= values@.len(),
            vs == values@.map_values(|v: String| v@),
            output@ == pushed_all(start, key@, vs.take(i as int)),
        decreases values@.len() - i,
    {
        assert(vs.take(i + 1).drop_last() =~= vs.take(i as int));
        output.push(key, values[i].as_str());
        i = i + 1;
    }
    assert(vs.take(i as int) =~= vs);
}

/// `Extract`: a local extract keeps only the last value under `key` in the
/// locals (each value overwrites the one before); otherwise every value is
/// appended to the output under `key`.
pub fn record_extracted(
    locals: &mut Vars,
    output: &mut Output,
    key: &str,
    values: &Vec<String>,
    local: bool,
)
    ensures
        local ==> final(output)@ == old(output)@,
        local && values@.len() > 0 ==> final(locals)@ == var_set(
            old(locals)@,
            key@,
            values@.last()@,
        ),
        local && values@.len() == 0 ==> final(locals)@ == old(locals)@,
        !local ==> final(locals)@ == old(locals)@,
        !local ==> final(output)@ == pushed_all(
            old(output)@,
            key@,
            values@.map_values(|v: String| v@),
        ),
{
    if local {
        if values.len() > 0 {
            let last = values[values.len() - 1].clone();
            locals.insert(key.to_owned(), last);
        }
    } else {
        push_all(output, key, values);
    }
}

/// `Eval` and `BrowserEval` results: `Eval` stores the value as the local
/// `key` (pass `Some`) and, when an output key is given, appends it there too.
pub fn record_value(
    locals: &mut Vars,
    output: &mut Output,
    local_key: &Option<String>,
    value: &str,
    out_key: &Option<String>,
)
    ensures
        local_key is Some ==> final(locals)@ == var_set(old(locals)@, local_key->0@, value@),
        local_key is None ==> final(locals)@ == old(locals)@,
        out_key is Some ==> final(output)@ == pushed(old(output)@, out_key->0@, value@),
        out_key is None ==> final(output)@ == old(output)@,
{
    if let Some(k) = local_key {
        locals.insert(k.clone(), value.to_owned());
    }
    if let Some(ok) = out_key {
        output.push(ok.as_str(), value);
    }
}

// ── WriteOutput ───────────────────────────────────────────────────────────────

/// One CSV field: the row in double quotes, with its quotes doubled.
pub open spec fn csv_field(row: Seq<char>) -> Seq<char> {
    seq!['"'] + replace_seq(row, seq!['"'], seq!['"', '"']) + seq!['"']
}

/// The file `WriteOutput` writes: one quoted field per line.
pub open spec fn csv_text(rows: Seq<Seq<char>>) -> Seq<char>
    decreases rows.len(),
{
    if rows.len() == 0 {
        Seq::empty()
    } else {
        csv_text(rows.drop_last()) + csv_field(rows.last()) + seq!['\n']
    }
}

/// The text `WriteOutput` writes for `rows`.
pub fn csv_lines(rows: &[String]) -> (r: String)
    ensures
        r@ == csv_text(rows@.map_values(|v: String| v@)),
{
    let ghost rs = rows@.map_values(|v: String| v@);
    let quote = chars_of("\"");
    let doubled = chars_of("\"\"");
    let newline = chars_of("\n");
    proof {
        reveal_strlit("\"");
        reveal_strlit("\"\"");
        reveal_strlit("\n");
    }
    let mut out: Vec<char> = Vec::new();
    let mut i: usize = 0;
    assert(rs.take(0) =~= Seq::<Seq<char>>::empty());
    while i < rows.len()
        invariant
            i <= rows@.len(),
            rs == rows@.map_values(|v: String| v@),
            quote@ == seq!['"'],
            doubled@ == seq!['"', '"'],
            newline@ == seq!['\n'],
            out@ == csv_text(rs.take(i as int)),
        decreases rows@.len() - i,
    {
        assert(rs.take(i + 1).drop_last() =~= rs.take(i as int));
        assert(rs.take(i + 1).last() == rows@[i as int]@);
        append(&mut out, &quote);
        append(&mut out, &replace_all(&chars_of(rows[i].as_str()), &quote, &doubled));
        append(&mut out, &quote);
        append(&mut out, &newline);
        assert(out@ =~= csv_text(rs.take(i + 1)));
        i = i + 1;
    }
    assert(rs.take(i as int) =~= rs);
    string_of(&out)
}

// ── Picking a child ───────────────────────────────────────────────────────────

/// The first index whose role is `role`, as `DismissDialog` looks for the
/// dialog and then for a button in it.
pub fn first_with_role(roles: &Vec<String>, role: &str) -> (r: Option<usize>)
    ensures
        r matches Some(i) ==> i < roles@.len() && roles@[i as int]@ == role@ && forall|j: int|
            0 <= j < i ==> #[trigger] roles@[j]@ != role@,
        r is None ==> forall|j: int| 0 <= j < roles@.len() ==> #[trigger] roles@[j]@ != role@,
{
    let target = chars_of(role);
    let mut i: usize = 0;
    while i < roles.len()
        invariant
            i <= roles@.len(),
            target@ == role@,
            forall|j: int| 0 <= j < i ==> #[trigger] roles@[j]@ != role@,
        decreases roles@.len() - i,
    {
        if eq_chars(&chars_of(roles[i].as_str()), &target) {
            return Some(i);
        }
        i = i + 1;
    }
    None
}

/// Whether an element with this name and role is what `ClickForeground`
/// (empty `role`: any role) or `ClickForegroundButton` looks for.
pub open spec fn name_role_ok(el: (Option<String>, String), name: Seq<char>, role: Seq<char>) -> bool {
    el.0 is Some && el.0->0@ == name && (role.len() == 0 || el.1@ == role)
}

/// The first element, by name and role, that a foreground click targets.
pub fn first_name_role(items: &Vec<(Option<String>, String)>, name: &str, role: &str) -> (r: Option<
    usize,
>)
    ensures
        r matches Some(i) ==> i < items@.len() && name_role_ok(items@[i as int], name@, role@)
            && forall|j: int| 0 <= j < i ==> !#[trigger] name_role_ok(items@[j], name@, role@),
        r is None ==> forall|j: int|
            0 <= j < items@.len() ==> !#[trigger] name_role_ok(items@[j], name@, role@),
{
    let nm = chars_of(name);
    let rl = chars_of(role);
    let mut i: usize = 0;
    while i < items.len()
        invariant
            i <= items@.len(),
            nm@ == name@,
            rl@ == role@,
            forall|j: int| 0 <= j < i ==> !#[trigger] name_role_ok(items@[j], name@, role@),
        decreases items@.len() - i,
    {
        let name_ok = match &items[i].0 {
            Some(n) => eq_chars(&chars_of(n.as_str()), &nm),
            None => false,
        };
        let role_ok = rl.len() == 0 || eq_chars(&chars_of(items[i].1.as_str()), &rl);
        if name_ok && role_ok {
            return Some(i);
        }
        i = i + 1;
    }
    None
}

} // verus!
