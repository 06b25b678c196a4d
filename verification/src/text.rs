//! Character-sequence helpers shared by the parsers.
//!
//! Strings are handled as `Vec<char>` inside the library; their view is the
//! `Seq<char>` that vstd assigns to `str` and `String`, so a contract over a
//! `Vec<char>` reads the same as one over the string it came from.
use vstd::prelude::*;

verus! {

// ── Index search over an integer range ───────────────────────────────────────

/// The first index in `[lo, hi)` satisfying `p`, or `hi` when none does.
pub open spec fn first_idx(lo: int, hi: int, p: spec_fn(int) -> bool) -> int
    decreases hi - lo,
{
    if lo >= hi {
        hi
    } else if p(lo) {
        lo
    } else {
        first_idx(lo + 1, hi, p)
    }
}

/// The last index in `[lo, hi)` satisfying `p`, or `lo - 1` when none does.
pub open spec fn last_idx(lo: int, hi: int, p: spec_fn(int) -> bool) -> int
    decreases hi - lo,
{
    if lo >= hi {
        lo - 1
    } else if p(hi - 1) {
        hi - 1
    } else {
        last_idx(lo, hi - 1, p)
    }
}

pub proof fn lemma_first_idx(lo: int, hi: int, p: spec_fn(int) -> bool, k: int)
    requires
        lo <= k <= hi,
        forall|j: int| lo <= j < k ==> !#[trigger] p(j),
        k < hi ==> p(k),
    ensures
        first_idx(lo, hi, p) == k,
    decreases k - lo,
{
    if lo < k {
        lemma_first_idx(lo + 1, hi, p, k);
    }
}

pub proof fn lemma_first_idx_props(lo: int, hi: int, p: spec_fn(int) -> bool)
    requires
        lo <= hi,
    ensures
        lo <= first_idx(lo, hi, p) <= hi,
        forall|j: int| lo <= j < first_idx(lo, hi, p) ==> !#[trigger] p(j),
        first_idx(lo, hi, p) < hi ==> p(first_idx(lo, hi, p)),
    decreases hi - lo,
{
    if lo < hi && !p(lo) {
        lemma_first_idx_props(lo + 1, hi, p);
    }
}

pub proof fn lemma_last_idx(lo: int, hi: int, p: spec_fn(int) -> bool, k: int)
    requires
        lo - 1 <= k < hi,
        forall|j: int| k < j < hi ==> !#[trigger] p(j),
        k >= lo ==> p(k),
    ensures
        last_idx(lo, hi, p) == k,
    decreases hi - k,
{
    if k < hi - 1 {
        lemma_last_idx(lo, hi - 1, p, k);
    }
}

pub proof fn lemma_last_idx_props(lo: int, hi: int, p: spec_fn(int) -> bool)
    requires
        lo <= hi,
    ensures
        lo - 1 <= last_idx(lo, hi, p) < hi,
        forall|j: int| last_idx(lo, hi, p) < j < hi ==> !#[trigger] p(j),
        last_idx(lo, hi, p) >= lo ==> p(last_idx(lo, hi, p)),
    decreases hi - lo,
{
    if lo < hi && !p(hi - 1) {
        lemma_last_idx_props(lo, hi - 1, p);
    }
}

// ── Character classes ─────────────────────────────────────────────────────────

/// Whether `char::is_whitespace` holds of `c` (the Unicode `White_Space` property).
pub uninterp spec fn char_is_whitespace(c: char) -> bool;

/// `char::is_whitespace`. On ASCII the `White_Space` characters are the space
/// and the controls U+0009 to U+000D.
#[verifier::external_body]
pub fn is_whitespace(c: char) -> (r: bool)
    ensures
        r == char_is_whitespace(c),
        (c as u32) < 128 ==> (r <==> (c == ' ' || (9 <= (c as u32) && (c as u32) <= 13))),
{
    c.is_whitespace()
}

/// Whether `char::is_alphabetic` holds of `c` (the Unicode `Alphabetic` property).
pub uninterp spec fn char_is_alphabetic(c: char) -> bool;

/// Whether `char::is_alphanumeric` holds of `c` (`Alphabetic` or a numeric category).
pub uninterp spec fn char_is_alphanumeric(c: char) -> bool;

pub open spec fn is_ascii_letter(c: char) -> bool {
    ('a' <= c && c <= 'z') || ('A' <= c && c <= 'Z')
}

/// `char::is_alphabetic`. On ASCII it holds exactly of the letters.
#[verifier::external_body]
pub fn is_alphabetic(c: char) -> (r: bool)
    ensures
        r == char_is_alphabetic(c),
        (c as u32) < 128 ==> (r <==> is_ascii_letter(c)),
{
    c.is_alphabetic()
}

/// `char::is_alphanumeric`. On ASCII it holds exactly of the letters and digits.
#[verifier::external_body]
pub fn is_alphanumeric(c: char) -> (r: bool)
    ensures
        r == char_is_alphanumeric(c),
        (c as u32) < 128 ==> (r <==> (is_ascii_letter(c) || is_ascii_digit(c))),
{
    c.is_alphanumeric()
}

pub open spec fn is_ascii_digit(c: char) -> bool {
    '0' <= c && c <= '9'
}

pub open spec fn digit_value(c: char) -> int {
    (c as int) - ('0' as int)
}

pub open spec fn lower_char(c: char) -> char {
    if 'A' <= c && c <= 'Z' {
        ((c as u32) + 32) as char
    } else {
        c
    }
}

/// ASCII lower-casing, as `str::to_ascii_lowercase` does it.
pub open spec fn lower_seq(s: Seq<char>) -> Seq<char> {
    s.map_values(|c: char| lower_char(c))
}

pub fn ascii_lower_char(c: char) -> (r: char)
    ensures
        r == lower_char(c),
{
    if 'A' <= c && c <= 'Z' {
        let u: u32 = (c as u32) + 32;
        assert(u < 128);
        let r: char = (u as u8) as char;
        r
    } else {
        c
    }
}

pub fn to_ascii_lower(s: &Vec<char>) -> (r: Vec<char>)
    ensures
        r@ == lower_seq(s@),
{
    let mut r: Vec<char> = Vec::new();
    let mut i: usize = 0;
    while i < s.len()
        invariant
            i <= s.len(),
            r@ == lower_seq(s@.take(i as int)),
        decreases s.len() - i,
    {
        let c = ascii_lower_char(s[i]);
        r.push(c);
        i += 1;
        assert(lower_seq(s@.take(i as int)) =~= lower_seq(s@.take(i - 1)).push(lower_char(s@[i - 1])));
    }
    assert(s@.take(s.len() as int) =~= s@);
    r
}

// ── Trimming ──────────────────────────────────────────────────────────────────

pub open spec fn nonws_at(s: Seq<char>) -> spec_fn(int) -> bool {
    |i: int| !char_is_whitespace(s[i])
}

pub open spec fn nonquote_at(s: Seq<char>) -> spec_fn(int) -> bool {
    |i: int| !(s[i] == '\'' || s[i] == '"')
}

/// The part of `s` between the first and the last index satisfying `keep`.
pub open spec fn trim_with(s: Seq<char>, keep: spec_fn(int) -> bool) -> Seq<char> {
    let a = first_idx(0, s.len() as int, keep);
    let b = last_idx(0, s.len() as int, keep) + 1;
    if a < b {
        s.subrange(a, b)
    } else {
        Seq::empty()
    }
}

/// `str::trim`: leading and trailing whitespace removed.
pub open spec fn trim_seq(s: Seq<char>) -> Seq<char> {
    trim_with(s, nonws_at(s))
}

/// `str::trim_end`.
pub open spec fn trim_end_seq(s: Seq<char>) -> Seq<char> {
    s.take(last_idx(0, s.len() as int, nonws_at(s)) + 1)
}

/// `trim_matches` on single and double quotes.
pub open spec fn trim_quotes_seq(s: Seq<char>) -> Seq<char> {
    trim_with(s, nonquote_at(s))
}

fn first_nonws(s: &Vec<char>) -> (k: usize)
    ensures
        k as int == first_idx(0, s@.len() as int, nonws_at(s@)),
{
    let mut i: usize = 0;
    while i < s.len() && is_whitespace(s[i])
        invariant
            i <= s.len(),
            forall|j: int| 0 <= j < i ==> char_is_whitespace(#[trigger] s@[j]),
        decreases s.len() - i,
    {
        i += 1;
    }
    proof {
        lemma_first_idx(0, s@.len() as int, nonws_at(s@), i as int);
    }
    i
}

fn last_nonws(s: &Vec<char>) -> (k: usize)
    ensures
        k as int == last_idx(0, s@.len() as int, nonws_at(s@)) + 1,
{
    let mut i: usize = s.len();
    while i > 0 && is_whitespace(s[i - 1])
        invariant
            i <= s.len(),
            forall|j: int| i <= j < s.len() ==> char_is_whitespace(#[trigger] s@[j]),
        decreases i,
    {
        i -= 1;
    }
    proof {
        lemma_last_idx(0, s@.len() as int, nonws_at(s@), i - 1);
    }
    i
}

fn is_quote(c: char) -> (r: bool)
    ensures
        r == (c == '\'' || c == '"'),
{
    c == '\'' || c == '"'
}

/// `str::trim`.
pub fn trim(s: &Vec<char>) -> (r: Vec<char>)
    ensures
        r@ == trim_seq(s@),
{
    let a = first_nonws(s);
    let b = last_nonws(s);
    proof {
        lemma_first_idx_props(0, s@.len() as int, nonws_at(s@));
        lemma_last_idx_props(0, s@.len() as int, nonws_at(s@));
    }
    if a < b {
        slice_of(s, a, b)
    } else {
        Vec::new()
    }
}

/// `str::trim_end`.
pub fn trim_end(s: &Vec<char>) -> (r: Vec<char>)
    ensures
        r@ == trim_end_seq(s@),
{
    let b = last_nonws(s);
    proof {
        lemma_last_idx_props(0, s@.len() as int, nonws_at(s@));
    }
    slice_of(s, 0, b)
}

/// `trim_matches(|c| c == '\'' || c == '"')`.
pub fn trim_quotes(s: &Vec<char>) -> (r: Vec<char>)
    ensures
        r@ == trim_quotes_seq(s@),
{
    let mut a: usize = 0;
    while a < s.len() && is_quote(s[a])
        invariant
            a <= s.len(),
            forall|j: int| 0 <= j < a ==> (#[trigger] s@[j] == '\'' || s@[j] == '"'),
        decreases s.len() - a,
    {
        a += 1;
    }
    let mut b: usize = s.len();
    while b > 0 && is_quote(s[b - 1])
        invariant
            b <= s.len(),
            forall|j: int| b <= j < s.len() ==> (#[trigger] s@[j] == '\'' || s@[j] == '"'),
        decreases b,
    {
        b -= 1;
    }
    proof {
        lemma_first_idx(0, s@.len() as int, nonquote_at(s@), a as int);
        lemma_last_idx(0, s@.len() as int, nonquote_at(s@), b - 1);
        lemma_first_idx_props(0, s@.len() as int, nonquote_at(s@));
        lemma_last_idx_props(0, s@.len() as int, nonquote_at(s@));
    }
    if a < b {
        slice_of(s, a, b)
    } else {
        Vec::new()
    }
}

// ── Slicing, searching, comparing ─────────────────────────────────────────────

/// A copy of `s[a..b]`.
pub fn slice_of(s: &Vec<char>, a: usize, b: usize) -> (r: Vec<char>)
    requires
        a <= b <= s.len(),
    ensures
        r@ == s@.subrange(a as int, b as int),
{
    let mut r: Vec<char> = Vec::new();
    let mut i: usize = a;
    while i < b
        invariant
            a <= i <= b <= s.len(),
            r@ == s@.subrange(a as int, i as int),
        decreases b - i,
    {
        r.push(s[i]);
        i += 1;
        assert(r@ =~= s@.subrange(a as int, i as int));
    }
    r
}

pub open spec fn char_at(s: Seq<char>, c: char) -> spec_fn(int) -> bool {
    |i: int| s[i] == c
}

pub open spec fn pair_at(s: Seq<char>, a: char, b: char) -> spec_fn(int) -> bool {
    |i: int| i + 1 < s.len() && s[i] == a && s[i + 1] == b
}

/// The first index of `c` in `s`, as `str::find` with a `char` pattern gives it.
pub open spec fn find_seq(s: Seq<char>, c: char) -> Option<int> {
    let k = first_idx(0, s.len() as int, char_at(s, c));
    if k < s.len() {
        Some(k)
    } else {
        None
    }
}

/// The last index of `c` in `s` (`str::rfind`).
pub open spec fn rfind_seq(s: Seq<char>, c: char) -> Option<int> {
    let k = last_idx(0, s.len() as int, char_at(s, c));
    if k >= 0 {
        Some(k)
    } else {
        None
    }
}

/// The first index of the two-character pattern `ab` in `s`.
pub open spec fn find_pair_seq(s: Seq<char>, a: char, b: char) -> Option<int> {
    let k = first_idx(0, s.len() as int, pair_at(s, a, b));
    if k < s.len() {
        Some(k)
    } else {
        None
    }
}

pub open spec fn sub_at(s: Seq<char>, p: Seq<char>) -> spec_fn(int) -> bool {
    |i: int| occurs_at(s, p, i)
}

/// The first index at which `p` occurs in `s` (`str::find` with a `&str` pattern).
pub open spec fn find_sub_seq(s: Seq<char>, p: Seq<char>) -> Option<int> {
    let k = first_idx(0, s.len() + 1int, sub_at(s, p));
    if k <= s.len() {
        Some(k)
    } else {
        None
    }
}

pub fn find_sub(s: &Vec<char>, p: &Vec<char>) -> (r: Option<usize>)
    ensures
        match r {
            Some(k) => find_sub_seq(s@, p@) == Some(k as int),
            None => find_sub_seq(s@, p@) is None,
        },
{
    if p.len() > s.len() {
        proof {
            lemma_first_idx(0, s@.len() + 1int, sub_at(s@, p@), s@.len() + 1int);
        }
        return None;
    }
    let last = s.len() - p.len();
    let mut i: usize = 0;
    loop
        invariant
            i <= last,
            last == s@.len() - p@.len(),
            forall|j: int| 0 <= j < i ==> !#[trigger] occurs_at(s@, p@, j),
        decreases last - i,
    {
        if matches_at(s, p, i) {
            proof {
                lemma_first_idx(0, s@.len() + 1int, sub_at(s@, p@), i as int);
            }
            return Some(i);
        }
        if i == last {
            proof {
                lemma_first_idx(0, s@.len() + 1int, sub_at(s@, p@), s@.len() + 1int);
            }
            return None;
        }
        i += 1;
    }
}

pub fn find_char(s: &Vec<char>, c: char) -> (r: Option<usize>)
    ensures
        r matches Some(k) ==> find_seq(s@, c) == Some(k as int),
        r is None ==> find_seq(s@, c) is None,
{
    let mut i: usize = 0;
    while i < s.len() && s[i] != c
        invariant
            i <= s.len(),
            forall|j: int| 0 <= j < i ==> #[trigger] s@[j] != c,
        decreases s.len() - i,
    {
        i += 1;
    }
    proof {
        lemma_first_idx(0, s@.len() as int, char_at(s@, c), i as int);
    }
    if i < s.len() {
        Some(i)
    } else {
        None
    }
}

pub fn rfind_char(s: &Vec<char>, c: char) -> (r: Option<usize>)
    ensures
        r matches Some(k) ==> rfind_seq(s@, c) == Some(k as int),
        r is None ==> rfind_seq(s@, c) is None,
{
    let mut i: usize = s.len();
    while i > 0 && s[i - 1] != c
        invariant
            i <= s.len(),
            forall|j: int| i <= j < s.len() ==> #[trigger] s@[j] != c,
        decreases i,
    {
        i -= 1;
    }
    proof {
        lemma_last_idx(0, s@.len() as int, char_at(s@, c), i - 1);
    }
    if i > 0 {
        Some(i - 1)
    } else {
        None
    }
}

pub fn find_pair(s: &Vec<char>, a: char, b: char) -> (r: Option<usize>)
    ensures
        r matches Some(k) ==> find_pair_seq(s@, a, b) == Some(k as int),
        r is None ==> find_pair_seq(s@, a, b) is None,
{
    let mut i: usize = 0;
    while i < s.len() && !(i + 1 < s.len() && s[i] == a && s[i + 1] == b)
        invariant
            i <= s.len(),
            forall|j: int| 0 <= j < i ==> !(j + 1 < s@.len() && #[trigger] s@[j] == a && s@[j + 1] == b),
        decreases s.len() - i,
    {
        i += 1;
    }
    proof {
        lemma_first_idx(0, s@.len() as int, pair_at(s@, a, b), i as int);
    }
    if i < s.len() {
        Some(i)
    } else {
        None
    }
}

pub open spec fn starts_with_seq(s: Seq<char>, p: Seq<char>) -> bool {
    p.len() <= s.len() && s.take(p.len() as int) == p
}

pub open spec fn ends_with_seq(s: Seq<char>, p: Seq<char>) -> bool {
    p.len() <= s.len() && s.skip(s.len() - p.len()) == p
}

/// Whether `p` occurs in `s` at position `i`.
pub open spec fn occurs_at(s: Seq<char>, p: Seq<char>, i: int) -> bool {
    0 <= i && i + p.len() <= s.len() && s.subrange(i, i + p.len()) == p
}

pub open spec fn contains_seq(s: Seq<char>, p: Seq<char>) -> bool {
    exists|i: int| occurs_at(s, p, i)
}

pub(crate) fn matches_at(s: &Vec<char>, p: &Vec<char>, i: usize) -> (r: bool)
    requires
        i + p.len() <= s.len(),
    ensures
        r == occurs_at(s@, p@, i as int),
{
    let mut j: usize = 0;
    while j < p.len()
        invariant
            i + p.len() <= s.len(),
            j <= p.len(),
            forall|k: int| 0 <= k < j ==> s@[i + k] == p@[k],
        decreases p.len() - j,
    {
        if s[i + j] != p[j] {
            proof {
                assert(s@.subrange(i as int, i + p.len())[j as int] != p@[j as int]);
            }
            return false;
        }
        j += 1;
    }
    assert(s@.subrange(i as int, i + p.len()) =~= p@);
    true
}

pub fn starts_with(s: &Vec<char>, p: &Vec<char>) -> (r: bool)
    ensures
        r == starts_with_seq(s@, p@),
{
    if p.len() > s.len() {
        return false;
    }
    let r = matches_at(s, p, 0);
    assert(s@.subrange(0, p.len() as int) =~= s@.take(p.len() as int));
    r
}

pub fn ends_with(s: &Vec<char>, p: &Vec<char>) -> (r: bool)
    ensures
        r == ends_with_seq(s@, p@),
{
    if p.len() > s.len() {
        return false;
    }
    let r = matches_at(s, p, s.len() - p.len());
    assert(s@.subrange(s.len() - p.len(), s.len() as int) =~= s@.skip(s.len() - p.len()));
    r
}

pub fn contains(s: &Vec<char>, p: &Vec<char>) -> (r: bool)
    ensures
        r == contains_seq(s@, p@),
{
    if p.len() > s.len() {
        return false;
    }
    if p.len() == 0 {
        assert(s@.subrange(0, 0) =~= p@);
        assert(occurs_at(s@, p@, 0));
        return true;
    }
    let mut i: usize = 0;
    while i <= s.len() - p.len()
        invariant
            1 <= p.len() <= s.len(),
            i <= s.len() - p.len() + 1,
            forall|k: int| 0 <= k < i ==> !occurs_at(s@, p@, k),
        decreases s.len() - p.len() + 1 - i,
    {
        if matches_at(s, p, i) {
            return true;
        }
        i += 1;
    }
    false
}

pub fn eq_chars(a: &Vec<char>, b: &Vec<char>) -> (r: bool)
    ensures
        r == (a@ == b@),
{
    if a.len() != b.len() {
        return false;
    }
    let mut i: usize = 0;
    while i < a.len()
        invariant
            a.len() == b.len(),
            i <= a.len(),
            forall|k: int| 0 <= k < i ==> a@[k] == b@[k],
        decreases a.len() - i,
    {
        if a[i] != b[i] {
            return false;
        }
        i += 1;
    }
    assert(a@ =~= b@);
    true
}

/// Concatenation of two character vectors.
pub fn concat(a: &Vec<char>, b: &Vec<char>) -> (r: Vec<char>)
    ensures
        r@ == a@ + b@,
{
    let mut r = slice_of(a, 0, a.len());
    let mut i: usize = 0;
    while i < b.len()
        invariant
            i <= b.len(),
            r@ == a@ + b@.take(i as int),
        decreases b.len() - i,
    {
        r.push(b[i]);
        i += 1;
        assert(r@ =~= a@ + b@.take(i as int));
    }
    assert(b@.take(b.len() as int) =~= b@);
    r
}

/// Appends `b` to `a` in place.
pub fn append(a: &mut Vec<char>, b: &Vec<char>)
    ensures
        final(a)@ == old(a)@ + b@,
{
    let mut i: usize = 0;
    while i < b.len()
        invariant
            i <= b.len(),
            a@ == old(a)@ + b@.take(i as int),
        decreases b.len() - i,
    {
        a.push(b[i]);
        i += 1;
        assert(a@ =~= old(a)@ + b@.take(i as int));
    }
    assert(b@.take(b.len() as int) =~= b@);
}

// ── Replacement ───────────────────────────────────────────────────────────────

/// `s` with every non-overlapping occurrence of `pat` replaced by `rep`,
/// matched left to right (`str::replace` for a non-empty pattern).
pub open spec fn replace_seq(s: Seq<char>, pat: Seq<char>, rep: Seq<char>) -> Seq<char>
    decreases s.len(),
{
    if s.len() == 0 {
        s
    } else if pat.len() > 0 && starts_with_seq(s, pat) {
        rep + replace_seq(s.skip(pat.len() as int), pat, rep)
    } else {
        seq![s[0]] + replace_seq(s.skip(1), pat, rep)
    }
}

/// Replaces every occurrence of `pat` in `s` by `rep`, scanning left to right.
pub fn replace_all(s: &Vec<char>, pat: &Vec<char>, rep: &Vec<char>) -> (r: Vec<char>)
    requires
        pat.len() > 0,
    ensures
        r@ == replace_seq(s@, pat@, rep@),
{
    let mut out: Vec<char> = Vec::new();
    let mut i: usize = 0;
    assert(s@.skip(0) =~= s@);
    while i < s.len()
        invariant
            pat.len() > 0,
            i <= s.len(),
            out@ + replace_seq(s@.skip(i as int), pat@, rep@) == replace_seq(s@, pat@, rep@),
        decreases s.len() - i,
    {
        let ghost rest = s@.skip(i as int);
        let hit = pat.len() <= s.len() - i && matches_at(s, pat, i);
        proof {
            if pat@.len() <= rest.len() {
                assert(rest.take(pat@.len() as int) =~= s@.subrange(i as int, i + pat@.len()));
            }
        }
        if hit {
            assert(starts_with_seq(rest, pat@));
            assert(rest.skip(pat@.len() as int) =~= s@.skip(i + pat@.len()));
            let ghost before = out@;
            append(&mut out, rep);
            i = i + pat.len();
            assert(out@ + replace_seq(s@.skip(i as int), pat@, rep@) =~= before + (rep@
                + replace_seq(rest.skip(pat@.len() as int), pat@, rep@)));
        } else {
            assert(!starts_with_seq(rest, pat@));
            assert(rest.skip(1) =~= s@.skip(i + 1));
            assert(rest[0] == s@[i as int]);
            let ghost before = out@;
            out.push(s[i]);
            i = i + 1;
            assert(out@ + replace_seq(s@.skip(i as int), pat@, rep@) =~= before + (seq![rest[0]]
                + replace_seq(rest.skip(1), pat@, rep@)));
        }
    }
    assert(s@.skip(i as int) =~= Seq::<char>::empty());
    assert(out@ + replace_seq(s@.skip(i as int), pat@, rep@) =~= out@);
    out
}

// ── Ordering and joining ──────────────────────────────────────────────────────

/// `a` sorts before `b` in the lexicographic order of their characters (the
/// order of `str`'s `Ord`, which compares UTF-8 bytes and so code points).
pub open spec fn chars_lt(a: Seq<char>, b: Seq<char>) -> bool
    decreases a.len(),
{
    if b.len() == 0 {
        false
    } else if a.len() == 0 {
        true
    } else if a[0] != b[0] {
        (a[0] as u32) < (b[0] as u32)
    } else {
        chars_lt(a.skip(1), b.skip(1))
    }
}

pub proof fn lemma_chars_lt_irrefl(a: Seq<char>)
    ensures
        !chars_lt(a, a),
    decreases a.len(),
{
    if a.len() > 0 {
        lemma_chars_lt_irrefl(a.skip(1));
    }
}

pub proof fn lemma_chars_lt_trans(a: Seq<char>, b: Seq<char>, c: Seq<char>)
    requires
        chars_lt(a, b),
        chars_lt(b, c),
    ensures
        chars_lt(a, c),
    decreases a.len(),
{
    if a.len() > 0 && b.len() > 0 && c.len() > 0 && a[0] == b[0] && b[0] == c[0] {
        lemma_chars_lt_trans(a.skip(1), b.skip(1), c.skip(1));
    }
}

pub proof fn lemma_chars_lt_total(a: Seq<char>, b: Seq<char>)
    ensures
        a == b || chars_lt(a, b) || chars_lt(b, a),
    decreases a.len(),
{
    if a.len() > 0 && b.len() > 0 && a[0] == b[0] {
        lemma_chars_lt_total(a.skip(1), b.skip(1));
        if a.skip(1) == b.skip(1) {
            assert(a =~= seq![a[0]] + a.skip(1));
            assert(b =~= seq![b[0]] + b.skip(1));
        }
    } else if a.len() == 0 && b.len() == 0 {
        assert(a =~= b);
    } else if a.len() > 0 && b.len() > 0 {
        let x = a[0];
        let y = b[0];
        vstd::utf8::char_u32_cast(x, x as u32);
        vstd::utf8::char_u32_cast(y, y as u32);
    }
}

pub fn less_chars(a: &Vec<char>, b: &Vec<char>) -> (r: bool)
    ensures
        r == chars_lt(a@, b@),
{
    let mut i: usize = 0;
    assert(a@.skip(0) =~= a@ && b@.skip(0) =~= b@);
    while i < a.len() && i < b.len() && a[i] == b[i]
        invariant
            i <= a@.len(),
            i <= b@.len(),
            chars_lt(a@.skip(i as int), b@.skip(i as int)) == chars_lt(a@, b@),
        decreases a@.len() - i,
    {
        assert(a@.skip(i as int).skip(1) =~= a@.skip(i + 1));
        assert(b@.skip(i as int).skip(1) =~= b@.skip(i + 1));
        i += 1;
    }
    if i >= b.len() {
        false
    } else if i >= a.len() {
        true
    } else {
        (a[i] as u32) < (b[i] as u32)
    }
}

/// `ks` with `k` added in order; `ks` is left as is when it holds `k`
/// already (for a sorted `ks` without repeats, the result is one too).
pub open spec fn insert_sorted(ks: Seq<Seq<char>>, k: Seq<char>) -> Seq<Seq<char>>
    decreases ks.len(),
{
    if ks.len() == 0 {
        seq![k]
    } else if ks[0] == k {
        ks
    } else if chars_lt(k, ks[0]) {
        seq![k] + ks
    } else {
        seq![ks[0]] + insert_sorted(ks.skip(1), k)
    }
}

/// The distinct strings of `names`, sorted.
pub open spec fn sorted_distinct(names: Seq<Seq<char>>) -> Seq<Seq<char>>
    decreases names.len(),
{
    if names.len() == 0 {
        Seq::empty()
    } else {
        insert_sorted(sorted_distinct(names.drop_last()), names.last())
    }
}

pub(crate) fn insert_sorted_exec(ks: Vec<Vec<char>>, k: Vec<char>) -> (r: Vec<Vec<char>>)
    ensures
        chars_seqs(r@) == insert_sorted(chars_seqs(ks@), k@),
{
    let ghost orig = chars_seqs(ks@);
    let mut i: usize = 0;
    assert(orig.take(0) + insert_sorted(orig.skip(0), k@) =~= insert_sorted(orig, k@)) by {
        assert(orig.skip(0) =~= orig);
    }
    while i < ks.len() && !eq_chars(&ks[i], &k) && !less_chars(&k, &ks[i])
        invariant
            i <= ks@.len(),
            orig == chars_seqs(ks@),
            insert_sorted(orig, k@) == orig.take(i as int) + insert_sorted(orig.skip(i as int), k@),
        decreases ks@.len() - i,
    {
        proof {
            let rest = orig.skip(i as int);
            assert(rest[0] == orig[i as int]);
            assert(rest.skip(1) =~= orig.skip(i + 1));
            assert(orig.take(i + 1) =~= orig.take(i as int) + seq![rest[0]]);
        }
        i += 1;
    }
    proof {
        if i < ks@.len() {
            assert(orig.skip(i as int)[0] == orig[i as int]);
        } else {
            assert(orig.skip(i as int) =~= Seq::<Seq<char>>::empty());
        }
        assert(orig.take(i as int) + orig.skip(i as int) =~= orig);
    }
    if i < ks.len() && eq_chars(&ks[i], &k) {
        return ks;
    }
    let mut r = ks;
    r.insert(i, k);
    proof {
        assert(chars_seqs(r@) =~= orig.take(i as int) + seq![k@] + orig.skip(i as int));
        if i == ks@.len() {
            assert(orig.skip(i as int) =~= Seq::<Seq<char>>::empty());
            assert(insert_sorted(orig.skip(i as int), k@) =~= seq![k@]);
        }
    }
    r
}

pub open spec fn chars_seqs(v: Seq<Vec<char>>) -> Seq<Seq<char>> {
    v.map_values(|c: Vec<char>| c@)
}

pub open spec fn strings_seqs(v: Seq<String>) -> Seq<Seq<char>> {
    v.map_values(|c: String| c@)
}

/// The distinct strings of `names`, sorted.
pub fn sorted_distinct_exec(names: &Vec<String>) -> (r: Vec<Vec<char>>)
    ensures
        chars_seqs(r@) == sorted_distinct(strings_seqs(names@)),
{
    let ghost nv = strings_seqs(names@);
    let mut acc: Vec<Vec<char>> = Vec::new();
    let mut i: usize = 0;
    assert(chars_seqs(acc@) =~= sorted_distinct(nv.take(0)));
    while i < names.len()
        invariant
            i <= names@.len(),
            nv == strings_seqs(names@),
            chars_seqs(acc@) == sorted_distinct(nv.take(i as int)),
        decreases names@.len() - i,
    {
        assert(nv.take(i + 1).drop_last() =~= nv.take(i as int));
        assert(nv.take(i + 1).last() == names@[i as int]@);
        acc = insert_sorted_exec(acc, chars_of(names[i].as_str()));
        i += 1;
    }
    assert(nv.take(i as int) =~= nv);
    acc
}

/// The strings of `ks` separated by `sep` (`[&str]::join`).
pub open spec fn join_seqs(ks: Seq<Seq<char>>, sep: Seq<char>) -> Seq<char>
    decreases ks.len(),
{
    if ks.len() == 0 {
        Seq::empty()
    } else if ks.len() == 1 {
        ks[0]
    } else {
        join_seqs(ks.drop_last(), sep) + sep + ks.last()
    }
}

pub fn join_chars(ks: &Vec<Vec<char>>, sep: &Vec<char>) -> (r: Vec<char>)
    ensures
        r@ == join_seqs(chars_seqs(ks@), sep@),
{
    let ghost kv = chars_seqs(ks@);
    let mut out: Vec<char> = Vec::new();
    let mut i: usize = 0;
    assert(kv.take(0) =~= Seq::<Seq<char>>::empty());
    while i < ks.len()
        invariant
            i <= ks@.len(),
            kv == chars_seqs(ks@),
            out@ == join_seqs(kv.take(i as int), sep@),
        decreases ks@.len() - i,
    {
        assert(kv.take(i + 1).drop_last() =~= kv.take(i as int));
        assert(kv.take(i + 1).last() == ks@[i as int]@);
        if i > 0 {
            append(&mut out, sep);
        } else {
            assert(kv.take(i as int) =~= Seq::<Seq<char>>::empty());
        }
        append(&mut out, &ks[i]);
        i += 1;
    }
    assert(kv.take(i as int) =~= kv);
    out
}

// ── Conversions at the string boundary ────────────────────────────────────────

/// The characters of `s` (`str::chars`, collected).
#[verifier::external_body]
pub fn chars_of(s: &str) -> (r: Vec<char>)
    ensures
        r@ == s@,
{
    s.chars().collect()
}

/// A `String` holding the characters of `v` (collected through `FromIterator<char>`).
#[verifier::external_body]
pub fn string_of(v: &Vec<char>) -> (r: String)
    ensures
        r@ == v@,
{
    v.iter().collect()
}

/// What `str::to_lowercase` gives for `s`: the full Unicode lowercase mapping.
pub uninterp spec fn lowercase(s: Seq<char>) -> Seq<char>;

/// `str::to_lowercase`. Only names its result: the Unicode case tables are std's.
#[verifier::external_body]
pub(crate) fn to_lowercase(s: &str) -> (r: String)
    ensures
        r@ == lowercase(s@),
{
    s.to_lowercase()
}

/// What `format!("{:?}", s)` gives for a string: `s` in double quotes with
/// `Debug`'s escapes.
pub uninterp spec fn debug_quoted(s: Seq<char>) -> Seq<char>;

/// `Debug` formatting of a `str`. Only names its result: the escape rules are std's.
#[verifier::external_body]
pub(crate) fn debug_str(s: &str) -> (r: String)
    ensures
        r@ == debug_quoted(s@),
{
    format!("{:?}", s)
}

// ── Decimal numbers ───────────────────────────────────────────────────────────

pub open spec fn all_digits(s: Seq<char>) -> bool {
    forall|i: int| 0 <= i < s.len() ==> is_ascii_digit(#[trigger] s[i])
}

/// The value of a string of decimal digits.
pub open spec fn digits_value(s: Seq<char>) -> nat
    decreases s.len(),
{
    if s.len() == 0 {
        0
    } else {
        (digits_value(s.drop_last()) * 10 + digit_value(s.last())) as nat
    }
}

/// What `<u64 as FromStr>::from_str` accepts: an optional `+` and one or more
/// decimal digits whose value fits in the type.
pub open spec fn parse_uint_spec(s: Seq<char>, max: int) -> Option<nat> {
    let d = if s.len() > 0 && s[0] == '+' {
        s.drop_first()
    } else {
        s
    };
    if d.len() > 0 && all_digits(d) && digits_value(d) <= max {
        Some(digits_value(d))
    } else {
        None
    }
}

pub open spec fn parse_u64_spec(s: Seq<char>) -> Option<nat> {
    parse_uint_spec(s, u64::MAX as int)
}

pub open spec fn parse_usize_spec(s: Seq<char>) -> Option<nat> {
    parse_uint_spec(s, usize::MAX as int)
}

proof fn lemma_digits_value_step(s: Seq<char>, i: int)
    requires
        0 <= i < s.len(),
        is_ascii_digit(s[i]),
    ensures
        digits_value(s.take(i + 1)) == digits_value(s.take(i)) * 10 + digit_value(s[i]),
{
    assert(s.take(i + 1).drop_last() =~= s.take(i));
    assert(s.take(i + 1).last() == s[i]);
}

proof fn lemma_digits_value_mono(s: Seq<char>, i: int)
    requires
        0 <= i <= s.len(),
        all_digits(s),
    ensures
        digits_value(s.take(i)) <= digits_value(s),
    decreases s.len() - i,
{
    if i < s.len() {
        lemma_digits_value_mono(s, i + 1);
        lemma_digits_value_step(s, i);
        assert(is_ascii_digit(s[i]));
    } else {
        assert(s.take(i) =~= s);
    }
}

/// Parses an unsigned decimal number no larger than `max`, as the standard
/// library's `FromStr` for unsigned integers does.
pub fn parse_uint(s: &Vec<char>, max: u64) -> (r: Option<u64>)
    requires
        max >= 9,
    ensures
        r matches Some(v) ==> parse_uint_spec(s@, max as int) == Some(v as nat),
        r is None ==> parse_uint_spec(s@, max as int) is None,
{
    let start: usize = if s.len() > 0 && s[0] == '+' {
        1
    } else {
        0
    };
    let ghost d = s@.skip(start as int);
    assert(d =~= (if s@.len() > 0 && s@[0] == '+' {
        s@.drop_first()
    } else {
        s@
    }));
    if start >= s.len() {
        return None;
    }
    let mut acc: u64 = 0;
    let mut i: usize = start;
    while i < s.len()
        invariant
            start <= i <= s.len(),
            d == s@.skip(start as int),
            d == (if s@.len() > 0 && s@[0] == '+' {
                s@.drop_first()
            } else {
                s@
            }),
            max >= 9,
            all_digits(d.take(i - start)),
            acc as nat == digits_value(d.take(i - start)),
            acc <= max,
        decreases s.len() - i,
    {
        let c = s[i];
        if !('0' <= c && c <= '9') {
            proof {
                assert(d[i - start] == c);
                assert(!is_ascii_digit(d[i - start]));
                assert(!all_digits(d));
            }
            return None;
        }
        let dv: u64 = (c as u32 - '0' as u32) as u64;
        assert(dv <= 9);
        proof {
            lemma_digits_value_step(d, i - start);
            assert(d.take(i - start + 1) =~= d.take(i - start).push(c));
        }
        if acc > (max - dv) / 10 {
            proof {
                assert(acc * 10 + dv > max) by (nonlinear_arith)
                    requires
                        acc > (max - dv) / 10,
                        dv <= 9,
                        dv <= max,
                ;
                assert(d[i - start] == c);
                if all_digits(d) {
                    lemma_digits_value_mono(d, i - start + 1);
                }
            }
            return None;
        }
        proof {
            assert(acc * 10 + dv <= max) by (nonlinear_arith)
                requires
                    acc <= (max - dv) / 10,
                    dv <= max,
            ;
        }
        acc = acc * 10 + dv;
        i += 1;
    }
    assert(d.take(s.len() - start) =~= d);
    Some(acc)
}

/// The decimal representation of `n`, as `Display` for integers writes it.
pub open spec fn decimal(n: nat) -> Seq<char>
    decreases n,
{
    if n < 10 {
        seq![((n + 48) as u32) as char]
    } else {
        decimal(n / 10).push((((n % 10) + 48) as u32) as char)
    }
}

pub fn decimal_string(n: u64) -> (r: Vec<char>)
    ensures
        r@ == decimal(n as nat),
    decreases n,
{
    if n < 10 {
        let c: char = ((n as u8) + 48) as char;
        let mut r: Vec<char> = Vec::new();
        r.push(c);
        assert(r@ =~= decimal(n as nat));
        r
    } else {
        let mut r = decimal_string(n / 10);
        let c: char = (((n % 10) as u8) + 48) as char;
        r.push(c);
        r
    }
}

/// The digit of value `d` (below 16) as `{:X}` writes it.
pub open spec fn hex_digit(d: nat) -> char {
    if d < 10 {
        ((d + 48) as u32) as char
    } else {
        ((d + 55) as u32) as char
    }
}

/// `n` in upper-case hexadecimal, as `{:X}` writes it.
pub open spec fn upper_hex(n: nat) -> Seq<char>
    decreases n,
{
    if n < 16 {
        seq![hex_digit(n)]
    } else {
        upper_hex(n / 16).push(hex_digit(n % 16))
    }
}

pub fn upper_hex_string(n: u64) -> (r: Vec<char>)
    ensures
        r@ == upper_hex(n as nat),
    decreases n,
{
    let d = n % 16;
    let c: char = if d < 10 {
        ((d as u8) + 48) as char
    } else {
        ((d as u8) + 55) as char
    };
    if n < 16 {
        let mut r: Vec<char> = Vec::new();
        r.push(c);
        assert(r@ =~= upper_hex(n as nat));
        r
    } else {
        let mut r = upper_hex_string(n / 16);
        r.push(c);
        r
    }
}

// ── Lines ─────────────────────────────────────────────────────────────────────

/// `line` without one trailing carriage return.
pub open spec fn strip_cr(line: Seq<char>) -> Seq<char> {
    if line.len() > 0 && line.last() == '\r' {
        line.drop_last()
    } else {
        line
    }
}

/// `str::lines`: the pieces between `\n`s, a piece that a `\n` ends without
/// its trailing `\r`; a final line ending adds no empty line, a bare `\r` at
/// the very end stays, and the empty text has no lines.
pub open spec fn lines_of(s: Seq<char>) -> Seq<Seq<char>>
    decreases s.len(),
{
    if s.len() == 0 {
        Seq::empty()
    } else {
        match find_seq(s, '\n') {
            None => seq![s],
            Some(i) => {
                proof {
                    lemma_first_idx_props(0, s.len() as int, char_at(s, '\n'));
                }
                seq![strip_cr(s.take(i))] + lines_of(s.skip(i + 1))
            },
        }
    }
}

fn strip_cr_exec(line: &Vec<char>) -> (r: Vec<char>)
    ensures
        r@ == strip_cr(line@),
{
    if line.len() > 0 && line[line.len() - 1] == '\r' {
        slice_of(line, 0, line.len() - 1)
    } else {
        slice_of(line, 0, line.len())
    }
}

/// The lines of `text`, as `str::lines` splits it.
pub fn split_lines(text: &str) -> (r: Vec<String>)
    ensures
        r@.map_values(|v: String| v@) == lines_of(text@),
{
    let s = chars_of(text);
    let mut rest = s.clone();
    let mut out: Vec<String> = Vec::new();
    assert(rest@ == s@);
    while rest.len() > 0
        invariant
            s@ == text@,
            out@.map_values(|v: String| v@) + lines_of(rest@) == lines_of(s@),
        decreases rest@.len(),
    {
        let ghost before = out@.map_values(|v: String| v@);
        let ghost r0 = rest@;
        match find_char(&rest, '\n') {
            None => {
                out.push(string_of(&rest));
                proof {
                    assert(out@.map_values(|v: String| v@) =~= before.push(r0));
                    assert(lines_of(r0) == seq![r0]);
                }
                rest = Vec::new();
                assert(lines_of(rest@) =~= Seq::<Seq<char>>::empty());
                assert(out@.map_values(|v: String| v@) + lines_of(rest@) =~= before + lines_of(r0));
            },
            Some(i) => {
                proof {
                    lemma_first_idx_props(0, r0.len() as int, char_at(r0, '\n'));
                }
                let line = strip_cr_exec(&slice_of(&rest, 0, i));
                out.push(string_of(&line));
                rest = slice_of(&rest, i + 1, rest.len());
                proof {
                    assert(rest@ =~= r0.skip(i + 1));
                    assert(out@.map_values(|v: String| v@) =~= before.push(strip_cr(r0.take(i as int))));
                    assert(lines_of(r0) == seq![strip_cr(r0.take(i as int))] + lines_of(r0.skip(i + 1)));
                    assert(out@.map_values(|v: String| v@) + lines_of(rest@) =~= before + lines_of(r0));
                }
            },
        }
    }
    assert(lines_of(rest@) =~= Seq::<Seq<char>>::empty());
    assert(out@.map_values(|v: String| v@) + lines_of(rest@) =~= out@.map_values(|v: String| v@));
    out
}

} // verus!
