//! Front end of the expression language used by `Eval` actions and
//! `EvalCondition` conditions: tokenizer and parser.
//!
//! ```text
//! expr         = or_expr
//! or_expr      = and_expr ('||' and_expr)*
//! and_expr     = compare_expr ('&&' compare_expr)*
//! compare_expr = add_expr (('==' | '!=' | '<' | '<=' | '>' | '>=') add_expr)?
//! add_expr     = mul_expr (('+' | '-') mul_expr)*
//! mul_expr     = unary   (('*' | '/' | '%') unary)*
//! unary        = '-' unary | primary
//! primary      = '(' expr ')' | string_lit | number_lit | func_call | var_ref | bare_ident
//! var_ref      = ('output' | 'param' | 'local') '.' ident
//! func_call    = ident '(' (expr (',' expr)*)? ')'
//! string_lit   = '\'' ([^'\\] | '\\' ['\\nrt])* '\''
//! number_lit   = [0-9]+ ('.' [0-9]*)?
//! ident        = alpha_or_underscore alnum_or_underscore*
//! ```
//!
//! The parser yields the expression in postfix order: operands come before
//! the operator or call that consumes them. Number literals keep their text;
//! turning them into numbers belongs to evaluation, except for the line
//! picking of `split_lines(text, i)`, which is integer work.
use vstd::prelude::*;

use crate::text::{
    append, char_is_alphabetic, char_is_alphanumeric, chars_of, concat, first_idx,
    is_alphabetic, is_alphanumeric, is_ascii_digit, lemma_first_idx, lemma_first_idx_props,
    lines_of, slice_of, split_lines, string_of,
};

verus! {

// ── Tokens ────────────────────────────────────────────────────────────────────

#[derive(Debug)]
pub enum Token {
    /// A number literal, as written.
    Number(String),
    Str(String),
    Ident(String),
    Dot,
    Plus,
    Minus,
    Star,
    Slash,
    Percent,
    LParen,
    RParen,
    Comma,
    EqEq,
    BangEq,
    Lt,
    LtEq,
    Gt,
    GtEq,
    AmpAmp,
    PipePipe,
}

pub enum TokenView {
    Number(Seq<char>),
    Str(Seq<char>),
    Ident(Seq<char>),
    Dot,
    Plus,
    Minus,
    Star,
    Slash,
    Percent,
    LParen,
    RParen,
    Comma,
    EqEq,
    BangEq,
    Lt,
    LtEq,
    Gt,
    GtEq,
    AmpAmp,
    PipePipe,
}

impl View for Token {
    type V = TokenView;

    open spec fn view(&self) -> TokenView {
        match self {
            Token::Number(s) => TokenView::Number(s@),
            Token::Str(s) => TokenView::Str(s@),
            Token::Ident(s) => TokenView::Ident(s@),
            Token::Dot => TokenView::Dot,
            Token::Plus => TokenView::Plus,
            Token::Minus => TokenView::Minus,
            Token::Star => TokenView::Star,
            Token::Slash => TokenView::Slash,
            Token::Percent => TokenView::Percent,
            Token::LParen => TokenView::LParen,
            Token::RParen => TokenView::RParen,
            Token::Comma => TokenView::Comma,
            Token::EqEq => TokenView::EqEq,
            Token::BangEq => TokenView::BangEq,
            Token::Lt => TokenView::Lt,
            Token::LtEq => TokenView::LtEq,
            Token::Gt => TokenView::Gt,
            Token::GtEq => TokenView::GtEq,
            Token::AmpAmp => TokenView::AmpAmp,
            Token::PipePipe => TokenView::PipePipe,
        }
    }
}

pub open spec fn tokens_view(v: Seq<Token>) -> Seq<TokenView> {
    v.map_values(|t: Token| t@)
}

/// Prefixes `acc` to a successful result; errors pass through.
pub open spec fn prepend<T>(acc: Seq<T>, r: Result<Seq<T>, Seq<char>>) -> Result<Seq<T>, Seq<char>> {
    match r {
        Ok(ts) => Ok(acc + ts),
        Err(e) => Err(e),
    }
}

pub open spec fn is_blank(c: char) -> bool {
    c == ' ' || c == '\t' || c == '\r' || c == '\n'
}

pub open spec fn not_digit_at(s: Seq<char>) -> spec_fn(int) -> bool {
    |k: int| !is_ascii_digit(s[k])
}

pub open spec fn not_ident_at(s: Seq<char>) -> spec_fn(int) -> bool {
    |k: int| !(char_is_alphanumeric(s[k]) || s[k] == '_')
}

/// End of the number literal that starts at `i`: digits, then optionally a
/// dot and more digits.
pub open spec fn number_end(s: Seq<char>, i: int) -> int {
    let j = first_idx(i, s.len() as int, not_digit_at(s));
    if j < s.len() && s[j] == '.' {
        first_idx(j + 1, s.len() as int, not_digit_at(s))
    } else {
        j
    }
}

pub open spec fn ident_end(s: Seq<char>, i: int) -> int {
    first_idx(i, s.len() as int, not_ident_at(s))
}

/// The character an escape `\c` stands for inside a string literal.
pub open spec fn escape_of(c: char) -> Option<char> {
    if c == '\'' {
        Some('\'')
    } else if c == '\\' {
        Some('\\')
    } else if c == 'n' {
        Some('\n')
    } else if c == 'r' {
        Some('\r')
    } else if c == 't' {
        Some('\t')
    } else {
        None
    }
}

/// The body of a string literal from position `i` on (after the opening quote):
/// its content and the position after the closing quote.
pub open spec fn read_string(s: Seq<char>, i: int) -> Result<(Seq<char>, int), Seq<char>>
    decreases s.len() - i,
{
    if i < 0 || i >= s.len() {
        Err("unterminated string literal (missing closing `'`)"@)
    } else if s[i] == '\'' {
        Ok((Seq::empty(), i + 1))
    } else if s[i] == '\\' {
        if i + 1 >= s.len() {
            Err("unterminated escape sequence in string literal"@)
        } else {
            match escape_of(s[i + 1]) {
                None => Err(
                    "unknown escape sequence `\\"@ + seq![s[i + 1]] + "` in string literal"@,
                ),
                Some(e) => match read_string(s, i + 2) {
                    Ok((rest, j)) => Ok((seq![e] + rest, j)),
                    Err(m) => Err(m),
                },
            }
        }
    } else {
        match read_string(s, i + 1) {
            Ok((rest, j)) => Ok((seq![s[i]] + rest, j)),
            Err(m) => Err(m),
        }
    }
}

/// A two-character operator whose second character must be `second`.
pub open spec fn pair_op(
    s: Seq<char>,
    i: int,
    second: char,
    tok: TokenView,
    msg: Seq<char>,
) -> Option<Result<TokenView, Seq<char>>> {
    if i + 1 < s.len() && s[i + 1] == second {
        Some(Ok(tok))
    } else {
        Some(Err(msg))
    }
}

/// The one-character token that `c` stands for, if any.
pub open spec fn single_token(c: char) -> Option<TokenView> {
    if c == '+' {
        Some(TokenView::Plus)
    } else if c == '-' {
        Some(TokenView::Minus)
    } else if c == '*' {
        Some(TokenView::Star)
    } else if c == '/' {
        Some(TokenView::Slash)
    } else if c == '%' {
        Some(TokenView::Percent)
    } else if c == '(' {
        Some(TokenView::LParen)
    } else if c == ')' {
        Some(TokenView::RParen)
    } else if c == ',' {
        Some(TokenView::Comma)
    } else if c == '.' {
        Some(TokenView::Dot)
    } else {
        None
    }
}

/// The tokens of `s` from position `i` on, or the first lexical error.
pub open spec fn tokens_from(s: Seq<char>, i: int) -> Result<Seq<TokenView>, Seq<char>>
    decreases s.len() - i,
{
    if i < 0 || i >= s.len() {
        Ok(Seq::empty())
    } else {
        let c = s[i];
        if is_blank(c) {
            tokens_from(s, i + 1)
        } else if c == '\'' {
            proof {
                lemma_read_string_advances(s, i + 1);
            }
            match read_string(s, i + 1) {
                Err(m) => Err(m),
                Ok((content, j)) => prepend(seq![TokenView::Str(content)], tokens_from(s, j)),
            }
        } else if single_token(c) is Some {
            prepend(seq![single_token(c).unwrap()], tokens_from(s, i + 1))
        } else if c == '=' {
            if i + 1 < s.len() && s[i + 1] == '=' {
                prepend(seq![TokenView::EqEq], tokens_from(s, i + 2))
            } else {
                Err("unexpected `=` — did you mean `==`?"@)
            }
        } else if c == '!' {
            if i + 1 < s.len() && s[i + 1] == '=' {
                prepend(seq![TokenView::BangEq], tokens_from(s, i + 2))
            } else {
                Err("unexpected `!` — did you mean `!=`?"@)
            }
        } else if c == '&' {
            if i + 1 < s.len() && s[i + 1] == '&' {
                prepend(seq![TokenView::AmpAmp], tokens_from(s, i + 2))
            } else {
                Err("unexpected `&` — did you mean `&&`?"@)
            }
        } else if c == '|' {
            if i + 1 < s.len() && s[i + 1] == '|' {
                prepend(seq![TokenView::PipePipe], tokens_from(s, i + 2))
            } else {
                Err("unexpected `|` — did you mean `||`?"@)
            }
        } else if c == '<' {
            if i + 1 < s.len() && s[i + 1] == '=' {
                prepend(seq![TokenView::LtEq], tokens_from(s, i + 2))
            } else {
                prepend(seq![TokenView::Lt], tokens_from(s, i + 1))
            }
        } else if c == '>' {
            if i + 1 < s.len() && s[i + 1] == '=' {
                prepend(seq![TokenView::GtEq], tokens_from(s, i + 2))
            } else {
                prepend(seq![TokenView::Gt], tokens_from(s, i + 1))
            }
        } else if is_ascii_digit(c) {
            proof {
                lemma_number_end(s, i);
            }
            let j = number_end(s, i);
            prepend(seq![TokenView::Number(s.subrange(i, j))], tokens_from(s, j))
        } else if char_is_alphabetic(c) || c == '_' {
            proof {
                lemma_first_idx_props(i + 1, s.len() as int, not_ident_at(s));
            }
            let j = ident_end(s, i + 1);
            prepend(seq![TokenView::Ident(s.subrange(i, j))], tokens_from(s, j))
        } else {
            Err("unexpected character `"@ + seq![c] + "`"@)
        }
    }
}

/// The tokens of an expression, or the first lexical error.
pub open spec fn spec_tokenize(s: Seq<char>) -> Result<Seq<TokenView>, Seq<char>> {
    tokens_from(s, 0)
}

pub proof fn lemma_read_string_advances(s: Seq<char>, i: int)
    ensures
        read_string(s, i) matches Ok((_, j)) ==> i < j <= s.len(),
    decreases s.len() - i,
{
    if 0 <= i < s.len() && s[i] != '\'' {
        if s[i] == '\\' {
            if i + 1 < s.len() {
                lemma_read_string_advances(s, i + 2);
            }
        } else {
            lemma_read_string_advances(s, i + 1);
        }
    }
}

pub proof fn lemma_number_end(s: Seq<char>, i: int)
    requires
        0 <= i < s.len(),
        is_ascii_digit(s[i]),
    ensures
        i < number_end(s, i) <= s.len(),
{
    lemma_first_idx_props(i, s.len() as int, not_digit_at(s));
    let j = first_idx(i, s.len() as int, not_digit_at(s));
    if j < s.len() && s[j] == '.' {
        lemma_first_idx_props(j + 1, s.len() as int, not_digit_at(s));
    }
    if j == i {
        assert(!not_digit_at(s)(i));
    }
}


// ── Postfix form ──────────────────────────────────────────────────────────────

#[derive(Debug, Clone, Copy, PartialEq, Eq, Structural)]
pub enum BinOp {
    Add,
    Sub,
    Mul,
    Div,
    Mod,
    Eq,
    Ne,
    Lt,
    LtEq,
    Gt,
    GtEq,
    And,
    Or,
}

/// One node of an expression in postfix order.
#[derive(Debug)]
pub enum Node {
    /// A number literal, as written.
    Num(String),
    Str(String),
    /// `output.key`, `param.key`, `local.key`; a bare identifier is `local`.
    Var { ns: String, key: String },
    /// Consumes the two values before it.
    Bin(BinOp),
    /// Unary minus: consumes the value before it.
    Neg,
    /// A function call: consumes the `argc` values before it.
    Call { name: String, argc: usize },
}

pub enum NodeView {
    Num(Seq<char>),
    Str(Seq<char>),
    Var(Seq<char>, Seq<char>),
    Bin(BinOp),
    Neg,
    Call(Seq<char>, nat),
}

impl View for Node {
    type V = NodeView;

    open spec fn view(&self) -> NodeView {
        match self {
            Node::Num(s) => NodeView::Num(s@),
            Node::Str(s) => NodeView::Str(s@),
            Node::Var { ns, key } => NodeView::Var(ns@, key@),
            Node::Bin(op) => NodeView::Bin(*op),
            Node::Neg => NodeView::Neg,
            Node::Call { name, argc } => NodeView::Call(name@, *argc as nat),
        }
    }
}

pub open spec fn nodes_view(v: Seq<Node>) -> Seq<NodeView> {
    v.map_values(|n: Node| n@)
}

/// A parse of a prefix of the tokens: the nodes and the position after them.
pub type PRes = Result<(Seq<NodeView>, int), Seq<char>>;

pub open spec fn tok_at(t: Seq<TokenView>, p: int) -> Option<TokenView> {
    if 0 <= p < t.len() {
        Some(t[p])
    } else {
        None
    }
}

/// The text naming a token in error messages.
pub open spec fn token_text(t: TokenView) -> Seq<char> {
    match t {
        TokenView::Number(x) => "Number("@ + x + ")"@,
        TokenView::Str(x) => "Str(\""@ + x + "\")"@,
        TokenView::Ident(x) => "Ident(\""@ + x + "\")"@,
        TokenView::Dot => "Dot"@,
        TokenView::Plus => "Plus"@,
        TokenView::Minus => "Minus"@,
        TokenView::Star => "Star"@,
        TokenView::Slash => "Slash"@,
        TokenView::Percent => "Percent"@,
        TokenView::LParen => "LParen"@,
        TokenView::RParen => "RParen"@,
        TokenView::Comma => "Comma"@,
        TokenView::EqEq => "EqEq"@,
        TokenView::BangEq => "BangEq"@,
        TokenView::Lt => "Lt"@,
        TokenView::LtEq => "LtEq"@,
        TokenView::Gt => "Gt"@,
        TokenView::GtEq => "GtEq"@,
        TokenView::AmpAmp => "AmpAmp"@,
        TokenView::PipePipe => "PipePipe"@,
    }
}

pub open spec fn compare_op(t: Option<TokenView>) -> Option<BinOp> {
    match t {
        Some(TokenView::EqEq) => Some(BinOp::Eq),
        Some(TokenView::BangEq) => Some(BinOp::Ne),
        Some(TokenView::Lt) => Some(BinOp::Lt),
        Some(TokenView::LtEq) => Some(BinOp::LtEq),
        Some(TokenView::Gt) => Some(BinOp::Gt),
        Some(TokenView::GtEq) => Some(BinOp::GtEq),
        _ => None,
    }
}

pub open spec fn add_op(t: Option<TokenView>) -> Option<BinOp> {
    match t {
        Some(TokenView::Plus) => Some(BinOp::Add),
        Some(TokenView::Minus) => Some(BinOp::Sub),
        _ => None,
    }
}

pub open spec fn mul_op(t: Option<TokenView>) -> Option<BinOp> {
    match t {
        Some(TokenView::Star) => Some(BinOp::Mul),
        Some(TokenView::Slash) => Some(BinOp::Div),
        Some(TokenView::Percent) => Some(BinOp::Mod),
        _ => None,
    }
}

/// A sub-parse from `p` that moved forward and stayed in bounds.
pub open spec fn advanced(t: Seq<TokenView>, p: int, q: int) -> bool {
    p < q <= t.len()
}

pub open spec fn no_progress() -> Seq<char> {
    Seq::empty()
}

pub open spec fn ps_or(t: Seq<TokenView>, p: int) -> PRes
    decreases t.len() - p, 6int,
{
    match ps_and(t, p) {
        Err(e) => Err(e),
        Ok((l, p1)) => if advanced(t, p, p1) {
            ps_or_loop(t, l, p1)
        } else {
            Err(no_progress())
        },
    }
}

pub open spec fn ps_or_loop(t: Seq<TokenView>, acc: Seq<NodeView>, p: int) -> PRes
    decreases t.len() - p, 0int,
{
    if tok_at(t, p) == Some(TokenView::PipePipe) {
        match ps_and(t, p + 1) {
            Err(e) => Err(e),
            Ok((r, p2)) => if advanced(t, p + 1, p2) {
                ps_or_loop(t, acc + r + seq![NodeView::Bin(BinOp::Or)], p2)
            } else {
                Err(no_progress())
            },
        }
    } else {
        Ok((acc, p))
    }
}

pub open spec fn ps_and(t: Seq<TokenView>, p: int) -> PRes
    decreases t.len() - p, 5int,
{
    match ps_compare(t, p) {
        Err(e) => Err(e),
        Ok((l, p1)) => if advanced(t, p, p1) {
            ps_and_loop(t, l, p1)
        } else {
            Err(no_progress())
        },
    }
}

pub open spec fn ps_and_loop(t: Seq<TokenView>, acc: Seq<NodeView>, p: int) -> PRes
    decreases t.len() - p, 0int,
{
    if tok_at(t, p) == Some(TokenView::AmpAmp) {
        match ps_compare(t, p + 1) {
            Err(e) => Err(e),
            Ok((r, p2)) => if advanced(t, p + 1, p2) {
                ps_and_loop(t, acc + r + seq![NodeView::Bin(BinOp::And)], p2)
            } else {
                Err(no_progress())
            },
        }
    } else {
        Ok((acc, p))
    }
}

pub open spec fn ps_compare(t: Seq<TokenView>, p: int) -> PRes
    decreases t.len() - p, 4int,
{
    match ps_add(t, p) {
        Err(e) => Err(e),
        Ok((l, p1)) => if advanced(t, p, p1) {
            match compare_op(tok_at(t, p1)) {
                None => Ok((l, p1)),
                Some(op) => match ps_add(t, p1 + 1) {
                    Err(e) => Err(e),
                    Ok((r, p2)) => Ok((l + r + seq![NodeView::Bin(op)], p2)),
                },
            }
        } else {
            Err(no_progress())
        },
    }
}

pub open spec fn ps_add(t: Seq<TokenView>, p: int) -> PRes
    decreases t.len() - p, 3int,
{
    match ps_mul(t, p) {
        Err(e) => Err(e),
        Ok((l, p1)) => if advanced(t, p, p1) {
            ps_add_loop(t, l, p1)
        } else {
            Err(no_progress())
        },
    }
}

pub open spec fn ps_add_loop(t: Seq<TokenView>, acc: Seq<NodeView>, p: int) -> PRes
    decreases t.len() - p, 0int,
{
    match add_op(tok_at(t, p)) {
        None => Ok((acc, p)),
        Some(op) => match ps_mul(t, p + 1) {
            Err(e) => Err(e),
            Ok((r, p2)) => if advanced(t, p + 1, p2) {
                ps_add_loop(t, acc + r + seq![NodeView::Bin(op)], p2)
            } else {
                Err(no_progress())
            },
        },
    }
}

pub open spec fn ps_mul(t: Seq<TokenView>, p: int) -> PRes
    decreases t.len() - p, 2int,
{
    match ps_unary(t, p) {
        Err(e) => Err(e),
        Ok((l, p1)) => if advanced(t, p, p1) {
            ps_mul_loop(t, l, p1)
        } else {
            Err(no_progress())
        },
    }
}

pub open spec fn ps_mul_loop(t: Seq<TokenView>, acc: Seq<NodeView>, p: int) -> PRes
    decreases t.len() - p, 0int,
{
    match mul_op(tok_at(t, p)) {
        None => Ok((acc, p)),
        Some(op) => match ps_unary(t, p + 1) {
            Err(e) => Err(e),
            Ok((r, p2)) => if advanced(t, p + 1, p2) {
                ps_mul_loop(t, acc + r + seq![NodeView::Bin(op)], p2)
            } else {
                Err(no_progress())
            },
        },
    }
}

pub open spec fn ps_unary(t: Seq<TokenView>, p: int) -> PRes
    decreases t.len() - p, 1int,
{
    if tok_at(t, p) == Some(TokenView::Minus) {
        match ps_unary(t, p + 1) {
            Err(e) => Err(e),
            Ok((r, p2)) => Ok((r + seq![NodeView::Neg], p2)),
        }
    } else {
        ps_primary(t, p)
    }
}

pub open spec fn is_namespace(name: Seq<char>) -> bool {
    name == "output"@ || name == "param"@ || name == "local"@
}

pub open spec fn ps_primary(t: Seq<TokenView>, p: int) -> PRes
    decreases t.len() - p, 0int,
{
    match tok_at(t, p) {
        None => Err("unexpected end of expression"@),
        Some(TokenView::LParen) => match ps_or(t, p + 1) {
            Err(e) => Err(e),
            Ok((e, p1)) => if tok_at(t, p1) == Some(TokenView::RParen) {
                Ok((e, p1 + 1))
            } else {
                Err("expected `)` to close grouping"@)
            },
        },
        Some(TokenView::Number(n)) => Ok((seq![NodeView::Num(n)], p + 1)),
        Some(TokenView::Str(x)) => Ok((seq![NodeView::Str(x)], p + 1)),
        Some(TokenView::Ident(name)) => if is_namespace(name) {
            if tok_at(t, p + 1) == Some(TokenView::Dot) {
                match tok_at(t, p + 2) {
                    Some(TokenView::Ident(key)) => Ok((seq![NodeView::Var(name, key)], p + 3)),
                    _ => Err("expected identifier after `"@ + name + ".`"@),
                }
            } else {
                Err("`"@ + name + "` must be followed by `.key`"@)
            }
        } else if tok_at(t, p + 1) == Some(TokenView::LParen) {
            if tok_at(t, p + 2) == Some(TokenView::RParen) {
                Ok((seq![NodeView::Call(name, 0)], p + 3))
            } else {
                ps_args(t, name, Seq::empty(), 0, p + 2)
            }
        } else {
            Ok((seq![NodeView::Var("local"@, name)], p + 1))
        },
        Some(other) => Err("unexpected token `"@ + token_text(other) + "` in expression"@),
    }
}

/// Call arguments from `p` on, after `count` arguments already parsed into `acc`.
pub open spec fn ps_args(
    t: Seq<TokenView>,
    name: Seq<char>,
    acc: Seq<NodeView>,
    count: nat,
    p: int,
) -> PRes
    decreases t.len() - p, 7int,
{
    match ps_or(t, p) {
        Err(e) => Err(e),
        Ok((e, p1)) => if advanced(t, p, p1) {
            if tok_at(t, p1) == Some(TokenView::Comma) {
                ps_args(t, name, acc + e, count + 1, p1 + 1)
            } else if tok_at(t, p1) == Some(TokenView::RParen) {
                Ok((acc + e + seq![NodeView::Call(name, count + 1)], p1 + 1))
            } else {
                Err("expected `)` to close function call"@)
            }
        } else {
            Err(no_progress())
        },
    }
}

/// The postfix form of a whole token sequence.
pub open spec fn spec_parse_tokens(t: Seq<TokenView>) -> Result<Seq<NodeView>, Seq<char>> {
    match ps_or(t, 0) {
        Err(e) => Err(e),
        Ok((nodes, p)) => if 0 <= p < t.len() {
            Err("unexpected token after expression: `"@ + token_text(t[p]) + "`"@)
        } else {
            Ok(nodes)
        },
    }
}

/// The postfix form of an expression, or the first lexical or syntax error.
pub open spec fn spec_parse_expr(s: Seq<char>) -> Result<Seq<NodeView>, Seq<char>> {
    match spec_tokenize(s) {
        Err(e) => Err(e),
        Ok(t) => spec_parse_tokens(t),
    }
}

/// Each comparison symbol is read as the token of that name: `<` and `>`
/// alone as `Lt` and `Gt`, followed by `=` as `LtEq` and `GtEq`, and `==`,
/// `!=` as `EqEq`, `BangEq`; reading goes on after the symbol.
pub proof fn law_comparison_symbols(s: Seq<char>, i: int)
    requires
        0 <= i < s.len(),
    ensures
        s[i] == '<' && !(i + 1 < s.len() && s[i + 1] == '=') ==> tokens_from(s, i) == prepend(
            seq![TokenView::Lt],
            tokens_from(s, i + 1),
        ),
        s[i] == '>' && !(i + 1 < s.len() && s[i + 1] == '=') ==> tokens_from(s, i) == prepend(
            seq![TokenView::Gt],
            tokens_from(s, i + 1),
        ),
        s[i] == '<' && i + 1 < s.len() && s[i + 1] == '=' ==> tokens_from(s, i) == prepend(
            seq![TokenView::LtEq],
            tokens_from(s, i + 2),
        ),
        s[i] == '>' && i + 1 < s.len() && s[i + 1] == '=' ==> tokens_from(s, i) == prepend(
            seq![TokenView::GtEq],
            tokens_from(s, i + 2),
        ),
        s[i] == '=' && i + 1 < s.len() && s[i + 1] == '=' ==> tokens_from(s, i) == prepend(
            seq![TokenView::EqEq],
            tokens_from(s, i + 2),
        ),
        s[i] == '!' && i + 1 < s.len() && s[i + 1] == '=' ==> tokens_from(s, i) == prepend(
            seq![TokenView::BangEq],
            tokens_from(s, i + 2),
        ),
{
}

/// A token that parses on its own as an operand: a number, or a name that
/// is not a namespace (a local variable).
pub open spec fn simple_operand(t: TokenView) -> bool {
    match t {
        TokenView::Number(_) => true,
        TokenView::Ident(n) => !is_namespace(n),
        _ => false,
    }
}

/// The node a simple operand parses to.
pub open spec fn operand_node(t: TokenView) -> NodeView {
    match t {
        TokenView::Number(x) => NodeView::Num(x),
        TokenView::Ident(n) => NodeView::Var("local"@, n),
        _ => NodeView::Neg,
    }
}

proof fn lemma_simple_operand(t: Seq<TokenView>, p: int)
    requires
        0 <= p < t.len(),
        simple_operand(t[p]),
        p + 1 < t.len() ==> compare_op(Some(t[p + 1])) is Some,
    ensures
        ps_add(t, p) == Ok::<(Seq<NodeView>, int), Seq<char>>((seq![operand_node(t[p])], p + 1)),
{
    assert(tok_at(t, p) == Some(t[p]));
    assert(ps_primary(t, p) == Ok::<(Seq<NodeView>, int), Seq<char>>((seq![operand_node(t[p])], p + 1)));
    assert(ps_unary(t, p) == ps_primary(t, p));
    assert(mul_op(tok_at(t, p + 1)) is None);
    assert(add_op(tok_at(t, p + 1)) is None);
    assert(ps_mul_loop(t, seq![operand_node(t[p])], p + 1) == Ok::<(Seq<NodeView>, int), Seq<char>>(
        (seq![operand_node(t[p])], p + 1),
    ));
    assert(ps_mul(t, p) == Ok::<(Seq<NodeView>, int), Seq<char>>((seq![operand_node(t[p])], p + 1)));
}

/// A single comparison `x OP y` of two simple operands parses to the two
/// operands followed by the operator named by the token: `<` is `Lt`, `<=`
/// `LtEq`, `>` `Gt`, `>=` `GtEq`, `==` `Eq`, `!=` `Ne`.
pub proof fn law_comparison_operator(x: TokenView, op: TokenView, y: TokenView)
    requires
        simple_operand(x),
        simple_operand(y),
        op == TokenView::Lt || op == TokenView::LtEq || op == TokenView::Gt || op == TokenView::GtEq || op
            == TokenView::EqEq || op == TokenView::BangEq,
    ensures
        spec_parse_tokens(seq![x, op, y]) == Ok::<Seq<NodeView>, Seq<char>>(
            seq![
                operand_node(x),
                operand_node(y),
                NodeView::Bin(
                    match op {
                        TokenView::Lt => BinOp::Lt,
                        TokenView::LtEq => BinOp::LtEq,
                        TokenView::Gt => BinOp::Gt,
                        TokenView::GtEq => BinOp::GtEq,
                        TokenView::EqEq => BinOp::Eq,
                        _ => BinOp::Ne,
                    },
                ),
            ],
        ),
{
    let t = seq![x, op, y];
    let b = match op {
        TokenView::Lt => BinOp::Lt,
        TokenView::LtEq => BinOp::LtEq,
        TokenView::Gt => BinOp::Gt,
        TokenView::GtEq => BinOp::GtEq,
        TokenView::EqEq => BinOp::Eq,
        _ => BinOp::Ne,
    };
    lemma_simple_operand(t, 0);
    lemma_simple_operand(t, 2);
    assert(tok_at(t, 1) == Some(op));
    assert(compare_op(tok_at(t, 1)) == Some(b));
    let nodes = seq![operand_node(x)] + seq![operand_node(y)] + seq![NodeView::Bin(b)];
    assert(ps_compare(t, 0) == Ok::<(Seq<NodeView>, int), Seq<char>>((nodes, 3)));
    assert(tok_at(t, 3) is None);
    assert(ps_and_loop(t, nodes, 3) == Ok::<(Seq<NodeView>, int), Seq<char>>((nodes, 3)));
    assert(ps_and(t, 0) == Ok::<(Seq<NodeView>, int), Seq<char>>((nodes, 3)));
    assert(ps_or_loop(t, nodes, 3) == Ok::<(Seq<NodeView>, int), Seq<char>>((nodes, 3)));
    assert(ps_or(t, 0) == Ok::<(Seq<NodeView>, int), Seq<char>>((nodes, 3)));
    assert(nodes =~= seq![operand_node(x), operand_node(y), NodeView::Bin(b)]);
}

// ── Tokenizer ─────────────────────────────────────────────────────────────────

fn internal_text(a: &str) -> (r: String)
    ensures
        r@ == a@,
{
    a.to_owned()
}

fn read_string_exec(s: &Vec<char>, start: usize) -> (r: Result<(Vec<char>, usize), String>)
    requires
        start <= s.len(),
    ensures
        match (r, read_string(s@, start as int)) {
            (Ok((c, j)), Ok((c2, j2))) => c@ == c2 && j == j2,
            (Err(m), Err(m2)) => m@ == m2,
            _ => false,
        },
{
    let mut acc: Vec<char> = Vec::new();
    let mut i: usize = start;
    loop
        invariant
            start <= i <= s.len(),
            read_string(s@, start as int) == (match read_string(s@, i as int) {
                Ok((rest, j)) => Ok((acc@ + rest, j)),
                Err(m) => Err(m),
            }),
        decreases s.len() - i,
    {
        if i >= s.len() {
            return Err(internal_text("unterminated string literal (missing closing `'`)"));
        }
        let c = s[i];
        if c == '\'' {
            assert(acc@ + Seq::<char>::empty() =~= acc@);
            return Ok((acc, i + 1));
        }
        if c == '\\' {
            if i + 1 >= s.len() {
                return Err(internal_text("unterminated escape sequence in string literal"));
            }
            let e = s[i + 1];
            let esc: Option<char> = if e == '\'' {
                Some('\'')
            } else if e == '\\' {
                Some('\\')
            } else if e == 'n' {
                Some('\n')
            } else if e == 'r' {
                Some('\r')
            } else if e == 't' {
                Some('\t')
            } else {
                None
            };
            match esc {
                None => {
                    let m0 = chars_of("unknown escape sequence `\\");
                    let mut m = chars_of("unknown escape sequence `\\");
                    m.push(e);
                    assert(m@ =~= m0@ + seq![e]);
                    let m2 = concat(&m, &chars_of("` in string literal"));
                    return Err(string_of(&m2));
                },
                Some(x) => {
                    let ghost before = acc@;
                    acc.push(x);
                    proof {
                        match read_string(s@, i + 2) {
                            Ok((rest, j)) => {
                                assert(before + (seq![x] + rest) =~= acc@ + rest);
                            },
                            Err(_) => {},
                        }
                    }
                    i = i + 2;
                },
            }
        } else {
            let ghost before = acc@;
            acc.push(c);
            proof {
                match read_string(s@, i + 1) {
                    Ok((rest, j)) => {
                        assert(before + (seq![c] + rest) =~= acc@ + rest);
                    },
                    Err(_) => {},
                }
            }
            i = i + 1;
        }
    }
}

fn number_end_exec(s: &Vec<char>, i: usize) -> (j: usize)
    requires
        i < s.len(),
        is_ascii_digit(s@[i as int]),
    ensures
        j == number_end(s@, i as int),
{
    let mut j = i;
    while j < s.len() && '0' <= s[j] && s[j] <= '9'
        invariant
            i <= j <= s.len(),
            forall|k: int| i <= k < j ==> is_ascii_digit(#[trigger] s@[k]),
        decreases s.len() - j,
    {
        j = j + 1;
    }
    proof {
        lemma_first_idx(i as int, s@.len() as int, not_digit_at(s@), j as int);
    }
    if j < s.len() && s[j] == '.' {
        let mut k = j + 1;
        while k < s.len() && '0' <= s[k] && s[k] <= '9'
            invariant
                j + 1 <= k <= s.len(),
                forall|m: int| j + 1 <= m < k ==> is_ascii_digit(#[trigger] s@[m]),
            decreases s.len() - k,
        {
            k = k + 1;
        }
        proof {
            lemma_first_idx(j + 1, s@.len() as int, not_digit_at(s@), k as int);
        }
        k
    } else {
        j
    }
}

fn ident_end_exec(s: &Vec<char>, i: usize) -> (j: usize)
    requires
        i <= s.len(),
    ensures
        j == ident_end(s@, i as int),
{
    let mut j = i;
    while j < s.len() && (is_alphanumeric(s[j]) || s[j] == '_')
        invariant
            i <= j <= s.len(),
            forall|k: int|
                i <= k < j ==> (char_is_alphanumeric(#[trigger] s@[k]) || s@[k] == '_'),
        decreases s.len() - j,
    {
        j = j + 1;
    }
    proof {
        lemma_first_idx(i as int, s@.len() as int, not_ident_at(s@), j as int);
    }
    j
}

fn single_token_exec(c: char) -> (r: Option<Token>)
    ensures
        match (r, single_token(c)) {
            (Some(t), Some(tv)) => t@ == tv,
            (None, None) => true,
            _ => false,
        },
{
    if c == '+' {
        Some(Token::Plus)
    } else if c == '-' {
        Some(Token::Minus)
    } else if c == '*' {
        Some(Token::Star)
    } else if c == '/' {
        Some(Token::Slash)
    } else if c == '%' {
        Some(Token::Percent)
    } else if c == '(' {
        Some(Token::LParen)
    } else if c == ')' {
        Some(Token::RParen)
    } else if c == ',' {
        Some(Token::Comma)
    } else if c == '.' {
        Some(Token::Dot)
    } else {
        None
    }
}

/// Splits an expression into tokens.
pub fn tokenize(s: &Vec<char>) -> (r: Result<Vec<Token>, String>)
    ensures
        match (r, spec_tokenize(s@)) {
            (Ok(ts), Ok(w)) => tokens_view(ts@) == w,
            (Err(m), Err(w)) => m@ == w,
            _ => false,
        },
{
    let mut tokens: Vec<Token> = Vec::new();
    let mut i: usize = 0;
    assert(tokens_view(tokens@) =~= Seq::<TokenView>::empty());
    assert(prepend(Seq::<TokenView>::empty(), tokens_from(s@, 0)) =~= tokens_from(s@, 0)) by {
        match tokens_from(s@, 0) {
            Ok(ts) => {
                assert(Seq::<TokenView>::empty() + ts =~= ts);
            },
            Err(_) => {},
        }
    }
    while i < s.len()
        invariant
            i <= s.len(),
            spec_tokenize(s@) == prepend(tokens_view(tokens@), tokens_from(s@, i as int)),
        decreases s.len() - i,
    {
        let c = s[i];
        let ghost tv0 = tokens_view(tokens@);
        let next_tok: Option<Token>;
        let next_i: usize;
        if c == ' ' || c == '\t' || c == '\r' || c == '\n' {
            next_tok = None;
            next_i = i + 1;
        } else if c == '\'' {
            proof {
                lemma_read_string_advances(s@, i + 1);
            }
            match read_string_exec(s, i + 1) {
                Err(m) => {
                    assert(tokens_from(s@, i as int) == Err::<Seq<TokenView>, Seq<char>>(m@));
                    return Err(m);
                },
                Ok((content, j)) => {
                    next_tok = Some(Token::Str(string_of(&content)));
                    next_i = j;
                },
            }
        } else if let Some(t) = single_token_exec(c) {
            next_tok = Some(t);
            next_i = i + 1;
        } else if c == '=' || c == '!' || c == '&' || c == '|' {
            let second = if c == '&' {
                '&'
            } else if c == '|' {
                '|'
            } else {
                '='
            };
            if i + 1 < s.len() && s[i + 1] == second {
                next_tok = Some(
                    if c == '=' {
                        Token::EqEq
                    } else if c == '!' {
                        Token::BangEq
                    } else if c == '&' {
                        Token::AmpAmp
                    } else {
                        Token::PipePipe
                    },
                );
                next_i = i + 2;
            } else {
                let m = if c == '=' {
                    internal_text("unexpected `=` — did you mean `==`?")
                } else if c == '!' {
                    internal_text("unexpected `!` — did you mean `!=`?")
                } else if c == '&' {
                    internal_text("unexpected `&` — did you mean `&&`?")
                } else {
                    internal_text("unexpected `|` — did you mean `||`?")
                };
                assert(tokens_from(s@, i as int) == Err::<Seq<TokenView>, Seq<char>>(m@));
                return Err(m);
            }
        } else if c == '<' || c == '>' {
            if i + 1 < s.len() && s[i + 1] == '=' {
                next_tok = Some(
                    if c == '<' {
                        Token::LtEq
                    } else {
                        Token::GtEq
                    },
                );
                next_i = i + 2;
            } else {
                next_tok = Some(
                    if c == '<' {
                        Token::Lt
                    } else {
                        Token::Gt
                    },
                );
                next_i = i + 1;
            }
        } else if '0' <= c && c <= '9' {
            proof {
                lemma_number_end(s@, i as int);
            }
            let j = number_end_exec(s, i);
            next_tok = Some(Token::Number(string_of(&slice_of(s, i, j))));
            next_i = j;
        } else if is_alphabetic(c) || c == '_' {
            proof {
                lemma_first_idx_props(i + 1, s@.len() as int, not_ident_at(s@));
            }
            let j = ident_end_exec(s, i + 1);
            next_tok = Some(Token::Ident(string_of(&slice_of(s, i, j))));
            next_i = j;
        } else {
            let m0 = chars_of("unexpected character `");
            let mut m = chars_of("unexpected character `");
            m.push(c);
            assert(m@ =~= m0@ + seq![c]);
            let m2 = concat(&m, &chars_of("`"));
            assert(tokens_from(s@, i as int) == Err::<Seq<TokenView>, Seq<char>>(m2@));
            return Err(string_of(&m2));
        }
        match next_tok {
            None => {},
            Some(t) => {
                proof {
                    match tokens_from(s@, next_i as int) {
                        Ok(ts) => {
                            assert(tv0 + (seq![t@] + ts) =~= tv0.push(t@) + ts);
                        },
                        Err(_) => {},
                    }
                }
                tokens.push(t);
                proof {
                    assert(tokens_view(tokens@) =~= tv0.push(t@));
                }
            },
        }
        i = next_i;
    }
    proof {
        assert(tokens_view(tokens@) + Seq::<TokenView>::empty() =~= tokens_view(tokens@));
    }
    Ok(tokens)
}


// ── Parser ────────────────────────────────────────────────────────────────────

/// A parse result agreeing with the specification `w`, advancing past `p`.
pub open spec fn pres_agrees(r: Result<(Vec<Node>, usize), String>, w: PRes, t: Seq<TokenView>, p: int) -> bool {
    match (r, w) {
        (Ok((n, q)), Ok((nv, q2))) => nodes_view(n@) == nv && q as int == q2 && advanced(t, p, q as int),
        (Err(m), Err(m2)) => m@ == m2,
        _ => false,
    }
}

fn push_node(nodes: &mut Vec<Node>, n: Node)
    ensures
        nodes_view(final(nodes)@) == nodes_view(old(nodes)@).push(n@),
{
    let ghost before = nodes@;
    nodes.push(n);
    assert(nodes_view(nodes@) =~= nodes_view(before).push(n@));
}

fn append_nodes(nodes: &mut Vec<Node>, more: Vec<Node>)
    ensures
        nodes_view(final(nodes)@) == nodes_view(old(nodes)@) + nodes_view(more@),
{
    let ghost before = nodes@;
    let mut more = more;
    let ghost m = more@;
    nodes.append(&mut more);
    assert(nodes_view(nodes@) =~= nodes_view(before) + nodes_view(m));
}

fn is_pipe_pipe(t: &Vec<Token>, p: usize) -> (r: bool)
    ensures
        r == (tok_at(tokens_view(t@), p as int) == Some(TokenView::PipePipe)),
{
    p < t.len() && match &t[p] {
        Token::PipePipe => true,
        _ => false,
    }
}

fn is_amp_amp(t: &Vec<Token>, p: usize) -> (r: bool)
    ensures
        r == (tok_at(tokens_view(t@), p as int) == Some(TokenView::AmpAmp)),
{
    p < t.len() && match &t[p] {
        Token::AmpAmp => true,
        _ => false,
    }
}

fn is_rparen(t: &Vec<Token>, p: usize) -> (r: bool)
    ensures
        r == (tok_at(tokens_view(t@), p as int) == Some(TokenView::RParen)),
{
    p < t.len() && match &t[p] {
        Token::RParen => true,
        _ => false,
    }
}

fn is_lparen(t: &Vec<Token>, p: usize) -> (r: bool)
    ensures
        r == (tok_at(tokens_view(t@), p as int) == Some(TokenView::LParen)),
{
    p < t.len() && match &t[p] {
        Token::LParen => true,
        _ => false,
    }
}

fn is_comma(t: &Vec<Token>, p: usize) -> (r: bool)
    ensures
        r == (tok_at(tokens_view(t@), p as int) == Some(TokenView::Comma)),
{
    p < t.len() && match &t[p] {
        Token::Comma => true,
        _ => false,
    }
}

fn is_dot(t: &Vec<Token>, p: usize) -> (r: bool)
    ensures
        r == (tok_at(tokens_view(t@), p as int) == Some(TokenView::Dot)),
{
    p < t.len() && match &t[p] {
        Token::Dot => true,
        _ => false,
    }
}

fn is_minus(t: &Vec<Token>, p: usize) -> (r: bool)
    ensures
        r == (tok_at(tokens_view(t@), p as int) == Some(TokenView::Minus)),
{
    p < t.len() && match &t[p] {
        Token::Minus => true,
        _ => false,
    }
}

fn compare_op_at(t: &Vec<Token>, p: usize) -> (r: Option<BinOp>)
    ensures
        r == compare_op(tok_at(tokens_view(t@), p as int)),
{
    if p >= t.len() {
        return None;
    }
    match &t[p] {
        Token::EqEq => Some(BinOp::Eq),
        Token::BangEq => Some(BinOp::Ne),
        Token::Lt => Some(BinOp::Lt),
        Token::LtEq => Some(BinOp::LtEq),
        Token::Gt => Some(BinOp::Gt),
        Token::GtEq => Some(BinOp::GtEq),
        _ => None,
    }
}

fn add_op_at(t: &Vec<Token>, p: usize) -> (r: Option<BinOp>)
    ensures
        r == add_op(tok_at(tokens_view(t@), p as int)),
{
    if p >= t.len() {
        return None;
    }
    match &t[p] {
        Token::Plus => Some(BinOp::Add),
        Token::Minus => Some(BinOp::Sub),
        _ => None,
    }
}

fn mul_op_at(t: &Vec<Token>, p: usize) -> (r: Option<BinOp>)
    ensures
        r == mul_op(tok_at(tokens_view(t@), p as int)),
{
    if p >= t.len() {
        return None;
    }
    match &t[p] {
        Token::Star => Some(BinOp::Mul),
        Token::Slash => Some(BinOp::Div),
        Token::Percent => Some(BinOp::Mod),
        _ => None,
    }
}

fn p_or(t: &Vec<Token>, p: usize) -> (r: Result<(Vec<Node>, usize), String>)
    requires
        p <= t.len(),
    ensures
        pres_agrees(r, ps_or(tokens_view(t@), p as int), tokens_view(t@), p as int),
    decreases t.len() - p, 6int,
{
    let ghost tv = tokens_view(t@);
    let (mut nodes, mut q) = match p_and(t, p) {
        Err(e) => {
            return Err(e);
        },
        Ok(x) => x,
    };
    loop
        invariant
            tv == tokens_view(t@),
            p < q <= t.len(),
            ps_or(tv, p as int) == ps_or_loop(tv, nodes_view(nodes@), q as int),
        decreases t.len() - q,
    {
        if !is_pipe_pipe(t, q) {
            return Ok((nodes, q));
        }
        match p_and(t, q + 1) {
            Err(e) => {
                return Err(e);
            },
            Ok((rhs, q2)) => {
                let ghost accv = nodes_view(nodes@);
                let ghost rv = nodes_view(rhs@);
                append_nodes(&mut nodes, rhs);
                push_node(&mut nodes, Node::Bin(BinOp::Or));
                assert(nodes_view(nodes@) =~= accv + rv + seq![NodeView::Bin(BinOp::Or)]);
                q = q2;
            },
        }
    }
}

fn p_and(t: &Vec<Token>, p: usize) -> (r: Result<(Vec<Node>, usize), String>)
    requires
        p <= t.len(),
    ensures
        pres_agrees(r, ps_and(tokens_view(t@), p as int), tokens_view(t@), p as int),
    decreases t.len() - p, 5int,
{
    let ghost tv = tokens_view(t@);
    let (mut nodes, mut q) = match p_compare(t, p) {
        Err(e) => {
            return Err(e);
        },
        Ok(x) => x,
    };
    loop
        invariant
            tv == tokens_view(t@),
            p < q <= t.len(),
            ps_and(tv, p as int) == ps_and_loop(tv, nodes_view(nodes@), q as int),
        decreases t.len() - q,
    {
        if !is_amp_amp(t, q) {
            return Ok((nodes, q));
        }
        match p_compare(t, q + 1) {
            Err(e) => {
                return Err(e);
            },
            Ok((rhs, q2)) => {
                let ghost accv = nodes_view(nodes@);
                let ghost rv = nodes_view(rhs@);
                append_nodes(&mut nodes, rhs);
                push_node(&mut nodes, Node::Bin(BinOp::And));
                assert(nodes_view(nodes@) =~= accv + rv + seq![NodeView::Bin(BinOp::And)]);
                q = q2;
            },
        }
    }
}

fn p_compare(t: &Vec<Token>, p: usize) -> (r: Result<(Vec<Node>, usize), String>)
    requires
        p <= t.len(),
    ensures
        pres_agrees(r, ps_compare(tokens_view(t@), p as int), tokens_view(t@), p as int),
    decreases t.len() - p, 4int,
{
    let (mut nodes, q) = match p_add(t, p) {
        Err(e) => {
            return Err(e);
        },
        Ok(x) => x,
    };
    match compare_op_at(t, q) {
        None => Ok((nodes, q)),
        Some(op) => match p_add(t, q + 1) {
            Err(e) => Err(e),
            Ok((rhs, q2)) => {
                let ghost accv = nodes_view(nodes@);
                let ghost rv = nodes_view(rhs@);
                append_nodes(&mut nodes, rhs);
                push_node(&mut nodes, Node::Bin(op));
                assert(nodes_view(nodes@) =~= accv + rv + seq![NodeView::Bin(op)]);
                Ok((nodes, q2))
            },
        },
    }
}

fn p_add(t: &Vec<Token>, p: usize) -> (r: Result<(Vec<Node>, usize), String>)
    requires
        p <= t.len(),
    ensures
        pres_agrees(r, ps_add(tokens_view(t@), p as int), tokens_view(t@), p as int),
    decreases t.len() - p, 3int,
{
    let ghost tv = tokens_view(t@);
    let (mut nodes, mut q) = match p_mul(t, p) {
        Err(e) => {
            return Err(e);
        },
        Ok(x) => x,
    };
    loop
        invariant
            tv == tokens_view(t@),
            p < q <= t.len(),
            ps_add(tv, p as int) == ps_add_loop(tv, nodes_view(nodes@), q as int),
        decreases t.len() - q,
    {
        let op = match add_op_at(t, q) {
            None => {
                return Ok((nodes, q));
            },
            Some(op) => op,
        };
        match p_mul(t, q + 1) {
            Err(e) => {
                return Err(e);
            },
            Ok((rhs, q2)) => {
                let ghost accv = nodes_view(nodes@);
                let ghost rv = nodes_view(rhs@);
                append_nodes(&mut nodes, rhs);
                push_node(&mut nodes, Node::Bin(op));
                assert(nodes_view(nodes@) =~= accv + rv + seq![NodeView::Bin(op)]);
                q = q2;
            },
        }
    }
}

fn p_mul(t: &Vec<Token>, p: usize) -> (r: Result<(Vec<Node>, usize), String>)
    requires
        p <= t.len(),
    ensures
        pres_agrees(r, ps_mul(tokens_view(t@), p as int), tokens_view(t@), p as int),
    decreases t.len() - p, 2int,
{
    let ghost tv = tokens_view(t@);
    let (mut nodes, mut q) = match p_unary(t, p) {
        Err(e) => {
            return Err(e);
        },
        Ok(x) => x,
    };
    loop
        invariant
            tv == tokens_view(t@),
            p < q <= t.len(),
            ps_mul(tv, p as int) == ps_mul_loop(tv, nodes_view(nodes@), q as int),
        decreases t.len() - q,
    {
        let op = match mul_op_at(t, q) {
            None => {
                return Ok((nodes, q));
            },
            Some(op) => op,
        };
        match p_unary(t, q + 1) {
            Err(e) => {
                return Err(e);
            },
            Ok((rhs, q2)) => {
                let ghost accv = nodes_view(nodes@);
                let ghost rv = nodes_view(rhs@);
                append_nodes(&mut nodes, rhs);
                push_node(&mut nodes, Node::Bin(op));
                assert(nodes_view(nodes@) =~= accv + rv + seq![NodeView::Bin(op)]);
                q = q2;
            },
        }
    }
}

fn p_unary(t: &Vec<Token>, p: usize) -> (r: Result<(Vec<Node>, usize), String>)
    requires
        p <= t.len(),
    ensures
        pres_agrees(r, ps_unary(tokens_view(t@), p as int), tokens_view(t@), p as int),
    decreases t.len() - p, 1int,
{
    if is_minus(t, p) {
        match p_unary(t, p + 1) {
            Err(e) => Err(e),
            Ok((mut nodes, q)) => {
                let ghost accv = nodes_view(nodes@);
                push_node(&mut nodes, Node::Neg);
                assert(nodes_view(nodes@) =~= accv + seq![NodeView::Neg]);
                Ok((nodes, q))
            },
        }
    } else {
        p_primary(t, p)
    }
}

fn token_text_exec(t: &Token) -> (r: Vec<char>)
    ensures
        r@ == token_text(t@),
{
    match t {
        Token::Number(x) => concat(&concat(&chars_of("Number("), &chars_of(x.as_str())), &chars_of(")")),
        Token::Str(x) => concat(&concat(&chars_of("Str(\""), &chars_of(x.as_str())), &chars_of("\")")),
        Token::Ident(x) => concat(&concat(&chars_of("Ident(\""), &chars_of(x.as_str())), &chars_of("\")")),
        Token::Dot => chars_of("Dot"),
        Token::Plus => chars_of("Plus"),
        Token::Minus => chars_of("Minus"),
        Token::Star => chars_of("Star"),
        Token::Slash => chars_of("Slash"),
        Token::Percent => chars_of("Percent"),
        Token::LParen => chars_of("LParen"),
        Token::RParen => chars_of("RParen"),
        Token::Comma => chars_of("Comma"),
        Token::EqEq => chars_of("EqEq"),
        Token::BangEq => chars_of("BangEq"),
        Token::Lt => chars_of("Lt"),
        Token::LtEq => chars_of("LtEq"),
        Token::Gt => chars_of("Gt"),
        Token::GtEq => chars_of("GtEq"),
        Token::AmpAmp => chars_of("AmpAmp"),
        Token::PipePipe => chars_of("PipePipe"),
    }
}

fn text3(a: &str, b: &Vec<char>, c: &str) -> (r: String)
    ensures
        r@ == a@ + b@ + c@,
{
    string_of(&concat(&concat(&chars_of(a), b), &chars_of(c)))
}

fn is_namespace_exec(name: &String) -> (r: bool)
    ensures
        r == is_namespace(name@),
{
    let n = chars_of(name.as_str());
    let a = chars_of("output");
    let b = chars_of("param");
    let c = chars_of("local");
    crate::text::eq_chars(&n, &a) || crate::text::eq_chars(&n, &b) || crate::text::eq_chars(&n, &c)
}

fn p_namespace(t: &Vec<Token>, p: usize, name: &String) -> (r: Result<(Vec<Node>, usize), String>)
    requires
        p < t.len(),
        tokens_view(t@)[p as int] == TokenView::Ident(name@),
        is_namespace(name@),
    ensures
        pres_agrees(r, ps_primary(tokens_view(t@), p as int), tokens_view(t@), p as int),
{
    let ghost tv = tokens_view(t@);
    if is_dot(t, p + 1) {
        if p + 2 < t.len() {
            assert(tv[p + 2] == t@[p + 2]@);
            match &t[p + 2] {
                Token::Ident(key) => {
                    let mut v: Vec<Node> = Vec::new();
                    push_node(&mut v, Node::Var { ns: name.clone(), key: key.clone() });
                    assert(nodes_view(v@) =~= seq![NodeView::Var(name@, key@)]);
                    return Ok((v, p + 3));
                },
                _ => {},
            }
        }
        Err(text3("expected identifier after `", &chars_of(name.as_str()), ".`"))
    } else {
        Err(text3("`", &chars_of(name.as_str()), "` must be followed by `.key`"))
    }
}

fn p_primary(t: &Vec<Token>, p: usize) -> (r: Result<(Vec<Node>, usize), String>)
    requires
        p <= t.len(),
    ensures
        pres_agrees(r, ps_primary(tokens_view(t@), p as int), tokens_view(t@), p as int),
    decreases t.len() - p, 0int,
{
    let ghost tv = tokens_view(t@);
    if p >= t.len() {
        return Err(internal_text("unexpected end of expression"));
    }
    assert(tv[p as int] == t@[p as int]@);
    match &t[p] {
        Token::LParen => match p_or(t, p + 1) {
            Err(e) => Err(e),
            Ok((e, q)) => if is_rparen(t, q) {
                Ok((e, q + 1))
            } else {
                Err(internal_text("expected `)` to close grouping"))
            },
        },
        Token::Number(n) => {
            let mut v: Vec<Node> = Vec::new();
            push_node(&mut v, Node::Num(n.clone()));
            assert(nodes_view(v@) =~= seq![NodeView::Num(n@)]);
            Ok((v, p + 1))
        },
        Token::Str(x) => {
            let mut v: Vec<Node> = Vec::new();
            push_node(&mut v, Node::Str(x.clone()));
            assert(nodes_view(v@) =~= seq![NodeView::Str(x@)]);
            Ok((v, p + 1))
        },
        Token::Ident(name) => {
            if is_namespace_exec(name) {
                p_namespace(t, p, name)
            } else if is_lparen(t, p + 1) {
                if is_rparen(t, p + 2) {
                    let mut v: Vec<Node> = Vec::new();
                    push_node(&mut v, Node::Call { name: name.clone(), argc: 0 });
                    assert(nodes_view(v@) =~= seq![NodeView::Call(name@, 0)]);
                    Ok((v, p + 3))
                } else {
                    p_args(t, name, p + 2)
                }
            } else {
                let mut v: Vec<Node> = Vec::new();
                push_node(&mut v, Node::Var { ns: internal_text("local"), key: name.clone() });
                assert(nodes_view(v@) =~= seq![NodeView::Var("local"@, name@)]);
                Ok((v, p + 1))
            }
        },
        other => Err(text3("unexpected token `", &token_text_exec(other), "` in expression")),
    }
}

fn p_args(t: &Vec<Token>, name: &String, p: usize) -> (r: Result<(Vec<Node>, usize), String>)
    requires
        p <= t.len(),
    ensures
        pres_agrees(r, ps_args(tokens_view(t@), name@, Seq::empty(), 0, p as int), tokens_view(t@), p as int),
    decreases t.len() - p, 7int,
{
    let ghost tv = tokens_view(t@);
    let mut acc: Vec<Node> = Vec::new();
    let mut count: usize = 0;
    let mut q: usize = p;
    assert(nodes_view(acc@) =~= Seq::<NodeView>::empty());
    loop
        invariant
            tv == tokens_view(t@),
            p <= q <= t.len(),
            count <= q,
            ps_args(tv, name@, Seq::empty(), 0, p as int) == ps_args(tv, name@, nodes_view(acc@), count as nat, q as int),
        decreases t.len() - q,
    {
        let (e, q1) = match p_or(t, q) {
            Err(err) => {
                return Err(err);
            },
            Ok(x) => x,
        };
        let ghost accv = nodes_view(acc@);
        let ghost ev = nodes_view(e@);
        append_nodes(&mut acc, e);
        if is_comma(t, q1) {
            count = count + 1;
            q = q1 + 1;
        } else if is_rparen(t, q1) {
            push_node(&mut acc, Node::Call { name: name.clone(), argc: count + 1 });
            assert(nodes_view(acc@) =~= accv + ev + seq![NodeView::Call(name@, (count + 1) as nat)]);
            return Ok((acc, q1 + 1));
        } else {
            return Err(internal_text("expected `)` to close function call"));
        }
    }
}

/// Parses a token sequence into postfix form; the whole sequence must be used.
pub fn parse_tokens(t: &Vec<Token>) -> (r: Result<Vec<Node>, String>)
    ensures
        match (r, spec_parse_tokens(tokens_view(t@))) {
            (Ok(n), Ok(w)) => nodes_view(n@) == w,
            (Err(m), Err(w)) => m@ == w,
            _ => false,
        },
{
    let (nodes, q) = match p_or(t, 0) {
        Err(e) => {
            return Err(e);
        },
        Ok(x) => x,
    };
    if q < t.len() {
        assert(tokens_view(t@)[q as int] == t@[q as int]@);
        return Err(text3("unexpected token after expression: `", &token_text_exec(&t[q]), "`"));
    }
    Ok(nodes)
}

/// Parses an expression into postfix form.
pub fn parse_expression(expr: &str) -> (r: Result<Vec<Node>, String>)
    ensures
        match (r, spec_parse_expr(expr@)) {
            (Ok(n), Ok(w)) => nodes_view(n@) == w,
            (Err(m), Err(w)) => m@ == w,
            _ => false,
        },
{
    let chars = chars_of(expr);
    let tokens = tokenize(&chars)?;
    parse_tokens(&tokens)
}

/// Validates expression syntax without evaluating it: lexical errors,
/// unbalanced parentheses and malformed expressions are reported; variable
/// references are never resolved.
pub fn check_expr_syntax(expr: &str) -> (r: Result<(), String>)
    ensures
        match (r, spec_parse_expr(expr@)) {
            (Ok(_), Ok(_)) => true,
            (Err(m), Err(w)) => m@ == w,
            _ => false,
        },
{
    match parse_expression(expr) {
        Ok(_) => Ok(()),
        Err(e) => Err(e),
    }
}

// ── split_lines(text, i) ──────────────────────────────────────────────────────

/// Line `idx` of `text` (as `str::lines` splits it), counted from the end
/// when negative, a negative index before the first line picking the first;
/// empty past the last line or when there are no lines.
pub open spec fn spec_line_at(text: Seq<char>, idx: int) -> Seq<char> {
    let lines = lines_of(text);
    if lines.len() == 0 {
        Seq::empty()
    } else {
        let i = if idx < 0 {
            if lines.len() + idx < 0 {
                0
            } else {
                lines.len() + idx
            }
        } else {
            idx
        };
        if i < lines.len() {
            lines[i]
        } else {
            Seq::empty()
        }
    }
}

/// The line `split_lines(text, idx)` picks, the index already truncated to
/// an integer.
pub fn line_at(text: &str, idx: i64) -> (r: String)
    ensures
        r@ == spec_line_at(text@, idx as int),
{
    let lines = split_lines(text);
    proof {
        assert(lines@.map_values(|v: String| v@).len() == lines@.len());
    }
    if lines.len() == 0 {
        return String::new();
    }
    if idx >= 0 {
        if (idx as u64) < (lines.len() as u64) {
            let i = idx as usize;
            proof {
                assert(lines@.map_values(|v: String| v@)[i as int] == lines@[i as int]@);
            }
            lines[i].clone()
        } else {
            String::new()
        }
    } else {
        let back: i128 = lines.len() as i128 + idx as i128;
        let i: usize = if back < 0 {
            0
        } else {
            back as usize
        };
        proof {
            assert(lines@.map_values(|v: String| v@)[i as int] == lines@[i as int]@);
        }
        lines[i].clone()
    }
}

} // verus!
