//! Properties of the token vocabulary and of operator precedence that hold
//! for every source and every token sequence.

use vstd::prelude::*;
use crate::ast::{BinOpKind, ExprView};
use crate::lexer::{Scan, Token, TokenKind, is_word_char, lexed, scan_at, token_fits, word_end};
use crate::parser::{
    additive_op, additive_tail, adv, binary, comparison_op, comparison_tail, kind_at,
    multiplicative_op, multiplicative_tail, p_additive, p_comparison, p_expr, p_multiplicative,
    p_unary, same_variant,
};

verus! {

// ---------------------------------------------------------------- symbols

/// How each symbol is spelled in a source; `None` for the other kinds.
pub open spec fn symbol_text(k: TokenKind) -> Option<Seq<char>> {
    match k {
        TokenKind::LParen => Some(seq!['(']),
        TokenKind::RParen => Some(seq![')']),
        TokenKind::LBrace => Some(seq!['{']),
        TokenKind::RBrace => Some(seq!['}']),
        TokenKind::Colon => Some(seq![':']),
        TokenKind::Comma => Some(seq![',']),
        TokenKind::Equals => Some(seq!['=']),
        TokenKind::Arrow => Some(seq!['-', '>']),
        TokenKind::Dot => Some(seq!['.']),
        TokenKind::Lt => Some(seq!['<']),
        TokenKind::Gt => Some(seq!['>']),
        TokenKind::LtEq => Some(seq!['<', '=']),
        TokenKind::GtEq => Some(seq!['>', '=']),
        TokenKind::Plus => Some(seq!['+']),
        TokenKind::Minus => Some(seq!['-']),
        TokenKind::Star => Some(seq!['*']),
        TokenKind::Slash => Some(seq!['/']),
        _ => None,
    }
}

/// A symbol token read at `j` stands on its own spelling in the source.
proof fn lemma_symbol_at(t: Token, src: Seq<char>, j: nat)
    requires
        token_fits(t, src, j),
        symbol_text(t.kind) is Some,
    ensures
        j + symbol_text(t.kind)->0.len() <= src.len(),
        src.subrange(j as int, (j + symbol_text(t.kind)->0.len()) as int) == symbol_text(t.kind)->0,
{
    let s = symbol_text(t.kind)->0;
    assert(scan_at(src, j) is Fixed);
    assert(j < src.len());
    if s.len() == 2 {
        assert(j + 1 < src.len());
    }
    assert(src.subrange(j as int, (j + s.len()) as int) =~= s);
}

/// Every symbol token is spelled in the source where it starts: a token
/// read from `<=` is `LtEq`, one read from `>=` is `GtEq`, and so for each
/// symbol, so that a symbol's kind is fixed by its text.
pub proof fn law_symbols_spelled(toks: Seq<Token>, src: Seq<char>, starts: Seq<nat>, k: int)
    requires
        lexed(toks, src, starts),
        0 <= k < starts.len(),
        symbol_text(toks[k].kind) is Some,
    ensures
        starts[k] + symbol_text(toks[k].kind)->0.len() <= src.len(),
        src.subrange(starts[k] as int, (starts[k] + symbol_text(toks[k].kind)->0.len()) as int)
            == symbol_text(toks[k].kind)->0,
{
    assert(token_fits(toks[k], src, starts[k]));
    lemma_symbol_at(toks[k], src, starts[k]);
}

// ---------------------------------------------------------------- precedence

/// Which of `and` and `or` a token kind is, as the grammar tests it.
proof fn lemma_connective(k: TokenKind)
    ensures
        same_variant(k, TokenKind::And) <==> k is And,
        same_variant(k, TokenKind::Or) <==> k is Or,
{
}

/// `and` binds tighter than `or`: comparisons `x`, `y`, `z` read as
/// `x or y and z` give `Or(x, And(y, z))`.
#[verifier::rlimit(50)]
pub proof fn law_and_binds_tighter_right(
    t: Seq<Token>,
    p: nat,
    x: ExprView,
    q1: nat,
    y: ExprView,
    q2: nat,
    z: ExprView,
    q3: nat,
)
    requires
        p_comparison(t, p) == Ok::<(ExprView, nat), (nat, Seq<char>)>((x, q1)),
        kind_at(t, q1) is Or,
        p_comparison(t, adv(t, q1)) == Ok::<(ExprView, nat), (nat, Seq<char>)>((y, q2)),
        kind_at(t, q2) is And,
        p_comparison(t, adv(t, q2)) == Ok::<(ExprView, nat), (nat, Seq<char>)>((z, q3)),
        !(kind_at(t, q3) is And),
        !(kind_at(t, q3) is Or),
        p <= q1,
        q1 < adv(t, q1) <= q2,
        q2 < adv(t, q2) <= q3,
        q3 < t.len(),
    ensures
        p_expr(t, p) == Ok::<(ExprView, nat), (nat, Seq<char>)>(
            (binary(BinOpKind::Or, x, binary(BinOpKind::And, y, z)), q3),
        ),
{
    lemma_connective(kind_at(t, q1));
    lemma_connective(kind_at(t, q2));
    lemma_connective(kind_at(t, q3));
    let yz = binary(BinOpKind::And, y, z);
    assert(crate::parser::and_tail(t, z, q3) == Ok::<(ExprView, nat), (nat, Seq<char>)>((z, q3)));
    assert(crate::parser::and_tail(t, yz, q3) == Ok::<(ExprView, nat), (nat, Seq<char>)>((yz, q3)));
    assert(crate::parser::and_tail(t, y, q2) == Ok::<(ExprView, nat), (nat, Seq<char>)>((yz, q3)));
    assert(crate::parser::p_and(t, adv(t, q1)) == Ok::<(ExprView, nat), (nat, Seq<char>)>((yz, q3)));
    let all = binary(BinOpKind::Or, x, yz);
    assert(crate::parser::or_tail(t, all, q3) == Ok::<(ExprView, nat), (nat, Seq<char>)>((all, q3)));
    assert(crate::parser::or_tail(t, x, q1) == Ok::<(ExprView, nat), (nat, Seq<char>)>((all, q3)));
    assert(crate::parser::and_tail(t, x, q1) == Ok::<(ExprView, nat), (nat, Seq<char>)>((x, q1)));
    assert(crate::parser::p_and(t, p) == Ok::<(ExprView, nat), (nat, Seq<char>)>((x, q1)));
    assert(crate::parser::p_or(t, p) == Ok::<(ExprView, nat), (nat, Seq<char>)>((all, q3)));
}

/// `and` binds tighter than `or`: comparisons `x`, `y`, `z` read as
/// `x and y or z` give `Or(And(x, y), z)`.
#[verifier::rlimit(50)]
pub proof fn law_and_binds_tighter_left(
    t: Seq<Token>,
    p: nat,
    x: ExprView,
    q1: nat,
    y: ExprView,
    q2: nat,
    z: ExprView,
    q3: nat,
)
    requires
        p_comparison(t, p) == Ok::<(ExprView, nat), (nat, Seq<char>)>((x, q1)),
        kind_at(t, q1) is And,
        p_comparison(t, adv(t, q1)) == Ok::<(ExprView, nat), (nat, Seq<char>)>((y, q2)),
        kind_at(t, q2) is Or,
        p_comparison(t, adv(t, q2)) == Ok::<(ExprView, nat), (nat, Seq<char>)>((z, q3)),
        !(kind_at(t, q3) is And),
        !(kind_at(t, q3) is Or),
        p <= q1,
        q1 < adv(t, q1) <= q2,
        q2 < adv(t, q2) <= q3,
        q3 < t.len(),
    ensures
        p_expr(t, p) == Ok::<(ExprView, nat), (nat, Seq<char>)>(
            (binary(BinOpKind::Or, binary(BinOpKind::And, x, y), z), q3),
        ),
{
    lemma_connective(kind_at(t, q1));
    lemma_connective(kind_at(t, q2));
    lemma_connective(kind_at(t, q3));
    let xy = binary(BinOpKind::And, x, y);
    let all = binary(BinOpKind::Or, xy, z);
    assert(crate::parser::and_tail(t, xy, q2) == Ok::<(ExprView, nat), (nat, Seq<char>)>((xy, q2)));
    assert(crate::parser::and_tail(t, x, q1) == Ok::<(ExprView, nat), (nat, Seq<char>)>((xy, q2)));
    assert(crate::parser::p_and(t, p) == Ok::<(ExprView, nat), (nat, Seq<char>)>((xy, q2)));
    assert(crate::parser::and_tail(t, z, q3) == Ok::<(ExprView, nat), (nat, Seq<char>)>((z, q3)));
    assert(crate::parser::p_and(t, adv(t, q2)) == Ok::<(ExprView, nat), (nat, Seq<char>)>((z, q3)));
    assert(crate::parser::or_tail(t, all, q3) == Ok::<(ExprView, nat), (nat, Seq<char>)>((all, q3)));
    assert(crate::parser::or_tail(t, xy, q2) == Ok::<(ExprView, nat), (nat, Seq<char>)>((all, q3)));
    assert(crate::parser::p_or(t, p) == Ok::<(ExprView, nat), (nat, Seq<char>)>((all, q3)));
}

/// The additive token `k` stands for `op`: `+` for addition, `-` for subtraction.
pub open spec fn additive_spelling(k: TokenKind, op: BinOpKind) -> bool {
    (k is Plus && op == BinOpKind::Add) || (k is Minus && op == BinOpKind::Sub)
}

/// The multiplicative token `k` stands for `op`: `*` for multiplication, `/` for division.
pub open spec fn multiplicative_spelling(k: TokenKind, op: BinOpKind) -> bool {
    (k is Star && op == BinOpKind::Mul) || (k is Slash && op == BinOpKind::Div)
}

/// The comparison token `k` stands for `op`.
pub open spec fn comparison_spelling(k: TokenKind, op: BinOpKind) -> bool {
    ||| (k is Lt && op == BinOpKind::Lt)
    ||| (k is Gt && op == BinOpKind::Gt)
    ||| (k is LtEq && op == BinOpKind::LtEq)
    ||| (k is GtEq && op == BinOpKind::GtEq)
}

/// A token that ends an arithmetic expression: no operator of `+ - * /`.
pub open spec fn ends_arithmetic(k: TokenKind) -> bool {
    !(k is Plus) && !(k is Minus) && !(k is Star) && !(k is Slash)
}

/// Multiplication binds tighter than addition: unary operands `x`, `y`, `z`
/// read as `x + y * z` (with `+` or `-`, and `*` or `/`) give
/// `Add(x, Mul(y, z))`, the operators as spelled.
#[verifier::rlimit(50)]
pub proof fn law_mul_binds_tighter_right(
    t: Seq<Token>,
    p: nat,
    x: ExprView,
    q1: nat,
    y: ExprView,
    q2: nat,
    z: ExprView,
    q3: nat,
    aop: BinOpKind,
    mop: BinOpKind,
)
    requires
        p_unary(t, p) == Ok::<(ExprView, nat), (nat, Seq<char>)>((x, q1)),
        additive_spelling(kind_at(t, q1), aop),
        p_unary(t, adv(t, q1)) == Ok::<(ExprView, nat), (nat, Seq<char>)>((y, q2)),
        multiplicative_spelling(kind_at(t, q2), mop),
        p_unary(t, adv(t, q2)) == Ok::<(ExprView, nat), (nat, Seq<char>)>((z, q3)),
        ends_arithmetic(kind_at(t, q3)),
        p <= q1,
        q1 < adv(t, q1) <= q2,
        q2 < adv(t, q2) <= q3,
        q3 < t.len(),
    ensures
        p_additive(t, p) == Ok::<(ExprView, nat), (nat, Seq<char>)>(
            (binary(aop, x, binary(mop, y, z)), q3),
        ),
{
    let yz = binary(mop, y, z);
    let all = binary(aop, x, yz);
    assert(additive_op(kind_at(t, q1)) == Some(aop));
    assert(multiplicative_op(kind_at(t, q1)) is None);
    assert(multiplicative_op(kind_at(t, q2)) == Some(mop));
    assert(additive_op(kind_at(t, q3)) is None);
    assert(multiplicative_op(kind_at(t, q3)) is None);
    assert(multiplicative_tail(t, x, q1) == Ok::<(ExprView, nat), (nat, Seq<char>)>((x, q1)));
    assert(p_multiplicative(t, p) == Ok::<(ExprView, nat), (nat, Seq<char>)>((x, q1)));
    assert(multiplicative_tail(t, yz, q3) == Ok::<(ExprView, nat), (nat, Seq<char>)>((yz, q3)));
    assert(multiplicative_tail(t, y, q2) == Ok::<(ExprView, nat), (nat, Seq<char>)>((yz, q3)));
    assert(p_multiplicative(t, adv(t, q1)) == Ok::<(ExprView, nat), (nat, Seq<char>)>((yz, q3)));
    assert(additive_tail(t, all, q3) == Ok::<(ExprView, nat), (nat, Seq<char>)>((all, q3)));
    assert(additive_tail(t, x, q1) == Ok::<(ExprView, nat), (nat, Seq<char>)>((all, q3)));
}

/// Multiplication binds tighter than addition: unary operands `x`, `y`, `z`
/// read as `x * y + z` give `Add(Mul(x, y), z)`, the operators as spelled.
#[verifier::rlimit(50)]
pub proof fn law_mul_binds_tighter_left(
    t: Seq<Token>,
    p: nat,
    x: ExprView,
    q1: nat,
    y: ExprView,
    q2: nat,
    z: ExprView,
    q3: nat,
    mop: BinOpKind,
    aop: BinOpKind,
)
    requires
        p_unary(t, p) == Ok::<(ExprView, nat), (nat, Seq<char>)>((x, q1)),
        multiplicative_spelling(kind_at(t, q1), mop),
        p_unary(t, adv(t, q1)) == Ok::<(ExprView, nat), (nat, Seq<char>)>((y, q2)),
        additive_spelling(kind_at(t, q2), aop),
        p_unary(t, adv(t, q2)) == Ok::<(ExprView, nat), (nat, Seq<char>)>((z, q3)),
        ends_arithmetic(kind_at(t, q3)),
        p <= q1,
        q1 < adv(t, q1) <= q2,
        q2 < adv(t, q2) <= q3,
        q3 < t.len(),
    ensures
        p_additive(t, p) == Ok::<(ExprView, nat), (nat, Seq<char>)>(
            (binary(aop, binary(mop, x, y), z), q3),
        ),
{
    let xy = binary(mop, x, y);
    let all = binary(aop, xy, z);
    assert(multiplicative_op(kind_at(t, q1)) == Some(mop));
    assert(additive_op(kind_at(t, q2)) == Some(aop));
    assert(multiplicative_op(kind_at(t, q2)) is None);
    assert(additive_op(kind_at(t, q3)) is None);
    assert(multiplicative_op(kind_at(t, q3)) is None);
    assert(multiplicative_tail(t, xy, q2) == Ok::<(ExprView, nat), (nat, Seq<char>)>((xy, q2)));
    assert(multiplicative_tail(t, x, q1) == Ok::<(ExprView, nat), (nat, Seq<char>)>((xy, q2)));
    assert(p_multiplicative(t, p) == Ok::<(ExprView, nat), (nat, Seq<char>)>((xy, q2)));
    assert(multiplicative_tail(t, z, q3) == Ok::<(ExprView, nat), (nat, Seq<char>)>((z, q3)));
    assert(p_multiplicative(t, adv(t, q2)) == Ok::<(ExprView, nat), (nat, Seq<char>)>((z, q3)));
    assert(additive_tail(t, all, q3) == Ok::<(ExprView, nat), (nat, Seq<char>)>((all, q3)));
    assert(additive_tail(t, xy, q2) == Ok::<(ExprView, nat), (nat, Seq<char>)>((all, q3)));
}

/// Addition binds tighter than comparison: arithmetic operands `x`, `y`,
/// `z` read as `x < y + z` give `Lt(x, Add(y, z))`, the operators as spelled.
#[verifier::rlimit(50)]
pub proof fn law_add_binds_tighter_than_comparison(
    t: Seq<Token>,
    p: nat,
    x: ExprView,
    q1: nat,
    y: ExprView,
    q2: nat,
    z: ExprView,
    q3: nat,
    cop: BinOpKind,
    aop: BinOpKind,
)
    requires
        p_multiplicative(t, p) == Ok::<(ExprView, nat), (nat, Seq<char>)>((x, q1)),
        comparison_spelling(kind_at(t, q1), cop),
        p_multiplicative(t, adv(t, q1)) == Ok::<(ExprView, nat), (nat, Seq<char>)>((y, q2)),
        additive_spelling(kind_at(t, q2), aop),
        p_multiplicative(t, adv(t, q2)) == Ok::<(ExprView, nat), (nat, Seq<char>)>((z, q3)),
        !(kind_at(t, q3) is Plus) && !(kind_at(t, q3) is Minus),
        comparison_op(kind_at(t, q3)) is None,
        p <= q1,
        q1 < adv(t, q1) <= q2,
        q2 < adv(t, q2) <= q3,
        q3 < t.len(),
    ensures
        p_comparison(t, p) == Ok::<(ExprView, nat), (nat, Seq<char>)>(
            (binary(cop, x, binary(aop, y, z)), q3),
        ),
{
    let yz = binary(aop, y, z);
    let all = binary(cop, x, yz);
    assert(comparison_op(kind_at(t, q1)) == Some(cop));
    assert(additive_op(kind_at(t, q1)) is None);
    assert(additive_op(kind_at(t, q2)) == Some(aop));
    assert(additive_op(kind_at(t, q3)) is None);
    assert(additive_tail(t, x, q1) == Ok::<(ExprView, nat), (nat, Seq<char>)>((x, q1)));
    assert(p_additive(t, p) == Ok::<(ExprView, nat), (nat, Seq<char>)>((x, q1)));
    assert(additive_tail(t, yz, q3) == Ok::<(ExprView, nat), (nat, Seq<char>)>((yz, q3)));
    assert(additive_tail(t, y, q2) == Ok::<(ExprView, nat), (nat, Seq<char>)>((yz, q3)));
    assert(p_additive(t, adv(t, q1)) == Ok::<(ExprView, nat), (nat, Seq<char>)>((yz, q3)));
    assert(comparison_tail(t, all, q3) == Ok::<(ExprView, nat), (nat, Seq<char>)>((all, q3)));
    assert(comparison_tail(t, x, q1) == Ok::<(ExprView, nat), (nat, Seq<char>)>((all, q3)));
}

// ---------------------------------------------------------------- keywords

/// How each keyword is spelled; `None` for the other kinds.
pub open spec fn keyword_text(k: TokenKind) -> Option<Seq<char>> {
    match k {
        TokenKind::Vessel => Some("vessel"@),
        TokenKind::Boundary => Some("boundary"@),
        TokenKind::Couple => Some("couple"@),
        TokenKind::To => Some("to"@),
        TokenKind::Resign => Some("resign"@),
        TokenKind::Rebalance => Some("rebalance"@),
        TokenKind::Sentient => Some("sentient"@),
        TokenKind::Law => Some("law"@),
        TokenKind::Let => Some("let"@),
        TokenKind::Fn => Some("fn"@),
        TokenKind::Return => Some("return"@),
        TokenKind::If => Some("if"@),
        TokenKind::Else => Some("else"@),
        TokenKind::Forall => Some("forall"@),
        TokenKind::True => Some("true"@),
        TokenKind::False => Some("false"@),
        TokenKind::And => Some("and"@),
        TokenKind::Or => Some("or"@),
        TokenKind::Not => Some("not"@),
        _ => None,
    }
}

/// A run of word characters stops at the end or before a character that
/// continues no word.
proof fn lemma_word_end_stops(src: Seq<char>, i: nat)
    ensures
        word_end(src, i) >= i,
        word_end(src, i) >= src.len() || !is_word_char(src[word_end(src, i) as int]),
    decreases src.len() - i,
{
    if i < src.len() && is_word_char(src[i as int]) {
        lemma_word_end_stops(src, i + 1);
    }
}

/// Every keyword token is its whole word in the source: a token read as
/// `and` is spelled `and` and no word character follows it, and so for each
/// keyword.
#[verifier::rlimit(50)]
pub proof fn law_keywords_spelled(toks: Seq<Token>, src: Seq<char>, starts: Seq<nat>, k: int)
    requires
        lexed(toks, src, starts),
        0 <= k < starts.len(),
        keyword_text(toks[k].kind) is Some,
    ensures
        starts[k] + keyword_text(toks[k].kind)->0.len() <= src.len(),
        src.subrange(starts[k] as int, (starts[k] + keyword_text(toks[k].kind)->0.len()) as int)
            == keyword_text(toks[k].kind)->0,
        starts[k] + keyword_text(toks[k].kind)->0.len() == src.len() || !is_word_char(
            src[(starts[k] + keyword_text(toks[k].kind)->0.len()) as int],
        ),
{
    let j = starts[k];
    let t = toks[k];
    assert(token_fits(t, src, j));
    match scan_at(src, j) {
        Scan::Word(e) => {
            lemma_word_end_stops(src, j + 1);
            crate::lexer::lemma_word_end_ge(src, j + 1);
            assert(e == word_end(src, j + 1));
        },
        _ => {},
    }
}

} // verus!
