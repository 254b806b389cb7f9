//! The Vessel recursive-descent parser: from tokens to a `Program`.
//! Precedence, lowest first: `or`, `and`, comparison, `+ -`, `* /`, unary, atom.

use vstd::prelude::*;
use crate::ast::{
    BinOpKind, CoupleDecl, CoupleView, DecimalView, Expr, ExprView, FnDecl, FnView, KappaRange,
    LawDecl, LawView, Program, ProgramView, RangeView, Stmt, StmtView, UnaryOpKind, VesselDecl,
    VesselView, couples_view, decimal_small, expr_ok, expr_view, exprs_view, fn_ready, fns_view,
    hint_small, hint_view, laws_view, lemma_call_args_ok, lemma_exprs_view_index, param_view,
    params_view, program_ready, stmt_value, stmts_view, vessel_ready, vessels_view,
};
use crate::decimal::Decimal;
use crate::error::{DrcKind, Phase, VesselError, VesselResult};
use crate::lexer::{SOURCE_LIMIT, Token, TokenKind, kind_text, literal_ok, text_is, variant_index};

verus! {

/// The parser's state: the tokens and the current position.
pub struct Parser {
    tokens: Vec<Token>,
    pos: usize,
}

/// The outcome of a parsing step: the value and the position after it, or the
/// position of the offending token and the message.
pub type PResult<T> = Result<(T, nat), (nat, Seq<char>)>;

/// Tokens the parser accepts: at least one, the last `Eof`, and every number
/// literal well formed.
pub open spec fn tokens_ok(t: Seq<Token>) -> bool {
    &&& t.len() > 0
    &&& t.last().kind == TokenKind::Eof
    &&& t.len() <= usize::MAX
    &&& forall|i: int| 0 <= i < t.len() ==> #[trigger] literal_ok(t[i].kind)
}

/// The kind of the token at `p` (`Eof` past the end).
pub open spec fn kind_at(t: Seq<Token>, p: nat) -> TokenKind {
    if p < t.len() { t[p as int].kind } else { TokenKind::Eof }
}

/// The position after advancing from `p`: the last token is never passed.
pub open spec fn adv(t: Seq<Token>, p: nat) -> nat {
    if p + 1 < t.len() { p + 1 } else { p }
}

/// Two kinds of the same variant, whatever literal they carry.
pub open spec fn same_variant(a: TokenKind, b: TokenKind) -> bool {
    variant_index(a) == variant_index(b)
}

/// An unreachable outcome: the guards that lead here never fail on real input.
pub open spec fn stuck<T>() -> PResult<T> {
    Err((0, Seq::empty()))
}

/// Expecting a token of kind `k` at `p`.
pub open spec fn eat_spec(t: Seq<Token>, p: nat, k: TokenKind) -> Result<nat, (nat, Seq<char>)> {
    if same_variant(kind_at(t, p), k) {
        Ok(adv(t, p))
    } else {
        Err((p, "Expected "@ + kind_text(k) + ", got "@ + kind_text(kind_at(t, p))))
    }
}

/// Expecting an identifier at `p`.
pub open spec fn eat_ident_spec(t: Seq<Token>, p: nat) -> PResult<Seq<char>> {
    match kind_at(t, p) {
        TokenKind::Ident(s) => Ok((s@, adv(t, p))),
        k => Err((p, "Expected identifier, got "@ + kind_text(k))),
    }
}

/// Expecting a number literal at `p`.
pub open spec fn eat_float_spec(t: Seq<Token>, p: nat) -> PResult<DecimalView> {
    match kind_at(t, p) {
        TokenKind::Float(d) => Ok((d@, adv(t, p))),
        k => Err((p, "Expected float literal, got "@ + kind_text(k))),
    }
}

/// Expecting a field name at `p`: an identifier, or a keyword that names a field.
pub open spec fn eat_field_name_spec(t: Seq<Token>, p: nat) -> PResult<Seq<char>> {
    match kind_at(t, p) {
        TokenKind::Ident(s) => Ok((s@, adv(t, p))),
        TokenKind::Boundary => Ok(("boundary"@, adv(t, p))),
        TokenKind::Couple => Ok(("couple"@, adv(t, p))),
        TokenKind::Vessel => Ok(("vessel"@, adv(t, p))),
        TokenKind::Sentient => Ok(("sentient"@, adv(t, p))),
        TokenKind::Resign => Ok(("resign"@, adv(t, p))),
        TokenKind::Rebalance => Ok(("rebalance"@, adv(t, p))),
        TokenKind::Law => Ok(("law"@, adv(t, p))),
        k => Err((p, "Expected field name, got "@ + kind_text(k))),
    }
}

/// The diagnostic `x` is the parse error at the token `q` with message `m`.
pub open spec fn error_at(x: VesselError, t: Seq<Token>, q: nat, m: Seq<char>) -> bool {
    &&& x.kind == DrcKind::Primary
    &&& x.phase == Phase::Parser
    &&& q < t.len()
    &&& x.line == Some(t[q as int].line)
    &&& x.col == Some(t[q as int].col)
    &&& x.message@ == m
}

/// The executable outcome `r`, with the parser left at `pos`, is the one
/// that the grammar gives.
pub open spec fn fits<T: View>(r: VesselResult<T>, pos: nat, s: PResult<T::V>, t: Seq<Token>) -> bool {
    match s {
        Ok((v, q)) => r matches Ok(x) && x@ == v && pos == q,
        Err((q, m)) => r matches Err(x) && error_at(x, t, q, m),
    }
}

// ---------------------------------------------------------------- expression grammar

pub open spec fn binary(op: BinOpKind, l: ExprView, r: ExprView) -> ExprView {
    ExprView::BinOp(op, Box::new(l), Box::new(r))
}

/// An expression at `p`.
pub open spec fn p_expr(t: Seq<Token>, p: nat) -> PResult<ExprView>
    decreases t.len() - p, 20int,
{
    if p >= t.len() { stuck() } else { p_or(t, p) }
}

pub open spec fn p_or(t: Seq<Token>, p: nat) -> PResult<ExprView>
    decreases t.len() - p, 19int,
{
    if p >= t.len() {
        stuck()
    } else {
        match p_and(t, p) {
            Err(e) => Err(e),
            Ok((l, q)) => if p <= q < t.len() { or_tail(t, l, q) } else { stuck() },
        }
    }
}

pub open spec fn or_tail(t: Seq<Token>, l: ExprView, q: nat) -> PResult<ExprView>
    decreases t.len() - q, 18int,
{
    if q >= t.len() {
        stuck()
    } else if same_variant(kind_at(t, q), TokenKind::Or) {
        match p_and(t, adv(t, q)) {
            Err(e) => Err(e),
            Ok((r, q2)) => if q < q2 < t.len() {
                or_tail(t, binary(BinOpKind::Or, l, r), q2)
            } else {
                stuck()
            },
        }
    } else {
        Ok((l, q))
    }
}

pub open spec fn p_and(t: Seq<Token>, p: nat) -> PResult<ExprView>
    decreases t.len() - p, 17int,
{
    if p >= t.len() {
        stuck()
    } else {
        match p_comparison(t, p) {
            Err(e) => Err(e),
            Ok((l, q)) => if p <= q < t.len() { and_tail(t, l, q) } else { stuck() },
        }
    }
}

pub open spec fn and_tail(t: Seq<Token>, l: ExprView, q: nat) -> PResult<ExprView>
    decreases t.len() - q, 16int,
{
    if q >= t.len() {
        stuck()
    } else if same_variant(kind_at(t, q), TokenKind::And) {
        match p_comparison(t, adv(t, q)) {
            Err(e) => Err(e),
            Ok((r, q2)) => if q < q2 < t.len() {
                and_tail(t, binary(BinOpKind::And, l, r), q2)
            } else {
                stuck()
            },
        }
    } else {
        Ok((l, q))
    }
}

/// The comparison operator that a token stands for.
pub open spec fn comparison_op(k: TokenKind) -> Option<BinOpKind> {
    match k {
        TokenKind::Lt => Some(BinOpKind::Lt),
        TokenKind::Gt => Some(BinOpKind::Gt),
        TokenKind::LtEq => Some(BinOpKind::LtEq),
        TokenKind::GtEq => Some(BinOpKind::GtEq),
        _ => None,
    }
}

/// The additive operator that a token stands for.
pub open spec fn additive_op(k: TokenKind) -> Option<BinOpKind> {
    match k {
        TokenKind::Plus => Some(BinOpKind::Add),
        TokenKind::Minus => Some(BinOpKind::Sub),
        _ => None,
    }
}

/// The multiplicative operator that a token stands for.
pub open spec fn multiplicative_op(k: TokenKind) -> Option<BinOpKind> {
    match k {
        TokenKind::Star => Some(BinOpKind::Mul),
        TokenKind::Slash => Some(BinOpKind::Div),
        _ => None,
    }
}

pub open spec fn p_comparison(t: Seq<Token>, p: nat) -> PResult<ExprView>
    decreases t.len() - p, 15int,
{
    if p >= t.len() {
        stuck()
    } else {
        match p_additive(t, p) {
            Err(e) => Err(e),
            Ok((l, q)) => if p <= q < t.len() { comparison_tail(t, l, q) } else { stuck() },
        }
    }
}

pub open spec fn comparison_tail(t: Seq<Token>, l: ExprView, q: nat) -> PResult<ExprView>
    decreases t.len() - q, 14int,
{
    if q >= t.len() {
        stuck()
    } else {
        match comparison_op(kind_at(t, q)) {
            Some(op) => match p_additive(t, adv(t, q)) {
                Err(e) => Err(e),
                Ok((r, q2)) => if q < q2 < t.len() {
                    comparison_tail(t, binary(op, l, r), q2)
                } else {
                    stuck()
                },
            },
            None => Ok((l, q)),
        }
    }
}

pub open spec fn p_additive(t: Seq<Token>, p: nat) -> PResult<ExprView>
    decreases t.len() - p, 13int,
{
    if p >= t.len() {
        stuck()
    } else {
        match p_multiplicative(t, p) {
            Err(e) => Err(e),
            Ok((l, q)) => if p <= q < t.len() { additive_tail(t, l, q) } else { stuck() },
        }
    }
}

pub open spec fn additive_tail(t: Seq<Token>, l: ExprView, q: nat) -> PResult<ExprView>
    decreases t.len() - q, 12int,
{
    if q >= t.len() {
        stuck()
    } else {
        match additive_op(kind_at(t, q)) {
            Some(op) => match p_multiplicative(t, adv(t, q)) {
                Err(e) => Err(e),
                Ok((r, q2)) => if q < q2 < t.len() {
                    additive_tail(t, binary(op, l, r), q2)
                } else {
                    stuck()
                },
            },
            None => Ok((l, q)),
        }
    }
}

pub open spec fn p_multiplicative(t: Seq<Token>, p: nat) -> PResult<ExprView>
    decreases t.len() - p, 11int,
{
    if p >= t.len() {
        stuck()
    } else {
        match p_unary(t, p) {
            Err(e) => Err(e),
            Ok((l, q)) => if p <= q < t.len() { multiplicative_tail(t, l, q) } else { stuck() },
        }
    }
}

pub open spec fn multiplicative_tail(t: Seq<Token>, l: ExprView, q: nat) -> PResult<ExprView>
    decreases t.len() - q, 10int,
{
    if q >= t.len() {
        stuck()
    } else {
        match multiplicative_op(kind_at(t, q)) {
            Some(op) => match p_unary(t, adv(t, q)) {
                Err(e) => Err(e),
                Ok((r, q2)) => if q < q2 < t.len() {
                    multiplicative_tail(t, binary(op, l, r), q2)
                } else {
                    stuck()
                },
            },
            None => Ok((l, q)),
        }
    }
}

pub open spec fn p_unary(t: Seq<Token>, p: nat) -> PResult<ExprView>
    decreases t.len() - p, 9int,
{
    if p >= t.len() {
        stuck()
    } else if kind_at(t, p) is Not || kind_at(t, p) is Minus {
        let op = if kind_at(t, p) is Not { UnaryOpKind::Not } else { UnaryOpKind::Neg };
        let p1 = adv(t, p);
        if p < p1 {
            match p_unary(t, p1) {
                Err(e) => Err(e),
                Ok((e, q)) => Ok((ExprView::UnaryOp(op, Box::new(e)), q)),
            }
        } else {
            stuck()
        }
    } else {
        p_postfix(t, p)
    }
}

pub open spec fn p_postfix(t: Seq<Token>, p: nat) -> PResult<ExprView>
    decreases t.len() - p, 8int,
{
    if p >= t.len() {
        stuck()
    } else {
        match p_atom(t, p) {
            Err(e) => Err(e),
            Ok((b, q)) => if p <= q < t.len() { postfix_tail(t, b, q) } else { stuck() },
        }
    }
}

pub open spec fn postfix_tail(t: Seq<Token>, b: ExprView, q: nat) -> PResult<ExprView>
    decreases t.len() - q, 7int,
{
    if q >= t.len() {
        stuck()
    } else if same_variant(kind_at(t, q), TokenKind::Dot) {
        match eat_ident_spec(t, adv(t, q)) {
            Err(e) => Err(e),
            Ok((f, q2)) => if q < q2 < t.len() {
                postfix_tail(t, ExprView::Member(Box::new(b), f), q2)
            } else {
                stuck()
            },
        }
    } else {
        Ok((b, q))
    }
}

pub open spec fn p_atom(t: Seq<Token>, p: nat) -> PResult<ExprView>
    decreases t.len() - p, 6int,
{
    if p >= t.len() {
        stuck()
    } else {
        match kind_at(t, p) {
            TokenKind::Float(d) => Ok((ExprView::FloatLit(d@), adv(t, p))),
            TokenKind::True => Ok((ExprView::BoolLit(true), adv(t, p))),
            TokenKind::False => Ok((ExprView::BoolLit(false), adv(t, p))),
            TokenKind::Ident(name) => atom_name(t, p, name@),
            TokenKind::Forall => atom_forall(t, p),
            TokenKind::If => atom_if(t, p),
            TokenKind::LParen => atom_paren(t, p),
            k => Err((p, "Unexpected token in expression: "@ + kind_text(k))),
        }
    }
}

/// A name in an expression, at `p`: a call when `(` follows, else an identifier.
pub open spec fn atom_name(t: Seq<Token>, p: nat, name: Seq<char>) -> PResult<ExprView>
    decreases t.len() - p, 5int,
{
    let p1 = adv(t, p);
    if same_variant(kind_at(t, p1), TokenKind::LParen) {
        let p2 = adv(t, p1);
        if p < p2 < t.len() {
            call_args(t, name, Seq::empty(), p2)
        } else {
            stuck()
        }
    } else {
        Ok((ExprView::Ident(name), p1))
    }
}

/// `forall <param>: <body>`, at `p`.
pub open spec fn atom_forall(t: Seq<Token>, p: nat) -> PResult<ExprView>
    decreases t.len() - p, 5int,
{
    match eat_ident_spec(t, adv(t, p)) {
        Err(e) => Err(e),
        Ok((param, p2)) => match eat_spec(t, p2, TokenKind::Colon) {
            Err(e) => Err(e),
            Ok(p3) => if p < p3 < t.len() {
                match p_expr(t, p3) {
                    Err(e) => Err(e),
                    Ok((body, p4)) => Ok((ExprView::Forall(param, Box::new(body)), p4)),
                }
            } else {
                stuck()
            },
        },
    }
}

/// `if <cond> { <then> } else { <else> }`, at `p`.
pub open spec fn atom_if(t: Seq<Token>, p: nat) -> PResult<ExprView>
    decreases t.len() - p, 5int,
{
    let p1 = adv(t, p);
    if p < p1 < t.len() {
        match p_expr(t, p1) {
            Err(e) => Err(e),
            Ok((c, p2)) => match eat_spec(t, p2, TokenKind::LBrace) {
                Err(e) => Err(e),
                Ok(p3) => if p < p3 < t.len() {
                    match p_expr(t, p3) {
                        Err(e) => Err(e),
                        Ok((th, p4)) => if p < p4 < t.len() {
                            if_else_part(t, c, th, p4)
                        } else {
                            stuck()
                        },
                    }
                } else {
                    stuck()
                },
            },
        }
    } else {
        stuck()
    }
}

/// The rest of an `if` after its `then` expression, from `p4`.
pub open spec fn if_else_part(t: Seq<Token>, c: ExprView, th: ExprView, p4: nat) -> PResult<ExprView>
    decreases t.len() - p4, 4int,
{
    match eat_spec(t, p4, TokenKind::RBrace) {
        Err(e) => Err(e),
        Ok(p5) => match eat_spec(t, p5, TokenKind::Else) {
            Err(e) => Err(e),
            Ok(p6) => match eat_spec(t, p6, TokenKind::LBrace) {
                Err(e) => Err(e),
                Ok(p7) => if p4 < p7 < t.len() {
                    match p_expr(t, p7) {
                        Err(e) => Err(e),
                        Ok((el, p8)) => match eat_spec(t, p8, TokenKind::RBrace) {
                            Err(e) => Err(e),
                            Ok(p9) => Ok(
                                (ExprView::If(Box::new(c), Box::new(th), Box::new(el)), p9),
                            ),
                        },
                    }
                } else {
                    stuck()
                },
            },
        },
    }
}

/// `( <expr> )`, at `p`.
pub open spec fn atom_paren(t: Seq<Token>, p: nat) -> PResult<ExprView>
    decreases t.len() - p, 5int,
{
    let p1 = adv(t, p);
    if p < p1 < t.len() {
        match p_expr(t, p1) {
            Err(e) => Err(e),
            Ok((e, p2)) => match eat_spec(t, p2, TokenKind::RParen) {
                Err(x) => Err(x),
                Ok(p3) => Ok((e, p3)),
            },
        }
    } else {
        stuck()
    }
}

/// The arguments of a call, after `args`, from `p` to the closing parenthesis.
pub open spec fn call_args(t: Seq<Token>, callee: Seq<char>, args: Seq<ExprView>, p: nat) -> PResult<
    ExprView,
>
    decreases t.len() - p, 21int,
{
    if p >= t.len() {
        stuck()
    } else if same_variant(kind_at(t, p), TokenKind::RParen) || same_variant(kind_at(t, p), TokenKind::Eof) {
        match eat_spec(t, p, TokenKind::RParen) {
            Err(e) => Err(e),
            Ok(q) => Ok((ExprView::Call(callee, args), q)),
        }
    } else {
        match p_expr(t, p) {
            Err(e) => Err(e),
            Ok((a, q)) => {
                let q2 = if same_variant(kind_at(t, q), TokenKind::Comma) { adv(t, q) } else { q };
                if p < q2 < t.len() {
                    call_args(t, callee, args.push(a), q2)
                } else {
                    stuck()
                }
            },
        }
    }
}



// ---------------------------------------------------------------- declaration grammar

/// `0.5`, the value of a field that a block leaves out.
pub open spec fn half_view() -> ExprView {
    ExprView::FloatLit((false, seq![0u8, 5u8], 1))
}

/// An optional expression's view.
pub open spec fn opt_expr_view(o: Option<Expr>) -> Option<ExprView> {
    match o {
        Some(e) => Some(e@),
        None => None,
    }
}

/// The fields read so far in a vessel block: kappa, boundary, sentient, observer.
pub type VesselFields = (Option<ExprView>, Option<ExprView>, bool, bool);

/// The fields of a vessel block as the parser holds them.
pub type VesselSlots = (Option<Expr>, Option<Expr>, bool, bool);

/// The kappa and boundary read so far hold only small literals.
pub open spec fn slots_ok(x: VesselSlots) -> bool {
    &&& x.0 matches Some(e) ==> expr_ok(e@)
    &&& x.1 matches Some(e) ==> expr_ok(e@)
}

/// The view of the fields that the parser holds.
pub open spec fn slots_view(x: VesselSlots) -> VesselFields {
    (opt_expr_view(x.0), opt_expr_view(x.1), x.2, x.3)
}

/// Skips one comma at `q`, if there is one.
pub open spec fn skip_comma(t: Seq<Token>, q: nat) -> nat {
    if same_variant(kind_at(t, q), TokenKind::Comma) { adv(t, q) } else { q }
}

/// At `p` a block or list ends: a closing token, or the end of input.
pub open spec fn at_close(t: Seq<Token>, p: nat, close: TokenKind) -> bool {
    same_variant(kind_at(t, p), close) || same_variant(kind_at(t, p), TokenKind::Eof)
}

/// The fields after an expression `e` was read for the field `f`: only
/// `kappa` and `boundary` keep theirs.
pub open spec fn keep_value(f: Seq<char>, st: VesselFields, e: ExprView) -> VesselFields {
    if f == "kappa"@ {
        (Some(e), st.1, st.2, st.3)
    } else if f == "boundary"@ {
        (st.0, Some(e), st.2, st.3)
    } else {
        st
    }
}

/// The value of one vessel field named `f`, read from `p2`: `sentient` and
/// `observer` take the next token (`true` or anything else), every other
/// field an expression.
#[verifier::opaque]
pub open spec fn vessel_field(t: Seq<Token>, f: Seq<char>, p2: nat, st: VesselFields) -> PResult<VesselFields> {
    if f == "sentient"@ {
        Ok(((st.0, st.1, kind_at(t, p2) is True, st.3), adv(t, p2)))
    } else if f == "observer"@ {
        Ok(((st.0, st.1, st.2, kind_at(t, p2) is True), adv(t, p2)))
    } else {
        match p_expr(t, p2) {
            Err(e) => Err(e),
            Ok((e, p3)) => Ok((keep_value(f, st, e), p3)),
        }
    }
}

/// The fields of a vessel block from `p` to its closing brace.
#[verifier::opaque]
pub open spec fn vessel_fields(t: Seq<Token>, p: nat, st: VesselFields) -> PResult<VesselFields>
    decreases t.len() - p,
{
    if p >= t.len() {
        stuck()
    } else if at_close(t, p, TokenKind::RBrace) {
        Ok((st, p))
    } else {
        match eat_field_name_spec(t, p) {
            Err(e) => Err(e),
            Ok((f, p1)) => match eat_spec(t, p1, TokenKind::Colon) {
                Err(e) => Err(e),
                Ok(p2) => match vessel_field(t, f, p2, st) {
                    Err(e) => Err(e),
                    Ok((st2, p3)) => {
                        let p4 = skip_comma(t, p3);
                        if p < p4 < t.len() { vessel_fields(t, p4, st2) } else { stuck() }
                    },
                },
            },
        }
    }
}

/// `vessel <name> { <fields> }` at `p`.
pub open spec fn p_vessel(t: Seq<Token>, p: nat) -> PResult<VesselView> {
    if p >= t.len() {
        stuck()
    } else {
        let line = t[p as int].line as nat;
        match eat_spec(t, p, TokenKind::Vessel) {
            Err(e) => Err(e),
            Ok(p1) => match eat_ident_spec(t, p1) {
                Err(e) => Err(e),
                Ok((name, p2)) => match eat_spec(t, p2, TokenKind::LBrace) {
                    Err(e) => Err(e),
                    Ok(p3) => match vessel_fields(t, p3, (None, None, false, false)) {
                        Err(e) => Err(e),
                        Ok((st, p4)) => match eat_spec(t, p4, TokenKind::RBrace) {
                            Err(e) => Err(e),
                            Ok(p5) => Ok(
                                (
                                    VesselView {
                                        name,
                                        kappa: match st.0 { Some(e) => e, None => half_view() },
                                        boundary: match st.1 { Some(e) => e, None => half_view() },
                                        sentient: st.2,
                                        observer: st.3,
                                        line,
                                    },
                                    p5,
                                ),
                            ),
                        },
                    },
                },
            },
        }
    }
}

/// The fields of a couple block from `p` to its closing brace; only `coupling` is kept.
#[verifier::opaque]
pub open spec fn couple_fields(t: Seq<Token>, p: nat, coupling: ExprView) -> PResult<ExprView>
    decreases t.len() - p,
{
    if p >= t.len() {
        stuck()
    } else if at_close(t, p, TokenKind::RBrace) {
        Ok((coupling, p))
    } else {
        match eat_field_name_spec(t, p) {
            Err(e) => Err(e),
            Ok((f, p1)) => match eat_spec(t, p1, TokenKind::Colon) {
                Err(e) => Err(e),
                Ok(p2) => match p_expr(t, p2) {
                    Err(e) => Err(e),
                    Ok((v, p3)) => {
                        let c2 = if f == "coupling"@ { v } else { coupling };
                        let p4 = skip_comma(t, p3);
                        if p < p4 < t.len() { couple_fields(t, p4, c2) } else { stuck() }
                    },
                },
            },
        }
    }
}

/// `couple <src> to <dst> { <fields> }` at `p`.
pub open spec fn p_couple(t: Seq<Token>, p: nat) -> PResult<CoupleView> {
    if p >= t.len() {
        stuck()
    } else {
        let line = t[p as int].line as nat;
        match eat_spec(t, p, TokenKind::Couple) {
            Err(e) => Err(e),
            Ok(p1) => match eat_ident_spec(t, p1) {
                Err(e) => Err(e),
                Ok((src, p2)) => match eat_spec(t, p2, TokenKind::To) {
                    Err(e) => Err(e),
                    Ok(p3) => match eat_ident_spec(t, p3) {
                        Err(e) => Err(e),
                        Ok((dst, p4)) => match eat_spec(t, p4, TokenKind::LBrace) {
                            Err(e) => Err(e),
                            Ok(p5) => match couple_fields(t, p5, half_view()) {
                                Err(e) => Err(e),
                                Ok((coupling, p6)) => match eat_spec(t, p6, TokenKind::RBrace) {
                                    Err(e) => Err(e),
                                    Ok(p7) => Ok((CoupleView { src, dst, coupling, line }, p7)),
                                },
                            },
                        },
                    },
                },
            },
        }
    }
}

/// `law <name> { forall <param>: <body> }` at `p`.
pub open spec fn p_law(t: Seq<Token>, p: nat) -> PResult<LawView> {
    if p >= t.len() {
        stuck()
    } else {
        let line = t[p as int].line as nat;
        match eat_spec(t, p, TokenKind::Law) {
            Err(e) => Err(e),
            Ok(p1) => match eat_ident_spec(t, p1) {
                Err(e) => Err(e),
                Ok((name, p2)) => match eat_spec(t, p2, TokenKind::LBrace) {
                    Err(e) => Err(e),
                    Ok(p3) => match eat_spec(t, p3, TokenKind::Forall) {
                        Err(e) => Err(e),
                        Ok(p4) => match eat_ident_spec(t, p4) {
                            Err(e) => Err(e),
                            Ok((param, p5)) => match eat_spec(t, p5, TokenKind::Colon) {
                                Err(e) => Err(e),
                                Ok(p6) => match p_expr(t, p6) {
                                    Err(e) => Err(e),
                                    Ok((body, p7)) => match eat_spec(
                                        t,
                                        skip_comma(t, p7),
                                        TokenKind::RBrace,
                                    ) {
                                        Err(e) => Err(e),
                                        Ok(p8) => Ok((LawView { name, param, body, line }, p8)),
                                    },
                                },
                            },
                        },
                    },
                },
            },
        }
    }
}

/// `<lo, hi>` at `p`.
pub open spec fn p_kappa_annotation(t: Seq<Token>, p: nat) -> PResult<RangeView> {
    match eat_spec(t, p, TokenKind::Lt) {
        Err(e) => Err(e),
        Ok(p1) => match eat_float_spec(t, p1) {
            Err(e) => Err(e),
            Ok((lo, p2)) => match eat_spec(t, p2, TokenKind::Comma) {
                Err(e) => Err(e),
                Ok(p3) => match eat_float_spec(t, p3) {
                    Err(e) => Err(e),
                    Ok((hi, p4)) => match eat_spec(t, p4, TokenKind::Gt) {
                        Err(e) => Err(e),
                        Ok(p5) => Ok(((lo, hi), p5)),
                    },
                },
            },
        },
    }
}

/// An optional kappa hint after a `:` or `->` at `q`: read only when `<` follows.
pub open spec fn hint_after(t: Seq<Token>, q: nat) -> PResult<Option<RangeView>> {
    let q1 = adv(t, q);
    if same_variant(kind_at(t, q1), TokenKind::Lt) {
        match p_kappa_annotation(t, q1) {
            Err(e) => Err(e),
            Ok((h, q2)) => Ok((Some(h), q2)),
        }
    } else {
        Ok((None, q1))
    }
}

/// A parameter list from `p` to its closing parenthesis.
#[verifier::opaque]
pub open spec fn fn_params(t: Seq<Token>, p: nat, params: Seq<(Seq<char>, Option<RangeView>)>) -> PResult<
    Seq<(Seq<char>, Option<RangeView>)>,
>
    decreases t.len() - p,
{
    if p >= t.len() {
        stuck()
    } else if at_close(t, p, TokenKind::RParen) {
        Ok((params, p))
    } else {
        match eat_ident_spec(t, p) {
            Err(e) => Err(e),
            Ok((name, p1)) => {
                let hint: PResult<Option<RangeView>> = if same_variant(
                    kind_at(t, p1),
                    TokenKind::Colon,
                ) {
                    hint_after(t, p1)
                } else {
                    Ok((None, p1))
                };
                match hint {
                    Err(e) => Err(e),
                    Ok((h, p3)) => {
                        let p4 = skip_comma(t, p3);
                        if p < p4 < t.len() {
                            fn_params(t, p4, params.push((name, h)))
                        } else {
                            stuck()
                        }
                    },
                }
            },
        }
    }
}

/// A statement at `p`.
pub open spec fn p_stmt(t: Seq<Token>, p: nat) -> PResult<StmtView> {
    if p >= t.len() {
        stuck()
    } else {
        let line = t[p as int].line as nat;
        match kind_at(t, p) {
            TokenKind::Let => match eat_ident_spec(t, adv(t, p)) {
                Err(e) => Err(e),
                Ok((name, p2)) => match eat_spec(t, p2, TokenKind::Equals) {
                    Err(e) => Err(e),
                    Ok(p3) => match p_expr(t, p3) {
                        Err(e) => Err(e),
                        Ok((value, p4)) => Ok((StmtView::Let(name, value, line), p4)),
                    },
                },
            },
            TokenKind::Return => match p_expr(t, adv(t, p)) {
                Err(e) => Err(e),
                Ok((value, p2)) => Ok((StmtView::Return(value, line), p2)),
            },
            _ => match p_expr(t, p) {
                Err(e) => Err(e),
                Ok((value, p2)) => Ok((StmtView::Expr(value, line), p2)),
            },
        }
    }
}

/// A function body from `p` to its closing brace.
#[verifier::opaque]
pub open spec fn fn_body(t: Seq<Token>, p: nat, body: Seq<StmtView>) -> PResult<Seq<StmtView>>
    decreases t.len() - p,
{
    if p >= t.len() {
        stuck()
    } else if at_close(t, p, TokenKind::RBrace) {
        Ok((body, p))
    } else {
        match p_stmt(t, p) {
            Err(e) => Err(e),
            Ok((st, p1)) => if p < p1 < t.len() { fn_body(t, p1, body.push(st)) } else { stuck() },
        }
    }
}

/// The return hint after a parameter list, at `p5`.
pub open spec fn ret_hint_at(t: Seq<Token>, p5: nat) -> PResult<Option<RangeView>> {
    if same_variant(kind_at(t, p5), TokenKind::Arrow) {
        hint_after(t, p5)
    } else {
        Ok((None, p5))
    }
}

/// `fn <name>(<params>) -> <hint> { <body> }` at `p`.
pub open spec fn p_fn(t: Seq<Token>, p: nat) -> PResult<FnView> {
    if p >= t.len() {
        stuck()
    } else {
        let line = t[p as int].line as nat;
        match eat_spec(t, p, TokenKind::Fn) {
            Err(e) => Err(e),
            Ok(p1) => match eat_ident_spec(t, p1) {
                Err(e) => Err(e),
                Ok((name, p2)) => match eat_spec(t, p2, TokenKind::LParen) {
                    Err(e) => Err(e),
                    Ok(p3) => match fn_params(t, p3, Seq::empty()) {
                        Err(e) => Err(e),
                        Ok((params, p4)) => match eat_spec(t, p4, TokenKind::RParen) {
                            Err(e) => Err(e),
                            Ok(p5) => match ret_hint_at(t, p5) {
                                Err(e) => Err(e),
                                Ok((ret_hint, p6)) => match eat_spec(t, p6, TokenKind::LBrace) {
                                    Err(e) => Err(e),
                                    Ok(p7) => match fn_body(t, p7, Seq::empty()) {
                                        Err(e) => Err(e),
                                        Ok((body, p8)) => match eat_spec(t, p8, TokenKind::RBrace) {
                                            Err(e) => Err(e),
                                            Ok(p9) => Ok(
                                                (FnView { name, params, ret_hint, body, line }, p9),
                                            ),
                                        },
                                    },
                                },
                            },
                        },
                    },
                },
            },
        }
    }
}

/// A ready program stays ready with one more ready vessel.
pub proof fn lemma_ready_vessel(p: ProgramView, v: VesselView)
    requires
        program_ready(p),
        vessel_ready(v),
    ensures
        program_ready(ProgramView { vessels: p.vessels.push(v), ..p }),
{
    let q = ProgramView { vessels: p.vessels.push(v), ..p };
    assert forall|i: int| 0 <= i < q.vessels.len() implies #[trigger] vessel_ready(q.vessels[i]) by {
        if i < p.vessels.len() {
            assert(q.vessels[i] == p.vessels[i]);
        }
    }
}

/// A ready program stays ready with one more ready function.
pub proof fn lemma_ready_fn(p: ProgramView, f: FnView)
    requires
        program_ready(p),
        fn_ready(f),
    ensures
        program_ready(ProgramView { fns: p.fns.push(f), ..p }),
{
    let q = ProgramView { fns: p.fns.push(f), ..p };
    assert forall|i: int| 0 <= i < q.fns.len() implies #[trigger] fn_ready(q.fns[i]) by {
        if i < p.fns.len() {
            assert(q.fns[i] == p.fns[i]);
        }
    }
}

/// The empty program.
pub open spec fn empty_program() -> ProgramView {
    ProgramView { vessels: Seq::empty(), couples: Seq::empty(), laws: Seq::empty(), fns: Seq::empty() }
}

/// The declarations from `p` to the end of input, after those in `acc`.
#[verifier::opaque]
pub open spec fn p_program(t: Seq<Token>, p: nat, acc: ProgramView) -> PResult<ProgramView>
    decreases t.len() - p,
{
    if p >= t.len() {
        stuck()
    } else if same_variant(kind_at(t, p), TokenKind::Eof) {
        Ok((acc, p))
    } else {
        match kind_at(t, p) {
            TokenKind::Vessel => match p_vessel(t, p) {
                Err(e) => Err(e),
                Ok((v, q)) => if p < q < t.len() {
                    p_program(t, q, ProgramView { vessels: acc.vessels.push(v), ..acc })
                } else {
                    stuck()
                },
            },
            TokenKind::Couple => match p_couple(t, p) {
                Err(e) => Err(e),
                Ok((c, q)) => if p < q < t.len() {
                    p_program(t, q, ProgramView { couples: acc.couples.push(c), ..acc })
                } else {
                    stuck()
                },
            },
            TokenKind::Law => match p_law(t, p) {
                Err(e) => Err(e),
                Ok((l, q)) => if p < q < t.len() {
                    p_program(t, q, ProgramView { laws: acc.laws.push(l), ..acc })
                } else {
                    stuck()
                },
            },
            TokenKind::Fn => match p_fn(t, p) {
                Err(e) => Err(e),
                Ok((f, q)) => if p < q < t.len() {
                    p_program(t, q, ProgramView { fns: acc.fns.push(f), ..acc })
                } else {
                    stuck()
                },
            },
            k => Err((p, "Unexpected token at top level: "@ + kind_text(k))),
        }
    }
}

// ---------------------------------------------------------------- the parser

/// Advancing from a token other than `Eof` always moves on.
pub proof fn lemma_adv_moves(t: Seq<Token>, p: nat)
    requires
        tokens_ok(t),
        p < t.len(),
        !(kind_at(t, p) is Eof),
    ensures
        adv(t, p) == p + 1,
        p + 1 < t.len(),
{
    assert(t.last() == t[t.len() - 1]);
}

impl Parser {
    /// The parser holds acceptable tokens and stands on one of them.
    pub closed spec fn wf(&self) -> bool {
        &&& tokens_ok(self.tokens@)
        &&& self.pos < self.tokens.len()
    }

    /// The tokens being parsed.
    pub closed spec fn toks(&self) -> Seq<Token> {
        self.tokens@
    }

    /// The current position.
    pub closed spec fn position(&self) -> nat {
        self.pos as nat
    }

    /// A parser at the first of `tokens`.
    pub fn new(tokens: Vec<Token>) -> (p: Self)
        requires
            tokens_ok(tokens@),
        ensures
            p.wf(),
            p.toks() == tokens@,
            p.position() == 0,
    {
        Self { tokens, pos: 0 }
    }

    fn peek_kind(&self) -> (k: &TokenKind)
        requires
            self.wf(),
        ensures
            *k == kind_at(self.tokens@, self.pos as nat),
    {
        &self.tokens[self.pos].kind
    }

    fn advance(&mut self)
        requires
            old(self).wf(),
        ensures
            final(self).wf(),
            final(self).tokens@ == old(self).tokens@,
            final(self).pos == adv(old(self).tokens@, old(self).pos as nat),
    {
        if self.pos + 1 < self.tokens.len() {
            self.pos += 1;
        }
    }

    fn check(&self, kind: &TokenKind) -> (r: bool)
        requires
            self.wf(),
        ensures
            r == same_variant(kind_at(self.tokens@, self.pos as nat), *kind),
    {
        self.peek_kind().variant() == kind.variant()
    }

    /// A parse error at the token `at`.
    fn error_at_token(&self, at: usize, msg: String) -> (e: VesselError)
        requires
            self.wf(),
            at < self.tokens.len(),
        ensures
            error_at(e, self.tokens@, at as nat, msg@),
    {
        let t = &self.tokens[at];
        VesselError::primary_at(Phase::Parser, t.line, t.col, msg)
    }

    /// The message `prefix` followed by how the token at `at` is shown.
    fn message_about(&self, prefix: &str, at: usize) -> (m: String)
        requires
            self.wf(),
            at < self.tokens.len(),
        ensures
            m@ == prefix@ + kind_text(self.tokens@[at as int].kind),
    {
        assert(literal_ok(self.tokens@[at as int].kind));
        let mut m = String::from_str(prefix);
        let d = self.tokens[at].kind.describe();
        m.append(d.as_str());
        m
    }

    fn eat(&mut self, kind: TokenKind) -> (r: VesselResult<()>)
        requires
            old(self).wf(),
            literal_ok(kind),
        ensures
            final(self).wf(),
            final(self).tokens@ == old(self).tokens@,
            match eat_spec(old(self).tokens@, old(self).pos as nat, kind) {
                Ok(q) => r is Ok && final(self).pos == q,
                Err((q, m)) => r matches Err(x) && error_at(x, old(self).tokens@, q, m),
            },
    {
        if self.check(&kind) {
            self.advance();
            Ok(())
        } else {
            let mut m = String::from_str("Expected ");
            let want = kind.describe();
            m.append(want.as_str());
            m.append(", got ");
            assert(literal_ok(self.tokens@[self.pos as int].kind));
            let got = self.peek_kind().describe();
            m.append(got.as_str());
            proof {
                reveal_strlit("Expected ");
                reveal_strlit(", got ");
                assert(literal_ok(self.tokens@[self.pos as int].kind));
            }
            assert(m@ =~= "Expected "@ + kind_text(kind) + ", got "@ + kind_text(
                kind_at(self.tokens@, self.pos as nat),
            ));
            Err(self.error_at_token(self.pos, m))
        }
    }

    fn eat_ident(&mut self) -> (r: VesselResult<String>)
        requires
            old(self).wf(),
        ensures
            final(self).wf(),
            final(self).tokens@ == old(self).tokens@,
            fits(r, final(self).pos as nat, eat_ident_spec(old(self).tokens@, old(self).pos as nat), old(self).tokens@),
    {
        let at = self.pos;
        let name = match self.peek_kind() {
            TokenKind::Ident(s) => Some(s.clone()),
            _ => None,
        };
        self.advance();
        match name {
            Some(s) => Ok(s),
            None => {
                let m = self.message_about("Expected identifier, got ", at);
                Err(self.error_at_token(at, m))
            },
        }
    }

    fn eat_float(&mut self) -> (r: VesselResult<Decimal>)
        requires
            old(self).wf(),
        ensures
            final(self).wf(),
            final(self).tokens@ == old(self).tokens@,
            fits(r, final(self).pos as nat, eat_float_spec(old(self).tokens@, old(self).pos as nat), old(self).tokens@),
            r matches Ok(d) ==> d.wf() && d.digits.len() <= SOURCE_LIMIT,
    {
        let at = self.pos;
        assert(literal_ok(self.tokens@[at as int].kind));
        let value = match self.peek_kind() {
            TokenKind::Float(d) => Some(d.duplicate()),
            _ => None,
        };
        self.advance();
        match value {
            Some(d) => Ok(d),
            None => {
                let m = self.message_about("Expected float literal, got ", at);
                Err(self.error_at_token(at, m))
            },
        }
    }

    /// Reads a name that can stand for a field inside a vessel or couple
    /// block: an identifier, or a keyword that names a field.
    fn eat_field_name(&mut self) -> (r: VesselResult<String>)
        requires
            old(self).wf(),
        ensures
            final(self).wf(),
            final(self).tokens@ == old(self).tokens@,
            fits(r, final(self).pos as nat, eat_field_name_spec(old(self).tokens@, old(self).pos as nat), old(self).tokens@),
    {
        let at = self.pos;
        let name = match self.peek_kind() {
            TokenKind::Ident(s) => Some(s.clone()),
            TokenKind::Boundary => Some(String::from_str("boundary")),
            TokenKind::Couple => Some(String::from_str("couple")),
            TokenKind::Vessel => Some(String::from_str("vessel")),
            TokenKind::Sentient => Some(String::from_str("sentient")),
            TokenKind::Resign => Some(String::from_str("resign")),
            TokenKind::Rebalance => Some(String::from_str("rebalance")),
            TokenKind::Law => Some(String::from_str("law")),
            _ => None,
        };
        self.advance();
        match name {
            Some(s) => Ok(s),
            None => {
                let m = self.message_about("Expected field name, got ", at);
                Err(self.error_at_token(at, m))
            },
        }
    }
}


/// The views of expressions grow one at a time.
pub proof fn lemma_exprs_view_push(s: Seq<Expr>, x: Expr)
    ensures
        exprs_view(s.push(x)) == exprs_view(s).push(expr_view(x)),
    decreases s.len(),
{
    if s.len() == 0 {
        assert(s.push(x).subrange(1, 1) =~= Seq::<Expr>::empty());
        assert(exprs_view(s.push(x)) =~= seq![expr_view(x)] + exprs_view(Seq::<Expr>::empty()));
    } else {
        let rest = s.subrange(1, s.len() as int);
        assert(s.push(x).subrange(1, s.len() + 1int) =~= rest.push(x));
        lemma_exprs_view_push(rest, x);
        assert(exprs_view(s.push(x)) =~= seq![expr_view(s[0])] + exprs_view(rest.push(x)));
        assert(exprs_view(s) =~= seq![expr_view(s[0])] + exprs_view(rest));
    }
}

fn comparison_of(k: &TokenKind) -> (r: Option<BinOpKind>)
    ensures
        r == comparison_op(*k),
{
    match k {
        TokenKind::Lt => Some(BinOpKind::Lt),
        TokenKind::Gt => Some(BinOpKind::Gt),
        TokenKind::LtEq => Some(BinOpKind::LtEq),
        TokenKind::GtEq => Some(BinOpKind::GtEq),
        _ => None,
    }
}

fn additive_of(k: &TokenKind) -> (r: Option<BinOpKind>)
    ensures
        r == additive_op(*k),
{
    match k {
        TokenKind::Plus => Some(BinOpKind::Add),
        TokenKind::Minus => Some(BinOpKind::Sub),
        _ => None,
    }
}

fn multiplicative_of(k: &TokenKind) -> (r: Option<BinOpKind>)
    ensures
        r == multiplicative_op(*k),
{
    match k {
        TokenKind::Star => Some(BinOpKind::Mul),
        TokenKind::Slash => Some(BinOpKind::Div),
        _ => None,
    }
}

impl Parser {
    /// Parses an expression.
    pub fn parse_expr(&mut self) -> (r: VesselResult<Expr>)
        requires
            old(self).wf(),
        ensures
            final(self).wf(),
            final(self).toks() == old(self).toks(),
            fits(r, final(self).position(), p_expr(old(self).toks(), old(self).position()), old(self).toks()),
            r is Ok ==> final(self).position() > old(self).position(),
            r matches Ok(e) ==> expr_ok(e@),
        decreases old(self).toks().len() - old(self).position(), 20int,
    {
        self.parse_or()
    }

    fn parse_or(&mut self) -> (r: VesselResult<Expr>)
        requires
            old(self).wf(),
        ensures
            final(self).wf(),
            final(self).tokens@ == old(self).tokens@,
            fits(r, final(self).pos as nat, p_or(old(self).tokens@, old(self).pos as nat), old(self).tokens@),
            r is Ok ==> final(self).pos > old(self).pos,
            r matches Ok(e) ==> expr_ok(e@),
        decreases old(self).tokens.len() - old(self).pos, 19int,
    {
        let ghost t = self.tokens@;
        let ghost p0 = self.pos as nat;
        let mut left = match self.parse_and() {
            Ok(e) => e,
            Err(e) => return Err(e),
        };
        while self.check(&TokenKind::Or)
            invariant
                self.wf(),
                self.tokens@ == t,
                t == old(self).tokens@,
                p0 == old(self).pos,
                self.pos > p0,
                expr_ok(left@),
                p_or(t, p0) == or_tail(t, left@, self.pos as nat),
            decreases self.tokens.len() - self.pos,
        {
            proof {
                lemma_adv_moves(t, self.pos as nat);
            }
            self.advance();
            let right = match self.parse_and() {
                Ok(e) => e,
                Err(e) => return Err(e),
            };
            left = Expr::BinOp { op: BinOpKind::Or, left: Box::new(left), right: Box::new(right) };
        }
        Ok(left)
    }

    fn parse_and(&mut self) -> (r: VesselResult<Expr>)
        requires
            old(self).wf(),
        ensures
            final(self).wf(),
            final(self).tokens@ == old(self).tokens@,
            fits(r, final(self).pos as nat, p_and(old(self).tokens@, old(self).pos as nat), old(self).tokens@),
            r is Ok ==> final(self).pos > old(self).pos,
            r matches Ok(e) ==> expr_ok(e@),
        decreases old(self).tokens.len() - old(self).pos, 17int,
    {
        let ghost t = self.tokens@;
        let ghost p0 = self.pos as nat;
        let mut left = match self.parse_comparison() {
            Ok(e) => e,
            Err(e) => return Err(e),
        };
        while self.check(&TokenKind::And)
            invariant
                self.wf(),
                self.tokens@ == t,
                t == old(self).tokens@,
                p0 == old(self).pos,
                self.pos > p0,
                expr_ok(left@),
                p_and(t, p0) == and_tail(t, left@, self.pos as nat),
            decreases self.tokens.len() - self.pos,
        {
            proof {
                lemma_adv_moves(t, self.pos as nat);
            }
            self.advance();
            let right = match self.parse_comparison() {
                Ok(e) => e,
                Err(e) => return Err(e),
            };
            left = Expr::BinOp { op: BinOpKind::And, left: Box::new(left), right: Box::new(right) };
        }
        Ok(left)
    }

    fn parse_comparison(&mut self) -> (r: VesselResult<Expr>)
        requires
            old(self).wf(),
        ensures
            final(self).wf(),
            final(self).tokens@ == old(self).tokens@,
            fits(r, final(self).pos as nat, p_comparison(old(self).tokens@, old(self).pos as nat), old(self).tokens@),
            r is Ok ==> final(self).pos > old(self).pos,
            r matches Ok(e) ==> expr_ok(e@),
        decreases old(self).tokens.len() - old(self).pos, 15int,
    {
        let ghost t = self.tokens@;
        let ghost p0 = self.pos as nat;
        let mut left = match self.parse_additive() {
            Ok(e) => e,
            Err(e) => return Err(e),
        };
        loop
            invariant
                self.wf(),
                self.tokens@ == t,
                t == old(self).tokens@,
                p0 == old(self).pos,
                self.pos > p0,
                expr_ok(left@),
                p_comparison(t, p0) == comparison_tail(t, left@, self.pos as nat),
            ensures
                self.wf(),
                self.tokens@ == t,
                self.pos > p0,
                expr_ok(left@),
                p_comparison(t, p0) == Ok::<(ExprView, nat), (nat, Seq<char>)>((left@, self.pos as nat)),
            decreases self.tokens.len() - self.pos,
        {
            let op = match comparison_of(self.peek_kind()) {
                Some(op) => op,
                None => break,
            };
            proof {
                lemma_adv_moves(t, self.pos as nat);
            }
            self.advance();
            let right = match self.parse_additive() {
                Ok(e) => e,
                Err(e) => return Err(e),
            };
            left = Expr::BinOp { op, left: Box::new(left), right: Box::new(right) };
        }
        Ok(left)
    }

    fn parse_additive(&mut self) -> (r: VesselResult<Expr>)
        requires
            old(self).wf(),
        ensures
            final(self).wf(),
            final(self).tokens@ == old(self).tokens@,
            fits(r, final(self).pos as nat, p_additive(old(self).tokens@, old(self).pos as nat), old(self).tokens@),
            r is Ok ==> final(self).pos > old(self).pos,
            r matches Ok(e) ==> expr_ok(e@),
        decreases old(self).tokens.len() - old(self).pos, 13int,
    {
        let ghost t = self.tokens@;
        let ghost p0 = self.pos as nat;
        let mut left = match self.parse_multiplicative() {
            Ok(e) => e,
            Err(e) => return Err(e),
        };
        loop
            invariant
                self.wf(),
                self.tokens@ == t,
                t == old(self).tokens@,
                p0 == old(self).pos,
                self.pos > p0,
                expr_ok(left@),
                p_additive(t, p0) == additive_tail(t, left@, self.pos as nat),
            ensures
                self.wf(),
                self.tokens@ == t,
                self.pos > p0,
                expr_ok(left@),
                p_additive(t, p0) == Ok::<(ExprView, nat), (nat, Seq<char>)>((left@, self.pos as nat)),
            decreases self.tokens.len() - self.pos,
        {
            let op = match additive_of(self.peek_kind()) {
                Some(op) => op,
                None => break,
            };
            proof {
                lemma_adv_moves(t, self.pos as nat);
            }
            self.advance();
            let right = match self.parse_multiplicative() {
                Ok(e) => e,
                Err(e) => return Err(e),
            };
            left = Expr::BinOp { op, left: Box::new(left), right: Box::new(right) };
        }
        Ok(left)
    }

    fn parse_multiplicative(&mut self) -> (r: VesselResult<Expr>)
        requires
            old(self).wf(),
        ensures
            final(self).wf(),
            final(self).tokens@ == old(self).tokens@,
            fits(r, final(self).pos as nat, p_multiplicative(old(self).tokens@, old(self).pos as nat), old(self).tokens@),
            r is Ok ==> final(self).pos > old(self).pos,
            r matches Ok(e) ==> expr_ok(e@),
        decreases old(self).tokens.len() - old(self).pos, 11int,
    {
        let ghost t = self.tokens@;
        let ghost p0 = self.pos as nat;
        let mut left = match self.parse_unary() {
            Ok(e) => e,
            Err(e) => return Err(e),
        };
        loop
            invariant
                self.wf(),
                self.tokens@ == t,
                t == old(self).tokens@,
                p0 == old(self).pos,
                self.pos > p0,
                expr_ok(left@),
                p_multiplicative(t, p0) == multiplicative_tail(t, left@, self.pos as nat),
            ensures
                self.wf(),
                self.tokens@ == t,
                self.pos > p0,
                expr_ok(left@),
                p_multiplicative(t, p0) == Ok::<(ExprView, nat), (nat, Seq<char>)>((left@, self.pos as nat)),
            decreases self.tokens.len() - self.pos,
        {
            let op = match multiplicative_of(self.peek_kind()) {
                Some(op) => op,
                None => break,
            };
            proof {
                lemma_adv_moves(t, self.pos as nat);
            }
            self.advance();
            let right = match self.parse_unary() {
                Ok(e) => e,
                Err(e) => return Err(e),
            };
            left = Expr::BinOp { op, left: Box::new(left), right: Box::new(right) };
        }
        Ok(left)
    }

    fn parse_unary(&mut self) -> (r: VesselResult<Expr>)
        requires
            old(self).wf(),
        ensures
            final(self).wf(),
            final(self).tokens@ == old(self).tokens@,
            fits(r, final(self).pos as nat, p_unary(old(self).tokens@, old(self).pos as nat), old(self).tokens@),
            r is Ok ==> final(self).pos > old(self).pos,
            r matches Ok(e) ==> expr_ok(e@),
        decreases old(self).tokens.len() - old(self).pos, 9int,
    {
        let is_not = self.check(&TokenKind::Not);
        let is_neg = self.check(&TokenKind::Minus);
        if is_not || is_neg {
            proof {
                lemma_adv_moves(self.tokens@, self.pos as nat);
            }
            self.advance();
            let inner = match self.parse_unary() {
                Ok(e) => e,
                Err(e) => return Err(e),
            };
            let op = if is_not { UnaryOpKind::Not } else { UnaryOpKind::Neg };
            Ok(Expr::UnaryOp { op, expr: Box::new(inner) })
        } else {
            self.parse_postfix()
        }
    }

    fn parse_postfix(&mut self) -> (r: VesselResult<Expr>)
        requires
            old(self).wf(),
        ensures
            final(self).wf(),
            final(self).tokens@ == old(self).tokens@,
            fits(r, final(self).pos as nat, p_postfix(old(self).tokens@, old(self).pos as nat), old(self).tokens@),
            r is Ok ==> final(self).pos > old(self).pos,
            r matches Ok(e) ==> expr_ok(e@),
        decreases old(self).tokens.len() - old(self).pos, 8int,
    {
        let ghost t = self.tokens@;
        let ghost p0 = self.pos as nat;
        let mut base = match self.parse_atom() {
            Ok(e) => e,
            Err(e) => return Err(e),
        };
        while self.check(&TokenKind::Dot)
            invariant
                self.wf(),
                self.tokens@ == t,
                t == old(self).tokens@,
                p0 == old(self).pos,
                self.pos > p0,
                expr_ok(base@),
                p_postfix(t, p0) == postfix_tail(t, base@, self.pos as nat),
            decreases self.tokens.len() - self.pos,
        {
            proof {
                lemma_adv_moves(t, self.pos as nat);
            }
            self.advance();
            let field = match self.eat_ident() {
                Ok(f) => f,
                Err(e) => return Err(e),
            };
            base = Expr::Member { object: Box::new(base), field };
        }
        Ok(base)
    }

    fn parse_atom(&mut self) -> (r: VesselResult<Expr>)
        requires
            old(self).wf(),
        ensures
            final(self).wf(),
            final(self).tokens@ == old(self).tokens@,
            fits(r, final(self).pos as nat, p_atom(old(self).tokens@, old(self).pos as nat), old(self).tokens@),
            r is Ok ==> final(self).pos > old(self).pos,
            r matches Ok(e) ==> expr_ok(e@),
        decreases old(self).tokens.len() - old(self).pos, 6int,
    {
        let ghost t = self.tokens@;
        let ghost p0 = self.pos as nat;
        let at = self.pos;
        assert(literal_ok(t[at as int].kind));
        let k = self.peek_kind();
        if let TokenKind::Float(d) = k {
            let v = d.duplicate();
            proof {
                lemma_adv_moves(t, p0);
            }
            self.advance();
            Ok(Expr::FloatLit(v))
        } else if let TokenKind::Ident(name) = k {
            let name = name.clone();
            self.parse_name(name)
        } else if let TokenKind::True = k {
            proof {
                lemma_adv_moves(t, p0);
            }
            self.advance();
            Ok(Expr::BoolLit(true))
        } else if let TokenKind::False = k {
            proof {
                lemma_adv_moves(t, p0);
            }
            self.advance();
            Ok(Expr::BoolLit(false))
        } else if let TokenKind::Forall = k {
            self.parse_forall()
        } else if let TokenKind::If = k {
            self.parse_if()
        } else if let TokenKind::LParen = k {
            self.parse_paren()
        } else {
            let m = self.message_about("Unexpected token in expression: ", at);
            Err(self.error_at_token(at, m))
        }
    }

    /// A name at the current token: a call when `(` follows, else an identifier.
    fn parse_name(&mut self, name: String) -> (r: VesselResult<Expr>)
        requires
            old(self).wf(),
            kind_at(old(self).tokens@, old(self).pos as nat) is Ident,
        ensures
            final(self).wf(),
            final(self).tokens@ == old(self).tokens@,
            fits(r, final(self).pos as nat, atom_name(old(self).tokens@, old(self).pos as nat, name@), old(self).tokens@),
            r is Ok ==> final(self).pos > old(self).pos,
            r matches Ok(e) ==> expr_ok(e@),
        decreases old(self).tokens.len() - old(self).pos, 5int,
    {
        let ghost t = self.tokens@;
        let ghost p0 = self.pos as nat;
        proof {
            lemma_adv_moves(t, p0);
        }
        self.advance();
        if self.check(&TokenKind::LParen) {
            proof {
                lemma_adv_moves(t, self.pos as nat);
            }
            self.advance();
            let none: Vec<Expr> = Vec::new();
            proof {
                assert(exprs_view(none@) =~= Seq::<ExprView>::empty());
            }
            self.parse_call(name, none)
        } else {
            Ok(Expr::Ident(name))
        }
    }

    /// The arguments of a call, after those in `args`, up to the closing parenthesis.
    fn parse_call(&mut self, name: String, args: Vec<Expr>) -> (r: VesselResult<Expr>)
        requires
            old(self).wf(),
            forall|j: int| 0 <= j < args.len() ==> #[trigger] expr_ok(args@[j]@),
        ensures
            final(self).wf(),
            final(self).tokens@ == old(self).tokens@,
            fits(
                r,
                final(self).pos as nat,
                call_args(old(self).tokens@, name@, exprs_view(args@), old(self).pos as nat),
                old(self).tokens@,
            ),
            r is Ok ==> final(self).pos > old(self).pos,
            r matches Ok(e) ==> expr_ok(e@),
        decreases old(self).tokens.len() - old(self).pos, 21int,
    {
        if self.check(&TokenKind::RParen) || self.check(&TokenKind::Eof) {
            match self.eat(TokenKind::RParen) {
                Ok(()) => {},
                Err(e) => return Err(e),
            }
            proof {
                lemma_exprs_view_index(args@);
                lemma_call_args_ok(name@, exprs_view(args@));
                assert forall|i: int| 0 <= i < args.len() implies #[trigger] expr_ok(exprs_view(args@)[i]) by {
                    assert(exprs_view(args@)[i] == args@[i]@);
                }
            }
            return Ok(Expr::Call { callee: name, args });
        }
        let a = match self.parse_expr() {
            Ok(e) => e,
            Err(e) => return Err(e),
        };
        proof {
            lemma_exprs_view_push(args@, a);
        }
        let mut args = args;
        let ghost before = args@;
        args.push(a);
        assert(forall|j: int| 0 <= j < before.len() ==> args@[j] == before[j]);
        if self.check(&TokenKind::Comma) {
            self.advance();
        }
        self.parse_call(name, args)
    }

    fn parse_forall(&mut self) -> (r: VesselResult<Expr>)
        requires
            old(self).wf(),
            kind_at(old(self).tokens@, old(self).pos as nat) is Forall,
        ensures
            final(self).wf(),
            final(self).tokens@ == old(self).tokens@,
            fits(r, final(self).pos as nat, atom_forall(old(self).tokens@, old(self).pos as nat), old(self).tokens@),
            r is Ok ==> final(self).pos > old(self).pos,
            r matches Ok(e) ==> expr_ok(e@),
        decreases old(self).tokens.len() - old(self).pos, 5int,
    {
        proof {
            lemma_adv_moves(self.tokens@, self.pos as nat);
        }
        self.advance();
        let param = match self.eat_ident() {
            Ok(x) => x,
            Err(e) => return Err(e),
        };
        match self.eat(TokenKind::Colon) {
            Ok(()) => {},
            Err(e) => return Err(e),
        }
        let body = match self.parse_expr() {
            Ok(x) => x,
            Err(e) => return Err(e),
        };
        Ok(Expr::Forall { param, body: Box::new(body) })
    }

    #[verifier::rlimit(40)]
    fn parse_if(&mut self) -> (r: VesselResult<Expr>)
        requires
            old(self).wf(),
            kind_at(old(self).tokens@, old(self).pos as nat) is If,
        ensures
            final(self).wf(),
            final(self).tokens@ == old(self).tokens@,
            fits(r, final(self).pos as nat, atom_if(old(self).tokens@, old(self).pos as nat), old(self).tokens@),
            r is Ok ==> final(self).pos > old(self).pos,
            r matches Ok(e) ==> expr_ok(e@),
        decreases old(self).tokens.len() - old(self).pos, 5int,
    {
        proof {
            lemma_adv_moves(self.tokens@, self.pos as nat);
        }
        self.advance();
        let cond = match self.parse_expr() {
            Ok(x) => x,
            Err(e) => return Err(e),
        };
        match self.eat(TokenKind::LBrace) {
            Ok(()) => {},
            Err(e) => return Err(e),
        }
        let then = match self.parse_expr() {
            Ok(x) => x,
            Err(e) => return Err(e),
        };
        self.parse_if_rest(cond, then)
    }

    fn parse_if_rest(&mut self, cond: Expr, then: Expr) -> (r: VesselResult<Expr>)
        requires
            old(self).wf(),
            expr_ok(cond@),
            expr_ok(then@),
        ensures
            final(self).wf(),
            final(self).tokens@ == old(self).tokens@,
            fits(r, final(self).pos as nat, if_else_part(old(self).tokens@, cond@, then@, old(self).pos as nat), old(self).tokens@),
            r is Ok ==> final(self).pos > old(self).pos,
            r matches Ok(e) ==> expr_ok(e@),
        decreases old(self).tokens.len() - old(self).pos, 4int,
    {
        match self.eat(TokenKind::RBrace) {
            Ok(()) => {},
            Err(e) => return Err(e),
        }
        match self.eat(TokenKind::Else) {
            Ok(()) => {},
            Err(e) => return Err(e),
        }
        match self.eat(TokenKind::LBrace) {
            Ok(()) => {},
            Err(e) => return Err(e),
        }
        let else_ = match self.parse_expr() {
            Ok(x) => x,
            Err(e) => return Err(e),
        };
        match self.eat(TokenKind::RBrace) {
            Ok(()) => {},
            Err(e) => return Err(e),
        }
        Ok(Expr::If { cond: Box::new(cond), then: Box::new(then), else_: Box::new(else_) })
    }

    fn parse_paren(&mut self) -> (r: VesselResult<Expr>)
        requires
            old(self).wf(),
            kind_at(old(self).tokens@, old(self).pos as nat) is LParen,
        ensures
            final(self).wf(),
            final(self).tokens@ == old(self).tokens@,
            fits(r, final(self).pos as nat, atom_paren(old(self).tokens@, old(self).pos as nat), old(self).tokens@),
            r is Ok ==> final(self).pos > old(self).pos,
            r matches Ok(e) ==> expr_ok(e@),
        decreases old(self).tokens.len() - old(self).pos, 5int,
    {
        proof {
            lemma_adv_moves(self.tokens@, self.pos as nat);
        }
        self.advance();
        let e = match self.parse_expr() {
            Ok(x) => x,
            Err(e) => return Err(e),
        };
        match self.eat(TokenKind::RParen) {
            Ok(()) => {},
            Err(e) => return Err(e),
        }
        Ok(e)
    }
}


/// The fields after the expression `e` was read for `field`.
fn keep_vessel_value(field: &String, st: VesselSlots, e: Expr) -> (r: VesselSlots)
    requires
        slots_ok(st),
        expr_ok(e@),
    ensures
        slots_view(r) == keep_value(field@, slots_view(st), e@),
        slots_ok(r),
{
    let (kappa, boundary, sentient, observer) = st;
    if text_is(field, "kappa") {
        (Some(e), boundary, sentient, observer)
    } else if text_is(field, "boundary") {
        (kappa, Some(e), sentient, observer)
    } else {
        // other fields are read and left out
        (kappa, boundary, sentient, observer)
    }
}

/// `0.5`, the value of a field that a block leaves out.
fn half() -> (d: Decimal)
    ensures
        d@ == (false, seq![0u8, 5u8], 1nat),
        d.wf(),
        decimal_small(d@),
{
    let d = Decimal { negative: false, digits: vec![0, 5], scale: 1 };
    assert(d.digits@ =~= seq![0u8, 5u8]);
    d
}

impl Parser {
    /// The value of the vessel field `field`, read from the current token.
    fn parse_vessel_field(&mut self, field: &String, st: VesselSlots) -> (r: VesselResult<VesselSlots>)
        requires
            old(self).wf(),
            slots_ok(st),
        ensures
            r matches Ok(x) ==> slots_ok(x),
            final(self).wf(),
            final(self).tokens@ == old(self).tokens@,
            r is Ok ==> final(self).pos >= old(self).pos,
            match vessel_field(old(self).tokens@, field@, old(self).pos as nat, slots_view(st)) {
                Ok((st2, q)) => r matches Ok(x) && slots_view(x) == st2 && final(self).pos == q,
                Err((q, m)) => r matches Err(x) && error_at(x, old(self).tokens@, q, m),
            },
    {
        proof {
            reveal(vessel_field);
        }
        let (kappa, boundary, sentient, observer) = st;
        if text_is(field, "sentient") {
            // the value is read as `true` or anything else
            let v = matches!(self.peek_kind(), TokenKind::True);
            self.advance();
            Ok((kappa, boundary, v, observer))
        } else if text_is(field, "observer") {
            let v = matches!(self.peek_kind(), TokenKind::True);
            self.advance();
            Ok((kappa, boundary, sentient, v))
        } else {
            match self.parse_expr() {
                Ok(e) => Ok(keep_vessel_value(field, (kappa, boundary, sentient, observer), e)),
                Err(e) => Err(e),
            }
        }
    }

    /// The fields of a vessel block, from the current token to the closing brace.
    fn parse_vessel_fields(&mut self, st: VesselSlots) -> (r: VesselResult<VesselSlots>)
        requires
            old(self).wf(),
            slots_ok(st),
        ensures
            r matches Ok(x) ==> slots_ok(x),
            final(self).wf(),
            final(self).tokens@ == old(self).tokens@,
            r is Ok ==> final(self).pos >= old(self).pos,
            match vessel_fields(old(self).tokens@, old(self).pos as nat, slots_view(st)) {
                Ok((st2, q)) => r matches Ok(x) && slots_view(x) == st2 && final(self).pos == q,
                Err((q, m)) => r matches Err(x) && error_at(x, old(self).tokens@, q, m),
            },
        decreases old(self).tokens.len() - old(self).pos,
    {
        proof {
            reveal(vessel_fields);
        }
        let ghost t = self.tokens@;
        let ghost p = self.pos as nat;
        if self.check(&TokenKind::RBrace) || self.check(&TokenKind::Eof) {
            return Ok(st);
        }
        proof {
            lemma_adv_moves(t, p);
        }
        let field = match self.eat_field_name() {
            Ok(x) => x,
            Err(e) => return Err(e),
        };
        match self.eat(TokenKind::Colon) {
            Ok(()) => {},
            Err(e) => return Err(e),
        }
        let st2 = match self.parse_vessel_field(&field, st) {
            Ok(x) => x,
            Err(e) => return Err(e),
        };
        if self.check(&TokenKind::Comma) {
            self.advance();
        }
        self.parse_vessel_fields(st2)
    }

    fn parse_vessel(&mut self) -> (r: VesselResult<VesselDecl>)
        requires
            old(self).wf(),
        ensures
            final(self).wf(),
            final(self).tokens@ == old(self).tokens@,
            fits(r, final(self).pos as nat, p_vessel(old(self).tokens@, old(self).pos as nat), old(self).tokens@),
            r is Ok ==> final(self).pos > old(self).pos,
            r matches Ok(v) ==> vessel_ready(v@),
    {
        let line = self.tokens[self.pos].line;
        match self.eat(TokenKind::Vessel) {
            Ok(()) => {},
            Err(e) => return Err(e),
        }
        let name = match self.eat_ident() {
            Ok(x) => x,
            Err(e) => return Err(e),
        };
        match self.eat(TokenKind::LBrace) {
            Ok(()) => {},
            Err(e) => return Err(e),
        }
        let (kappa, boundary, sentient, observer) = match self.parse_vessel_fields((None, None, false, false)) {
            Ok(x) => x,
            Err(e) => return Err(e),
        };
        match self.eat(TokenKind::RBrace) {
            Ok(()) => {},
            Err(e) => return Err(e),
        }
        let kappa = match kappa {
            Some(e) => e,
            None => Expr::FloatLit(half()),
        };
        let boundary = match boundary {
            Some(e) => e,
            None => Expr::FloatLit(half()),
        };
        Ok(VesselDecl { name, kappa, boundary, sentient, observer, line })
    }

    /// The fields of a couple block, from the current token to the closing
    /// brace; `coupling` is the value kept so far.
    fn parse_couple_fields(&mut self, coupling: Expr) -> (r: VesselResult<Expr>)
        requires
            old(self).wf(),
        ensures
            final(self).wf(),
            final(self).tokens@ == old(self).tokens@,
            r is Ok ==> final(self).pos >= old(self).pos,
            fits(r, final(self).pos as nat, couple_fields(old(self).tokens@, old(self).pos as nat, coupling@), old(self).tokens@),
        decreases old(self).tokens.len() - old(self).pos,
    {
        proof {
            reveal(couple_fields);
        }
        let ghost t = self.tokens@;
        let ghost p = self.pos as nat;
        if self.check(&TokenKind::RBrace) || self.check(&TokenKind::Eof) {
            return Ok(coupling);
        }
        proof {
            lemma_adv_moves(t, p);
        }
        let field = match self.eat_field_name() {
            Ok(x) => x,
            Err(e) => return Err(e),
        };
        match self.eat(TokenKind::Colon) {
            Ok(()) => {},
            Err(e) => return Err(e),
        }
        let val = match self.parse_expr() {
            Ok(x) => x,
            Err(e) => return Err(e),
        };
        let c2 = if text_is(&field, "coupling") { val } else { coupling };
        if self.check(&TokenKind::Comma) {
            self.advance();
        }
        self.parse_couple_fields(c2)
    }

    fn parse_couple(&mut self) -> (r: VesselResult<CoupleDecl>)
        requires
            old(self).wf(),
        ensures
            final(self).wf(),
            final(self).tokens@ == old(self).tokens@,
            fits(r, final(self).pos as nat, p_couple(old(self).tokens@, old(self).pos as nat), old(self).tokens@),
            r is Ok ==> final(self).pos > old(self).pos,
    {
        let line = self.tokens[self.pos].line;
        match self.eat(TokenKind::Couple) {
            Ok(()) => {},
            Err(e) => return Err(e),
        }
        let src = match self.eat_ident() {
            Ok(x) => x,
            Err(e) => return Err(e),
        };
        match self.eat(TokenKind::To) {
            Ok(()) => {},
            Err(e) => return Err(e),
        }
        let dst = match self.eat_ident() {
            Ok(x) => x,
            Err(e) => return Err(e),
        };
        match self.eat(TokenKind::LBrace) {
            Ok(()) => {},
            Err(e) => return Err(e),
        }
        let coupling = match self.parse_couple_fields(Expr::FloatLit(half())) {
            Ok(x) => x,
            Err(e) => return Err(e),
        };
        match self.eat(TokenKind::RBrace) {
            Ok(()) => {},
            Err(e) => return Err(e),
        }
        Ok(CoupleDecl { src, dst, coupling, line })
    }
    fn parse_law(&mut self) -> (r: VesselResult<LawDecl>)
        requires
            old(self).wf(),
        ensures
            final(self).wf(),
            final(self).tokens@ == old(self).tokens@,
            fits(r, final(self).pos as nat, p_law(old(self).tokens@, old(self).pos as nat), old(self).tokens@),
            r is Ok ==> final(self).pos > old(self).pos,
    {
        let line = self.tokens[self.pos].line;
        match self.eat(TokenKind::Law) {
            Ok(()) => {},
            Err(e) => return Err(e),
        }
        let name = match self.eat_ident() {
            Ok(x) => x,
            Err(e) => return Err(e),
        };
        match self.eat(TokenKind::LBrace) {
            Ok(()) => {},
            Err(e) => return Err(e),
        }
        match self.eat(TokenKind::Forall) {
            Ok(()) => {},
            Err(e) => return Err(e),
        }
        let param = match self.eat_ident() {
            Ok(x) => x,
            Err(e) => return Err(e),
        };
        match self.eat(TokenKind::Colon) {
            Ok(()) => {},
            Err(e) => return Err(e),
        }
        let body = match self.parse_expr() {
            Ok(x) => x,
            Err(e) => return Err(e),
        };
        if self.check(&TokenKind::Comma) {
            self.advance();
        }
        match self.eat(TokenKind::RBrace) {
            Ok(()) => {},
            Err(e) => return Err(e),
        }
        Ok(LawDecl { name, param, body, line })
    }

    /// Parses a `<lo, hi>` kappa annotation.
    fn parse_kappa_annotation(&mut self) -> (r: VesselResult<KappaRange>)
        requires
            old(self).wf(),
        ensures
            final(self).wf(),
            final(self).tokens@ == old(self).tokens@,
            fits(r, final(self).pos as nat, p_kappa_annotation(old(self).tokens@, old(self).pos as nat), old(self).tokens@),
            r matches Ok(k) ==> k.lo.wf() && k.hi.wf() && k.lo.digits.len() <= SOURCE_LIMIT
                && k.hi.digits.len() <= SOURCE_LIMIT,
    {
        match self.eat(TokenKind::Lt) {
            Ok(()) => {},
            Err(e) => return Err(e),
        }
        let lo = match self.eat_float() {
            Ok(x) => x,
            Err(e) => return Err(e),
        };
        match self.eat(TokenKind::Comma) {
            Ok(()) => {},
            Err(e) => return Err(e),
        }
        let hi = match self.eat_float() {
            Ok(x) => x,
            Err(e) => return Err(e),
        };
        match self.eat(TokenKind::Gt) {
            Ok(()) => {},
            Err(e) => return Err(e),
        }
        Ok(KappaRange::new(lo, hi))
    }

    /// An optional hint after the `:` or `->` at the current token.
    fn parse_hint_after(&mut self) -> (r: VesselResult<Option<KappaRange>>)
        requires
            old(self).wf(),
        ensures
            final(self).wf(),
            final(self).tokens@ == old(self).tokens@,
            match hint_after(old(self).tokens@, old(self).pos as nat) {
                Ok((h, q)) => r matches Ok(x) && hint_view(x) == h && final(self).pos == q,
                Err((q, m)) => r matches Err(x) && error_at(x, old(self).tokens@, q, m),
            },
            r is Ok ==> final(self).pos >= old(self).pos,
            r matches Ok(Some(k)) ==> k.lo.wf() && k.hi.wf() && k.lo.digits.len() <= SOURCE_LIMIT
                && k.hi.digits.len() <= SOURCE_LIMIT,
    {
        self.advance();
        if self.check(&TokenKind::Lt) {
            let k = match self.parse_kappa_annotation() {
                Ok(x) => x,
                Err(e) => return Err(e),
            };
            Ok(Some(k))
        } else {
            Ok(None)
        }
    }

    fn parse_stmt(&mut self) -> (r: VesselResult<Stmt>)
        requires
            old(self).wf(),
        ensures
            final(self).wf(),
            final(self).tokens@ == old(self).tokens@,
            fits(r, final(self).pos as nat, p_stmt(old(self).tokens@, old(self).pos as nat), old(self).tokens@),
            r is Ok ==> final(self).pos > old(self).pos,
            r matches Ok(st) ==> expr_ok(stmt_value(st@)),
    {
        let ghost t = self.tokens@;
        let line = self.tokens[self.pos].line;
        let is_let = matches!(self.peek_kind(), TokenKind::Let);
        let is_return = matches!(self.peek_kind(), TokenKind::Return);
        if is_let {
            proof {
                lemma_adv_moves(t, self.pos as nat);
            }
            self.advance();
            let name = match self.eat_ident() {
                Ok(x) => x,
                Err(e) => return Err(e),
            };
            match self.eat(TokenKind::Equals) {
                Ok(()) => {},
                Err(e) => return Err(e),
            }
            let value = match self.parse_expr() {
                Ok(x) => x,
                Err(e) => return Err(e),
            };
            Ok(Stmt::Let { name, value, line })
        } else if is_return {
            proof {
                lemma_adv_moves(t, self.pos as nat);
            }
            self.advance();
            let value = match self.parse_expr() {
                Ok(x) => x,
                Err(e) => return Err(e),
            };
            Ok(Stmt::Return { value, line })
        } else {
            let value = match self.parse_expr() {
                Ok(x) => x,
                Err(e) => return Err(e),
            };
            Ok(Stmt::Expr { value, line })
        }
    }

    /// The parameters of a function, from the current token to the closing
    /// parenthesis, after those in `params`.
    fn parse_fn_params(&mut self, params: Vec<(String, Option<KappaRange>)>) -> (r: VesselResult<
        Vec<(String, Option<KappaRange>)>,
    >)
        requires
            old(self).wf(),
            forall|j: int| 0 <= j < params.len() ==> #[trigger] hint_small(params_view(params@)[j].1),
        ensures
            r matches Ok(x) ==> forall|j: int| 0 <= j < x.len() ==> #[trigger] hint_small(params_view(x@)[j].1),
            final(self).wf(),
            final(self).tokens@ == old(self).tokens@,
            r is Ok ==> final(self).pos >= old(self).pos,
            match fn_params(old(self).tokens@, old(self).pos as nat, params_view(params@)) {
                Ok((ps, q)) => r matches Ok(x) && params_view(x@) == ps && final(self).pos == q,
                Err((q, m)) => r matches Err(x) && error_at(x, old(self).tokens@, q, m),
            },
        decreases old(self).tokens.len() - old(self).pos,
    {
        proof {
            reveal(fn_params);
        }
        let ghost t = self.tokens@;
        let ghost p = self.pos as nat;
        if self.check(&TokenKind::RParen) || self.check(&TokenKind::Eof) {
            return Ok(params);
        }
        proof {
            lemma_adv_moves(t, p);
        }
        let pname = match self.eat_ident() {
            Ok(x) => x,
            Err(e) => return Err(e),
        };
        // an optional kappa annotation: `p: <lo, hi>`
        let hint = if self.check(&TokenKind::Colon) {
            match self.parse_hint_after() {
                Ok(h) => h,
                Err(e) => return Err(e),
            }
        } else {
            None
        };
        let mut params = params;
        let ghost before = params@;
        params.push((pname, hint));
        proof {
            assert(params_view(params@) =~= params_view(before).push(param_view(params@.last())));
        }
        if self.check(&TokenKind::Comma) {
            self.advance();
        }
        self.parse_fn_params(params)
    }

    /// The statements of a function body, from the current token to the
    /// closing brace, after those in `body`.
    fn parse_fn_body(&mut self, body: Vec<Stmt>) -> (r: VesselResult<Vec<Stmt>>)
        requires
            old(self).wf(),
            forall|j: int| 0 <= j < body.len() ==> #[trigger] expr_ok(stmt_value(stmts_view(body@)[j])),
        ensures
            r matches Ok(x) ==> forall|j: int| 0 <= j < x.len() ==> #[trigger] expr_ok(stmt_value(stmts_view(x@)[j])),
            final(self).wf(),
            final(self).tokens@ == old(self).tokens@,
            r is Ok ==> final(self).pos >= old(self).pos,
            match fn_body(old(self).tokens@, old(self).pos as nat, stmts_view(body@)) {
                Ok((ss, q)) => r matches Ok(x) && stmts_view(x@) == ss && final(self).pos == q,
                Err((q, m)) => r matches Err(x) && error_at(x, old(self).tokens@, q, m),
            },
        decreases old(self).tokens.len() - old(self).pos,
    {
        proof {
            reveal(fn_body);
        }
        if self.check(&TokenKind::RBrace) || self.check(&TokenKind::Eof) {
            return Ok(body);
        }
        let st = match self.parse_stmt() {
            Ok(x) => x,
            Err(e) => return Err(e),
        };
        let mut body = body;
        let ghost before = body@;
        body.push(st);
        proof {
            assert(stmts_view(body@) =~= stmts_view(before).push(body@.last()@));
        }
        self.parse_fn_body(body)
    }

    fn parse_fn(&mut self) -> (r: VesselResult<FnDecl>)
        requires
            old(self).wf(),
        ensures
            final(self).wf(),
            final(self).tokens@ == old(self).tokens@,
            fits(r, final(self).pos as nat, p_fn(old(self).tokens@, old(self).pos as nat), old(self).tokens@),
            r is Ok ==> final(self).pos > old(self).pos,
            r matches Ok(f) ==> fn_ready(f@),
    {
        let line = self.tokens[self.pos].line;
        match self.eat(TokenKind::Fn) {
            Ok(()) => {},
            Err(e) => return Err(e),
        }
        let name = match self.eat_ident() {
            Ok(x) => x,
            Err(e) => return Err(e),
        };
        match self.eat(TokenKind::LParen) {
            Ok(()) => {},
            Err(e) => return Err(e),
        }
        let none: Vec<(String, Option<KappaRange>)> = Vec::new();
        proof {
            assert(params_view(none@) =~= Seq::empty());
        }
        let params = match self.parse_fn_params(none) {
            Ok(x) => x,
            Err(e) => return Err(e),
        };
        match self.eat(TokenKind::RParen) {
            Ok(()) => {},
            Err(e) => return Err(e),
        }
        let ret_hint = if self.check(&TokenKind::Arrow) {
            match self.parse_hint_after() {
                Ok(h) => h,
                Err(e) => return Err(e),
            }
        } else {
            None
        };
        match self.eat(TokenKind::LBrace) {
            Ok(()) => {},
            Err(e) => return Err(e),
        }
        let empty: Vec<Stmt> = Vec::new();
        proof {
            assert(stmts_view(empty@) =~= Seq::empty());
        }
        let body = match self.parse_fn_body(empty) {
            Ok(x) => x,
            Err(e) => return Err(e),
        };
        match self.eat(TokenKind::RBrace) {
            Ok(()) => {},
            Err(e) => return Err(e),
        }
        Ok(FnDecl { name, params, ret_hint, body, line })
    }

    /// The declarations from the current token to the end of input, after
    /// those in `prog`.
    #[verifier::rlimit(30)]
    fn parse_decls(&mut self, prog: Program) -> (r: VesselResult<Program>)
        requires
            old(self).wf(),
            program_ready(prog@),
        ensures
            r matches Ok(p) ==> program_ready(p@),
            final(self).wf(),
            final(self).tokens@ == old(self).tokens@,
            fits(r, final(self).pos as nat, p_program(old(self).tokens@, old(self).pos as nat, prog@), old(self).tokens@),
        decreases old(self).tokens.len() - old(self).pos,
    {
        proof {
            reveal(p_program);
        }
        if self.check(&TokenKind::Eof) {
            return Ok(prog);
        }
        let Program { mut vessels, mut couples, mut laws, mut fns } = prog;
        let ghost (v0, c0, l0, f0) = (vessels@, couples@, laws@, fns@);
        let is_vessel = matches!(self.peek_kind(), TokenKind::Vessel);
        let is_couple = matches!(self.peek_kind(), TokenKind::Couple);
        let is_law = matches!(self.peek_kind(), TokenKind::Law);
        let is_fn = matches!(self.peek_kind(), TokenKind::Fn);
        if is_vessel {
            let v = match self.parse_vessel() {
                Ok(x) => x,
                Err(e) => return Err(e),
            };
            let ghost vv = v@;
            vessels.push(v);
            proof {
                assert(vessels_view(vessels@) =~= vessels_view(v0).push(vessels@.last()@));
                lemma_ready_vessel(prog@, vv);
            }
        } else if is_couple {
            let c = match self.parse_couple() {
                Ok(x) => x,
                Err(e) => return Err(e),
            };
            couples.push(c);
            proof {
                assert(couples_view(couples@) =~= couples_view(c0).push(couples@.last()@));
            }
        } else if is_law {
            let l = match self.parse_law() {
                Ok(x) => x,
                Err(e) => return Err(e),
            };
            laws.push(l);
            proof {
                assert(laws_view(laws@) =~= laws_view(l0).push(laws@.last()@));
            }
        } else if is_fn {
            let f = match self.parse_fn() {
                Ok(x) => x,
                Err(e) => return Err(e),
            };
            let ghost fv = f@;
            fns.push(f);
            proof {
                assert(fns_view(fns@) =~= fns_view(f0).push(fns@.last()@));
                lemma_ready_fn(prog@, fv);
            }
        } else {
            let at = self.pos;
            let m = self.message_about("Unexpected token at top level: ", at);
            return Err(self.error_at_token(at, m));
        }
        self.parse_decls(Program { vessels, couples, laws, fns })
    }

    /// Parses a whole program: its declarations up to the end of input.
    pub fn parse(&mut self) -> (r: VesselResult<Program>)
        requires
            old(self).wf(),
        ensures
            final(self).wf(),
            final(self).toks() == old(self).toks(),
            fits(r, final(self).position(), p_program(old(self).toks(), old(self).position(), empty_program()), old(self).toks()),
            r matches Ok(p) ==> program_ready(p@),
    {
        let prog = Program { vessels: Vec::new(), couples: Vec::new(), laws: Vec::new(), fns: Vec::new() };
        proof {
            assert(vessels_view(prog.vessels@) =~= Seq::empty());
            assert(couples_view(prog.couples@) =~= Seq::empty());
            assert(laws_view(prog.laws@) =~= Seq::empty());
            assert(fns_view(prog.fns@) =~= Seq::empty());
        }
        self.parse_decls(prog)
    }
}

} // verus!
