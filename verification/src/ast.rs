//! The Vessel syntax tree, produced by the parser and read by kappa inference,
//! with its mathematical view.

use vstd::prelude::*;
use crate::decimal::{
    Decimal, Num, OPERAND_LIMIT, Order, all_digits, compare, digits_value, max_scale, minus, num_order,
    scale_to,
};
use crate::lexer::SOURCE_LIMIT;

verus! {

/// How a decimal appears in a view: sign, digits and scale.
pub type DecimalView = (bool, Seq<u8>, nat);

impl View for Decimal {
    type V = DecimalView;

    open spec fn view(&self) -> DecimalView {
        (self.negative, self.digits@, self.scale as nat)
    }
}

/// A kappa range `[lo, hi]`.
#[derive(Debug, Clone, PartialEq)]
pub struct KappaRange {
    pub lo: Decimal,
    pub hi: Decimal,
}

impl View for KappaRange {
    type V = (DecimalView, DecimalView);

    open spec fn view(&self) -> (DecimalView, DecimalView) {
        (self.lo@, self.hi@)
    }
}

/// The exact value of a decimal given by its view.
pub open spec fn num_of(d: DecimalView) -> Num {
    (if d.0 { -(digits_value(d.1) as int) } else { digits_value(d.1) as int }, d.2)
}

/// `x <= y` as numbers.
pub open spec fn num_le(x: Num, y: Num) -> bool {
    num_order(x, y) != Order::Greater
}

/// `x < y` as numbers.
pub open spec fn num_lt(x: Num, y: Num) -> bool {
    num_order(x, y) == Order::Less
}

/// The exact difference `x - y`, at the larger of the two scales.
pub open spec fn num_sub(x: Num, y: Num) -> Num {
    let s = max_scale(x, y);
    (scale_to(x, s) - scale_to(y, s), s)
}

/// A decimal that the range arithmetic accepts: well formed and of bounded length.
pub open spec fn decimal_fits(d: DecimalView) -> bool {
    &&& all_digits(d.1)
    &&& d.2 <= d.1.len()
    &&& d.1.len() <= OPERAND_LIMIT
}

/// Both ends of a range fit.
pub open spec fn range_fits(r: RangeView) -> bool {
    decimal_fits(r.0) && decimal_fits(r.1)
}

/// The ends of a range as exact numbers.
pub open spec fn range_num(r: RangeView) -> (Num, Num) {
    (num_of(r.0), num_of(r.1))
}

/// `lo <= v <= hi`.
pub open spec fn num_in(r: (Num, Num), v: Num) -> bool {
    num_le(r.0, v) && num_le(v, r.1)
}

/// The two closed ranges share a point: `a.lo <= b.hi` and `b.lo <= a.hi`.
pub open spec fn nums_meet(a: (Num, Num), b: (Num, Num)) -> bool {
    num_le(a.0, b.1) && num_le(b.0, a.1)
}

/// The overlap of two ranges, `[max(lo), min(hi)]`, when it is not empty;
/// on equal ends the first range's end is kept.
pub open spec fn range_overlap(a: RangeView, b: RangeView) -> Option<RangeView> {
    let lo = if num_lt(num_of(a.0), num_of(b.0)) { b.0 } else { a.0 };
    let hi = if num_lt(num_of(b.1), num_of(a.1)) { b.1 } else { a.1 };
    if num_le(num_of(lo), num_of(hi)) { Some((lo, hi)) } else { None }
}

/// The text `0`, as a view.
pub open spec fn zero_view() -> DecimalView {
    (false, seq![0u8], 0)
}

/// The text `1`, as a view.
pub open spec fn one_view() -> DecimalView {
    (false, seq![1u8], 0)
}

/// The full range `[0, 1]`.
pub open spec fn full_view() -> RangeView {
    (zero_view(), one_view())
}

impl KappaRange {
    /// Both ends fit the range arithmetic.
    pub open spec fn fits(&self) -> bool {
        range_fits(self@)
    }

    /// The range `[lo, hi]`.
    pub fn new(lo: Decimal, hi: Decimal) -> (r: Self)
        ensures
            r.lo == lo,
            r.hi == hi,
    {
        KappaRange { lo, hi }
    }

    /// The range `[v, v]`.
    pub fn point(v: Decimal) -> (r: Self)
        ensures
            r@ == (v@, v@),
    {
        let w = v.duplicate();
        KappaRange { lo: v, hi: w }
    }

    /// The full range `[0, 1]`.
    pub fn full() -> (r: Self)
        ensures
            r@ == full_view(),
    {
        let r = KappaRange {
            lo: Decimal { negative: false, digits: vec![0], scale: 0 },
            hi: Decimal { negative: false, digits: vec![1], scale: 0 },
        };
        assert(r.lo.digits@ =~= seq![0u8]);
        assert(r.hi.digits@ =~= seq![1u8]);
        r
    }

    /// The same range, as a new value.
    pub fn duplicate(&self) -> (r: Self)
        ensures
            r@ == self@,
    {
        KappaRange { lo: self.lo.duplicate(), hi: self.hi.duplicate() }
    }

    /// `hi - lo`, exactly.
    pub fn width(&self) -> (w: Decimal)
        requires
            self.fits(),
        ensures
            w.wf(),
            w.value() == num_sub(num_of(self.hi@), num_of(self.lo@)),
    {
        minus(&self.hi, &self.lo)
    }

    /// Whether `lo <= v <= hi`.
    pub fn contains(&self, v: &Decimal) -> (b: bool)
        requires
            self.fits(),
            decimal_fits(v@),
        ensures
            b == num_in(range_num(self@), num_of(v@)),
    {
        let above = !matches!(compare(&self.lo, v), Order::Greater);
        let below = !matches!(compare(v, &self.hi), Order::Greater);
        above && below
    }

    /// Whether the two ranges share a point.
    pub fn intersects(&self, other: &KappaRange) -> (b: bool)
        requires
            self.fits(),
            other.fits(),
        ensures
            b == nums_meet(range_num(self@), range_num(other@)),
    {
        let a = !matches!(compare(&self.lo, &other.hi), Order::Greater);
        let c = !matches!(compare(&other.lo, &self.hi), Order::Greater);
        a && c
    }

    /// The overlap of the two ranges, if it is not empty.
    pub fn intersect(&self, other: &KappaRange) -> (r: Option<KappaRange>)
        requires
            self.fits(),
            other.fits(),
        ensures
            match r {
                Some(k) => range_overlap(self@, other@) == Some(k@),
                None => range_overlap(self@, other@) is None,
            },
    {
        let lo = if matches!(compare(&self.lo, &other.lo), Order::Less) {
            other.lo.duplicate()
        } else {
            self.lo.duplicate()
        };
        let hi = if matches!(compare(&other.hi, &self.hi), Order::Less) {
            other.hi.duplicate()
        } else {
            self.hi.duplicate()
        };
        if matches!(compare(&lo, &hi), Order::Greater) {
            None
        } else {
            Some(KappaRange { lo, hi })
        }
    }
}

/// Top-level compilation unit.
#[derive(Debug)]
pub struct Program {
    pub vessels: Vec<VesselDecl>,
    pub couples: Vec<CoupleDecl>,
    pub laws: Vec<LawDecl>,
    pub fns: Vec<FnDecl>,
}

/// `vessel <name> { kappa: <expr>, boundary: <expr>, sentient: <bool>, observer: <bool> }`
#[derive(Debug)]
pub struct VesselDecl {
    pub name: String,
    pub kappa: Expr,
    pub boundary: Expr,
    pub sentient: bool,
    pub observer: bool,
    pub line: usize,
}

/// `couple <a> to <b> { coupling: <expr> }`
#[derive(Debug)]
pub struct CoupleDecl {
    pub src: String,
    pub dst: String,
    pub coupling: Expr,
    pub line: usize,
}

/// `law <name> { forall <param>: <body> }`
#[derive(Debug)]
pub struct LawDecl {
    pub name: String,
    pub param: String,
    pub body: Expr,
    pub line: usize,
}

/// `fn <name>(<params>) -> <ret_kappa_hint> { <body> }`
#[derive(Debug)]
pub struct FnDecl {
    pub name: String,
    /// Each parameter with its kappa hint, if annotated.
    pub params: Vec<(String, Option<KappaRange>)>,
    pub ret_hint: Option<KappaRange>,
    pub body: Vec<Stmt>,
    pub line: usize,
}

/// A statement inside a function body.
#[derive(Debug)]
pub enum Stmt {
    Let { name: String, value: Expr, line: usize },
    Return { value: Expr, line: usize },
    Expr { value: Expr, line: usize },
}

/// An expression tree.
#[derive(Debug)]
pub enum Expr {
    FloatLit(Decimal),
    BoolLit(bool),
    Ident(String),
    BinOp { op: BinOpKind, left: Box<Expr>, right: Box<Expr> },
    UnaryOp { op: UnaryOpKind, expr: Box<Expr> },
    Call { callee: String, args: Vec<Expr> },
    Member { object: Box<Expr>, field: String },
    Forall { param: String, body: Box<Expr> },
    If { cond: Box<Expr>, then: Box<Expr>, else_: Box<Expr> },
}

#[derive(Debug, Clone, Copy, PartialEq, Eq, Structural)]
pub enum BinOpKind {
    Add,
    Sub,
    Mul,
    Div,
    Lt,
    Gt,
    LtEq,
    GtEq,
    And,
    Or,
}

#[derive(Debug, Clone, Copy, PartialEq, Eq, Structural)]
pub enum UnaryOpKind {
    Neg,
    Not,
}

// ---------------------------------------------------------------- views

/// The mathematical view of an expression.
pub enum ExprView {
    FloatLit(DecimalView),
    BoolLit(bool),
    Ident(Seq<char>),
    BinOp(BinOpKind, Box<ExprView>, Box<ExprView>),
    UnaryOp(UnaryOpKind, Box<ExprView>),
    Call(Seq<char>, Seq<ExprView>),
    Member(Box<ExprView>, Seq<char>),
    Forall(Seq<char>, Box<ExprView>),
    If(Box<ExprView>, Box<ExprView>, Box<ExprView>),
}

/// The views of a sequence of expressions.
pub open spec fn exprs_view(s: Seq<Expr>) -> Seq<ExprView>
    decreases s,
{
    if s.len() == 0 {
        Seq::empty()
    } else {
        seq![expr_view(s[0])] + exprs_view(s.subrange(1, s.len() as int))
    }
}

/// The view of an expression.
pub open spec fn expr_view(e: Expr) -> ExprView
    decreases e,
{
    match e {
        Expr::FloatLit(d) => ExprView::FloatLit(d@),
        Expr::BoolLit(b) => ExprView::BoolLit(b),
        Expr::Ident(s) => ExprView::Ident(s@),
        Expr::BinOp { op, left, right } => ExprView::BinOp(
            op,
            Box::new(expr_view(*left)),
            Box::new(expr_view(*right)),
        ),
        Expr::UnaryOp { op, expr } => ExprView::UnaryOp(op, Box::new(expr_view(*expr))),
        Expr::Call { callee, args } => ExprView::Call(callee@, exprs_view(args@)),
        Expr::Member { object, field } => ExprView::Member(Box::new(expr_view(*object)), field@),
        Expr::Forall { param, body } => ExprView::Forall(param@, Box::new(expr_view(*body))),
        Expr::If { cond, then, else_ } => ExprView::If(
            Box::new(expr_view(*cond)),
            Box::new(expr_view(*then)),
            Box::new(expr_view(*else_)),
        ),
    }
}

impl View for Expr {
    type V = ExprView;

    open spec fn view(&self) -> ExprView {
        expr_view(*self)
    }
}


/// A kappa range as a view.
pub type RangeView = (DecimalView, DecimalView);

/// The view of an optional kappa hint.
pub open spec fn hint_view(h: Option<KappaRange>) -> Option<RangeView> {
    match h {
        Some(r) => Some(r@),
        None => None,
    }
}

pub struct VesselView {
    pub name: Seq<char>,
    pub kappa: ExprView,
    pub boundary: ExprView,
    pub sentient: bool,
    pub observer: bool,
    pub line: nat,
}

pub struct CoupleView {
    pub src: Seq<char>,
    pub dst: Seq<char>,
    pub coupling: ExprView,
    pub line: nat,
}

pub struct LawView {
    pub name: Seq<char>,
    pub param: Seq<char>,
    pub body: ExprView,
    pub line: nat,
}

pub enum StmtView {
    Let(Seq<char>, ExprView, nat),
    Return(ExprView, nat),
    Expr(ExprView, nat),
}

pub struct FnView {
    pub name: Seq<char>,
    pub params: Seq<(Seq<char>, Option<RangeView>)>,
    pub ret_hint: Option<RangeView>,
    pub body: Seq<StmtView>,
    pub line: nat,
}

pub struct ProgramView {
    pub vessels: Seq<VesselView>,
    pub couples: Seq<CoupleView>,
    pub laws: Seq<LawView>,
    pub fns: Seq<FnView>,
}

impl View for VesselDecl {
    type V = VesselView;

    open spec fn view(&self) -> VesselView {
        VesselView {
            name: self.name@,
            kappa: self.kappa@,
            boundary: self.boundary@,
            sentient: self.sentient,
            observer: self.observer,
            line: self.line as nat,
        }
    }
}

impl View for CoupleDecl {
    type V = CoupleView;

    open spec fn view(&self) -> CoupleView {
        CoupleView { src: self.src@, dst: self.dst@, coupling: self.coupling@, line: self.line as nat }
    }
}

impl View for LawDecl {
    type V = LawView;

    open spec fn view(&self) -> LawView {
        LawView { name: self.name@, param: self.param@, body: self.body@, line: self.line as nat }
    }
}

impl View for Stmt {
    type V = StmtView;

    open spec fn view(&self) -> StmtView {
        match self {
            Stmt::Let { name, value, line } => StmtView::Let(name@, value@, *line as nat),
            Stmt::Return { value, line } => StmtView::Return(value@, *line as nat),
            Stmt::Expr { value, line } => StmtView::Expr(value@, *line as nat),
        }
    }
}

/// The view of a parameter with its hint.
pub open spec fn param_view(p: (String, Option<KappaRange>)) -> (Seq<char>, Option<RangeView>) {
    (p.0@, hint_view(p.1))
}

/// The views of parameters with their hints.
pub open spec fn params_view(s: Seq<(String, Option<KappaRange>)>) -> Seq<(Seq<char>, Option<RangeView>)> {
    s.map_values(|p: (String, Option<KappaRange>)| param_view(p))
}

/// The views of statements.
pub open spec fn stmts_view(s: Seq<Stmt>) -> Seq<StmtView> {
    s.map_values(|x: Stmt| x@)
}

impl View for FnDecl {
    type V = FnView;

    open spec fn view(&self) -> FnView {
        FnView {
            name: self.name@,
            params: params_view(self.params@),
            ret_hint: hint_view(self.ret_hint),
            body: stmts_view(self.body@),
            line: self.line as nat,
        }
    }
}

/// The views of vessel declarations.
pub open spec fn vessels_view(s: Seq<VesselDecl>) -> Seq<VesselView> {
    s.map_values(|v: VesselDecl| v@)
}

/// The views of couple declarations.
pub open spec fn couples_view(s: Seq<CoupleDecl>) -> Seq<CoupleView> {
    s.map_values(|c: CoupleDecl| c@)
}

/// The views of law declarations.
pub open spec fn laws_view(s: Seq<LawDecl>) -> Seq<LawView> {
    s.map_values(|l: LawDecl| l@)
}

/// The views of function declarations.
pub open spec fn fns_view(s: Seq<FnDecl>) -> Seq<FnView> {
    s.map_values(|f: FnDecl| f@)
}

impl View for Program {
    type V = ProgramView;

    open spec fn view(&self) -> ProgramView {
        ProgramView {
            vessels: vessels_view(self.vessels@),
            couples: couples_view(self.couples@),
            laws: laws_view(self.laws@),
            fns: fns_view(self.fns@),
        }
    }
}

// ---------------------------------------------------------------- literals

/// A number literal as the lexer makes them: well formed and no longer than
/// a source text.
pub open spec fn decimal_small(d: DecimalView) -> bool {
    &&& all_digits(d.1)
    &&& d.2 <= d.1.len()
    &&& d.1.len() <= SOURCE_LIMIT
}

/// Both ends of a range are such literals.
pub open spec fn range_small(r: RangeView) -> bool {
    decimal_small(r.0) && decimal_small(r.1)
}

/// Every number literal in the expression is small.
pub open spec fn expr_ok(e: ExprView) -> bool
    decreases e, 0nat,
{
    match e {
        ExprView::FloatLit(d) => decimal_small(d),
        ExprView::BinOp(_, l, r) => expr_ok(*l) && expr_ok(*r),
        ExprView::UnaryOp(_, x) => expr_ok(*x),
        ExprView::Call(_, args) => args_ok(args, 0),
        ExprView::Member(o, _) => expr_ok(*o),
        ExprView::Forall(_, b) => expr_ok(*b),
        ExprView::If(c, t, f) => expr_ok(*c) && expr_ok(*t) && expr_ok(*f),
        _ => true,
    }
}

/// Every number literal in the arguments from `i` on is small.
pub open spec fn args_ok(args: Seq<ExprView>, i: nat) -> bool
    decreases args, args.len() - i,
{
    if i >= args.len() {
        true
    } else {
        expr_ok(args[i as int]) && args_ok(args, i + 1)
    }
}

/// The arguments from `i` on are fine exactly when each of them is.
pub proof fn lemma_args_ok(args: Seq<ExprView>, i: nat)
    ensures
        args_ok(args, i) <==> forall|j: int| i <= j < args.len() ==> #[trigger] expr_ok(args[j]),
    decreases args.len() - i,
{
    if i < args.len() {
        lemma_args_ok(args, i + 1);
        assert(args_ok(args, i) == (expr_ok(args[i as int]) && args_ok(args, i + 1)));
    }
}

/// The arguments of a call whose literals are small have small literals.
pub proof fn lemma_call_args_ok(callee: Seq<char>, args: Seq<ExprView>)
    ensures
        expr_ok(ExprView::Call(callee, args)) <==> forall|i: int| 0 <= i < args.len() ==> #[trigger] expr_ok(args[i]),
{
    assert(expr_ok(ExprView::Call(callee, args)) == args_ok(args, 0));
    lemma_args_ok(args, 0);
}

/// An expression that, if it is a number literal, is a small one.
pub open spec fn literal_small(e: ExprView) -> bool {
    e matches ExprView::FloatLit(d) ==> decimal_small(d)
}

/// The expression a statement holds.
pub open spec fn stmt_value(s: StmtView) -> ExprView {
    match s {
        StmtView::Let(_, v, _) => v,
        StmtView::Return(v, _) => v,
        StmtView::Expr(v, _) => v,
    }
}

/// An optional hint that is absent or small.
pub open spec fn hint_small(h: Option<RangeView>) -> bool {
    h matches Some(r) ==> range_small(r)
}

/// A function whose hints are small and whose statements hold only small literals.
pub open spec fn fn_ready(f: FnView) -> bool {
    &&& forall|i: int| 0 <= i < f.params.len() ==> #[trigger] hint_small(f.params[i].1)
    &&& hint_small(f.ret_hint)
    &&& forall|i: int| 0 <= i < f.body.len() ==> #[trigger] expr_ok(stmt_value(f.body[i]))
}

/// A vessel whose kappa and boundary, when literals, are small.
pub open spec fn vessel_ready(v: VesselView) -> bool {
    literal_small(v.kappa) && literal_small(v.boundary)
}

/// A program whose literals, wherever inference reads them, are small.
pub open spec fn program_ready(p: ProgramView) -> bool {
    &&& forall|i: int| 0 <= i < p.vessels.len() ==> #[trigger] vessel_ready(p.vessels[i])
    &&& forall|i: int| 0 <= i < p.fns.len() ==> #[trigger] fn_ready(p.fns[i])
}

/// The views of a sequence of expressions, one by one.
pub proof fn lemma_exprs_view_index(s: Seq<Expr>)
    ensures
        exprs_view(s).len() == s.len(),
        forall|i: int| 0 <= i < s.len() ==> #[trigger] exprs_view(s)[i] == expr_view(s[i]),
    decreases s.len(),
{
    if s.len() > 0 {
        let rest = s.subrange(1, s.len() as int);
        lemma_exprs_view_index(rest);
        assert forall|i: int| 0 <= i < s.len() implies #[trigger] exprs_view(s)[i] == expr_view(s[i]) by {
            if i > 0 {
                assert(exprs_view(s)[i] == exprs_view(rest)[i - 1]);
                assert(rest[i - 1] == s[i]);
            }
        }
    }
}

} // verus!
