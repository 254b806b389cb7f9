use vesselc::ast::{Expr, KappaRange};
use vesselc::compile;
use vesselc::decimal::Decimal;
use vesselc::error::{DrcKind, Phase, VesselError};
use vesselc::fixed::fixed4;
use vesselc::kappa_infer::KappaInfer;
use vesselc::lexer::{Lexer, TokenKind};
use vesselc::parser::Parser;

/// e^-1, as the constants of the language give it.
const FORBIDDEN_LOW: f64 = 0.36787944117144233;
/// e^-1/2.
const FORBIDDEN_HIGH: f64 = 0.60653065971263342;

fn dec(text: &str) -> Decimal {
    let negative = text.starts_with('-');
    let body = text.trim_start_matches('-');
    let mut digits = Vec::new();
    let mut scale = 0usize;
    let mut after_point = false;
    for c in body.chars() {
        if c == '.' {
            after_point = true;
        } else {
            digits.push(c.to_digit(10).unwrap() as u8);
            if after_point {
                scale += 1;
            }
        }
    }
    Decimal { negative, digits, scale }
}

fn dec_f64(d: &Decimal) -> f64 {
    let mut v = 0.0f64;
    for x in &d.digits {
        v = v * 10.0 + (*x as f64);
    }
    for _ in 0..d.scale {
        v /= 10.0;
    }
    if d.negative { -v } else { v }
}

fn ok(src: &str) -> (vesselc::ast::Program, KappaInfer) {
    match compile(src) {
        Ok(x) => x,
        Err(e) => panic!("Expected compile success, got: {}", e.to_text()),
    }
}

fn err(src: &str) -> VesselError {
    match compile(src) {
        Ok(_) => panic!("Expected compile error"),
        Err(e) => e,
    }
}

fn err_contains(src: &str, needle: &str) {
    let msg = err(src).to_text();
    assert!(msg.contains(needle), "Expected error containing {:?}, got: {msg}", needle);
}

fn vessel_range(ki: &KappaInfer, name: &str) -> (String, String) {
    let inf = ki.vessel(&name.to_string()).expect("vessel");
    (inf.kappa.lo.to_text(), inf.kappa.hi.to_text())
}

// ------------------------------------------------------------------ lexer

#[test]
fn t1_lexer_floats_and_keywords() {
    let src = "vessel boundary couple fn law 0.5 -0.3";
    let mut lex = Lexer::new(src);
    let tokens = lex.tokenize().expect("tokenize");
    assert!(tokens.iter().any(|t| t.kind == TokenKind::Vessel));
    assert!(tokens.iter().any(|t| t.kind == TokenKind::Fn));
    assert!(tokens.iter().any(|t| matches!(&t.kind, TokenKind::Float(v) if (dec_f64(v) - 0.5).abs() < 1e-9)));
    assert!(tokens.iter().any(|t| matches!(&t.kind, TokenKind::Float(v) if (dec_f64(v) + 0.3).abs() < 1e-9)));
}

#[test]
fn t13_comments_skipped() {
    let src = "-- this is a comment\nvessel";
    let mut lex = Lexer::new(src);
    let tokens = lex.tokenize().unwrap();
    assert!(tokens.iter().any(|t| t.kind == TokenKind::Vessel));
    // comment content should not produce tokens
    assert!(!tokens.iter().any(|t| matches!(&t.kind, TokenKind::Ident(s) if s == "this")));
}

#[test]
fn lexer_positions_and_eof() {
    let mut lex = Lexer::new("vessel A\n  { }");
    let tokens = lex.tokenize().unwrap();
    assert_eq!(tokens.len(), 5);
    assert_eq!((tokens[0].line, tokens[0].col), (1, 1));
    assert_eq!((tokens[1].line, tokens[1].col), (1, 8));
    assert_eq!((tokens[2].line, tokens[2].col), (2, 3));
    assert_eq!(tokens[4].kind, TokenKind::Eof);
    assert_eq!((tokens[4].line, tokens[4].col), (2, 6));
}

#[test]
fn lexer_unexpected_character() {
    let e = err("vessel A { kappa: 0.2 @ }");
    assert_eq!(e.kind, DrcKind::Secondary);
    assert_eq!(e.phase, Phase::Lexer);
    assert_eq!(e.to_text(), "[DRC.SECONDARY][Lexer at 1:23] Unexpected character: '@'");
}

#[test]
fn lexer_invalid_float() {
    let e = err("vessel A { kappa: 0.2.3 }");
    assert_eq!(e.to_text(), "[DRC.SECONDARY][Lexer at 1:19] Invalid float literal: 0.2.3");
}

#[test]
fn lexer_keywords_and_arrows() {
    let mut lex = Lexer::new("fn f(x) -> <0.0, 1.0> { return x }");
    let tokens = lex.tokenize().unwrap();
    assert!(tokens.iter().any(|t| t.kind == TokenKind::Arrow));
    assert!(tokens.iter().any(|t| t.kind == TokenKind::Return));
    assert_eq!(tokens.last().unwrap().kind, TokenKind::Eof);
}

// ------------------------------------------------------------------ parser

#[test]
fn parser_reads_declarations() {
    let src = "vessel A { kappa: 0.2, boundary: 0.25, sentient: true }
couple A to A { coupling: 0.3 }
law stable { forall v: v >= 0.0 }
fn scale(x: <0.0, 0.35>, y) -> <0.0, 0.4> { let z = x + y return z }";
    let mut lex = Lexer::new(src);
    let tokens = lex.tokenize().unwrap();
    let mut par = Parser::new(tokens);
    let p = par.parse().expect("parse");
    assert_eq!(p.vessels.len(), 1);
    assert_eq!(p.vessels[0].name, "A");
    assert!(p.vessels[0].sentient);
    assert!(!p.vessels[0].observer);
    assert!(matches!(&p.vessels[0].boundary, Expr::FloatLit(d) if d.to_text() == "0.25"));
    assert_eq!(p.couples.len(), 1);
    assert!(matches!(&p.couples[0].coupling, Expr::FloatLit(d) if d.to_text() == "0.3"));
    assert_eq!(p.laws[0].name, "stable");
    assert_eq!(p.laws[0].param, "v");
    assert_eq!(p.fns[0].name, "scale");
    assert_eq!(p.fns[0].params.len(), 2);
    assert!(p.fns[0].params[0].1.is_some());
    assert!(p.fns[0].params[1].1.is_none());
    assert_eq!(p.fns[0].body.len(), 2);
    assert_eq!(p.fns[0].line, 4);
}

#[test]
fn parser_missing_fields_default_to_half() {
    let mut par = Parser::new(Lexer::new("vessel A { }").tokenize().unwrap());
    let p = par.parse().unwrap();
    assert!(matches!(&p.vessels[0].kappa, Expr::FloatLit(d) if d.to_text() == "0.5"));
    assert!(matches!(&p.vessels[0].boundary, Expr::FloatLit(d) if d.to_text() == "0.5"));
}

#[test]
fn parser_expected_token_error() {
    let e = err("vessel A kappa: 0.2 }");
    assert_eq!(e.to_text(), "[DRC.PRIMARY][Parser at 1:10] Expected LBrace, got Ident(\"kappa\")");
}

#[test]
fn parser_top_level_error() {
    let e = err("0.5");
    assert_eq!(e.to_text(), "[DRC.PRIMARY][Parser at 1:1] Unexpected token at top level: Float(0.5)");
}

#[test]
fn parser_precedence() {
    let mut par = Parser::new(Lexer::new("law l { forall v: 1.0 + 2.0 * 3.0 < 4.0 and not v }").tokenize().unwrap());
    let p = par.parse().unwrap();
    match &p.laws[0].body {
        Expr::BinOp { op, left, .. } => {
            assert_eq!(*op, vesselc::ast::BinOpKind::And);
            assert!(matches!(&**left, Expr::BinOp { op: vesselc::ast::BinOpKind::Lt, .. }));
        },
        other => panic!("unexpected {:?}", other),
    }
}

// ------------------------------------------------------------------ kappa inference

#[test]
fn t3_forbidden_zone_rejects_non_sentient() {
    // kappa 0.4 is inside (e^-1 ≈ 0.3679, e^-0.5 ≈ 0.6065)
    let src = "vessel Bad { kappa: 0.4, boundary: 0.4 }";
    err_contains(src, "forbidden zone");
}

#[test]
fn t6_coupling_safety_disjoint() {
    let src = "vessel A { kappa: 0.1, boundary: 0.1 }
vessel C { kappa: 0.3, boundary: 0.3 }
couple A to C { coupling: 0.5 }";
    err_contains(src, "do not intersect");
}

#[test]
fn t15_forbidden_zone_boundary() {
    // kappa exactly at FORBIDDEN_LOW should NOT be in zone (exclusive)
    let src = format!("vessel Edge {{ kappa: {FORBIDDEN_LOW:.10}, boundary: {FORBIDDEN_LOW:.10} }}");
    let _ = ok(&src);

    // kappa just inside zone
    let inside = (FORBIDDEN_LOW + FORBIDDEN_HIGH) / 2.0;
    let src2 = format!("vessel Inside {{ kappa: {inside:.10}, boundary: {inside:.10} }}");
    err_contains(&src2, "forbidden zone");
}

#[test]
fn t19_couple_unknown_vessel() {
    let src = "vessel A { kappa: 0.2, boundary: 0.2 }
couple A to GHOST { coupling: 0.5 }";
    err_contains(src, "GHOST");
}

#[test]
fn forbidden_zone_message() {
    let e = err("vessel Bad { kappa: 0.4, boundary: 0.4 }");
    assert_eq!(
        e.to_text(),
        "[DRC.SECONDARY][KappaInfer] Vessel 'Bad' kappa range [0.4000, 0.4000] overlaps forbidden zone \
         (0.3679, 0.6065). Only sentient vessels may occupy this zone."
    );
}

#[test]
fn sentient_vessel_in_forbidden_zone() {
    let (_, ki) = ok("vessel Bio { kappa: 0.5, boundary: 0.5, sentient: true }");
    assert_eq!(ki.vessels.len(), 1);
    assert!(ki.vessels[0].1.sentient);
    assert_eq!(vessel_range(&ki, "Bio"), ("0.5".to_string(), "0.5".to_string()));
}

#[test]
fn disjoint_coupling_message() {
    let e = err("vessel A { kappa: 0.1, boundary: 0.1 }
vessel C { kappa: 0.3, boundary: 0.3 }
couple A to C { coupling: 0.5 }");
    assert_eq!(e.kind, DrcKind::Secondary);
    assert_eq!(
        e.to_text(),
        "[DRC.SECONDARY][KappaInfer] Coupling 'A'->'C': kappa ranges [0.1000,0.1000] and [0.3000,0.3000] \
         do not intersect; coupling cannot propagate."
    );
}

#[test]
fn cross_zone_coupling_is_valid() {
    let (p, _) = ok("vessel A { kappa: 0.2, boundary: 0.2 }
vessel B { kappa: 0.7, boundary: 0.7 }
couple A to B { coupling: 0.3 }");
    assert_eq!(p.couples.len(), 1);
}

#[test]
fn unknown_couple_message() {
    let e = err("vessel A { kappa: 0.2, boundary: 0.2 }
couple A to GHOST { coupling: 0.5 }");
    assert_eq!(e.to_text(), "[DRC.PRIMARY][KappaInfer at 2:0] Couple references unknown vessel 'GHOST'");
}

#[test]
fn unknown_kappa_reference() {
    let e = err("vessel A { kappa: B, boundary: 0.2 }");
    assert_eq!(e.to_text(), "[DRC.PRIMARY][KappaInfer at 1:0] Kappa references unknown vessel 'B'");
}

#[test]
fn kappa_reference_copies_range() {
    let (_, ki) = ok("vessel A { kappa: 0.2, boundary: 0.2 }
vessel B { kappa: A, boundary: 0.2 }");
    assert_eq!(vessel_range(&ki, "B"), ("0.2".to_string(), "0.2".to_string()));
}

#[test]
fn boundary_narrows_to_point() {
    // R4c: a boundary inside the range makes it the point
    let (_, ki) = ok("vessel A { kappa: x + 0.1, boundary: 0.25, sentient: true }");
    assert_eq!(vessel_range(&ki, "A"), ("0.25".to_string(), "0.25".to_string()));
}

#[test]
fn boundary_outside_point_inverts_range() {
    // R4a/R4b act one after the other on a point range
    let (_, ki) = ok("vessel A { kappa: 0.2, boundary: 0.3 }");
    assert_eq!(vessel_range(&ki, "A"), ("0.3".to_string(), "0.2".to_string()));
}

#[test]
fn duplicate_vessel_names_keep_last() {
    let (_, ki) = ok("vessel A { kappa: 0.2, boundary: 0.2 }
vessel A { kappa: 0.8, boundary: 0.8 }");
    assert_eq!(ki.vessels.len(), 1);
    // the second declaration's seed replaces the first; both boundaries then narrow it
    assert_eq!(vessel_range(&ki, "A"), ("0.8".to_string(), "0.2".to_string()));
}

#[test]
fn function_ranges_from_hints() {
    let (_, ki) = ok("fn scale(x: <0.0, 0.35>, y) -> <0.0, 0.4> { return x }");
    let (name, fi) = &ki.fns[0];
    assert_eq!(name, "scale");
    assert_eq!(fi.params.len(), 2);
    assert_eq!(fi.params[0].0, "x");
    assert_eq!((fi.params[0].1.lo.to_text(), fi.params[0].1.hi.to_text()), ("0.0".to_string(), "0.35".to_string()));
    assert_eq!((fi.params[1].1.lo.to_text(), fi.params[1].1.hi.to_text()), ("0".to_string(), "1".to_string()));
    assert_eq!((fi.ret.lo.to_text(), fi.ret.hi.to_text()), ("0.0".to_string(), "0.4".to_string()));
}

#[test]
fn composition_argument_outside_range() {
    let e = err("fn scale(x: <0.0, 0.35>) { return x }
fn main() { let y = scale(0.5) return y }");
    assert_eq!(e.kind, DrcKind::Tertiary);
    assert_eq!(
        e.to_text(),
        "[DRC.TERTIARY][KappaInfer] R9: Argument 0 (0.5000) to 'scale' param 'x' is outside expected range [0.0000,0.3500]."
    );
}

#[test]
fn composition_argument_inside_range() {
    let _ = ok("fn scale(x: <0.0, 0.35>) { return x }
fn main() { return scale(0.25) + scale(0.35) }");
}

#[test]
fn composition_checks_nested_calls() {
    err_contains(
        "fn f(a: <0.0, 0.1>) { return a }
fn g() { return if true { f(f(0.5)) } else { 0.0 } }",
        "R9: Argument 0 (0.5000) to 'f'",
    );
}

#[test]
fn empty_program_compiles() {
    let (p, ki) = ok("-- nothing here\n");
    assert!(p.vessels.is_empty());
    assert!(ki.vessels.is_empty() && ki.fns.is_empty());
}

// ------------------------------------------------------------------ ranges

#[test]
fn kappa_range_point_and_full() {
    let p = KappaRange::point(dec("0.25"));
    assert_eq!(p.lo.to_text(), "0.25");
    assert_eq!(p.hi.to_text(), "0.25");
    let f = KappaRange::full();
    assert_eq!((f.lo.to_text(), f.hi.to_text()), ("0".to_string(), "1".to_string()));
}

#[test]
fn kappa_range_width() {
    let r = KappaRange::new(dec("0.2"), dec("0.75"));
    let w = r.width();
    assert!((dec_f64(&w) - 0.55).abs() < 1e-12);
    let inverted = KappaRange::new(dec("0.5"), dec("0.2"));
    assert!((dec_f64(&inverted.width()) + 0.3).abs() < 1e-12);
}

#[test]
fn kappa_range_contains() {
    let r = KappaRange::new(dec("0.2"), dec("0.4"));
    assert!(r.contains(&dec("0.2")));
    assert!(r.contains(&dec("0.40")));
    assert!(r.contains(&dec("0.3")));
    assert!(!r.contains(&dec("0.41")));
    assert!(!r.contains(&dec("-0.3")));
}

#[test]
fn kappa_range_intersects_and_intersect() {
    let a = KappaRange::new(dec("0.1"), dec("0.5"));
    let b = KappaRange::new(dec("0.4"), dec("0.9"));
    let c = KappaRange::new(dec("0.6"), dec("0.7"));
    assert!(a.intersects(&b) && b.intersects(&a));
    assert!(!a.intersects(&c) && !c.intersects(&a));
    let ab = a.intersect(&b).unwrap();
    assert_eq!((ab.lo.to_text(), ab.hi.to_text()), ("0.4".to_string(), "0.5".to_string()));
    assert!(a.intersect(&c).is_none());
    // touching ranges share their end point
    let d = KappaRange::new(dec("0.5"), dec("0.6"));
    let ad = a.intersect(&d).unwrap();
    assert_eq!((ad.lo.to_text(), ad.hi.to_text()), ("0.5".to_string(), "0.5".to_string()));
}

// ------------------------------------------------------------------ numbers shown

#[test]
fn fixed_four_decimals() {
    assert_eq!(fixed4(&dec("0.36787944117144233")), "0.3679");
    assert_eq!(fixed4(&dec("0.60653065971263342")), "0.6065");
    assert_eq!(fixed4(&dec("0.5")), "0.5000");
    assert_eq!(fixed4(&dec("2")), "2.0000");
    assert_eq!(fixed4(&dec("-0.3")), "-0.3000");
    assert_eq!(fixed4(&dec("0.99996")), "1.0000");
    assert_eq!(fixed4(&dec("012.34564")), "12.3456");
    assert_eq!(fixed4(&dec("0.00004")), "0.0000");
}

// ------------------------------------------------------------------ diagnostics

#[test]
fn error_constructors_and_text() {
    let e = VesselError::secondary(Phase::Runtime, "collapse".to_string());
    assert_eq!(e.to_text(), "[DRC.SECONDARY][Runtime] collapse");
    let e = VesselError::secondary_at(Phase::Lexer, 3, 7, "bad".to_string());
    assert_eq!(e.to_text(), "[DRC.SECONDARY][Lexer at 3:7] bad");
    let e = VesselError::tertiary(Phase::GraphBuilder, "phi".to_string());
    assert_eq!(e.to_text(), "[DRC.TERTIARY][GraphBuilder] phi");
    let e = VesselError::primary_at(Phase::Parser, 1, 2, "p".to_string());
    assert_eq!(e.to_text(), "[DRC.PRIMARY][Parser at 1:2] p");
    let e = VesselError::drc(DrcKind::Primary, Phase::CodeGen, "c".to_string());
    assert_eq!(e.to_text(), "[DRC.PRIMARY][CodeGen] c");
    let e = VesselError { kind: DrcKind::Primary, phase: Phase::KappaInfer, message: "m".to_string(), line: Some(4), col: None };
    assert_eq!(e.to_text(), "[DRC.PRIMARY][KappaInfer at line 4] m");
    assert_eq!(DrcKind::Tertiary.name(), "DRC.TERTIARY");
    assert_eq!(Phase::Runtime.name(), "Runtime");
}

// ------------------------------------------------------------------ range laws on values

#[test]
fn point_range_holds_only_its_point() {
    let p = KappaRange::point(dec("0.30"));
    assert!(p.contains(&dec("0.3")));
    assert!(p.contains(&dec("0.300")));
    assert!(!p.contains(&dec("0.31")));
    assert!(!p.contains(&dec("0.29")));
}

#[test]
fn full_range_holds_zero_to_one() {
    let f = KappaRange::full();
    assert!(f.contains(&dec("0")));
    assert!(f.contains(&dec("1.000")));
    assert!(f.contains(&dec("0.5")));
    assert!(!f.contains(&dec("1.0001")));
    assert!(!f.contains(&dec("-0.0001")));
}

#[test]
fn overlap_is_common_part() {
    let a = KappaRange::new(dec("0.2"), dec("0.6"));
    let b = KappaRange::new(dec("0.35"), dec("0.9"));
    let ab = a.intersect(&b).unwrap();
    let ba = b.intersect(&a).unwrap();
    for v in ["0.1", "0.2", "0.35", "0.5", "0.6", "0.61", "0.9"] {
        let d = dec(v);
        assert_eq!(ab.contains(&d), a.contains(&d) && b.contains(&d), "{v}");
        assert_eq!(ba.contains(&d), ab.contains(&d), "{v}");
    }
}

#[test]
fn names_recorded_once() {
    let (_, ki) = ok("vessel A { kappa: 0.2, boundary: 0.2 }
vessel B { kappa: 0.8, boundary: 0.8 }
vessel A { kappa: 0.1, boundary: 0.1 }
fn f(x, x: <0.0, 0.2>) { return x }
fn f(y) { return y }");
    let names: Vec<&str> = ki.vessels.iter().map(|(n, _)| n.as_str()).collect();
    assert_eq!(names, vec!["A", "B"]);
    assert_eq!(ki.fns.len(), 1);
    assert_eq!(ki.fns[0].1.params.len(), 1);
    assert_eq!(ki.fns[0].1.params[0].0, "y");
}

#[test]
fn duplicate_parameter_keeps_last_hint() {
    let (_, ki) = ok("fn f(x, x: <0.0, 0.2>) { return x }");
    let fi = &ki.fns[0].1;
    assert_eq!(fi.params.len(), 1);
    assert_eq!(fi.params[0].1.hi.to_text(), "0.2");
}

#[test]
fn narrowing_within_eps_can_reach_the_zone() {
    // R3 looks at the seeded point 0.367879442, just below the pulled-in zone;
    // the boundary lies within 1e-9 of it, so R4c moves the range onto the
    // boundary, which is inside.
    let (_, ki) = ok("vessel V { kappa: 0.367879442, boundary: 0.3678794425 }");
    assert_eq!(vessel_range(&ki, "V"), ("0.3678794425".to_string(), "0.3678794425".to_string()));
}

#[test]
fn number_tokens_shown_in_diagnostics() {
    assert_eq!(err("3").to_text(), "[DRC.PRIMARY][Parser at 1:1] Unexpected token at top level: Float(3.0)");
    assert_eq!(err("007.50").to_text(), "[DRC.PRIMARY][Parser at 1:1] Unexpected token at top level: Float(7.5)");
    assert_eq!(
        err("vessel A { kappa: 0.2 } -0.000").to_text(),
        "[DRC.PRIMARY][Parser at 1:25] Unexpected token at top level: Float(-0.0)"
    );
}

#[test]
fn lookups_by_name() {
    let (_, ki) = ok("vessel A { kappa: 0.2, boundary: 0.2 }
fn f(x) { return x }");
    assert!(ki.vessel(&"A".to_string()).is_some());
    assert!(ki.vessel(&"B".to_string()).is_none());
    assert_eq!(ki.function(&"f".to_string()).unwrap().params[0].0, "x");
    assert!(ki.function(&"g".to_string()).is_none());
}

#[test]
fn parser_error_messages() {
    assert_eq!(
        err("vessel { }").to_text(),
        "[DRC.PRIMARY][Parser at 1:8] Expected identifier, got LBrace"
    );
    assert_eq!(
        err("fn f(x: <a, 0.3>) { return x }").to_text(),
        "[DRC.PRIMARY][Parser at 1:10] Expected float literal, got Ident(\"a\")"
    );
    assert_eq!(
        err("vessel A { 0.5: 0.2 }").to_text(),
        "[DRC.PRIMARY][Parser at 1:12] Expected field name, got Float(0.5)"
    );
    assert_eq!(
        err("law l { forall v: ) }").to_text(),
        "[DRC.PRIMARY][Parser at 1:19] Unexpected token in expression: RParen"
    );
}

#[test]
fn keyword_field_names_are_accepted() {
    let mut par = Parser::new(Lexer::new("vessel A { kappa: 0.2, vessel: 0.1, couple: 0.3, law: x }").tokenize().unwrap());
    let p = par.parse().unwrap();
    assert!(matches!(&p.vessels[0].kappa, Expr::FloatLit(d) if d.to_text() == "0.2"));
}

#[test]
fn number_tokens_shown_with_powers_of_ten() {
    let shown = |src: &str| err(src).to_text();
    assert_eq!(shown("0.00001"), "[DRC.PRIMARY][Parser at 1:1] Unexpected token at top level: Float(1e-5)");
    assert_eq!(shown("0.000125"), "[DRC.PRIMARY][Parser at 1:1] Unexpected token at top level: Float(0.000125)");
    assert_eq!(shown("0.0000125"), "[DRC.PRIMARY][Parser at 1:1] Unexpected token at top level: Float(1.25e-5)");
    assert_eq!(shown("0.0001"), "[DRC.PRIMARY][Parser at 1:1] Unexpected token at top level: Float(0.0001)");
    assert_eq!(
        shown("10000000000000000"),
        "[DRC.PRIMARY][Parser at 1:1] Unexpected token at top level: Float(1e16)"
    );
    assert_eq!(
        shown("1234567890.5"),
        "[DRC.PRIMARY][Parser at 1:1] Unexpected token at top level: Float(1234567890.5)"
    );
}

#[test]
fn fixed_four_decimals_ties_go_even() {
    assert_eq!(fixed4(&dec("0.03125")), "0.0312");
    assert_eq!(fixed4(&dec("0.03135")), "0.0314");
    assert_eq!(fixed4(&dec("0.031250001")), "0.0313");
}

#[test]
fn forbidden_zone_is_secondary_through_the_phases() {
    let tokens = Lexer::new("vessel Bad { kappa: 0.4, boundary: 0.4 }").tokenize().unwrap();
    let p = Parser::new(tokens).parse().unwrap();
    let mut ki = KappaInfer::new();
    let e = ki.infer(&p).unwrap_err();
    assert_eq!(e.kind, DrcKind::Secondary);
    assert_eq!(e.phase, Phase::KappaInfer);
    // compile gives the same diagnostic as the phases run one after another
    let c = err("vessel Bad { kappa: 0.4, boundary: 0.4 }");
    assert_eq!(c.to_text(), e.to_text());
}

#[test]
fn lone_minus_is_refused() {
    let e = err("a - b");
    assert_eq!(e.to_text(), "[DRC.SECONDARY][Lexer at 1:3] Unexpected character: '-'");
}

#[test]
fn token_positions_increase_and_eof_counts_lines() {
    let mut lex = Lexer::new("vessel A\n{ kappa: 0.2 }\n-- note\n");
    let tokens = lex.tokenize().unwrap();
    for w in tokens.windows(2) {
        assert!((w[0].line, w[0].col) < (w[1].line, w[1].col));
    }
    assert_eq!(tokens.last().unwrap().line, 4);
}

#[test]
fn comment_adds_no_tokens() {
    let a = Lexer::new("vessel A -- a note\n{ }").tokenize().unwrap();
    let b = Lexer::new("vessel A\n{ }").tokenize().unwrap();
    let kinds = |t: &Vec<vesselc::lexer::Token>| t.iter().map(|x| x.kind.clone()).collect::<Vec<_>>();
    assert_eq!(kinds(&a), kinds(&b));
}

#[test]
fn comment_keeps_kinds_lines_and_columns() {
    let a = Lexer::new("vessel A -- a note\n{ kappa: 0.2 }").tokenize().unwrap();
    let b = Lexer::new("vessel A\n{ kappa: 0.2 }").tokenize().unwrap();
    assert_eq!(a.len(), b.len());
    for (x, y) in a.iter().zip(b.iter()) {
        assert_eq!(x.kind, y.kind);
        assert_eq!((x.line, x.col), (y.line, y.col));
    }
}

#[test]
fn comment_keeps_the_lexer_error() {
    let a = err("vessel A @ -- note\n{ }");
    let b = err("vessel A @\n{ }");
    assert_eq!(a.to_text(), b.to_text());
    assert_eq!(a.to_text(), "[DRC.SECONDARY][Lexer at 1:10] Unexpected character: '@'");
}

#[test]
fn compile_reports_the_lexer_error_first() {
    // the source also fails to parse, but lexing fails first
    let e = err("vessel { kappa: 1.2.3 }");
    assert_eq!(e.phase, Phase::Lexer);
    assert_eq!(e.to_text(), "[DRC.SECONDARY][Lexer at 1:17] Invalid float literal: 1.2.3");
    let lexed = Lexer::new("vessel { kappa: 1.2.3 }").tokenize().unwrap_err();
    assert_eq!(lexed.to_text(), e.to_text());
}

#[test]
fn compile_reports_the_parser_error_before_inference() {
    // `couple A to B` names unknown vessels, but the parse fails first
    let src = "couple A to B { coupling: 0.5 } vessel";
    let e = err(src);
    assert_eq!(e.phase, Phase::Parser);
    let tokens = Lexer::new(src).tokenize().unwrap();
    let parsed = Parser::new(tokens).parse().unwrap_err();
    assert_eq!(parsed.to_text(), e.to_text());
}

#[test]
fn words_take_letters_digits_and_underscores() {
    let tokens = Lexer::new("_a1 b_2 κappa").tokenize().unwrap();
    assert_eq!(tokens[0].kind, TokenKind::Ident("_a1".to_string()));
    assert_eq!(tokens[1].kind, TokenKind::Ident("b_2".to_string()));
    assert_eq!(tokens[2].kind, TokenKind::Ident("κappa".to_string()));
    assert_eq!(tokens[3].kind, TokenKind::Eof);
}
