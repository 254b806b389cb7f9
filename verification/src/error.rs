//! DRC error kinds, compiler phases and diagnostics.

use vstd::prelude::*;
use crate::text::{decimal_text, push_decimal};

verus! {

/// The three DRC error kinds of Scale Calculus.
#[derive(Debug, Clone, Copy, PartialEq, Eq, Structural)]
pub enum DrcKind {
    /// Recoverable drift: kappa moved but a rebalance is possible.
    Primary,
    /// Fatal: forbidden zone violation or T-H1 breach.
    Secondary,
    /// Supervised: Phi collapse needs an outside vessel's intervention.
    Tertiary,
}

/// Which compiler phase produced a diagnostic.
#[derive(Debug, Clone, Copy, PartialEq, Eq, Structural)]
pub enum Phase {
    Lexer,
    Parser,
    GraphBuilder,
    KappaInfer,
    CodeGen,
    Runtime,
}

/// A compiler or runtime diagnostic.
#[derive(Debug, Clone)]
pub struct VesselError {
    pub kind: DrcKind,
    pub phase: Phase,
    pub message: String,
    pub line: Option<usize>,
    pub col: Option<usize>,
}

pub type VesselResult<T> = Result<T, VesselError>;

/// The display name of a DRC kind.
pub open spec fn drc_kind_text(k: DrcKind) -> Seq<char> {
    match k {
        DrcKind::Primary => "DRC.PRIMARY"@,
        DrcKind::Secondary => "DRC.SECONDARY"@,
        DrcKind::Tertiary => "DRC.TERTIARY"@,
    }
}

/// The display name of a phase.
pub open spec fn phase_text(p: Phase) -> Seq<char> {
    match p {
        Phase::Lexer => "Lexer"@,
        Phase::Parser => "Parser"@,
        Phase::GraphBuilder => "GraphBuilder"@,
        Phase::KappaInfer => "KappaInfer"@,
        Phase::CodeGen => "CodeGen"@,
        Phase::Runtime => "Runtime"@,
    }
}

/// The location suffix of a diagnostic: ` at L:C`, ` at line L`, or nothing.
pub open spec fn location_text(line: Option<usize>, col: Option<usize>) -> Seq<char> {
    match (line, col) {
        (Some(l), Some(c)) => " at "@ + decimal_text(l as nat) + ":"@ + decimal_text(c as nat),
        (Some(l), None) => " at line "@ + decimal_text(l as nat),
        _ => Seq::empty(),
    }
}

/// The full rendering of a diagnostic: `[KIND][Phase<loc>] message`.
pub open spec fn error_text(e: VesselError) -> Seq<char> {
    "["@ + drc_kind_text(e.kind) + "]["@ + phase_text(e.phase) + location_text(e.line, e.col)
        + "] "@ + e.message@
}

impl DrcKind {
    /// The display name of this kind.
    pub fn name(&self) -> (s: &'static str)
        ensures
            s@ == drc_kind_text(*self),
    {
        match self {
            DrcKind::Primary => {
                proof { reveal_strlit("DRC.PRIMARY"); }
                "DRC.PRIMARY"
            },
            DrcKind::Secondary => {
                proof { reveal_strlit("DRC.SECONDARY"); }
                "DRC.SECONDARY"
            },
            DrcKind::Tertiary => {
                proof { reveal_strlit("DRC.TERTIARY"); }
                "DRC.TERTIARY"
            },
        }
    }
}

impl Phase {
    /// The display name of this phase.
    pub fn name(&self) -> (s: &'static str)
        ensures
            s@ == phase_text(*self),
    {
        match self {
            Phase::Lexer => "Lexer",
            Phase::Parser => "Parser",
            Phase::GraphBuilder => "GraphBuilder",
            Phase::KappaInfer => "KappaInfer",
            Phase::CodeGen => "CodeGen",
            Phase::Runtime => "Runtime",
        }
    }
}

impl VesselError {
    /// A fatal (secondary) diagnostic with no location.
    pub fn secondary(phase: Phase, msg: String) -> (e: Self)
        ensures
            e.kind == DrcKind::Secondary,
            e.phase == phase,
            e.message@ == msg@,
            e.line is None,
            e.col is None,
    {
        VesselError { kind: DrcKind::Secondary, phase, message: msg, line: None, col: None }
    }

    /// A fatal (secondary) diagnostic at a line and column.
    pub fn secondary_at(phase: Phase, line: usize, col: usize, msg: String) -> (e: Self)
        ensures
            e.kind == DrcKind::Secondary,
            e.phase == phase,
            e.message@ == msg@,
            e.line == Some(line),
            e.col == Some(col),
    {
        VesselError { kind: DrcKind::Secondary, phase, message: msg, line: Some(line), col: Some(col) }
    }

    /// A supervised (tertiary) diagnostic with no location.
    pub fn tertiary(phase: Phase, msg: String) -> (e: Self)
        ensures
            e.kind == DrcKind::Tertiary,
            e.phase == phase,
            e.message@ == msg@,
            e.line is None,
            e.col is None,
    {
        VesselError { kind: DrcKind::Tertiary, phase, message: msg, line: None, col: None }
    }

    /// A recoverable (primary) diagnostic at a line and column.
    pub fn primary_at(phase: Phase, line: usize, col: usize, msg: String) -> (e: Self)
        ensures
            e.kind == DrcKind::Primary,
            e.phase == phase,
            e.message@ == msg@,
            e.line == Some(line),
            e.col == Some(col),
    {
        VesselError { kind: DrcKind::Primary, phase, message: msg, line: Some(line), col: Some(col) }
    }

    /// A diagnostic of any kind with no location.
    pub fn drc(kind: DrcKind, phase: Phase, msg: String) -> (e: Self)
        ensures
            e.kind == kind,
            e.phase == phase,
            e.message@ == msg@,
            e.line is None,
            e.col is None,
    {
        VesselError { kind, phase, message: msg, line: None, col: None }
    }

    /// The rendering of this diagnostic: `[KIND][Phase at L:C] message`.
    pub fn to_text(&self) -> (s: String)
        ensures
            s@ == error_text(*self),
    {
        let mut s = String::from_str("[");
        s.append(self.kind.name());
        s.append("][");
        s.append(self.phase.name());
        match (self.line, self.col) {
            (Some(l), Some(c)) => {
                s.append(" at ");
                push_decimal(&mut s, l);
                s.append(":");
                push_decimal(&mut s, c);
            },
            (Some(l), None) => {
                s.append(" at line ");
                push_decimal(&mut s, l);
            },
            _ => {},
        }
        s.append("] ");
        s.append(self.message.as_str());
        proof {
            reveal_strlit("[");
            reveal_strlit("][");
            reveal_strlit(" at ");
            reveal_strlit(":");
            reveal_strlit(" at line ");
            reveal_strlit("] ");
        }
        assert(s@ =~= error_text(*self));
        s
    }
}

} // verus!
