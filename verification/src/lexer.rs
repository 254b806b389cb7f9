//! The Vessel lexer: one linear pass from source characters to tokens.

use vstd::prelude::*;
use crate::decimal::{Decimal, all_digits, shown_text};
use crate::error::{DrcKind, Phase, VesselError, VesselResult};
use crate::text::push_char;
use vstd::std_specs::iter::IteratorSpec;

verus! {

/// Longest source (in characters) that the lexer accepts: far beyond what
/// memory can hold, so that every count below fits in a machine word.
pub const SOURCE_LIMIT: usize = usize::MAX / 16;

/// The kind of a token, with the literal it carries.
#[derive(Debug, Clone, PartialEq)]
pub enum TokenKind {
    // Literals
    Float(Decimal),
    Ident(String),
    // Keywords
    Vessel,
    Boundary,
    Couple,
    To,
    Resign,
    Rebalance,
    Sentient,
    Law,
    Let,
    Fn,
    Return,
    If,
    Else,
    Forall,
    True,
    False,
    And,
    Or,
    Not,
    // Symbols
    LParen,
    RParen,
    LBrace,
    RBrace,
    Colon,
    Comma,
    Equals,
    Arrow,
    Dot,
    Lt,
    Gt,
    LtEq,
    GtEq,
    Plus,
    Minus,
    Star,
    Slash,
    // Meta
    Eof,
}

/// A token and where it starts (line and column, both counted from 1).
#[derive(Debug, Clone)]
pub struct Token {
    pub kind: TokenKind,
    pub line: usize,
    pub col: usize,
}

/// The lexer's state: the source characters and the current position.
pub struct Lexer {
    source: Vec<char>,
    pos: usize,
    line: usize,
    col: usize,
}

// ---------------------------------------------------------------- character classes

/// Whether a character has the Unicode `Alphabetic` property (`char::is_alphabetic`).
pub uninterp spec fn char_alphabetic(c: char) -> bool;

/// Whether a character is in a Unicode numeric category (`char::is_numeric`).
pub uninterp spec fn char_numeric(c: char) -> bool;

/// The `Debug` rendering of a character (`format!("{:?}", c)`).
pub uninterp spec fn char_debug_text(c: char) -> Seq<char>;

/// `char::is_alphabetic`: its result is the Unicode `Alphabetic` property of
/// the character; which characters have it is left to the name, but for
/// ASCII it is exactly the letters.
#[verifier::external_body]
fn is_alphabetic(c: char) -> (r: bool)
    ensures
        r == char_alphabetic(c),
        c <= '\x7f' ==> (r <==> ('a' <= c <= 'z' || 'A' <= c <= 'Z')),
{
    c.is_alphabetic()
}

/// `char::is_alphanumeric`: documented as `is_alphabetic() || is_numeric()`.
/// For ASCII it holds exactly of the letters and the digits.
#[verifier::external_body]
fn is_alphanumeric(c: char) -> (r: bool)
    ensures
        r == (char_alphabetic(c) || char_numeric(c)),
        c <= '\x7f' ==> (r <==> ('a' <= c <= 'z' || 'A' <= c <= 'Z' || '0' <= c <= '9')),
{
    c.is_alphanumeric()
}

/// `format!("{:?}", c)` for a character: the character in single quotes,
/// escaped as `char::escape_debug` does; for a printable ASCII character
/// other than a quote or a backslash that is the character itself.
#[verifier::external_body]
fn debug_char(c: char) -> (s: String)
    ensures
        s@ == char_debug_text(c),
        ('!' <= c <= '~' && c != '\'' && c != '\\') ==> s@ == seq!['\'', c, '\''],
{
    format!("{c:?}")
}

/// The `Debug` rendering of a string (`format!("{:?}", s)`).
pub uninterp spec fn str_debug_text(s: Seq<char>) -> Seq<char>;

/// `format!("{:?}", s)` for a string: the string in double quotes, with
/// escapes; a string of ASCII letters, digits and `_` needs none.
#[verifier::external_body]
fn debug_str(s: &String) -> (r: String)
    ensures
        r@ == str_debug_text(s@),
        (forall|i: int| 0 <= i < s@.len() ==> #[trigger] is_plain_ident_char(s@[i])) ==> r@ == seq!['"'] + s@
            + seq!['"'],
{
    format!("{s:?}")
}

/// An ASCII letter, digit or `_`.
pub open spec fn is_plain_ident_char(c: char) -> bool {
    ('a' <= c <= 'z') || ('A' <= c <= 'Z') || ('0' <= c <= '9') || c == '_'
}

/// The characters of a text, in order.
fn chars_of(s: &str) -> (v: Vec<char>)
    ensures
        v@ == s@,
{
    broadcast use vstd::string::axiom_spec_iter;
    let mut v: Vec<char> = Vec::new();
    let mut it = s.chars();
    loop
        invariant
            v@ + it.remaining() == s@,
            it.decrease() is Some,
        ensures
            v@ == s@,
        decreases it.decrease()->0,
    {
        match it.next() {
            Some(c) => {
                v.push(c);
                assert(v@ + it.remaining() =~= s@);
            },
            None => {
                assert(v@ =~= s@);
                break;
            },
        }
    }
    v
}

// ---------------------------------------------------------------- the lexical grammar

/// The character at `i`, or `'\0'` past either end.
pub open spec fn peek_at(src: Seq<char>, i: int) -> char {
    if 0 <= i < src.len() { src[i] } else { '\0' }
}

pub open spec fn is_space(c: char) -> bool {
    c == ' ' || c == '\t' || c == '\r' || c == '\n'
}

pub open spec fn is_digit(c: char) -> bool {
    '0' <= c <= '9'
}

pub open spec fn is_number_char(c: char) -> bool {
    is_digit(c) || c == '.'
}

/// A character that begins a word: an ASCII letter or `_`, or beyond ASCII
/// an alphabetic character.
pub open spec fn is_word_start(c: char) -> bool {
    if c <= '\x7f' {
        ('a' <= c <= 'z') || ('A' <= c <= 'Z') || c == '_'
    } else {
        char_alphabetic(c)
    }
}

/// A character that continues a word: an ASCII letter, digit or `_`, or
/// beyond ASCII an alphabetic or numeric character.
pub open spec fn is_word_char(c: char) -> bool {
    if c <= '\x7f' {
        is_plain_ident_char(c)
    } else {
        char_alphabetic(c) || char_numeric(c)
    }
}

/// Where the next token may start: past whitespace and `--` comments (a
/// comment runs up to, not over, the next newline).
pub open spec fn skip_trivia(src: Seq<char>, i: nat, in_comment: bool) -> nat
    decreases src.len() - i, if in_comment { 1int } else { 0int },
{
    if i >= src.len() {
        i
    } else if in_comment {
        if src[i as int] == '\n' {
            skip_trivia(src, i, false)
        } else {
            skip_trivia(src, i + 1, true)
        }
    } else if is_space(src[i as int]) {
        skip_trivia(src, i + 1, false)
    } else if src[i as int] == '-' && peek_at(src, i + 1int) == '-' {
        skip_trivia(src, i + 1, true)
    } else {
        i
    }
}

/// Line and column of position `i` (both from 1).
pub open spec fn line_col(src: Seq<char>, i: nat) -> (nat, nat)
    decreases i,
{
    if i == 0 {
        (1, 1)
    } else {
        let lc = line_col(src, (i - 1) as nat);
        if src[i - 1] == '\n' { (lc.0 + 1, 1) } else { (lc.0, lc.1 + 1) }
    }
}

/// End of the run of digits and dots from `i`.
pub open spec fn number_end(src: Seq<char>, i: nat) -> nat
    decreases src.len() - i,
{
    if i < src.len() && is_number_char(src[i as int]) { number_end(src, i + 1) } else { i }
}

/// End of the run of word characters from `i`.
pub open spec fn word_end(src: Seq<char>, i: nat) -> nat
    decreases src.len() - i,
{
    if i < src.len() && is_word_char(src[i as int]) { word_end(src, i + 1) } else { i }
}

/// Number of dots in a number's text.
pub open spec fn dot_count(t: Seq<char>) -> nat
    decreases t.len(),
{
    if t.len() == 0 {
        0
    } else {
        dot_count(t.drop_last()) + if t.last() == '.' { 1nat } else { 0nat }
    }
}

/// Number of digits after the dot of a number's text (zero without a dot).
pub open spec fn fraction_len(t: Seq<char>) -> nat
    decreases t.len(),
{
    if t.len() == 0 || dot_count(t) == 0 || t.last() == '.' {
        0
    } else {
        fraction_len(t.drop_last()) + 1
    }
}

/// The value of a digit character.
pub open spec fn digit_value(c: char) -> u8 {
    (c as u32 - '0' as u32) as u8
}

/// The digits of a number's text, with its dot left out.
pub open spec fn number_digits(t: Seq<char>) -> Seq<u8>
    decreases t.len(),
{
    if t.len() == 0 {
        Seq::empty()
    } else if t.last() == '.' {
        number_digits(t.drop_last())
    } else {
        number_digits(t.drop_last()).push(digit_value(t.last()))
    }
}

/// The token kind of a keyword, if the word is one.
pub open spec fn keyword(w: Seq<char>) -> Option<TokenKind> {
    if w == "vessel"@ { Some(TokenKind::Vessel) }
    else if w == "boundary"@ { Some(TokenKind::Boundary) }
    else if w == "couple"@ { Some(TokenKind::Couple) }
    else if w == "to"@ { Some(TokenKind::To) }
    else if w == "resign"@ { Some(TokenKind::Resign) }
    else if w == "rebalance"@ { Some(TokenKind::Rebalance) }
    else if w == "sentient"@ { Some(TokenKind::Sentient) }
    else if w == "law"@ { Some(TokenKind::Law) }
    else if w == "let"@ { Some(TokenKind::Let) }
    else if w == "fn"@ { Some(TokenKind::Fn) }
    else if w == "return"@ { Some(TokenKind::Return) }
    else if w == "if"@ { Some(TokenKind::If) }
    else if w == "else"@ { Some(TokenKind::Else) }
    else if w == "forall"@ { Some(TokenKind::Forall) }
    else if w == "true"@ { Some(TokenKind::True) }
    else if w == "false"@ { Some(TokenKind::False) }
    else if w == "and"@ { Some(TokenKind::And) }
    else if w == "or"@ { Some(TokenKind::Or) }
    else if w == "not"@ { Some(TokenKind::Not) }
    else { None }
}

/// The token that a word becomes: its keyword, or an identifier.
pub open spec fn word_token(k: TokenKind, w: Seq<char>) -> bool {
    match keyword(w) {
        Some(kw) => k == kw,
        None => k matches TokenKind::Ident(s) && s@ == w,
    }
}

/// The token that a number's text becomes.
pub open spec fn number_token(k: TokenKind, t: Seq<char>, negative: bool) -> bool {
    k matches TokenKind::Float(d) && d.negative == negative && d.digits@ == number_digits(t)
        && d.scale == fraction_len(t)
}

/// What the character at a token start begins.
pub enum Scan {
    /// A symbol, with its end.
    Fixed(TokenKind, nat),
    /// A number literal: its sign, and where its digits start and end.
    Number(bool, nat, nat),
    /// A word, with its end.
    Word(nat),
    /// A character that begins no token.
    Unexpected,
}

/// How the token starting at `j` is recognised.
pub open spec fn scan_at(src: Seq<char>, j: nat) -> Scan {
    let c = peek_at(src, j as int);
    let n = peek_at(src, j + 1int);
    if c == '(' { Scan::Fixed(TokenKind::LParen, j + 1) }
    else if c == ')' { Scan::Fixed(TokenKind::RParen, j + 1) }
    else if c == '{' { Scan::Fixed(TokenKind::LBrace, j + 1) }
    else if c == '}' { Scan::Fixed(TokenKind::RBrace, j + 1) }
    else if c == ':' { Scan::Fixed(TokenKind::Colon, j + 1) }
    else if c == ',' { Scan::Fixed(TokenKind::Comma, j + 1) }
    else if c == '.' { Scan::Fixed(TokenKind::Dot, j + 1) }
    else if c == '+' { Scan::Fixed(TokenKind::Plus, j + 1) }
    else if c == '*' { Scan::Fixed(TokenKind::Star, j + 1) }
    else if c == '/' { Scan::Fixed(TokenKind::Slash, j + 1) }
    else if c == '=' { Scan::Fixed(TokenKind::Equals, j + 1) }
    else if c == '-' && n == '>' { Scan::Fixed(TokenKind::Arrow, j + 2) }
    else if c == '-' && is_digit(n) { Scan::Number(true, j + 1, number_end(src, j + 2)) }
    else if c == '<' && n == '=' { Scan::Fixed(TokenKind::LtEq, j + 2) }
    else if c == '>' && n == '=' { Scan::Fixed(TokenKind::GtEq, j + 2) }
    else if c == '<' { Scan::Fixed(TokenKind::Lt, j + 1) }
    else if c == '>' { Scan::Fixed(TokenKind::Gt, j + 1) }
    else if is_digit(c) { Scan::Number(false, j, number_end(src, j + 1)) }
    else if is_word_start(c) { Scan::Word(word_end(src, j + 1)) }
    else { Scan::Unexpected }
}

/// Where the recognised token ends.
pub open spec fn scan_end(s: Scan, j: nat) -> nat {
    match s {
        Scan::Fixed(_, e) => e,
        Scan::Number(_, _, e) => e,
        Scan::Word(e) => e,
        Scan::Unexpected => j + 1,
    }
}

/// Whether the token at `j` is a lexical error.
pub open spec fn scan_fails(src: Seq<char>, j: nat) -> bool {
    match scan_at(src, j) {
        Scan::Unexpected => true,
        Scan::Number(_, st, e) => dot_count(src.subrange(st as int, e as int)) > 1,
        _ => false,
    }
}

pub proof fn lemma_skip_trivia_ge(src: Seq<char>, i: nat, c: bool)
    ensures
        skip_trivia(src, i, c) >= i,
        i <= src.len() ==> skip_trivia(src, i, c) <= src.len(),
    decreases src.len() - i, if c { 1int } else { 0int },
{
    if i < src.len() {
        if c {
            if src[i as int] == '\n' {
                lemma_skip_trivia_ge(src, i, false);
            } else {
                lemma_skip_trivia_ge(src, i + 1, true);
            }
        } else if is_space(src[i as int]) {
            lemma_skip_trivia_ge(src, i + 1, false);
        } else if src[i as int] == '-' && peek_at(src, i + 1int) == '-' {
            lemma_skip_trivia_ge(src, i + 1, true);
        }
    }
}

pub proof fn lemma_number_end_ge(src: Seq<char>, i: nat)
    ensures
        number_end(src, i) >= i,
        i <= src.len() ==> number_end(src, i) <= src.len(),
    decreases src.len() - i,
{
    if i < src.len() && is_number_char(src[i as int]) {
        lemma_number_end_ge(src, i + 1);
    }
}

pub proof fn lemma_word_end_ge(src: Seq<char>, i: nat)
    ensures
        word_end(src, i) >= i,
        i <= src.len() ==> word_end(src, i) <= src.len(),
    decreases src.len() - i,
{
    if i < src.len() && is_word_char(src[i as int]) {
        lemma_word_end_ge(src, i + 1);
    }
}

/// A token start lies before the token's end, which lies within the source.
pub proof fn lemma_scan_end(src: Seq<char>, j: nat)
    requires
        j < src.len(),
    ensures
        j < scan_end(scan_at(src, j), j) <= src.len(),
        scan_at(src, j) matches Scan::Number(_, st, e) ==> j <= st < e,
{
    lemma_number_end_ge(src, j + 1);
    lemma_number_end_ge(src, j + 2);
    lemma_word_end_ge(src, j + 1);
}

/// The token starts from position `i` onwards, or the start of the first
/// token that fails.
pub open spec fn lex_spec(src: Seq<char>, i: nat) -> Result<Seq<nat>, nat>
    decreases src.len() - i,
{
    let j = skip_trivia(src, i, false);
    if i > src.len() || j >= src.len() {
        Ok(Seq::empty())
    } else if scan_fails(src, j) {
        Err(j)
    } else {
        proof {
            lemma_skip_trivia_ge(src, i, false);
            lemma_scan_end(src, j);
        }
        match lex_spec(src, scan_end(scan_at(src, j), j)) {
            Ok(rest) => Ok(seq![j] + rest),
            Err(k) => Err(k),
        }
    }
}

/// The token `t` is the one that starts at `j`.
pub open spec fn token_fits(t: Token, src: Seq<char>, j: nat) -> bool {
    &&& (t.line as nat, t.col as nat) == line_col(src, j)
    &&& match scan_at(src, j) {
        Scan::Fixed(k, _) => t.kind == k,
        Scan::Number(neg, st, e) => number_token(t.kind, src.subrange(st as int, e as int), neg),
        Scan::Word(e) => word_token(t.kind, src.subrange(j as int, e as int)),
        Scan::Unexpected => false,
    }
}

/// The error that the failing token at `j` raises.
pub open spec fn lex_error_fits(e: VesselError, src: Seq<char>, j: nat) -> bool {
    &&& e.kind == DrcKind::Secondary
    &&& e.phase == Phase::Lexer
    &&& e.line matches Some(l) && l == line_col(src, j).0
    &&& e.col matches Some(c) && c == line_col(src, j).1
    &&& match scan_at(src, j) {
        Scan::Number(_, st, en) => e.message@ == "Invalid float literal: "@ + src.subrange(
            st as int,
            en as int,
        ),
        _ => e.message@ == "Unexpected character: "@ + char_debug_text(src[j as int]),
    }
}

/// A line and column never exceed the position plus one.
pub proof fn lemma_line_col_bound(src: Seq<char>, i: nat)
    ensures
        line_col(src, i).0 <= i + 1,
        line_col(src, i).1 <= i + 1,
        line_col(src, i).0 >= 1,
        line_col(src, i).1 >= 1,
    decreases i,
{
    if i > 0 {
        lemma_line_col_bound(src, (i - 1) as nat);
    }
}

impl Lexer {
    /// The state is consistent: position within the source and line and
    /// column those of the position.
    pub closed spec fn wf(&self) -> bool {
        &&& self.source.len() <= SOURCE_LIMIT
        &&& self.pos <= self.source.len()
        &&& (self.line as nat, self.col as nat) == line_col(self.source@, self.pos as nat)
    }

    /// The source characters.
    pub closed spec fn text(&self) -> Seq<char> {
        self.source@
    }

    /// The current position.
    pub closed spec fn position(&self) -> nat {
        self.pos as nat
    }

    /// A lexer at the start of `source`.
    pub fn new(source: &str) -> (l: Self)
        requires
            source@.len() <= SOURCE_LIMIT,
        ensures
            l.wf(),
            l.text() == source@,
            l.position() == 0,
    {
        Self { source: chars_of(source), pos: 0, line: 1, col: 1 }
    }

    /// The character `offset` places ahead of the current one (`\0` past the end).
    pub fn peek(&self, offset: usize) -> (c: char)
        requires
            self.wf(),
        ensures
            c == peek_at(self.text(), self.position() + offset as int),
    {
        if offset < self.source.len() - self.pos {
            self.source[self.pos + offset]
        } else {
            '\0'
        }
    }

    /// Moves past the current character, keeping line and column, and returns it.
    pub fn advance(&mut self) -> (ch: char)
        requires
            old(self).wf(),
            old(self).position() < old(self).text().len(),
        ensures
            final(self).wf(),
            final(self).text() == old(self).text(),
            final(self).position() == old(self).position() + 1,
            ch == old(self).text()[old(self).position() as int],
    {
        proof {
            lemma_line_col_bound(self.source@, self.pos as nat);
        }
        let ch = self.source[self.pos];
        self.pos += 1;
        if ch == '\n' {
            self.line += 1;
            self.col = 1;
        } else {
            self.col += 1;
        }
        ch
    }

    /// Moves past white space and `--` comments.
    pub fn skip_whitespace_and_comments(&mut self)
        requires
            old(self).wf(),
        ensures
            final(self).wf(),
            final(self).text() == old(self).text(),
            final(self).position() == skip_trivia(old(self).text(), old(self).position(), false),
    {
        let ghost src = self.source@;
        let ghost target = skip_trivia(src, self.pos as nat, false);
        loop
            invariant
                self.wf(),
                self.source@ == src,
                skip_trivia(src, self.pos as nat, false) == target,
            ensures
                self.wf(),
                self.source@ == src,
                self.pos == target,
            decreases self.source.len() - self.pos,
        {
            if self.pos >= self.source.len() {
                break;
            }
            let c = self.peek(0);
            if c == ' ' || c == '\t' || c == '\r' || c == '\n' {
                self.advance();
            } else if c == '-' && self.peek(1) == '-' {
                // the comment runs from this dash up to the next newline
                let ghost p0 = self.pos;
                self.advance();
                while self.pos < self.source.len() && self.peek(0) != '\n'
                    invariant
                        self.wf(),
                        self.pos > p0,
                        self.source@ == src,
                        skip_trivia(src, self.pos as nat, true) == target,
                    decreases self.source.len() - self.pos,
                {
                    self.advance();
                }
            } else {
                break;
            }
        }
    }
}


/// A number's digits are no more than its characters.
pub proof fn lemma_number_digits_len(t: Seq<char>)
    ensures
        number_digits(t).len() <= t.len(),
    decreases t.len(),
{
    if t.len() > 0 {
        lemma_number_digits_len(t.drop_last());
    }
}

/// A number token carries a well-formed decimal no longer than a source can be.
pub open spec fn literal_ok(k: TokenKind) -> bool {
    k matches TokenKind::Float(d) ==> d.wf() && d.digits.len() <= SOURCE_LIMIT
}

/// The tokens `toks` are those that start at `starts`, closed by `Eof` at the end.
pub open spec fn lexed(toks: Seq<Token>, src: Seq<char>, starts: Seq<nat>) -> bool {
    &&& toks.len() == starts.len() + 1
    &&& forall|k: int| 0 <= k < starts.len() ==> #[trigger] token_fits(toks[k], src, starts[k])
    &&& toks.last().kind == TokenKind::Eof
    &&& (toks.last().line as nat, toks.last().col as nat) == line_col(src, src.len())
    &&& forall|k: int| 0 <= k < toks.len() ==> #[trigger] literal_ok(toks[k].kind)
}

/// `r` is what tokenizing `src` from position `i` gives: the tokens that
/// start there, closed by `Eof`, or the error of the first token that fails.
pub open spec fn lexes_from(src: Seq<char>, i: nat, r: VesselResult<Vec<Token>>) -> bool {
    match lex_spec(src, i) {
        Ok(starts) => r matches Ok(toks) && lexed(toks@, src, starts),
        Err(j) => r matches Err(e) && lex_error_fits(e, src, j),
    }
}

/// The outcome of lexing after `done` tokens were already found.
pub open spec fn after(done: Seq<nat>, rest: Result<Seq<nat>, nat>) -> Result<Seq<nat>, nat> {
    match rest {
        Ok(r) => Ok(done + r),
        Err(j) => Err(j),
    }
}

fn is_ascii_digit(c: char) -> (r: bool)
    ensures
        r == is_digit(c),
{
    c >= '0' && c <= '9'
}

/// Whether a string holds exactly the characters of a literal.
pub(crate) fn text_is(s: &String, lit: &str) -> (r: bool)
    ensures
        r == (s@ == lit@),
{
    let t = String::from_str(lit);
    s.eq(&t)
}

impl Lexer {
    fn read_number(&mut self, sl: usize, sc: usize) -> (r: VesselResult<Token>)
        requires
            old(self).wf(),
            old(self).pos < old(self).source.len(),
            is_digit(old(self).source@[old(self).pos as int]),
        ensures
            final(self).wf(),
            final(self).source@ == old(self).source@,
            final(self).pos == number_end(old(self).source@, (old(self).pos + 1) as nat),
            ({
                let t = old(self).source@.subrange(old(self).pos as int, final(self).pos as int);
                if dot_count(t) <= 1 {
                    r matches Ok(tok) && tok.line == sl && tok.col == sc && number_token(
                        tok.kind,
                        t,
                        false,
                    ) && literal_ok(tok.kind)
                } else {
                    r matches Err(e) && e.kind == DrcKind::Secondary && e.phase == Phase::Lexer
                        && e.line == Some(sl) && e.col == Some(sc) && e.message@
                        == "Invalid float literal: "@ + t
                }
            }),
    {
        let ghost src = self.source@;
        let start = self.pos;
        let mut text = String::new();
        let mut digits: Vec<u8> = Vec::new();
        let mut dots: usize = 0;
        let mut frac: usize = 0;
        assert(src.subrange(start as int, start as int) =~= Seq::<char>::empty());
        while self.pos < self.source.len() && (is_ascii_digit(self.peek(0)) || self.peek(0) == '.')
            invariant
                self.wf(),
                self.source@ == src,
                start <= self.pos,
                number_end(src, self.pos as nat) == number_end(src, start as nat),
                text@ == src.subrange(start as int, self.pos as int),
                digits@ == number_digits(src.subrange(start as int, self.pos as int)),
                dots == dot_count(src.subrange(start as int, self.pos as int)),
                frac == fraction_len(src.subrange(start as int, self.pos as int)),
                dots <= self.pos - start,
                frac <= digits.len(),
                digits.len() <= self.pos - start,
                all_digits(digits@),
            decreases self.source.len() - self.pos,
        {
            let ghost t0 = src.subrange(start as int, self.pos as int);
            let c = self.advance();
            push_char(&mut text, c);
            let ghost t1 = src.subrange(start as int, self.pos as int);
            assert(t1 =~= t0.push(c));
            assert(t1.drop_last() =~= t0);
            if c == '.' {
                dots = dots + 1;
                frac = 0;
            } else {
                let d = (c as u32 - '0' as u32) as u8;
                digits.push(d);
                if dots > 0 {
                    frac = frac + 1;
                }
                assert(digits@ =~= number_digits(t0).push(digit_value(c)));
            }
        }
        let ghost t = src.subrange(start as int, self.pos as int);
        if dots > 1 {
            let mut msg = String::from_str("Invalid float literal: ");
            msg.append(text.as_str());
            Err(VesselError::secondary_at(Phase::Lexer, sl, sc, msg))
        } else {
            let d = Decimal { negative: false, digits, scale: frac };
            Ok(Token { kind: TokenKind::Float(d), line: sl, col: sc })
        }
    }

    fn read_word(&mut self, sl: usize, sc: usize) -> (tok: Token)
        requires
            old(self).wf(),
            old(self).pos < old(self).source.len(),
            is_word_start(old(self).source@[old(self).pos as int]),
        ensures
            final(self).wf(),
            final(self).source@ == old(self).source@,
            final(self).pos == word_end(old(self).source@, (old(self).pos + 1) as nat),
            tok.line == sl,
            tok.col == sc,
            word_token(
                tok.kind,
                old(self).source@.subrange(old(self).pos as int, final(self).pos as int),
            ),
    {
        let ghost src = self.source@;
        let start = self.pos;
        let mut s = String::new();
        assert(src.subrange(start as int, start as int) =~= Seq::<char>::empty());
        while self.pos < self.source.len() && (is_alphanumeric(self.peek(0)) || self.peek(0) == '_')
            invariant
                self.wf(),
                self.source@ == src,
                start <= self.pos,
                word_end(src, self.pos as nat) == word_end(src, start as nat),
                s@ == src.subrange(start as int, self.pos as int),
            decreases self.source.len() - self.pos,
        {
            let ghost t0 = src.subrange(start as int, self.pos as int);
            let c = self.advance();
            push_char(&mut s, c);
            assert(src.subrange(start as int, self.pos as int) =~= t0.push(c));
        }
        let kind = if text_is(&s, "vessel") { TokenKind::Vessel }
            else if text_is(&s, "boundary") { TokenKind::Boundary }
            else if text_is(&s, "couple") { TokenKind::Couple }
            else if text_is(&s, "to") { TokenKind::To }
            else if text_is(&s, "resign") { TokenKind::Resign }
            else if text_is(&s, "rebalance") { TokenKind::Rebalance }
            else if text_is(&s, "sentient") { TokenKind::Sentient }
            else if text_is(&s, "law") { TokenKind::Law }
            else if text_is(&s, "let") { TokenKind::Let }
            else if text_is(&s, "fn") { TokenKind::Fn }
            else if text_is(&s, "return") { TokenKind::Return }
            else if text_is(&s, "if") { TokenKind::If }
            else if text_is(&s, "else") { TokenKind::Else }
            else if text_is(&s, "forall") { TokenKind::Forall }
            else if text_is(&s, "true") { TokenKind::True }
            else if text_is(&s, "false") { TokenKind::False }
            else if text_is(&s, "and") { TokenKind::And }
            else if text_is(&s, "or") { TokenKind::Or }
            else if text_is(&s, "not") { TokenKind::Not }
            else { TokenKind::Ident(s) };
        Token { kind, line: sl, col: sc }
    }
}


impl Lexer {
    fn fixed(&mut self, kind: TokenKind, width: usize, sl: usize, sc: usize) -> (tok: Token)
        requires
            old(self).wf(),
            1 <= width <= 2,
            old(self).pos + width <= old(self).source.len(),
        ensures
            final(self).wf(),
            final(self).source@ == old(self).source@,
            final(self).pos == old(self).pos + width,
            tok.kind == kind,
            tok.line == sl,
            tok.col == sc,
    {
        self.advance();
        if width == 2 {
            self.advance();
        }
        Token { kind, line: sl, col: sc }
    }

    /// Reads the token that starts at the current position.
    fn next_token(&mut self) -> (r: VesselResult<Token>)
        requires
            old(self).wf(),
            old(self).pos < old(self).source.len(),
        ensures
            final(self).wf(),
            final(self).source@ == old(self).source@,
            ({
                let src = old(self).source@;
                let j = old(self).pos as nat;
                if scan_fails(src, j) {
                    r matches Err(e) && lex_error_fits(e, src, j)
                } else {
                    &&& r matches Ok(t) && token_fits(t, src, j) && literal_ok(t.kind)
                    &&& final(self).pos == scan_end(scan_at(src, j), j)
                }
            }),
    {
        let ghost src = self.source@;
        let ghost j = self.pos as nat;
        let sl = self.line;
        let sc = self.col;
        let ch = self.peek(0);
        let n = self.peek(1);
        proof {
            lemma_scan_end(src, j);
        }
        if ch == '(' { Ok(self.fixed(TokenKind::LParen, 1, sl, sc)) }
        else if ch == ')' { Ok(self.fixed(TokenKind::RParen, 1, sl, sc)) }
        else if ch == '{' { Ok(self.fixed(TokenKind::LBrace, 1, sl, sc)) }
        else if ch == '}' { Ok(self.fixed(TokenKind::RBrace, 1, sl, sc)) }
        else if ch == ':' { Ok(self.fixed(TokenKind::Colon, 1, sl, sc)) }
        else if ch == ',' { Ok(self.fixed(TokenKind::Comma, 1, sl, sc)) }
        else if ch == '.' { Ok(self.fixed(TokenKind::Dot, 1, sl, sc)) }
        else if ch == '+' { Ok(self.fixed(TokenKind::Plus, 1, sl, sc)) }
        else if ch == '*' { Ok(self.fixed(TokenKind::Star, 1, sl, sc)) }
        else if ch == '/' { Ok(self.fixed(TokenKind::Slash, 1, sl, sc)) }
        else if ch == '=' { Ok(self.fixed(TokenKind::Equals, 1, sl, sc)) }
        else if ch == '-' && n == '>' { Ok(self.fixed(TokenKind::Arrow, 2, sl, sc)) }
        else if ch == '-' && is_ascii_digit(n) {
            // the sign belongs to the number
            self.advance();
            match self.read_number(sl, sc) {
                Ok(tok) => {
                    let kind = match tok.kind {
                        TokenKind::Float(d) => TokenKind::Float(
                            Decimal { negative: !d.negative, digits: d.digits, scale: d.scale },
                        ),
                        other => other,
                    };
                    Ok(Token { kind, line: tok.line, col: tok.col })
                },
                Err(e) => Err(e),
            }
        }
        else if ch == '<' && n == '=' { Ok(self.fixed(TokenKind::LtEq, 2, sl, sc)) }
        else if ch == '>' && n == '=' { Ok(self.fixed(TokenKind::GtEq, 2, sl, sc)) }
        else if ch == '<' { Ok(self.fixed(TokenKind::Lt, 1, sl, sc)) }
        else if ch == '>' { Ok(self.fixed(TokenKind::Gt, 1, sl, sc)) }
        else if is_ascii_digit(ch) { self.read_number(sl, sc) }
        else if is_alphabetic(ch) || ch == '_' { Ok(self.read_word(sl, sc)) }
        else {
            let mut msg = String::from_str("Unexpected character: ");
            let shown = debug_char(ch);
            msg.append(shown.as_str());
            Err(VesselError::secondary_at(Phase::Lexer, sl, sc, msg))
        }
    }

    /// Splits the rest of the source into tokens, closed by `Eof`.
    pub fn tokenize(&mut self) -> (r: VesselResult<Vec<Token>>)
        requires
            old(self).wf(),
        ensures
            final(self).wf(),
            final(self).text() == old(self).text(),
            lexes_from(old(self).text(), old(self).position(), r),
    {
        let ghost src = self.source@;
        let ghost p0 = self.pos as nat;
        let mut tokens: Vec<Token> = Vec::new();
        let ghost mut starts: Seq<nat> = Seq::empty();
        assert(after(starts, lex_spec(src, p0)) =~= lex_spec(src, p0)) by {
            if let Ok(r) = lex_spec(src, p0) {
                assert(starts + r =~= r);
            }
        }
        loop
            invariant
                self.wf(),
                self.source@ == src,
                src == old(self).source@,
                p0 == old(self).pos,
                tokens@.len() == starts.len(),
                forall|k: int| 0 <= k < starts.len() ==> #[trigger] token_fits(tokens@[k], src, starts[k]),
                forall|k: int| 0 <= k < tokens@.len() ==> #[trigger] literal_ok(tokens@[k].kind),
                lex_spec(src, p0) == after(starts, lex_spec(src, self.pos as nat)),
            ensures
                self.wf(),
                self.source@ == src,
                self.pos == src.len(),
                tokens@.len() == starts.len(),
                forall|k: int| 0 <= k < starts.len() ==> #[trigger] token_fits(tokens@[k], src, starts[k]),
                forall|k: int| 0 <= k < tokens@.len() ==> #[trigger] literal_ok(tokens@[k].kind),
                lex_spec(src, p0) == Ok::<Seq<nat>, nat>(starts),
            decreases self.source.len() - self.pos,
        {
            let ghost before = self.pos as nat;
            self.skip_whitespace_and_comments();
            proof {
                lemma_skip_trivia_ge(src, before, false);
            }
            if self.pos >= self.source.len() {
                proof {
                    assert(lex_spec(src, before) == Ok::<Seq<nat>, nat>(Seq::empty()));
                    assert(starts + Seq::<nat>::empty() =~= starts);
                }
                break;
            }
            let ghost j = self.pos as nat;
            proof {
                lemma_scan_end(src, j);
            }
            match self.next_token() {
                Ok(tok) => {
                    proof {
                        let e = scan_end(scan_at(src, j), j);
                        match lex_spec(src, e) {
                            Ok(rest) => {
                                assert(lex_spec(src, before) == Ok::<Seq<nat>, nat>(seq![j] + rest));
                                assert(starts + (seq![j] + rest) =~= starts.push(j) + rest);
                            },
                            Err(k) => {
                                assert(lex_spec(src, before) == Err::<Seq<nat>, nat>(k));
                            },
                        }
                    }
                    tokens.push(tok);
                    proof {
                        starts = starts.push(j);
                    }
                },
                Err(e) => {
                    proof {
                        assert(lex_spec(src, before) == Err::<Seq<nat>, nat>(j));
                    }
                    return Err(e);
                },
            }
        }
        let ghost before_eof = tokens@;
        tokens.push(Token { kind: TokenKind::Eof, line: self.line, col: self.col });
        assert forall|k: int| 0 <= k < starts.len() implies #[trigger] token_fits(tokens@[k], src, starts[k]) by {
            assert(tokens@[k] == before_eof[k]);
        }
        assert forall|k: int| 0 <= k < tokens@.len() implies #[trigger] literal_ok(tokens@[k].kind) by {
            if k < before_eof.len() {
                assert(tokens@[k] == before_eof[k]);
            }
        }
        Ok(tokens)
    }
}


/// Which variant a token kind is, by number (literals compare by variant alone).
pub open spec fn variant_index(k: TokenKind) -> nat {
    match k {
        TokenKind::Float(_) => 0,
        TokenKind::Ident(_) => 1,
        TokenKind::Vessel => 2,
        TokenKind::Boundary => 3,
        TokenKind::Couple => 4,
        TokenKind::To => 5,
        TokenKind::Resign => 6,
        TokenKind::Rebalance => 7,
        TokenKind::Sentient => 8,
        TokenKind::Law => 9,
        TokenKind::Let => 10,
        TokenKind::Fn => 11,
        TokenKind::Return => 12,
        TokenKind::If => 13,
        TokenKind::Else => 14,
        TokenKind::Forall => 15,
        TokenKind::True => 16,
        TokenKind::False => 17,
        TokenKind::And => 18,
        TokenKind::Or => 19,
        TokenKind::Not => 20,
        TokenKind::LParen => 21,
        TokenKind::RParen => 22,
        TokenKind::LBrace => 23,
        TokenKind::RBrace => 24,
        TokenKind::Colon => 25,
        TokenKind::Comma => 26,
        TokenKind::Equals => 27,
        TokenKind::Arrow => 28,
        TokenKind::Dot => 29,
        TokenKind::Lt => 30,
        TokenKind::Gt => 31,
        TokenKind::LtEq => 32,
        TokenKind::GtEq => 33,
        TokenKind::Plus => 34,
        TokenKind::Minus => 35,
        TokenKind::Star => 36,
        TokenKind::Slash => 37,
        TokenKind::Eof => 38,
    }
}

/// How a token kind is shown in diagnostics: its variant, with the literal
/// that it carries.
pub open spec fn kind_text(k: TokenKind) -> Seq<char> {
    match k {
        TokenKind::Float(d) => "Float("@ + shown_text(d) + ")"@,
        TokenKind::Ident(s) => "Ident("@ + str_debug_text(s@) + ")"@,
        TokenKind::Vessel => "Vessel"@,
        TokenKind::Boundary => "Boundary"@,
        TokenKind::Couple => "Couple"@,
        TokenKind::To => "To"@,
        TokenKind::Resign => "Resign"@,
        TokenKind::Rebalance => "Rebalance"@,
        TokenKind::Sentient => "Sentient"@,
        TokenKind::Law => "Law"@,
        TokenKind::Let => "Let"@,
        TokenKind::Fn => "Fn"@,
        TokenKind::Return => "Return"@,
        TokenKind::If => "If"@,
        TokenKind::Else => "Else"@,
        TokenKind::Forall => "Forall"@,
        TokenKind::True => "True"@,
        TokenKind::False => "False"@,
        TokenKind::And => "And"@,
        TokenKind::Or => "Or"@,
        TokenKind::Not => "Not"@,
        TokenKind::LParen => "LParen"@,
        TokenKind::RParen => "RParen"@,
        TokenKind::LBrace => "LBrace"@,
        TokenKind::RBrace => "RBrace"@,
        TokenKind::Colon => "Colon"@,
        TokenKind::Comma => "Comma"@,
        TokenKind::Equals => "Equals"@,
        TokenKind::Arrow => "Arrow"@,
        TokenKind::Dot => "Dot"@,
        TokenKind::Lt => "Lt"@,
        TokenKind::Gt => "Gt"@,
        TokenKind::LtEq => "LtEq"@,
        TokenKind::GtEq => "GtEq"@,
        TokenKind::Plus => "Plus"@,
        TokenKind::Minus => "Minus"@,
        TokenKind::Star => "Star"@,
        TokenKind::Slash => "Slash"@,
        TokenKind::Eof => "Eof"@,
    }
}

impl TokenKind {
    /// The number of this kind's variant.
    pub fn variant(&self) -> (r: u8)
        ensures
            r == variant_index(*self),
    {
        match self {
            TokenKind::Float(_) => 0,
            TokenKind::Ident(_) => 1,
            TokenKind::Vessel => 2,
            TokenKind::Boundary => 3,
            TokenKind::Couple => 4,
            TokenKind::To => 5,
            TokenKind::Resign => 6,
            TokenKind::Rebalance => 7,
            TokenKind::Sentient => 8,
            TokenKind::Law => 9,
            TokenKind::Let => 10,
            TokenKind::Fn => 11,
            TokenKind::Return => 12,
            TokenKind::If => 13,
            TokenKind::Else => 14,
            TokenKind::Forall => 15,
            TokenKind::True => 16,
            TokenKind::False => 17,
            TokenKind::And => 18,
            TokenKind::Or => 19,
            TokenKind::Not => 20,
            TokenKind::LParen => 21,
            TokenKind::RParen => 22,
            TokenKind::LBrace => 23,
            TokenKind::RBrace => 24,
            TokenKind::Colon => 25,
            TokenKind::Comma => 26,
            TokenKind::Equals => 27,
            TokenKind::Arrow => 28,
            TokenKind::Dot => 29,
            TokenKind::Lt => 30,
            TokenKind::Gt => 31,
            TokenKind::LtEq => 32,
            TokenKind::GtEq => 33,
            TokenKind::Plus => 34,
            TokenKind::Minus => 35,
            TokenKind::Star => 36,
            TokenKind::Slash => 37,
            TokenKind::Eof => 38,
        }
    }

    /// How this kind is shown in diagnostics.
    pub fn describe(&self) -> (r: String)
        requires
            self matches TokenKind::Float(d) ==> d.wf(),
        ensures
            r@ == kind_text(*self),
    {
        let mut s = String::new();
        match self {
            TokenKind::Float(d) => {
                s.append("Float(");
                let t = d.shown();
                s.append(t.as_str());
                s.append(")");
            },
            TokenKind::Ident(name) => {
                s.append("Ident(");
                let t = debug_str(name);
                s.append(t.as_str());
                s.append(")");
            },
            TokenKind::Vessel => { s.append("Vessel"); },
            TokenKind::Boundary => { s.append("Boundary"); },
            TokenKind::Couple => { s.append("Couple"); },
            TokenKind::To => { s.append("To"); },
            TokenKind::Resign => { s.append("Resign"); },
            TokenKind::Rebalance => { s.append("Rebalance"); },
            TokenKind::Sentient => { s.append("Sentient"); },
            TokenKind::Law => { s.append("Law"); },
            TokenKind::Let => { s.append("Let"); },
            TokenKind::Fn => { s.append("Fn"); },
            TokenKind::Return => { s.append("Return"); },
            TokenKind::If => { s.append("If"); },
            TokenKind::Else => { s.append("Else"); },
            TokenKind::Forall => { s.append("Forall"); },
            TokenKind::True => { s.append("True"); },
            TokenKind::False => { s.append("False"); },
            TokenKind::And => { s.append("And"); },
            TokenKind::Or => { s.append("Or"); },
            TokenKind::Not => { s.append("Not"); },
            TokenKind::LParen => { s.append("LParen"); },
            TokenKind::RParen => { s.append("RParen"); },
            TokenKind::LBrace => { s.append("LBrace"); },
            TokenKind::RBrace => { s.append("RBrace"); },
            TokenKind::Colon => { s.append("Colon"); },
            TokenKind::Comma => { s.append("Comma"); },
            TokenKind::Equals => { s.append("Equals"); },
            TokenKind::Arrow => { s.append("Arrow"); },
            TokenKind::Dot => { s.append("Dot"); },
            TokenKind::Lt => { s.append("Lt"); },
            TokenKind::Gt => { s.append("Gt"); },
            TokenKind::LtEq => { s.append("LtEq"); },
            TokenKind::GtEq => { s.append("GtEq"); },
            TokenKind::Plus => { s.append("Plus"); },
            TokenKind::Minus => { s.append("Minus"); },
            TokenKind::Star => { s.append("Star"); },
            TokenKind::Slash => { s.append("Slash"); },
            TokenKind::Eof => { s.append("Eof"); },
        }
        proof {
            reveal_strlit("Float(");
            reveal_strlit(")");
            reveal_strlit("Ident(");
        }
        assert(s@ =~= kind_text(*self));
        s
    }
}

} // verus!
