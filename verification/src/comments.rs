//! A `--` comment adds no token: a source with a comment before one of its
//! newlines lexes exactly as the source without it.

use vstd::prelude::*;
use crate::error::{VesselError, VesselResult};
use crate::lexer::{
    Scan, Token, is_space, lemma_scan_end, lemma_skip_trivia_ge, lex_error_fits,
    lex_spec, lexed, lexes_from, line_col, number_end, peek_at, scan_at, scan_end, scan_fails,
    skip_trivia, token_fits, word_end,
};

verus! {

/// `a` is `b` with `k` characters inserted before the newline at `n`: a `--`
/// comment that holds no newline. The character before that newline is no dash.
pub open spec fn comment_pair(a: Seq<char>, b: Seq<char>, n: nat, k: nat) -> bool {
    &&& n < b.len()
    &&& b[n as int] == '\n'
    &&& k >= 2
    &&& a.len() == b.len() + k
    &&& forall|i: int| #![trigger a[i]] #![trigger b[i]] 0 <= i < n ==> a[i] == b[i]
    &&& a[n as int] == '-'
    &&& a[n + 1int] == '-'
    &&& forall|m: int| n <= m < n + k ==> #[trigger] a[m] != '\n'
    &&& forall|i: int| n <= i < b.len() ==> #[trigger] b[i] == a[i + k as int]
    &&& (n == 0 || b[n - 1] != '-')
}

/// Where position `i` of the source without the comment lies in the source with it.
pub open spec fn moved(n: nat, k: nat, i: nat) -> nat {
    if i <= n { i } else { i + k }
}

/// A lexing outcome with every position moved past the comment.
pub open spec fn moved_result(n: nat, k: nat, r: Result<Seq<nat>, nat>) -> Result<Seq<nat>, nat> {
    match r {
        Ok(s) => Ok(s.map_values(|x: nat| moved(n, k, x))),
        Err(j) => Err(moved(n, k, j)),
    }
}

/// Positions where a token may start: inside the source, on no white space.
pub open spec fn token_starts(b: Seq<char>, s: Seq<nat>) -> bool {
    forall|m: int| 0 <= m < s.len() ==> #[trigger] s[m] < b.len() && !is_space(b[s[m] as int])
}

// ---------------------------------------------------------------- positions

proof fn lemma_line_col_prefix(a: Seq<char>, b: Seq<char>, n: nat, k: nat, i: nat)
    requires
        comment_pair(a, b, n, k),
        i <= n,
    ensures
        line_col(a, i) == line_col(b, i),
    decreases i,
{
    if i > 0 {
        lemma_line_col_prefix(a, b, n, k, (i - 1) as nat);
        assert(a[i - 1] == b[i - 1]);
    }
}

proof fn lemma_line_in_comment(a: Seq<char>, b: Seq<char>, n: nat, k: nat, m: nat)
    requires
        comment_pair(a, b, n, k),
        m <= k,
    ensures
        line_col(a, n + m).0 == line_col(a, n).0,
    decreases m,
{
    if m > 0 {
        lemma_line_in_comment(a, b, n, k, (m - 1) as nat);
        assert(a[n + m - 1] != '\n');
    }
}

proof fn lemma_line_col_after(a: Seq<char>, b: Seq<char>, n: nat, k: nat, i: nat)
    requires
        comment_pair(a, b, n, k),
        n < i <= b.len(),
    ensures
        line_col(a, i + k) == line_col(b, i),
    decreases i,
{
    if i == n + 1 {
        lemma_line_col_prefix(a, b, n, k, n);
        lemma_line_in_comment(a, b, n, k, k);
        assert(b[n as int] == a[n + k as int]);
    } else {
        lemma_line_col_after(a, b, n, k, (i - 1) as nat);
        assert(b[i - 1] == a[i - 1 + k]);
    }
}

/// Line and column of a position are kept across the comment.
proof fn lemma_line_col_moved(a: Seq<char>, b: Seq<char>, n: nat, k: nat, i: nat)
    requires
        comment_pair(a, b, n, k),
        i <= b.len(),
    ensures
        line_col(a, moved(n, k, i)) == line_col(b, i),
{
    if i <= n {
        lemma_line_col_prefix(a, b, n, k, i);
    } else {
        lemma_line_col_after(a, b, n, k, i);
    }
}

/// The character after a position, across the comment.
proof fn lemma_peek_moved(a: Seq<char>, b: Seq<char>, n: nat, k: nat, i: nat)
    requires
        comment_pair(a, b, n, k),
        n <= i,
    ensures
        peek_at(a, i + k as int) == peek_at(b, i as int),
{
    if i < b.len() {
        assert(b[i as int] == a[i + k as int]);
    }
}

// ---------------------------------------------------------------- trivia

/// Where skipping trivia stops, it stands on no white space.
proof fn lemma_skip_stops(src: Seq<char>, i: nat, c: bool)
    ensures
        skip_trivia(src, i, c) < src.len() ==> !is_space(src[skip_trivia(src, i, c) as int]),
    decreases src.len() - i, if c { 1int } else { 0int },
{
    if i < src.len() {
        if c {
            if src[i as int] == '\n' {
                lemma_skip_stops(src, i, false);
            } else {
                lemma_skip_stops(src, i + 1, true);
            }
        } else if is_space(src[i as int]) {
            lemma_skip_stops(src, i + 1, false);
        } else if src[i as int] == '-' && peek_at(src, i + 1int) == '-' {
            lemma_skip_stops(src, i + 1, true);
        }
    }
}

/// Inside the inserted comment, skipping runs on past its newline.
proof fn lemma_comment_run(a: Seq<char>, b: Seq<char>, n: nat, k: nat, m: nat)
    requires
        comment_pair(a, b, n, k),
        n <= m <= n + k,
    ensures
        skip_trivia(a, m, true) == skip_trivia(a, n + k + 1, false),
    decreases n + k - m,
{
    if m == n + k {
        assert(b[n as int] == a[n + k as int]);
        assert(skip_trivia(a, m, true) == skip_trivia(a, m, false));
    } else {
        assert(a[m as int] != '\n');
        lemma_comment_run(a, b, n, k, m + 1);
    }
}

/// Skipping trivia ends at the same place, across the comment.
proof fn lemma_skip_moved(a: Seq<char>, b: Seq<char>, n: nat, k: nat, i: nat, c: bool)
    requires
        comment_pair(a, b, n, k),
        i <= b.len(),
    ensures
        skip_trivia(a, moved(n, k, i), c) == moved(n, k, skip_trivia(b, i, c)),
    decreases b.len() - i, if c { 1int } else { 0int },
{
    if i == b.len() {
    } else if i < n {
        assert(a[i as int] == b[i as int]);
        if i + 1 < n {
            assert(a[i + 1int] == b[i + 1int]);
        }
        if c {
            if b[i as int] == '\n' {
                lemma_skip_moved(a, b, n, k, i, false);
            } else {
                lemma_skip_moved(a, b, n, k, i + 1, true);
            }
        } else if is_space(b[i as int]) {
            lemma_skip_moved(a, b, n, k, i + 1, false);
        } else if b[i as int] == '-' && peek_at(b, i + 1int) == '-' {
            lemma_skip_moved(a, b, n, k, i + 1, true);
        }
    } else if i == n {
        lemma_comment_run(a, b, n, k, n + 1);
        lemma_skip_moved(a, b, n, k, n + 1, false);
        assert(skip_trivia(b, n, false) == skip_trivia(b, n + 1, false));
        assert(skip_trivia(a, n, true) == skip_trivia(a, n + 1, true));
        assert(skip_trivia(a, n, false) == skip_trivia(a, n + 1, true));
        if c {
            assert(skip_trivia(b, n, true) == skip_trivia(b, n, false));
        }
    } else {
        assert(b[i as int] == a[i + k as int]);
        lemma_peek_moved(a, b, n, k, i + 1);
        if c {
            if b[i as int] == '\n' {
                lemma_skip_moved(a, b, n, k, i, false);
            } else {
                lemma_skip_moved(a, b, n, k, i + 1, true);
            }
        } else if is_space(b[i as int]) {
            lemma_skip_moved(a, b, n, k, i + 1, false);
        } else if b[i as int] == '-' && peek_at(b, i + 1int) == '-' {
            lemma_skip_moved(a, b, n, k, i + 1, true);
        }
    }
}

// ---------------------------------------------------------------- tokens

/// A run of number characters ends at the same place, across the comment;
/// one that begins before the comment ends before it.
proof fn lemma_number_end_moved(a: Seq<char>, b: Seq<char>, n: nat, k: nat, x: nat)
    requires
        comment_pair(a, b, n, k),
        x <= b.len(),
    ensures
        number_end(a, moved(n, k, x)) == moved(n, k, number_end(b, x)),
        x <= n ==> number_end(b, x) <= n,
    decreases b.len() - x,
{
    if x < n {
        assert(a[x as int] == b[x as int]);
        lemma_number_end_moved(a, b, n, k, x + 1);
    } else if x == n {
        assert(number_end(b, x) == x);
    } else if x < b.len() {
        assert(b[x as int] == a[x + k as int]);
        lemma_number_end_moved(a, b, n, k, x + 1);
    }
}

/// A run of word characters ends at the same place, across the comment;
/// one that begins before the comment ends before it.
proof fn lemma_word_end_moved(a: Seq<char>, b: Seq<char>, n: nat, k: nat, x: nat)
    requires
        comment_pair(a, b, n, k),
        x <= b.len(),
    ensures
        word_end(a, moved(n, k, x)) == moved(n, k, word_end(b, x)),
        x <= n ==> word_end(b, x) <= n,
    decreases b.len() - x,
{
    if x < n {
        assert(a[x as int] == b[x as int]);
        lemma_word_end_moved(a, b, n, k, x + 1);
    } else if x == n {
        assert(word_end(b, x) == x);
    } else if x < b.len() {
        assert(b[x as int] == a[x + k as int]);
        lemma_word_end_moved(a, b, n, k, x + 1);
    }
}

/// The token that starts at `j` is read alike across the comment: it fails
/// alike, ends at the same place, and gives the same token or error.
proof fn lemma_scan_moved(a: Seq<char>, b: Seq<char>, n: nat, k: nat, j: nat, t: Token, e: VesselError)
    requires
        comment_pair(a, b, n, k),
        j < b.len(),
        !is_space(b[j as int]),
    ensures
        scan_fails(a, moved(n, k, j)) == scan_fails(b, j),
        scan_end(scan_at(a, moved(n, k, j)), moved(n, k, j)) == moved(
            n,
            k,
            scan_end(scan_at(b, j), j),
        ),
        token_fits(t, a, moved(n, k, j)) == token_fits(t, b, j),
        lex_error_fits(e, a, moved(n, k, j)) == lex_error_fits(e, b, j),
{
    lemma_line_col_moved(a, b, n, k, j);
    lemma_scan_end(b, j);
    let j2 = moved(n, k, j);
    if j < n {
        assert(a[j as int] == b[j as int]);
        if j + 1 < n {
            assert(a[j + 1int] == b[j + 1int]);
        } else {
            assert(b[j as int] != '-');
        }
        lemma_number_end_moved(a, b, n, k, j + 1);
        if j + 2 <= b.len() {
            lemma_number_end_moved(a, b, n, k, j + 2);
        }
        lemma_word_end_moved(a, b, n, k, j + 1);
        assert(scan_at(a, j) == scan_at(b, j));
        match scan_at(b, j) {
            Scan::Number(_, st, en) => {
                assert(a.subrange(st as int, en as int) =~= b.subrange(st as int, en as int));
            },
            Scan::Word(en) => {
                assert(a.subrange(j as int, en as int) =~= b.subrange(j as int, en as int));
            },
            _ => {},
        }
    } else {
        assert(j > n);
        assert(b[j as int] == a[j + k as int]);
        lemma_peek_moved(a, b, n, k, j + 1);
        lemma_number_end_moved(a, b, n, k, j + 1);
        if j + 2 <= b.len() {
            lemma_number_end_moved(a, b, n, k, j + 2);
        }
        lemma_word_end_moved(a, b, n, k, j + 1);
        match scan_at(b, j) {
            Scan::Number(_, st, en) => {
                assert(a.subrange(st + k as int, en + k as int) =~= b.subrange(
                    st as int,
                    en as int,
                ));
            },
            Scan::Word(en) => {
                assert(a.subrange(j + k as int, en + k as int) =~= b.subrange(j as int, en as int));
            },
            _ => {},
        }
    }
}

// ---------------------------------------------------------------- the lexer

/// Lexing from a position gives the same token starts, or the same failing
/// token, each moved across the comment; and every start is a token start.
proof fn lemma_lex_moved(a: Seq<char>, b: Seq<char>, n: nat, k: nat, i: nat)
    requires
        comment_pair(a, b, n, k),
        i <= b.len(),
    ensures
        lex_spec(a, moved(n, k, i)) == moved_result(n, k, lex_spec(b, i)),
        lex_spec(b, i) matches Ok(s) ==> token_starts(b, s),
        lex_spec(b, i) matches Err(j) ==> j < b.len() && !is_space(b[j as int]),
    decreases b.len() - i,
{
    let j = skip_trivia(b, i, false);
    lemma_skip_moved(a, b, n, k, i, false);
    lemma_skip_trivia_ge(b, i, false);
    lemma_skip_stops(b, i, false);
    if j >= b.len() {
        assert(Seq::<nat>::empty().map_values(|x: nat| moved(n, k, x)) =~= Seq::<nat>::empty());
    } else {
        let t = arbitrary::<Token>();
        let e = arbitrary::<VesselError>();
        lemma_scan_moved(a, b, n, k, j, t, e);
        if !scan_fails(b, j) {
            lemma_scan_end(b, j);
            let en = scan_end(scan_at(b, j), j);
            lemma_lex_moved(a, b, n, k, en);
            match lex_spec(b, en) {
                Ok(rest) => {
                    let f = |x: nat| moved(n, k, x);
                    assert((seq![j] + rest).map_values(f) =~= seq![moved(n, k, j)] + rest.map_values(f));
                    assert forall|m: int| 0 <= m < (seq![j] + rest).len() implies #[trigger] (seq![j] + rest)[m] < b.len()
                        && !is_space(b[(seq![j] + rest)[m] as int]) by {
                        if m > 0 {
                            assert((seq![j] + rest)[m] == rest[m - 1]);
                        }
                    }
                },
                Err(_) => {},
            }
        }
    }
}

/// Tokens read from the source without the comment are tokens read from the
/// source with it, at the moved starts, and the other way round.
proof fn lemma_lexed_moved(a: Seq<char>, b: Seq<char>, n: nat, k: nat, toks: Seq<Token>, s: Seq<nat>)
    requires
        comment_pair(a, b, n, k),
        token_starts(b, s),
    ensures
        lexed(toks, a, s.map_values(|x: nat| moved(n, k, x))) == lexed(toks, b, s),
{
    let s2 = s.map_values(|x: nat| moved(n, k, x));
    lemma_line_col_moved(a, b, n, k, b.len());
    assert forall|m: int| 0 <= m < s.len() && m < toks.len() implies token_fits(toks[m], a, s2[m])
        == token_fits(toks[m], b, s[m]) by {
        assert(s[m] < b.len() && !is_space(b[s[m] as int]));
        lemma_scan_moved(a, b, n, k, s[m], toks[m], arbitrary::<VesselError>());
    }
    if lexed(toks, b, s) {
        assert forall|m: int| 0 <= m < s2.len() implies #[trigger] token_fits(toks[m], a, s2[m]) by {
            assert(token_fits(toks[m], b, s[m]));
        }
    }
    if lexed(toks, a, s2) {
        assert forall|m: int| 0 <= m < s.len() implies #[trigger] token_fits(toks[m], b, s[m]) by {
            assert(token_fits(toks[m], a, s2[m]));
        }
    }
}

/// A `--` comment adds no token. Inserting `--` and a comment text `c` that
/// holds no newline right before a newline of a source, where the text
/// before it does not end in `-`, changes nothing that tokenizing gives: the
/// same tokens, with the same kinds, lines and columns, or the same error.
pub proof fn law_comment_adds_no_token(
    s1: Seq<char>,
    c: Seq<char>,
    s2: Seq<char>,
    r: VesselResult<Vec<Token>>,
)
    requires
        forall|i: int| 0 <= i < c.len() ==> c[i] != '\n',
        s1.len() == 0 || s1.last() != '-',
    ensures
        lexes_from(s1 + seq!['-', '-'] + c + seq!['\n'] + s2, 0, r) <==> lexes_from(
            s1 + seq!['\n'] + s2,
            0,
            r,
        ),
{
    let a = s1 + seq!['-', '-'] + c + seq!['\n'] + s2;
    let b = s1 + seq!['\n'] + s2;
    let n = s1.len();
    let k = c.len() + 2;
    assert forall|i: int| 0 <= i < n implies a[i] == b[i] by {
        assert(a[i] == s1[i]);
        assert(b[i] == s1[i]);
    }
    assert forall|m: int| n <= m < n + k implies #[trigger] a[m] != '\n' by {
        if m >= n + 2 {
            assert(a[m] == c[m - n - 2]);
        }
    }
    assert forall|i: int| n <= i < b.len() implies #[trigger] b[i] == a[i + k] by {
        if i > n {
            assert(b[i] == s2[i - n - 1]);
            assert(a[i + k] == s2[i - n - 1]);
        }
    }
    if n > 0 {
        assert(b[n - 1] == s1.last());
    }
    assert(comment_pair(a, b, n, k));
    lemma_lex_moved(a, b, n, k, 0);
    match lex_spec(b, 0) {
        Ok(s) => {
            if let Ok(toks) = r {
                lemma_lexed_moved(a, b, n, k, toks@, s);
            }
        },
        Err(j) => {
            if let Err(e) = r {
                lemma_scan_moved(a, b, n, k, j, arbitrary::<Token>(), e);
            }
        },
    }
}

} // verus!
