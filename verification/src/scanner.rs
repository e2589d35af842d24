//! Longest-match tokenizer over a registered pattern table.
//!
//! A `Lexikon` holds the lexical patterns in registration order. At each
//! position the scanner skips ASCII whitespace, asks every pattern how many
//! characters it would match, and takes the longest match; ties go to the
//! pattern registered first, which is how the keyword patterns beat the
//! identifier pattern on inputs of equal length. Positions are flat
//! character offsets of the match's start. Unmatched input and integer
//! literals that do not fit in a `u64` are `LexError` values.

use crate::lexer::alpha_len;
use crate::lexer::digit_len;
use crate::lexer::digit_value;
use crate::lexer::digits_value;
use crate::lexer::is_alpha_char;
use crate::lexer::is_digit_char;
use crate::lexer::is_whitespace_char;
use crate::lexer::lemma_alpha_len_le;
use crate::lexer::lemma_digit_len_le;
use crate::lexer::lemma_digits_value_prefix_le;
use crate::lexer::lemma_digits_value_snoc;
use crate::lexer::lemma_nonline_len_le;
use crate::lexer::nonline_len;
use vstd::prelude::*;

verus! {

#[derive(Debug, PartialEq, Eq)]
pub enum Token {
    Let { position: usize },
    FnKeyword { position: usize },
    While { position: usize },
    Id { value: String, position: usize },
    Integer { value: u64, position: usize },
    Assign { position: usize },
    Semicolon { position: usize },
    Plus { position: usize },
    Times { position: usize },
    LParen { position: usize },
    RParen { position: usize },
    LBrace { position: usize },
    RBrace { position: usize },
    Comment { value: String, position: usize },
}

/// Mathematical image of a `Token`.
pub enum TokenV {
    Let { position: int },
    FnKeyword { position: int },
    While { position: int },
    Id { value: Seq<char>, position: int },
    Integer { value: u64, position: int },
    Assign { position: int },
    Semicolon { position: int },
    Plus { position: int },
    Times { position: int },
    LParen { position: int },
    RParen { position: int },
    LBrace { position: int },
    RBrace { position: int },
    Comment { value: Seq<char>, position: int },
}

impl View for Token {
    type V = TokenV;

    open spec fn view(&self) -> TokenV {
        match self {
            Token::Let { position } => TokenV::Let { position: *position as int },
            Token::FnKeyword { position } => TokenV::FnKeyword { position: *position as int },
            Token::While { position } => TokenV::While { position: *position as int },
            Token::Id { value, position } => TokenV::Id {
                value: value@,
                position: *position as int,
            },
            Token::Integer { value, position } => TokenV::Integer {
                value: *value,
                position: *position as int,
            },
            Token::Assign { position } => TokenV::Assign { position: *position as int },
            Token::Semicolon { position } => TokenV::Semicolon { position: *position as int },
            Token::Plus { position } => TokenV::Plus { position: *position as int },
            Token::Times { position } => TokenV::Times { position: *position as int },
            Token::LParen { position } => TokenV::LParen { position: *position as int },
            Token::RParen { position } => TokenV::RParen { position: *position as int },
            Token::LBrace { position } => TokenV::LBrace { position: *position as int },
            Token::RBrace { position } => TokenV::RBrace { position: *position as int },
            Token::Comment { value, position } => TokenV::Comment {
                value: value@,
                position: *position as int,
            },
        }
    }
}

#[derive(Debug, PartialEq, Eq)]
pub struct LexError(String);

impl View for LexError {
    type V = Seq<char>;

    closed spec fn view(&self) -> Seq<char> {
        self.0@
    }
}

impl LexError {
    /// The error's message.
    pub fn message(&self) -> (r: &str)
        ensures
            r@ == self@,
    {
        self.0.as_str()
    }
}

pub type LexResult<T> = Result<T, LexError>;

/// The token an exact pattern produces when it matches.
#[derive(Debug, Clone, Copy, PartialEq, Eq, Structural)]
pub enum ExactKind {
    Let,
    FnKeyword,
    While,
    Assign,
    Semicolon,
    Plus,
    Times,
    LParen,
    RParen,
    LBrace,
    RBrace,
}

/// A lexical pattern: a fixed spelling, or one of the three
/// variable-length character classes.
#[derive(Debug, PartialEq, Eq)]
pub enum Pattern {
    Exact { text: String, kind: ExactKind },
    Identifier,
    Integer,
    Comment,
}

/// Mathematical image of a `Pattern`.
pub enum PatternV {
    Exact { text: Seq<char>, kind: ExactKind },
    Identifier,
    Integer,
    Comment,
}

impl View for Pattern {
    type V = PatternV;

    open spec fn view(&self) -> PatternV {
        match self {
            Pattern::Exact { text, kind } => PatternV::Exact { text: text@, kind: *kind },
            Pattern::Identifier => PatternV::Identifier,
            Pattern::Integer => PatternV::Integer,
            Pattern::Comment => PatternV::Comment,
        }
    }
}

/// Whether the fixed spelling `text` stands at position `i` of `chars`.
pub open spec fn text_matches_at(chars: Seq<char>, text: Seq<char>, i: int) -> bool {
    0 <= i && i + text.len() <= chars.len() && chars.subrange(i, i + text.len()) == text
}

/// How many characters pattern `p` matches at position `i`; zero characters
/// means no match.
pub open spec fn pattern_match_len(p: PatternV, chars: Seq<char>, i: int) -> nat {
    match p {
        PatternV::Exact { text, .. } => if text_matches_at(chars, text, i) {
            text.len()
        } else {
            0
        },
        PatternV::Identifier => alpha_len(chars, i),
        PatternV::Integer => digit_len(chars, i),
        PatternV::Comment => if 0 <= i && i + 2 <= chars.len() && chars[i] == '/' && chars[i + 1]
            == '/' {
            2 + nonline_len(chars, i + 2)
        } else {
            0
        },
    }
}

/// The longest match any of the patterns reaches at position `i`.
pub open spec fn best_len(ps: Seq<PatternV>, chars: Seq<char>, i: int) -> nat
    decreases ps.len(),
{
    if ps.len() == 0 {
        0
    } else {
        let prev = best_len(ps.drop_last(), chars, i);
        let l = pattern_match_len(ps.last(), chars, i);
        if l > prev {
            l
        } else {
            prev
        }
    }
}

/// The pattern that wins at position `i`: the longest match, ties broken in
/// favour of the pattern registered first; `None` when nothing matches.
pub open spec fn best_pattern(ps: Seq<PatternV>, chars: Seq<char>, i: int) -> Option<PatternV>
    decreases ps.len(),
{
    if ps.len() == 0 {
        None
    } else {
        let l = pattern_match_len(ps.last(), chars, i);
        if l > best_len(ps.drop_last(), chars, i) && l > 0 {
            Some(ps.last())
        } else {
            best_pattern(ps.drop_last(), chars, i)
        }
    }
}

/// The token the winning pattern produces from position `i`, stamped with
/// the match's start position.
pub open spec fn pattern_token(p: PatternV, chars: Seq<char>, i: int) -> TokenV {
    match p {
        PatternV::Exact { kind, .. } => exact_token(kind, i),
        PatternV::Identifier => TokenV::Id {
            value: chars.subrange(i, i + alpha_len(chars, i)),
            position: i,
        },
        PatternV::Integer => TokenV::Integer {
            value: digits_value(chars.subrange(i, i + digit_len(chars, i))) as u64,
            position: i,
        },
        PatternV::Comment => TokenV::Comment {
            value: chars.subrange(i + 2, i + 2 + nonline_len(chars, i + 2)),
            position: i,
        },
    }
}

pub open spec fn exact_token(kind: ExactKind, i: int) -> TokenV {
    match kind {
        ExactKind::Let => TokenV::Let { position: i },
        ExactKind::FnKeyword => TokenV::FnKeyword { position: i },
        ExactKind::While => TokenV::While { position: i },
        ExactKind::Assign => TokenV::Assign { position: i },
        ExactKind::Semicolon => TokenV::Semicolon { position: i },
        ExactKind::Plus => TokenV::Plus { position: i },
        ExactKind::Times => TokenV::Times { position: i },
        ExactKind::LParen => TokenV::LParen { position: i },
        ExactKind::RParen => TokenV::RParen { position: i },
        ExactKind::LBrace => TokenV::LBrace { position: i },
        ExactKind::RBrace => TokenV::RBrace { position: i },
    }
}

/// The patterns `Lexikon::new` registers, in order: keywords, punctuation,
/// comments, and then the variable-length identifier and integer classes.
pub open spec fn standard_patterns() -> Seq<PatternV> {
    seq![
        PatternV::Exact { text: "let"@, kind: ExactKind::Let },
        PatternV::Exact { text: "fn"@, kind: ExactKind::FnKeyword },
        PatternV::Exact { text: "while"@, kind: ExactKind::While },
        PatternV::Exact { text: "="@, kind: ExactKind::Assign },
        PatternV::Exact { text: ";"@, kind: ExactKind::Semicolon },
        PatternV::Exact { text: "+"@, kind: ExactKind::Plus },
        PatternV::Exact { text: "*"@, kind: ExactKind::Times },
        PatternV::Exact { text: "("@, kind: ExactKind::LParen },
        PatternV::Exact { text: ")"@, kind: ExactKind::RParen },
        PatternV::Exact { text: "{"@, kind: ExactKind::LBrace },
        PatternV::Exact { text: "}"@, kind: ExactKind::RBrace },
        PatternV::Comment,
        PatternV::Identifier,
        PatternV::Integer,
    ]
}

pub proof fn lemma_pattern_len_le(p: PatternV, chars: Seq<char>, i: int)
    requires
        0 <= i <= chars.len(),
    ensures
        i + pattern_match_len(p, chars, i) <= chars.len(),
{
    match p {
        PatternV::Exact { .. } => {},
        PatternV::Identifier => lemma_alpha_len_le(chars, i),
        PatternV::Integer => lemma_digit_len_le(chars, i),
        PatternV::Comment => {
            if i + 2 <= chars.len() && chars[i] == '/' && chars[i + 1] == '/' {
                lemma_nonline_len_le(chars, i + 2);
            }
        },
    }
}

pub proof fn lemma_best_len_le(ps: Seq<PatternV>, chars: Seq<char>, i: int)
    requires
        0 <= i <= chars.len(),
    ensures
        i + best_len(ps, chars, i) <= chars.len(),
    decreases ps.len(),
{
    if ps.len() > 0 {
        lemma_best_len_le(ps.drop_last(), chars, i);
        lemma_pattern_len_le(ps.last(), chars, i);
    }
}

/// The winner, where there is one, reached the longest match, and matched
/// at least one character; where there is none, nothing matched.
pub proof fn lemma_best_pattern_facts(ps: Seq<PatternV>, chars: Seq<char>, i: int)
    ensures
        match best_pattern(ps, chars, i) {
            Some(p) => pattern_match_len(p, chars, i) == best_len(ps, chars, i) && best_len(
                ps,
                chars,
                i,
            ) >= 1,
            None => best_len(ps, chars, i) == 0,
        },
    decreases ps.len(),
{
    if ps.len() > 0 {
        lemma_best_pattern_facts(ps.drop_last(), chars, i);
    }
}

/// How the scanner can fail.
pub enum ScanFailure {
    /// An integer literal that does not fit in a `u64`.
    NumericOverflow,
    /// A position where no pattern matches.
    NoMatch,
}

/// The message carried by the `LexError` for each failure.
pub open spec fn scan_message(f: ScanFailure) -> Seq<char> {
    match f {
        ScanFailure::NumericOverflow => "failed to parse numeric"@,
        ScanFailure::NoMatch => "failed to lex input"@,
    }
}

/// What scanning a text yields: its full token sequence, or a failure.
pub enum ScanOut {
    Toks(Seq<TokenV>),
    Fail(ScanFailure),
}

impl ScanOut {
    pub open spec fn fail_kind(self) -> ScanFailure {
        match self {
            ScanOut::Fail(f) => f,
            ScanOut::Toks(_) => ScanFailure::NoMatch,
        }
    }
}

/// Puts one token in front of an outcome's token sequence.
pub open spec fn scan_cons(t: TokenV, rest: ScanOut) -> ScanOut {
    match rest {
        ScanOut::Toks(s) => ScanOut::Toks(seq![t] + s),
        ScanOut::Fail(f) => ScanOut::Fail(f),
    }
}

/// Length of the run of ASCII whitespace starting at `i`.
pub open spec fn ws_len(chars: Seq<char>, i: int) -> nat
    decreases chars.len() - i,
{
    if 0 <= i < chars.len() && is_whitespace_char(chars[i]) {
        1 + ws_len(chars, i + 1)
    } else {
        0
    }
}

pub proof fn lemma_ws_len_le(chars: Seq<char>, i: int)
    requires
        0 <= i <= chars.len(),
    ensures
        i + ws_len(chars, i) <= chars.len(),
    decreases chars.len() - i,
{
    if i < chars.len() && is_whitespace_char(chars[i]) {
        lemma_ws_len_le(chars, i + 1);
    }
}

/// The tokens of `chars` from position `i` on under the pattern table `ps`:
/// skip whitespace, take the longest match, repeat; the model `Lexer::lex`
/// is proved against.
pub open spec fn scan_spec(ps: Seq<PatternV>, chars: Seq<char>, i: int) -> ScanOut
    decreases chars.len() - i,
{
    if i < 0 || i >= chars.len() {
        ScanOut::Toks(Seq::empty())
    } else {
        let j = i + ws_len(chars, i);
        proof {
            lemma_ws_len_le(chars, i);
        }
        if j >= chars.len() {
            ScanOut::Toks(Seq::empty())
        } else {
            let l = best_len(ps, chars, j);
            proof {
                lemma_best_len_le(ps, chars, j);
                lemma_best_pattern_facts(ps, chars, j);
            }
            match best_pattern(ps, chars, j) {
                None => ScanOut::Fail(ScanFailure::NoMatch),
                Some(p) => {
                    if p is Integer && digits_value(chars.subrange(j, j + digit_len(chars, j)))
                        > u64::MAX {
                        ScanOut::Fail(ScanFailure::NumericOverflow)
                    } else {
                        scan_cons(pattern_token(p, chars, j), scan_spec(ps, chars, j + l))
                    }
                },
            }
        }
    }
}

/// Puts already-scanned tokens in front of the outcome for the rest.
pub open spec fn scan_prepend(s: Seq<TokenV>, rest: ScanOut) -> ScanOut {
    match rest {
        ScanOut::Toks(t) => ScanOut::Toks(s + t),
        ScanOut::Fail(f) => ScanOut::Fail(f),
    }
}

proof fn lemma_scan_prepend_cons(s: Seq<TokenV>, t: TokenV, rest: ScanOut)
    ensures
        scan_prepend(s, scan_cons(t, rest)) == scan_prepend(s.push(t), rest),
{
    match rest {
        ScanOut::Toks(ts) => {
            assert(s + (seq![t] + ts) =~= s.push(t) + ts);
        },
        ScanOut::Fail(_) => {},
    }
}

proof fn lemma_scan_map_push(s: Seq<Token>, t: Token)
    ensures
        (s.push(t)).map_values(|x: Token| x@) =~= s.map_values(|x: Token| x@).push(t@),
{
}

/// The registered pattern table: a value assembled once and then only read.
pub struct Lexikon {
    patterns: Vec<Pattern>,
}

impl View for Lexikon {
    type V = Seq<PatternV>;

    closed spec fn view(&self) -> Seq<PatternV> {
        self.patterns@.map_values(|p: Pattern| p@)
    }
}

fn is_whitespace(c: char) -> (r: bool)
    ensures
        r == is_whitespace_char(c),
{
    c == ' ' || c == '\t' || c == '\n' || c == '\r' || c == '\u{c}'
}

fn is_alpha(c: char) -> (r: bool)
    ensures
        r == is_alpha_char(c),
{
    let u = c as u32;
    (97 <= u && u <= 122) || (65 <= u && u <= 90)
}

fn is_digit(c: char) -> (r: bool)
    ensures
        r == is_digit_char(c),
{
    let u = c as u32;
    48 <= u && u <= 57
}

/// Length of the run of letters at `at`.
fn alpha_run(input: &str, at: usize) -> (r: usize)
    requires
        at <= input@.len(),
    ensures
        r == alpha_len(input@, at as int),
        at + r <= input@.len(),
{
    let n = input.unicode_len();
    let mut end = at;
    loop
        invariant
            at <= end <= n,
            n == input@.len(),
            alpha_len(input@, at as int) == end - at + alpha_len(input@, end as int),
        ensures
            at <= end <= n,
            end - at == alpha_len(input@, at as int),
        decreases n - end,
    {
        if end >= n {
            break ;
        }
        if !is_alpha(input.get_char(end)) {
            break ;
        }
        end = end + 1;
    }
    end - at
}

/// Length of the run of digits at `at`.
fn digit_run(input: &str, at: usize) -> (r: usize)
    requires
        at <= input@.len(),
    ensures
        r == digit_len(input@, at as int),
        at + r <= input@.len(),
{
    let n = input.unicode_len();
    let mut end = at;
    loop
        invariant
            at <= end <= n,
            n == input@.len(),
            digit_len(input@, at as int) == end - at + digit_len(input@, end as int),
        ensures
            at <= end <= n,
            end - at == digit_len(input@, at as int),
        decreases n - end,
    {
        if end >= n {
            break ;
        }
        if !is_digit(input.get_char(end)) {
            break ;
        }
        end = end + 1;
    }
    end - at
}

/// Length of the run of characters other than a line break at `at`.
fn nonline_run(input: &str, at: usize) -> (r: usize)
    requires
        at <= input@.len(),
    ensures
        r == nonline_len(input@, at as int),
        at + r <= input@.len(),
{
    let n = input.unicode_len();
    let mut end = at;
    loop
        invariant
            at <= end <= n,
            n == input@.len(),
            nonline_len(input@, at as int) == end - at + nonline_len(input@, end as int),
        ensures
            at <= end <= n,
            end - at == nonline_len(input@, at as int),
        decreases n - end,
    {
        if end >= n {
            break ;
        }
        if input.get_char(end) == '\n' {
            break ;
        }
        end = end + 1;
    }
    end - at
}

/// How many characters the pattern matches at `at`; zero means no match.
fn pattern_len(p: &Pattern, input: &str, at: usize) -> (r: usize)
    requires
        at <= input@.len(),
    ensures
        r == pattern_match_len(p@, input@, at as int),
        at + r <= input@.len(),
{
    let n = input.unicode_len();
    match p {
        Pattern::Exact { text, .. } => {
            let t = text.as_str();
            let t_len = t.unicode_len();
            if t_len > n - at {
                proof {
                    assert(!text_matches_at(input@, text@, at as int));
                }
                return 0;
            }
            let mut k: usize = 0;
            while k < t_len
                invariant
                    0 <= k <= t_len,
                    at + t_len <= n,
                    n == input@.len(),
                    t_len == text@.len(),
                    t@ == text@,
                    p@ matches PatternV::Exact { text: pt, .. } && pt == text@,
                    forall|m: int| 0 <= m < k ==> input@[at + m] == text@[m],
                decreases t_len - k,
            {
                if input.get_char(at + k) != t.get_char(k) {
                    proof {
                        assert(!text_matches_at(input@, text@, at as int)) by {
                            if text_matches_at(input@, text@, at as int) {
                                assert(input@.subrange(
                                    at as int,
                                    at + text@.len(),
                                )[k as int] == text@[k as int]);
                            }
                        }
                    }
                    return 0;
                }
                k = k + 1;
            }
            proof {
                assert(input@.subrange(at as int, at + text@.len()) =~= text@);
            }
            t_len
        },
        Pattern::Identifier => alpha_run(input, at),
        Pattern::Integer => digit_run(input, at),
        Pattern::Comment => {
            if n - at >= 2 {
                if input.get_char(at) == '/' && input.get_char(at + 1) == '/' {
                    let tail = nonline_run(input, at + 2);
                    2 + tail
                } else {
                    0
                }
            } else {
                0
            }
        },
    }
}

/// Reads the digit run `[at, at + len)` as a decimal `u64`; a value over
/// `u64::MAX` is a `LexError`.
fn digits_to_u64(input: &str, at: usize, len: usize) -> (r: Result<u64, LexError>)
    requires
        at + len <= input@.len(),
        len == digit_len(input@, at as int),
    ensures
        ({
            let v = digits_value(input@.subrange(at as int, at + len));
            match r {
                Ok(value) => v <= u64::MAX && value == v,
                Err(e) => v > u64::MAX && e@ == scan_message(ScanFailure::NumericOverflow),
            }
        }),
{
    let n = input.unicode_len();
    let ghost run = input@.subrange(at as int, at + len);
    proof {
        lemma_digit_len_all(input@, at as int);
        assert(forall|k: int| 0 <= k < run.len() ==> is_digit_char(run[k]));
    }
    let mut v: u64 = 0;
    let mut j = at;
    while j < at + len
        invariant
            at <= j <= at + len,
            at + len <= n,
            n == input@.len(),
            len == digit_len(input@, at as int),
            run == input@.subrange(at as int, at + len),
            forall|k: int| 0 <= k < run.len() ==> is_digit_char(run[k]),
            forall|k: int| at <= k < at + len ==> input@[k] == run[k - at],
            v == digits_value(run.subrange(0, j - at)),
        decreases at + len - j,
    {
        let c = input.get_char(j);
        let u = c as u32;
        let d: u64 = (u - 48) as u64;
        proof {
            lemma_digits_value_snoc(run, j - at);
            assert(run[j - at] == input@[j as int]);
            assert(d == digit_value(run[j - at]));
        }
        let v10 = match v.checked_mul(10) {
            Some(x) => x,
            None => {
                proof {
                    assert(v * 10 + digit_value(run[j - at]) > u64::MAX) by (nonlinear_arith)
                        requires
                            v * 10 > u64::MAX,
                            digit_value(run[j - at]) >= 0,
                    ;
                    assert(digits_value(run.subrange(0, j + 1 - at)) > u64::MAX);
                    lemma_digits_value_prefix_le(run, j + 1 - at);
                    assert(run.subrange(0, run.len() as int) =~= run);
                }
                return Err(LexError(String::from_str("failed to parse numeric")));
            },
        };
        let v2 = match v10.checked_add(d) {
            Some(x) => x,
            None => {
                proof {
                    assert(digits_value(run.subrange(0, j + 1 - at)) > u64::MAX);
                    lemma_digits_value_prefix_le(run, j + 1 - at);
                    assert(run.subrange(0, run.len() as int) =~= run);
                }
                return Err(LexError(String::from_str("failed to parse numeric")));
            },
        };
        v = v2;
        j = j + 1;
    }
    proof {
        assert(run.subrange(0, len as int) =~= run);
    }
    Ok(v)
}

/// Every character inside a digit run is a digit.
proof fn lemma_digit_len_all(chars: Seq<char>, i: int)
    ensures
        forall|k: int|
            i <= k < i + digit_len(chars, i) ==> #[trigger] is_digit_char(chars[k]),
    decreases chars.len() - i,
{
    if 0 <= i < chars.len() && is_digit_char(chars[i]) {
        lemma_digit_len_all(chars, i + 1);
    }
}

impl Lexikon {
    /// The standard pattern table, in registration order: keywords first, so
    /// that they win length ties against the identifier pattern.
    pub fn new() -> (r: Lexikon)
        ensures
            r@ == standard_patterns(),
    {
        let mut patterns: Vec<Pattern> = Vec::new();
        patterns.push(Pattern::Exact { text: String::from_str("let"), kind: ExactKind::Let });
        patterns.push(Pattern::Exact { text: String::from_str("fn"), kind: ExactKind::FnKeyword });
        patterns.push(Pattern::Exact { text: String::from_str("while"), kind: ExactKind::While });
        patterns.push(Pattern::Exact { text: String::from_str("="), kind: ExactKind::Assign });
        patterns.push(Pattern::Exact { text: String::from_str(";"), kind: ExactKind::Semicolon });
        patterns.push(Pattern::Exact { text: String::from_str("+"), kind: ExactKind::Plus });
        patterns.push(Pattern::Exact { text: String::from_str("*"), kind: ExactKind::Times });
        patterns.push(Pattern::Exact { text: String::from_str("("), kind: ExactKind::LParen });
        patterns.push(Pattern::Exact { text: String::from_str(")"), kind: ExactKind::RParen });
        patterns.push(Pattern::Exact { text: String::from_str("{"), kind: ExactKind::LBrace });
        patterns.push(Pattern::Exact { text: String::from_str("}"), kind: ExactKind::RBrace });
        patterns.push(Pattern::Comment);
        patterns.push(Pattern::Identifier);
        patterns.push(Pattern::Integer);
        let r = Lexikon { patterns };
        proof {
            assert(r@ =~= standard_patterns());
        }
        r
    }

    /// The longest match any registered pattern reaches at `position` in
    /// `input`, and its token; ties go to the earliest registered pattern.
    /// `(0, None)` where nothing matches; an integer match over `u64::MAX`
    /// is a `LexError`.
    pub fn find_longest_match(&self, input: &str, position: usize) -> (r: Result<
        (usize, Option<Token>),
        LexError,
    >)
        requires
            position <= input@.len(),
        ensures
            ({
                let ps = self@;
                let chars = input@;
                let at = position as int;
                let l = best_len(ps, chars, at);
                let p = best_pattern(ps, chars, at);
                match r {
                    Ok((len, t)) => {
                        &&& len == l
                        &&& at + l <= chars.len()
                        &&& match t {
                            Some(tok) => {
                                &&& p is Some
                                &&& tok@ == pattern_token(p.unwrap(), chars, at)
                                &&& l >= 1
                                &&& !(p.unwrap() is Integer && digits_value(
                                    chars.subrange(at, at + digit_len(chars, at)),
                                ) > u64::MAX)
                            },
                            None => p is None && l == 0,
                        }
                    },
                    Err(e) => {
                        &&& p == Some(PatternV::Integer)
                        &&& digits_value(chars.subrange(at, at + digit_len(chars, at)))
                            > u64::MAX
                        &&& e@ == scan_message(ScanFailure::NumericOverflow)
                    },
                }
            }),
    {
        let n = input.unicode_len();
        let ghost chars = input@;
        let ghost at = position as int;
        let mut best: usize = 0;
        let mut winner: Option<usize> = None;
        let mut k: usize = 0;
        while k < self.patterns.len()
            invariant
                0 <= k <= self.patterns.len(),
                position <= input@.len(),
                n == input@.len(),
                chars == input@,
                at == position as int,
                self@ == self.patterns@.map_values(|p: Pattern| p@),
                best == best_len(self@.take(k as int), chars, at),
                at + best <= chars.len(),
                match winner {
                    None => best_pattern(self@.take(k as int), chars, at) is None,
                    Some(w) => {
                        &&& w < k
                        &&& best_pattern(self@.take(k as int), chars, at) == Some(self@[w as int])
                        &&& pattern_match_len(self@[w as int], chars, at) == best
                        &&& best >= 1
                    },
                },
            decreases self.patterns.len() - k,
        {
            let l = pattern_len(&self.patterns[k], input, position);
            proof {
                assert(self@.take(k + 1).drop_last() =~= self@.take(k as int));
                assert(self@.take(k + 1).last() == self@[k as int]);
            }
            if l > best {
                best = l;
                winner = Some(k);
            }
            k = k + 1;
        }
        proof {
            assert(self@.take(self.patterns@.len() as int) =~= self@);
            lemma_best_pattern_facts(self@, chars, at);
        }
        match winner {
            None => Ok((0, None)),
            Some(w) => {
                proof {
                    assert(self@[w as int] == self.patterns@[w as int]@);
                }
                let token = match &self.patterns[w] {
                    Pattern::Exact { kind, .. } => match kind {
                        ExactKind::Let => Token::Let { position },
                        ExactKind::FnKeyword => Token::FnKeyword { position },
                        ExactKind::While => Token::While { position },
                        ExactKind::Assign => Token::Assign { position },
                        ExactKind::Semicolon => Token::Semicolon { position },
                        ExactKind::Plus => Token::Plus { position },
                        ExactKind::Times => Token::Times { position },
                        ExactKind::LParen => Token::LParen { position },
                        ExactKind::RParen => Token::RParen { position },
                        ExactKind::LBrace => Token::LBrace { position },
                        ExactKind::RBrace => Token::RBrace { position },
                    },
                    Pattern::Identifier => {
                        let word = input.substring_char(position, position + best);
                        Token::Id { value: word.to_owned(), position }
                    },
                    Pattern::Integer => {
                        match digits_to_u64(input, position, best) {
                            Ok(value) => Token::Integer { value, position },
                            Err(e) => {
                                return Err(e);
                            },
                        }
                    },
                    Pattern::Comment => {
                        let text = input.substring_char(position + 2, position + best);
                        Token::Comment { value: text.to_owned(), position }
                    },
                };
                Ok((best, Some(token)))
            },
        }
    }
}

/// The longest-match tokenizer: owns the pattern table, the text, a cursor,
/// and the tokens read so far.
pub struct Lexer<'a> {
    tokens: Vec<Token>,
    lexikon: Lexikon,
    position: usize,
    input: &'a str,
}

impl<'a> Lexer<'a> {
    pub closed spec fn input_view(&self) -> Seq<char> {
        self.input@
    }

    pub closed spec fn position_view(&self) -> int {
        self.position as int
    }

    pub closed spec fn tokens_view(&self) -> Seq<TokenV> {
        self.tokens@.map_values(|t: Token| t@)
    }

    pub closed spec fn lexikon_view(&self) -> Seq<PatternV> {
        self.lexikon@
    }

    /// A fresh scanner over `input`, with the standard pattern table, the
    /// cursor at the start and no tokens read yet.
    pub fn new(input: &'a str) -> (r: Lexer<'a>)
        ensures
            r.input_view() == input@,
            r.position_view() == 0,
            r.tokens_view() == Seq::<TokenV>::empty(),
            r.lexikon_view() == standard_patterns(),
    {
        let r = Lexer { tokens: Vec::new(), lexikon: Lexikon::new(), position: 0, input };
        proof {
            assert(r.tokens_view() =~= Seq::<TokenV>::empty());
        }
        r
    }

    /// Moves the cursor past the whitespace run it sits on.
    fn eat_whitespace(&mut self)
        requires
            old(self).position_view() <= old(self).input_view().len(),
        ensures
            final(self).input_view() == old(self).input_view(),
            final(self).tokens_view() == old(self).tokens_view(),
            final(self).lexikon_view() == old(self).lexikon_view(),
            final(self).position_view() == old(self).position_view() + ws_len(
                old(self).input_view(),
                old(self).position_view(),
            ),
    {
        let n = self.input.unicode_len();
        let ghost start = self.position as int;
        loop
            invariant
                self.position <= n,
                n == self.input@.len(),
                start <= self.position,
                self.input@ == old(self).input_view(),
                self.tokens@ == old(self).tokens@,
                self.lexikon@ == old(self).lexikon@,
                start == old(self).position_view(),
                ws_len(self.input@, start) == self.position - start + ws_len(
                    self.input@,
                    self.position as int,
                ),
            ensures
                self.position - start == ws_len(self.input@, start),
                self.input@ == old(self).input_view(),
                self.tokens@ == old(self).tokens@,
                self.lexikon@ == old(self).lexikon@,
            decreases n - self.position,
        {
            if self.position >= n {
                break ;
            }
            if !is_whitespace(self.input.get_char(self.position)) {
                break ;
            }
            self.position = self.position + 1;
        }
    }

    /// Scans the whole text: skip whitespace, take the longest match, emit
    /// its token, advance by the match's length, repeat. Unmatched input and
    /// oversized integer literals are `LexError` values.
    pub fn lex(self) -> (r: LexResult<Vec<Token>>)
        requires
            self.position_view() <= self.input_view().len(),
        ensures
            ({
                let out = scan_spec(
                    self.lexikon_view(),
                    self.input_view(),
                    self.position_view(),
                );
                match r {
                    Ok(ts) => out is Toks && ts@.map_values(|t: Token| t@) == self.tokens_view() + (match out {
                        ScanOut::Toks(s) => s,
                        ScanOut::Fail(_) => Seq::empty(),
                    }),
                    Err(e) => out is Fail && e@ == scan_message(out.fail_kind()),
                }
            }),
    {
        let ghost chars = self.input_view();
        let ghost ps = self.lexikon_view();
        let ghost pos0 = self.position_view();
        let ghost toks0 = self.tokens_view();
        let mut this = self;
        let n = this.input.unicode_len();
        loop
            invariant
                this.position <= n,
                n == this.input@.len(),
                chars == this.input@,
                ps == this.lexikon@,
                chars == self.input_view(),
                ps == self.lexikon_view(),
                pos0 == self.position_view(),
                toks0 == self.tokens_view(),
                scan_prepend(toks0, scan_spec(ps, chars, pos0)) == scan_prepend(
                    this.tokens@.map_values(|t: Token| t@),
                    scan_spec(ps, chars, this.position as int),
                ),
            ensures
                n == this.input@.len(),
                chars == this.input@,
                scan_spec(ps, chars, this.position as int) == ScanOut::Toks(Seq::empty()),
                scan_prepend(toks0, scan_spec(ps, chars, pos0)) == scan_prepend(
                    this.tokens@.map_values(|t: Token| t@),
                    scan_spec(ps, chars, this.position as int),
                ),
            decreases n - this.position,
        {
            let ghost p_before = this.position as int;
            if this.position >= n {
                break ;
            }
            this.eat_whitespace();
            let ghost p_ws = this.position as int;
            proof {
                lemma_ws_len_le(chars, p_before);
            }
            if this.position >= n {
                proof {
                    assert(scan_spec(ps, chars, p_before) == ScanOut::Toks(Seq::empty()));
                }
                break ;
            }
            let (len, res) = match this.lexikon.find_longest_match(this.input, this.position) {
                Ok(pair) => pair,
                Err(e) => {
                    proof {
                        assert(scan_spec(ps, chars, p_before) == ScanOut::Fail(
                            ScanFailure::NumericOverflow,
                        ));
                        assert(scan_prepend(toks0, scan_spec(ps, chars, pos0)) == ScanOut::Fail(
                            ScanFailure::NumericOverflow,
                        ));
                    }
                    return Err(e);
                },
            };
            match res {
                Some(t) => {
                    proof {
                        lemma_best_pattern_facts(ps, chars, p_ws);
                        assert(scan_spec(ps, chars, p_before) == scan_cons(
                            t@,
                            scan_spec(ps, chars, p_ws + len),
                        ));
                        lemma_scan_prepend_cons(
                            this.tokens@.map_values(|x: Token| x@),
                            t@,
                            scan_spec(ps, chars, p_ws + len),
                        );
                        lemma_scan_map_push(this.tokens@, t);
                    }
                    this.tokens.push(t);
                },
                None => {
                    proof {
                        assert(scan_spec(ps, chars, p_before) == ScanOut::Fail(
                            ScanFailure::NoMatch,
                        ));
                        assert(scan_prepend(toks0, scan_spec(ps, chars, pos0)) == ScanOut::Fail(
                            ScanFailure::NoMatch,
                        ));
                    }
                    return Err(LexError(String::from_str("failed to lex input")));
                },
            }
            this.position = this.position + len;
        }
        proof {
            let out = scan_spec(ps, chars, pos0);
            assert(scan_prepend(toks0, out) == ScanOut::Toks(
                this.tokens@.map_values(|t: Token| t@) + Seq::<TokenV>::empty(),
            ));
            assert(this.tokens@.map_values(|t: Token| t@) + Seq::<TokenV>::empty()
                =~= this.tokens@.map_values(|t: Token| t@));
        }
        Ok(this.tokens)
    }
}

} // verus!
