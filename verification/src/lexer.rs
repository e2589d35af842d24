//! Character-class tokenizer with line/column positions.
//!
//! `lex` walks the source text once. At every position it inspects the next
//! character, dispatches to the helper for that character class, and records
//! the token's start position as a 1-based line/column pair. Comments keep
//! their text (with the leading `//` excluded); unrecognised characters and
//! integer literals that overflow are reported as `LexError` values.
//! `lex_spec` is the mathematical model the executable functions are proved
//! against.

use vstd::prelude::*;

verus! {

/// A 1-based line/column pair, fixed when a token is created and used only
/// for diagnostics.
pub type Position = (usize, usize);

/// A line/column pair as unbounded integers, used by the specifications.
pub type PositionV = (int, int);

#[derive(Debug, PartialEq, Eq)]
pub enum Token {
    Eq { position: Position },
    Let { position: Position },
    While { position: Position },
    Id { value: String, position: Position },
    Num { value: u64, position: Position },
    Semicolon { position: Position },
    Comment { value: String, position: Position },
    Plus { position: Position },
    Times { position: Position },
    LParen { position: Position },
    RParen { position: Position },
    LBrace { position: Position },
    RBrace { position: Position },
}

/// Mathematical image of a `Token`: the payload of an identifier, number or
/// comment as a sequence of characters, positions as unbounded integers.
pub enum TokenV {
    Eq { position: PositionV },
    Let { position: PositionV },
    While { position: PositionV },
    Id { value: Seq<char>, position: PositionV },
    Num { value: u64, position: PositionV },
    Semicolon { position: PositionV },
    Comment { value: Seq<char>, position: PositionV },
    Plus { position: PositionV },
    Times { position: PositionV },
    LParen { position: PositionV },
    RParen { position: PositionV },
    LBrace { position: PositionV },
    RBrace { position: PositionV },
}

impl View for Token {
    type V = TokenV;

    open spec fn view(&self) -> TokenV {
        match self {
            Token::Eq { position } => TokenV::Eq {
                position: (position.0 as int, position.1 as int),
            },
            Token::Let { position } => TokenV::Let {
                position: (position.0 as int, position.1 as int),
            },
            Token::While { position } => TokenV::While {
                position: (position.0 as int, position.1 as int),
            },
            Token::Id { value, position } => TokenV::Id {
                value: value@,
                position: (position.0 as int, position.1 as int),
            },
            Token::Num { value, position } => TokenV::Num {
                value: *value,
                position: (position.0 as int, position.1 as int),
            },
            Token::Semicolon { position } => TokenV::Semicolon {
                position: (position.0 as int, position.1 as int),
            },
            Token::Comment { value, position } => TokenV::Comment {
                value: value@,
                position: (position.0 as int, position.1 as int),
            },
            Token::Plus { position } => TokenV::Plus {
                position: (position.0 as int, position.1 as int),
            },
            Token::Times { position } => TokenV::Times {
                position: (position.0 as int, position.1 as int),
            },
            Token::LParen { position } => TokenV::LParen {
                position: (position.0 as int, position.1 as int),
            },
            Token::RParen { position } => TokenV::RParen {
                position: (position.0 as int, position.1 as int),
            },
            Token::LBrace { position } => TokenV::LBrace {
                position: (position.0 as int, position.1 as int),
            },
            Token::RBrace { position } => TokenV::RBrace {
                position: (position.0 as int, position.1 as int),
            },
        }
    }
}

impl Token {
    pub open spec fn spec_position(&self) -> Position {
        match self {
            Token::Eq { position } => *position,
            Token::Let { position } => *position,
            Token::While { position } => *position,
            Token::Id { position, .. } => *position,
            Token::Num { position, .. } => *position,
            Token::Semicolon { position } => *position,
            Token::Comment { position, .. } => *position,
            Token::Plus { position } => *position,
            Token::Times { position } => *position,
            Token::LParen { position } => *position,
            Token::RParen { position } => *position,
            Token::LBrace { position } => *position,
            Token::RBrace { position } => *position,
        }
    }

    /// The position recorded when the token was made.
    pub fn position(&self) -> (r: Position)
        ensures
            r == self.spec_position(),
    {
        match self {
            Token::Eq { position } => *position,
            Token::Let { position } => *position,
            Token::While { position } => *position,
            Token::Id { position, .. } => *position,
            Token::Num { position, .. } => *position,
            Token::Semicolon { position } => *position,
            Token::Comment { position, .. } => *position,
            Token::Plus { position } => *position,
            Token::Times { position } => *position,
            Token::LParen { position } => *position,
            Token::RParen { position } => *position,
            Token::LBrace { position } => *position,
            Token::RBrace { position } => *position,
        }
    }

    /// An exact copy; written by hand so that verified callers know the
    /// copy equals the original.
    pub fn dup(&self) -> (r: Token)
        ensures
            r == *self,
    {
        match self {
            Token::Eq { position } => Token::Eq { position: *position },
            Token::Let { position } => Token::Let { position: *position },
            Token::While { position } => Token::While { position: *position },
            Token::Id { value, position } => Token::Id {
                value: value.clone(),
                position: *position,
            },
            Token::Num { value, position } => Token::Num {
                value: *value,
                position: *position,
            },
            Token::Semicolon { position } => Token::Semicolon { position: *position },
            Token::Comment { value, position } => Token::Comment {
                value: value.clone(),
                position: *position,
            },
            Token::Plus { position } => Token::Plus { position: *position },
            Token::Times { position } => Token::Times { position: *position },
            Token::LParen { position } => Token::LParen { position: *position },
            Token::RParen { position } => Token::RParen { position: *position },
            Token::LBrace { position } => Token::LBrace { position: *position },
            Token::RBrace { position } => Token::RBrace { position: *position },
        }
    }
}

#[derive(Debug, PartialEq, Eq)]
pub struct LexError(String);

impl View for LexError {
    type V = Seq<char>;

    closed spec fn view(&self) -> Seq<char> {
        self.0@
    }
}

impl LexError {
    /// The error's message.
    pub fn message(&self) -> (r: &str)
        ensures
            r@ == self@,
    {
        self.0.as_str()
    }
}

/// The character classes the tokenizer distinguishes.
pub open spec fn is_whitespace_char(c: char) -> bool {
    c == ' ' || c == '\t' || c == '\n' || c == '\r' || c == '\u{c}'
}

pub open spec fn is_alpha_char(c: char) -> bool {
    ('a' as u32 <= c as u32 && c as u32 <= 'z' as u32) || ('A' as u32 <= c as u32 && c as u32
        <= 'Z' as u32)
}

pub open spec fn is_digit_char(c: char) -> bool {
    '0' as u32 <= c as u32 && c as u32 <= '9' as u32
}

pub open spec fn digit_value(c: char) -> int {
    c as u32 - '0' as u32
}

/// Length of the run of ASCII letters starting at `i`.
pub open spec fn alpha_len(chars: Seq<char>, i: int) -> nat
    decreases chars.len() - i,
{
    if 0 <= i < chars.len() && is_alpha_char(chars[i]) {
        1 + alpha_len(chars, i + 1)
    } else {
        0
    }
}

/// Length of the run of ASCII digits starting at `i`.
pub open spec fn digit_len(chars: Seq<char>, i: int) -> nat
    decreases chars.len() - i,
{
    if 0 <= i < chars.len() && is_digit_char(chars[i]) {
        1 + digit_len(chars, i + 1)
    } else {
        0
    }
}

/// Length of the run of characters other than a line break starting at `i`.
pub open spec fn nonline_len(chars: Seq<char>, i: int) -> nat
    decreases chars.len() - i,
{
    if 0 <= i < chars.len() && chars[i] != '\n' {
        1 + nonline_len(chars, i + 1)
    } else {
        0
    }
}

pub proof fn lemma_alpha_len_le(chars: Seq<char>, i: int)
    requires
        0 <= i <= chars.len(),
    ensures
        i + alpha_len(chars, i) <= chars.len(),
    decreases chars.len() - i,
{
    if i < chars.len() && is_alpha_char(chars[i]) {
        lemma_alpha_len_le(chars, i + 1);
    }
}

pub proof fn lemma_digit_len_le(chars: Seq<char>, i: int)
    requires
        0 <= i <= chars.len(),
    ensures
        i + digit_len(chars, i) <= chars.len(),
    decreases chars.len() - i,
{
    if i < chars.len() && is_digit_char(chars[i]) {
        lemma_digit_len_le(chars, i + 1);
    }
}

pub proof fn lemma_nonline_len_le(chars: Seq<char>, i: int)
    requires
        0 <= i <= chars.len(),
    ensures
        i + nonline_len(chars, i) <= chars.len(),
    decreases chars.len() - i,
{
    if i < chars.len() && chars[i] != '\n' {
        lemma_nonline_len_le(chars, i + 1);
    }
}

/// The number a run of digit characters denotes in decimal notation.
pub open spec fn digits_value(s: Seq<char>) -> int
    decreases s.len(),
{
    if s.len() == 0 {
        0
    } else {
        digits_value(s.drop_last()) * 10 + digit_value(s.last())
    }
}

/// The token produced from the run of letters starting at `i`: a keyword
/// where the run spells one, otherwise an identifier.
pub open spec fn alpha_token(chars: Seq<char>, i: int, line: int, col: int) -> TokenV {
    let w = chars.subrange(i, i + alpha_len(chars, i));
    if w == "let"@ {
        TokenV::Let { position: (line, col) }
    } else if w == "while"@ {
        TokenV::While { position: (line, col) }
    } else {
        TokenV::Id { value: w, position: (line, col) }
    }
}

/// How the tokenizer can fail.
pub enum LexFailure {
    /// A `/` that is not followed by a second `/`.
    MissingSecondSlash,
    /// An integer literal that is empty or does not fit in a `u64`.
    NumericOverflow,
    /// A character no lexical rule covers.
    UnrecognizedCharacter,
}

/// The message carried by the `LexError` for each failure.
pub open spec fn lex_message(f: LexFailure) -> Seq<char> {
    match f {
        LexFailure::MissingSecondSlash => "Comment without second slash!"@,
        LexFailure::NumericOverflow => "failed to parse numeric"@,
        LexFailure::UnrecognizedCharacter => "unrecognized character"@,
    }
}

/// What tokenizing a text yields: its full token sequence, or a failure.
pub enum LexOut {
    Toks(Seq<TokenV>),
    Fail(LexFailure),
}

impl LexOut {
    pub open spec fn fail_kind(self) -> LexFailure {
        match self {
            LexOut::Fail(f) => f,
            LexOut::Toks(_) => LexFailure::UnrecognizedCharacter,
        }
    }
}

/// Puts one token in front of an outcome's token sequence; a failure
/// swallows everything lexed before it.
pub open spec fn lex_cons(t: TokenV, rest: LexOut) -> LexOut {
    match rest {
        LexOut::Toks(s) => LexOut::Toks(seq![t] + s),
        LexOut::Fail(f) => LexOut::Fail(f),
    }
}

/// The tokens of `chars` from position `i` on, with the current line and
/// column; the model `lex` is proved against.
pub open spec fn lex_spec(chars: Seq<char>, i: int, line: int, col: int) -> LexOut
    decreases chars.len() - i,
{
    if i < 0 || i >= chars.len() {
        LexOut::Toks(Seq::empty())
    } else {
        let c = chars[i];
        if c == '=' {
            lex_cons(TokenV::Eq { position: (line, col) }, lex_spec(chars, i + 1, line, col + 1))
        } else if c == ';' {
            lex_cons(
                TokenV::Semicolon { position: (line, col) },
                lex_spec(chars, i + 1, line, col + 1),
            )
        } else if c == '+' {
            lex_cons(TokenV::Plus { position: (line, col) }, lex_spec(chars, i + 1, line, col + 1))
        } else if c == '*' {
            lex_cons(TokenV::Times { position: (line, col) }, lex_spec(chars, i + 1, line, col + 1))
        } else if c == '(' {
            lex_cons(
                TokenV::LParen { position: (line, col) },
                lex_spec(chars, i + 1, line, col + 1),
            )
        } else if c == ')' {
            lex_cons(
                TokenV::RParen { position: (line, col) },
                lex_spec(chars, i + 1, line, col + 1),
            )
        } else if c == '{' {
            lex_cons(
                TokenV::LBrace { position: (line, col) },
                lex_spec(chars, i + 1, line, col + 1),
            )
        } else if c == '}' {
            lex_cons(
                TokenV::RBrace { position: (line, col) },
                lex_spec(chars, i + 1, line, col + 1),
            )
        } else if c == '/' {
            if i + 1 < chars.len() && chars[i + 1] == '/' {
                let n = nonline_len(chars, i + 2);
                proof {
                    lemma_nonline_len_le(chars, i + 2);
                }
                lex_cons(
                    TokenV::Comment {
                        value: chars.subrange(i + 2, i + 2 + n),
                        position: (line, col),
                    },
                    lex_spec(chars, i + 2 + n, line, col + 2 + n),
                )
            } else {
                LexOut::Fail(LexFailure::MissingSecondSlash)
            }
        } else if is_whitespace_char(c) {
            if c == '\n' {
                lex_spec(chars, i + 1, line + 1, 1)
            } else {
                lex_spec(chars, i + 1, line, col + 1)
            }
        } else if is_alpha_char(c) {
            let n = alpha_len(chars, i);
            proof {
                lemma_alpha_len_le(chars, i);
            }
            lex_cons(alpha_token(chars, i, line, col), lex_spec(chars, i + n, line, col + n))
        } else if is_digit_char(c) {
            let n = digit_len(chars, i);
            let v = digits_value(chars.subrange(i, i + n));
            proof {
                lemma_digit_len_le(chars, i);
            }
            if v > u64::MAX {
                LexOut::Fail(LexFailure::NumericOverflow)
            } else {
                lex_cons(
                    TokenV::Num { value: v as u64, position: (line, col) },
                    lex_spec(chars, i + n, line, col + n),
                )
            }
        } else {
            LexOut::Fail(LexFailure::UnrecognizedCharacter)
        }
    }
}

/// Puts already-lexed tokens in front of the outcome for the rest of the
/// text.
pub open spec fn lex_prepend(s: Seq<TokenV>, rest: LexOut) -> LexOut {
    match rest {
        LexOut::Toks(t) => LexOut::Toks(s + t),
        LexOut::Fail(f) => LexOut::Fail(f),
    }
}

proof fn lemma_prepend_cons(s: Seq<TokenV>, t: TokenV, rest: LexOut)
    ensures
        lex_prepend(s, lex_cons(t, rest)) == lex_prepend(s.push(t), rest),
{
    match rest {
        LexOut::Toks(ts) => {
            assert(s + (seq![t] + ts) =~= s.push(t) + ts);
        },
        LexOut::Fail(_) => {},
    }
}

proof fn lemma_map_view_push(s: Seq<Token>, t: Token)
    ensures
        (s.push(t)).map_values(|x: Token| x@) =~= s.map_values(|x: Token| x@).push(t@),
{
}

fn is_alpha(c: char) -> (r: bool)
    ensures
        r == is_alpha_char(c),
{
    let u = c as u32;
    (97 <= u && u <= 122) || (65 <= u && u <= 90)
}

fn is_digit(c: char) -> (r: bool)
    ensures
        r == is_digit_char(c),
{
    let u = c as u32;
    48 <= u && u <= 57
}

fn is_whitespace(c: char) -> (r: bool)
    ensures
        r == is_whitespace_char(c),
{
    c == ' ' || c == '\t' || c == '\n' || c == '\r' || c == '\u{c}'
}

/// Reads the run of letters starting at `*pos` and classifies it: `let` and
/// `while` become keyword tokens, any other run an identifier.
pub fn lex_alphabetic(input: &str, pos: &mut usize, line: &mut usize, col: &mut usize) -> (r: Token)
    requires
        *old(pos) <= input@.len(),
        *old(col) + input@.len() - *old(pos) <= usize::MAX,
    ensures
        *final(pos) == *old(pos) + alpha_len(input@, *old(pos) as int),
        *final(col) == *old(col) + alpha_len(input@, *old(pos) as int),
        *final(line) == *old(line),
        r@ == alpha_token(input@, *old(pos) as int, *old(line) as int, *old(col) as int),
{
    let position = (*line, *col);
    let n_len = input.unicode_len();
    let start = *pos;
    let mut end = start;
    loop
        invariant
            start <= end <= n_len,
            n_len == input@.len(),
            alpha_len(input@, start as int) == end - start + alpha_len(input@, end as int),
        ensures
            start <= end <= n_len,
            end - start == alpha_len(input@, start as int),
        decreases n_len - end,
    {
        if end >= n_len {
            break ;
        }
        let c = input.get_char(end);
        if !is_alpha(c) {
            break ;
        }
        end = end + 1;
    }
    let word = input.substring_char(start, end);
    let value = word.to_owned();
    *pos = end;
    *col = *col + (end - start);
    let kw_let = String::from_str("let");
    let kw_while = String::from_str("while");
    if value == kw_let {
        Token::Let { position }
    } else if value == kw_while {
        Token::While { position }
    } else {
        Token::Id { value, position }
    }
}

pub proof fn lemma_digits_value_bounds(s: Seq<char>)
    requires
        forall|k: int| 0 <= k < s.len() ==> is_digit_char(s[k]),
    ensures
        0 <= digits_value(s),
    decreases s.len(),
{
    if s.len() > 0 {
        lemma_digits_value_bounds(s.drop_last());
    }
}

/// Appending one digit multiplies the denoted number by ten and adds the
/// digit.
pub proof fn lemma_digits_value_snoc(s: Seq<char>, m: int)
    requires
        0 <= m < s.len(),
    ensures
        digits_value(s.subrange(0, m + 1)) == digits_value(s.subrange(0, m)) * 10 + digit_value(
            s[m],
        ),
{
    let a = s.subrange(0, m);
    let b = s.subrange(0, m + 1);
    assert(b.drop_last() =~= a);
    assert(b.last() == s[m]);
}

/// A longer run of digits never denotes a smaller number.
pub proof fn lemma_digits_value_prefix_le(s: Seq<char>, k: int)
    requires
        0 <= k <= s.len(),
        forall|j: int| 0 <= j < s.len() ==> is_digit_char(s[j]),
    ensures
        digits_value(s.subrange(0, k)) <= digits_value(s),
    decreases s.len() - k,
{
    if k < s.len() {
        lemma_digits_value_prefix_le(s, k + 1);
        let a = s.subrange(0, k);
        let b = s.subrange(0, k + 1);
        lemma_digits_value_snoc(s, k);
        lemma_digits_value_bounds(a);
        assert(digits_value(a) * 10 >= digits_value(a)) by (nonlinear_arith)
            requires
                digits_value(a) >= 0,
        ;
    } else {
        assert(s.subrange(0, k) =~= s);
    }
}

/// Reads the run of digits starting at `*pos` and converts it to a `u64`
/// integer token; an empty run or a value over `u64::MAX` is a `LexError`.
pub fn lex_numeric(input: &str, pos: &mut usize, line: &mut usize, col: &mut usize) -> (r: Result<
    Token,
    LexError,
>)
    requires
        *old(pos) <= input@.len(),
        *old(col) + input@.len() - *old(pos) <= usize::MAX,
    ensures
        ({
            let i = *old(pos) as int;
            let n = digit_len(input@, i);
            let v = digits_value(input@.subrange(i, i + n));
            match r {
                Ok(t) => {
                    &&& n >= 1
                    &&& v <= u64::MAX
                    &&& t@ == (TokenV::Num {
                        value: v as u64,
                        position: (*old(line) as int, *old(col) as int),
                    })
                    &&& *final(pos) == *old(pos) + n
                    &&& *final(col) == *old(col) + n
                    &&& *final(line) == *old(line)
                },
                Err(e) => {
                    &&& (n == 0 || v > u64::MAX)
                    &&& e@ == lex_message(LexFailure::NumericOverflow)
                    &&& *final(pos) == *old(pos)
                    &&& *final(col) == *old(col)
                    &&& *final(line) == *old(line)
                },
            }
        }),
{
    let position = (*line, *col);
    let n_len = input.unicode_len();
    let start = *pos;
    let mut end = start;
    loop
        invariant
            start <= end <= n_len,
            n_len == input@.len(),
            digit_len(input@, start as int) == end - start + digit_len(input@, end as int),
            forall|k: int| start <= k < end ==> is_digit_char(input@[k]),
        ensures
            start <= end <= n_len,
            end - start == digit_len(input@, start as int),
            forall|k: int| start <= k < end ==> is_digit_char(input@[k]),
        decreases n_len - end,
    {
        if end >= n_len {
            break ;
        }
        let c = input.get_char(end);
        if !is_digit(c) {
            break ;
        }
        end = end + 1;
    }
    if end == start {
        return Err(LexError(String::from_str("failed to parse numeric")));
    }
    let ghost run = input@.subrange(start as int, end as int);
    proof {
        assert(forall|k: int| 0 <= k < run.len() ==> is_digit_char(run[k]));
    }
    let mut v: u64 = 0;
    let mut j = start;
    while j < end
        invariant
            start <= j <= end <= n_len,
            n_len == input@.len(),
            start == *old(pos),
            forall|k: int| start <= k < end ==> is_digit_char(input@[k]),
            end - start == digit_len(input@, start as int),
            run == input@.subrange(start as int, end as int),
            v == digits_value(run.subrange(0, j - start)),
        decreases end - j,
    {
        let c = input.get_char(j);
        let u = c as u32;
        let d: u64 = (u - 48) as u64;
        proof {
            lemma_digits_value_snoc(run, j - start);
            assert(run[j - start] == input@[j as int]);
            assert(d == digit_value(run[j - start]));
        }
        let v10 = match v.checked_mul(10) {
            Some(x) => x,
            None => {
                proof {
                    assert(v * 10 + digit_value(run[j - start]) > u64::MAX) by (nonlinear_arith)
                        requires
                            v * 10 > u64::MAX,
                            digit_value(run[j - start]) >= 0,
                    ;
                    assert(digits_value(run.subrange(0, j + 1 - start)) > u64::MAX);
                    lemma_digits_value_prefix_le(run, j + 1 - start);
                    assert(run.subrange(0, run.len() as int) =~= run);
                    assert(digits_value(run) > u64::MAX);
                }
                return Err(LexError(String::from_str("failed to parse numeric")));
            },
        };
        let v2 = match v10.checked_add(d) {
            Some(x) => x,
            None => {
                proof {
                    assert(digits_value(run.subrange(0, j + 1 - start)) > u64::MAX);
                    lemma_digits_value_prefix_le(run, j + 1 - start);
                    assert(run.subrange(0, run.len() as int) =~= run);
                    assert(digits_value(run) > u64::MAX);
                }
                return Err(LexError(String::from_str("failed to parse numeric")));
            },
        };
        v = v2;
        j = j + 1;
    }
    proof {
        assert(run.subrange(0, end - start) =~= run);
    }
    *pos = end;
    *col = *col + (end - start);
    Ok(Token::Num { value: v, position })
}

/// Reads a `//` comment starting at `*pos`: the token's text is everything
/// after the two slashes up to (and excluding) the next line break. Anything
/// else starting with a single `/` is a `LexError`.
pub fn lex_comment(input: &str, pos: &mut usize, line: &mut usize, col: &mut usize) -> (r: Result<
    Token,
    LexError,
>)
    requires
        *old(pos) <= input@.len(),
        *old(col) + input@.len() - *old(pos) <= usize::MAX,
    ensures
        ({
            let i = *old(pos) as int;
            let chars = input@;
            if i + 1 < chars.len() && chars[i] == '/' && chars[i + 1] == '/' {
                let n = nonline_len(chars, i + 2);
                match r {
                    Ok(t) => {
                        &&& t@ == (TokenV::Comment {
                            value: chars.subrange(i + 2, i + 2 + n),
                            position: (*old(line) as int, *old(col) as int),
                        })
                        &&& *final(pos) == *old(pos) + 2 + n
                        &&& *final(col) == *old(col) + 2 + n
                        &&& *final(line) == *old(line)
                    },
                    Err(_) => false,
                }
            } else {
                match r {
                    Ok(_) => false,
                    Err(e) => {
                        &&& e@ == lex_message(LexFailure::MissingSecondSlash)
                        &&& *final(pos) == *old(pos)
                        &&& *final(col) == *old(col)
                        &&& *final(line) == *old(line)
                    },
                }
            }
        }),
{
    let position = (*line, *col);
    let n_len = input.unicode_len();
    let start = *pos;
    if start >= n_len || input.get_char(start) != '/' || start + 1 >= n_len || input.get_char(
        start + 1,
    ) != '/' {
        return Err(LexError(String::from_str("Comment without second slash!")));
    }
    let text_start = start + 2;
    let mut end = text_start;
    loop
        invariant
            text_start <= end <= n_len,
            n_len == input@.len(),
            nonline_len(input@, text_start as int) == end - text_start + nonline_len(
                input@,
                end as int,
            ),
        ensures
            text_start <= end <= n_len,
            end - text_start == nonline_len(input@, text_start as int),
        decreases n_len - end,
    {
        if end >= n_len {
            break ;
        }
        let c = input.get_char(end);
        if c == '\n' {
            break ;
        }
        end = end + 1;
    }
    let text = input.substring_char(text_start, end);
    let value = text.to_owned();
    *pos = end;
    *col = *col + (end - start);
    Ok(Token::Comment { value, position })
}

/// Turns source text into its token sequence, or reports the first lexical
/// fault. Whitespace separates tokens and advances the line/column
/// bookkeeping; every other character must start a token.
pub fn lex(input: &str) -> (r: Result<Vec<Token>, LexError>)
    requires
        input@.len() < usize::MAX,
    ensures
        ({
            let out = lex_spec(input@, 0, 1, 1);
            match r {
                Ok(tokens) => out == LexOut::Toks(tokens@.map_values(|t: Token| t@)),
                Err(e) => out is Fail && e@ == lex_message(out.fail_kind()),
            }
        }),
{
    let mut tokens: Vec<Token> = Vec::new();
    let mut pos: usize = 0;
    let mut line: usize = 1;
    let mut col: usize = 1;
    let n_len = input.unicode_len();
    while pos < n_len
        invariant
            pos <= n_len,
            n_len == input@.len(),
            input@.len() < usize::MAX,
            1 <= line,
            1 <= col,
            col <= pos + 1,
            line <= pos + 1,
            lex_spec(input@, 0, 1, 1) == lex_prepend(
                tokens@.map_values(|t: Token| t@),
                lex_spec(input@, pos as int, line as int, col as int),
            ),
        decreases n_len - pos,
    {
        let ghost chars = input@;
        let ghost p0 = pos as int;
        let ghost l0 = line as int;
        let ghost c0 = col as int;
        let ghost prev_map = tokens@.map_values(|t: Token| t@);
        let ghost rest = lex_spec(chars, p0, l0, c0);
        let c = input.get_char(pos);
        if c == '=' {
            let t = Token::Eq { position: (line, col) };
            pos = pos + 1;
            col = col + 1;
            proof {
                assert(rest == lex_cons(t@, lex_spec(chars, p0 + 1, l0, c0 + 1)));
                lemma_prepend_cons(prev_map, t@, lex_spec(chars, p0 + 1, l0, c0 + 1));
                lemma_map_view_push(tokens@, t);
            }
            tokens.push(t);
        } else if c == ';' {
            let t = Token::Semicolon { position: (line, col) };
            pos = pos + 1;
            col = col + 1;
            proof {
                assert(rest == lex_cons(t@, lex_spec(chars, p0 + 1, l0, c0 + 1)));
                lemma_prepend_cons(prev_map, t@, lex_spec(chars, p0 + 1, l0, c0 + 1));
                lemma_map_view_push(tokens@, t);
            }
            tokens.push(t);
        } else if c == '+' {
            let t = Token::Plus { position: (line, col) };
            pos = pos + 1;
            col = col + 1;
            proof {
                assert(rest == lex_cons(t@, lex_spec(chars, p0 + 1, l0, c0 + 1)));
                lemma_prepend_cons(prev_map, t@, lex_spec(chars, p0 + 1, l0, c0 + 1));
                lemma_map_view_push(tokens@, t);
            }
            tokens.push(t);
        } else if c == '*' {
            let t = Token::Times { position: (line, col) };
            pos = pos + 1;
            col = col + 1;
            proof {
                assert(rest == lex_cons(t@, lex_spec(chars, p0 + 1, l0, c0 + 1)));
                lemma_prepend_cons(prev_map, t@, lex_spec(chars, p0 + 1, l0, c0 + 1));
                lemma_map_view_push(tokens@, t);
            }
            tokens.push(t);
        } else if c == '(' {
            let t = Token::LParen { position: (line, col) };
            pos = pos + 1;
            col = col + 1;
            proof {
                assert(rest == lex_cons(t@, lex_spec(chars, p0 + 1, l0, c0 + 1)));
                lemma_prepend_cons(prev_map, t@, lex_spec(chars, p0 + 1, l0, c0 + 1));
                lemma_map_view_push(tokens@, t);
            }
            tokens.push(t);
        } else if c == ')' {
            let t = Token::RParen { position: (line, col) };
            pos = pos + 1;
            col = col + 1;
            proof {
                assert(rest == lex_cons(t@, lex_spec(chars, p0 + 1, l0, c0 + 1)));
                lemma_prepend_cons(prev_map, t@, lex_spec(chars, p0 + 1, l0, c0 + 1));
                lemma_map_view_push(tokens@, t);
            }
            tokens.push(t);
        } else if c == '{' {
            let t = Token::LBrace { position: (line, col) };
            pos = pos + 1;
            col = col + 1;
            proof {
                assert(rest == lex_cons(t@, lex_spec(chars, p0 + 1, l0, c0 + 1)));
                lemma_prepend_cons(prev_map, t@, lex_spec(chars, p0 + 1, l0, c0 + 1));
                lemma_map_view_push(tokens@, t);
            }
            tokens.push(t);
        } else if c == '}' {
            let t = Token::RBrace { position: (line, col) };
            pos = pos + 1;
            col = col + 1;
            proof {
                assert(rest == lex_cons(t@, lex_spec(chars, p0 + 1, l0, c0 + 1)));
                lemma_prepend_cons(prev_map, t@, lex_spec(chars, p0 + 1, l0, c0 + 1));
                lemma_map_view_push(tokens@, t);
            }
            tokens.push(t);
        } else if c == '/' {
            let t = match lex_comment(input, &mut pos, &mut line, &mut col) {
                Ok(t) => t,
                Err(e) => {
                    proof {
                        assert(rest == LexOut::Fail(LexFailure::MissingSecondSlash));
                    }
                    return Err(e);
                },
            };
            proof {
                lemma_nonline_len_le(chars, p0 + 2);
                assert(rest == lex_cons(
                    t@,
                    lex_spec(chars, pos as int, line as int, col as int),
                ));
                lemma_prepend_cons(
                    prev_map,
                    t@,
                    lex_spec(chars, pos as int, line as int, col as int),
                );
                lemma_map_view_push(tokens@, t);
            }
            tokens.push(t);
        } else if is_whitespace(c) {
            if c == '\n' {
                line = line + 1;
                col = 1;
            } else {
                col = col + 1;
            }
            pos = pos + 1;
            proof {
                assert(rest == lex_spec(chars, pos as int, line as int, col as int));
            }
        } else if is_alpha(c) {
            let t = lex_alphabetic(input, &mut pos, &mut line, &mut col);
            proof {
                lemma_alpha_len_le(chars, p0);
                assert(alpha_len(chars, p0) >= 1);
                assert(rest == lex_cons(
                    t@,
                    lex_spec(chars, pos as int, line as int, col as int),
                ));
                lemma_prepend_cons(
                    prev_map,
                    t@,
                    lex_spec(chars, pos as int, line as int, col as int),
                );
                lemma_map_view_push(tokens@, t);
            }
            tokens.push(t);
        } else if is_digit(c) {
            let t = match lex_numeric(input, &mut pos, &mut line, &mut col) {
                Ok(t) => t,
                Err(e) => {
                    proof {
                        assert(digit_len(chars, p0) >= 1);
                        assert(rest == LexOut::Fail(LexFailure::NumericOverflow));
                    }
                    return Err(e);
                },
            };
            proof {
                lemma_digit_len_le(chars, p0);
                assert(rest == lex_cons(
                    t@,
                    lex_spec(chars, pos as int, line as int, col as int),
                ));
                lemma_prepend_cons(
                    prev_map,
                    t@,
                    lex_spec(chars, pos as int, line as int, col as int),
                );
                lemma_map_view_push(tokens@, t);
            }
            tokens.push(t);
        } else {
            proof {
                assert(rest == LexOut::Fail(LexFailure::UnrecognizedCharacter));
            }
            return Err(LexError(String::from_str("unrecognized character")));
        }
    }
    proof {
        assert(tokens@.map_values(|t: Token| t@) + Seq::<TokenV>::empty() =~= tokens@.map_values(
            |t: Token| t@,
        ));
    }
    Ok(tokens)
}

} // verus!
