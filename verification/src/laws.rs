//! The engine's backtracking discipline, stated and proved once for every
//! combinator and every token stream.

use crate::combinators::Comb;
use crate::combinators::ParseError;
use crate::combinators::ParseOut;
use crate::combinators::Rule;
use crate::combinators::Terminal;
use crate::combinators::parse_spec;
use crate::combinators::rule_spec;
use crate::combinators::rule_weight;
use crate::combinators::lemma_parse_mono;
use crate::lexer::Token;
use vstd::prelude::*;

verus! {

/// Either rolls back: when the left branch fails — however many tokens it
/// consumed before failing — the whole choice behaves exactly as the right
/// branch does when started from the original cursor, never from where the
/// left branch stopped.
pub proof fn lemma_either_rollback(left: Box<Comb>, right: Box<Comb>, toks: Seq<Token>, i: int)
    requires
        parse_spec(*left, toks, i) is Failed,
    ensures
        parse_spec(Comb::Either { left, right }, toks, i) == parse_spec(*right, toks, i),
{
}

/// Optional never fails: when the wrapped rule fails, the whole combinator
/// yields an empty node sequence with the cursor exactly where it was before
/// the attempt; when the rule matches, its match is passed through.
pub proof fn lemma_optional_failure(inner: Box<Comb>, toks: Seq<Token>, i: int)
    requires
        parse_spec(*inner, toks, i) is Failed,
    ensures
        parse_spec(Comb::Optional { inner }, toks, i) == (ParseOut::Matched {
            nodes: Seq::empty(),
            next: i,
        }),
{
}

/// Optional is total: whatever the wrapped rule does, the combinator itself
/// matches.
pub proof fn lemma_optional_never_fails(inner: Box<Comb>, toks: Seq<Token>, i: int)
    ensures
        parse_spec(Comb::Optional { inner }, toks, i) is Matched,
{
}

/// Sequence does not roll back: when its first part matches and its second
/// part then fails, the whole sequence propagates the second part's error
/// verbatim and leaves the cursor where the second part failed — not
/// restored to where the sequence began.
pub proof fn lemma_sequence_no_rollback(
    current: Box<Comb>,
    next: Box<Comb>,
    toks: Seq<Token>,
    i: int,
)
    requires
        parse_spec(*current, toks, i) is Matched,
        parse_spec(*next, toks, parse_spec(*current, toks, i).next()) is Failed,
    ensures
        parse_spec(Comb::Sequence { current, next }, toks, i) == parse_spec(
            *next,
            toks,
            parse_spec(*current, toks, i).next(),
        ),
{
    lemma_parse_mono(*current, toks, i);
}

/// At the end of the stream, every terminal and every node rule fails with
/// `UnexpectedEof` and leaves the cursor untouched. (Verification rules out
/// a panic on every input, exhausted streams included.)
pub proof fn lemma_eof_failure(c: Comb, toks: Seq<Token>, i: int)
    requires
        i >= toks.len(),
        0 <= i,
        c is Terminal || c is Node,
    ensures
        parse_spec(c, toks, i) == (ParseOut::Failed { error: ParseError::UnexpectedEof, next: i }),
{
    match c {
        Comb::Terminal { .. } => {},
        Comb::Node { parser } => {
            lemma_rule_eof_failure(parser, toks, i);
        },
        _ => {},
    }
}

/// At the end of the stream, every node rule fails with `UnexpectedEof` and
/// leaves the cursor untouched.
pub proof fn lemma_rule_eof_failure(r: Rule, toks: Seq<Token>, i: int)
    requires
        i >= toks.len(),
        0 <= i,
    ensures
        rule_spec(r, toks, i) == (ParseOut::Failed { error: ParseError::UnexpectedEof, next: i }),
    decreases rule_weight(r),
{
    let eof = ParseOut::Failed { error: ParseError::UnexpectedEof, next: i };
    match r {
        Rule::Id => {},
        Rule::Num => {},
        Rule::Expression => {},
        Rule::Block => {},
        Rule::Initialization => {
            let c_let = Comb::Terminal { token: Terminal::Let };
            let c_id = Comb::Node { parser: Rule::Id };
            let c_eq = Comb::Terminal { token: Terminal::Eq };
            let c_ex = Comb::Node { parser: Rule::Expression };
            let c_semi = Comb::Terminal { token: Terminal::Semicolon };
            let s1 = Comb::Sequence { current: Box::new(c_let), next: Box::new(c_id) };
            let s2 = Comb::Sequence { current: Box::new(s1), next: Box::new(c_eq) };
            let s3 = Comb::Sequence { current: Box::new(s2), next: Box::new(c_ex) };
            let m = Comb::Sequence { current: Box::new(s3), next: Box::new(c_semi) };
            assert(m == crate::combinators::init_matcher());
            assert(parse_spec(c_let, toks, i) == eof);
            assert(parse_spec(s1, toks, i) == eof);
            assert(parse_spec(s2, toks, i) == eof);
            assert(parse_spec(s3, toks, i) == eof);
            assert(parse_spec(m, toks, i) == eof);
        },
        Rule::WhileLoop => {
            let c_while = Comb::Terminal { token: Terminal::While };
            let c_lp = Comb::Terminal { token: Terminal::LParen };
            let c_ex = Comb::Node { parser: Rule::Expression };
            let c_rp = Comb::Terminal { token: Terminal::RParen };
            let c_bl = Comb::Node { parser: Rule::Block };
            let s1 = Comb::Sequence { current: Box::new(c_while), next: Box::new(c_lp) };
            let s2 = Comb::Sequence { current: Box::new(s1), next: Box::new(c_ex) };
            let s3 = Comb::Sequence { current: Box::new(s2), next: Box::new(c_rp) };
            let m = Comb::Sequence { current: Box::new(s3), next: Box::new(c_bl) };
            assert(m == crate::combinators::while_matcher());
            assert(parse_spec(c_while, toks, i) == eof);
            assert(parse_spec(s1, toks, i) == eof);
            assert(parse_spec(s2, toks, i) == eof);
            assert(parse_spec(s3, toks, i) == eof);
            assert(parse_spec(m, toks, i) == eof);
        },
        Rule::Statement => {
            lemma_rule_eof_failure(Rule::Initialization, toks, i);
            lemma_rule_eof_failure(Rule::WhileLoop, toks, i);
            let c_init = Comb::Node { parser: Rule::Initialization };
            let c_while = Comb::Node { parser: Rule::WhileLoop };
            let m = Comb::Either { left: Box::new(c_init), right: Box::new(c_while) };
            assert(m == crate::combinators::stmt_matcher());
            assert(parse_spec(c_init, toks, i) == eof);
            assert(parse_spec(c_while, toks, i) == eof);
            assert(parse_spec(m, toks, i) == eof);
        },
    }
}

} // verus!
