//! The grammar combinator engine and the node rules of the language.
//!
//! A grammar rule is an immutable `Comb` value: a terminal match, a node
//! rule, an ordered sequence, an ordered choice, or an optional. `Comb::parse`
//! interprets such a value against a `Tokens` stream. `Either` and `Optional`
//! are the only combinators that absorb a child's failure: they snapshot the
//! cursor first and restore it before trying the other branch or giving up,
//! which is the engine's whole backtracking discipline. `Sequence` never
//! restores, and `Terminal`/`Node` report failures to their caller verbatim.
//!
//! `parse_spec` is the mathematical model of the interpreter; every
//! executable function here is proved to return exactly what the model says,
//! with the stream cursor exactly where the model says it ends up.

use crate::ast::AstNode;
use crate::ast::AstNodeV;
use crate::ast::Block;
use crate::ast::BlockV;
use crate::ast::Expression;
use crate::ast::ExpressionV;
use crate::ast::Id;
use crate::ast::Initialization;
use crate::ast::InitializationV;
use crate::ast::Num;
use crate::ast::Statement;
use crate::ast::StatementV;
use crate::ast::WhileLoop;
use crate::ast::WhileLoopV;
use crate::ast::expr_view;
use crate::ast::node_view;
use crate::ast::nodes_view;
use crate::ast::stmt_view;
use crate::ast::stmts_views;
use crate::lexer::Position;
use crate::lexer::Token;
use crate::tokens::Tokens;
use vstd::prelude::*;

verus! {

/// The token kinds a `Terminal` combinator can require. A terminal is
/// structural: it consumes its token and contributes no node.
#[derive(Debug, Clone, Copy, PartialEq, Eq, Structural)]
pub enum Terminal {
    Eq,
    Let,
    Semicolon,
    While,
    LParen,
    RParen,
    LBrace,
    RBrace,
}

/// The node rules of the grammar; a `Node` combinator delegates to the
/// rule's own parsing function, which produces exactly one node.
#[derive(Debug, Clone, Copy, PartialEq, Eq, Structural)]
pub enum Rule {
    Id,
    Num,
    Expression,
    Initialization,
    Statement,
    Block,
    WhileLoop,
}

/// An immutable grammar rule. Combinator values hold no parse state; all
/// mutable state lives in the token stream handed to `parse`.
#[derive(Debug, PartialEq, Eq)]
pub enum Comb {
    Node { parser: Rule },
    Terminal { token: Terminal },
    Sequence { current: Box<Comb>, next: Box<Comb> },
    Either { left: Box<Comb>, right: Box<Comb> },
    Optional { inner: Box<Comb> },
}

/// A structured parse failure, carrying the offending token where one
/// exists.
#[derive(Debug, PartialEq, Eq)]
pub enum ParseError {
    /// The stream was exhausted where a token was required.
    UnexpectedEof,
    /// A terminal met a token of the wrong kind.
    UnexpectedToken { found: Token, expected: Terminal },
    /// A node rule met a token it cannot start from.
    WrongTokenKind { found: Token, expected: Rule },
    /// A valid token for which no grammar alternative applies.
    UnhandledConstruct { found: Token },
}

impl ParseError {
    pub open spec fn spec_position(&self) -> Option<Position> {
        match self {
            ParseError::UnexpectedEof => None,
            ParseError::UnexpectedToken { found, .. } => Some(found.spec_position()),
            ParseError::WrongTokenKind { found, .. } => Some(found.spec_position()),
            ParseError::UnhandledConstruct { found } => Some(found.spec_position()),
        }
    }

    /// The offending token's position; `None` for end-of-input failures,
    /// since there is no token to position against.
    pub fn position(&self) -> (r: Option<Position>)
        ensures
            r == self.spec_position(),
    {
        match self {
            ParseError::UnexpectedEof => None,
            ParseError::UnexpectedToken { found, .. } => Some(found.position()),
            ParseError::WrongTokenKind { found, .. } => Some(found.position()),
            ParseError::UnhandledConstruct { found } => Some(found.position()),
        }
    }
}

/// What interpreting a combinator from a given cursor yields: the views of
/// the produced nodes and the new cursor, or the error and the cursor where
/// the failing rule left the stream.
pub enum ParseOut {
    Matched { nodes: Seq<AstNodeV>, next: int },
    Failed { error: ParseError, next: int },
}

impl ParseOut {
    /// The cursor after the attempt, matched or failed.
    pub open spec fn next(self) -> int {
        match self {
            ParseOut::Matched { next, .. } => next,
            ParseOut::Failed { next, .. } => next,
        }
    }

    pub open spec fn nodes(self) -> Seq<AstNodeV> {
        match self {
            ParseOut::Matched { nodes, .. } => nodes,
            ParseOut::Failed { .. } => Seq::empty(),
        }
    }

    pub open spec fn error(self) -> ParseError {
        match self {
            ParseOut::Matched { .. } => ParseError::UnexpectedEof,
            ParseOut::Failed { error, .. } => error,
        }
    }
}

/// Whether a terminal accepts a token, ignoring the token's position and
/// payload.
pub open spec fn terminal_matches(t: Terminal, tok: Token) -> bool {
    match (t, tok) {
        (Terminal::Eq, Token::Eq { .. }) => true,
        (Terminal::Let, Token::Let { .. }) => true,
        (Terminal::Semicolon, Token::Semicolon { .. }) => true,
        (Terminal::While, Token::While { .. }) => true,
        (Terminal::LParen, Token::LParen { .. }) => true,
        (Terminal::RParen, Token::RParen { .. }) => true,
        (Terminal::LBrace, Token::LBrace { .. }) => true,
        (Terminal::RBrace, Token::RBrace { .. }) => true,
        _ => false,
    }
}

/// Tokens left from cursor `i` on; the first element of every termination
/// measure of the engine.
pub open spec fn remaining(toks: Seq<Token>, i: int) -> nat {
    if i <= toks.len() {
        (toks.len() - i) as nat
    } else {
        0
    }
}

/// A child combinator resumes no earlier than where its predecessor began;
/// the definitions use this clamp so that their termination is evident, and
/// the monotonicity lemma shows it never changes anything.
pub open spec fn continue_at(i: int, j: int) -> int {
    if j < i {
        i
    } else {
        j
    }
}

/// The second element of the engine's termination measure: how much work a
/// combinator can do before the cursor must have moved.
pub open spec fn rule_weight(r: Rule) -> nat {
    match r {
        Rule::Id => 1,
        Rule::Num => 1,
        Rule::Expression => 7,
        Rule::Block => 3,
        Rule::Initialization => 19,
        Rule::WhileLoop => 21,
        Rule::Statement => 45,
    }
}

pub open spec fn comb_weight(c: Comb) -> nat
    decreases c,
{
    match c {
        Comb::Node { parser } => rule_weight(parser) + 1,
        Comb::Terminal { .. } => 1,
        Comb::Sequence { current, next } => comb_weight(*current) + comb_weight(*next) + 1,
        Comb::Either { left, right } => comb_weight(*left) + comb_weight(*right) + 1,
        Comb::Optional { inner } => comb_weight(*inner) + 1,
    }
}

/// The payload of an identifier or expression node; how the rules read the
/// nodes that their sub-matchers produced.
pub open spec fn node_expr(n: AstNodeV) -> ExpressionV {
    match n {
        AstNodeV::Id(s) => ExpressionV::Id(s),
        AstNodeV::Num(v) => ExpressionV::Num(v),
        AstNodeV::Expression(e) => e,
        _ => ExpressionV::Num(0),
    }
}

/// The matcher `Expression` tries for its left operand: a numeric literal
/// first, an identifier second.
pub open spec fn expr_lhs_matcher() -> Comb {
    Comb::Either {
        left: Box::new(Comb::Node { parser: Rule::Num }),
        right: Box::new(Comb::Node { parser: Rule::Id }),
    }
}

/// The matcher for `let <identifier> = <expression> ;`.
pub open spec fn init_matcher() -> Comb {
    Comb::Sequence {
        current: Box::new(
            Comb::Sequence {
                current: Box::new(
                    Comb::Sequence {
                        current: Box::new(
                            Comb::Sequence {
                                current: Box::new(Comb::Terminal { token: Terminal::Let }),
                                next: Box::new(Comb::Node { parser: Rule::Id }),
                            },
                        ),
                        next: Box::new(Comb::Terminal { token: Terminal::Eq }),
                    },
                ),
                next: Box::new(Comb::Node { parser: Rule::Expression }),
            },
        ),
        next: Box::new(Comb::Terminal { token: Terminal::Semicolon }),
    }
}

/// The matcher for `while ( <expression> ) <block>`.
pub open spec fn while_matcher() -> Comb {
    Comb::Sequence {
        current: Box::new(
            Comb::Sequence {
                current: Box::new(
                    Comb::Sequence {
                        current: Box::new(
                            Comb::Sequence {
                                current: Box::new(Comb::Terminal { token: Terminal::While }),
                                next: Box::new(Comb::Terminal { token: Terminal::LParen }),
                            },
                        ),
                        next: Box::new(Comb::Node { parser: Rule::Expression }),
                    },
                ),
                next: Box::new(Comb::Terminal { token: Terminal::RParen }),
            },
        ),
        next: Box::new(Comb::Node { parser: Rule::Block }),
    }
}

/// The matcher for a statement: an initialization, else a while loop.
pub open spec fn stmt_matcher() -> Comb {
    Comb::Either {
        left: Box::new(Comb::Node { parser: Rule::Initialization }),
        right: Box::new(Comb::Node { parser: Rule::WhileLoop }),
    }
}

/// What interpreting combinator `c` against the tokens from cursor `i` on
/// yields. This is the engine's whole behaviour: `Terminal` consumes one
/// token or fails; `Node` delegates to its rule; `Sequence` runs its parts
/// in order and fails where the first part fails, without restoring the
/// cursor; `Either` restores the cursor after a failed left branch and then
/// returns whatever the right branch yields from the original cursor;
/// `Optional` turns a failure into an empty match at the original cursor.
pub open spec fn parse_spec(c: Comb, toks: Seq<Token>, i: int) -> ParseOut
    decreases remaining(toks, i), comb_weight(c),
{
    match c {
        Comb::Terminal { token } => {
            if !(0 <= i < toks.len()) {
                ParseOut::Failed { error: ParseError::UnexpectedEof, next: i }
            } else if terminal_matches(token, toks[i]) {
                ParseOut::Matched { nodes: Seq::empty(), next: i + 1 }
            } else {
                ParseOut::Failed {
                    error: ParseError::UnexpectedToken { found: toks[i], expected: token },
                    next: i + 1,
                }
            }
        },
        Comb::Node { parser } => rule_spec(parser, toks, i),
        Comb::Sequence { current, next } => {
            let first = parse_spec(*current, toks, i);
            match first {
                ParseOut::Failed { .. } => first,
                ParseOut::Matched { nodes: first_nodes, next: j } => {
                    let second = parse_spec(*next, toks, continue_at(i, j));
                    match second {
                        ParseOut::Failed { .. } => second,
                        ParseOut::Matched { nodes: second_nodes, next: k } => ParseOut::Matched {
                            nodes: first_nodes + second_nodes,
                            next: k,
                        },
                    }
                },
            }
        },
        Comb::Either { left, right } => {
            let attempt = parse_spec(*left, toks, i);
            match attempt {
                ParseOut::Matched { .. } => attempt,
                ParseOut::Failed { .. } => parse_spec(*right, toks, i),
            }
        },
        Comb::Optional { inner } => {
            let attempt = parse_spec(*inner, toks, i);
            match attempt {
                ParseOut::Matched { .. } => attempt,
                ParseOut::Failed { .. } => ParseOut::Matched { nodes: Seq::empty(), next: i },
            }
        },
    }
}

/// Dispatch to the node rules.
pub open spec fn rule_spec(r: Rule, toks: Seq<Token>, i: int) -> ParseOut
    decreases remaining(toks, i), rule_weight(r),
{
    match r {
        Rule::Id => id_spec(toks, i),
        Rule::Num => num_spec(toks, i),
        Rule::Expression => expr_spec(toks, i),
        Rule::Initialization => init_spec(toks, i),
        Rule::Statement => stmt_spec(toks, i),
        Rule::Block => block_spec(toks, i),
        Rule::WhileLoop => while_spec(toks, i),
    }
}

/// One identifier token, consumed; any other token is the wrong kind.
pub open spec fn id_spec(toks: Seq<Token>, i: int) -> ParseOut {
    if !(0 <= i < toks.len()) {
        ParseOut::Failed { error: ParseError::UnexpectedEof, next: i }
    } else {
        match toks[i] {
            Token::Id { value, .. } => ParseOut::Matched {
                nodes: seq![AstNodeV::Id(value@)],
                next: i + 1,
            },
            _ => ParseOut::Failed {
                error: ParseError::WrongTokenKind { found: toks[i], expected: Rule::Id },
                next: i + 1,
            },
        }
    }
}

/// One integer-literal token, consumed; any other token is the wrong kind.
pub open spec fn num_spec(toks: Seq<Token>, i: int) -> ParseOut {
    if !(0 <= i < toks.len()) {
        ParseOut::Failed { error: ParseError::UnexpectedEof, next: i }
    } else {
        match toks[i] {
            Token::Num { value, .. } => ParseOut::Matched {
                nodes: seq![AstNodeV::Num(value)],
                next: i + 1,
            },
            _ => ParseOut::Failed {
                error: ParseError::WrongTokenKind { found: toks[i], expected: Rule::Num },
                next: i + 1,
            },
        }
    }
}

/// An expression: a literal-or-identifier operand; then a terminator (`;`
/// or `)`) or the end of the stream closes the expression, or `*`/`+`
/// continues it with a full expression on the right. The grammar therefore
/// nests to the right with `+` and `*` at equal precedence.
pub open spec fn expr_spec(toks: Seq<Token>, i: int) -> ParseOut
    decreases remaining(toks, i), 6nat,
{
    if !(0 <= i < toks.len()) {
        ParseOut::Failed { error: ParseError::UnexpectedEof, next: i }
    } else {
        proof {
            reveal_with_fuel(comb_weight, 10);
        }
        let lhs = parse_spec(expr_lhs_matcher(), toks, i);
        match lhs {
            ParseOut::Failed { .. } => lhs,
            ParseOut::Matched { nodes: lhs_nodes, next: lhs_next } => {
                let operand = node_expr(lhs_nodes[0]);
                let j = continue_at(i + 1, lhs_next);
                if j >= toks.len() {
                    ParseOut::Matched { nodes: seq![AstNodeV::Expression(operand)], next: j }
                } else {
                    match toks[j] {
                        Token::Semicolon { .. } => ParseOut::Matched {
                            nodes: seq![AstNodeV::Expression(operand)],
                            next: j,
                        },
                        Token::RParen { .. } => ParseOut::Matched {
                            nodes: seq![AstNodeV::Expression(operand)],
                            next: j,
                        },
                        Token::Times { .. } => {
                            let rhs = expr_spec(toks, j + 1);
                            match rhs {
                                ParseOut::Failed { .. } => rhs,
                                ParseOut::Matched { nodes: rhs_nodes, next: k } => ParseOut::Matched {
                                    nodes: seq![
                                        AstNodeV::Expression(
                                            ExpressionV::Multiplication(
                                                Box::new(operand),
                                                Box::new(node_expr(rhs_nodes[0])),
                                            ),
                                        ),
                                    ],
                                    next: k,
                                },
                            }
                        },
                        Token::Plus { .. } => {
                            let rhs = expr_spec(toks, j + 1);
                            match rhs {
                                ParseOut::Failed { .. } => rhs,
                                ParseOut::Matched { nodes: rhs_nodes, next: k } => ParseOut::Matched {
                                    nodes: seq![
                                        AstNodeV::Expression(
                                            ExpressionV::Addition(
                                                Box::new(operand),
                                                Box::new(node_expr(rhs_nodes[0])),
                                            ),
                                        ),
                                    ],
                                    next: k,
                                },
                            }
                        },
                        _ => ParseOut::Failed {
                            error: ParseError::UnhandledConstruct { found: toks[j] },
                            next: j,
                        },
                    }
                }
            },
        }
    }
}

/// `let <identifier> = <expression> ;`, through its matcher; the two nodes
/// the matcher yields become one `Initialization` statement node.
pub open spec fn init_spec(toks: Seq<Token>, i: int) -> ParseOut
    decreases remaining(toks, i), 18nat,
{
    proof {
        reveal_with_fuel(comb_weight, 12);
    }
    let o = parse_spec(init_matcher(), toks, i);
    match o {
        ParseOut::Failed { .. } => o,
        ParseOut::Matched { nodes, next } => {
            match (nodes[0], nodes[1]) {
                (AstNodeV::Id(name), AstNodeV::Expression(value)) => ParseOut::Matched {
                    nodes: seq![
                        AstNodeV::Statement(
                            StatementV::Initialization(InitializationV { name, value }),
                        ),
                    ],
                    next,
                },
                // Never reached: the matcher always yields an identifier
                // node and an expression node.
                _ => ParseOut::Failed { error: ParseError::UnexpectedEof, next: i },
            }
        },
    }
}

/// `while ( <expression> ) <block>`, through its matcher.
pub open spec fn while_spec(toks: Seq<Token>, i: int) -> ParseOut
    decreases remaining(toks, i), 20nat,
{
    proof {
        reveal_with_fuel(comb_weight, 12);
    }
    let o = parse_spec(while_matcher(), toks, i);
    match o {
        ParseOut::Failed { .. } => o,
        ParseOut::Matched { nodes, next } => {
            match (nodes[0], nodes[1]) {
                (AstNodeV::Expression(condition), AstNodeV::Block(block)) => ParseOut::Matched {
                    nodes: seq![AstNodeV::WhileLoop(WhileLoopV { condition, block })],
                    next,
                },
                // Never reached: the matcher always yields an expression
                // node and a block node.
                _ => ParseOut::Failed { error: ParseError::UnexpectedEof, next: i },
            }
        },
    }
}

/// A statement: an initialization, else a while loop, rewrapped as one
/// statement node.
pub open spec fn stmt_spec(toks: Seq<Token>, i: int) -> ParseOut
    decreases remaining(toks, i), 44nat,
{
    proof {
        reveal_with_fuel(comb_weight, 12);
    }
    let o = parse_spec(stmt_matcher(), toks, i);
    match o {
        ParseOut::Failed { .. } => o,
        ParseOut::Matched { nodes, next } => {
            match nodes[0] {
                AstNodeV::Statement(s) => ParseOut::Matched {
                    nodes: seq![AstNodeV::Statement(s)],
                    next,
                },
                AstNodeV::WhileLoop(w) => ParseOut::Matched {
                    nodes: seq![AstNodeV::Statement(StatementV::WhileLoop(w))],
                    next,
                },
                // Never reached: the matcher yields a statement or a while
                // loop node.
                _ => ParseOut::Failed { error: ParseError::UnexpectedEof, next: i },
            }
        },
    }
}

/// As many statements as parse, one after the other, each tried with the
/// cursor restored on failure; returns the statements and the cursor after
/// the last one.
pub open spec fn stmts_spec(toks: Seq<Token>, i: int) -> (Seq<StatementV>, int)
    decreases remaining(toks, i), 47nat,
{
    proof {
        reveal_with_fuel(comb_weight, 4);
    }
    let o = parse_spec(Comb::Node { parser: Rule::Statement }, toks, i);
    match o {
        ParseOut::Failed { .. } => (Seq::empty(), i),
        ParseOut::Matched { nodes, next } => {
            if i < toks.len() && next > i {
                match nodes[0] {
                    AstNodeV::Statement(s) => {
                        let rest = stmts_spec(toks, next);
                        (seq![s] + rest.0, rest.1)
                    },
                    // Never reached: a statement rule yields a statement
                    // node.
                    _ => (Seq::empty(), i),
                }
            } else {
                // Never reached: a matched statement consumes tokens.
                (Seq::empty(), i)
            }
        },
    }
}

/// `{ <statement>* }`: zero or more statements between braces; repetition
/// lives in this rule, since no repetition combinator exists.
pub open spec fn block_spec(toks: Seq<Token>, i: int) -> ParseOut
    decreases remaining(toks, i), 2nat,
{
    if !(0 <= i < toks.len()) {
        ParseOut::Failed { error: ParseError::UnexpectedEof, next: i }
    } else if !(toks[i] is LBrace) {
        ParseOut::Failed {
            error: ParseError::UnexpectedToken { found: toks[i], expected: Terminal::LBrace },
            next: i + 1,
        }
    } else {
        let r = stmts_spec(toks, i + 1);
        let j = r.1;
        if !(0 <= j < toks.len()) {
            ParseOut::Failed { error: ParseError::UnexpectedEof, next: j }
        } else if toks[j] is RBrace {
            ParseOut::Matched {
                nodes: seq![AstNodeV::Block(BlockV { statements: r.0 })],
                next: j + 1,
            }
        } else {
            ParseOut::Failed {
                error: ParseError::UnexpectedToken { found: toks[j], expected: Terminal::RBrace },
                next: j + 1,
            }
        }
    }
}

/// After any attempt the cursor never sits before where it started: a
/// failing branch inside `Either`/`Optional` is always undone by a restore,
/// and everything else only reads forward.
pub proof fn lemma_parse_mono(c: Comb, toks: Seq<Token>, i: int)
    ensures
        parse_spec(c, toks, i).next() >= i,
    decreases remaining(toks, i), comb_weight(c),
{
    match c {
        Comb::Terminal { .. } => {},
        Comb::Node { parser } => lemma_rule_mono(parser, toks, i),
        Comb::Sequence { current, next } => {
            lemma_parse_mono(*current, toks, i);
            let first = parse_spec(*current, toks, i);
            if first is Matched {
                lemma_parse_mono(*next, toks, continue_at(i, first.next()));
            }
        },
        Comb::Either { left, right } => {
            lemma_parse_mono(*left, toks, i);
            if parse_spec(*left, toks, i) is Failed {
                lemma_parse_mono(*right, toks, i);
            }
        },
        Comb::Optional { inner } => {
            lemma_parse_mono(*inner, toks, i);
        },
    }
}

pub proof fn lemma_rule_mono(r: Rule, toks: Seq<Token>, i: int)
    ensures
        rule_spec(r, toks, i).next() >= i,
    decreases remaining(toks, i), rule_weight(r),
{
    match r {
        Rule::Id => {},
        Rule::Num => {},
        Rule::Expression => lemma_expr_mono(toks, i),
        Rule::Initialization => lemma_init_mono(toks, i),
        Rule::Statement => lemma_stmt_mono(toks, i),
        Rule::Block => lemma_block_mono(toks, i),
        Rule::WhileLoop => lemma_while_mono(toks, i),
    }
}

proof fn lemma_expr_mono(toks: Seq<Token>, i: int)
    ensures
        expr_spec(toks, i).next() >= i,
    decreases remaining(toks, i), 6nat,
{
    reveal_with_fuel(comb_weight, 10);
    if 0 <= i < toks.len() {
        lemma_parse_mono(expr_lhs_matcher(), toks, i);
        let lhs = parse_spec(expr_lhs_matcher(), toks, i);
        if lhs is Matched {
            let j = continue_at(i + 1, lhs.next());
            if j < toks.len() {
                match toks[j] {
                    Token::Times { .. } => lemma_expr_mono(toks, j + 1),
                    Token::Plus { .. } => lemma_expr_mono(toks, j + 1),
                    _ => {},
                }
            }
        }
    }
}

proof fn lemma_init_mono(toks: Seq<Token>, i: int)
    ensures
        init_spec(toks, i).next() >= i,
    decreases remaining(toks, i), 18nat,
{
    reveal_with_fuel(comb_weight, 12);
    lemma_parse_mono(init_matcher(), toks, i);
}

proof fn lemma_while_mono(toks: Seq<Token>, i: int)
    ensures
        while_spec(toks, i).next() >= i,
    decreases remaining(toks, i), 20nat,
{
    reveal_with_fuel(comb_weight, 12);
    lemma_parse_mono(while_matcher(), toks, i);
}

proof fn lemma_stmt_mono(toks: Seq<Token>, i: int)
    ensures
        stmt_spec(toks, i).next() >= i,
    decreases remaining(toks, i), 44nat,
{
    reveal_with_fuel(comb_weight, 12);
    lemma_parse_mono(stmt_matcher(), toks, i);
}

proof fn lemma_stmts_mono(toks: Seq<Token>, i: int)
    ensures
        stmts_spec(toks, i).1 >= i,
    decreases remaining(toks, i), 47nat,
{
    reveal_with_fuel(comb_weight, 4);
    let o = parse_spec(Comb::Node { parser: Rule::Statement }, toks, i);
    if o is Matched && i < toks.len() && o.next() > i && o.nodes()[0] is Statement {
        lemma_stmts_mono(toks, o.next());
    }
}

proof fn lemma_block_mono(toks: Seq<Token>, i: int)
    ensures
        block_spec(toks, i).next() >= i,
    decreases remaining(toks, i), 2nat,
{
    if 0 <= i < toks.len() && toks[i] is LBrace {
        lemma_stmts_mono(toks, i + 1);
    }
}

/// Every node rule that matches yields exactly one node, of the kind the
/// rule is named after; the one-token rules also consume exactly one token.
pub proof fn lemma_rule_shape(r: Rule, toks: Seq<Token>, i: int)
    ensures
        ({
            let o = rule_spec(r, toks, i);
            o is Matched ==> {
                &&& o.nodes().len() == 1
                &&& match r {
                    Rule::Id => o.nodes()[0] is Id && o.next() == i + 1 && 0 <= i < toks.len(),
                    Rule::Num => o.nodes()[0] is Num && o.next() == i + 1 && 0 <= i < toks.len(),
                    Rule::Expression => o.nodes()[0] is Expression,
                    Rule::Initialization => o.nodes()[0] is Statement,
                    Rule::Statement => o.nodes()[0] is Statement,
                    Rule::Block => o.nodes()[0] is Block,
                    Rule::WhileLoop => o.nodes()[0] is WhileLoop,
                }
            }
        }),
{
}

/// What a matched left-operand attempt of `Expression` looks like: one
/// literal or identifier node, one token consumed.
pub proof fn lemma_expr_lhs_facts(toks: Seq<Token>, i: int)
    ensures
        ({
            let o = parse_spec(expr_lhs_matcher(), toks, i);
            o is Matched ==> {
                &&& 0 <= i < toks.len()
                &&& o.next() == i + 1
                &&& o.nodes().len() == 1
                &&& (o.nodes()[0] is Num || o.nodes()[0] is Id)
            }
        }),
{
    let m = expr_lhs_matcher();
    let o = parse_spec(m, toks, i);
    if o is Matched {
        lemma_rule_shape(Rule::Num, toks, i);
        lemma_rule_shape(Rule::Id, toks, i);
        assert(o == (if parse_spec(Comb::Node { parser: Rule::Num }, toks, i) is Matched {
            parse_spec(Comb::Node { parser: Rule::Num }, toks, i)
        } else {
            parse_spec(Comb::Node { parser: Rule::Id }, toks, i)
        }));
    }
}

/// What a matched initialization matcher looks like: an identifier node and
/// an expression node, with at least one token consumed.
pub proof fn lemma_init_matcher_facts(toks: Seq<Token>, i: int)
    ensures
        ({
            let o = parse_spec(init_matcher(), toks, i);
            o is Matched ==> {
                &&& 0 <= i < toks.len()
                &&& o.next() > i
                &&& o.nodes().len() == 2
                &&& o.nodes()[0] is Id
                &&& o.nodes()[1] is Expression
            }
        }),
{
    let c_let = Comb::Terminal { token: Terminal::Let };
    let c_id = Comb::Node { parser: Rule::Id };
    let c_eq = Comb::Terminal { token: Terminal::Eq };
    let c_ex = Comb::Node { parser: Rule::Expression };
    let c_semi = Comb::Terminal { token: Terminal::Semicolon };
    let s1 = Comb::Sequence { current: Box::new(c_let), next: Box::new(c_id) };
    let s2 = Comb::Sequence { current: Box::new(s1), next: Box::new(c_eq) };
    let s3 = Comb::Sequence { current: Box::new(s2), next: Box::new(c_ex) };
    let m = Comb::Sequence { current: Box::new(s3), next: Box::new(c_semi) };
    assert(m == init_matcher());
    let o = parse_spec(m, toks, i);
    if o is Matched {
        let o3 = parse_spec(s3, toks, i);
        assert(o3 is Matched);
        let o2 = parse_spec(s2, toks, i);
        assert(o2 is Matched);
        let o1 = parse_spec(s1, toks, i);
        assert(o1 is Matched);
        let o_let = parse_spec(c_let, toks, i);
        assert(o_let is Matched);
        assert(0 <= i < toks.len());
        assert(o_let.next() == i + 1);
        let o_id = parse_spec(c_id, toks, continue_at(i, i + 1));
        assert(o_id is Matched);
        lemma_rule_shape(Rule::Id, toks, i + 1);
        assert(o1.nodes() =~= o_id.nodes());
        let o_eq = parse_spec(c_eq, toks, continue_at(i, o1.next()));
        assert(o_eq is Matched);
        assert(o2.nodes() =~= o1.nodes());
        let o_ex = parse_spec(c_ex, toks, continue_at(i, o2.next()));
        assert(o_ex is Matched);
        lemma_rule_shape(Rule::Expression, toks, continue_at(i, o2.next()));
        assert(o3.nodes() =~= o2.nodes() + o_ex.nodes());
        assert(o3.nodes().len() == 2);
        let o_semi = parse_spec(c_semi, toks, continue_at(i, o3.next()));
        assert(o_semi is Matched);
        assert(o.nodes() =~= o3.nodes());
        assert(o.next() == continue_at(i, o3.next()) + 1);
    }
}

/// What a matched while-loop matcher looks like: an expression node and a
/// block node, with at least one token consumed.
pub proof fn lemma_while_matcher_facts(toks: Seq<Token>, i: int)
    ensures
        ({
            let o = parse_spec(while_matcher(), toks, i);
            o is Matched ==> {
                &&& 0 <= i < toks.len()
                &&& o.next() > i
                &&& o.nodes().len() == 2
                &&& o.nodes()[0] is Expression
                &&& o.nodes()[1] is Block
            }
        }),
{
    let c_while = Comb::Terminal { token: Terminal::While };
    let c_lp = Comb::Terminal { token: Terminal::LParen };
    let c_ex = Comb::Node { parser: Rule::Expression };
    let c_rp = Comb::Terminal { token: Terminal::RParen };
    let c_bl = Comb::Node { parser: Rule::Block };
    let s1 = Comb::Sequence { current: Box::new(c_while), next: Box::new(c_lp) };
    let s2 = Comb::Sequence { current: Box::new(s1), next: Box::new(c_ex) };
    let s3 = Comb::Sequence { current: Box::new(s2), next: Box::new(c_rp) };
    let m = Comb::Sequence { current: Box::new(s3), next: Box::new(c_bl) };
    assert(m == while_matcher());
    let o = parse_spec(m, toks, i);
    if o is Matched {
        let o3 = parse_spec(s3, toks, i);
        assert(o3 is Matched);
        let o2 = parse_spec(s2, toks, i);
        assert(o2 is Matched);
        let o1 = parse_spec(s1, toks, i);
        assert(o1 is Matched);
        let o_while = parse_spec(c_while, toks, i);
        assert(o_while is Matched);
        assert(0 <= i < toks.len());
        let o_lp = parse_spec(c_lp, toks, continue_at(i, i + 1));
        assert(o_lp is Matched);
        assert(o1.nodes() =~= Seq::<AstNodeV>::empty());
        let m2 = continue_at(i, o1.next());
        let o_ex = parse_spec(c_ex, toks, m2);
        assert(o_ex is Matched);
        lemma_rule_shape(Rule::Expression, toks, m2);
        assert(o2.nodes() =~= o_ex.nodes());
        let o_rp = parse_spec(c_rp, toks, continue_at(i, o2.next()));
        assert(o_rp is Matched);
        assert(o3.nodes() =~= o2.nodes());
        let m4 = continue_at(i, o3.next());
        let o_bl = parse_spec(c_bl, toks, m4);
        assert(o_bl is Matched);
        lemma_rule_shape(Rule::Block, toks, m4);
        assert(o.nodes() =~= o3.nodes() + o_bl.nodes());
        assert(o.nodes().len() == 2);
        lemma_rule_mono(Rule::Block, toks, m4);
        assert(o.next() == o_bl.next());
        lemma_block_consumes(toks, m4);
    }
}

/// A matched block moved the cursor: it consumed at least its braces.
proof fn lemma_block_consumes(toks: Seq<Token>, i: int)
    ensures
        block_spec(toks, i) is Matched ==> block_spec(toks, i).next() > i,
{
    let o = block_spec(toks, i);
    if o is Matched {
        lemma_stmts_mono(toks, i + 1);
    }
}

/// What a matched statement matcher looks like: one statement-or-while
/// node, with at least one token consumed.
pub proof fn lemma_stmt_matcher_facts(toks: Seq<Token>, i: int)
    ensures
        ({
            let o = parse_spec(stmt_matcher(), toks, i);
            o is Matched ==> {
                &&& 0 <= i < toks.len()
                &&& o.next() > i
                &&& o.nodes().len() == 1
                &&& (o.nodes()[0] is Statement || o.nodes()[0] is WhileLoop)
            }
        }),
{
    let c_init = Comb::Node { parser: Rule::Initialization };
    let c_while = Comb::Node { parser: Rule::WhileLoop };
    let m = Comb::Either { left: Box::new(c_init), right: Box::new(c_while) };
    assert(m == stmt_matcher());
    let o = parse_spec(m, toks, i);
    if o is Matched {
        lemma_rule_shape(Rule::Initialization, toks, i);
        lemma_rule_shape(Rule::WhileLoop, toks, i);
        let o_init = parse_spec(c_init, toks, i);
        if o_init is Matched {
            lemma_init_matcher_facts(toks, i);
        } else {
            let o_while = parse_spec(c_while, toks, i);
            assert(o_while is Matched);
            lemma_while_matcher_facts(toks, i);
        }
    }
}

/// A matched statement starts inside the stream and moves the cursor.
pub proof fn lemma_stmt_facts(toks: Seq<Token>, i: int)
    ensures
        ({
            let o = stmt_spec(toks, i);
            o is Matched ==> {
                &&& 0 <= i < toks.len()
                &&& o.next() > i
                &&& o.nodes().len() == 1
                &&& o.nodes()[0] is Statement
            }
        }),
{
    lemma_stmt_matcher_facts(toks, i);
}


impl Terminal {
    /// Whether this terminal accepts the token; positions and payloads play
    /// no role.
    pub fn accepts(&self, tok: &Token) -> (r: bool)
        ensures
            r == terminal_matches(*self, *tok),
    {
        match (self, tok) {
            (Terminal::Eq, Token::Eq { .. }) => true,
            (Terminal::Let, Token::Let { .. }) => true,
            (Terminal::Semicolon, Token::Semicolon { .. }) => true,
            (Terminal::While, Token::While { .. }) => true,
            (Terminal::LParen, Token::LParen { .. }) => true,
            (Terminal::RParen, Token::RParen { .. }) => true,
            (Terminal::LBrace, Token::LBrace { .. }) => true,
            (Terminal::RBrace, Token::RBrace { .. }) => true,
            _ => false,
        }
    }
}

impl Comb {
    /// A combinator that requires one token of the given kind.
    pub fn terminal(token: Terminal) -> (r: Comb)
        ensures
            r == (Comb::Terminal { token }),
    {
        Comb::Terminal { token }
    }

    /// A combinator that delegates to a node rule.
    pub fn node(parser: Rule) -> (r: Comb)
        ensures
            r == (Comb::Node { parser }),
    {
        Comb::Node { parser }
    }

    /// Ordered sequence: `self`, then `rhs`.
    pub fn shr(self, rhs: Comb) -> (r: Comb)
        ensures
            r == (Comb::Sequence { current: Box::new(self), next: Box::new(rhs) }),
    {
        Comb::Sequence { current: Box::new(self), next: Box::new(rhs) }
    }

    /// Ordered choice: `self`, and where it fails, `rhs` from the same spot.
    pub fn bitor(self, rhs: Comb) -> (r: Comb)
        ensures
            r == (Comb::Either { left: Box::new(self), right: Box::new(rhs) }),
    {
        Comb::Either { left: Box::new(self), right: Box::new(rhs) }
    }

    /// Zero or one: `self`, and where it fails, an empty match.
    pub fn not(self) -> (r: Comb)
        ensures
            r == (Comb::Optional { inner: Box::new(self) }),
    {
        Comb::Optional { inner: Box::new(self) }
    }

    /// Interprets this grammar rule against the stream: exactly the
    /// behaviour of `parse_spec`, both in what comes back and in where the
    /// cursor ends up.
    pub fn parse(&self, tokens: &mut Tokens) -> (r: Result<Vec<AstNode>, ParseError>)
        ensures
            final(tokens).toks() == old(tokens).toks(),
            final(tokens).idx() >= old(tokens).idx(),
            ({
                let o = parse_spec(*self, old(tokens).toks(), old(tokens).idx());
                &&& final(tokens).idx() == o.next()
                &&& match r {
                    Ok(nodes) => o is Matched && nodes_view(nodes@) == o.nodes(),
                    Err(e) => o is Failed && e == o.error(),
                }
            }),
        decreases remaining(tokens.toks(), tokens.idx()), comb_weight(*self),
    {
        let ghost toks = tokens.toks();
        let ghost i = tokens.idx();
        match self {
            Comb::Terminal { token } => {
                match tokens.next() {
                    None => Err(ParseError::UnexpectedEof),
                    Some(t) => {
                        if token.accepts(&t) {
                            let nodes: Vec<AstNode> = Vec::new();
                            proof {
                                assert(nodes_view(nodes@) =~= Seq::<AstNodeV>::empty());
                            }
                            Ok(nodes)
                        } else {
                            Err(ParseError::UnexpectedToken { found: t, expected: *token })
                        }
                    },
                }
            },
            Comb::Node { parser } => {
                match parse_rule(*parser, tokens) {
                    Ok(node) => {
                        let mut nodes: Vec<AstNode> = Vec::new();
                        nodes.push(node);
                        proof {
                            assert(nodes_view(nodes@) =~= seq![node_view(nodes@[0])]);
                        }
                        Ok(nodes)
                    },
                    Err(e) => Err(e),
                }
            },
            Comb::Sequence { current, next } => {
                let mut nodes = match current.parse(tokens) {
                    Ok(ns) => ns,
                    Err(e) => {
                        return Err(e);
                    },
                };
                let mut second = match next.parse(tokens) {
                    Ok(ns) => ns,
                    Err(e) => {
                        return Err(e);
                    },
                };
                proof {
                    crate::ast::lemma_nodes_view_concat(nodes@, second@);
                }
                nodes.append(&mut second);
                Ok(nodes)
            },
            Comb::Either { left, right } => {
                let saved = tokens.get_index();
                match left.parse(tokens) {
                    Ok(nodes) => Ok(nodes),
                    Err(_) => {
                        tokens.set_index(saved);
                        right.parse(tokens)
                    },
                }
            },
            Comb::Optional { inner } => {
                let saved = tokens.get_index();
                match inner.parse(tokens) {
                    Ok(nodes) => Ok(nodes),
                    Err(_) => {
                        tokens.set_index(saved);
                        let nodes: Vec<AstNode> = Vec::new();
                        proof {
                            assert(nodes_view(nodes@) =~= Seq::<AstNodeV>::empty());
                        }
                        Ok(nodes)
                    },
                }
            },
        }
    }
}

/// Runs one node rule against the stream.
fn parse_rule(r: Rule, tokens: &mut Tokens) -> (res: Result<AstNode, ParseError>)
    ensures
        final(tokens).toks() == old(tokens).toks(),
        final(tokens).idx() >= old(tokens).idx(),
        ({
            let o = rule_spec(r, old(tokens).toks(), old(tokens).idx());
            &&& final(tokens).idx() == o.next()
            &&& match res {
                Ok(n) => o is Matched && seq![node_view(n)] == o.nodes(),
                Err(e) => o is Failed && e == o.error(),
            }
        }),
    decreases remaining(tokens.toks(), tokens.idx()), rule_weight(r),
{
    match r {
        Rule::Id => Id::parse(tokens),
        Rule::Num => Num::parse(tokens),
        Rule::Expression => Expression::parse(tokens),
        Rule::Initialization => Initialization::parse(tokens),
        Rule::Statement => Statement::parse(tokens),
        Rule::Block => Block::parse(tokens),
        Rule::WhileLoop => WhileLoop::parse(tokens),
    }
}

impl Id {
    /// Consumes exactly one identifier token and yields its node; any other
    /// token is the wrong kind, and an exhausted stream is an end-of-input
    /// failure.
    pub fn parse(tokens: &mut Tokens) -> (r: Result<AstNode, ParseError>)
        ensures
            final(tokens).toks() == old(tokens).toks(),
            final(tokens).idx() >= old(tokens).idx(),
            ({
                let o = id_spec(old(tokens).toks(), old(tokens).idx());
                &&& final(tokens).idx() == o.next()
                &&& match r {
                    Ok(n) => o is Matched && seq![node_view(n)] == o.nodes(),
                    Err(e) => o is Failed && e == o.error(),
                }
            }),
    {
        let ghost toks = tokens.toks();
        let ghost i = tokens.idx();
        match tokens.next() {
            None => Err(ParseError::UnexpectedEof),
            Some(t) => match t {
                Token::Id { value, .. } => {
                    let node = AstNode::Id(Id(value));
                    proof {
                        assert(seq![node_view(node)] =~= id_spec(toks, i).nodes());
                    }
                    Ok(node)
                },
                other => Err(ParseError::WrongTokenKind { found: other, expected: Rule::Id }),
            },
        }
    }
}

impl Num {
    /// Consumes exactly one integer-literal token and yields its node.
    pub fn parse(tokens: &mut Tokens) -> (r: Result<AstNode, ParseError>)
        ensures
            final(tokens).toks() == old(tokens).toks(),
            final(tokens).idx() >= old(tokens).idx(),
            ({
                let o = num_spec(old(tokens).toks(), old(tokens).idx());
                &&& final(tokens).idx() == o.next()
                &&& match r {
                    Ok(n) => o is Matched && seq![node_view(n)] == o.nodes(),
                    Err(e) => o is Failed && e == o.error(),
                }
            }),
    {
        let ghost toks = tokens.toks();
        let ghost i = tokens.idx();
        match tokens.next() {
            None => Err(ParseError::UnexpectedEof),
            Some(t) => match t {
                Token::Num { value, .. } => {
                    let node = AstNode::Num(Num(value));
                    proof {
                        assert(seq![node_view(node)] =~= num_spec(toks, i).nodes());
                    }
                    Ok(node)
                },
                other => Err(ParseError::WrongTokenKind { found: other, expected: Rule::Num }),
            },
        }
    }
}

impl Expression {
    /// Parses an expression: a literal-or-identifier operand, then either a
    /// terminator (or the end of the stream) closes it, or `*`/`+` continues
    /// it with a full expression on the right. The right-hand side is the
    /// complete expression rule again, so the tree nests to the right and
    /// `+` and `*` share one precedence level.
    pub fn parse(tokens: &mut Tokens) -> (r: Result<AstNode, ParseError>)
        ensures
            final(tokens).toks() == old(tokens).toks(),
            final(tokens).idx() >= old(tokens).idx(),
            ({
                let o = expr_spec(old(tokens).toks(), old(tokens).idx());
                &&& final(tokens).idx() == o.next()
                &&& match r {
                    Ok(n) => o is Matched && seq![node_view(n)] == o.nodes(),
                    Err(e) => o is Failed && e == o.error(),
                }
            }),
        decreases remaining(tokens.toks(), tokens.idx()), 6nat,
    {
        let ghost toks = tokens.toks();
        let ghost i = tokens.idx();
        let matcher = Comb::node(Rule::Num).bitor(Comb::node(Rule::Id));
        proof {
            reveal_with_fuel(comb_weight, 10);
            assert(matcher == expr_lhs_matcher());
        }
        let mut lhs_nodes = match matcher.parse(tokens) {
            Ok(ns) => ns,
            Err(e) => {
                proof {
                    if !(0 <= i < toks.len()) {
                        assert(num_spec(toks, i) == (ParseOut::Failed {
                            error: ParseError::UnexpectedEof,
                            next: i,
                        }));
                        assert(id_spec(toks, i) == (ParseOut::Failed {
                            error: ParseError::UnexpectedEof,
                            next: i,
                        }));
                        assert(parse_spec(Comb::Node { parser: Rule::Num }, toks, i) == rule_spec(
                            Rule::Num,
                            toks,
                            i,
                        ));
                        assert(parse_spec(Comb::Node { parser: Rule::Id }, toks, i) == rule_spec(
                            Rule::Id,
                            toks,
                            i,
                        ));
                    }
                }
                return Err(e);
            },
        };
        proof {
            lemma_expr_lhs_facts(toks, i);
        }
        let node = match lhs_nodes.pop() {
            Some(n) => n,
            None => {
                proof {
                    assert(false);
                }
                return Err(ParseError::UnexpectedEof);
            },
        };
        let ghost lhs_out = parse_spec(expr_lhs_matcher(), toks, i);
        proof {
            assert(nodes_view(lhs_nodes@.push(node))[0] == node_view(node));
            assert(node_view(node) == lhs_out.nodes()[0]);
        }
        let operand = match node {
            AstNode::Id(id) => Expression::Id(id),
            AstNode::Num(num) => Expression::Num(num),
            _ => {
                proof {
                    assert(false);
                }
                return Err(ParseError::UnexpectedEof);
            },
        };
        proof {
            assert(expr_view(operand) == node_expr(lhs_out.nodes()[0]));
        }
        proof {
            assert(parse_spec(Comb::Node { parser: Rule::Expression }, toks, i + 2) == rule_spec(
                Rule::Expression,
                toks,
                i + 2,
            ));
            assert(rule_spec(Rule::Expression, toks, i + 2) == expr_spec(toks, i + 2));
        }
        let next_token = match tokens.peek() {
            Some(t) => Some(t.dup()),
            None => None,
        };
        match next_token {
            None => Ok(AstNode::Expression(operand)),
            Some(t) => match t {
                Token::Semicolon { .. } => Ok(AstNode::Expression(operand)),
                Token::RParen { .. } => Ok(AstNode::Expression(operand)),
                Token::Times { .. } => {
                    let _ = tokens.next();
                    let rhs_matcher = Comb::node(Rule::Expression);
                    let mut rhs_nodes = match rhs_matcher.parse(tokens) {
                        Ok(ns) => ns,
                        Err(e) => {
                            proof {
                                assert(expr_spec(toks, i) == expr_spec(toks, i + 2));
                            }
                            return Err(e);
                        },
                    };
                    proof {
                        lemma_rule_shape(Rule::Expression, toks, i + 2);
                    }
                    let rhs_node = match rhs_nodes.pop() {
                        Some(n) => n,
                        None => {
                            proof {
                                assert(false);
                            }
                            return Err(ParseError::UnexpectedEof);
                        },
                    };
                    proof {
                        assert(nodes_view(rhs_nodes@.push(rhs_node))[0] == node_view(rhs_node));
                    }
                    let rhs = match rhs_node {
                        AstNode::Expression(e) => e,
                        _ => {
                            proof {
                                assert(false);
                            }
                            return Err(ParseError::UnexpectedEof);
                        },
                    };
                    Ok(
                        AstNode::Expression(
                            Expression::Multiplication(Box::new(operand), Box::new(rhs)),
                        ),
                    )
                },
                Token::Plus { .. } => {
                    let _ = tokens.next();
                    let rhs_matcher = Comb::node(Rule::Expression);
                    let mut rhs_nodes = match rhs_matcher.parse(tokens) {
                        Ok(ns) => ns,
                        Err(e) => {
                            proof {
                                assert(expr_spec(toks, i) == expr_spec(toks, i + 2));
                            }
                            return Err(e);
                        },
                    };
                    proof {
                        lemma_rule_shape(Rule::Expression, toks, i + 2);
                    }
                    let rhs_node = match rhs_nodes.pop() {
                        Some(n) => n,
                        None => {
                            proof {
                                assert(false);
                            }
                            return Err(ParseError::UnexpectedEof);
                        },
                    };
                    proof {
                        assert(nodes_view(rhs_nodes@.push(rhs_node))[0] == node_view(rhs_node));
                    }
                    let rhs = match rhs_node {
                        AstNode::Expression(e) => e,
                        _ => {
                            proof {
                                assert(false);
                            }
                            return Err(ParseError::UnexpectedEof);
                        },
                    };
                    Ok(AstNode::Expression(Expression::Addition(Box::new(operand), Box::new(rhs))))
                },
                other => Err(ParseError::UnhandledConstruct { found: other }),
            },
        }
    }
}

impl Initialization {
    /// Parses `let <identifier> = <expression> ;` through its matcher and
    /// yields one initialization statement node.
    pub fn parse(tokens: &mut Tokens) -> (r: Result<AstNode, ParseError>)
        ensures
            final(tokens).toks() == old(tokens).toks(),
            final(tokens).idx() >= old(tokens).idx(),
            ({
                let o = init_spec(old(tokens).toks(), old(tokens).idx());
                &&& final(tokens).idx() == o.next()
                &&& match r {
                    Ok(n) => o is Matched && seq![node_view(n)] == o.nodes(),
                    Err(e) => o is Failed && e == o.error(),
                }
            }),
        decreases remaining(tokens.toks(), tokens.idx()), 18nat,
    {
        let ghost toks = tokens.toks();
        let ghost i = tokens.idx();
        let matcher = Comb::terminal(Terminal::Let).shr(Comb::node(Rule::Id)).shr(
            Comb::terminal(Terminal::Eq),
        ).shr(Comb::node(Rule::Expression)).shr(Comb::terminal(Terminal::Semicolon));
        proof {
            reveal_with_fuel(comb_weight, 12);
            assert(matcher == init_matcher());
        }
        let mut ns = match matcher.parse(tokens) {
            Ok(ns) => ns,
            Err(e) => {
                return Err(e);
            },
        };
        proof {
            lemma_init_matcher_facts(toks, i);
        }
        let ghost o = parse_spec(init_matcher(), toks, i);
        let value_node = match ns.pop() {
            Some(n) => n,
            None => {
                proof {
                    assert(false);
                }
                return Err(ParseError::UnexpectedEof);
            },
        };
        let name_node = match ns.pop() {
            Some(n) => n,
            None => {
                proof {
                    assert(false);
                }
                return Err(ParseError::UnexpectedEof);
            },
        };
        proof {
            assert(nodes_view(ns@.push(name_node).push(value_node))[0] == node_view(name_node));
            assert(nodes_view(ns@.push(name_node).push(value_node))[1] == node_view(value_node));
        }
        let name = match name_node {
            AstNode::Id(id) => id,
            _ => {
                proof {
                    assert(false);
                }
                return Err(ParseError::UnexpectedEof);
            },
        };
        let value = match value_node {
            AstNode::Expression(e) => e,
            _ => {
                proof {
                    assert(false);
                }
                return Err(ParseError::UnexpectedEof);
            },
        };
        Ok(AstNode::Statement(Statement::Initialization(Initialization { name, value })))
    }
}

impl Statement {
    /// Parses one statement: an initialization where one starts here, else a
    /// while loop, rewrapped as a statement node.
    pub fn parse(tokens: &mut Tokens) -> (r: Result<AstNode, ParseError>)
        ensures
            final(tokens).toks() == old(tokens).toks(),
            final(tokens).idx() >= old(tokens).idx(),
            ({
                let o = stmt_spec(old(tokens).toks(), old(tokens).idx());
                &&& final(tokens).idx() == o.next()
                &&& match r {
                    Ok(n) => o is Matched && seq![node_view(n)] == o.nodes(),
                    Err(e) => o is Failed && e == o.error(),
                }
            }),
        decreases remaining(tokens.toks(), tokens.idx()), 44nat,
    {
        let ghost toks = tokens.toks();
        let ghost i = tokens.idx();
        let matcher = Comb::node(Rule::Initialization).bitor(Comb::node(Rule::WhileLoop));
        proof {
            reveal_with_fuel(comb_weight, 12);
            assert(matcher == stmt_matcher());
        }
        let mut ns = match matcher.parse(tokens) {
            Ok(ns) => ns,
            Err(e) => {
                return Err(e);
            },
        };
        proof {
            lemma_stmt_matcher_facts(toks, i);
        }
        let node = match ns.pop() {
            Some(n) => n,
            None => {
                proof {
                    assert(false);
                }
                return Err(ParseError::UnexpectedEof);
            },
        };
        proof {
            assert(nodes_view(ns@.push(node))[0] == node_view(node));
        }
        match node {
            AstNode::Statement(s) => Ok(AstNode::Statement(s)),
            AstNode::WhileLoop(w) => Ok(AstNode::Statement(Statement::WhileLoop(w))),
            _ => {
                proof {
                    assert(false);
                }
                Err(ParseError::UnexpectedEof)
            },
        }
    }
}

impl WhileLoop {
    /// Parses `while ( <expression> ) <block>` through its matcher and
    /// yields one while-loop node.
    pub fn parse(tokens: &mut Tokens) -> (r: Result<AstNode, ParseError>)
        ensures
            final(tokens).toks() == old(tokens).toks(),
            final(tokens).idx() >= old(tokens).idx(),
            ({
                let o = while_spec(old(tokens).toks(), old(tokens).idx());
                &&& final(tokens).idx() == o.next()
                &&& match r {
                    Ok(n) => o is Matched && seq![node_view(n)] == o.nodes(),
                    Err(e) => o is Failed && e == o.error(),
                }
            }),
        decreases remaining(tokens.toks(), tokens.idx()), 20nat,
    {
        let ghost toks = tokens.toks();
        let ghost i = tokens.idx();
        let matcher = Comb::terminal(Terminal::While).shr(Comb::terminal(Terminal::LParen)).shr(
            Comb::node(Rule::Expression),
        ).shr(Comb::terminal(Terminal::RParen)).shr(Comb::node(Rule::Block));
        proof {
            reveal_with_fuel(comb_weight, 12);
            assert(matcher == while_matcher());
        }
        let mut ns = match matcher.parse(tokens) {
            Ok(ns) => ns,
            Err(e) => {
                return Err(e);
            },
        };
        proof {
            lemma_while_matcher_facts(toks, i);
        }
        let block_node = match ns.pop() {
            Some(n) => n,
            None => {
                proof {
                    assert(false);
                }
                return Err(ParseError::UnexpectedEof);
            },
        };
        let cond_node = match ns.pop() {
            Some(n) => n,
            None => {
                proof {
                    assert(false);
                }
                return Err(ParseError::UnexpectedEof);
            },
        };
        proof {
            assert(nodes_view(ns@.push(cond_node).push(block_node))[0] == node_view(cond_node));
            assert(nodes_view(ns@.push(cond_node).push(block_node))[1] == node_view(block_node));
        }
        let condition = match cond_node {
            AstNode::Expression(e) => e,
            _ => {
                proof {
                    assert(false);
                }
                return Err(ParseError::UnexpectedEof);
            },
        };
        let block = match block_node {
            AstNode::Block(b) => b,
            _ => {
                proof {
                    assert(false);
                }
                return Err(ParseError::UnexpectedEof);
            },
        };
        Ok(AstNode::WhileLoop(WhileLoop { condition, block }))
    }
}

impl Block {
    /// Parses `{ <statement>* }`: statements are tried one after the other,
    /// each attempt's cursor restored where it fails, until the closing
    /// brace.
    pub fn parse(tokens: &mut Tokens) -> (r: Result<AstNode, ParseError>)
        ensures
            final(tokens).toks() == old(tokens).toks(),
            final(tokens).idx() >= old(tokens).idx(),
            ({
                let o = block_spec(old(tokens).toks(), old(tokens).idx());
                &&& final(tokens).idx() == o.next()
                &&& match r {
                    Ok(n) => o is Matched && seq![node_view(n)] == o.nodes(),
                    Err(e) => o is Failed && e == o.error(),
                }
            }),
        decreases remaining(tokens.toks(), tokens.idx()), 2nat,
    {
        let ghost toks = tokens.toks();
        let ghost i = tokens.idx();
        let open_brace = Comb::terminal(Terminal::LBrace);
        match open_brace.parse(tokens) {
            Ok(_) => {},
            Err(e) => {
                return Err(e);
            },
        }
        let mut statements: Vec<Statement> = Vec::new();
        loop
            invariant
                tokens.toks() == toks,
                toks == old(tokens).toks(),
                i == old(tokens).idx(),
                0 <= i,
                i + 1 <= tokens.idx(),
                i < toks.len(),
                stmts_spec(toks, i + 1).0 == stmts_views(statements@) + stmts_spec(
                    toks,
                    tokens.idx(),
                ).0,
                stmts_spec(toks, i + 1).1 == stmts_spec(toks, tokens.idx()).1,
            ensures
                tokens.toks() == toks,
                i + 1 <= tokens.idx(),
                stmts_spec(toks, i + 1).0 == stmts_views(statements@),
                stmts_spec(toks, i + 1).1 == tokens.idx(),
            decreases remaining(toks, tokens.idx()),
        {
            let save = tokens.get_index();
            let ghost cur = tokens.idx();
            let stmt_comb = Comb::node(Rule::Statement);
            proof {
                reveal_with_fuel(comb_weight, 4);
            }
            match stmt_comb.parse(tokens) {
                Ok(mut ns) => {
                    proof {
                        lemma_rule_shape(Rule::Statement, toks, cur);
                        lemma_stmt_facts(toks, cur);
                    }
                    let node = match ns.pop() {
                        Some(n) => n,
                        None => {
                            proof {
                                assert(false);
                            }
                            return Err(ParseError::UnexpectedEof);
                        },
                    };
                    proof {
                        assert(nodes_view(ns@.push(node))[0] == node_view(node));
                    }
                    let s = match node {
                        AstNode::Statement(s) => s,
                        _ => {
                            proof {
                                assert(false);
                            }
                            return Err(ParseError::UnexpectedEof);
                        },
                    };
                    proof {
                        crate::ast::lemma_stmts_views_push(statements@, s);
                        let after = stmts_spec(toks, tokens.idx());
                        assert(stmts_spec(toks, cur).0 == seq![stmt_view(s)] + after.0);
                        assert((stmts_views(statements@) + (seq![stmt_view(s)] + after.0))
                            =~= ((stmts_views(statements@) + seq![stmt_view(s)]) + after.0));
                    }
                    statements.push(s);
                },
                Err(_) => {
                    tokens.set_index(save);
                    proof {
                        assert(stmts_spec(toks, cur).0 == Seq::<StatementV>::empty());
                        assert(stmts_spec(toks, cur).1 == cur);
                        assert((stmts_views(statements@) + Seq::<StatementV>::empty())
                            =~= stmts_views(statements@));
                    }
                    break ;
                },
            }
        }
        let ghost j = tokens.idx();
        let close_brace = Comb::terminal(Terminal::RBrace);
        match close_brace.parse(tokens) {
            Ok(_) => {
                let node = AstNode::Block(Block { statements });
                proof {
                    assert(seq![node_view(node)] =~= block_spec(toks, i).nodes());
                }
                Ok(node)
            },
            Err(e) => Err(e),
        }
    }
}

} // verus!
