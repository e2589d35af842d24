//! The abstract syntax tree the parser produces.
//!
//! Nodes are built bottom-up during combinator evaluation and never mutated
//! afterwards; children are exclusively owned, so every tree is finite and
//! acyclic by construction. Each node type has a mathematical image (its
//! view) over character sequences and `Seq`, which the parsing contracts
//! speak of. The parsing functions themselves live beside the engine in
//! `combinators`, since the grammar rules and the interpreter are mutually
//! recursive.

use vstd::prelude::*;

verus! {

/// An identifier, as its source spelling.
#[derive(Debug, PartialEq, Eq)]
pub struct Id(pub String);

/// An integer literal.
#[derive(Debug, PartialEq, Eq)]
pub struct Num(pub u64);

/// An expression: a bare operand, or a sum or product whose operands are
/// exclusively owned sub-expressions.
#[derive(Debug, PartialEq, Eq)]
pub enum Expression {
    Id(Id),
    Num(Num),
    Addition(Box<Expression>, Box<Expression>),
    Multiplication(Box<Expression>, Box<Expression>),
}

/// A `let <name> = <value>;` statement.
#[derive(Debug, PartialEq, Eq)]
pub struct Initialization {
    pub name: Id,
    pub value: Expression,
}

/// A statement: an initialization or a while loop.
#[derive(Debug, PartialEq, Eq)]
pub enum Statement {
    Initialization(Initialization),
    WhileLoop(WhileLoop),
}

/// Zero or more statements between braces.
#[derive(Debug, PartialEq, Eq)]
pub struct Block {
    pub statements: Vec<Statement>,
}

/// A `while (<condition>) <block>` loop.
#[derive(Debug, PartialEq, Eq)]
pub struct WhileLoop {
    pub condition: Expression,
    pub block: Block,
}

/// Any node a grammar rule can produce.
#[derive(Debug, PartialEq, Eq)]
pub enum AstNode {
    Id(Id),
    Num(Num),
    Expression(Expression),
    Statement(Statement),
    Block(Block),
    WhileLoop(WhileLoop),
}

/// Mathematical image of an `Expression`: identifiers as character
/// sequences.
pub enum ExpressionV {
    Id(Seq<char>),
    Num(u64),
    Addition(Box<ExpressionV>, Box<ExpressionV>),
    Multiplication(Box<ExpressionV>, Box<ExpressionV>),
}

/// Mathematical image of an `Initialization`.
pub struct InitializationV {
    pub name: Seq<char>,
    pub value: ExpressionV,
}

/// Mathematical image of a `Statement`.
pub enum StatementV {
    Initialization(InitializationV),
    WhileLoop(WhileLoopV),
}

/// Mathematical image of a `Block`: its statements as a sequence.
pub struct BlockV {
    pub statements: Seq<StatementV>,
}

/// Mathematical image of a `WhileLoop`.
pub struct WhileLoopV {
    pub condition: ExpressionV,
    pub block: BlockV,
}

/// Mathematical image of an `AstNode`.
pub enum AstNodeV {
    Id(Seq<char>),
    Num(u64),
    Expression(ExpressionV),
    Statement(StatementV),
    Block(BlockV),
    WhileLoop(WhileLoopV),
}

pub open spec fn expr_view(e: Expression) -> ExpressionV
    decreases e,
{
    match e {
        Expression::Id(id) => ExpressionV::Id(id.0@),
        Expression::Num(num) => ExpressionV::Num(num.0),
        Expression::Addition(l, r) => ExpressionV::Addition(
            Box::new(expr_view(*l)),
            Box::new(expr_view(*r)),
        ),
        Expression::Multiplication(l, r) => ExpressionV::Multiplication(
            Box::new(expr_view(*l)),
            Box::new(expr_view(*r)),
        ),
    }
}

pub open spec fn init_view(i: Initialization) -> InitializationV {
    InitializationV { name: i.name.0@, value: expr_view(i.value) }
}

pub open spec fn stmt_view(s: Statement) -> StatementV
    decreases s,
{
    match s {
        Statement::Initialization(i) => StatementV::Initialization(
            InitializationV { name: i.name.0@, value: expr_view(i.value) },
        ),
        Statement::WhileLoop(w) => StatementV::WhileLoop(while_view(w)),
    }
}

pub open spec fn stmts_views(ss: Seq<Statement>) -> Seq<StatementV>
    decreases ss,
{
    if ss.len() == 0 {
        Seq::empty()
    } else {
        seq![stmt_view(ss[0])] + stmts_views(ss.drop_first())
    }
}

pub open spec fn block_view(b: Block) -> BlockV
    decreases b,
{
    BlockV { statements: stmts_views(b.statements@) }
}

pub open spec fn while_view(w: WhileLoop) -> WhileLoopV
    decreases w,
{
    WhileLoopV { condition: expr_view(w.condition), block: block_view(w.block) }
}

pub open spec fn node_view(n: AstNode) -> AstNodeV {
    match n {
        AstNode::Id(id) => AstNodeV::Id(id.0@),
        AstNode::Num(num) => AstNodeV::Num(num.0),
        AstNode::Expression(e) => AstNodeV::Expression(expr_view(e)),
        AstNode::Statement(s) => AstNodeV::Statement(stmt_view(s)),
        AstNode::Block(b) => AstNodeV::Block(block_view(b)),
        AstNode::WhileLoop(w) => AstNodeV::WhileLoop(while_view(w)),
    }
}

/// The views of a vector of nodes, in order.
pub open spec fn nodes_view(nodes: Seq<AstNode>) -> Seq<AstNodeV> {
    nodes.map_values(|n: AstNode| node_view(n))
}

pub proof fn lemma_nodes_view_concat(a: Seq<AstNode>, b: Seq<AstNode>)
    ensures
        nodes_view(a + b) == nodes_view(a) + nodes_view(b),
{
    assert(nodes_view(a + b) =~= nodes_view(a) + nodes_view(b));
}

pub proof fn lemma_stmts_views_push(ss: Seq<Statement>, s: Statement)
    ensures
        stmts_views(ss.push(s)) == stmts_views(ss) + seq![stmt_view(s)],
    decreases ss.len(),
{
    if ss.len() == 0 {
        assert(ss.push(s).drop_first() =~= Seq::<Statement>::empty());
        assert(ss.push(s)[0] == s);
        assert(stmts_views(Seq::<Statement>::empty()) =~= Seq::<StatementV>::empty());
        assert(stmts_views(ss.push(s)) == seq![stmt_view(s)] + stmts_views(
            ss.push(s).drop_first(),
        ));
        assert(seq![stmt_view(s)] + Seq::<StatementV>::empty() =~= seq![stmt_view(s)]);
        assert(stmts_views(ss) =~= Seq::<StatementV>::empty());
        assert(stmts_views(ss) + seq![stmt_view(s)] =~= seq![stmt_view(s)]);
    } else {
        lemma_stmts_views_push(ss.drop_first(), s);
        assert(ss.push(s).drop_first() =~= ss.drop_first().push(s));
        assert(ss.push(s)[0] == ss[0]);
        assert(stmts_views(ss.push(s)) =~= stmts_views(ss) + seq![stmt_view(s)]);
    }
}

} // verus!
