//! The syntax tree: expressions, statements, and the error that a failed
//! parse reports.
use vstd::prelude::*;
use crate::token::{TokenKind, TokenType};

verus! {

/// The one prefix operator.
#[derive(Debug, Clone, Copy, PartialEq, Eq, Structural)]
pub enum UnaryOperator {
    Not,
}

/// The infix operators.
#[derive(Debug, Clone, Copy, PartialEq, Eq, Structural)]
pub enum BinaryOperator {
    Or,
    And,
    Lt,
    Lte,
    Gt,
    Gte,
    Eq,
    Neq,
    Add,
    Subtract,
    Multiply,
    Divide,
    Power,
}

/// The infix operator that a token kind stands for, if it stands for one.
pub open spec fn binary_operator(kind: TokenKind) -> Option<BinaryOperator> {
    match kind {
        TokenKind::Or => Some(BinaryOperator::Or),
        TokenKind::And => Some(BinaryOperator::And),
        TokenKind::Lt => Some(BinaryOperator::Lt),
        TokenKind::Lte => Some(BinaryOperator::Lte),
        TokenKind::Gt => Some(BinaryOperator::Gt),
        TokenKind::Gte => Some(BinaryOperator::Gte),
        TokenKind::Eq => Some(BinaryOperator::Eq),
        TokenKind::Neq => Some(BinaryOperator::Neq),
        TokenKind::Add => Some(BinaryOperator::Add),
        TokenKind::Subtract => Some(BinaryOperator::Subtract),
        TokenKind::Multiply => Some(BinaryOperator::Multiply),
        TokenKind::Divide => Some(BinaryOperator::Divide),
        TokenKind::Power => Some(BinaryOperator::Power),
        _ => None,
    }
}

/// How tightly an operator binds, from 1 for the loosest: `or`; `and`; the
/// comparisons; `+` and `-`; `*` and `/`; `^`.
pub open spec fn precedence(operator: BinaryOperator) -> int {
    match operator {
        BinaryOperator::Or => 1,
        BinaryOperator::And => 2,
        BinaryOperator::Lt => 3,
        BinaryOperator::Lte => 3,
        BinaryOperator::Gt => 3,
        BinaryOperator::Gte => 3,
        BinaryOperator::Eq => 3,
        BinaryOperator::Neq => 3,
        BinaryOperator::Add => 4,
        BinaryOperator::Subtract => 4,
        BinaryOperator::Multiply => 5,
        BinaryOperator::Divide => 5,
        BinaryOperator::Power => 6,
    }
}

/// Only `^` groups to the right.
pub open spec fn right_associative(operator: BinaryOperator) -> bool {
    operator == BinaryOperator::Power
}

/// The least precedence that an operator admits in its right operand.
pub open spec fn right_floor(operator: BinaryOperator) -> int {
    if right_associative(operator) {
        precedence(operator)
    } else {
        precedence(operator) + 1
    }
}

impl BinaryOperator {
    /// The infix operator that a token stands for, if it stands for one.
    pub fn from_token(token: &TokenType) -> (r: Option<BinaryOperator>)
        ensures
            r == binary_operator(token@),
    {
        match token {
            TokenType::Or => Some(BinaryOperator::Or),
            TokenType::And => Some(BinaryOperator::And),
            TokenType::Lt => Some(BinaryOperator::Lt),
            TokenType::Lte => Some(BinaryOperator::Lte),
            TokenType::Gt => Some(BinaryOperator::Gt),
            TokenType::Gte => Some(BinaryOperator::Gte),
            TokenType::Eq => Some(BinaryOperator::Eq),
            TokenType::Neq => Some(BinaryOperator::Neq),
            TokenType::Add => Some(BinaryOperator::Add),
            TokenType::Subtract => Some(BinaryOperator::Subtract),
            TokenType::Multiply => Some(BinaryOperator::Multiply),
            TokenType::Divide => Some(BinaryOperator::Divide),
            TokenType::Power => Some(BinaryOperator::Power),
            _ => None,
        }
    }

    /// How tightly the operator binds.
    pub fn precedence(self) -> (r: u8)
        ensures
            r as int == precedence(self),
    {
        match self {
            BinaryOperator::Or => 1,
            BinaryOperator::And => 2,
            BinaryOperator::Lt => 3,
            BinaryOperator::Lte => 3,
            BinaryOperator::Gt => 3,
            BinaryOperator::Gte => 3,
            BinaryOperator::Eq => 3,
            BinaryOperator::Neq => 3,
            BinaryOperator::Add => 4,
            BinaryOperator::Subtract => 4,
            BinaryOperator::Multiply => 5,
            BinaryOperator::Divide => 5,
            BinaryOperator::Power => 6,
        }
    }

    /// The least precedence that the operator admits in its right operand.
    pub fn right_floor(self) -> (r: u8)
        ensures
            r as int == right_floor(self),
    {
        match self {
            BinaryOperator::Power => 6,
            other => other.precedence() + 1,
        }
    }
}

/// An expression.
#[derive(Debug, PartialEq)]
#[allow(inconsistent_fields)]
pub enum Expression {
    IntegerLiteral(i64),
    /// A floating-point literal, kept as the text that wrote it.
    FloatLiteral(String),
    StringLiteral(String),
    BooleanLiteral(bool),
    Variable(String),
    FunctionCall { name: String, params: Vec<Expression> },
    UnaryOperation { operator: UnaryOperator, operand: Box<Expression> },
    BinaryOperation { left: Box<Expression>, operator: BinaryOperator, right: Box<Expression> },
}

/// An expression as a mathematical value.
#[allow(inconsistent_fields)]
pub enum ExpressionView {
    IntegerLiteral(int),
    FloatLiteral(Seq<char>),
    StringLiteral(Seq<char>),
    BooleanLiteral(bool),
    Variable(Seq<char>),
    FunctionCall { name: Seq<char>, params: Seq<ExpressionView> },
    UnaryOperation { operator: UnaryOperator, operand: Box<ExpressionView> },
    BinaryOperation {
        left: Box<ExpressionView>,
        operator: BinaryOperator,
        right: Box<ExpressionView>,
    },
}

impl Expression {
    /// The expression as a mathematical value.
    pub open spec fn model(&self) -> ExpressionView
        decreases self,
    {
        match self {
            Expression::IntegerLiteral(value) => ExpressionView::IntegerLiteral(*value as int),
            Expression::FloatLiteral(text) => ExpressionView::FloatLiteral(text@),
            Expression::StringLiteral(text) => ExpressionView::StringLiteral(text@),
            Expression::BooleanLiteral(value) => ExpressionView::BooleanLiteral(*value),
            Expression::Variable(name) => ExpressionView::Variable(name@),
            Expression::FunctionCall { name, params } => ExpressionView::FunctionCall {
                name: name@,
                params: Seq::new(
                    params.len() as nat,
                    |i: int|
                        if 0 <= i < params.len() {
                            params[i].model()
                        } else {
                            ExpressionView::BooleanLiteral(false)
                        },
                ),
            },
            Expression::UnaryOperation { operator, operand } => ExpressionView::UnaryOperation {
                operator: *operator,
                operand: Box::new(operand.model()),
            },
            Expression::BinaryOperation { left, operator, right } => {
                ExpressionView::BinaryOperation {
                    left: Box::new(left.model()),
                    operator: *operator,
                    right: Box::new(right.model()),
                }
            },
        }
    }
}

impl View for Expression {
    type V = ExpressionView;

    open spec fn view(&self) -> ExpressionView {
        self.model()
    }
}

/// The views of a run of expressions.
pub open spec fn expression_views(items: Seq<Expression>) -> Seq<ExpressionView> {
    Seq::new(items.len(), |i: int| items[i]@)
}

/// The views of a run of names.
pub open spec fn name_views(names: Seq<String>) -> Seq<Seq<char>> {
    Seq::new(names.len(), |i: int| names[i]@)
}

/// A statement, or the whole program.
#[derive(Debug, PartialEq)]
pub enum ASTNode {
    Program(Vec<ASTNode>),
    Function { name: String, params: Vec<String>, body: Vec<ASTNode> },
    VariableDeclaration { name: String, value: Expression },
    IfStatement {
        condition: Expression,
        then_branch: Vec<ASTNode>,
        elif_branches: Vec<(Expression, Vec<ASTNode>)>,
        else_branch: Option<Vec<ASTNode>>,
    },
    ForLoop { control: Vec<Expression>, body: Vec<ASTNode> },
    UntilLoop { condition: Expression, body: Vec<ASTNode> },
    ReturnStatement(Expression),
    ExpressionStatement(Expression),
    Break,
    Continue,
}

/// A statement, or the whole program, as a mathematical value.
pub enum NodeView {
    Program(Seq<NodeView>),
    Function { name: Seq<char>, params: Seq<Seq<char>>, body: Seq<NodeView> },
    VariableDeclaration { name: Seq<char>, value: ExpressionView },
    IfStatement {
        condition: ExpressionView,
        then_branch: Seq<NodeView>,
        elif_branches: Seq<(ExpressionView, Seq<NodeView>)>,
        else_branch: Option<Seq<NodeView>>,
    },
    ForLoop { control: Seq<ExpressionView>, body: Seq<NodeView> },
    UntilLoop { condition: ExpressionView, body: Seq<NodeView> },
    ReturnStatement(ExpressionView),
    ExpressionStatement(ExpressionView),
    Break,
    Continue,
}

impl ASTNode {
    /// The node as a mathematical value.
    pub open spec fn model(&self) -> NodeView
        decreases self,
    {
        match self {
            ASTNode::Program(statements) => NodeView::Program(Self::block_model(statements)),
            ASTNode::Function { name, params, body } => NodeView::Function {
                name: name@,
                params: name_views(params@),
                body: Self::block_model(body),
            },
            ASTNode::VariableDeclaration { name, value } => NodeView::VariableDeclaration {
                name: name@,
                value: value@,
            },
            ASTNode::IfStatement { condition, then_branch, elif_branches, else_branch } => {
                NodeView::IfStatement {
                    condition: condition@,
                    then_branch: Self::block_model(then_branch),
                    elif_branches: Seq::new(
                        elif_branches.len() as nat,
                        |i: int|
                            if 0 <= i < elif_branches.len() {
                                (elif_branches[i].0@, Self::block_model(&elif_branches[i].1))
                            } else {
                                (ExpressionView::BooleanLiteral(false), Seq::empty())
                            },
                    ),
                    else_branch: match else_branch {
                        Some(statements) => Some(Self::block_model(statements)),
                        None => None,
                    },
                }
            },
            ASTNode::ForLoop { control, body } => NodeView::ForLoop {
                control: expression_views(control@),
                body: Self::block_model(body),
            },
            ASTNode::UntilLoop { condition, body } => NodeView::UntilLoop {
                condition: condition@,
                body: Self::block_model(body),
            },
            ASTNode::ReturnStatement(value) => NodeView::ReturnStatement(value@),
            ASTNode::ExpressionStatement(value) => NodeView::ExpressionStatement(value@),
            ASTNode::Break => NodeView::Break,
            ASTNode::Continue => NodeView::Continue,
        }
    }

    /// A run of statements as a mathematical value.
    pub open spec fn block_model(statements: &Vec<ASTNode>) -> Seq<NodeView>
        decreases statements,
    {
        Seq::new(
            statements.len() as nat,
            |i: int|
                if 0 <= i < statements.len() {
                    statements[i].model()
                } else {
                    NodeView::Break
                },
        )
    }
}

impl View for ASTNode {
    type V = NodeView;

    open spec fn view(&self) -> NodeView {
        self.model()
    }
}

/// The views of a run of nodes.
pub open spec fn node_views(nodes: Seq<ASTNode>) -> Seq<NodeView> {
    Seq::new(nodes.len(), |i: int| nodes[i]@)
}

/// The views of the `elif` branches of a conditional.
pub open spec fn branch_views(branches: Seq<(Expression, Vec<ASTNode>)>) -> Seq<
    (ExpressionView, Seq<NodeView>),
> {
    Seq::new(branches.len(), |i: int| (branches[i].0@, node_views(branches[i].1@)))
}

/// Why a parse failed: the line, what was expected there, and the token that
/// was found instead.
#[derive(Debug, PartialEq)]
pub struct ParseError {
    pub line_number: i32,
    pub expected: String,
    pub found: TokenType,
}

/// A parse error as a mathematical value.
pub struct ParseErrorView {
    pub line: int,
    pub expected: Seq<char>,
    pub found: TokenKind,
}

impl View for ParseError {
    type V = ParseErrorView;

    open spec fn view(&self) -> ParseErrorView {
        ParseErrorView {
            line: self.line_number as int,
            expected: self.expected@,
            found: self.found@,
        }
    }
}

} // verus!
