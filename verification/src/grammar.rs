//! The grammar, as functions from a token sequence and a position to a
//! tree and the position after it, or to the first error.
//!
//! Positions count tokens from 0. Beyond the last token the input reads as
//! ended, so a sequence need not close with an end-of-input token.
use vstd::prelude::*;
use crate::ast::{
    binary_operator, precedence, right_floor, ExpressionView, NodeView, ParseErrorView,
    UnaryOperator,
};
use crate::token::{TokenKind, TokenView};

verus! {

/// A tree with the position after it, or the error that ended the parse.
pub type Parsed<T> = Result<(T, int), ParseErrorView>;

/// The kind of the token at a position; end of input beyond the last token.
pub open spec fn kind_at(tokens: Seq<TokenView>, pos: int) -> TokenKind {
    if 0 <= pos < tokens.len() {
        tokens[pos].kind
    } else {
        TokenKind::Eof
    }
}

/// The line of the token at a position; beyond the last token, the line of
/// the last token, and 1 where there is none.
pub open spec fn line_at(tokens: Seq<TokenView>, pos: int) -> int {
    if 0 <= pos < tokens.len() {
        tokens[pos].line
    } else if tokens.len() > 0 {
        tokens.last().line
    } else {
        1
    }
}

/// The error for a token that is not what was expected at its position.
pub open spec fn failure(tokens: Seq<TokenView>, pos: int, expected: Seq<char>) -> ParseErrorView {
    ParseErrorView { line: line_at(tokens, pos), expected, found: kind_at(tokens, pos) }
}

/// `next` lies after `pos` and not beyond the end of the tokens.
///
/// Every parse that succeeds moves forward in this sense. The definitions
/// below test it wherever they go on from a position that another parse
/// returned, which is what shows that they end; the other branch of such a
/// test is never taken.
pub open spec fn forward(tokens: Seq<TokenView>, pos: int, next: int) -> bool {
    pos < next <= tokens.len()
}

/// The value of the branch that is never taken.
pub open spec fn stalled(tokens: Seq<TokenView>, pos: int) -> ParseErrorView {
    failure(tokens, pos, "no progress"@)
}

/// A primary expression: a literal, a variable, a call, or an expression
/// in parentheses.
pub open spec fn parse_primary(tokens: Seq<TokenView>, pos: int) -> Parsed<ExpressionView>
    decreases tokens.len() - pos, 2int,
{
    match kind_at(tokens, pos) {
        TokenKind::Integer(value) => Ok((ExpressionView::IntegerLiteral(value), pos + 1)),
        TokenKind::Float(text) => Ok((ExpressionView::FloatLiteral(text), pos + 1)),
        TokenKind::StringLiteral(text) => Ok((ExpressionView::StringLiteral(text), pos + 1)),
        TokenKind::True => Ok((ExpressionView::BooleanLiteral(true), pos + 1)),
        TokenKind::False => Ok((ExpressionView::BooleanLiteral(false), pos + 1)),
        TokenKind::Identifier(name) => if kind_at(tokens, pos + 1) is OpenParenthesis {
            match parse_arguments(tokens, pos + 2) {
                Ok((params, next)) => Ok((ExpressionView::FunctionCall { name, params }, next)),
                Err(error) => Err(error),
            }
        } else {
            Ok((ExpressionView::Variable(name), pos + 1))
        },
        TokenKind::OpenParenthesis => match parse_expression(tokens, pos + 1) {
            Ok((inner, next)) => if kind_at(tokens, next) is CloseParenthesis {
                Ok((inner, next + 1))
            } else {
                Err(failure(tokens, next, "expected a closing parenthesis"@))
            },
            Err(error) => Err(error),
        },
        _ => Err(failure(tokens, pos, "expected an expression"@)),
    }
}

/// A primary expression with any number of `not` in front of it.
pub open spec fn parse_unary(tokens: Seq<TokenView>, pos: int) -> Parsed<ExpressionView>
    decreases tokens.len() - pos, 3int,
{
    if kind_at(tokens, pos) is Not {
        match parse_unary(tokens, pos + 1) {
            Ok((operand, next)) => Ok(
                (
                    ExpressionView::UnaryOperation {
                        operator: UnaryOperator::Not,
                        operand: Box::new(operand),
                    },
                    next,
                ),
            ),
            Err(error) => Err(error),
        }
    } else {
        parse_primary(tokens, pos)
    }
}

/// Extends the operand `left`, which ends before `pos`, by the operators
/// that follow and bind at least as tightly as `floor`.
pub open spec fn climb(
    tokens: Seq<TokenView>,
    left: ExpressionView,
    pos: int,
    floor: int,
) -> Parsed<ExpressionView>
    decreases tokens.len() - pos, 1int,
{
    match binary_operator(kind_at(tokens, pos)) {
        Some(operator) => if precedence(operator) >= floor {
            match parse_binary(tokens, pos + 1, right_floor(operator)) {
                Ok((right, next)) => if forward(tokens, pos, next) {
                    climb(
                        tokens,
                        ExpressionView::BinaryOperation {
                            left: Box::new(left),
                            operator,
                            right: Box::new(right),
                        },
                        next,
                        floor,
                    )
                } else {
                    Err(stalled(tokens, pos))
                },
                Err(error) => Err(error),
            }
        } else {
            Ok((left, pos))
        },
        None => Ok((left, pos)),
    }
}

/// An expression whose operators all bind at least as tightly as `floor`.
pub open spec fn parse_binary(tokens: Seq<TokenView>, pos: int, floor: int) -> Parsed<
    ExpressionView,
>
    decreases tokens.len() - pos, 4int,
{
    match parse_unary(tokens, pos) {
        Ok((left, next)) => if forward(tokens, pos, next) {
            climb(tokens, left, next, floor)
        } else {
            Err(stalled(tokens, pos))
        },
        Err(error) => Err(error),
    }
}

/// An expression. It ends before the first token that cannot extend it.
pub open spec fn parse_expression(tokens: Seq<TokenView>, pos: int) -> Parsed<ExpressionView>
    decreases tokens.len() - pos, 5int,
{
    parse_binary(tokens, pos, 1)
}

/// One or more expressions with commas between them, added to `items`.
pub open spec fn parse_expression_list(
    tokens: Seq<TokenView>,
    pos: int,
    items: Seq<ExpressionView>,
) -> Parsed<Seq<ExpressionView>>
    decreases tokens.len() - pos, 6int,
{
    match parse_expression(tokens, pos) {
        Ok((item, next)) => if kind_at(tokens, next) is Comma {
            if forward(tokens, pos, next) {
                parse_expression_list(tokens, next + 1, items.push(item))
            } else {
                Err(stalled(tokens, pos))
            }
        } else {
            Ok((items.push(item), next))
        },
        Err(error) => Err(error),
    }
}

/// The arguments of a call, from the token after `(` to the `)` that
/// closes them: nothing, or expressions with commas between them.
pub open spec fn parse_arguments(tokens: Seq<TokenView>, pos: int) -> Parsed<Seq<ExpressionView>>
    decreases tokens.len() - pos, 7int,
{
    if kind_at(tokens, pos) is CloseParenthesis {
        Ok((Seq::empty(), pos + 1))
    } else {
        match parse_expression_list(tokens, pos, Seq::empty()) {
            Ok((params, next)) => if kind_at(tokens, next) is CloseParenthesis {
                Ok((params, next + 1))
            } else {
                Err(failure(tokens, next, "expected a closing parenthesis"@))
            },
            Err(error) => Err(error),
        }
    }
}

/// One or more parameter names with commas between them, added to `names`.
pub open spec fn parse_parameters(
    tokens: Seq<TokenView>,
    pos: int,
    names: Seq<Seq<char>>,
) -> Parsed<Seq<Seq<char>>>
    decreases tokens.len() - pos,
{
    match kind_at(tokens, pos) {
        TokenKind::Identifier(name) => if kind_at(tokens, pos + 1) is Comma {
            parse_parameters(tokens, pos + 2, names.push(name))
        } else {
            Ok((names.push(name), pos + 1))
        },
        _ => Err(failure(tokens, pos, "expected a parameter name"@)),
    }
}

/// A call as a statement: a name, `(`, the arguments, `)`.
pub open spec fn parse_function_call(tokens: Seq<TokenView>, pos: int) -> Parsed<NodeView> {
    match kind_at(tokens, pos) {
        TokenKind::Identifier(name) => if kind_at(tokens, pos + 1) is OpenParenthesis {
            match parse_arguments(tokens, pos + 2) {
                Ok((params, next)) => Ok(
                    (
                        NodeView::ExpressionStatement(
                            ExpressionView::FunctionCall { name, params },
                        ),
                        next,
                    ),
                ),
                Err(error) => Err(error),
            }
        } else {
            Err(failure(tokens, pos + 1, "expected an opening parenthesis"@))
        },
        _ => Err(failure(tokens, pos, "expected a function name"@)),
    }
}

/// A variable declaration: a name, `is`, the initial value.
pub open spec fn parse_variable_declaration(tokens: Seq<TokenView>, pos: int) -> Parsed<NodeView> {
    match kind_at(tokens, pos) {
        TokenKind::Identifier(name) => if kind_at(tokens, pos + 1) is Is {
            match parse_expression(tokens, pos + 2) {
                Ok((value, next)) => Ok((NodeView::VariableDeclaration { name, value }, next)),
                Err(error) => Err(error),
            }
        } else {
            Err(failure(tokens, pos + 1, "expected an is keyword"@))
        },
        _ => Err(failure(tokens, pos, "expected a variable name"@)),
    }
}

/// A `return` statement: the keyword and the value.
pub open spec fn parse_return(tokens: Seq<TokenView>, pos: int) -> Parsed<NodeView> {
    if kind_at(tokens, pos) is Return {
        match parse_expression(tokens, pos + 1) {
            Ok((value, next)) => Ok((NodeView::ReturnStatement(value), next)),
            Err(error) => Err(error),
        }
    } else {
        Err(failure(tokens, pos, "expected a return keyword"@))
    }
}

/// Where a run of statements stands, which decides what ends it.
#[derive(Debug, Clone, Copy, PartialEq, Eq, Structural)]
pub enum Block {
    /// The whole program: only the end of the input ends it.
    Program,
    /// The body of a function or a loop, or the `else` branch of a
    /// conditional: `end` ends it.
    Body,
    /// The `then` branch of an `if` or an `elif`: `elif`, `else` or `end`
    /// ends it.
    Branch,
}

/// Whether a token of this kind ends a run of statements. It is not part
/// of the run.
pub open spec fn ends_block(kind: TokenKind, block: Block) -> bool {
    ||| kind is Eof
    ||| (kind is End && block != Block::Program)
    ||| ((kind is Else || kind is ElseIf) && block == Block::Branch)
}

/// Statements, added to `statements`, up to the token that ends the run.
/// Line breaks between statements are skipped.
pub open spec fn parse_block(
    tokens: Seq<TokenView>,
    pos: int,
    statements: Seq<NodeView>,
    block: Block,
) -> Parsed<Seq<NodeView>>
    decreases tokens.len() - pos, 12int,
{
    if kind_at(tokens, pos) is Newline {
        parse_block(tokens, pos + 1, statements, block)
    } else if ends_block(kind_at(tokens, pos), block) {
        Ok((statements, pos))
    } else {
        match parse_statement(tokens, pos) {
            Ok((statement, next)) => if forward(tokens, pos, next) {
                parse_block(tokens, next, statements.push(statement), block)
            } else {
                Err(stalled(tokens, pos))
            },
            Err(error) => Err(error),
        }
    }
}

/// One statement, chosen by the kind of its first token.
pub open spec fn parse_statement(tokens: Seq<TokenView>, pos: int) -> Parsed<NodeView>
    decreases tokens.len() - pos, 11int,
{
    match kind_at(tokens, pos) {
        TokenKind::Function => parse_function(tokens, pos),
        TokenKind::Return => parse_return(tokens, pos),
        TokenKind::If => parse_conditional(tokens, pos),
        TokenKind::For => parse_for(tokens, pos),
        TokenKind::Until => parse_until(tokens, pos),
        TokenKind::Break => Ok((NodeView::Break, pos + 1)),
        TokenKind::Continue => Ok((NodeView::Continue, pos + 1)),
        TokenKind::Identifier(_) => match kind_at(tokens, pos + 1) {
            TokenKind::OpenParenthesis => parse_function_call(tokens, pos),
            TokenKind::Is => parse_variable_declaration(tokens, pos),
            _ => Err(failure(tokens, pos, "invalid variable declaration syntax"@)),
        },
        _ => Err(failure(tokens, pos, "expected a statement"@)),
    }
}

/// The `end` that closes a body which ends before `pos`.
pub open spec fn close_block(tokens: Seq<TokenView>, pos: int, node: NodeView) -> Parsed<NodeView> {
    if kind_at(tokens, pos) is End {
        Ok((node, pos + 1))
    } else {
        Err(failure(tokens, pos, "expected an end keyword"@))
    }
}

/// A function: `func`, the name, `uses`, the parameters, the body, `end`.
pub open spec fn parse_function(tokens: Seq<TokenView>, pos: int) -> Parsed<NodeView>
    decreases tokens.len() - pos, 10int,
{
    if !(kind_at(tokens, pos) is Function) {
        Err(failure(tokens, pos, "function keyword expected"@))
    } else {
        match kind_at(tokens, pos + 1) {
            TokenKind::Identifier(name) => if !(kind_at(tokens, pos + 2) is Uses) {
                Err(failure(tokens, pos + 2, "expected a uses keyword"@))
            } else {
                match parse_parameters(tokens, pos + 3, Seq::empty()) {
                    Ok((params, start)) => if forward(tokens, pos, start) {
                        match parse_block(tokens, start, Seq::empty(), Block::Body) {
                            Ok((body, next)) => close_block(
                                tokens,
                                next,
                                NodeView::Function { name, params, body },
                            ),
                            Err(error) => Err(error),
                        }
                    } else {
                        Err(stalled(tokens, pos))
                    },
                    Err(error) => Err(error),
                }
            },
            _ => Err(failure(tokens, pos + 1, "function name expected"@)),
        }
    }
}

/// The `elif` branches of a conditional, added to `branches`: for each,
/// `elif`, the condition, `then`, the statements.
pub open spec fn parse_elif_branches(
    tokens: Seq<TokenView>,
    pos: int,
    branches: Seq<(ExpressionView, Seq<NodeView>)>,
) -> Parsed<Seq<(ExpressionView, Seq<NodeView>)>>
    decreases tokens.len() - pos, 9int,
{
    if kind_at(tokens, pos) is ElseIf {
        match parse_expression(tokens, pos + 1) {
            Ok((condition, mark)) => if !(kind_at(tokens, mark) is Then) {
                Err(failure(tokens, mark, "expected a then keyword"@))
            } else if forward(tokens, pos, mark) {
                match parse_block(tokens, mark + 1, Seq::empty(), Block::Branch) {
                    Ok((body, next)) => if forward(tokens, pos, next) {
                        parse_elif_branches(tokens, next, branches.push((condition, body)))
                    } else {
                        Err(stalled(tokens, pos))
                    },
                    Err(error) => Err(error),
                }
            } else {
                Err(stalled(tokens, pos))
            },
            Err(error) => Err(error),
        }
    } else {
        Ok((branches, pos))
    }
}

/// The `else` branch of a conditional, where there is one: `else` and the
/// statements.
pub open spec fn parse_else_branch(tokens: Seq<TokenView>, pos: int) -> Parsed<
    Option<Seq<NodeView>>,
>
    decreases tokens.len() - pos, 9int,
{
    if kind_at(tokens, pos) is Else {
        match parse_block(tokens, pos + 1, Seq::empty(), Block::Body) {
            Ok((body, next)) => Ok((Some(body), next)),
            Err(error) => Err(error),
        }
    } else {
        Ok((None, pos))
    }
}

/// A conditional: `if`, the condition, `then`, the statements, any number
/// of `elif` branches, at most one `else` branch, `end`.
pub open spec fn parse_conditional(tokens: Seq<TokenView>, pos: int) -> Parsed<NodeView>
    decreases tokens.len() - pos, 10int,
{
    if !(kind_at(tokens, pos) is If) {
        Err(failure(tokens, pos, "expected an if keyword"@))
    } else {
        match parse_expression(tokens, pos + 1) {
            Ok((condition, mark)) => if !(kind_at(tokens, mark) is Then) {
                Err(failure(tokens, mark, "expected a then keyword"@))
            } else if forward(tokens, pos, mark) {
                match parse_block(tokens, mark + 1, Seq::empty(), Block::Branch) {
                    Ok((then_branch, first)) => if forward(tokens, pos, first) {
                        match parse_elif_branches(tokens, first, Seq::empty()) {
                            Ok((elif_branches, second)) => if forward(tokens, pos, second) {
                                match parse_else_branch(tokens, second) {
                                    Ok((else_branch, next)) => close_block(
                                        tokens,
                                        next,
                                        NodeView::IfStatement {
                                            condition,
                                            then_branch,
                                            elif_branches,
                                            else_branch,
                                        },
                                    ),
                                    Err(error) => Err(error),
                                }
                            } else {
                                Err(stalled(tokens, pos))
                            },
                            Err(error) => Err(error),
                        }
                    } else {
                        Err(stalled(tokens, pos))
                    },
                    Err(error) => Err(error),
                }
            } else {
                Err(stalled(tokens, pos))
            },
            Err(error) => Err(error),
        }
    }
}

/// A `for` loop: `for`, the control expressions with commas between them,
/// the body, `end`.
pub open spec fn parse_for(tokens: Seq<TokenView>, pos: int) -> Parsed<NodeView>
    decreases tokens.len() - pos, 10int,
{
    if !(kind_at(tokens, pos) is For) {
        Err(failure(tokens, pos, "expected a for keyword"@))
    } else {
        match parse_expression_list(tokens, pos + 1, Seq::empty()) {
            Ok((control, start)) => if forward(tokens, pos, start) {
                match parse_block(tokens, start, Seq::empty(), Block::Body) {
                    Ok((body, next)) => close_block(
                        tokens,
                        next,
                        NodeView::ForLoop { control, body },
                    ),
                    Err(error) => Err(error),
                }
            } else {
                Err(stalled(tokens, pos))
            },
            Err(error) => Err(error),
        }
    }
}

/// An `until` loop: `until`, the condition, the body, `end`.
pub open spec fn parse_until(tokens: Seq<TokenView>, pos: int) -> Parsed<NodeView>
    decreases tokens.len() - pos, 10int,
{
    if !(kind_at(tokens, pos) is Until) {
        Err(failure(tokens, pos, "expected an until keyword"@))
    } else {
        match parse_expression(tokens, pos + 1) {
            Ok((condition, start)) => if forward(tokens, pos, start) {
                match parse_block(tokens, start, Seq::empty(), Block::Body) {
                    Ok((body, next)) => close_block(
                        tokens,
                        next,
                        NodeView::UntilLoop { condition, body },
                    ),
                    Err(error) => Err(error),
                }
            } else {
                Err(stalled(tokens, pos))
            },
            Err(error) => Err(error),
        }
    }
}

/// The whole program: statements up to the end of the input.
pub open spec fn parse_program(tokens: Seq<TokenView>, pos: int) -> Result<
    NodeView,
    ParseErrorView,
> {
    match parse_block(tokens, pos, Seq::empty(), Block::Program) {
        Ok((statements, _)) => Ok(NodeView::Program(statements)),
        Err(error) => Err(error),
    }
}

} // verus!
