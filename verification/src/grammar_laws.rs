//! What holds of every parse: a parse that succeeds moves forward, an
//! operator cannot begin a statement, and of two operators the one that
//! binds tighter takes the operand between them.
use vstd::prelude::*;
use crate::ast::{
    binary_operator, precedence, right_floor, BinaryOperator, ExpressionView, NodeView,
    ParseErrorView,
};
use crate::grammar::{
    climb, ends_block, failure, forward, kind_at, parse_arguments, parse_binary, parse_block,
    parse_conditional, parse_elif_branches, parse_else_branch, parse_expression,
    parse_expression_list, parse_for, parse_function, parse_parameters, parse_primary,
    parse_statement, parse_unary, parse_until, Block,
};
use crate::token::{TokenKind, TokenView};

verus! {

/// The expression `left operator right`.
pub open spec fn infix(left: ExpressionView, operator: BinaryOperator, right: ExpressionView)
    -> ExpressionView {
    ExpressionView::BinaryOperation { left: Box::new(left), operator, right: Box::new(right) }
}

/// Whether a token of this kind is an operator, infix or prefix.
pub open spec fn operator_kind(kind: TokenKind) -> bool {
    binary_operator(kind) is Some || kind is Not
}

/// An expression that parses ends after where it began, within the tokens.
pub proof fn lemma_expression_forward(tokens: Seq<TokenView>, pos: int)
    ensures
        parse_expression(tokens, pos) matches Ok((_, next)) ==> forward(tokens, pos, next),
{
    lemma_binary_forward(tokens, pos, 1);
}

proof fn lemma_primary_forward(tokens: Seq<TokenView>, pos: int)
    ensures
        parse_primary(tokens, pos) matches Ok((_, next)) ==> forward(tokens, pos, next),
    decreases tokens.len() - pos, 2int,
{
    match kind_at(tokens, pos) {
        TokenKind::Identifier(name) => {
            if kind_at(tokens, pos + 1) is OpenParenthesis {
                lemma_arguments_forward(tokens, pos + 2);
            }
        },
        TokenKind::OpenParenthesis => {
            lemma_binary_forward(tokens, pos + 1, 1);
        },
        _ => {},
    }
}

proof fn lemma_unary_forward(tokens: Seq<TokenView>, pos: int)
    ensures
        parse_unary(tokens, pos) matches Ok((_, next)) ==> forward(tokens, pos, next),
    decreases tokens.len() - pos, 3int,
{
    if kind_at(tokens, pos) is Not {
        lemma_unary_forward(tokens, pos + 1);
    } else {
        lemma_primary_forward(tokens, pos);
    }
}

proof fn lemma_climb_forward(tokens: Seq<TokenView>, left: ExpressionView, pos: int, floor: int)
    requires
        pos <= tokens.len(),
    ensures
        climb(tokens, left, pos, floor) matches Ok((_, next)) ==> pos <= next <= tokens.len(),
    decreases tokens.len() - pos, 1int,
{
    match binary_operator(kind_at(tokens, pos)) {
        Some(operator) => {
            if precedence(operator) >= floor {
                match parse_binary(tokens, pos + 1, right_floor(operator)) {
                    Ok((right, next)) => {
                        if forward(tokens, pos, next) {
                            lemma_climb_forward(tokens, infix(left, operator, right), next, floor);
                        }
                    },
                    Err(_) => {},
                }
            }
        },
        None => {},
    }
}

proof fn lemma_binary_forward(tokens: Seq<TokenView>, pos: int, floor: int)
    ensures
        parse_binary(tokens, pos, floor) matches Ok((_, next)) ==> forward(tokens, pos, next),
    decreases tokens.len() - pos, 4int,
{
    match parse_unary(tokens, pos) {
        Ok((left, next)) => {
            if forward(tokens, pos, next) {
                lemma_climb_forward(tokens, left, next, floor);
            }
        },
        Err(_) => {},
    }
}

proof fn lemma_list_forward(tokens: Seq<TokenView>, pos: int, items: Seq<ExpressionView>)
    ensures
        parse_expression_list(tokens, pos, items) matches Ok((_, next)) ==> forward(
            tokens,
            pos,
            next,
        ),
    decreases tokens.len() - pos, 6int,
{
    lemma_binary_forward(tokens, pos, 1);
    match parse_expression(tokens, pos) {
        Ok((item, next)) => {
            if kind_at(tokens, next) is Comma && forward(tokens, pos, next) {
                lemma_list_forward(tokens, next + 1, items.push(item));
            }
        },
        Err(_) => {},
    }
}

proof fn lemma_arguments_forward(tokens: Seq<TokenView>, pos: int)
    ensures
        parse_arguments(tokens, pos) matches Ok((_, next)) ==> forward(tokens, pos, next),
    decreases tokens.len() - pos, 7int,
{
    if !(kind_at(tokens, pos) is CloseParenthesis) {
        lemma_list_forward(tokens, pos, Seq::empty());
    }
}

proof fn lemma_parameters_forward(tokens: Seq<TokenView>, pos: int, names: Seq<Seq<char>>)
    ensures
        parse_parameters(tokens, pos, names) matches Ok((_, next)) ==> forward(tokens, pos, next),
    decreases tokens.len() - pos,
{
    match kind_at(tokens, pos) {
        TokenKind::Identifier(name) => {
            if kind_at(tokens, pos + 1) is Comma {
                lemma_parameters_forward(tokens, pos + 2, names.push(name));
            }
        },
        _ => {},
    }
}

/// A statement that parses ends after where it began, within the tokens.
pub proof fn lemma_statement_forward(tokens: Seq<TokenView>, pos: int)
    ensures
        parse_statement(tokens, pos) matches Ok((_, next)) ==> forward(tokens, pos, next),
    decreases tokens.len() - pos, 11int,
{
    match kind_at(tokens, pos) {
        TokenKind::Function => {
            lemma_function_forward(tokens, pos);
        },
        TokenKind::Return => {
            lemma_expression_forward(tokens, pos + 1);
        },
        TokenKind::If => {
            lemma_conditional_forward(tokens, pos);
        },
        TokenKind::For => {
            lemma_for_forward(tokens, pos);
        },
        TokenKind::Until => {
            lemma_until_forward(tokens, pos);
        },
        TokenKind::Identifier(_) => {
            match kind_at(tokens, pos + 1) {
                TokenKind::OpenParenthesis => {
                    lemma_arguments_forward(tokens, pos + 2);
                },
                TokenKind::Is => {
                    lemma_expression_forward(tokens, pos + 2);
                },
                _ => {},
            }
        },
        _ => {},
    }
}

/// A run of statements that parses ends no earlier than it began, within
/// the tokens.
proof fn lemma_block_forward(
    tokens: Seq<TokenView>,
    pos: int,
    statements: Seq<NodeView>,
    block: Block,
)
    requires
        pos <= tokens.len(),
    ensures
        parse_block(tokens, pos, statements, block) matches Ok((_, next)) ==> pos <= next
            <= tokens.len(),
    decreases tokens.len() - pos, 12int,
{
    if kind_at(tokens, pos) is Newline {
        lemma_block_forward(tokens, pos + 1, statements, block);
    } else if ends_block(kind_at(tokens, pos), block) {
    } else {
        lemma_statement_forward(tokens, pos);
        match parse_statement(tokens, pos) {
            Ok((statement, next)) => {
                if forward(tokens, pos, next) {
                    lemma_block_forward(tokens, next, statements.push(statement), block);
                }
            },
            Err(_) => {},
        }
    }
}

proof fn lemma_function_forward(tokens: Seq<TokenView>, pos: int)
    ensures
        parse_function(tokens, pos) matches Ok((_, next)) ==> forward(tokens, pos, next),
    decreases tokens.len() - pos, 10int,
{
    if kind_at(tokens, pos) is Function && kind_at(tokens, pos + 1) is Identifier && kind_at(
        tokens,
        pos + 2,
    ) is Uses {
        lemma_parameters_forward(tokens, pos + 3, Seq::empty());
        match parse_parameters(tokens, pos + 3, Seq::empty()) {
            Ok((params, start)) => {
                if forward(tokens, pos, start) {
                    lemma_block_forward(tokens, start, Seq::empty(), Block::Body);
                }
            },
            Err(_) => {},
        }
    }
}

proof fn lemma_elif_forward(
    tokens: Seq<TokenView>,
    pos: int,
    branches: Seq<(ExpressionView, Seq<NodeView>)>,
)
    requires
        pos <= tokens.len(),
    ensures
        parse_elif_branches(tokens, pos, branches) matches Ok((_, next)) ==> pos <= next
            <= tokens.len(),
    decreases tokens.len() - pos, 9int,
{
    if kind_at(tokens, pos) is ElseIf {
        lemma_expression_forward(tokens, pos + 1);
        match parse_expression(tokens, pos + 1) {
            Ok((condition, mark)) => {
                if kind_at(tokens, mark) is Then && forward(tokens, pos, mark) {
                    lemma_block_forward(tokens, mark + 1, Seq::empty(), Block::Branch);
                    match parse_block(tokens, mark + 1, Seq::empty(), Block::Branch) {
                        Ok((body, next)) => {
                            if forward(tokens, pos, next) {
                                lemma_elif_forward(
                                    tokens,
                                    next,
                                    branches.push((condition, body)),
                                );
                            }
                        },
                        Err(_) => {},
                    }
                }
            },
            Err(_) => {},
        }
    }
}

proof fn lemma_else_forward(tokens: Seq<TokenView>, pos: int)
    requires
        pos <= tokens.len(),
    ensures
        parse_else_branch(tokens, pos) matches Ok((_, next)) ==> pos <= next <= tokens.len(),
    decreases tokens.len() - pos, 9int,
{
    if kind_at(tokens, pos) is Else {
        lemma_block_forward(tokens, pos + 1, Seq::empty(), Block::Body);
    }
}

proof fn lemma_conditional_forward(tokens: Seq<TokenView>, pos: int)
    ensures
        parse_conditional(tokens, pos) matches Ok((_, next)) ==> forward(tokens, pos, next),
    decreases tokens.len() - pos, 10int,
{
    if kind_at(tokens, pos) is If {
        lemma_expression_forward(tokens, pos + 1);
        match parse_expression(tokens, pos + 1) {
            Ok((condition, mark)) => {
                if kind_at(tokens, mark) is Then && forward(tokens, pos, mark) {
                    lemma_block_forward(tokens, mark + 1, Seq::empty(), Block::Branch);
                    match parse_block(tokens, mark + 1, Seq::empty(), Block::Branch) {
                        Ok((then_branch, first)) => {
                            if forward(tokens, pos, first) {
                                lemma_elif_forward(tokens, first, Seq::empty());
                                match parse_elif_branches(tokens, first, Seq::empty()) {
                                    Ok((elif_branches, second)) => {
                                        if forward(tokens, pos, second) {
                                            lemma_else_forward(tokens, second);
                                        }
                                    },
                                    Err(_) => {},
                                }
                            }
                        },
                        Err(_) => {},
                    }
                }
            },
            Err(_) => {},
        }
    }
}

proof fn lemma_for_forward(tokens: Seq<TokenView>, pos: int)
    ensures
        parse_for(tokens, pos) matches Ok((_, next)) ==> forward(tokens, pos, next),
    decreases tokens.len() - pos, 10int,
{
    if kind_at(tokens, pos) is For {
        lemma_list_forward(tokens, pos + 1, Seq::empty());
        match parse_expression_list(tokens, pos + 1, Seq::empty()) {
            Ok((control, start)) => {
                if forward(tokens, pos, start) {
                    lemma_block_forward(tokens, start, Seq::empty(), Block::Body);
                }
            },
            Err(_) => {},
        }
    }
}

proof fn lemma_until_forward(tokens: Seq<TokenView>, pos: int)
    ensures
        parse_until(tokens, pos) matches Ok((_, next)) ==> forward(tokens, pos, next),
    decreases tokens.len() - pos, 10int,
{
    if kind_at(tokens, pos) is Until {
        lemma_expression_forward(tokens, pos + 1);
        match parse_expression(tokens, pos + 1) {
            Ok((condition, start)) => {
                if forward(tokens, pos, start) {
                    lemma_block_forward(tokens, start, Seq::empty(), Block::Body);
                }
            },
            Err(_) => {},
        }
    }
}

/// An operator cannot begin a statement: where the token at a position is
/// an operator, the statement there fails, and the error names that token
/// and its line.
pub proof fn lemma_operator_cannot_lead(tokens: Seq<TokenView>, pos: int)
    requires
        0 <= pos < tokens.len(),
        operator_kind(tokens[pos].kind),
    ensures
        parse_statement(tokens, pos) == Err::<(NodeView, int), _>(
            failure(tokens, pos, "expected a statement"@),
        ),
        failure(tokens, pos, "expected a statement"@).line == tokens[pos].line,
        failure(tokens, pos, "expected a statement"@).found == tokens[pos].kind,
{
}

/// The same at the head of a run of statements, behind any number of
/// line breaks: the run fails with the error for the operator, whatever
/// was parsed before it.
pub proof fn lemma_block_rejects_operator(
    tokens: Seq<TokenView>,
    pos: int,
    at: int,
    statements: Seq<NodeView>,
    block: Block,
)
    requires
        0 <= pos <= at < tokens.len(),
        forall|k: int| pos <= k < at ==> (#[trigger] tokens[k]).kind is Newline,
        operator_kind(tokens[at].kind),
    ensures
        parse_block(tokens, pos, statements, block) == Err::<
            (Seq<NodeView>, int),
            _,
        >(failure(tokens, at, "expected a statement"@)),
    decreases at - pos,
{
    if pos < at {
        assert(tokens[pos].kind is Newline);
        lemma_block_rejects_operator(tokens, pos + 1, at, statements, block);
    } else {
        lemma_operator_cannot_lead(tokens, at);
    }
}

/// Precedence decides how three operands group. Let `a`, `b` and `c` be
/// operands of any form (literals, names, calls, expressions in
/// parentheses, each with or without `not` in front), with one infix
/// operator between each two and no infix operator behind the third. Then
/// `b` goes to the second operator if that one binds at least as tightly as
/// the first admits on its right, and to the first operator otherwise:
/// `1 + 2 * 3` is `1 + (2 * 3)`, `1 * 2 + 3` is `(1 * 2) + 3`, `1 - 2 - 3`
/// is `(1 - 2) - 3`, and `1 ^ 2 ^ 3` is `1 ^ (2 ^ 3)`.
pub proof fn lemma_precedence_groups(
    tokens: Seq<TokenView>,
    pos: int,
    a: ExpressionView,
    first_at: int,
    b: ExpressionView,
    second_at: int,
    c: ExpressionView,
    end: int,
)
    requires
        parse_unary(tokens, pos) == Ok::<_, ParseErrorView>((a, first_at)),
        binary_operator(kind_at(tokens, first_at)) is Some,
        parse_unary(tokens, first_at + 1) == Ok::<_, ParseErrorView>((b, second_at)),
        binary_operator(kind_at(tokens, second_at)) is Some,
        parse_unary(tokens, second_at + 1) == Ok::<_, ParseErrorView>((c, end)),
        binary_operator(kind_at(tokens, end)) is None,
    ensures
        ({
            let first = binary_operator(kind_at(tokens, first_at))->0;
            let second = binary_operator(kind_at(tokens, second_at))->0;
            parse_expression(tokens, pos) == Ok::<_, ParseErrorView>(
                (
                    if precedence(second) >= right_floor(first) {
                        infix(a, first, infix(b, second, c))
                    } else {
                        infix(infix(a, first, b), second, c)
                    },
                    end,
                ),
            )
        }),
{
    let first = binary_operator(kind_at(tokens, first_at))->0;
    let second = binary_operator(kind_at(tokens, second_at))->0;
    lemma_unary_forward(tokens, pos);
    lemma_unary_forward(tokens, first_at + 1);
    lemma_unary_forward(tokens, second_at + 1);
    assert(climb(tokens, c, end, right_floor(second)) == Ok::<_, ParseErrorView>((c, end)));
    assert(parse_binary(tokens, second_at + 1, right_floor(second)) == Ok::<_, ParseErrorView>(
        (c, end),
    ));
    if precedence(second) >= right_floor(first) {
        assert(climb(tokens, infix(b, second, c), end, right_floor(first)) == Ok::<
            _,
            ParseErrorView,
        >((infix(b, second, c), end)));
        assert(climb(tokens, b, second_at, right_floor(first)) == Ok::<_, ParseErrorView>(
            (infix(b, second, c), end),
        ));
        assert(parse_binary(tokens, first_at + 1, right_floor(first)) == Ok::<
            _,
            ParseErrorView,
        >((infix(b, second, c), end)));
        assert(climb(tokens, infix(a, first, infix(b, second, c)), end, 1) == Ok::<
            _,
            ParseErrorView,
        >((infix(a, first, infix(b, second, c)), end)));
        assert(climb(tokens, a, first_at, 1) == Ok::<_, ParseErrorView>(
            (infix(a, first, infix(b, second, c)), end),
        ));
    } else {
        assert(climb(tokens, b, second_at, right_floor(first)) == Ok::<_, ParseErrorView>(
            (b, second_at),
        ));
        assert(parse_binary(tokens, first_at + 1, right_floor(first)) == Ok::<
            _,
            ParseErrorView,
        >((b, second_at)));
        assert(climb(tokens, infix(infix(a, first, b), second, c), end, 1) == Ok::<
            _,
            ParseErrorView,
        >((infix(infix(a, first, b), second, c), end)));
        assert(climb(tokens, infix(a, first, b), second_at, 1) == Ok::<_, ParseErrorView>(
            (infix(infix(a, first, b), second, c), end),
        ));
        assert(climb(tokens, a, first_at, 1) == Ok::<_, ParseErrorView>(
            (infix(infix(a, first, b), second, c), end),
        ));
    }
}

} // verus!
