//! Writing a tree out in tokens: every expression and every statement has
//! a written form, and the parser reads it back.
use vstd::prelude::*;
use crate::ast::{
    binary_operator, right_floor, BinaryOperator, ExpressionView, NodeView, ParseErrorView,
};
use crate::grammar::{
    climb, ends_block, kind_at, parse_arguments, parse_binary, parse_block, parse_conditional,
    parse_elif_branches, parse_else_branch, parse_expression, parse_expression_list, parse_for,
    parse_parameters, parse_primary, parse_program, parse_statement, parse_unary, parse_until,
    Block,
};
use crate::grammar_laws::infix;
use crate::lexer::tokenize;
use crate::round_trip::{all_unambiguous, kinds_of, lemma_read_back, written};
use crate::token::{TokenKind, TokenView};

verus! {

/// The token that writes an infix operator.
pub open spec fn operator_token(operator: BinaryOperator) -> TokenKind {
    match operator {
        BinaryOperator::Or => TokenKind::Or,
        BinaryOperator::And => TokenKind::And,
        BinaryOperator::Lt => TokenKind::Lt,
        BinaryOperator::Lte => TokenKind::Lte,
        BinaryOperator::Gt => TokenKind::Gt,
        BinaryOperator::Gte => TokenKind::Gte,
        BinaryOperator::Eq => TokenKind::Eq,
        BinaryOperator::Neq => TokenKind::Neq,
        BinaryOperator::Add => TokenKind::Add,
        BinaryOperator::Subtract => TokenKind::Subtract,
        BinaryOperator::Multiply => TokenKind::Multiply,
        BinaryOperator::Divide => TokenKind::Divide,
        BinaryOperator::Power => TokenKind::Power,
    }
}

/// An expression between parentheses.
pub open spec fn in_parentheses(inner: Seq<TokenKind>) -> Seq<TokenKind> {
    seq![TokenKind::OpenParenthesis] + inner + seq![TokenKind::CloseParenthesis]
}

/// The tokens that write an expression. Each operand of an operator stands
/// in parentheses, so that the text means the same whatever the operators
/// are.
pub open spec fn write_expression(expression: ExpressionView) -> Seq<TokenKind>
    decreases expression, 0nat,
{
    match expression {
        ExpressionView::IntegerLiteral(value) => seq![TokenKind::Integer(value)],
        ExpressionView::FloatLiteral(text) => seq![TokenKind::Float(text)],
        ExpressionView::StringLiteral(text) => seq![TokenKind::StringLiteral(text)],
        ExpressionView::BooleanLiteral(value) => if value {
            seq![TokenKind::True]
        } else {
            seq![TokenKind::False]
        },
        ExpressionView::Variable(name) => seq![TokenKind::Identifier(name)],
        ExpressionView::FunctionCall { name, params } => seq![
            TokenKind::Identifier(name),
            TokenKind::OpenParenthesis,
        ] + write_list(params, params.len()) + seq![TokenKind::CloseParenthesis],
        ExpressionView::UnaryOperation { operator, operand } => seq![TokenKind::Not]
            + in_parentheses(write_expression(*operand)),
        ExpressionView::BinaryOperation { left, operator, right } => in_parentheses(
            write_expression(*left),
        ) + seq![operator_token(operator)] + in_parentheses(write_expression(*right)),
    }
}

/// The tokens that write the first `count` expressions of a list, with a
/// comma between each two.
pub open spec fn write_list(items: Seq<ExpressionView>, count: nat) -> Seq<TokenKind>
    decreases items, count,
{
    if count == 0 || count > items.len() {
        Seq::empty()
    } else if count == 1 {
        write_expression(items[0])
    } else {
        write_list(items, (count - 1) as nat) + seq![TokenKind::Comma] + write_expression(
            items[count - 1],
        )
    }
}

/// The kinds stand in the tokens from `pos` on.
pub open spec fn stands(tokens: Seq<TokenView>, pos: int, kinds: Seq<TokenKind>) -> bool {
    &&& 0 <= pos
    &&& pos + kinds.len() <= tokens.len()
    &&& forall|j: int| 0 <= j < kinds.len() ==> (#[trigger] tokens[pos + j]).kind == kinds[j]
}

/// A token of this kind behind an expression would extend it: an infix
/// operator, or `(`, which makes a call of a name.
pub open spec fn extends(kind: TokenKind) -> bool {
    binary_operator(kind) is Some || kind is OpenParenthesis
}

/// Where two runs of kinds stand one behind the other, each stands in its
/// place.
proof fn lemma_stands_parts(
    tokens: Seq<TokenView>,
    pos: int,
    first: Seq<TokenKind>,
    second: Seq<TokenKind>,
)
    requires
        stands(tokens, pos, first + second),
    ensures
        stands(tokens, pos, first),
        stands(tokens, pos + first.len(), second),
{
    let whole = first + second;
    assert forall|j: int| 0 <= j < first.len() implies (#[trigger] tokens[pos + j]).kind
        == first[j] by {
        assert(whole[j] == first[j]);
    }
    assert forall|j: int| 0 <= j < second.len() implies (#[trigger] tokens[pos + first.len()
        + j]).kind == second[j] by {
        assert(tokens[pos + (first.len() + j)].kind == whole[first.len() + j]);
        assert(whole[first.len() + j] == second[j]);
    }
}

/// The token that writes an operator stands for that operator.
proof fn lemma_operator_token(operator: BinaryOperator)
    ensures
        binary_operator(operator_token(operator)) == Some(operator),
{
}

/// No written expression is empty, and none begins with `)`.
proof fn lemma_write_begins(expression: ExpressionView)
    ensures
        write_expression(expression).len() > 0,
        !(write_expression(expression)[0] is CloseParenthesis),
    decreases expression,
{
    match expression {
        ExpressionView::BinaryOperation { left, operator, right } => {
            let a = in_parentheses(write_expression(*left));
            assert(a[0] == TokenKind::OpenParenthesis);
        },
        ExpressionView::UnaryOperation { operator, operand } => {},
        ExpressionView::FunctionCall { name, params } => {},
        _ => {},
    }
}

/// What stands in parentheses is read back as a primary expression,
/// provided that what stands between them is read back as an expression.
proof fn lemma_read_parentheses(tokens: Seq<TokenView>, pos: int, inner: ExpressionView)
    requires
        stands(tokens, pos, in_parentheses(write_expression(inner))),
        parse_expression(tokens, pos + 1) == Ok::<_, ParseErrorView>(
            (inner, pos + 1 + write_expression(inner).len()),
        ),
    ensures
        parse_unary(tokens, pos) == Ok::<_, ParseErrorView>(
            (inner, pos + write_expression(inner).len() + 2),
        ),
{
    let w = write_expression(inner);
    let all = in_parentheses(w);
    assert(tokens[pos + 0].kind == all[0]);
    assert(tokens[pos + (w.len() + 1)].kind == all[w.len() as int + 1]);
    assert(parse_primary(tokens, pos) == Ok::<_, ParseErrorView>((inner, pos + w.len() + 2)));
}

/// The written form of an expression is read back as that expression,
/// wherever it stands, unless the token behind it would extend it.
pub proof fn lemma_expression_reads_back(
    tokens: Seq<TokenView>,
    pos: int,
    expression: ExpressionView,
)
    requires
        stands(tokens, pos, write_expression(expression)),
        !extends(kind_at(tokens, pos + write_expression(expression).len())),
    ensures
        parse_expression(tokens, pos) == Ok::<_, ParseErrorView>(
            (expression, pos + write_expression(expression).len()),
        ),
    decreases expression, 1nat,
{
    let w = write_expression(expression);
    let end = pos + w.len();
    match expression {
        ExpressionView::BinaryOperation { left, operator, right } => {
            let a = in_parentheses(write_expression(*left));
            let b = in_parentheses(write_expression(*right));
            let mid = pos + a.len();
            assert(w == (a + seq![operator_token(operator)]) + b);
            lemma_stands_parts(tokens, pos, a + seq![operator_token(operator)], b);
            lemma_stands_parts(tokens, pos, a, seq![operator_token(operator)]);
            assert(tokens[mid + 0].kind == operator_token(operator));
            lemma_operator_token(operator);
            lemma_read_operand(tokens, pos, *left);
            lemma_read_operand(tokens, mid + 1, *right);
            assert(climb(tokens, *right, end, right_floor(operator)) == Ok::<
                _,
                ParseErrorView,
            >((*right, end)));
            assert(parse_binary(tokens, mid + 1, right_floor(operator)) == Ok::<
                _,
                ParseErrorView,
            >((*right, end)));
            assert(climb(tokens, infix(*left, operator, *right), end, 1) == Ok::<
                _,
                ParseErrorView,
            >((infix(*left, operator, *right), end)));
            assert(climb(tokens, *left, mid, 1) == Ok::<_, ParseErrorView>(
                (infix(*left, operator, *right), end),
            ));
        },
        _ => {
            lemma_unary_reads_back(tokens, pos, expression);
            assert(climb(tokens, expression, end, 1) == Ok::<_, ParseErrorView>(
                (expression, end),
            ));
        },
    }
}

/// An operand in its parentheses is read back.
proof fn lemma_read_operand(tokens: Seq<TokenView>, pos: int, inner: ExpressionView)
    requires
        stands(tokens, pos, in_parentheses(write_expression(inner))),
    ensures
        parse_unary(tokens, pos) == Ok::<_, ParseErrorView>(
            (inner, pos + write_expression(inner).len() + 2),
        ),
    decreases inner, 2nat,
{
    let w = write_expression(inner);
    let all = in_parentheses(w);
    assert(all == (seq![TokenKind::OpenParenthesis] + w) + seq![TokenKind::CloseParenthesis]);
    lemma_stands_parts(
        tokens,
        pos,
        seq![TokenKind::OpenParenthesis] + w,
        seq![TokenKind::CloseParenthesis],
    );
    lemma_stands_parts(tokens, pos, seq![TokenKind::OpenParenthesis], w);
    assert(tokens[pos + w.len() + 1 + 0].kind == TokenKind::CloseParenthesis);
    lemma_expression_reads_back(tokens, pos + 1, inner);
    lemma_read_parentheses(tokens, pos, inner);
}

/// The written form of an expression that is no infix operation is read
/// back by itself, before any operator is looked for.
proof fn lemma_unary_reads_back(tokens: Seq<TokenView>, pos: int, expression: ExpressionView)
    requires
        stands(tokens, pos, write_expression(expression)),
        !(expression is BinaryOperation),
        !(kind_at(tokens, pos + write_expression(expression).len()) is OpenParenthesis),
    ensures
        parse_unary(tokens, pos) == Ok::<_, ParseErrorView>(
            (expression, pos + write_expression(expression).len()),
        ),
    decreases expression, 0nat,
{
    let w = write_expression(expression);
    assert(tokens[pos + 0].kind == w[0]);
    match expression {
        ExpressionView::FunctionCall { name, params } => {
            let head = seq![TokenKind::Identifier(name), TokenKind::OpenParenthesis];
            let list = write_list(params, params.len());
            let close = seq![TokenKind::CloseParenthesis];
            assert(w == (head + list) + close);
            lemma_stands_parts(tokens, pos, head + list, close);
            lemma_stands_parts(tokens, pos, head, list);
            assert(tokens[pos + 1].kind == head[1]);
            assert(tokens[pos + 2 + list.len() + 0].kind == TokenKind::CloseParenthesis);
            if params.len() == 0 {
                assert(parse_arguments(tokens, pos + 2) == Ok::<_, ParseErrorView>(
                    (Seq::<ExpressionView>::empty(), pos + 3),
                ));
                assert(params =~= Seq::<ExpressionView>::empty());
            } else {
                lemma_write_begins(params[0]);
                lemma_list_begins(params, params.len());
                assert(tokens[pos + 2 + 0].kind == list[0]);
                lemma_list_reads_back(tokens, pos + 2, params, params.len());
                assert(params.take(params.len() as int) =~= params);
                assert(parse_arguments(tokens, pos + 2) == Ok::<_, ParseErrorView>(
                    (params, pos + 2 + list.len() + 1),
                ));
            }
            assert(w.len() == list.len() + 3);
            assert(kind_at(tokens, pos) == TokenKind::Identifier(name));
            assert(kind_at(tokens, pos + 1) is OpenParenthesis);
            assert(parse_primary(tokens, pos) == Ok::<_, ParseErrorView>(
                (expression, pos + w.len()),
            ));
        },
        ExpressionView::UnaryOperation { operator, operand } => {
            let inner = in_parentheses(write_expression(*operand));
            lemma_stands_parts(tokens, pos, seq![TokenKind::Not], inner);
            lemma_read_operand(tokens, pos + 1, *operand);
        },
        _ => {},
    }
}

/// A written list begins as its first expression does.
proof fn lemma_list_begins(items: Seq<ExpressionView>, count: nat)
    requires
        1 <= count <= items.len(),
    ensures
        write_list(items, count).len() > 0,
        write_list(items, count)[0] == write_expression(items[0])[0],
    decreases count,
{
    lemma_write_begins(items[0]);
    if count > 1 {
        lemma_list_begins(items, (count - 1) as nat);
    }
}

/// The first `count` expressions of a written list are read back, unless
/// the token behind them would extend the last. A comma behind them is
/// taken by the list, so it must not stand there.
proof fn lemma_list_reads_back(
    tokens: Seq<TokenView>,
    pos: int,
    items: Seq<ExpressionView>,
    count: nat,
)
    requires
        1 <= count <= items.len(),
        stands(tokens, pos, write_list(items, count)),
        !extends(kind_at(tokens, pos + write_list(items, count).len())),
        !(kind_at(tokens, pos + write_list(items, count).len()) is Comma),
    ensures
        parse_expression_list(tokens, pos, Seq::empty()) == Ok::<_, ParseErrorView>(
            (items.take(count as int), pos + write_list(items, count).len()),
        ),
    decreases items, count + 1,
{
    lemma_list_steps(tokens, pos, items, count, count);
    assert(items.take(0) =~= Seq::<ExpressionView>::empty());
}

/// The list read from its `done`-th expression on, with the expressions
/// before it in hand.
proof fn lemma_list_steps(
    tokens: Seq<TokenView>,
    pos: int,
    items: Seq<ExpressionView>,
    count: nat,
    left: nat,
)
    requires
        1 <= count <= items.len(),
        1 <= left <= count,
        stands(tokens, pos, write_list(items, count)),
        !extends(kind_at(tokens, pos + write_list(items, count).len())),
        !(kind_at(tokens, pos + write_list(items, count).len()) is Comma),
    ensures
        ({
            let done = (count - left) as nat;
            let start = if done == 0 {
                pos
            } else {
                pos + write_list(items, done).len() + 1
            };
            parse_expression_list(tokens, start, items.take(done as int)) == Ok::<
                _,
                ParseErrorView,
            >((items.take(count as int), pos + write_list(items, count).len()))
        }),
    decreases items, left,
{
    let done = (count - left) as nat;
    let start = if done == 0 {
        pos
    } else {
        pos + write_list(items, done).len() + 1
    };
    let item = items[done as int];
    let w = write_expression(item);
    lemma_list_prefix(tokens, pos, items, count, done + 1);
    // the item stands at `start`
    if done == 0 {
        assert(write_list(items, 1) == w);
    } else {
        let before = write_list(items, done);
        assert(write_list(items, done + 1) == (before + seq![TokenKind::Comma]) + w);
        lemma_stands_parts(tokens, pos, before + seq![TokenKind::Comma], w);
    }
    assert(stands(tokens, start, w));
    let end = start + w.len();
    assert(end == pos + write_list(items, done + 1).len());
    assert(items.take(done as int).push(item) =~= items.take(done as int + 1));
    if left == 1 {
        lemma_expression_reads_back(tokens, start, item);
    } else {
        // a comma stands behind the item
        lemma_list_prefix(tokens, pos, items, count, done + 2);
        let longer = write_list(items, done + 2);
        assert(longer == (write_list(items, done + 1) + seq![TokenKind::Comma])
            + write_expression(items[done as int + 1]));
        lemma_stands_parts(
            tokens,
            pos,
            write_list(items, done + 1) + seq![TokenKind::Comma],
            write_expression(items[done as int + 1]),
        );
        lemma_stands_parts(tokens, pos, write_list(items, done + 1), seq![TokenKind::Comma]);
        assert(tokens[end + 0].kind == TokenKind::Comma);
        lemma_expression_reads_back(tokens, start, item);
        lemma_list_steps(tokens, pos, items, count, (left - 1) as nat);
    }
}

/// A shorter list stands where a longer one does.
proof fn lemma_list_prefix(
    tokens: Seq<TokenView>,
    pos: int,
    items: Seq<ExpressionView>,
    count: nat,
    shorter: nat,
)
    requires
        1 <= shorter <= count <= items.len(),
        stands(tokens, pos, write_list(items, count)),
    ensures
        stands(tokens, pos, write_list(items, shorter)),
    decreases count,
{
    if shorter < count {
        let before = write_list(items, (count - 1) as nat);
        assert(write_list(items, count) == (before + seq![TokenKind::Comma]) + write_expression(
            items[count - 1],
        ));
        lemma_stands_parts(
            tokens,
            pos,
            before + seq![TokenKind::Comma],
            write_expression(items[count - 1]),
        );
        lemma_stands_parts(tokens, pos, before, seq![TokenKind::Comma]);
        lemma_list_prefix(tokens, pos, items, (count - 1) as nat, shorter);
    }
}

/// The tokens that write the parameter names from the `from`-th on, with a
/// comma between each two.
pub open spec fn write_names(names: Seq<Seq<char>>, from: nat) -> Seq<TokenKind>
    decreases names.len() - from,
{
    if from >= names.len() {
        Seq::empty()
    } else if from + 1 == names.len() {
        seq![TokenKind::Identifier(names[from as int])]
    } else {
        seq![TokenKind::Identifier(names[from as int]), TokenKind::Comma] + write_names(
            names,
            from + 1,
        )
    }
}

/// A statement that has a written form: a program is none, a function has
/// a parameter, a `for` loop has a control expression, a bare expression is
/// a call, and the statements inside are of this kind too.
pub open spec fn writable(node: NodeView) -> bool
    decreases node,
{
    match node {
        NodeView::Program(_) => false,
        NodeView::Function { name, params, body } => params.len() > 0 && forall|i: int|
            0 <= i < body.len() ==> writable(#[trigger] body[i]),
        NodeView::IfStatement { condition, then_branch, elif_branches, else_branch } => {
            &&& forall|i: int| 0 <= i < then_branch.len() ==> writable(#[trigger] then_branch[i])
            &&& forall|i: int, j: int|
                0 <= i < elif_branches.len() && 0 <= j < elif_branches[i].1.len() ==> writable(
                    #[trigger] elif_branches[i].1[j],
                )
            &&& else_branch matches Some(statements) ==> forall|i: int|
                0 <= i < statements.len() ==> writable(#[trigger] statements[i])
        },
        NodeView::ForLoop { control, body } => control.len() > 0 && forall|i: int|
            0 <= i < body.len() ==> writable(#[trigger] body[i]),
        NodeView::UntilLoop { condition, body } => forall|i: int|
            0 <= i < body.len() ==> writable(#[trigger] body[i]),
        NodeView::ExpressionStatement(expression) => expression is FunctionCall,
        _ => true,
    }
}

/// Every statement of the run has a written form.
pub open spec fn all_writable(statements: Seq<NodeView>) -> bool {
    forall|i: int| 0 <= i < statements.len() ==> writable(#[trigger] statements[i])
}

/// The tokens that write a statement.
pub open spec fn write_statement(node: NodeView) -> Seq<TokenKind>
    decreases node, 0nat,
{
    match node {
        NodeView::Program(_) => Seq::empty(),
        NodeView::Function { name, params, body } => seq![
            TokenKind::Function,
            TokenKind::Identifier(name),
            TokenKind::Uses,
        ] + write_names(params, 0) + write_block(body, 0) + seq![TokenKind::End],
        NodeView::VariableDeclaration { name, value } => seq![
            TokenKind::Identifier(name),
            TokenKind::Is,
        ] + write_expression(value),
        NodeView::IfStatement { condition, then_branch, elif_branches, else_branch } => seq![
            TokenKind::If,
        ] + write_expression(condition) + seq![TokenKind::Then] + write_block(then_branch, 0)
            + write_branches(elif_branches, 0) + match else_branch {
            Some(statements) => seq![TokenKind::Else] + write_block(statements, 0),
            None => Seq::empty(),
        } + seq![TokenKind::End],
        NodeView::ForLoop { control, body } => seq![TokenKind::For] + write_list(
            control,
            control.len(),
        ) + write_block(body, 0) + seq![TokenKind::End],
        NodeView::UntilLoop { condition, body } => seq![TokenKind::Until] + write_expression(
            condition,
        ) + write_block(body, 0) + seq![TokenKind::End],
        NodeView::ReturnStatement(value) => seq![TokenKind::Return] + write_expression(value),
        NodeView::ExpressionStatement(expression) => write_expression(expression),
        NodeView::Break => seq![TokenKind::Break],
        NodeView::Continue => seq![TokenKind::Continue],
    }
}

/// The tokens that write the statements from the `from`-th on, each with a
/// line break after it.
pub open spec fn write_block(statements: Seq<NodeView>, from: nat) -> Seq<TokenKind>
    decreases statements, statements.len() - from,
{
    if from >= statements.len() {
        Seq::empty()
    } else {
        write_statement(statements[from as int]) + seq![TokenKind::Newline] + write_block(
            statements,
            from + 1,
        )
    }
}

/// The tokens that write the `elif` branches from the `from`-th on.
pub open spec fn write_branches(branches: Seq<(ExpressionView, Seq<NodeView>)>, from: nat) -> Seq<
    TokenKind,
>
    decreases branches, branches.len() - from,
{
    if from >= branches.len() {
        Seq::empty()
    } else {
        seq![TokenKind::ElseIf] + write_expression(branches[from as int].0) + seq![
            TokenKind::Then,
        ] + write_block(branches[from as int].1, 0) + write_branches(branches, from + 1)
    }
}

/// A token of this kind begins a statement.
pub open spec fn leads(kind: TokenKind) -> bool {
    match kind {
        TokenKind::Function => true,
        TokenKind::Return => true,
        TokenKind::If => true,
        TokenKind::For => true,
        TokenKind::Until => true,
        TokenKind::Break => true,
        TokenKind::Continue => true,
        TokenKind::Identifier(_) => true,
        _ => false,
    }
}

/// Where kinds stand, the first of them is the kind of the token there.
proof fn lemma_first(tokens: Seq<TokenView>, pos: int, kinds: Seq<TokenKind>)
    requires
        stands(tokens, pos, kinds),
        kinds.len() > 0,
    ensures
        kind_at(tokens, pos) == kinds[0],
{
    assert(tokens[pos + 0].kind == kinds[0]);
}

/// The written form of a statement begins with a token that begins a
/// statement.
proof fn lemma_statement_begins(node: NodeView)
    requires
        writable(node),
    ensures
        write_statement(node).len() > 0,
        leads(write_statement(node)[0]),
{
    match node {
        NodeView::ExpressionStatement(expression) => {},
        _ => {},
    }
}

/// A written run of statements that is not empty begins with a token that
/// begins a statement.
proof fn lemma_block_begins(statements: Seq<NodeView>, from: nat)
    requires
        all_writable(statements),
        from < statements.len(),
    ensures
        write_block(statements, from).len() > 0,
        leads(write_block(statements, from)[0]),
{
    lemma_statement_begins(statements[from as int]);
}

/// The parameter names are read back, unless a comma stands behind them.
proof fn lemma_names_read_back(tokens: Seq<TokenView>, pos: int, names: Seq<Seq<char>>, from: nat)
    requires
        from < names.len(),
        stands(tokens, pos, write_names(names, from)),
        !(kind_at(tokens, pos + write_names(names, from).len()) is Comma),
    ensures
        parse_parameters(tokens, pos, names.take(from as int)) == Ok::<_, ParseErrorView>(
            (names, pos + write_names(names, from).len()),
        ),
    decreases names.len() - from,
{
    let w = write_names(names, from);
    assert(tokens[pos + 0].kind == w[0]);
    assert(names.take(from as int).push(names[from as int]) =~= names.take(from as int + 1));
    if from + 1 == names.len() {
        assert(names.take(from as int + 1) =~= names);
    } else {
        let head = seq![TokenKind::Identifier(names[from as int]), TokenKind::Comma];
        lemma_stands_parts(tokens, pos, head, write_names(names, from + 1));
        assert(tokens[pos + 1].kind == head[1]);
        lemma_names_read_back(tokens, pos + 2, names, from + 1);
    }
}

/// A written function is read back.
proof fn lemma_function_reads_back(tokens: Seq<TokenView>, pos: int, node: NodeView)
    requires
        writable(node),
        node is Function,
        stands(tokens, pos, write_statement(node)),
    ensures
        parse_statement(tokens, pos) == Ok::<_, ParseErrorView>(
            (node, pos + write_statement(node).len()),
        ),
    decreases node, 0nat,
{
    let w = write_statement(node);
    let end = pos + w.len();
    lemma_first(tokens, pos, w);
    match node {
        NodeView::Function { name, params, body } => {
            let head = seq![TokenKind::Function, TokenKind::Identifier(name), TokenKind::Uses];
            let names = write_names(params, 0);
            let block = write_block(body, 0);
            let close = seq![TokenKind::End];
            assert(w == ((head + names) + block) + close);
            lemma_stands_parts(tokens, pos, (head + names) + block, close);
            lemma_stands_parts(tokens, pos, head + names, block);
            lemma_stands_parts(tokens, pos, head, names);
            assert(tokens[pos + 1].kind == head[1]);
            assert(tokens[pos + 2].kind == head[2]);
            let start = pos + 3 + names.len();
            lemma_first(tokens, start + block.len(), close);
            if body.len() > 0 {
                lemma_block_begins(body, 0);
                lemma_first(tokens, start, block);
            }
            lemma_names_read_back(tokens, pos + 3, params, 0);
            assert(params.take(0) =~= Seq::<Seq<char>>::empty());
            lemma_block_reads_back(tokens, start, body, 0, Block::Body);
            assert(body.take(0) =~= Seq::<NodeView>::empty());
        },
        _ => {},
    }
}

/// A written conditional is read back.
proof fn lemma_conditional_reads_back(tokens: Seq<TokenView>, pos: int, node: NodeView)
    requires
        writable(node),
        node is IfStatement,
        stands(tokens, pos, write_statement(node)),
    ensures
        parse_statement(tokens, pos) == Ok::<_, ParseErrorView>(
            (node, pos + write_statement(node).len()),
        ),
    decreases node, 0nat,
{
    let w = write_statement(node);
    let end = pos + w.len();
    lemma_first(tokens, pos, w);
    match node {
        NodeView::IfStatement { condition, then_branch, elif_branches, else_branch } => {
            let head = seq![TokenKind::If];
            let test = write_expression(condition);
            let then = seq![TokenKind::Then];
            let first_block = write_block(then_branch, 0);
            let branches = write_branches(elif_branches, 0);
            let last = match else_branch {
                Some(statements) => seq![TokenKind::Else] + write_block(statements, 0),
                None => Seq::empty(),
            };
            let close = seq![TokenKind::End];
            assert(w == (((((head + test) + then) + first_block) + branches) + last) + close);
            lemma_stands_parts(
                tokens,
                pos,
                ((((head + test) + then) + first_block) + branches) + last,
                close,
            );
            lemma_stands_parts(
                tokens,
                pos,
                (((head + test) + then) + first_block) + branches,
                last,
            );
            lemma_stands_parts(tokens, pos, ((head + test) + then) + first_block, branches);
            lemma_stands_parts(tokens, pos, (head + test) + then, first_block);
            lemma_stands_parts(tokens, pos, head + test, then);
            lemma_stands_parts(tokens, pos, head, test);
            let mark = pos + 1 + test.len();
            let first = mark + 1 + first_block.len();
            let second = first + branches.len();
            let third = second + last.len();
            lemma_first(tokens, mark, then);
            lemma_first(tokens, third, close);
            // what stands behind the `elif` branches
            match else_branch {
                Some(statements) => {
                    lemma_first(tokens, second, last);
                },
                None => {},
            }
            assert(kind_at(tokens, second) is Else || kind_at(tokens, second) is End);
            // what stands behind the first block
            if elif_branches.len() > 0 {
                lemma_first(tokens, first, branches);
            }
            lemma_expression_reads_back(tokens, pos + 1, condition);
            lemma_block_reads_back(tokens, mark + 1, then_branch, 0, Block::Branch);
            assert(then_branch.take(0) =~= Seq::<NodeView>::empty());
            lemma_branches_read_back(tokens, first, elif_branches, 0);
            assert(elif_branches.take(0) =~= Seq::<(ExpressionView, Seq<NodeView>)>::empty());
            match else_branch {
                Some(statements) => {
                    lemma_stands_parts(
                        tokens,
                        second,
                        seq![TokenKind::Else],
                        write_block(statements, 0),
                    );
                    lemma_block_reads_back(tokens, second + 1, statements, 0, Block::Body);
                    assert(statements.take(0) =~= Seq::<NodeView>::empty());
                    assert(parse_else_branch(tokens, second) == Ok::<_, ParseErrorView>(
                        (Some(statements), third),
                    ));
                },
                None => {
                    assert(parse_else_branch(tokens, second) == Ok::<_, ParseErrorView>(
                        (None::<Seq<NodeView>>, third),
                    ));
                },
            }
            assert(parse_conditional(tokens, pos) == Ok::<_, ParseErrorView>((node, end)));
        },
        _ => {},
    }
}

/// A written `for` loop is read back.
proof fn lemma_for_reads_back(tokens: Seq<TokenView>, pos: int, node: NodeView)
    requires
        writable(node),
        node is ForLoop,
        stands(tokens, pos, write_statement(node)),
    ensures
        parse_statement(tokens, pos) == Ok::<_, ParseErrorView>(
            (node, pos + write_statement(node).len()),
        ),
    decreases node, 0nat,
{
    let w = write_statement(node);
    let end = pos + w.len();
    lemma_first(tokens, pos, w);
    match node {
        NodeView::ForLoop { control, body } => {
            let head = seq![TokenKind::For];
            let list = write_list(control, control.len());
            let block = write_block(body, 0);
            let close = seq![TokenKind::End];
            assert(w == ((head + list) + block) + close);
            lemma_stands_parts(tokens, pos, (head + list) + block, close);
            lemma_stands_parts(tokens, pos, head + list, block);
            lemma_stands_parts(tokens, pos, head, list);
            let start = pos + 1 + list.len();
            lemma_first(tokens, start + block.len(), close);
            if body.len() > 0 {
                lemma_block_begins(body, 0);
                lemma_first(tokens, start, block);
            }
            lemma_list_reads_back(tokens, pos + 1, control, control.len());
            assert(control.take(control.len() as int) =~= control);
            lemma_block_reads_back(tokens, start, body, 0, Block::Body);
            assert(body.take(0) =~= Seq::<NodeView>::empty());
            assert(parse_for(tokens, pos) == Ok::<_, ParseErrorView>((node, end)));
        },
        _ => {},
    }
}

/// A written `until` loop is read back.
proof fn lemma_until_reads_back(tokens: Seq<TokenView>, pos: int, node: NodeView)
    requires
        writable(node),
        node is UntilLoop,
        stands(tokens, pos, write_statement(node)),
    ensures
        parse_statement(tokens, pos) == Ok::<_, ParseErrorView>(
            (node, pos + write_statement(node).len()),
        ),
    decreases node, 0nat,
{
    let w = write_statement(node);
    let end = pos + w.len();
    lemma_first(tokens, pos, w);
    match node {
        NodeView::UntilLoop { condition, body } => {
            let head = seq![TokenKind::Until];
            let test = write_expression(condition);
            let block = write_block(body, 0);
            let close = seq![TokenKind::End];
            assert(w == ((head + test) + block) + close);
            lemma_stands_parts(tokens, pos, (head + test) + block, close);
            lemma_stands_parts(tokens, pos, head + test, block);
            lemma_stands_parts(tokens, pos, head, test);
            let start = pos + 1 + test.len();
            lemma_first(tokens, start + block.len(), close);
            if body.len() > 0 {
                lemma_block_begins(body, 0);
                lemma_first(tokens, start, block);
            }
            lemma_expression_reads_back(tokens, pos + 1, condition);
            lemma_block_reads_back(tokens, start, body, 0, Block::Body);
            assert(body.take(0) =~= Seq::<NodeView>::empty());
            assert(parse_until(tokens, pos) == Ok::<_, ParseErrorView>((node, end)));
        },
        _ => {},
    }
}

/// The written form of a statement is read back as that statement,
/// wherever it stands, unless the token behind it would extend it.
pub proof fn lemma_statement_reads_back(tokens: Seq<TokenView>, pos: int, node: NodeView)
    requires
        writable(node),
        stands(tokens, pos, write_statement(node)),
        !extends(kind_at(tokens, pos + write_statement(node).len())),
    ensures
        parse_statement(tokens, pos) == Ok::<_, ParseErrorView>(
            (node, pos + write_statement(node).len()),
        ),
    decreases node, 1nat,
{
    let w = write_statement(node);
    lemma_statement_begins(node);
    lemma_first(tokens, pos, w);
    match node {
        NodeView::Program(_) => {},
        NodeView::Function { name, params, body } => {
            lemma_function_reads_back(tokens, pos, node);
        },
        NodeView::VariableDeclaration { name, value } => {
            let head = seq![TokenKind::Identifier(name), TokenKind::Is];
            lemma_stands_parts(tokens, pos, head, write_expression(value));
            assert(tokens[pos + 1].kind == head[1]);
            lemma_expression_reads_back(tokens, pos + 2, value);
        },
        NodeView::IfStatement { condition, then_branch, elif_branches, else_branch } => {
            lemma_conditional_reads_back(tokens, pos, node);
        },
        NodeView::ForLoop { control, body } => {
            lemma_for_reads_back(tokens, pos, node);
        },
        NodeView::UntilLoop { condition, body } => {
            lemma_until_reads_back(tokens, pos, node);
        },
        NodeView::ReturnStatement(value) => {
            lemma_stands_parts(tokens, pos, seq![TokenKind::Return], write_expression(value));
            lemma_expression_reads_back(tokens, pos + 1, value);
        },
        NodeView::ExpressionStatement(expression) => {
            lemma_unary_reads_back(tokens, pos, expression);
            assert(tokens[pos + 1].kind == w[1]);
            assert(parse_primary(tokens, pos) == parse_unary(tokens, pos));
        },
        NodeView::Break => {},
        NodeView::Continue => {},
    }
}

/// The statements of a written run from the `from`-th on are read back,
/// up to the token behind them, which ends the run.
proof fn lemma_block_reads_back(
    tokens: Seq<TokenView>,
    pos: int,
    statements: Seq<NodeView>,
    from: nat,
    block: Block,
)
    requires
        all_writable(statements),
        from <= statements.len(),
        stands(tokens, pos, write_block(statements, from)),
        ends_block(kind_at(tokens, pos + write_block(statements, from).len()), block),
    ensures
        parse_block(tokens, pos, statements.take(from as int), block) == Ok::<_, ParseErrorView>(
            (statements, pos + write_block(statements, from).len()),
        ),
    decreases statements, statements.len() - from,
{
    if from >= statements.len() {
        assert(statements.take(from as int) =~= statements);
    } else {
        let node = statements[from as int];
        let w = write_statement(node);
        let rest = write_block(statements, from + 1);
        assert(write_block(statements, from) == (w + seq![TokenKind::Newline]) + rest);
        lemma_stands_parts(tokens, pos, w + seq![TokenKind::Newline], rest);
        lemma_stands_parts(tokens, pos, w, seq![TokenKind::Newline]);
        lemma_statement_begins(node);
        lemma_first(tokens, pos, w);
        lemma_first(tokens, pos + w.len(), seq![TokenKind::Newline]);
        lemma_statement_reads_back(tokens, pos, node);
        assert(statements.take(from as int).push(node) =~= statements.take(from as int + 1));
        lemma_block_reads_back(tokens, pos + w.len() + 1, statements, from + 1, block);
        assert(parse_block(tokens, pos + w.len(), statements.take(from as int + 1), block)
            == parse_block(tokens, pos + w.len() + 1, statements.take(from as int + 1), block));
    }
}

/// The `elif` branches of a written conditional from the `from`-th on are
/// read back, up to the `else` or the `end` behind them.
proof fn lemma_branches_read_back(
    tokens: Seq<TokenView>,
    pos: int,
    branches: Seq<(ExpressionView, Seq<NodeView>)>,
    from: nat,
)
    requires
        forall|i: int, j: int|
            0 <= i < branches.len() && 0 <= j < branches[i].1.len() ==> writable(
                #[trigger] branches[i].1[j],
            ),
        from <= branches.len(),
        stands(tokens, pos, write_branches(branches, from)),
        kind_at(tokens, pos + write_branches(branches, from).len()) is Else || kind_at(
            tokens,
            pos + write_branches(branches, from).len(),
        ) is End,
    ensures
        parse_elif_branches(tokens, pos, branches.take(from as int)) == Ok::<_, ParseErrorView>(
            (branches, pos + write_branches(branches, from).len()),
        ),
    decreases branches, branches.len() - from,
{
    if from >= branches.len() {
        assert(branches.take(from as int) =~= branches);
    } else {
        let condition = branches[from as int].0;
        let body = branches[from as int].1;
        let head = seq![TokenKind::ElseIf];
        let test = write_expression(condition);
        let then = seq![TokenKind::Then];
        let block = write_block(body, 0);
        let rest = write_branches(branches, from + 1);
        assert(write_branches(branches, from) == (((head + test) + then) + block) + rest);
        lemma_stands_parts(tokens, pos, ((head + test) + then) + block, rest);
        lemma_stands_parts(tokens, pos, (head + test) + then, block);
        lemma_stands_parts(tokens, pos, head + test, then);
        lemma_stands_parts(tokens, pos, head, test);
        lemma_first(tokens, pos, head);
        let mark = pos + 1 + test.len();
        let next = mark + 1 + block.len();
        lemma_first(tokens, mark, then);
        if from + 1 < branches.len() {
            lemma_first(tokens, next, rest);
        }
        assert(all_writable(body)) by {
            assert forall|j: int| 0 <= j < body.len() implies writable(#[trigger] body[j]) by {
                assert(writable(branches[from as int].1[j]));
            }
        }
        lemma_expression_reads_back(tokens, pos + 1, condition);
        lemma_block_reads_back(tokens, mark + 1, body, 0, Block::Branch);
        assert(body.take(0) =~= Seq::<NodeView>::empty());
        assert(branches.take(from as int).push((condition, body)) =~= branches.take(
            from as int + 1,
        ));
        lemma_branches_read_back(tokens, next, branches, from + 1);
    }
}

/// Every program has a written form, and the parser reads it back: where
/// the written statements of a program stand alone in the tokens, the parse
/// gives the program.
pub proof fn lemma_program_reads_back(tokens: Seq<TokenView>, statements: Seq<NodeView>)
    requires
        all_writable(statements),
        stands(tokens, 0, write_block(statements, 0)),
        kind_at(tokens, write_block(statements, 0).len() as int) is Eof,
    ensures
        parse_program(tokens, 0) == Ok::<_, ParseErrorView>(NodeView::Program(statements)),
{
    lemma_block_reads_back(tokens, 0, statements, 0, Block::Program);
    assert(statements.take(0) =~= Seq::<NodeView>::empty());
}

/// From text to tree. Where the tokens that write a program are
/// unambiguous, the text that writes those tokens is tokenized and parsed
/// to the program.
pub proof fn lemma_text_reads_back(statements: Seq<NodeView>)
    requires
        all_writable(statements),
        all_unambiguous(write_block(statements, 0)),
    ensures
        parse_program(tokenize(written(write_block(statements, 0))), 0) == Ok::<
            _,
            ParseErrorView,
        >(NodeView::Program(statements)),
{
    let kinds = write_block(statements, 0);
    let tokens = tokenize(written(kinds));
    lemma_read_back(kinds);
    assert(kinds_of(tokens).len() == tokens.len());
    assert(kinds.push(TokenKind::Eof).len() == kinds.len() + 1);
    assert forall|j: int| 0 <= j < kinds.len() implies (#[trigger] tokens[0 + j]).kind
        == kinds[j] by {
        assert(kinds_of(tokens)[j] == kinds.push(TokenKind::Eof)[j]);
    }
    assert(kinds_of(tokens)[kinds.len() as int] == kinds.push(TokenKind::Eof)[kinds.len() as int]);
    lemma_program_reads_back(tokens, statements);
}

} // verus!
