//! The parser: recursive descent over a token sequence, with a cursor that
//! only moves forward. The first error ends the parse.
use vstd::prelude::*;
use crate::ast::{
    branch_views, expression_views, name_views, node_views, ASTNode, BinaryOperator, Expression,
    ExpressionView, NodeView, ParseError, ParseErrorView, UnaryOperator,
};
use crate::grammar;
use crate::grammar::{failure, forward, kind_at, line_at, Block, Parsed};
use crate::token::{token_views, Token, TokenKind, TokenType, TokenView};

verus! {

/// A token sequence and a cursor into it.
pub struct Parser {
    tokens: Vec<Token>,
    current: usize,
}

/// The position of the first token from `pos` on that matches `kind`
/// structurally; the position after the last token where none does.
pub open spec fn first_match(tokens: Seq<TokenView>, pos: int, kind: TokenKind) -> int
    decreases tokens.len() - pos,
{
    if 0 <= pos < tokens.len() && !tokens[pos].kind.same_variant(kind) {
        first_match(tokens, pos + 1, kind)
    } else {
        pos
    }
}

/// What a parse step gave, with the cursor after it, as the grammar
/// states results.
pub open spec fn expression_outcome(after: Parser, r: Result<Expression, ParseError>) -> Parsed<
    ExpressionView,
> {
    match r {
        Ok(expression) => Ok((expression@, after.cursor())),
        Err(error) => Err(error@),
    }
}

/// What a parse step gave, with the cursor after it, as the grammar
/// states results.
pub open spec fn list_outcome(after: Parser, r: Result<Vec<Expression>, ParseError>) -> Parsed<
    Seq<ExpressionView>,
> {
    match r {
        Ok(items) => Ok((expression_views(items@), after.cursor())),
        Err(error) => Err(error@),
    }
}

/// What a parse step gave, with the cursor after it, as the grammar
/// states results.
pub open spec fn node_outcome(after: Parser, r: Result<ASTNode, ParseError>) -> Parsed<NodeView> {
    match r {
        Ok(node) => Ok((node@, after.cursor())),
        Err(error) => Err(error@),
    }
}

/// What a parse step gave, with the cursor after it, as the grammar
/// states results.
pub open spec fn block_outcome(after: Parser, r: Result<Vec<ASTNode>, ParseError>) -> Parsed<
    Seq<NodeView>,
> {
    match r {
        Ok(statements) => Ok((node_views(statements@), after.cursor())),
        Err(error) => Err(error@),
    }
}

/// What a whole parse gave, as the grammar states it.
pub open spec fn program_outcome(r: Result<ASTNode, ParseError>) -> Result<
    NodeView,
    ParseErrorView,
> {
    match r {
        Ok(node) => Ok(node@),
        Err(error) => Err(error@),
    }
}

spec fn names_outcome(after: Parser, r: Result<Vec<String>, ParseError>) -> Parsed<
    Seq<Seq<char>>,
> {
    match r {
        Ok(names) => Ok((name_views(names@), after.cursor())),
        Err(error) => Err(error@),
    }
}

spec fn branches_outcome(
    after: Parser,
    r: Result<Vec<(Expression, Vec<ASTNode>)>, ParseError>,
) -> Parsed<Seq<(ExpressionView, Seq<NodeView>)>> {
    match r {
        Ok(branches) => Ok((branch_views(branches@), after.cursor())),
        Err(error) => Err(error@),
    }
}

spec fn else_outcome(after: Parser, r: Result<Option<Vec<ASTNode>>, ParseError>) -> Parsed<
    Option<Seq<NodeView>>,
> {
    match r {
        Ok(Some(statements)) => Ok((Some(node_views(statements@)), after.cursor())),
        Ok(None) => Ok((None, after.cursor())),
        Err(error) => Err(error@),
    }
}

/// The model of a run of statements is the run of their views.
proof fn lemma_block_model(statements: &Vec<ASTNode>)
    ensures
        ASTNode::block_model(statements) == node_views(statements@),
{
    assert(ASTNode::block_model(statements) =~= node_views(statements@));
}

impl Parser {
    /// The tokens that the parser reads.
    pub closed spec fn tokens(&self) -> Seq<TokenView> {
        token_views(self.tokens@)
    }

    /// The position of the current token.
    pub closed spec fn cursor(&self) -> int {
        self.current as int
    }

    /// The cursor never stands beyond the end of the tokens.
    #[verifier::type_invariant]
    spec fn within(&self) -> bool {
        self.current <= self.tokens.len()
    }

    /// The error reports the token under the cursor: its line, and its
    /// kind as what was found.
    pub open spec fn stands_at(&self, error: ParseError) -> bool {
        error@ == failure(self.tokens(), self.cursor(), error@.expected)
    }

    /// A parser at the first of the given tokens.
    pub fn new(tokens: Vec<Token>) -> (parser: Parser)
        ensures
            parser.tokens() == token_views(tokens@),
            parser.cursor() == 0,
    {
        Parser { tokens, current: 0 }
    }

    /// The kind of the current token, where there is one.
    pub fn peek(&self) -> (r: Option<&TokenType>)
        ensures
            match r {
                Some(kind) => self.cursor() < self.tokens().len() && kind@ == kind_at(
                    self.tokens(),
                    self.cursor(),
                ),
                None => self.cursor() >= self.tokens().len(),
            },
    {
        if self.current < self.tokens.len() {
            Some(&self.tokens[self.current].token)
        } else {
            None
        }
    }

    /// The kind of the token `n` places after the current one, where there
    /// is one: `peek_n(0)` is the current token, `peek_n(1)` the next.
    /// Looking ahead moves nothing.
    pub fn peek_n(&self, n: usize) -> (r: Option<&TokenType>)
        ensures
            match r {
                Some(kind) => self.cursor() + n < self.tokens().len() && kind@ == kind_at(
                    self.tokens(),
                    self.cursor() + n,
                ),
                None => self.cursor() + n >= self.tokens().len(),
            },
    {
        if self.current < self.tokens.len() && n < self.tokens.len() - self.current {
            Some(&self.tokens[self.current + n].token)
        } else {
            None
        }
    }

    /// Looks ahead without moving: the tokens from the cursor up to the
    /// first one that matches `until` structurally, which is not among them.
    pub fn peek_until(&self, until: &TokenType) -> (found: Vec<&Token>)
        ensures
            self.cursor() + found.len() == first_match(self.tokens(), self.cursor(), until@),
            forall|i: int|
                0 <= i < found.len() ==> (#[trigger] found[i])@ == self.tokens()[self.cursor() + i],
    {
        let mut found: Vec<&Token> = Vec::new();
        let mut index: usize = self.current;
        while index < self.tokens.len() && !self.tokens[index].token.same_variant(until)
            invariant
                self.current <= index,
                index == self.current + found.len(),
                first_match(self.tokens(), self.cursor(), until@) == first_match(
                    self.tokens(),
                    index as int,
                    until@,
                ),
                forall|i: int|
                    0 <= i < found.len() ==> (#[trigger] found[i])@ == self.tokens()[self.cursor()
                        + i],
            decreases self.tokens.len() - index,
        {
            found.push(&self.tokens[index]);
            index += 1;
        }
        found
    }

    /// Whether there is a current token and it matches the given one
    /// structurally. Past the last token nothing matches.
    pub fn check(&self, token: &TokenType) -> (r: bool)
        ensures
            r == (self.cursor() < self.tokens().len()
                && self.tokens()[self.cursor()].kind.same_variant(token@)),
    {
        match self.peek() {
            Some(kind) => kind.same_variant(token),
            None => false,
        }
    }

    /// Whether the input has ended at the cursor: the end marker stands
    /// there, or no token at all.
    pub fn at_end(&self) -> (r: bool)
        ensures
            r == (kind_at(self.tokens(), self.cursor()) is Eof),
    {
        self.current >= self.tokens.len() || self.check(&TokenType::Eof)
    }

    /// The line of the current token; past the last token, the line of the
    /// last one, and 1 where there is none.
    pub fn get_line_number(&self) -> (r: i32)
        ensures
            r == line_at(self.tokens(), self.cursor()),
    {
        let n = self.tokens.len();
        if self.current < n {
            self.tokens[self.current].line_number
        } else if n > 0 {
            self.tokens[n - 1].line_number
        } else {
            1
        }
    }

    /// The error for the current token, which is not what was expected.
    fn failure(&self, message: &str) -> (error: ParseError)
        ensures
            error@ == failure(self.tokens(), self.cursor(), message@),
    {
        let found = match self.peek() {
            Some(kind) => kind.clone(),
            None => TokenType::Eof,
        };
        ParseError { line_number: self.get_line_number(), expected: message.to_owned(), found }
    }

    /// Moves past the current token.
    fn step(&mut self)
        requires
            old(self).cursor() < old(self).tokens().len(),
        ensures
            final(self).tokens() == old(self).tokens(),
            final(self).cursor() == old(self).cursor() + 1,
    {
        proof {
            use_type_invariant(&*self);
        }
        let n = self.tokens.len();
        assert(self.current < n);
        self.current += 1;
    }

    /// Moves past the current token, unless the input has ended there.
    pub fn advance(&mut self) -> (moved: bool)
        ensures
            final(self).tokens() == old(self).tokens(),
            moved == !(kind_at(old(self).tokens(), old(self).cursor()) is Eof),
            final(self).cursor() <= final(self).tokens().len(),
            final(self).cursor() == old(self).cursor() + if moved {
                1int
            } else {
                0int
            },
    {
        proof {
            use_type_invariant(&*self);
        }
        if self.at_end() {
            false
        } else {
            self.step();
            true
        }
    }

    /// Takes the current token if it matches the expected one structurally;
    /// fails with the message otherwise, and then moves nothing.
    pub fn consume(&mut self, expected: &TokenType, message: &str) -> (r: Result<Token, ParseError>)
        ensures
            final(self).tokens() == old(self).tokens(),
            r matches Err(error) ==> final(self).stands_at(error),
            old(self).cursor() <= final(self).cursor() <= final(self).tokens().len(),
            match r {
                Ok(token) => {
                    &&& old(self).cursor() < old(self).tokens().len()
                    &&& kind_at(old(self).tokens(), old(self).cursor()).same_variant(expected@)
                    &&& token@ == old(self).tokens()[old(self).cursor()]
                    &&& final(self).cursor() == old(self).cursor() + 1
                },
                Err(error) => {
                    &&& !(old(self).cursor() < old(self).tokens().len() && kind_at(
                        old(self).tokens(),
                        old(self).cursor(),
                    ).same_variant(expected@))
                    &&& error@ == failure(old(self).tokens(), old(self).cursor(), message@)
                    &&& final(self).cursor() == old(self).cursor()
                },
            },
    {
        proof {
            use_type_invariant(&*self);
        }
        if self.check(expected) {
            let token = self.tokens[self.current].clone();
            self.step();
            Ok(token)
        } else {
            Err(self.failure(message))
        }
    }

    /// Takes the current token if it is an identifier, and gives its name.
    fn consume_identifier(&mut self, message: &str) -> (r: Result<String, ParseError>)
        ensures
            final(self).tokens() == old(self).tokens(),
            r matches Err(error) ==> final(self).stands_at(error),
            old(self).cursor() <= final(self).cursor() <= final(self).tokens().len(),
            match r {
                Ok(name) => {
                    &&& kind_at(old(self).tokens(), old(self).cursor()) == TokenKind::Identifier(
                        name@,
                    )
                    &&& final(self).cursor() == old(self).cursor() + 1
                    &&& final(self).cursor() <= final(self).tokens().len()
                },
                Err(error) => {
                    &&& !(kind_at(old(self).tokens(), old(self).cursor()) is Identifier)
                    &&& error@ == failure(old(self).tokens(), old(self).cursor(), message@)
                    &&& final(self).cursor() == old(self).cursor()
                },
            },
    {
        proof {
            use_type_invariant(&*self);
        }
        let found = match self.peek() {
            Some(TokenType::Identifier(name)) => Some(name.clone()),
            _ => None,
        };
        match found {
            Some(name) => {
                self.step();
                Ok(name)
            },
            None => Err(self.failure(message)),
        }
    }

    /// Parses a primary expression.
    fn parse_primary(&mut self) -> (r: Result<Expression, ParseError>)
        ensures
            final(self).tokens() == old(self).tokens(),
            r matches Err(error) ==> final(self).stands_at(error),
            old(self).cursor() <= final(self).cursor() <= final(self).tokens().len(),
            expression_outcome(*final(self), r) == grammar::parse_primary(
                old(self).tokens(),
                old(self).cursor(),
            ),
            r is Ok ==> forward(old(self).tokens(), old(self).cursor(), final(self).cursor()),
        decreases old(self).tokens().len() - old(self).cursor(), 2int,
    {
        proof {
            use_type_invariant(&*self);
        }
        let token = match self.peek() {
            Some(kind) => kind.clone(),
            None => TokenType::Eof,
        };
        match token {
            TokenType::Integer(value) => {
                self.step();
                Ok(Expression::IntegerLiteral(value))
            },
            TokenType::Float(text) => {
                self.step();
                Ok(Expression::FloatLiteral(text))
            },
            TokenType::StringLiteral(text) => {
                self.step();
                Ok(Expression::StringLiteral(text))
            },
            TokenType::True => {
                self.step();
                Ok(Expression::BooleanLiteral(true))
            },
            TokenType::False => {
                self.step();
                Ok(Expression::BooleanLiteral(false))
            },
            TokenType::Identifier(name) => {
                let call = match self.peek_n(1) {
                    Some(TokenType::OpenParenthesis) => true,
                    _ => false,
                };
                if call {
                    self.step();
                    self.step();
                    match self.parse_arguments() {
                        Ok(params) => {
                            let call = Expression::FunctionCall { name, params };
                            assert(call@->FunctionCall_params =~= expression_views(params@));
                            Ok(call)
                        },
                        Err(error) => Err(error),
                    }
                } else {
                    self.step();
                    Ok(Expression::Variable(name))
                }
            },
            TokenType::OpenParenthesis => {
                self.step();
                match self.parse_expression() {
                    Ok(inner) => match self.consume(
                        &TokenType::CloseParenthesis,
                        "expected a closing parenthesis",
                    ) {
                        Ok(_) => Ok(inner),
                        Err(error) => Err(error),
                    },
                    Err(error) => Err(error),
                }
            },
            _ => Err(self.failure("expected an expression")),
        }
    }

    /// Parses a primary expression with any number of `not` in front.
    fn parse_unary(&mut self) -> (r: Result<Expression, ParseError>)
        ensures
            final(self).tokens() == old(self).tokens(),
            r matches Err(error) ==> final(self).stands_at(error),
            old(self).cursor() <= final(self).cursor() <= final(self).tokens().len(),
            expression_outcome(*final(self), r) == grammar::parse_unary(
                old(self).tokens(),
                old(self).cursor(),
            ),
            r is Ok ==> forward(old(self).tokens(), old(self).cursor(), final(self).cursor()),
        decreases old(self).tokens().len() - old(self).cursor(), 3int,
    {
        proof {
            use_type_invariant(&*self);
        }
        if self.check(&TokenType::Not) {
            self.step();
            match self.parse_unary() {
                Ok(operand) => Ok(
                    Expression::UnaryOperation {
                        operator: UnaryOperator::Not,
                        operand: Box::new(operand),
                    },
                ),
                Err(error) => Err(error),
            }
        } else {
            self.parse_primary()
        }
    }

    /// Parses an expression whose operators all bind at least as tightly
    /// as `floor`.
    fn parse_binary(&mut self, floor: u8) -> (r: Result<Expression, ParseError>)
        ensures
            final(self).tokens() == old(self).tokens(),
            r matches Err(error) ==> final(self).stands_at(error),
            old(self).cursor() <= final(self).cursor() <= final(self).tokens().len(),
            expression_outcome(*final(self), r) == grammar::parse_binary(
                old(self).tokens(),
                old(self).cursor(),
                floor as int,
            ),
            r is Ok ==> forward(old(self).tokens(), old(self).cursor(), final(self).cursor()),
        decreases old(self).tokens().len() - old(self).cursor(), 4int,
    {
        proof {
            use_type_invariant(&*self);
        }
        let ghost tokens = self.tokens();
        let ghost entry = self.cursor();
        let mut left = match self.parse_unary() {
            Ok(left) => left,
            Err(error) => {
                return Err(error);
            },
        };
        loop
            invariant
                tokens == old(self).tokens(),
                entry == old(self).cursor(),
                self.tokens() == tokens,
                self.cursor() <= tokens.len(),
                forward(tokens, entry, self.cursor()),
                grammar::parse_binary(tokens, entry, floor as int) == grammar::climb(
                    tokens,
                    left@,
                    self.cursor(),
                    floor as int,
                ),
            decreases tokens.len() - self.cursor(),
        {
            let operator = match self.peek() {
                Some(kind) => BinaryOperator::from_token(kind),
                None => None,
            };
            match operator {
                Some(operator) => {
                    if operator.precedence() >= floor {
                        self.step();
                        match self.parse_binary(operator.right_floor()) {
                            Ok(right) => {
                                left = Expression::BinaryOperation {
                                    left: Box::new(left),
                                    operator,
                                    right: Box::new(right),
                                };
                            },
                            Err(error) => {
                                return Err(error);
                            },
                        }
                    } else {
                        return Ok(left);
                    }
                },
                None => {
                    return Ok(left);
                },
            }
        }
    }

    /// Parses an expression. The parse ends before the first token that
    /// cannot extend the expression.
    pub fn parse_expression(&mut self) -> (r: Result<Expression, ParseError>)
        ensures
            final(self).tokens() == old(self).tokens(),
            r matches Err(error) ==> final(self).stands_at(error),
            old(self).cursor() <= final(self).cursor() <= final(self).tokens().len(),
            expression_outcome(*final(self), r) == grammar::parse_expression(
                old(self).tokens(),
                old(self).cursor(),
            ),
            r is Ok ==> forward(old(self).tokens(), old(self).cursor(), final(self).cursor()),
        decreases old(self).tokens().len() - old(self).cursor(), 5int,
    {
        proof {
            use_type_invariant(&*self);
        }
        self.parse_binary(1)
    }

    /// Parses one or more expressions with commas between them.
    fn parse_expression_list(&mut self) -> (r: Result<Vec<Expression>, ParseError>)
        ensures
            final(self).tokens() == old(self).tokens(),
            r matches Err(error) ==> final(self).stands_at(error),
            old(self).cursor() <= final(self).cursor() <= final(self).tokens().len(),
            list_outcome(*final(self), r) == grammar::parse_expression_list(
                old(self).tokens(),
                old(self).cursor(),
                Seq::empty(),
            ),
            r is Ok ==> forward(old(self).tokens(), old(self).cursor(), final(self).cursor()),
        decreases old(self).tokens().len() - old(self).cursor(), 6int,
    {
        proof {
            use_type_invariant(&*self);
        }
        let ghost tokens = self.tokens();
        let ghost entry = self.cursor();
        let mut items: Vec<Expression> = Vec::new();
        assert(expression_views(items@) =~= Seq::empty());
        loop
            invariant
                tokens == old(self).tokens(),
                entry == old(self).cursor(),
                self.tokens() == tokens,
                self.cursor() <= tokens.len(),
                self.cursor() == entry || forward(tokens, entry, self.cursor()),
                grammar::parse_expression_list(tokens, entry, Seq::empty())
                    == grammar::parse_expression_list(
                    tokens,
                    self.cursor(),
                    expression_views(items@),
                ),
            decreases tokens.len() - self.cursor(),
        {
            match self.parse_expression() {
                Ok(item) => {
                    let ghost before = expression_views(items@);
                    items.push(item);
                    assert(expression_views(items@) =~= before.push(item@));
                    if self.check(&TokenType::Comma) {
                        self.step();
                    } else {
                        return Ok(items);
                    }
                },
                Err(error) => {
                    return Err(error);
                },
            }
        }
    }

    /// Parses the arguments of a call, from the token after `(` to the `)`
    /// that closes them.
    fn parse_arguments(&mut self) -> (r: Result<Vec<Expression>, ParseError>)
        ensures
            final(self).tokens() == old(self).tokens(),
            r matches Err(error) ==> final(self).stands_at(error),
            old(self).cursor() <= final(self).cursor() <= final(self).tokens().len(),
            list_outcome(*final(self), r) == grammar::parse_arguments(
                old(self).tokens(),
                old(self).cursor(),
            ),
            r is Ok ==> forward(old(self).tokens(), old(self).cursor(), final(self).cursor()),
        decreases old(self).tokens().len() - old(self).cursor(), 7int,
    {
        proof {
            use_type_invariant(&*self);
        }
        if self.check(&TokenType::CloseParenthesis) {
            self.step();
            let params: Vec<Expression> = Vec::new();
            assert(expression_views(params@) =~= Seq::empty());
            Ok(params)
        } else {
            match self.parse_expression_list() {
                Ok(params) => match self.consume(
                    &TokenType::CloseParenthesis,
                    "expected a closing parenthesis",
                ) {
                    Ok(_) => Ok(params),
                    Err(error) => Err(error),
                },
                Err(error) => Err(error),
            }
        }
    }

    /// Parses one or more parameter names with commas between them.
    fn parse_parameters(&mut self) -> (r: Result<Vec<String>, ParseError>)
        ensures
            final(self).tokens() == old(self).tokens(),
            r matches Err(error) ==> final(self).stands_at(error),
            old(self).cursor() <= final(self).cursor() <= final(self).tokens().len(),
            names_outcome(*final(self), r) == grammar::parse_parameters(
                old(self).tokens(),
                old(self).cursor(),
                Seq::empty(),
            ),
            r is Ok ==> forward(old(self).tokens(), old(self).cursor(), final(self).cursor()),
    {
        proof {
            use_type_invariant(&*self);
        }
        let ghost tokens = self.tokens();
        let ghost entry = self.cursor();
        let mut names: Vec<String> = Vec::new();
        assert(name_views(names@) =~= Seq::empty());
        loop
            invariant
                tokens == old(self).tokens(),
                entry == old(self).cursor(),
                self.tokens() == tokens,
                self.cursor() <= tokens.len(),
                self.cursor() == entry || forward(tokens, entry, self.cursor()),
                grammar::parse_parameters(tokens, entry, Seq::empty())
                    == grammar::parse_parameters(tokens, self.cursor(), name_views(names@)),
            decreases tokens.len() - self.cursor(),
        {
            match self.consume_identifier("expected a parameter name") {
                Ok(name) => {
                    let ghost before = name_views(names@);
                    let ghost spelled = name@;
                    names.push(name);
                    assert(name_views(names@) =~= before.push(spelled));
                    if self.check(&TokenType::Comma) {
                        self.step();
                    } else {
                        return Ok(names);
                    }
                },
                Err(error) => {
                    return Err(error);
                },
            }
        }
    }

    /// Parses a call that stands as a statement.
    fn parse_function_call(&mut self) -> (r: Result<ASTNode, ParseError>)
        ensures
            final(self).tokens() == old(self).tokens(),
            r matches Err(error) ==> final(self).stands_at(error),
            old(self).cursor() <= final(self).cursor() <= final(self).tokens().len(),
            node_outcome(*final(self), r) == grammar::parse_function_call(
                old(self).tokens(),
                old(self).cursor(),
            ),
            r is Ok ==> forward(old(self).tokens(), old(self).cursor(), final(self).cursor()),
    {
        proof {
            use_type_invariant(&*self);
        }
        let name = match self.consume_identifier("expected a function name") {
            Ok(name) => name,
            Err(error) => {
                return Err(error);
            },
        };
        match self.consume(&TokenType::OpenParenthesis, "expected an opening parenthesis") {
            Ok(_) => {},
            Err(error) => {
                return Err(error);
            },
        }
        match self.parse_arguments() {
            Ok(params) => {
                let call = Expression::FunctionCall { name, params };
                assert(call@->FunctionCall_params =~= expression_views(params@));
                Ok(ASTNode::ExpressionStatement(call))
            },
            Err(error) => Err(error),
        }
    }

    /// Parses a variable declaration.
    fn parse_variable_declaration(&mut self) -> (r: Result<ASTNode, ParseError>)
        ensures
            final(self).tokens() == old(self).tokens(),
            r matches Err(error) ==> final(self).stands_at(error),
            old(self).cursor() <= final(self).cursor() <= final(self).tokens().len(),
            node_outcome(*final(self), r) == grammar::parse_variable_declaration(
                old(self).tokens(),
                old(self).cursor(),
            ),
            r is Ok ==> forward(old(self).tokens(), old(self).cursor(), final(self).cursor()),
    {
        proof {
            use_type_invariant(&*self);
        }
        let name = match self.consume_identifier("expected a variable name") {
            Ok(name) => name,
            Err(error) => {
                return Err(error);
            },
        };
        match self.consume(&TokenType::Is, "expected an is keyword") {
            Ok(_) => {},
            Err(error) => {
                return Err(error);
            },
        }
        match self.parse_expression() {
            Ok(value) => Ok(ASTNode::VariableDeclaration { name, value }),
            Err(error) => Err(error),
        }
    }

    /// Parses a `return` statement.
    fn parse_return(&mut self) -> (r: Result<ASTNode, ParseError>)
        ensures
            final(self).tokens() == old(self).tokens(),
            r matches Err(error) ==> final(self).stands_at(error),
            old(self).cursor() <= final(self).cursor() <= final(self).tokens().len(),
            node_outcome(*final(self), r) == grammar::parse_return(
                old(self).tokens(),
                old(self).cursor(),
            ),
            r is Ok ==> forward(old(self).tokens(), old(self).cursor(), final(self).cursor()),
    {
        proof {
            use_type_invariant(&*self);
        }
        match self.consume(&TokenType::Return, "expected a return keyword") {
            Ok(_) => {},
            Err(error) => {
                return Err(error);
            },
        }
        match self.parse_expression() {
            Ok(value) => Ok(ASTNode::ReturnStatement(value)),
            Err(error) => Err(error),
        }
    }

    /// Whether the current token ends a run of statements.
    fn at_block_end(&self, block: Block) -> (r: bool)
        ensures
            r == grammar::ends_block(kind_at(self.tokens(), self.cursor()), block),
    {
        match self.peek() {
            None => true,
            Some(TokenType::Eof) => true,
            Some(TokenType::End) => match block {
                Block::Program => false,
                _ => true,
            },
            Some(TokenType::Else) => match block {
                Block::Branch => true,
                _ => false,
            },
            Some(TokenType::ElseIf) => match block {
                Block::Branch => true,
                _ => false,
            },
            Some(_) => false,
        }
    }

    /// Parses statements up to the token that ends the run, which stays.
    fn parse_block(&mut self, block: Block) -> (r: Result<Vec<ASTNode>, ParseError>)
        ensures
            final(self).tokens() == old(self).tokens(),
            r matches Err(error) ==> final(self).stands_at(error),
            old(self).cursor() <= final(self).cursor() <= final(self).tokens().len(),
            block_outcome(*final(self), r) == grammar::parse_block(
                old(self).tokens(),
                old(self).cursor(),
                Seq::empty(),
                block,
            ),
            r is Ok ==> grammar::ends_block(
                kind_at(final(self).tokens(), final(self).cursor()),
                block,
            ),
        decreases old(self).tokens().len() - old(self).cursor(), 12int,
    {
        proof {
            use_type_invariant(&*self);
        }
        let ghost tokens = self.tokens();
        let ghost entry = self.cursor();
        let mut statements: Vec<ASTNode> = Vec::new();
        assert(node_views(statements@) =~= Seq::empty());
        loop
            invariant
                tokens == old(self).tokens(),
                entry == old(self).cursor(),
                self.tokens() == tokens,
                self.cursor() <= tokens.len(),
                self.cursor() == entry || forward(tokens, entry, self.cursor()),
                grammar::parse_block(tokens, entry, Seq::empty(), block) == grammar::parse_block(
                    tokens,
                    self.cursor(),
                    node_views(statements@),
                    block,
                ),
            decreases tokens.len() - self.cursor(),
        {
            if self.check(&TokenType::Newline) {
                self.advance();
            } else if self.at_block_end(block) {
                return Ok(statements);
            } else {
                match self.parse_statement() {
                    Ok(statement) => {
                        let ghost before = node_views(statements@);
                        statements.push(statement);
                        assert(node_views(statements@) =~= before.push(statement@));
                    },
                    Err(error) => {
                        return Err(error);
                    },
                }
            }
        }
    }

    /// Takes the `end` that closes a body.
    fn close_block(&mut self, node: ASTNode) -> (r: Result<ASTNode, ParseError>)
        ensures
            final(self).tokens() == old(self).tokens(),
            r matches Err(error) ==> final(self).stands_at(error),
            old(self).cursor() <= final(self).cursor() <= final(self).tokens().len(),
            node_outcome(*final(self), r) == grammar::close_block(
                old(self).tokens(),
                old(self).cursor(),
                node@,
            ),
            r is Ok ==> forward(old(self).tokens(), old(self).cursor(), final(self).cursor()),
    {
        proof {
            use_type_invariant(&*self);
        }
        match self.consume(&TokenType::End, "expected an end keyword") {
            Ok(_) => Ok(node),
            Err(error) => Err(error),
        }
    }

    /// Parses one statement, chosen by the kind of the current token.
    pub fn parse_statement(&mut self) -> (r: Result<ASTNode, ParseError>)
        ensures
            final(self).tokens() == old(self).tokens(),
            r matches Err(error) ==> final(self).stands_at(error),
            old(self).cursor() <= final(self).cursor() <= final(self).tokens().len(),
            node_outcome(*final(self), r) == grammar::parse_statement(
                old(self).tokens(),
                old(self).cursor(),
            ),
            r is Ok ==> forward(old(self).tokens(), old(self).cursor(), final(self).cursor()),
        decreases old(self).tokens().len() - old(self).cursor(), 11int,
    {
        proof {
            use_type_invariant(&*self);
        }
        if self.check(&TokenType::Function) {
            self.parse_function()
        } else if self.check(&TokenType::Return) {
            self.parse_return()
        } else if self.check(&TokenType::If) {
            self.parse_conditional()
        } else if self.check(&TokenType::For) {
            self.parse_for()
        } else if self.check(&TokenType::Until) {
            self.parse_until()
        } else if self.check(&TokenType::Break) {
            self.step();
            Ok(ASTNode::Break)
        } else if self.check(&TokenType::Continue) {
            self.step();
            Ok(ASTNode::Continue)
        } else if self.check(&TokenType::Identifier(String::new())) {
            let follower: u8 = match self.peek_n(1) {
                Some(TokenType::OpenParenthesis) => 1,
                Some(TokenType::Is) => 2,
                _ => 0,
            };
            if follower == 1 {
                self.parse_function_call()
            } else if follower == 2 {
                self.parse_variable_declaration()
            } else {
                Err(self.failure("invalid variable declaration syntax"))
            }
        } else {
            Err(self.failure("expected a statement"))
        }
    }

    /// Parses a function.
    fn parse_function(&mut self) -> (r: Result<ASTNode, ParseError>)
        ensures
            final(self).tokens() == old(self).tokens(),
            r matches Err(error) ==> final(self).stands_at(error),
            old(self).cursor() <= final(self).cursor() <= final(self).tokens().len(),
            node_outcome(*final(self), r) == grammar::parse_function(
                old(self).tokens(),
                old(self).cursor(),
            ),
            r is Ok ==> forward(old(self).tokens(), old(self).cursor(), final(self).cursor()),
        decreases old(self).tokens().len() - old(self).cursor(), 10int,
    {
        proof {
            use_type_invariant(&*self);
        }
        match self.consume(&TokenType::Function, "function keyword expected") {
            Ok(_) => {},
            Err(error) => {
                return Err(error);
            },
        }
        let name = match self.consume_identifier("function name expected") {
            Ok(name) => name,
            Err(error) => {
                return Err(error);
            },
        };
        match self.consume(&TokenType::Uses, "expected a uses keyword") {
            Ok(_) => {},
            Err(error) => {
                return Err(error);
            },
        }
        let params = match self.parse_parameters() {
            Ok(params) => params,
            Err(error) => {
                return Err(error);
            },
        };
        let body = match self.parse_block(Block::Body) {
            Ok(body) => body,
            Err(error) => {
                return Err(error);
            },
        };
        proof {
            lemma_block_model(&body);
        }
        self.close_block(ASTNode::Function { name, params, body })
    }

    /// Parses the `elif` branches of a conditional.
    fn parse_elif_branches(&mut self) -> (r: Result<
        Vec<(Expression, Vec<ASTNode>)>,
        ParseError,
    >)
        ensures
            final(self).tokens() == old(self).tokens(),
            r matches Err(error) ==> final(self).stands_at(error),
            old(self).cursor() <= final(self).cursor() <= final(self).tokens().len(),
            branches_outcome(*final(self), r) == grammar::parse_elif_branches(
                old(self).tokens(),
                old(self).cursor(),
                Seq::empty(),
            ),
        decreases old(self).tokens().len() - old(self).cursor(), 9int,
    {
        proof {
            use_type_invariant(&*self);
        }
        let ghost tokens = self.tokens();
        let ghost entry = self.cursor();
        let mut branches: Vec<(Expression, Vec<ASTNode>)> = Vec::new();
        assert(branch_views(branches@) =~= Seq::empty());
        loop
            invariant
                tokens == old(self).tokens(),
                entry == old(self).cursor(),
                self.tokens() == tokens,
                self.cursor() <= tokens.len(),
                self.cursor() == entry || forward(tokens, entry, self.cursor()),
                grammar::parse_elif_branches(tokens, entry, Seq::empty())
                    == grammar::parse_elif_branches(
                    tokens,
                    self.cursor(),
                    branch_views(branches@),
                ),
            decreases tokens.len() - self.cursor(),
        {
            if !self.check(&TokenType::ElseIf) {
                return Ok(branches);
            }
            self.step();
            let condition = match self.parse_expression() {
                Ok(condition) => condition,
                Err(error) => {
                    return Err(error);
                },
            };
            match self.consume(&TokenType::Then, "expected a then keyword") {
                Ok(_) => {},
                Err(error) => {
                    return Err(error);
                },
            }
            let body = match self.parse_block(Block::Branch) {
                Ok(body) => body,
                Err(error) => {
                    return Err(error);
                },
            };
            let ghost before = branch_views(branches@);
            let ghost added = (condition@, node_views(body@));
            branches.push((condition, body));
            assert(branch_views(branches@) =~= before.push(added));
        }
    }

    /// Parses the `else` branch of a conditional, where there is one.
    fn parse_else_branch(&mut self) -> (r: Result<Option<Vec<ASTNode>>, ParseError>)
        ensures
            final(self).tokens() == old(self).tokens(),
            r matches Err(error) ==> final(self).stands_at(error),
            old(self).cursor() <= final(self).cursor() <= final(self).tokens().len(),
            else_outcome(*final(self), r) == grammar::parse_else_branch(
                old(self).tokens(),
                old(self).cursor(),
            ),
        decreases old(self).tokens().len() - old(self).cursor(), 9int,
    {
        proof {
            use_type_invariant(&*self);
        }
        if self.check(&TokenType::Else) {
            self.step();
            match self.parse_block(Block::Body) {
                Ok(body) => Ok(Some(body)),
                Err(error) => Err(error),
            }
        } else {
            Ok(None)
        }
    }

    /// Parses a conditional.
    fn parse_conditional(&mut self) -> (r: Result<ASTNode, ParseError>)
        ensures
            final(self).tokens() == old(self).tokens(),
            r matches Err(error) ==> final(self).stands_at(error),
            old(self).cursor() <= final(self).cursor() <= final(self).tokens().len(),
            node_outcome(*final(self), r) == grammar::parse_conditional(
                old(self).tokens(),
                old(self).cursor(),
            ),
            r is Ok ==> forward(old(self).tokens(), old(self).cursor(), final(self).cursor()),
        decreases old(self).tokens().len() - old(self).cursor(), 10int,
    {
        proof {
            use_type_invariant(&*self);
        }
        match self.consume(&TokenType::If, "expected an if keyword") {
            Ok(_) => {},
            Err(error) => {
                return Err(error);
            },
        }
        let condition = match self.parse_expression() {
            Ok(condition) => condition,
            Err(error) => {
                return Err(error);
            },
        };
        match self.consume(&TokenType::Then, "expected a then keyword") {
            Ok(_) => {},
            Err(error) => {
                return Err(error);
            },
        }
        let then_branch = match self.parse_block(Block::Branch) {
            Ok(statements) => statements,
            Err(error) => {
                return Err(error);
            },
        };
        let elif_branches = match self.parse_elif_branches() {
            Ok(branches) => branches,
            Err(error) => {
                return Err(error);
            },
        };
        let else_branch = match self.parse_else_branch() {
            Ok(branch) => branch,
            Err(error) => {
                return Err(error);
            },
        };
        proof {
            lemma_block_model(&then_branch);
            assert forall|i: int| 0 <= i < elif_branches.len() implies ASTNode::block_model(
                &elif_branches[i].1,
            ) == node_views(#[trigger] elif_branches[i].1@) by {
                lemma_block_model(&elif_branches[i].1);
            }
            if let Some(statements) = &else_branch {
                lemma_block_model(statements);
            }
        }
        let ghost branches = branch_views(elif_branches@);
        let node = ASTNode::IfStatement { condition, then_branch, elif_branches, else_branch };
        assert(node@->IfStatement_elif_branches =~= branches);
        self.close_block(node)
    }

    /// Parses a `for` loop.
    fn parse_for(&mut self) -> (r: Result<ASTNode, ParseError>)
        ensures
            final(self).tokens() == old(self).tokens(),
            r matches Err(error) ==> final(self).stands_at(error),
            old(self).cursor() <= final(self).cursor() <= final(self).tokens().len(),
            node_outcome(*final(self), r) == grammar::parse_for(
                old(self).tokens(),
                old(self).cursor(),
            ),
            r is Ok ==> forward(old(self).tokens(), old(self).cursor(), final(self).cursor()),
        decreases old(self).tokens().len() - old(self).cursor(), 10int,
    {
        proof {
            use_type_invariant(&*self);
        }
        match self.consume(&TokenType::For, "expected a for keyword") {
            Ok(_) => {},
            Err(error) => {
                return Err(error);
            },
        }
        let control = match self.parse_expression_list() {
            Ok(control) => control,
            Err(error) => {
                return Err(error);
            },
        };
        let body = match self.parse_block(Block::Body) {
            Ok(body) => body,
            Err(error) => {
                return Err(error);
            },
        };
        proof {
            lemma_block_model(&body);
        }
        self.close_block(ASTNode::ForLoop { control, body })
    }

    /// Parses an `until` loop.
    fn parse_until(&mut self) -> (r: Result<ASTNode, ParseError>)
        ensures
            final(self).tokens() == old(self).tokens(),
            r matches Err(error) ==> final(self).stands_at(error),
            old(self).cursor() <= final(self).cursor() <= final(self).tokens().len(),
            node_outcome(*final(self), r) == grammar::parse_until(
                old(self).tokens(),
                old(self).cursor(),
            ),
            r is Ok ==> forward(old(self).tokens(), old(self).cursor(), final(self).cursor()),
        decreases old(self).tokens().len() - old(self).cursor(), 10int,
    {
        proof {
            use_type_invariant(&*self);
        }
        match self.consume(&TokenType::Until, "expected an until keyword") {
            Ok(_) => {},
            Err(error) => {
                return Err(error);
            },
        }
        let condition = match self.parse_expression() {
            Ok(condition) => condition,
            Err(error) => {
                return Err(error);
            },
        };
        let body = match self.parse_block(Block::Body) {
            Ok(body) => body,
            Err(error) => {
                return Err(error);
            },
        };
        proof {
            lemma_block_model(&body);
        }
        self.close_block(ASTNode::UntilLoop { condition, body })
    }

    /// Parses the whole program: statements up to the end of the input.
    /// The result is the tree, or the first error.
    pub fn parse_program(&mut self) -> (r: Result<ASTNode, ParseError>)
        ensures
            final(self).tokens() == old(self).tokens(),
            r matches Err(error) ==> final(self).stands_at(error),
            old(self).cursor() <= final(self).cursor() <= final(self).tokens().len(),
            program_outcome(r) == grammar::parse_program(old(self).tokens(), old(self).cursor()),
            r is Ok ==> kind_at(final(self).tokens(), final(self).cursor()) is Eof,
    {
        proof {
            use_type_invariant(&*self);
        }
        match self.parse_block(Block::Program) {
            Ok(statements) => {
                proof {
                    lemma_block_model(&statements);
                }
                Ok(ASTNode::Program(statements))
            },
            Err(error) => Err(error),
        }
    }
}

} // verus!
