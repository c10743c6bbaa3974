//! Tokens: their kinds, the keyword table, and how a piece of text is
//! resolved to a kind.
use vstd::prelude::*;
use vstd::string::StringExecFns;
use crate::chars::{chars_of, lowercase, spells, text_of, lowercase_of};
use crate::number::{
    integer_text, integer_value, is_float, is_float_literal, parse_integer, push_integer,
};

verus! {

/// The kind of a token. Four kinds carry what the text said.
#[derive(Debug, PartialEq)]
pub enum TokenType {
    /// The annotation marker `note`.
    Note,
    /// `lte`, less than or equal.
    Lte,
    /// `gte`, greater than or equal.
    Gte,
    /// `gt`, greater than.
    Gt,
    /// `lt`, less than.
    Lt,
    /// `neq`, not equal.
    Neq,
    /// `eq`, equal.
    Eq,
    /// `for`.
    For,
    /// `until`.
    Until,
    /// `break`.
    Break,
    /// `continue`.
    Continue,
    /// `if`.
    If,
    /// `then`.
    Then,
    /// `else`.
    Else,
    /// `elif`.
    ElseIf,
    /// `do`.
    Do,
    /// `end`.
    End,
    /// `is`, assignment.
    Is,
    /// `false`.
    False,
    /// `true`.
    True,
    /// `func`.
    Function,
    /// `uses`, which introduces the parameters.
    Uses,
    /// `or`.
    Or,
    /// `and`.
    And,
    /// `not`.
    Not,
    /// `return`.
    Return,
    /// `*`.
    Multiply,
    /// `+`.
    Add,
    /// `-`.
    Subtract,
    /// `/`.
    Divide,
    /// `^`.
    Power,
    /// `(`.
    OpenParenthesis,
    /// `)`.
    CloseParenthesis,
    /// A name, with its spelling kept as written.
    Identifier(String),
    /// A string literal, without its quotes.
    StringLiteral(String),
    /// `,`.
    Comma,
    /// A line break.
    Newline,
    /// An integer literal.
    Integer(i64),
    /// A floating-point literal, kept as the text that wrote it.
    Float(String),
    /// The end of the input.
    Eof,
}

/// A token kind as a mathematical value: texts are sequences of characters,
/// integers are unbounded.
pub enum TokenKind {
    Note,
    Lte,
    Gte,
    Gt,
    Lt,
    Neq,
    Eq,
    For,
    Until,
    Break,
    Continue,
    If,
    Then,
    Else,
    ElseIf,
    Do,
    End,
    Is,
    False,
    True,
    Function,
    Uses,
    Or,
    And,
    Not,
    Return,
    Multiply,
    Add,
    Subtract,
    Divide,
    Power,
    OpenParenthesis,
    CloseParenthesis,
    Identifier(Seq<char>),
    StringLiteral(Seq<char>),
    Comma,
    Newline,
    Integer(int),
    Float(Seq<char>),
    Eof,
}

impl View for TokenType {
    type V = TokenKind;

    open spec fn view(&self) -> TokenKind {
        match self {
            TokenType::Note => TokenKind::Note,
            TokenType::Lte => TokenKind::Lte,
            TokenType::Gte => TokenKind::Gte,
            TokenType::Gt => TokenKind::Gt,
            TokenType::Lt => TokenKind::Lt,
            TokenType::Neq => TokenKind::Neq,
            TokenType::Eq => TokenKind::Eq,
            TokenType::For => TokenKind::For,
            TokenType::Until => TokenKind::Until,
            TokenType::Break => TokenKind::Break,
            TokenType::Continue => TokenKind::Continue,
            TokenType::If => TokenKind::If,
            TokenType::Then => TokenKind::Then,
            TokenType::Else => TokenKind::Else,
            TokenType::ElseIf => TokenKind::ElseIf,
            TokenType::Do => TokenKind::Do,
            TokenType::End => TokenKind::End,
            TokenType::Is => TokenKind::Is,
            TokenType::False => TokenKind::False,
            TokenType::True => TokenKind::True,
            TokenType::Function => TokenKind::Function,
            TokenType::Uses => TokenKind::Uses,
            TokenType::Or => TokenKind::Or,
            TokenType::And => TokenKind::And,
            TokenType::Not => TokenKind::Not,
            TokenType::Return => TokenKind::Return,
            TokenType::Multiply => TokenKind::Multiply,
            TokenType::Add => TokenKind::Add,
            TokenType::Subtract => TokenKind::Subtract,
            TokenType::Divide => TokenKind::Divide,
            TokenType::Power => TokenKind::Power,
            TokenType::OpenParenthesis => TokenKind::OpenParenthesis,
            TokenType::CloseParenthesis => TokenKind::CloseParenthesis,
            TokenType::Identifier(text) => TokenKind::Identifier(text@),
            TokenType::StringLiteral(text) => TokenKind::StringLiteral(text@),
            TokenType::Comma => TokenKind::Comma,
            TokenType::Newline => TokenKind::Newline,
            TokenType::Integer(value) => TokenKind::Integer(*value as int),
            TokenType::Float(text) => TokenKind::Float(text@),
            TokenType::Eof => TokenKind::Eof,
        }
    }
}

impl TokenKind {
    /// The place of the kind in the list of kinds. Two kinds match
    /// structurally when they have the same place, whatever they carry.
    pub open spec fn ordinal(self) -> int {
        match self {
            TokenKind::Note => 0,
            TokenKind::Lte => 1,
            TokenKind::Gte => 2,
            TokenKind::Gt => 3,
            TokenKind::Lt => 4,
            TokenKind::Neq => 5,
            TokenKind::Eq => 6,
            TokenKind::For => 7,
            TokenKind::Until => 8,
            TokenKind::Break => 9,
            TokenKind::Continue => 10,
            TokenKind::If => 11,
            TokenKind::Then => 12,
            TokenKind::Else => 13,
            TokenKind::ElseIf => 14,
            TokenKind::Do => 15,
            TokenKind::End => 16,
            TokenKind::Is => 17,
            TokenKind::False => 18,
            TokenKind::True => 19,
            TokenKind::Function => 20,
            TokenKind::Uses => 21,
            TokenKind::Or => 22,
            TokenKind::And => 23,
            TokenKind::Not => 24,
            TokenKind::Return => 25,
            TokenKind::Multiply => 26,
            TokenKind::Add => 27,
            TokenKind::Subtract => 28,
            TokenKind::Divide => 29,
            TokenKind::Power => 30,
            TokenKind::OpenParenthesis => 31,
            TokenKind::CloseParenthesis => 32,
            TokenKind::Identifier(_) => 33,
            TokenKind::StringLiteral(_) => 34,
            TokenKind::Comma => 35,
            TokenKind::Newline => 36,
            TokenKind::Integer(_) => 37,
            TokenKind::Float(_) => 38,
            TokenKind::Eof => 39,
        }
    }

    /// Same variant, whatever the payload.
    pub open spec fn same_variant(self, other: TokenKind) -> bool {
        self.ordinal() == other.ordinal()
    }
}

/// The keyword table, symbols included: the kind that a lower-case text
/// names, if it names one.
pub open spec fn keyword(lower: Seq<char>) -> Option<TokenKind> {
    if lower == "func"@ {
        Some(TokenKind::Function)
    } else if lower == "uses"@ {
        Some(TokenKind::Uses)
    } else if lower == "if"@ {
        Some(TokenKind::If)
    } else if lower == "then"@ {
        Some(TokenKind::Then)
    } else if lower == "return"@ {
        Some(TokenKind::Return)
    } else if lower == "else"@ {
        Some(TokenKind::Else)
    } else if lower == "end"@ {
        Some(TokenKind::End)
    } else if lower == "lt"@ {
        Some(TokenKind::Lt)
    } else if lower == "lte"@ {
        Some(TokenKind::Lte)
    } else if lower == "eq"@ {
        Some(TokenKind::Eq)
    } else if lower == "neq"@ {
        Some(TokenKind::Neq)
    } else if lower == "gt"@ {
        Some(TokenKind::Gt)
    } else if lower == "gte"@ {
        Some(TokenKind::Gte)
    } else if lower == "not"@ {
        Some(TokenKind::Not)
    } else if lower == "("@ {
        Some(TokenKind::OpenParenthesis)
    } else if lower == ")"@ {
        Some(TokenKind::CloseParenthesis)
    } else if lower == "+"@ {
        Some(TokenKind::Add)
    } else if lower == "-"@ {
        Some(TokenKind::Subtract)
    } else if lower == "*"@ {
        Some(TokenKind::Multiply)
    } else if lower == "/"@ {
        Some(TokenKind::Divide)
    } else if lower == "^"@ {
        Some(TokenKind::Power)
    } else if lower == ","@ {
        Some(TokenKind::Comma)
    } else if lower == "note"@ {
        Some(TokenKind::Note)
    } else if lower == "for"@ {
        Some(TokenKind::For)
    } else if lower == "until"@ {
        Some(TokenKind::Until)
    } else if lower == "break"@ {
        Some(TokenKind::Break)
    } else if lower == "continue"@ {
        Some(TokenKind::Continue)
    } else if lower == "elif"@ {
        Some(TokenKind::ElseIf)
    } else if lower == "do"@ {
        Some(TokenKind::Do)
    } else if lower == "is"@ {
        Some(TokenKind::Is)
    } else if lower == "false"@ {
        Some(TokenKind::False)
    } else if lower == "true"@ {
        Some(TokenKind::True)
    } else if lower == "or"@ {
        Some(TokenKind::Or)
    } else if lower == "and"@ {
        Some(TokenKind::And)
    } else {
        None
    }
}

/// The kind that a piece of text resolves to: a keyword, matched without
/// regard to case; else an integer; else a floating-point literal; else an
/// identifier that keeps the text as written.
pub open spec fn resolve(text: Seq<char>) -> TokenKind {
    match keyword(lowercase(text)) {
        Some(kind) => kind,
        None => match integer_value(text) {
            Some(value) => TokenKind::Integer(value),
            None => if is_float_literal(text) {
                TokenKind::Float(text)
            } else {
                TokenKind::Identifier(text)
            },
        },
    }
}

/// Keywords are matched without regard to case: two texts with the same
/// lower-case form, that of a keyword, resolve to the same kind, the
/// keyword's.
pub proof fn lemma_keywords_ignore_case(a: Seq<char>, b: Seq<char>)
    requires
        lowercase(a) == lowercase(b),
        keyword(lowercase(a)) is Some,
    ensures
        resolve(a) == resolve(b),
        keyword(lowercase(a)) == Some(resolve(a)),
{
}

/// Identifiers keep their spelling, case included: two different texts
/// that resolve to identifiers resolve to different ones.
pub proof fn lemma_identifiers_keep_case(a: Seq<char>, b: Seq<char>)
    requires
        resolve(a) is Identifier,
        resolve(b) is Identifier,
        a != b,
    ensures
        resolve(a) == TokenKind::Identifier(a),
        resolve(b) == TokenKind::Identifier(b),
        resolve(a) != resolve(b),
{
}

/// The text that writes a token of a kind: the keyword or the symbol
/// itself, a name as it is spelled, an integer in decimal digits, a
/// floating-point literal as it was written, a string literal between
/// quotes, a line break. The end marker is written by nothing.
pub open spec fn lexeme(kind: TokenKind) -> Seq<char> {
    match kind {
        TokenKind::Note => "note"@,
        TokenKind::Lte => "lte"@,
        TokenKind::Gte => "gte"@,
        TokenKind::Gt => "gt"@,
        TokenKind::Lt => "lt"@,
        TokenKind::Neq => "neq"@,
        TokenKind::Eq => "eq"@,
        TokenKind::For => "for"@,
        TokenKind::Until => "until"@,
        TokenKind::Break => "break"@,
        TokenKind::Continue => "continue"@,
        TokenKind::If => "if"@,
        TokenKind::Then => "then"@,
        TokenKind::Else => "else"@,
        TokenKind::ElseIf => "elif"@,
        TokenKind::Do => "do"@,
        TokenKind::End => "end"@,
        TokenKind::Is => "is"@,
        TokenKind::False => "false"@,
        TokenKind::True => "true"@,
        TokenKind::Function => "func"@,
        TokenKind::Uses => "uses"@,
        TokenKind::Or => "or"@,
        TokenKind::And => "and"@,
        TokenKind::Not => "not"@,
        TokenKind::Return => "return"@,
        TokenKind::Multiply => "*"@,
        TokenKind::Add => "+"@,
        TokenKind::Subtract => "-"@,
        TokenKind::Divide => "/"@,
        TokenKind::Power => "^"@,
        TokenKind::OpenParenthesis => "("@,
        TokenKind::CloseParenthesis => ")"@,
        TokenKind::Identifier(text) => text,
        TokenKind::StringLiteral(text) => seq!['"'] + text + seq!['"'],
        TokenKind::Comma => ","@,
        TokenKind::Newline => seq!['\n'],
        TokenKind::Integer(value) => integer_text(value),
        TokenKind::Float(text) => text,
        TokenKind::Eof => Seq::empty(),
    }
}

/// A token kind in words, as it is shown to a reader.
pub open spec fn kind_text(kind: TokenKind) -> Seq<char> {
    match kind {
        TokenKind::Note => "Note"@,
        TokenKind::Lte => "Lte"@,
        TokenKind::Gte => "Gte"@,
        TokenKind::Gt => "Gt"@,
        TokenKind::Lt => "Lt"@,
        TokenKind::Neq => "Neq"@,
        TokenKind::Eq => "Eq"@,
        TokenKind::For => "For"@,
        TokenKind::Until => "Until"@,
        TokenKind::Break => "Break"@,
        TokenKind::Continue => "Continue"@,
        TokenKind::If => "If"@,
        TokenKind::Then => "Then"@,
        TokenKind::Else => "Else"@,
        TokenKind::ElseIf => "ElseIf"@,
        TokenKind::Do => "Do"@,
        TokenKind::End => "End"@,
        TokenKind::Is => "Is"@,
        TokenKind::False => "False"@,
        TokenKind::True => "True"@,
        TokenKind::Function => "Function"@,
        TokenKind::Uses => "Uses"@,
        TokenKind::Or => "Or"@,
        TokenKind::And => "And"@,
        TokenKind::Not => "Not"@,
        TokenKind::Return => "Return"@,
        TokenKind::Multiply => "Multiply"@,
        TokenKind::Add => "Add"@,
        TokenKind::Subtract => "Subtract"@,
        TokenKind::Divide => "Divide"@,
        TokenKind::Power => "Power"@,
        TokenKind::OpenParenthesis => "OpenParenthesis"@,
        TokenKind::CloseParenthesis => "CloseParenthesis"@,
        TokenKind::Identifier(text) => "Identifier("@ + text + ")"@,
        TokenKind::StringLiteral(text) => "String: "@ + text,
        TokenKind::Comma => "Comma"@,
        TokenKind::Newline => "Newline"@,
        TokenKind::Integer(value) => "Integer("@ + integer_text(value) + ")"@,
        TokenKind::Float(text) => "Float("@ + text + ")"@,
        TokenKind::Eof => "Eof"@,
    }
}

fn keyword_of(lower: &Vec<char>) -> (r: Option<TokenType>)
    ensures
        match r {
            Some(kind) => keyword(lower@) == Some(kind@),
            None => keyword(lower@) is None,
        },
{
    if spells(lower, "func") {
        Some(TokenType::Function)
    } else if spells(lower, "uses") {
        Some(TokenType::Uses)
    } else if spells(lower, "if") {
        Some(TokenType::If)
    } else if spells(lower, "then") {
        Some(TokenType::Then)
    } else if spells(lower, "return") {
        Some(TokenType::Return)
    } else if spells(lower, "else") {
        Some(TokenType::Else)
    } else if spells(lower, "end") {
        Some(TokenType::End)
    } else if spells(lower, "lt") {
        Some(TokenType::Lt)
    } else if spells(lower, "lte") {
        Some(TokenType::Lte)
    } else if spells(lower, "eq") {
        Some(TokenType::Eq)
    } else if spells(lower, "neq") {
        Some(TokenType::Neq)
    } else if spells(lower, "gt") {
        Some(TokenType::Gt)
    } else if spells(lower, "gte") {
        Some(TokenType::Gte)
    } else if spells(lower, "not") {
        Some(TokenType::Not)
    } else if spells(lower, "(") {
        Some(TokenType::OpenParenthesis)
    } else if spells(lower, ")") {
        Some(TokenType::CloseParenthesis)
    } else if spells(lower, "+") {
        Some(TokenType::Add)
    } else if spells(lower, "-") {
        Some(TokenType::Subtract)
    } else if spells(lower, "*") {
        Some(TokenType::Multiply)
    } else if spells(lower, "/") {
        Some(TokenType::Divide)
    } else if spells(lower, "^") {
        Some(TokenType::Power)
    } else if spells(lower, ",") {
        Some(TokenType::Comma)
    } else if spells(lower, "note") {
        Some(TokenType::Note)
    } else if spells(lower, "for") {
        Some(TokenType::For)
    } else if spells(lower, "until") {
        Some(TokenType::Until)
    } else if spells(lower, "break") {
        Some(TokenType::Break)
    } else if spells(lower, "continue") {
        Some(TokenType::Continue)
    } else if spells(lower, "elif") {
        Some(TokenType::ElseIf)
    } else if spells(lower, "do") {
        Some(TokenType::Do)
    } else if spells(lower, "is") {
        Some(TokenType::Is)
    } else if spells(lower, "false") {
        Some(TokenType::False)
    } else if spells(lower, "true") {
        Some(TokenType::True)
    } else if spells(lower, "or") {
        Some(TokenType::Or)
    } else if spells(lower, "and") {
        Some(TokenType::And)
    } else {
        None
    }
}

impl Clone for TokenType {
    fn clone(&self) -> (r: Self)
        ensures
            r@ == self@,
    {
        match self {
            TokenType::Note => TokenType::Note,
            TokenType::Lte => TokenType::Lte,
            TokenType::Gte => TokenType::Gte,
            TokenType::Gt => TokenType::Gt,
            TokenType::Lt => TokenType::Lt,
            TokenType::Neq => TokenType::Neq,
            TokenType::Eq => TokenType::Eq,
            TokenType::For => TokenType::For,
            TokenType::Until => TokenType::Until,
            TokenType::Break => TokenType::Break,
            TokenType::Continue => TokenType::Continue,
            TokenType::If => TokenType::If,
            TokenType::Then => TokenType::Then,
            TokenType::Else => TokenType::Else,
            TokenType::ElseIf => TokenType::ElseIf,
            TokenType::Do => TokenType::Do,
            TokenType::End => TokenType::End,
            TokenType::Is => TokenType::Is,
            TokenType::False => TokenType::False,
            TokenType::True => TokenType::True,
            TokenType::Function => TokenType::Function,
            TokenType::Uses => TokenType::Uses,
            TokenType::Or => TokenType::Or,
            TokenType::And => TokenType::And,
            TokenType::Not => TokenType::Not,
            TokenType::Return => TokenType::Return,
            TokenType::Multiply => TokenType::Multiply,
            TokenType::Add => TokenType::Add,
            TokenType::Subtract => TokenType::Subtract,
            TokenType::Divide => TokenType::Divide,
            TokenType::Power => TokenType::Power,
            TokenType::OpenParenthesis => TokenType::OpenParenthesis,
            TokenType::CloseParenthesis => TokenType::CloseParenthesis,
            TokenType::Identifier(text) => TokenType::Identifier(text.clone()),
            TokenType::StringLiteral(text) => TokenType::StringLiteral(text.clone()),
            TokenType::Comma => TokenType::Comma,
            TokenType::Newline => TokenType::Newline,
            TokenType::Integer(value) => TokenType::Integer(*value),
            TokenType::Float(text) => TokenType::Float(text.clone()),
            TokenType::Eof => TokenType::Eof,
        }
    }
}

impl TokenType {
    /// Resolves a piece of text to a token kind.
    pub fn from_str(s: &str) -> (kind: TokenType)
        ensures
            kind@ == resolve(s@),
    {
        let chars = chars_of(s);
        TokenType::from_chars(&chars)
    }

    /// Resolves a run of characters to a token kind.
    pub fn from_chars(chars: &Vec<char>) -> (kind: TokenType)
        ensures
            kind@ == resolve(chars@),
    {
        let lower = lowercase_of(chars);
        match keyword_of(&lower) {
            Some(kind) => kind,
            None => match parse_integer(chars) {
                Some(value) => TokenType::Integer(value),
                None => if is_float(chars) {
                    TokenType::Float(text_of(chars))
                } else {
                    TokenType::Identifier(text_of(chars))
                },
            },
        }
    }

    /// The place of the kind in the list of kinds.
    pub fn ordinal(&self) -> (r: u8)
        ensures
            r as int == self@.ordinal(),
    {
        match self {
            TokenType::Note => 0,
            TokenType::Lte => 1,
            TokenType::Gte => 2,
            TokenType::Gt => 3,
            TokenType::Lt => 4,
            TokenType::Neq => 5,
            TokenType::Eq => 6,
            TokenType::For => 7,
            TokenType::Until => 8,
            TokenType::Break => 9,
            TokenType::Continue => 10,
            TokenType::If => 11,
            TokenType::Then => 12,
            TokenType::Else => 13,
            TokenType::ElseIf => 14,
            TokenType::Do => 15,
            TokenType::End => 16,
            TokenType::Is => 17,
            TokenType::False => 18,
            TokenType::True => 19,
            TokenType::Function => 20,
            TokenType::Uses => 21,
            TokenType::Or => 22,
            TokenType::And => 23,
            TokenType::Not => 24,
            TokenType::Return => 25,
            TokenType::Multiply => 26,
            TokenType::Add => 27,
            TokenType::Subtract => 28,
            TokenType::Divide => 29,
            TokenType::Power => 30,
            TokenType::OpenParenthesis => 31,
            TokenType::CloseParenthesis => 32,
            TokenType::Identifier(_) => 33,
            TokenType::StringLiteral(_) => 34,
            TokenType::Comma => 35,
            TokenType::Newline => 36,
            TokenType::Integer(_) => 37,
            TokenType::Float(_) => 38,
            TokenType::Eof => 39,
        }
    }

    /// Whether two kinds are the same variant, whatever they carry: any
    /// identifier matches any other.
    pub fn same_variant(&self, other: &TokenType) -> (r: bool)
        ensures
            r == self@.same_variant(other@),
    {
        self.ordinal() == other.ordinal()
    }

    /// The text that writes a token of this kind.
    pub fn lexeme(&self) -> (text: String)
        ensures
            text@ == lexeme(self@),
    {
        match self {
            TokenType::Note => "note".to_owned(),
            TokenType::Lte => "lte".to_owned(),
            TokenType::Gte => "gte".to_owned(),
            TokenType::Gt => "gt".to_owned(),
            TokenType::Lt => "lt".to_owned(),
            TokenType::Neq => "neq".to_owned(),
            TokenType::Eq => "eq".to_owned(),
            TokenType::For => "for".to_owned(),
            TokenType::Until => "until".to_owned(),
            TokenType::Break => "break".to_owned(),
            TokenType::Continue => "continue".to_owned(),
            TokenType::If => "if".to_owned(),
            TokenType::Then => "then".to_owned(),
            TokenType::Else => "else".to_owned(),
            TokenType::ElseIf => "elif".to_owned(),
            TokenType::Do => "do".to_owned(),
            TokenType::End => "end".to_owned(),
            TokenType::Is => "is".to_owned(),
            TokenType::False => "false".to_owned(),
            TokenType::True => "true".to_owned(),
            TokenType::Function => "func".to_owned(),
            TokenType::Uses => "uses".to_owned(),
            TokenType::Or => "or".to_owned(),
            TokenType::And => "and".to_owned(),
            TokenType::Not => "not".to_owned(),
            TokenType::Return => "return".to_owned(),
            TokenType::Multiply => "*".to_owned(),
            TokenType::Add => "+".to_owned(),
            TokenType::Subtract => "-".to_owned(),
            TokenType::Divide => "/".to_owned(),
            TokenType::Power => "^".to_owned(),
            TokenType::OpenParenthesis => "(".to_owned(),
            TokenType::CloseParenthesis => ")".to_owned(),
            TokenType::Identifier(text) => text.clone(),
            TokenType::StringLiteral(content) => {
                let mut text = String::new();
                text.push('"');
                text.append(content.as_str());
                text.push('"');
                assert(text@ =~= seq!['"'] + content@ + seq!['"']);
                text
            },
            TokenType::Comma => ",".to_owned(),
            TokenType::Newline => {
                let mut text = String::new();
                text.push('\n');
                assert(text@ =~= seq!['\n']);
                text
            },
            TokenType::Integer(value) => {
                let mut text = String::new();
                push_integer(&mut text, *value);
                assert(text@ =~= integer_text(*value as int));
                text
            },
            TokenType::Float(text) => text.clone(),
            TokenType::Eof => String::new(),
        }
    }

    /// The kind in words.
    pub fn to_text(&self) -> (text: String)
        ensures
            text@ == kind_text(self@),
    {
        match self {
            TokenType::Note => "Note".to_owned(),
            TokenType::Lte => "Lte".to_owned(),
            TokenType::Gte => "Gte".to_owned(),
            TokenType::Gt => "Gt".to_owned(),
            TokenType::Lt => "Lt".to_owned(),
            TokenType::Neq => "Neq".to_owned(),
            TokenType::Eq => "Eq".to_owned(),
            TokenType::For => "For".to_owned(),
            TokenType::Until => "Until".to_owned(),
            TokenType::Break => "Break".to_owned(),
            TokenType::Continue => "Continue".to_owned(),
            TokenType::If => "If".to_owned(),
            TokenType::Then => "Then".to_owned(),
            TokenType::Else => "Else".to_owned(),
            TokenType::ElseIf => "ElseIf".to_owned(),
            TokenType::Do => "Do".to_owned(),
            TokenType::End => "End".to_owned(),
            TokenType::Is => "Is".to_owned(),
            TokenType::False => "False".to_owned(),
            TokenType::True => "True".to_owned(),
            TokenType::Function => "Function".to_owned(),
            TokenType::Uses => "Uses".to_owned(),
            TokenType::Or => "Or".to_owned(),
            TokenType::And => "And".to_owned(),
            TokenType::Not => "Not".to_owned(),
            TokenType::Return => "Return".to_owned(),
            TokenType::Multiply => "Multiply".to_owned(),
            TokenType::Add => "Add".to_owned(),
            TokenType::Subtract => "Subtract".to_owned(),
            TokenType::Divide => "Divide".to_owned(),
            TokenType::Power => "Power".to_owned(),
            TokenType::OpenParenthesis => "OpenParenthesis".to_owned(),
            TokenType::CloseParenthesis => "CloseParenthesis".to_owned(),
            TokenType::Identifier(name) => {
                let mut text = "Identifier(".to_owned();
                text.append(name.as_str());
                text.append(")");
                text
            },
            TokenType::StringLiteral(content) => {
                let mut text = "String: ".to_owned();
                text.append(content.as_str());
                text
            },
            TokenType::Comma => "Comma".to_owned(),
            TokenType::Newline => "Newline".to_owned(),
            TokenType::Integer(value) => {
                let mut text = "Integer(".to_owned();
                push_integer(&mut text, *value);
                text.append(")");
                text
            },
            TokenType::Float(literal) => {
                let mut text = "Float(".to_owned();
                text.append(literal.as_str());
                text.append(")");
                text
            },
            TokenType::Eof => "Eof".to_owned(),
        }
    }
}

/// A token: its kind and the line of the source on which it begins,
/// counted from 1.
#[derive(Debug, PartialEq)]
pub struct Token {
    pub token: TokenType,
    pub line_number: i32,
}

/// A token as a mathematical value.
pub struct TokenView {
    pub kind: TokenKind,
    pub line: int,
}

impl View for Token {
    type V = TokenView;

    open spec fn view(&self) -> TokenView {
        TokenView { kind: self.token@, line: self.line_number as int }
    }
}

impl Clone for Token {
    fn clone(&self) -> (r: Self)
        ensures
            r@ == self@,
    {
        Token { token: self.token.clone(), line_number: self.line_number }
    }
}

/// A token in words: its kind, then its line.
pub open spec fn token_text(token: TokenView) -> Seq<char> {
    kind_text(token.kind) + " | on line "@ + integer_text(token.line)
}

impl Token {
    pub fn new(token: TokenType, line_number: i32) -> (r: Token)
        ensures
            r@ == (TokenView { kind: token@, line: line_number as int }),
    {
        Token { token, line_number }
    }

    /// The token in words.
    pub fn to_text(&self) -> (text: String)
        ensures
            text@ == token_text(self@),
    {
        let mut text = self.token.to_text();
        text.append(" | on line ");
        push_integer(&mut text, self.line_number as i64);
        text
    }
}

/// The views of a run of tokens.
pub open spec fn token_views(tokens: Seq<Token>) -> Seq<TokenView> {
    Seq::new(tokens.len(), |i: int| tokens[i]@)
}

} // verus!
