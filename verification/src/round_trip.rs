//! Writing tokens out and reading them back: the tokenizer undoes the
//! writer wherever the tokens are free of ambiguity, and the tokens that the
//! tokenizer gives always are. The tokens may be written with a blank after
//! each or with a blank between each two.
use vstd::prelude::*;
use crate::chars::{
    all_numeric, ascii_char, ascii_lowercase, ascii_text, digit_char, lower_char, lowercase,
    symbol_char, whitespace_char, word_char,
};
use crate::lexer::{flush, lookahead, run, step, symbol_kind, tokenize, LexState};
use crate::number::{
    integer_text, lemma_decimal_prefix, lemma_decimal_text, lemma_integer_round_trip,
    unsigned_part,
};
use crate::scan_laws::{lemma_resolve_kind, lemma_token_order, quote_free};
use crate::token::{keyword, lexeme, resolve, TokenKind, TokenView};

verus! {

/// The kinds of a run of tokens.
pub open spec fn kinds_of(tokens: Seq<TokenView>) -> Seq<TokenKind> {
    Seq::new(tokens.len(), |i: int| tokens[i].kind)
}

/// The text that writes a run of tokens: the text of each in turn, with
/// one blank after it.
pub open spec fn written(kinds: Seq<TokenKind>) -> Seq<char>
    decreases kinds.len(),
{
    if kinds.len() == 0 {
        Seq::empty()
    } else {
        written(kinds.drop_last()) + lexeme(kinds.last()).push(' ')
    }
}

/// The text that writes a run of tokens with one blank between each two
/// and none at the end.
pub open spec fn joined(kinds: Seq<TokenKind>) -> Seq<char>
    decreases kinds.len(),
{
    if kinds.len() == 0 {
        Seq::empty()
    } else if kinds.len() == 1 {
        lexeme(kinds[0])
    } else {
        joined(kinds.drop_last()).push(' ') + lexeme(kinds.last())
    }
}

/// A character of no class: no white space, quote, letter, digit, symbol
/// or point. At the head of a word the scan takes it as it comes.
pub open spec fn odd_char(c: char) -> bool {
    !whitespace_char(c) && c != '"' && !word_char(c) && !symbol_char(c) && c != '.'
}

/// The character at `j` joins the word before it: it is a letter or a
/// digit, or it is a point behind nothing but numeric characters.
pub open spec fn joins(text: Seq<char>, j: int) -> bool {
    &&& !whitespace_char(text[j])
    &&& text[j] != '"'
    &&& word_char(text[j]) || (text[j] == '.' && all_numeric(text.take(j)))
}

/// A text that the scan reads as one word. It is not empty. Each of its
/// characters joins those before it; only the first may be of no class
/// instead, and then neither white space nor a digit follows it, which
/// would end the word at once.
pub open spec fn word_run(text: Seq<char>) -> bool {
    &&& text.len() > 0
    &&& joins(text, 0) || (odd_char(text[0]) && (text.len() > 1 ==> !whitespace_char(text[1])
        && !digit_char(text[1])))
    &&& forall|j: int| 1 <= j < text.len() ==> joins(text, j)
}

/// A token whose text is read back as that token, whatever stands around
/// it: a keyword, a symbol or a line break; an identifier or a
/// floating-point literal that the scan reads as one word and resolves to
/// itself; an integer that is not negative (a sign is a token of its own);
/// a string literal without a quote in it. The end marker has no text.
pub open spec fn unambiguous(kind: TokenKind) -> bool {
    match kind {
        TokenKind::Identifier(text) => word_run(text) && resolve(text) == kind,
        TokenKind::Float(text) => word_run(text) && resolve(text) == kind,
        TokenKind::Integer(value) => 0 <= value <= i64::MAX,
        TokenKind::StringLiteral(text) => quote_free(text),
        TokenKind::Eof => false,
        _ => true,
    }
}

/// Every token of the run is unambiguous.
pub open spec fn all_unambiguous(kinds: Seq<TokenKind>) -> bool {
    forall|i: int| 0 <= i < kinds.len() ==> unambiguous(#[trigger] kinds[i])
}

/// The entries of the keyword table, character by character.
proof fn lemma_spellings()
    ensures
        "func"@ == seq!['f', 'u', 'n', 'c'],
        "uses"@ == seq!['u', 's', 'e', 's'],
        "if"@ == seq!['i', 'f'],
        "then"@ == seq!['t', 'h', 'e', 'n'],
        "return"@ == seq!['r', 'e', 't', 'u', 'r', 'n'],
        "else"@ == seq!['e', 'l', 's', 'e'],
        "end"@ == seq!['e', 'n', 'd'],
        "lt"@ == seq!['l', 't'],
        "lte"@ == seq!['l', 't', 'e'],
        "eq"@ == seq!['e', 'q'],
        "neq"@ == seq!['n', 'e', 'q'],
        "gt"@ == seq!['g', 't'],
        "gte"@ == seq!['g', 't', 'e'],
        "not"@ == seq!['n', 'o', 't'],
        "("@ == seq!['('],
        ")"@ == seq![')'],
        "+"@ == seq!['+'],
        "-"@ == seq!['-'],
        "*"@ == seq!['*'],
        "/"@ == seq!['/'],
        "^"@ == seq!['^'],
        ","@ == seq![','],
        "note"@ == seq!['n', 'o', 't', 'e'],
        "for"@ == seq!['f', 'o', 'r'],
        "until"@ == seq!['u', 'n', 't', 'i', 'l'],
        "break"@ == seq!['b', 'r', 'e', 'a', 'k'],
        "continue"@ == seq!['c', 'o', 'n', 't', 'i', 'n', 'u', 'e'],
        "elif"@ == seq!['e', 'l', 'i', 'f'],
        "do"@ == seq!['d', 'o'],
        "is"@ == seq!['i', 's'],
        "false"@ == seq!['f', 'a', 'l', 's', 'e'],
        "true"@ == seq!['t', 'r', 'u', 'e'],
        "or"@ == seq!['o', 'r'],
        "and"@ == seq!['a', 'n', 'd'],
{
    reveal_strlit("func");
    assert("func"@ =~= seq!['f', 'u', 'n', 'c']);
    reveal_strlit("uses");
    assert("uses"@ =~= seq!['u', 's', 'e', 's']);
    reveal_strlit("if");
    assert("if"@ =~= seq!['i', 'f']);
    reveal_strlit("then");
    assert("then"@ =~= seq!['t', 'h', 'e', 'n']);
    reveal_strlit("return");
    assert("return"@ =~= seq!['r', 'e', 't', 'u', 'r', 'n']);
    reveal_strlit("else");
    assert("else"@ =~= seq!['e', 'l', 's', 'e']);
    reveal_strlit("end");
    assert("end"@ =~= seq!['e', 'n', 'd']);
    reveal_strlit("lt");
    assert("lt"@ =~= seq!['l', 't']);
    reveal_strlit("lte");
    assert("lte"@ =~= seq!['l', 't', 'e']);
    reveal_strlit("eq");
    assert("eq"@ =~= seq!['e', 'q']);
    reveal_strlit("neq");
    assert("neq"@ =~= seq!['n', 'e', 'q']);
    reveal_strlit("gt");
    assert("gt"@ =~= seq!['g', 't']);
    reveal_strlit("gte");
    assert("gte"@ =~= seq!['g', 't', 'e']);
    reveal_strlit("not");
    assert("not"@ =~= seq!['n', 'o', 't']);
    reveal_strlit("(");
    assert("("@ =~= seq!['(']);
    reveal_strlit(")");
    assert(")"@ =~= seq![')']);
    reveal_strlit("+");
    assert("+"@ =~= seq!['+']);
    reveal_strlit("-");
    assert("-"@ =~= seq!['-']);
    reveal_strlit("*");
    assert("*"@ =~= seq!['*']);
    reveal_strlit("/");
    assert("/"@ =~= seq!['/']);
    reveal_strlit("^");
    assert("^"@ =~= seq!['^']);
    reveal_strlit(",");
    assert(","@ =~= seq![',']);
    reveal_strlit("note");
    assert("note"@ =~= seq!['n', 'o', 't', 'e']);
    reveal_strlit("for");
    assert("for"@ =~= seq!['f', 'o', 'r']);
    reveal_strlit("until");
    assert("until"@ =~= seq!['u', 'n', 't', 'i', 'l']);
    reveal_strlit("break");
    assert("break"@ =~= seq!['b', 'r', 'e', 'a', 'k']);
    reveal_strlit("continue");
    assert("continue"@ =~= seq!['c', 'o', 'n', 't', 'i', 'n', 'u', 'e']);
    reveal_strlit("elif");
    assert("elif"@ =~= seq!['e', 'l', 'i', 'f']);
    reveal_strlit("do");
    assert("do"@ =~= seq!['d', 'o']);
    reveal_strlit("is");
    assert("is"@ =~= seq!['i', 's']);
    reveal_strlit("false");
    assert("false"@ =~= seq!['f', 'a', 'l', 's', 'e']);
    reveal_strlit("true");
    assert("true"@ =~= seq!['t', 'r', 'u', 'e']);
    reveal_strlit("or");
    assert("or"@ =~= seq!['o', 'r']);
    reveal_strlit("and");
    assert("and"@ =~= seq!['a', 'n', 'd']);
}

/// Each entry of the keyword table is found under its own text, and only
/// texts that begin with no digit are found at all.
proof fn lemma_keyword_table()
    ensures
        keyword("func"@) == Some(TokenKind::Function),
        keyword("uses"@) == Some(TokenKind::Uses),
        keyword("if"@) == Some(TokenKind::If),
        keyword("then"@) == Some(TokenKind::Then),
        keyword("return"@) == Some(TokenKind::Return),
        keyword("else"@) == Some(TokenKind::Else),
        keyword("end"@) == Some(TokenKind::End),
        keyword("lt"@) == Some(TokenKind::Lt),
        keyword("lte"@) == Some(TokenKind::Lte),
        keyword("eq"@) == Some(TokenKind::Eq),
        keyword("neq"@) == Some(TokenKind::Neq),
        keyword("gt"@) == Some(TokenKind::Gt),
        keyword("gte"@) == Some(TokenKind::Gte),
        keyword("not"@) == Some(TokenKind::Not),
        keyword("("@) == Some(TokenKind::OpenParenthesis),
        keyword(")"@) == Some(TokenKind::CloseParenthesis),
        keyword("+"@) == Some(TokenKind::Add),
        keyword("-"@) == Some(TokenKind::Subtract),
        keyword("*"@) == Some(TokenKind::Multiply),
        keyword("/"@) == Some(TokenKind::Divide),
        keyword("^"@) == Some(TokenKind::Power),
        keyword(","@) == Some(TokenKind::Comma),
        keyword("note"@) == Some(TokenKind::Note),
        keyword("for"@) == Some(TokenKind::For),
        keyword("until"@) == Some(TokenKind::Until),
        keyword("break"@) == Some(TokenKind::Break),
        keyword("continue"@) == Some(TokenKind::Continue),
        keyword("elif"@) == Some(TokenKind::ElseIf),
        keyword("do"@) == Some(TokenKind::Do),
        keyword("is"@) == Some(TokenKind::Is),
        keyword("false"@) == Some(TokenKind::False),
        keyword("true"@) == Some(TokenKind::True),
        keyword("or"@) == Some(TokenKind::Or),
        keyword("and"@) == Some(TokenKind::And),
        forall|lower: Seq<char>| #[trigger]
            keyword(lower) is Some ==> lower.len() > 0 && !digit_char(lower[0]),
{
    lemma_spellings();
    assert("func"@.len() == 4);
    assert("func"@[0] == 'f');
    assert("func"@[1] == 'u');
    assert("func"@[2] == 'n');
    assert("func"@[3] == 'c');
    assert("uses"@.len() == 4);
    assert("uses"@[0] == 'u');
    assert("uses"@[1] == 's');
    assert("uses"@[2] == 'e');
    assert("uses"@[3] == 's');
    assert("if"@.len() == 2);
    assert("if"@[0] == 'i');
    assert("if"@[1] == 'f');
    assert("then"@.len() == 4);
    assert("then"@[0] == 't');
    assert("then"@[1] == 'h');
    assert("then"@[2] == 'e');
    assert("then"@[3] == 'n');
    assert("return"@.len() == 6);
    assert("return"@[0] == 'r');
    assert("return"@[1] == 'e');
    assert("return"@[2] == 't');
    assert("return"@[3] == 'u');
    assert("return"@[4] == 'r');
    assert("return"@[5] == 'n');
    assert("else"@.len() == 4);
    assert("else"@[0] == 'e');
    assert("else"@[1] == 'l');
    assert("else"@[2] == 's');
    assert("else"@[3] == 'e');
    assert("end"@.len() == 3);
    assert("end"@[0] == 'e');
    assert("end"@[1] == 'n');
    assert("end"@[2] == 'd');
    assert("lt"@.len() == 2);
    assert("lt"@[0] == 'l');
    assert("lt"@[1] == 't');
    assert("lte"@.len() == 3);
    assert("lte"@[0] == 'l');
    assert("lte"@[1] == 't');
    assert("lte"@[2] == 'e');
    assert("eq"@.len() == 2);
    assert("eq"@[0] == 'e');
    assert("eq"@[1] == 'q');
    assert("neq"@.len() == 3);
    assert("neq"@[0] == 'n');
    assert("neq"@[1] == 'e');
    assert("neq"@[2] == 'q');
    assert("gt"@.len() == 2);
    assert("gt"@[0] == 'g');
    assert("gt"@[1] == 't');
    assert("gte"@.len() == 3);
    assert("gte"@[0] == 'g');
    assert("gte"@[1] == 't');
    assert("gte"@[2] == 'e');
    assert("not"@.len() == 3);
    assert("not"@[0] == 'n');
    assert("not"@[1] == 'o');
    assert("not"@[2] == 't');
    assert("("@.len() == 1);
    assert("("@[0] == '(');
    assert(")"@.len() == 1);
    assert(")"@[0] == ')');
    assert("+"@.len() == 1);
    assert("+"@[0] == '+');
    assert("-"@.len() == 1);
    assert("-"@[0] == '-');
    assert("*"@.len() == 1);
    assert("*"@[0] == '*');
    assert("/"@.len() == 1);
    assert("/"@[0] == '/');
    assert("^"@.len() == 1);
    assert("^"@[0] == '^');
    assert(","@.len() == 1);
    assert(","@[0] == ',');
    assert("note"@.len() == 4);
    assert("note"@[0] == 'n');
    assert("note"@[1] == 'o');
    assert("note"@[2] == 't');
    assert("note"@[3] == 'e');
    assert("for"@.len() == 3);
    assert("for"@[0] == 'f');
    assert("for"@[1] == 'o');
    assert("for"@[2] == 'r');
    assert("until"@.len() == 5);
    assert("until"@[0] == 'u');
    assert("until"@[1] == 'n');
    assert("until"@[2] == 't');
    assert("until"@[3] == 'i');
    assert("until"@[4] == 'l');
    assert("break"@.len() == 5);
    assert("break"@[0] == 'b');
    assert("break"@[1] == 'r');
    assert("break"@[2] == 'e');
    assert("break"@[3] == 'a');
    assert("break"@[4] == 'k');
    assert("continue"@.len() == 8);
    assert("continue"@[0] == 'c');
    assert("continue"@[1] == 'o');
    assert("continue"@[2] == 'n');
    assert("continue"@[3] == 't');
    assert("continue"@[4] == 'i');
    assert("continue"@[5] == 'n');
    assert("continue"@[6] == 'u');
    assert("continue"@[7] == 'e');
    assert("elif"@.len() == 4);
    assert("elif"@[0] == 'e');
    assert("elif"@[1] == 'l');
    assert("elif"@[2] == 'i');
    assert("elif"@[3] == 'f');
    assert("do"@.len() == 2);
    assert("do"@[0] == 'd');
    assert("do"@[1] == 'o');
    assert("is"@.len() == 2);
    assert("is"@[0] == 'i');
    assert("is"@[1] == 's');
    assert("false"@.len() == 5);
    assert("false"@[0] == 'f');
    assert("false"@[1] == 'a');
    assert("false"@[2] == 'l');
    assert("false"@[3] == 's');
    assert("false"@[4] == 'e');
    assert("true"@.len() == 4);
    assert("true"@[0] == 't');
    assert("true"@[1] == 'r');
    assert("true"@[2] == 'u');
    assert("true"@[3] == 'e');
    assert("or"@.len() == 2);
    assert("or"@[0] == 'o');
    assert("or"@[1] == 'r');
    assert("and"@.len() == 3);
    assert("and"@[0] == 'a');
    assert("and"@[1] == 'n');
    assert("and"@[2] == 'd');
}

/// A text of small ASCII letters is read as one word, and is its own
/// lower-case form.
proof fn lemma_small_letters(text: Seq<char>)
    requires
        text.len() > 0,
        forall|j: int| 0 <= j < text.len() ==> 'a' <= #[trigger] text[j] <= 'z',
    ensures
        word_run(text),
        lowercase(text) == text,
{
    assert forall|j: int| 0 <= j < text.len() implies joins(text, j) by {
        assert('a' <= text[j] <= 'z');
    }
    assert(joins(text, 0));
    assert(ascii_text(text)) by {
        assert forall|j: int| 0 <= j < text.len() implies ascii_char(
            #[trigger] text[j],
        ) by {
            assert('a' <= text[j] <= 'z');
        }
    }
    assert(ascii_lowercase(text) =~= text) by {
        assert forall|j: int| 0 <= j < text.len() implies lower_char(text[j])
            == text[j] by {
            assert('a' <= text[j] <= 'z');
        }
    }
}

/// The kinds that are written by a word of the keyword table.
pub open spec fn keyword_kind(kind: TokenKind) -> bool {
    match kind {
        TokenKind::Note => true,
        TokenKind::Lte => true,
        TokenKind::Gte => true,
        TokenKind::Gt => true,
        TokenKind::Lt => true,
        TokenKind::Neq => true,
        TokenKind::Eq => true,
        TokenKind::For => true,
        TokenKind::Until => true,
        TokenKind::Break => true,
        TokenKind::Continue => true,
        TokenKind::If => true,
        TokenKind::Then => true,
        TokenKind::Else => true,
        TokenKind::ElseIf => true,
        TokenKind::Do => true,
        TokenKind::End => true,
        TokenKind::Is => true,
        TokenKind::False => true,
        TokenKind::True => true,
        TokenKind::Function => true,
        TokenKind::Uses => true,
        TokenKind::Or => true,
        TokenKind::And => true,
        TokenKind::Not => true,
        TokenKind::Return => true,
        _ => false,
    }
}

/// The kinds that are written by one of the eight symbols.
pub open spec fn symbol_token(kind: TokenKind) -> bool {
    match kind {
        TokenKind::Multiply => true,
        TokenKind::Add => true,
        TokenKind::Subtract => true,
        TokenKind::Divide => true,
        TokenKind::Power => true,
        TokenKind::OpenParenthesis => true,
        TokenKind::CloseParenthesis => true,
        TokenKind::Comma => true,
        _ => false,
    }
}

/// A keyword's text is read as one word and resolves to the keyword.
proof fn lemma_keyword_word(kind: TokenKind)
    requires
        keyword_kind(kind),
    ensures
        word_run(lexeme(kind)),
        resolve(lexeme(kind)) == kind,
{
    lemma_spellings();
    lemma_keyword_table();
    let text = lexeme(kind);
    assert(text.len() > 0);
    assert forall|j: int| 0 <= j < text.len() implies 'a' <= #[trigger] text[j] <= 'z' by {
        match kind {
            TokenKind::Note => {
                if j == 0 {
                    assert(text[0] == 'n');
                } else if j == 1 {
                    assert(text[1] == 'o');
                } else if j == 2 {
                    assert(text[2] == 't');
                } else if j == 3 {
                    assert(text[3] == 'e');
                }
            },
            TokenKind::Lte => {
                if j == 0 {
                    assert(text[0] == 'l');
                } else if j == 1 {
                    assert(text[1] == 't');
                } else if j == 2 {
                    assert(text[2] == 'e');
                }
            },
            TokenKind::Gte => {
                if j == 0 {
                    assert(text[0] == 'g');
                } else if j == 1 {
                    assert(text[1] == 't');
                } else if j == 2 {
                    assert(text[2] == 'e');
                }
            },
            TokenKind::Gt => {
                if j == 0 {
                    assert(text[0] == 'g');
                } else if j == 1 {
                    assert(text[1] == 't');
                }
            },
            TokenKind::Lt => {
                if j == 0 {
                    assert(text[0] == 'l');
                } else if j == 1 {
                    assert(text[1] == 't');
                }
            },
            TokenKind::Neq => {
                if j == 0 {
                    assert(text[0] == 'n');
                } else if j == 1 {
                    assert(text[1] == 'e');
                } else if j == 2 {
                    assert(text[2] == 'q');
                }
            },
            TokenKind::Eq => {
                if j == 0 {
                    assert(text[0] == 'e');
                } else if j == 1 {
                    assert(text[1] == 'q');
                }
            },
            TokenKind::For => {
                if j == 0 {
                    assert(text[0] == 'f');
                } else if j == 1 {
                    assert(text[1] == 'o');
                } else if j == 2 {
                    assert(text[2] == 'r');
                }
            },
            TokenKind::Until => {
                if j == 0 {
                    assert(text[0] == 'u');
                } else if j == 1 {
                    assert(text[1] == 'n');
                } else if j == 2 {
                    assert(text[2] == 't');
                } else if j == 3 {
                    assert(text[3] == 'i');
                } else if j == 4 {
                    assert(text[4] == 'l');
                }
            },
            TokenKind::Break => {
                if j == 0 {
                    assert(text[0] == 'b');
                } else if j == 1 {
                    assert(text[1] == 'r');
                } else if j == 2 {
                    assert(text[2] == 'e');
                } else if j == 3 {
                    assert(text[3] == 'a');
                } else if j == 4 {
                    assert(text[4] == 'k');
                }
            },
            TokenKind::Continue => {
                if j == 0 {
                    assert(text[0] == 'c');
                } else if j == 1 {
                    assert(text[1] == 'o');
                } else if j == 2 {
                    assert(text[2] == 'n');
                } else if j == 3 {
                    assert(text[3] == 't');
                } else if j == 4 {
                    assert(text[4] == 'i');
                } else if j == 5 {
                    assert(text[5] == 'n');
                } else if j == 6 {
                    assert(text[6] == 'u');
                } else if j == 7 {
                    assert(text[7] == 'e');
                }
            },
            TokenKind::If => {
                if j == 0 {
                    assert(text[0] == 'i');
                } else if j == 1 {
                    assert(text[1] == 'f');
                }
            },
            TokenKind::Then => {
                if j == 0 {
                    assert(text[0] == 't');
                } else if j == 1 {
                    assert(text[1] == 'h');
                } else if j == 2 {
                    assert(text[2] == 'e');
                } else if j == 3 {
                    assert(text[3] == 'n');
                }
            },
            TokenKind::Else => {
                if j == 0 {
                    assert(text[0] == 'e');
                } else if j == 1 {
                    assert(text[1] == 'l');
                } else if j == 2 {
                    assert(text[2] == 's');
                } else if j == 3 {
                    assert(text[3] == 'e');
                }
            },
            TokenKind::ElseIf => {
                if j == 0 {
                    assert(text[0] == 'e');
                } else if j == 1 {
                    assert(text[1] == 'l');
                } else if j == 2 {
                    assert(text[2] == 'i');
                } else if j == 3 {
                    assert(text[3] == 'f');
                }
            },
            TokenKind::Do => {
                if j == 0 {
                    assert(text[0] == 'd');
                } else if j == 1 {
                    assert(text[1] == 'o');
                }
            },
            TokenKind::End => {
                if j == 0 {
                    assert(text[0] == 'e');
                } else if j == 1 {
                    assert(text[1] == 'n');
                } else if j == 2 {
                    assert(text[2] == 'd');
                }
            },
            TokenKind::Is => {
                if j == 0 {
                    assert(text[0] == 'i');
                } else if j == 1 {
                    assert(text[1] == 's');
                }
            },
            TokenKind::False => {
                if j == 0 {
                    assert(text[0] == 'f');
                } else if j == 1 {
                    assert(text[1] == 'a');
                } else if j == 2 {
                    assert(text[2] == 'l');
                } else if j == 3 {
                    assert(text[3] == 's');
                } else if j == 4 {
                    assert(text[4] == 'e');
                }
            },
            TokenKind::True => {
                if j == 0 {
                    assert(text[0] == 't');
                } else if j == 1 {
                    assert(text[1] == 'r');
                } else if j == 2 {
                    assert(text[2] == 'u');
                } else if j == 3 {
                    assert(text[3] == 'e');
                }
            },
            TokenKind::Function => {
                if j == 0 {
                    assert(text[0] == 'f');
                } else if j == 1 {
                    assert(text[1] == 'u');
                } else if j == 2 {
                    assert(text[2] == 'n');
                } else if j == 3 {
                    assert(text[3] == 'c');
                }
            },
            TokenKind::Uses => {
                if j == 0 {
                    assert(text[0] == 'u');
                } else if j == 1 {
                    assert(text[1] == 's');
                } else if j == 2 {
                    assert(text[2] == 'e');
                } else if j == 3 {
                    assert(text[3] == 's');
                }
            },
            TokenKind::Or => {
                if j == 0 {
                    assert(text[0] == 'o');
                } else if j == 1 {
                    assert(text[1] == 'r');
                }
            },
            TokenKind::And => {
                if j == 0 {
                    assert(text[0] == 'a');
                } else if j == 1 {
                    assert(text[1] == 'n');
                } else if j == 2 {
                    assert(text[2] == 'd');
                }
            },
            TokenKind::Not => {
                if j == 0 {
                    assert(text[0] == 'n');
                } else if j == 1 {
                    assert(text[1] == 'o');
                } else if j == 2 {
                    assert(text[2] == 't');
                }
            },
            TokenKind::Return => {
                if j == 0 {
                    assert(text[0] == 'r');
                } else if j == 1 {
                    assert(text[1] == 'e');
                } else if j == 2 {
                    assert(text[2] == 't');
                } else if j == 3 {
                    assert(text[3] == 'u');
                } else if j == 4 {
                    assert(text[4] == 'r');
                } else if j == 5 {
                    assert(text[5] == 'n');
                }
            },
            _ => {},
        }
    }
    lemma_small_letters(text);
}

/// A symbol's text is the one character that forms its token.
proof fn lemma_symbol_text(kind: TokenKind)
    requires
        symbol_token(kind),
    ensures
        lexeme(kind).len() == 1,
        symbol_char(lexeme(kind)[0]),
        symbol_kind(lexeme(kind)[0]) == kind,
{
    lemma_spellings();
}

/// The decimal text of an integer that is not negative is read as one word
/// and resolves to the integer.
proof fn lemma_integer_word(value: int)
    requires
        0 <= value <= i64::MAX,
    ensures
        word_run(integer_text(value)),
        resolve(integer_text(value)) == TokenKind::Integer(value),
{
    let text = integer_text(value);
    lemma_decimal_text(value as nat);
    lemma_integer_round_trip(value);
    lemma_keyword_table();
    assert forall|j: int| 0 <= j < text.len() implies joins(text, j) by {
        assert(digit_char(text[j]));
    }
    assert(joins(text, 0));
    assert(ascii_text(text)) by {
        assert forall|j: int| 0 <= j < text.len() implies ascii_char(
            #[trigger] text[j],
        ) by {
            assert(digit_char(text[j]));
        }
    }
    assert(ascii_lowercase(text) =~= text) by {
        assert forall|j: int| 0 <= j < text.len() implies lower_char(text[j])
            == text[j] by {
            assert(digit_char(text[j]));
        }
    }
    assert(digit_char(text[0]));
    assert(keyword(lowercase(text)) is None);
}

/// Nothing in the buffer, and outside string literals.
spec fn clean(st: LexState) -> bool {
    st.buffer.len() == 0 && st.quoted is None
}

/// The kinds of a run with one more token.
proof fn lemma_kinds_push(tokens: Seq<TokenView>, token: TokenView)
    ensures
        kinds_of(tokens.push(token)) == kinds_of(tokens).push(token.kind),
{
    assert(kinds_of(tokens.push(token)) =~= kinds_of(tokens).push(token.kind));
}

/// A word in progress: after `j` characters of a word that begins at `at`
/// in a clean state, the buffer holds those characters and nothing else
/// has changed.
proof fn lemma_scan_word_part(source: Seq<char>, at: int, text: Seq<char>, j: int)
    requires
        0 <= at,
        at + text.len() <= source.len(),
        source.subrange(at, at + text.len()) == text,
        clean(run(source, at)),
        word_run(text),
        text.len() > 1 || joins(text, 0),
        0 <= j <= text.len(),
    ensures
        run(source, at + j) == (LexState { buffer: text.take(j), ..run(source, at) }),
    decreases j,
{
    if j == 0 {
        assert(text.take(0) =~= Seq::empty());
        assert(run(source, at).buffer =~= Seq::empty());
    } else {
        lemma_scan_word_part(source, at, text, j - 1);
        let c = source[at + j - 1];
        assert(c == text[j - 1]);
        assert(text.take(j - 1).push(c) =~= text.take(j));
        if j == 1 {
            assert(text.take(0) =~= Seq::empty());
            assert(seq![c] =~= text.take(1));
            if !joins(text, 0) {
                assert(source[at + 1] == text[1]);
                assert(lookahead(source, at) == Some(text[1]));
            }
        } else {
            assert(joins(text, j - 1));
        }
    }
}

/// A word and the blank after it, read from a clean state, give one more
/// token, of the kind that the word resolves to, and a clean state again.
proof fn lemma_scan_word(source: Seq<char>, at: int, text: Seq<char>)
    requires
        0 <= at,
        at + text.len() < source.len(),
        source.subrange(at, at + text.len()) == text,
        source[at + text.len()] == ' ',
        clean(run(source, at)),
        word_run(text),
    ensures
        clean(run(source, at + text.len() + 1)),
        kinds_of(run(source, at + text.len() + 1).tokens) == kinds_of(run(source, at).tokens).push(
            resolve(text),
        ),
{
    let before = run(source, at);
    lemma_kinds_push(before.tokens, TokenView { kind: resolve(text), line: before.line });
    if text.len() > 1 || joins(text, 0) {
        lemma_scan_word_part(source, at, text, text.len() as int);
        assert(text.take(text.len() as int) =~= text);
    } else {
        // a character of no class with the blank behind it is a word at once
        let c = source[at];
        assert(c == text[0]);
        assert(seq![c] =~= text);
        assert(before.buffer =~= Seq::empty());
        assert(lookahead(source, at) == Some(' '));
        assert(run(source, at + 1) == step(before, c, Some(' ')));
        assert(run(source, at + 2) == step(run(source, at + 1), ' ', lookahead(source, at + 1)));
    }
}

/// A symbol and the blank after it.
proof fn lemma_scan_symbol(source: Seq<char>, at: int, c: char)
    requires
        0 <= at,
        at + 1 < source.len(),
        source[at] == c,
        source[at + 1] == ' ',
        symbol_char(c),
        clean(run(source, at)),
    ensures
        clean(run(source, at + 2)),
        kinds_of(run(source, at + 2).tokens) == kinds_of(run(source, at).tokens).push(
            symbol_kind(c),
        ),
{
    let before = run(source, at);
    assert(run(source, at + 1) == step(before, c, lookahead(source, at)));
    lemma_kinds_push(before.tokens, TokenView { kind: symbol_kind(c), line: before.line });
    assert(run(source, at + 2) == step(
        run(source, at + 1),
        ' ',
        lookahead(source, at + 1),
    ));
}

/// A line break and the blank after it.
proof fn lemma_scan_newline(source: Seq<char>, at: int)
    requires
        0 <= at,
        at + 1 < source.len(),
        source[at] == '\n',
        source[at + 1] == ' ',
        clean(run(source, at)),
    ensures
        clean(run(source, at + 2)),
        kinds_of(run(source, at + 2).tokens) == kinds_of(run(source, at).tokens).push(
            TokenKind::Newline,
        ),
{
    let before = run(source, at);
    assert(run(source, at + 1) == step(before, '\n', lookahead(source, at)));
    lemma_kinds_push(before.tokens, TokenView { kind: TokenKind::Newline, line: before.line });
    assert(run(source, at + 2) == step(
        run(source, at + 1),
        ' ',
        lookahead(source, at + 1),
    ));
}

/// A string literal in progress: after the opening quote at `at` and `j`
/// characters of its text, the buffer holds those characters.
proof fn lemma_scan_string_part(source: Seq<char>, at: int, text: Seq<char>, j: int)
    requires
        0 <= at,
        at + 1 + text.len() <= source.len(),
        source[at] == '"',
        source.subrange(at + 1, at + 1 + text.len()) == text,
        quote_free(text),
        clean(run(source, at)),
        0 <= j <= text.len(),
    ensures
        run(source, at + 1 + j).tokens == run(source, at).tokens,
        run(source, at + 1 + j).buffer == text.take(j),
        run(source, at + 1 + j).quoted == Some(run(source, at).line),
    decreases j,
{
    if j == 0 {
        assert(run(source, at + 1) == step(
            run(source, at),
            '"',
            lookahead(source, at),
        ));
        assert(text.take(0) =~= Seq::empty());
        assert(run(source, at).buffer =~= Seq::empty());
    } else {
        lemma_scan_string_part(source, at, text, j - 1);
        let c = source[at + j];
        assert(c == text[j - 1]);
        assert(c != '"');
        assert(text.take(j - 1).push(c) =~= text.take(j));
        assert(run(source, at + 1 + j) == step(
            run(source, at + j),
            c,
            lookahead(source, at + j),
        ));
    }
}

/// A string literal between its quotes, and the blank after it.
proof fn lemma_scan_string(source: Seq<char>, at: int, text: Seq<char>)
    requires
        0 <= at,
        at + text.len() + 2 < source.len(),
        source.subrange(at, at + text.len() + 2) == seq!['"'] + text + seq!['"'],
        source[at + text.len() + 2] == ' ',
        quote_free(text),
        clean(run(source, at)),
    ensures
        clean(run(source, at + text.len() + 3)),
        kinds_of(run(source, at + text.len() + 3).tokens) == kinds_of(
            run(source, at).tokens,
        ).push(TokenKind::StringLiteral(text)),
{
    let whole = seq!['"'] + text + seq!['"'];
    let n = text.len() as int;
    assert(source[at] == whole[0]);
    assert(source[at + n + 1] == whole[n + 1]);
    assert(source.subrange(at + 1, at + 1 + n) =~= text) by {
        assert forall|j: int| 0 <= j < n implies source.subrange(at + 1, at + 1 + n)[j]
            == text[j] by {
            assert(source[at + 1 + j] == whole[1 + j]);
        }
    }
    lemma_scan_string_part(source, at, text, n);
    assert(text.take(n) =~= text);
    let before = run(source, at);
    let inside = run(source, at + 1 + n);
    assert(run(source, at + n + 2) == step(
        inside,
        '"',
        lookahead(source, at + n + 1),
    ));
    lemma_kinds_push(
        before.tokens,
        TokenView { kind: TokenKind::StringLiteral(text), line: before.line },
    );
    assert(run(source, at + n + 3) == step(
        run(source, at + n + 2),
        ' ',
        lookahead(source, at + n + 2),
    ));
}

/// Where the text of the token at `m` stands in the written text: behind
/// the text of the tokens before it, with its blank after it.
proof fn lemma_segment(kinds: Seq<TokenKind>, m: int)
    requires
        0 <= m < kinds.len(),
    ensures
        ({
            let at = written(kinds.take(m)).len() as int;
            let part = lexeme(kinds[m]).push(' ');
            &&& at + part.len() <= written(kinds).len()
            &&& written(kinds).subrange(at, at + part.len()) == part
            &&& written(kinds.take(m + 1)).len() == at + part.len()
        }),
    decreases kinds.len(),
{
    let at = written(kinds.take(m)).len() as int;
    let part = lexeme(kinds[m]).push(' ');
    assert(kinds.take(m + 1).drop_last() =~= kinds.take(m));
    assert(kinds.take(m + 1).last() == kinds[m]);
    if m == kinds.len() - 1 {
        assert(kinds.take(m) =~= kinds.drop_last());
        assert(written(kinds).subrange(at, at + part.len()) =~= part);
    } else {
        let shorter = kinds.drop_last();
        lemma_segment(shorter, m);
        assert(shorter.take(m) =~= kinds.take(m));
        assert(shorter[m] == kinds[m]);
        assert(written(kinds).subrange(at, at + part.len()) =~= written(shorter).subrange(
            at,
            at + part.len(),
        ));
    }
}

/// After the text of the first `m` tokens the scan has read exactly those
/// tokens and stands in a clean state.
proof fn lemma_written_scan(kinds: Seq<TokenKind>, m: int)
    requires
        all_unambiguous(kinds),
        0 <= m <= kinds.len(),
    ensures
        ({
            let st = run(written(kinds), written(kinds.take(m)).len() as int);
            clean(st) && kinds_of(st.tokens) == kinds.take(m)
        }),
    decreases m,
{
    let source = written(kinds);
    if m == 0 {
        assert(kinds.take(0) =~= Seq::empty());
        assert(kinds_of(run(source, 0).tokens) =~= kinds.take(0));
    } else {
        lemma_written_scan(kinds, m - 1);
        lemma_segment(kinds, m - 1);
        let kind = kinds[m - 1];
        let at = written(kinds.take(m - 1)).len() as int;
        let text = lexeme(kind);
        let part = text.push(' ');
        assert(unambiguous(kind));
        assert(kinds.take(m - 1).push(kind) =~= kinds.take(m));
        assert(source[at + text.len()] == part[text.len() as int]);
        assert(source.subrange(at, at + text.len()) =~= text) by {
            assert forall|j: int| 0 <= j < text.len() implies source.subrange(
                at,
                at + text.len(),
            )[j] == text[j] by {
                assert(source[at + j] == part[j]);
            }
        }
        match kind {
            TokenKind::Identifier(_) => {
                lemma_scan_word(source, at, text);
            },
            TokenKind::Float(_) => {
                lemma_scan_word(source, at, text);
            },
            TokenKind::Integer(value) => {
                lemma_integer_word(value);
                lemma_scan_word(source, at, text);
            },
            TokenKind::StringLiteral(content) => {
                lemma_scan_string(source, at, content);
            },
            TokenKind::Newline => {
                assert(source[at] == part[0]);
                lemma_scan_newline(source, at);
            },
            TokenKind::Eof => {},
            _ => {
                if symbol_token(kind) {
                    lemma_symbol_text(kind);
                    assert(source[at] == part[0]);
                    lemma_scan_symbol(source, at, text[0]);
                } else {
                    assert(keyword_kind(kind));
                    lemma_keyword_word(kind);
                    lemma_scan_word(source, at, text);
                }
            },
        }
    }
}

/// Reading back what was written. For every run of unambiguous tokens,
/// the tokens of its written text are those tokens, kind by kind and in
/// their order, and then the end marker.
pub proof fn lemma_read_back(kinds: Seq<TokenKind>)
    requires
        all_unambiguous(kinds),
    ensures
        kinds_of(tokenize(written(kinds))) == kinds.push(TokenKind::Eof),
{
    let source = written(kinds);
    lemma_written_scan(kinds, kinds.len() as int);
    assert(kinds.take(kinds.len() as int) =~= kinds);
    let st = run(source, source.len() as int);
    lemma_kinds_push(st.tokens, TokenView { kind: TokenKind::Eof, line: st.line });
}

/// The two written forms differ by the blank at the end.
proof fn lemma_joined(kinds: Seq<TokenKind>)
    requires
        kinds.len() > 0,
    ensures
        written(kinds) == joined(kinds).push(' '),
    decreases kinds.len(),
{
    if kinds.len() == 1 {
        assert(kinds.drop_last() =~= Seq::<TokenKind>::empty());
        assert(written(kinds.drop_last()) =~= Seq::<char>::empty());
        assert(kinds.last() == kinds[0]);
        assert(written(kinds) =~= joined(kinds).push(' '));
    } else {
        lemma_joined(kinds.drop_last());
        assert(written(kinds) =~= joined(kinds).push(' '));
    }
}

/// A character behind a text changes nothing of the scan before the last
/// character of the text.
proof fn lemma_run_push(text: Seq<char>, c: char, n: int)
    requires
        0 <= n < text.len(),
    ensures
        run(text.push(c), n) == run(text, n),
    decreases n,
{
    if n > 0 {
        lemma_run_push(text, c, n - 1);
        assert(text.push(c)[n - 1] == text[n - 1]);
        assert(lookahead(text.push(c), n - 1) == lookahead(text, n - 1));
    }
}

/// A blank at the end of a text changes nothing of its tokens, unless the
/// text ends inside a string literal.
proof fn lemma_blank_at_end(text: Seq<char>)
    requires
        run(text.push(' '), text.len() as int + 1).quoted is None,
    ensures
        tokenize(text.push(' ')) == tokenize(text),
{
    let longer = text.push(' ');
    let n = text.len() as int;
    assert(longer.len() == n + 1);
    assert(lookahead(longer, n) == None::<char>);
    assert(run(longer, n + 1) == step(run(longer, n), ' ', None));
    if n == 0 {
        assert(run(text, 0).buffer =~= Seq::<char>::empty());
    } else {
        lemma_run_push(text, ' ', n - 1);
        let st = run(text, n - 1);
        let c = text[n - 1];
        assert(longer[n - 1] == c);
        assert(lookahead(longer, n - 1) == Some(' '));
        assert(lookahead(text, n - 1) == None::<char>);
        let short_end = step(st, c, None);
        let long_end = step(st, c, Some(' '));
        assert(run(text, n) == short_end);
        assert(run(longer, n) == long_end);
        assert(long_end.quoted is None);
        assert(flush(long_end).buffer =~= Seq::<char>::empty());
    }
}

/// Reading back what was written with blanks between the tokens and none
/// at the end: the tokens are read back all the same.
pub proof fn lemma_read_back_joined(kinds: Seq<TokenKind>)
    requires
        all_unambiguous(kinds),
    ensures
        kinds_of(tokenize(joined(kinds))) == kinds.push(TokenKind::Eof),
{
    lemma_read_back(kinds);
    if kinds.len() > 0 {
        lemma_joined(kinds);
        lemma_written_scan(kinds, kinds.len() as int);
        assert(kinds.take(kinds.len() as int) =~= kinds);
        lemma_blank_at_end(joined(kinds));
    }
}

/// A word resolves to an unambiguous token.
proof fn lemma_word_resolves(text: Seq<char>)
    requires
        word_run(text),
    ensures
        unambiguous(resolve(text)),
{
    lemma_resolve_kind(text);
    match resolve(text) {
        TokenKind::Integer(value) => {
            // a word holds no sign, which is a symbol
            assert(text[0] != '-' && text[0] != '+');
            assert(unsigned_part(text) == text);
            lemma_decimal_prefix(text, text.len() as int);
            assert(text.take(text.len() as int) =~= text);
        },
        _ => {},
    }
}

/// What the scan holds after `n` characters can be read back: the tokens
/// are unambiguous, the buffer holds a word or nothing or, inside a string
/// literal, a text without a quote; and a character of no class that is
/// alone in the buffer has neither white space nor a digit behind it.
spec fn readable(source: Seq<char>, n: int) -> bool {
    let st = run(source, n);
    &&& all_unambiguous(kinds_of(st.tokens))
    &&& match st.quoted {
        Some(_) => quote_free(st.buffer),
        None => st.buffer.len() == 0 || word_run(st.buffer),
    }
    &&& (st.quoted is None && st.buffer.len() == 1 && !joins(st.buffer, 0) && n < source.len())
        ==> !whitespace_char(source[n]) && !digit_char(source[n])
}

/// One more unambiguous token keeps the tokens unambiguous.
proof fn lemma_push_unambiguous(tokens: Seq<TokenView>, token: TokenView)
    requires
        all_unambiguous(kinds_of(tokens)),
        unambiguous(token.kind),
    ensures
        all_unambiguous(kinds_of(tokens.push(token))),
{
    lemma_kinds_push(tokens, token);
    let kinds = kinds_of(tokens).push(token.kind);
    assert forall|i: int| 0 <= i < kinds.len() implies unambiguous(#[trigger] kinds[i]) by {
        if i < tokens.len() {
            assert(kinds[i] == kinds_of(tokens)[i]);
        }
    }
}

/// Flushing a buffer that holds a word or nothing keeps the tokens
/// unambiguous.
proof fn lemma_flush_readable(st: LexState)
    requires
        all_unambiguous(kinds_of(st.tokens)),
        st.buffer.len() == 0 || word_run(st.buffer),
    ensures
        all_unambiguous(kinds_of(flush(st).tokens)),
        flush(st).buffer.len() == 0,
        flush(st).quoted == st.quoted,
{
    if st.buffer.len() > 0 {
        lemma_word_resolves(st.buffer);
        lemma_push_unambiguous(st.tokens, TokenView { kind: resolve(st.buffer), line: st.line });
    }
}

/// A word with one more character that joins it is a word.
proof fn lemma_word_grows(text: Seq<char>, c: char)
    requires
        text.len() == 0 || word_run(text),
        joins(text.push(c), text.len() as int),
        text.len() == 1 && !joins(text, 0) ==> !whitespace_char(c) && !digit_char(c),
    ensures
        word_run(text.push(c)),
{
    let longer = text.push(c);
    assert forall|j: int| 0 <= j < text.len() implies longer.take(j) == text.take(j) by {
        assert(longer.take(j) =~= text.take(j));
    }
    assert(longer.take(0) =~= text.take(0));
    assert forall|j: int| 1 <= j < longer.len() implies joins(longer, j) by {
        if j < text.len() {
            assert(joins(text, j));
            assert(longer[j] == text[j]);
        }
    }
    if text.len() > 0 {
        assert(longer[0] == text[0]);
        if joins(text, 0) {
            assert(joins(longer, 0));
        }
    }
}

/// Every state of every scan can be read back.
proof fn lemma_run_readable(source: Seq<char>, n: int)
    requires
        0 <= n <= source.len(),
    ensures
        readable(source, n),
    decreases n,
{
    if n == 0 {
        assert(kinds_of(run(source, 0).tokens) =~= Seq::<TokenKind>::empty());
    } else {
        lemma_run_readable(source, n - 1);
        let st = run(source, n - 1);
        let c = source[n - 1];
        let next = lookahead(source, n - 1);
        let after = run(source, n);
        assert(after == step(st, c, next));
        match st.quoted {
            Some(start) => {
                if c == '"' {
                    lemma_push_unambiguous(
                        st.tokens,
                        TokenView { kind: TokenKind::StringLiteral(st.buffer), line: start },
                    );
                } else {
                    assert forall|j: int|
                        0 <= j < after.buffer.len() implies #[trigger] after.buffer[j] != '"' by {
                        if j < st.buffer.len() {
                            assert(after.buffer[j] == st.buffer[j]);
                        }
                    }
                }
            },
            None => {
                lemma_flush_readable(st);
                let flushed = flush(st);
                if c == '\n' {
                    lemma_push_unambiguous(
                        flushed.tokens,
                        TokenView { kind: TokenKind::Newline, line: flushed.line },
                    );
                } else if whitespace_char(c) {
                } else if c == '"' {
                } else if word_char(c) {
                    assert(st.buffer.push(c).take(st.buffer.len() as int) =~= st.buffer);
                    lemma_word_grows(st.buffer, c);
                } else if symbol_char(c) {
                    lemma_push_unambiguous(
                        flushed.tokens,
                        TokenView { kind: symbol_kind(c), line: flushed.line },
                    );
                } else if (digit_char(c) || c == '.') && all_numeric(st.buffer) {
                    assert(st.buffer.push(c).take(st.buffer.len() as int) =~= st.buffer);
                    lemma_word_grows(st.buffer, c);
                } else {
                    let fresh = LexState { buffer: seq![c], ..flushed };
                    assert(fresh.buffer.take(0) =~= Seq::<char>::empty());
                    assert(word_run(fresh.buffer));
                    lemma_flush_readable(fresh);
                }
            },
        }
    }
}

/// The tokens of every source text, the end marker left aside, are
/// unambiguous.
pub proof fn lemma_tokens_unambiguous(source: Seq<char>)
    ensures
        all_unambiguous(kinds_of(tokenize(source)).drop_last()),
{
    let n = source.len() as int;
    let st = run(source, n);
    lemma_run_readable(source, n);
    let body = match st.quoted {
        Some(start) => st.tokens.push(
            TokenView { kind: TokenKind::StringLiteral(st.buffer), line: start },
        ),
        None => flush(st).tokens,
    };
    match st.quoted {
        Some(start) => {
            lemma_push_unambiguous(
                st.tokens,
                TokenView { kind: TokenKind::StringLiteral(st.buffer), line: start },
            );
        },
        None => {
            lemma_flush_readable(st);
        },
    }
    let last = TokenView { kind: TokenKind::Eof, line: st.line };
    lemma_kinds_push(body, last);
    assert(kinds_of(tokenize(source)).drop_last() =~= kinds_of(body));
}

/// Tokenizing twice gives what tokenizing once gave. Whatever the source,
/// writing its tokens out and tokenizing that text gives the same kinds
/// again, in the same order.
pub proof fn lemma_tokenize_again(source: Seq<char>)
    ensures
        kinds_of(tokenize(written(kinds_of(tokenize(source)).drop_last()))) == kinds_of(
            tokenize(source),
        ),
{
    let kinds = kinds_of(tokenize(source));
    lemma_token_order(source);
    lemma_tokens_unambiguous(source);
    assert(kinds.last() == TokenKind::Eof);
    assert(kinds.drop_last().push(TokenKind::Eof) =~= kinds);
    lemma_read_back(kinds.drop_last());
}

/// The same with the tokens written with one blank between each two and
/// none at the end: the kinds come out again, what they carry included.
pub proof fn lemma_tokenize_again_joined(source: Seq<char>)
    ensures
        kinds_of(tokenize(joined(kinds_of(tokenize(source)).drop_last()))) == kinds_of(
            tokenize(source),
        ),
{
    let kinds = kinds_of(tokenize(source));
    lemma_token_order(source);
    lemma_tokens_unambiguous(source);
    assert(kinds.last() == TokenKind::Eof);
    assert(kinds.drop_last().push(TokenKind::Eof) =~= kinds);
    lemma_read_back_joined(kinds.drop_last());
}

} // verus!
