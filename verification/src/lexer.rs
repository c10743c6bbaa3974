//! The tokenizer: one scan from left to right over the characters of the
//! source, with a buffer for the word in progress and a line counter.
use vstd::prelude::*;
use crate::chars::{
    all_numeric, chars_of, digit_char, is_all_numeric, is_digit_char, is_symbol_char,
    is_whitespace_char, is_word_char, symbol_char, whitespace_char, word_char,
};
use crate::scan_laws::{
    breaks_outside_strings, closed_by_end_marker, lemma_line_accounting, lemma_token_order,
    lines_accounted, lines_sorted, newline_tokens,
};
use crate::token::{resolve, token_views, Token, TokenKind, TokenType, TokenView};

verus! {

/// What the scan remembers between two characters.
pub struct LexState {
    /// The tokens emitted so far.
    pub tokens: Seq<TokenView>,
    /// The word in progress or, inside a string literal, its text so far.
    pub buffer: Seq<char>,
    /// The line of the next character, counted from 1.
    pub line: int,
    /// Inside a string literal: the line on which it began.
    pub quoted: Option<int>,
}

/// The state before the first character.
pub open spec fn initial_state() -> LexState {
    LexState { tokens: Seq::empty(), buffer: Seq::empty(), line: 1, quoted: None }
}

/// The state with one more token, on the current line.
pub open spec fn emit(st: LexState, kind: TokenKind) -> LexState {
    LexState { tokens: st.tokens.push(TokenView { kind, line: st.line }), ..st }
}

/// Flushing the buffer: a buffer that holds anything becomes one token, of
/// the kind that its text resolves to, and the buffer is empty again.
pub open spec fn flush(st: LexState) -> LexState {
    if st.buffer.len() > 0 {
        LexState { buffer: Seq::empty(), ..emit(st, resolve(st.buffer)) }
    } else {
        st
    }
}

/// The token that one of the eight symbols forms.
pub open spec fn symbol_kind(c: char) -> TokenKind {
    if c == '(' {
        TokenKind::OpenParenthesis
    } else if c == ')' {
        TokenKind::CloseParenthesis
    } else if c == ',' {
        TokenKind::Comma
    } else if c == '+' {
        TokenKind::Add
    } else if c == '-' {
        TokenKind::Subtract
    } else if c == '*' {
        TokenKind::Multiply
    } else if c == '/' {
        TokenKind::Divide
    } else {
        TokenKind::Power
    }
}

/// One step of the scan inside a string literal: the closing quote ends
/// the literal, which becomes one token on the line where it began; any
/// other character belongs to its text.
pub open spec fn step_quoted(st: LexState, start: int, c: char) -> LexState {
    if c == '"' {
        LexState {
            tokens: st.tokens.push(
                TokenView { kind: TokenKind::StringLiteral(st.buffer), line: start },
            ),
            buffer: Seq::empty(),
            quoted: None,
            ..st
        }
    } else {
        LexState {
            buffer: st.buffer.push(c),
            line: if c == '\n' {
                st.line + 1
            } else {
                st.line
            },
            ..st
        }
    }
}

/// One step of the scan outside string literals, on the character `c`
/// with `next` after it. The first rule that applies decides.
pub open spec fn step_plain(st: LexState, c: char, next: Option<char>) -> LexState {
    if c == '\n' {
        // a line break ends the word and is a token of its own
        LexState { line: st.line + 1, ..emit(flush(st), TokenKind::Newline) }
    } else if whitespace_char(c) {
        flush(st)
    } else if c == '"' {
        LexState { quoted: Some(st.line), ..flush(st) }
    } else if word_char(c) {
        LexState { buffer: st.buffer.push(c), ..st }
    } else if symbol_char(c) {
        emit(flush(st), symbol_kind(c))
    } else if (digit_char(c) || c == '.') && all_numeric(st.buffer) {
        LexState { buffer: st.buffer.push(c), ..st }
    } else {
        // any other character starts a word of its own, which ends at once
        // before white space or a digit
        let fresh = LexState { buffer: seq![c], ..flush(st) };
        if next matches Some(n) && (whitespace_char(n) || digit_char(n)) {
            flush(fresh)
        } else {
            fresh
        }
    }
}

/// One step of the scan.
pub open spec fn step(st: LexState, c: char, next: Option<char>) -> LexState {
    match st.quoted {
        Some(start) => step_quoted(st, start, c),
        None => step_plain(st, c, next),
    }
}

/// The character after position `i`, if there is one.
pub open spec fn lookahead(source: Seq<char>, i: int) -> Option<char> {
    if 0 <= i + 1 < source.len() {
        Some(source[i + 1])
    } else {
        None
    }
}

/// The state after the first `n` characters of the source.
pub open spec fn run(source: Seq<char>, n: int) -> LexState
    decreases n,
{
    if n <= 0 {
        initial_state()
    } else {
        step(run(source, n - 1), source[n - 1], lookahead(source, n - 1))
    }
}

/// The tokens at the end of the input: what is left in the buffer becomes
/// a last token (an unterminated string literal ends here), and the
/// end-of-input token closes the sequence.
pub open spec fn finish(st: LexState) -> Seq<TokenView> {
    let tokens = match st.quoted {
        Some(start) => st.tokens.push(
            TokenView { kind: TokenKind::StringLiteral(st.buffer), line: start },
        ),
        None => flush(st).tokens,
    };
    tokens.push(TokenView { kind: TokenKind::Eof, line: st.line })
}

/// The tokens of a source text.
pub open spec fn tokenize(source: Seq<char>) -> Seq<TokenView> {
    finish(run(source, source.len() as int))
}

/// The number of line breaks in a text.
pub open spec fn newline_count(text: Seq<char>) -> nat
    decreases text.len(),
{
    if text.len() == 0 {
        0
    } else {
        newline_count(text.drop_last()) + if text.last() == '\n' {
            1nat
        } else {
            0nat
        }
    }
}

/// A prefix of a text has no more line breaks than the text.
pub proof fn lemma_newline_count_prefix(text: Seq<char>, n: int)
    requires
        0 <= n <= text.len(),
    ensures
        newline_count(text.take(n)) <= newline_count(text),
    decreases text.len(),
{
    if n == text.len() {
        assert(text.take(n) =~= text);
    } else {
        assert(text.drop_last().take(n) =~= text.take(n));
        lemma_newline_count_prefix(text.drop_last(), n);
    }
}

/// The line counter is one more than the number of line breaks read.
pub proof fn lemma_run_line(source: Seq<char>, n: int)
    requires
        0 <= n <= source.len(),
    ensures
        run(source, n).line == 1 + newline_count(source.take(n)),
    decreases n,
{
    if n > 0 {
        lemma_run_line(source, n - 1);
        assert(source.take(n).drop_last() =~= source.take(n - 1));
        assert(source.take(n).last() == source[n - 1]);
    }
}

/// The scan as the executable code holds it.
struct Scanner {
    tokens: Vec<Token>,
    buffer: String,
    line_number: i32,
    quoted: Option<i32>,
}

impl View for Scanner {
    type V = LexState;

    closed spec fn view(&self) -> LexState {
        LexState {
            tokens: token_views(self.tokens@),
            buffer: self.buffer@,
            line: self.line_number as int,
            quoted: match self.quoted {
                Some(start) => Some(start as int),
                None => None,
            },
        }
    }
}

/// Appends one token.
fn push_token(tokens: &mut Vec<Token>, token: TokenType, line_number: i32)
    ensures
        token_views(final(tokens)@) == token_views(old(tokens)@).push(
            TokenView { kind: token@, line: line_number as int },
        ),
{
    tokens.push(Token::new(token, line_number));
    assert(token_views(tokens@) =~= token_views(old(tokens)@).push(
        TokenView { kind: token@, line: line_number as int },
    ));
}

/// Flushes the buffer: what it holds becomes one token on the given line.
pub fn process_buffer(buffer: &mut String, tokens: &mut Vec<Token>, line_number: i32)
    ensures
        old(buffer)@.len() == 0 ==> *final(buffer) == *old(buffer) && *final(tokens) == *old(
            tokens,
        ),
        old(buffer)@.len() > 0 ==> final(buffer)@ == Seq::<char>::empty() && token_views(
            final(tokens)@,
        ) == token_views(old(tokens)@).push(
            TokenView { kind: resolve(old(buffer)@), line: line_number as int },
        ),
{
    if !buffer.as_str().is_empty() {
        let token_type = TokenType::from_str(buffer.as_str());
        push_token(tokens, token_type, line_number);
        *buffer = String::new();
    }
}

fn symbol_token(c: char) -> (r: TokenType)
    requires
        symbol_char(c),
    ensures
        r@ == symbol_kind(c),
{
    if c == '(' {
        TokenType::OpenParenthesis
    } else if c == ')' {
        TokenType::CloseParenthesis
    } else if c == ',' {
        TokenType::Comma
    } else if c == '+' {
        TokenType::Add
    } else if c == '-' {
        TokenType::Subtract
    } else if c == '*' {
        TokenType::Multiply
    } else if c == '/' {
        TokenType::Divide
    } else {
        TokenType::Power
    }
}

impl Scanner {
    fn flush(&mut self)
        ensures
            final(self)@ == flush(old(self)@),
    {
        process_buffer(&mut self.buffer, &mut self.tokens, self.line_number);
    }

    fn advance(&mut self, c: char, next: Option<char>)
        requires
            c == '\n' ==> old(self).line_number < i32::MAX,
        ensures
            final(self)@ == step(old(self)@, c, next),
    {
        match self.quoted {
            Some(start) => {
                if c == '"' {
                    let content = self.buffer.clone();
                    push_token(&mut self.tokens, TokenType::StringLiteral(content), start);
                    self.buffer = String::new();
                    self.quoted = None;
                } else {
                    self.buffer.push(c);
                    if c == '\n' {
                        self.line_number = self.line_number + 1;
                    }
                }
            },
            None => {
                if c == '\n' {
                    self.flush();
                    push_token(&mut self.tokens, TokenType::Newline, self.line_number);
                    self.line_number = self.line_number + 1;
                } else if is_whitespace_char(c) {
                    self.flush();
                } else if c == '"' {
                    self.flush();
                    self.quoted = Some(self.line_number);
                } else if is_word_char(c) {
                    self.buffer.push(c);
                } else if is_symbol_char(c) {
                    self.flush();
                    push_token(&mut self.tokens, symbol_token(c), self.line_number);
                } else if (is_digit_char(c) || c == '.') && is_all_numeric(
                    &chars_of(self.buffer.as_str()),
                ) {
                    self.buffer.push(c);
                } else {
                    self.flush();
                    self.buffer.push(c);
                    assert(self.buffer@ =~= seq![c]);
                    match next {
                        Some(n) => {
                            if is_whitespace_char(n) || is_digit_char(n) {
                                self.flush();
                            }
                        },
                        None => {},
                    }
                }
            },
        }
    }
}

/// Whether a text has few enough line breaks for the line counter of 32
/// bits, which is what `get_tokens` asks of its input.
pub fn line_breaks_fit(data: &str) -> (r: bool)
    ensures
        r == (newline_count(data@) < i32::MAX),
{
    let chars = chars_of(data);
    let mut count: usize = 0;
    let mut i: usize = 0;
    while i < chars.len()
        invariant
            i <= chars.len(),
            chars@ == data@,
            count == newline_count(data@.take(i as int)),
            count <= i,
        decreases chars.len() - i,
    {
        assert(data@.take(i + 1).drop_last() =~= data@.take(i as int));
        if chars[i] == '\n' {
            count += 1;
        }
        i += 1;
    }
    assert(data@.take(chars.len() as int) =~= data@);
    count < 2147483647
}

/// Turns a source text into its tokens, in the order of the source and
/// closed by the end marker. The scan never fails: what it does not
/// recognise becomes an identifier. Where no line break lies inside a
/// string literal, there is one line-break token for each line break, and
/// every token stands on the line that the line breaks before it count up
/// to. The line counter has 32 bits, so the text must have fewer line
/// breaks than that counter can count.
pub fn get_tokens(data: &str) -> (tokens: Vec<Token>)
    requires
        newline_count(data@) < i32::MAX,
    ensures
        token_views(tokens@) == tokenize(data@),
        lines_sorted(token_views(tokens@)),
        closed_by_end_marker(token_views(tokens@)),
        breaks_outside_strings(data@) ==> newline_tokens(token_views(tokens@)) == newline_count(
            data@,
        ) && lines_accounted(token_views(tokens@)),
{
    let chars = chars_of(data);
    let n = chars.len();
    let mut scanner = Scanner {
        tokens: Vec::new(),
        buffer: String::new(),
        line_number: 1,
        quoted: None,
    };
    assert(scanner@.tokens =~= Seq::empty());
    let mut i: usize = 0;
    while i < n
        invariant
            i <= n,
            n == chars.len(),
            chars@ == data@,
            newline_count(data@) < i32::MAX,
            scanner@ == run(data@, i as int),
        decreases n - i,
    {
        let c = chars[i];
        let next = if i + 1 < n {
            Some(chars[i + 1])
        } else {
            None
        };
        proof {
            lemma_run_line(data@, i as int);
            lemma_newline_count_prefix(data@, i + 1);
            assert(data@.take(i + 1).drop_last() =~= data@.take(i as int));
        }
        scanner.advance(c, next);
        i += 1;
    }
    let Scanner { mut tokens, buffer, line_number, quoted } = scanner;
    match quoted {
        Some(start) => {
            push_token(&mut tokens, TokenType::StringLiteral(buffer), start);
        },
        None => {
            let mut buffer = buffer;
            process_buffer(&mut buffer, &mut tokens, line_number);
        },
    }
    push_token(&mut tokens, TokenType::Eof, line_number);
    proof {
        lemma_token_order(data@);
        if breaks_outside_strings(data@) {
            lemma_line_accounting(data@);
        }
    }
    tokens
}

} // verus!
