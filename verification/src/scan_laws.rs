//! What holds of the tokens of every source text: their lines never
//! decrease, the end marker stands last and only there, line breaks and
//! line numbers agree, the last word stands on the line of the last
//! character that is no white space, and the symbols never become part of a
//! word.
use vstd::prelude::*;
use crate::chars::{all_numeric, digit_char, symbol_char, whitespace_char, word_char};
use crate::lexer::{
    emit, flush, lemma_run_line, lookahead, newline_count, run, step, symbol_kind, tokenize,
    LexState,
};
use crate::token::{resolve, TokenKind, TokenView};

verus! {

/// The number of line-break tokens in a run of tokens.
pub open spec fn newline_tokens(tokens: Seq<TokenView>) -> nat
    decreases tokens.len(),
{
    if tokens.len() == 0 {
        0
    } else {
        newline_tokens(tokens.drop_last()) + if tokens.last().kind is Newline {
            1nat
        } else {
            0nat
        }
    }
}

/// No token stands on an earlier line than a token before it.
pub open spec fn lines_sorted(tokens: Seq<TokenView>) -> bool {
    forall|i: int, j: int| 0 <= i <= j < tokens.len() ==> tokens[i].line <= tokens[j].line
}

/// Every token stands on the line that the line-break tokens before it
/// count up to: the first line is 1, and each line break begins the next.
pub open spec fn lines_accounted(tokens: Seq<TokenView>) -> bool {
    forall|i: int|
        0 <= i < tokens.len() ==> (#[trigger] tokens[i]).line == 1 + newline_tokens(
            tokens.take(i),
        )
}

/// No line break of the source lies inside a string literal.
pub open spec fn breaks_outside_strings(source: Seq<char>) -> bool {
    forall|n: int|
        0 <= n < source.len() && source[n] == '\n' ==> (#[trigger] run(source, n)).quoted is None
}

/// The text holds no quote.
pub open spec fn quote_free(text: Seq<char>) -> bool {
    forall|j: int| 0 <= j < text.len() ==> #[trigger] text[j] != '"'
}

/// The last token of a run that is neither a line break nor the end
/// marker, if there is one.
pub open spec fn last_word(tokens: Seq<TokenView>) -> Option<TokenView>
    decreases tokens.len(),
{
    if tokens.len() == 0 {
        None
    } else if tokens.last().kind is Newline || tokens.last().kind is Eof {
        last_word(tokens.drop_last())
    } else {
        Some(tokens.last())
    }
}

/// There is a last word, and it stands on the given line.
pub open spec fn last_word_on(tokens: Seq<TokenView>, line: int) -> bool {
    last_word(tokens) matches Some(token) && token.line == line
}

/// A text without symbols, white space and quotes.
pub open spec fn word_text(text: Seq<char>) -> bool {
    forall|j: int|
        0 <= j < text.len() ==> !symbol_char(#[trigger] text[j]) && !whitespace_char(text[j])
            && text[j] != '"'
}

/// Every identifier and every floating-point literal among the tokens is
/// a non-empty text without symbols, white space and quotes.
pub open spec fn words_whole(tokens: Seq<TokenView>) -> bool {
    forall|i: int|
        0 <= i < tokens.len() ==> match (#[trigger] tokens[i]).kind {
            TokenKind::Identifier(text) => text.len() > 0 && word_text(text),
            TokenKind::Float(text) => text.len() > 0 && word_text(text),
            _ => true,
        }
}

/// The end marker stands last and nowhere else.
pub open spec fn closed_by_end_marker(tokens: Seq<TokenView>) -> bool {
    &&& tokens.len() > 0
    &&& tokens.last().kind is Eof
    &&& forall|i: int| 0 <= i < tokens.len() - 1 ==> !((#[trigger] tokens[i]).kind is Eof)
}

/// A buffer never resolves to a line break, to the end marker or to a
/// string literal; a word that resolves to an identifier or to a
/// floating-point literal is kept as it was written.
pub proof fn lemma_resolve_kind(text: Seq<char>)
    ensures
        !(resolve(text) is Newline),
        !(resolve(text) is Eof),
        !(resolve(text) is StringLiteral),
        resolve(text) matches TokenKind::Identifier(kept) ==> kept == text,
        resolve(text) matches TokenKind::Float(kept) ==> kept == text,
{
}

/// No token stands on a later line than `line`.
spec fn below(tokens: Seq<TokenView>, line: int) -> bool {
    forall|i: int| 0 <= i < tokens.len() ==> (#[trigger] tokens[i]).line <= line
}

/// No token is the end marker.
spec fn no_end_marker(tokens: Seq<TokenView>) -> bool {
    forall|i: int| 0 <= i < tokens.len() ==> !((#[trigger] tokens[i]).kind is Eof)
}

/// What holds of the lines in every state of the scan.
spec fn sorted_state(st: LexState) -> bool {
    &&& lines_sorted(st.tokens)
    &&& no_end_marker(st.tokens)
    &&& below(st.tokens, st.line)
    &&& st.quoted matches Some(start) ==> start <= st.line && below(st.tokens, start)
}

/// What holds of lines and line breaks in every state of a scan that meets
/// no line break inside a string literal.
spec fn accounted_state(st: LexState) -> bool {
    &&& lines_accounted(st.tokens)
    &&& st.line == 1 + newline_tokens(st.tokens)
    &&& st.quoted matches Some(start) ==> start == st.line
}

/// What holds of the words in every state of the scan.
spec fn whole_state(st: LexState) -> bool {
    &&& words_whole(st.tokens)
    &&& st.quoted is None ==> word_text(st.buffer)
}

/// One more token on a line that is not earlier keeps the order.
proof fn lemma_push_sorted(tokens: Seq<TokenView>, token: TokenView)
    requires
        lines_sorted(tokens),
        no_end_marker(tokens),
        below(tokens, token.line),
        !(token.kind is Eof),
    ensures
        lines_sorted(tokens.push(token)),
        no_end_marker(tokens.push(token)),
        below(tokens.push(token), token.line),
{
    let pushed = tokens.push(token);
    assert forall|i: int, j: int| 0 <= i <= j < pushed.len() implies pushed[i].line
        <= pushed[j].line by {
        if j < tokens.len() {
            assert(pushed[i] == tokens[i] && pushed[j] == tokens[j]);
        } else if i < tokens.len() {
            assert(pushed[i] == tokens[i]);
        }
    }
    assert forall|i: int| 0 <= i < pushed.len() implies !((#[trigger] pushed[i]).kind is Eof)
        && pushed[i].line <= token.line by {
        if i < tokens.len() {
            assert(pushed[i] == tokens[i]);
        }
    }
}

/// What is not later than a line is not later than a line after it.
proof fn lemma_below_raise(tokens: Seq<TokenView>, low: int, high: int)
    requires
        below(tokens, low),
        low <= high,
    ensures
        below(tokens, high),
{
    assert forall|i: int| 0 <= i < tokens.len() implies (#[trigger] tokens[i]).line <= high by {
        assert(tokens[i].line <= low);
    }
}

/// One more token on the line now counted keeps the account.
proof fn lemma_push_accounted(tokens: Seq<TokenView>, token: TokenView)
    requires
        lines_accounted(tokens),
        token.line == 1 + newline_tokens(tokens),
    ensures
        lines_accounted(tokens.push(token)),
        newline_tokens(tokens.push(token)) == newline_tokens(tokens) + if token.kind is Newline {
            1nat
        } else {
            0nat
        },
{
    let pushed = tokens.push(token);
    assert(pushed.drop_last() =~= tokens);
    assert forall|i: int| 0 <= i < pushed.len() implies (#[trigger] pushed[i]).line == 1
        + newline_tokens(pushed.take(i)) by {
        assert(pushed.take(i) =~= tokens.take(i));
        if i < tokens.len() {
            assert(pushed[i] == tokens[i]);
        } else {
            assert(tokens.take(i) =~= tokens);
        }
    }
}

/// One more token that is a whole word, or no word, keeps the words whole.
proof fn lemma_push_whole(tokens: Seq<TokenView>, token: TokenView)
    requires
        words_whole(tokens),
        match token.kind {
            TokenKind::Identifier(text) => text.len() > 0 && word_text(text),
            TokenKind::Float(text) => text.len() > 0 && word_text(text),
            _ => true,
        },
    ensures
        words_whole(tokens.push(token)),
{
    let pushed = tokens.push(token);
    assert forall|i: int| 0 <= i < pushed.len() implies match (#[trigger] pushed[i]).kind {
        TokenKind::Identifier(text) => text.len() > 0 && word_text(text),
        TokenKind::Float(text) => text.len() > 0 && word_text(text),
        _ => true,
    } by {
        if i < tokens.len() {
            assert(pushed[i] == tokens[i]);
        }
    }
}

/// Flushing the buffer keeps what holds of a state.
proof fn lemma_flush_keeps(st: LexState)
    requires
        st.quoted is None,
    ensures
        flush(st).line == st.line,
        flush(st).quoted is None,
        flush(st).buffer.len() == 0,
        sorted_state(st) ==> sorted_state(flush(st)),
        accounted_state(st) ==> accounted_state(flush(st)),
        whole_state(st) ==> whole_state(flush(st)),
{
    if st.buffer.len() > 0 {
        let token = TokenView { kind: resolve(st.buffer), line: st.line };
        lemma_resolve_kind(st.buffer);
        if sorted_state(st) {
            lemma_push_sorted(st.tokens, token);
        }
        if accounted_state(st) {
            lemma_push_accounted(st.tokens, token);
        }
        if whole_state(st) {
            lemma_push_whole(st.tokens, token);
        }
    }
}

/// A token that is no word keeps what holds of a state.
proof fn lemma_emit_keeps(st: LexState, kind: TokenKind)
    requires
        st.quoted is None,
        !(kind is Eof),
        !(kind is Identifier),
        !(kind is Float),
    ensures
        sorted_state(st) ==> sorted_state(emit(st, kind)),
        accounted_state(st) && !(kind is Newline) ==> accounted_state(emit(st, kind)),
        accounted_state(st) && kind is Newline ==> accounted_state(
            LexState { line: st.line + 1, ..emit(st, kind) },
        ),
        whole_state(st) ==> whole_state(emit(st, kind)),
{
    let token = TokenView { kind, line: st.line };
    if sorted_state(st) {
        lemma_push_sorted(st.tokens, token);
    }
    if accounted_state(st) {
        lemma_push_accounted(st.tokens, token);
    }
    if whole_state(st) {
        lemma_push_whole(st.tokens, token);
    }
}

/// A step keeps the order of the lines.
proof fn lemma_step_sorted(st: LexState, c: char, next: Option<char>)
    requires
        sorted_state(st),
    ensures
        sorted_state(step(st, c, next)),
{
    match st.quoted {
        Some(start) => {
            if c == '"' {
                let token = TokenView { kind: TokenKind::StringLiteral(st.buffer), line: start };
                lemma_push_sorted(st.tokens, token);
                lemma_below_raise(st.tokens.push(token), start, st.line);
            } else if c == '\n' {
                lemma_below_raise(st.tokens, st.line, st.line + 1);
            }
        },
        None => {
            lemma_flush_keeps(st);
            let flushed = flush(st);
            if c == '\n' {
                lemma_emit_keeps(flushed, TokenKind::Newline);
                lemma_below_raise(emit(flushed, TokenKind::Newline).tokens, st.line, st.line + 1);
            } else if whitespace_char(c) {
            } else if c == '"' {
            } else if word_char(c) {
            } else if symbol_char(c) {
                lemma_emit_keeps(flushed, symbol_kind(c));
            } else if (digit_char(c) || c == '.') && all_numeric(
                st.buffer,
            ) {
            } else {
                let fresh = LexState { buffer: seq![c], ..flushed };
                lemma_flush_keeps(fresh);
            }
        },
    }
}

/// A step keeps the account, unless it is a line break inside a string
/// literal.
proof fn lemma_step_accounted(st: LexState, c: char, next: Option<char>)
    requires
        accounted_state(st),
        c == '\n' ==> st.quoted is None,
    ensures
        accounted_state(step(st, c, next)),
{
    match st.quoted {
        Some(start) => {
            if c == '"' {
                let token = TokenView { kind: TokenKind::StringLiteral(st.buffer), line: start };
                lemma_push_accounted(st.tokens, token);
            }
        },
        None => {
            lemma_flush_keeps(st);
            let flushed = flush(st);
            if c == '\n' {
                lemma_emit_keeps(flushed, TokenKind::Newline);
            } else if whitespace_char(c) {
            } else if c == '"' {
            } else if word_char(c) {
            } else if symbol_char(c) {
                lemma_emit_keeps(flushed, symbol_kind(c));
            } else if (digit_char(c) || c == '.') && all_numeric(
                st.buffer,
            ) {
            } else {
                let fresh = LexState { buffer: seq![c], ..flushed };
                lemma_flush_keeps(fresh);
            }
        },
    }
}

/// A step keeps the words whole.
proof fn lemma_step_whole(st: LexState, c: char, next: Option<char>)
    requires
        whole_state(st),
    ensures
        whole_state(step(st, c, next)),
{
    match st.quoted {
        Some(start) => {
            if c == '"' {
                let token = TokenView { kind: TokenKind::StringLiteral(st.buffer), line: start };
                lemma_push_whole(st.tokens, token);
            }
        },
        None => {
            lemma_flush_keeps(st);
            let flushed = flush(st);
            if c == '\n' {
                lemma_emit_keeps(flushed, TokenKind::Newline);
            } else if whitespace_char(c) {
            } else if c == '"' {
            } else if word_char(c) {
                assert(word_text(st.buffer.push(c)));
            } else if symbol_char(c) {
                lemma_emit_keeps(flushed, symbol_kind(c));
            } else if (digit_char(c) || c == '.') && all_numeric(
                st.buffer,
            ) {
                assert(word_text(st.buffer.push(c)));
            } else {
                let fresh = LexState { buffer: seq![c], ..flushed };
                assert(word_text(fresh.buffer));
                lemma_flush_keeps(fresh);
            }
        },
    }
}

/// The order of the lines and the words hold after any number of steps.
proof fn lemma_run_sorted(source: Seq<char>, n: int)
    requires
        0 <= n <= source.len(),
    ensures
        sorted_state(run(source, n)),
        whole_state(run(source, n)),
    decreases n,
{
    if n > 0 {
        lemma_run_sorted(source, n - 1);
        let next = lookahead(source, n - 1);
        lemma_step_sorted(run(source, n - 1), source[n - 1], next);
        lemma_step_whole(run(source, n - 1), source[n - 1], next);
    }
}

/// The account holds after any number of steps.
proof fn lemma_run_accounted(source: Seq<char>, n: int)
    requires
        0 <= n <= source.len(),
        breaks_outside_strings(source),
    ensures
        accounted_state(run(source, n)),
    decreases n,
{
    if n > 0 {
        lemma_run_accounted(source, n - 1);
        lemma_step_accounted(
            run(source, n - 1),
            source[n - 1],
            lookahead(source, n - 1),
        );
    } else {
        assert(run(source, 0).tokens.take(0) =~= Seq::empty());
    }
}

/// The tokens of every source text stand in the order of their lines, and
/// the end marker closes them and stands nowhere else. It stands on the
/// last line: line 1 where the text has no line break, and one line further
/// for each line break in the text.
pub proof fn lemma_token_order(source: Seq<char>)
    ensures
        lines_sorted(tokenize(source)),
        closed_by_end_marker(tokenize(source)),
        tokenize(source).last().line == 1 + newline_count(source),
{
    let n = source.len() as int;
    let st = run(source, n);
    lemma_run_sorted(source, n);
    lemma_run_line(source, n);
    assert(source.take(n) =~= source);
    let body = match st.quoted {
        Some(start) => st.tokens.push(
            TokenView { kind: TokenKind::StringLiteral(st.buffer), line: start },
        ),
        None => flush(st).tokens,
    };
    match st.quoted {
        Some(start) => {
            lemma_push_sorted(
                st.tokens,
                TokenView { kind: TokenKind::StringLiteral(st.buffer), line: start },
            );
            lemma_below_raise(body, start, st.line);
        },
        None => {
            lemma_flush_keeps(st);
        },
    }
    let last = TokenView { kind: TokenKind::Eof, line: st.line };
    let all = body.push(last);
    assert(all == tokenize(source));
    assert forall|i: int, j: int| 0 <= i <= j < all.len() implies all[i].line <= all[j].line by {
        if j < body.len() {
            assert(all[i] == body[i] && all[j] == body[j]);
        } else if i < body.len() {
            assert(all[i] == body[i]);
        }
    }
    assert forall|i: int| 0 <= i < all.len() - 1 implies !((#[trigger] all[i]).kind is Eof) by {
        assert(all[i] == body[i]);
    }
}

/// Line accounting. Where no line break lies inside a string literal, the
/// tokens hold exactly one line-break token for each line break of the
/// source, and every token stands on the line that the line breaks before
/// it count up to: the first line-break token on line 1, the next on line
/// 2, and so on, with the words of a line on the line of the line break
/// that ends it, and the end marker on the last line.
pub proof fn lemma_line_accounting(source: Seq<char>)
    requires
        breaks_outside_strings(source),
    ensures
        newline_tokens(tokenize(source)) == newline_count(source),
        lines_accounted(tokenize(source)),
{
    let n = source.len() as int;
    let st = run(source, n);
    lemma_run_accounted(source, n);
    lemma_run_line(source, n);
    assert(source.take(n) =~= source);
    let body = match st.quoted {
        Some(start) => st.tokens.push(
            TokenView { kind: TokenKind::StringLiteral(st.buffer), line: start },
        ),
        None => flush(st).tokens,
    };
    match st.quoted {
        Some(start) => {
            lemma_push_accounted(
                st.tokens,
                TokenView { kind: TokenKind::StringLiteral(st.buffer), line: start },
            );
        },
        None => {
            lemma_flush_keeps(st);
        },
    }
    lemma_push_accounted(body, TokenView { kind: TokenKind::Eof, line: st.line });
}

/// The symbols stand alone: whatever the source, no identifier and no
/// floating-point literal among its tokens holds one of the eight symbols,
/// white space or a quote, and none is empty.
pub proof fn lemma_words_whole(source: Seq<char>)
    ensures
        words_whole(tokenize(source)),
{
    let n = source.len() as int;
    let st = run(source, n);
    lemma_run_sorted(source, n);
    let body = match st.quoted {
        Some(start) => st.tokens.push(
            TokenView { kind: TokenKind::StringLiteral(st.buffer), line: start },
        ),
        None => flush(st).tokens,
    };
    match st.quoted {
        Some(start) => {
            lemma_push_whole(
                st.tokens,
                TokenView { kind: TokenKind::StringLiteral(st.buffer), line: start },
            );
        },
        None => {
            lemma_flush_keeps(st);
        },
    }
    lemma_push_whole(body, TokenView { kind: TokenKind::Eof, line: st.line });
}

/// A text without a quote is never inside a string literal.
proof fn lemma_plain_scan(source: Seq<char>, n: int)
    requires
        quote_free(source),
        0 <= n <= source.len(),
    ensures
        run(source, n).quoted is None,
    decreases n,
{
    if n > 0 {
        lemma_plain_scan(source, n - 1);
        assert(source[n - 1] != '"');
    }
}

/// In a text without a quote every line break lies outside string literals.
pub proof fn lemma_quote_free_breaks(source: Seq<char>)
    requires
        quote_free(source),
    ensures
        breaks_outside_strings(source),
{
    assert forall|n: int| 0 <= n < source.len() && source[n] == '\n' implies (#[trigger] run(
        source,
        n,
    )).quoted is None by {
        lemma_plain_scan(source, n);
    }
}

/// Line accounting for a text without a quote: one line-break token for
/// each line break of the text, the first on line 1, the next on line 2,
/// and so on, and every token on the line that the line breaks before it
/// count up to.
pub proof fn lemma_line_accounting_plain(source: Seq<char>)
    requires
        quote_free(source),
    ensures
        newline_tokens(tokenize(source)) == newline_count(source),
        lines_accounted(tokenize(source)),
{
    lemma_quote_free_breaks(source);
    lemma_line_accounting(source);
}

/// The last word of a run with one more token.
proof fn lemma_last_word_push(tokens: Seq<TokenView>, token: TokenView)
    ensures
        last_word(tokens.push(token)) == if token.kind is Newline || token.kind is Eof {
            last_word(tokens)
        } else {
            Some(token)
        },
{
    assert(tokens.push(token).drop_last() =~= tokens);
}

/// What holds of the scan behind the last character that is no white
/// space, which stands at `j` on line `line`: either that character still
/// waits in the buffer, right behind it, or the last word stands on its
/// line and the buffer is empty.
spec fn settled(source: Seq<char>, j: int, line: int, n: int) -> bool {
    let st = run(source, n);
    &&& st.quoted is None
    &&& st.buffer.len() > 0 ==> n == j + 1 && st.line == line
    &&& st.buffer.len() == 0 ==> last_word_on(st.tokens, line)
}

/// Flushing the buffer, and then perhaps a line break, keeps the last word
/// on its line.
proof fn lemma_flush_settles(st: LexState, line: int)
    requires
        st.quoted is None,
        st.buffer.len() > 0 ==> st.line == line,
        st.buffer.len() == 0 ==> last_word_on(st.tokens, line),
    ensures
        last_word_on(flush(st).tokens, line),
        last_word_on(emit(flush(st), TokenKind::Newline).tokens, line),
        last_word_on(emit(flush(st), TokenKind::Eof).tokens, line),
{
    if st.buffer.len() > 0 {
        lemma_resolve_kind(st.buffer);
        lemma_last_word_push(st.tokens, TokenView { kind: resolve(st.buffer), line: st.line });
    }
    let flushed = flush(st);
    lemma_last_word_push(
        flushed.tokens,
        TokenView { kind: TokenKind::Newline, line: flushed.line },
    );
    lemma_last_word_push(flushed.tokens, TokenView { kind: TokenKind::Eof, line: flushed.line });
}

/// Behind the last character that is no white space the scan is settled.
proof fn lemma_run_settled(source: Seq<char>, j: int, n: int)
    requires
        quote_free(source),
        0 <= j < n <= source.len(),
        !whitespace_char(source[j]),
        forall|k: int| j < k < source.len() ==> whitespace_char(#[trigger] source[k]),
    ensures
        settled(source, j, 1 + newline_count(source.take(j)) as int, n),
    decreases n,
{
    let line = 1 + newline_count(source.take(j)) as int;
    lemma_plain_scan(source, n);
    lemma_plain_scan(source, n - 1);
    let st = run(source, n - 1);
    let c = source[n - 1];
    let next = lookahead(source, n - 1);
    assert(run(source, n) == step(st, c, next));
    if n == j + 1 {
        lemma_run_line(source, j);
        lemma_run_line(source, j + 1);
        assert(source.take(j + 1).drop_last() =~= source.take(j));
        assert(c != '"');
        let flushed = flush(st);
        if word_char(c) {
        } else if symbol_char(c) {
            lemma_last_word_push(
                flushed.tokens,
                TokenView { kind: symbol_kind(c), line: flushed.line },
            );
        } else if (digit_char(c) || c == '.') && all_numeric(st.buffer) {
        } else {
            let fresh = LexState { buffer: seq![c], ..flushed };
            lemma_resolve_kind(fresh.buffer);
            lemma_last_word_push(
                fresh.tokens,
                TokenView { kind: resolve(fresh.buffer), line: fresh.line },
            );
        }
    } else {
        lemma_run_settled(source, j, n - 1);
        assert(whitespace_char(source[n - 1]));
        lemma_flush_settles(st, line);
    }
}

/// The last word bears the line of the last character that is no white
/// space. In a text without a quote, let that character stand at `j`: the
/// last token that is neither a line break nor the end marker stands on
/// the line of `j`, which is one more than the number of line breaks
/// before `j`.
pub proof fn lemma_last_word_line(source: Seq<char>, j: int)
    requires
        quote_free(source),
        0 <= j < source.len(),
        !whitespace_char(source[j]),
        forall|k: int| j < k < source.len() ==> whitespace_char(#[trigger] source[k]),
    ensures
        last_word_on(tokenize(source), 1 + newline_count(source.take(j)) as int),
{
    let n = source.len() as int;
    lemma_run_settled(source, j, n);
    lemma_flush_settles(run(source, n), 1 + newline_count(source.take(j)) as int);
}

} // verus!
