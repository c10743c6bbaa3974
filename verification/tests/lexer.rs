use boop::lexer::get_tokens;
use boop::token::{Token, TokenType};

fn float_value(token: &Token) -> f64 {
    match &token.token {
        TokenType::Float(text) => text.parse().unwrap(),
        other => panic!("not a float: {:?}", other),
    }
}

// test integer and float parsing
#[test]
fn test_integer_float_parsing() {
    let test_input = "40.65 21 2.004";
    let tokens = get_tokens(test_input);

    assert_eq!(tokens.len(), 4);
    assert_eq!(float_value(&tokens[0]), 40.65);
    assert_eq!(tokens[0].line_number, 1);
    assert_eq!(tokens[1], Token::new(TokenType::Integer(21), 1));
    assert_eq!(float_value(&tokens[2]), 2.004);
    assert_eq!(tokens[2].line_number, 1);
    assert_eq!(tokens[3], Token::new(TokenType::Eof, 1));
}

// test parenthesis and content between
#[test]
fn test_parenthesis() {
    let test_input = "fib(x-1) + fib(x-2) (())";
    let tokens = get_tokens(test_input);

    let expected = [
        Token::new(TokenType::Identifier(String::from("fib")), 1),
        Token::new(TokenType::OpenParenthesis, 1),
        Token::new(TokenType::Identifier(String::from("x")), 1),
        Token::new(TokenType::Subtract, 1),
        Token::new(TokenType::Integer(1), 1),
        Token::new(TokenType::CloseParenthesis, 1),
        Token::new(TokenType::Add, 1),
        Token::new(TokenType::Identifier(String::from("fib")), 1),
        Token::new(TokenType::OpenParenthesis, 1),
        Token::new(TokenType::Identifier(String::from("x")), 1),
        Token::new(TokenType::Subtract, 1),
        Token::new(TokenType::Integer(2), 1),
        Token::new(TokenType::CloseParenthesis, 1),
        Token::new(TokenType::OpenParenthesis, 1),
        Token::new(TokenType::OpenParenthesis, 1),
        Token::new(TokenType::CloseParenthesis, 1),
        Token::new(TokenType::CloseParenthesis, 1),
        Token::new(TokenType::Eof, 1),
    ];

    assert_eq!(tokens, expected);
}

// test quotations
#[test]
fn test_quotes() {
    let test_input = "\"this is a sample string\"";
    let tokens = get_tokens(test_input);

    let expected = [
        Token::new(
            TokenType::StringLiteral(String::from("this is a sample string")),
            1,
        ),
        Token::new(TokenType::Eof, 1),
    ];

    assert_eq!(tokens, expected);
}

// test all keywords
#[test]
fn test_complete_program() {
    let file_string = " func fib uses x, y, z
                if x lt 3 return 1
                else return fib(x-1) + fib(x-2)
            end

            x is 40
            y is \"hello world\"
            fib(x) ";

    let tokens = get_tokens(file_string);

    let expected = [
        // func fib uses x, y, z
        Token::new(TokenType::Function, 1),
        Token::new(TokenType::Identifier(String::from("fib")), 1),
        Token::new(TokenType::Uses, 1),
        Token::new(TokenType::Identifier(String::from("x")), 1),
        Token::new(TokenType::Comma, 1),
        Token::new(TokenType::Identifier(String::from("y")), 1),
        Token::new(TokenType::Comma, 1),
        Token::new(TokenType::Identifier(String::from("z")), 1),
        Token::new(TokenType::Newline, 1),
        // if x lt 3 return 1
        Token::new(TokenType::If, 2),
        Token::new(TokenType::Identifier(String::from("x")), 2),
        Token::new(TokenType::Lt, 2),
        Token::new(TokenType::Integer(3), 2),
        Token::new(TokenType::Return, 2),
        Token::new(TokenType::Integer(1), 2),
        Token::new(TokenType::Newline, 2),
        // else return fib(x-1) + fib(x-2)
        Token::new(TokenType::Else, 3),
        Token::new(TokenType::Return, 3),
        Token::new(TokenType::Identifier(String::from("fib")), 3),
        Token::new(TokenType::OpenParenthesis, 3),
        Token::new(TokenType::Identifier(String::from("x")), 3),
        Token::new(TokenType::Subtract, 3),
        Token::new(TokenType::Integer(1), 3),
        Token::new(TokenType::CloseParenthesis, 3),
        Token::new(TokenType::Add, 3),
        Token::new(TokenType::Identifier(String::from("fib")), 3),
        Token::new(TokenType::OpenParenthesis, 3),
        Token::new(TokenType::Identifier(String::from("x")), 3),
        Token::new(TokenType::Subtract, 3),
        Token::new(TokenType::Integer(2), 3),
        Token::new(TokenType::CloseParenthesis, 3),
        Token::new(TokenType::Newline, 3),
        // end
        Token::new(TokenType::End, 4),
        Token::new(TokenType::Newline, 4),
        // newline
        Token::new(TokenType::Newline, 5),
        // x is 40
        Token::new(TokenType::Identifier(String::from("x")), 6),
        Token::new(TokenType::Is, 6),
        Token::new(TokenType::Integer(40), 6),
        Token::new(TokenType::Newline, 6),
        // y is "hello world"
        Token::new(TokenType::Identifier(String::from("y")), 7),
        Token::new(TokenType::Is, 7),
        Token::new(TokenType::StringLiteral(String::from("hello world")), 7),
        Token::new(TokenType::Newline, 7),
        // fib(x)
        Token::new(TokenType::Identifier(String::from("fib")), 8),
        Token::new(TokenType::OpenParenthesis, 8),
        Token::new(TokenType::Identifier(String::from("x")), 8),
        Token::new(TokenType::CloseParenthesis, 8),
        Token::new(TokenType::Eof, 8),
    ];

    assert_eq!(tokens, expected);
}

fn kinds(source: &str) -> Vec<TokenType> {
    get_tokens(source).into_iter().map(|token| token.token).collect()
}

fn lines(source: &str) -> Vec<i32> {
    get_tokens(source).into_iter().map(|token| token.line_number).collect()
}

fn identifier(name: &str) -> TokenType {
    TokenType::Identifier(String::from(name))
}

#[test]
fn empty_source_is_only_the_end_marker() {
    assert_eq!(get_tokens(""), [Token::new(TokenType::Eof, 1)]);
    assert_eq!(get_tokens("   \t "), [Token::new(TokenType::Eof, 1)]);
}

#[test]
fn keywords_in_any_case() {
    assert_eq!(kinds("IF If if iF"), [
        TokenType::If,
        TokenType::If,
        TokenType::If,
        TokenType::If,
        TokenType::Eof
    ]);
    assert_eq!(kinds("Func USES Elif"), [
        TokenType::Function,
        TokenType::Uses,
        TokenType::ElseIf,
        TokenType::Eof
    ]);
}

#[test]
fn identifiers_keep_their_case() {
    let tokens = kinds("Fib fib FIB");
    assert_eq!(tokens, [identifier("Fib"), identifier("fib"), identifier("FIB"), TokenType::Eof]);
    assert_ne!(tokens[0], tokens[1]);
}

#[test]
fn every_keyword() {
    let source = "func uses if then return else end lt lte eq neq gt gte not note for until \
                  break continue elif do is false true or and";
    assert_eq!(kinds(source), [
        TokenType::Function,
        TokenType::Uses,
        TokenType::If,
        TokenType::Then,
        TokenType::Return,
        TokenType::Else,
        TokenType::End,
        TokenType::Lt,
        TokenType::Lte,
        TokenType::Eq,
        TokenType::Neq,
        TokenType::Gt,
        TokenType::Gte,
        TokenType::Not,
        TokenType::Note,
        TokenType::For,
        TokenType::Until,
        TokenType::Break,
        TokenType::Continue,
        TokenType::ElseIf,
        TokenType::Do,
        TokenType::Is,
        TokenType::False,
        TokenType::True,
        TokenType::Or,
        TokenType::And,
        TokenType::Eof,
    ]);
}

#[test]
fn every_symbol_stands_alone() {
    assert_eq!(kinds("a(b)c,d+e-f*g/h^i"), [
        identifier("a"),
        TokenType::OpenParenthesis,
        identifier("b"),
        TokenType::CloseParenthesis,
        identifier("c"),
        TokenType::Comma,
        identifier("d"),
        TokenType::Add,
        identifier("e"),
        TokenType::Subtract,
        identifier("f"),
        TokenType::Multiply,
        identifier("g"),
        TokenType::Divide,
        identifier("h"),
        TokenType::Power,
        identifier("i"),
        TokenType::Eof,
    ]);
    assert_eq!(kinds("1+2"), [
        TokenType::Integer(1),
        TokenType::Add,
        TokenType::Integer(2),
        TokenType::Eof
    ]);
}

#[test]
fn the_word_newline_is_an_identifier() {
    assert_eq!(kinds("newline"), [identifier("newline"), TokenType::Eof]);
}

#[test]
fn one_newline_token_for_each_line_break() {
    let source = "a\n\nb c\n   \nd\n";
    let tokens = get_tokens(source);
    let breaks: Vec<i32> = tokens
        .iter()
        .filter(|token| token.token == TokenType::Newline)
        .map(|token| token.line_number)
        .collect();
    assert_eq!(breaks, [1, 2, 3, 4, 5]);
    assert_eq!(source.matches('\n').count(), 5);
    assert_eq!(lines(source), [1, 1, 2, 3, 3, 3, 4, 5, 5, 6]);
    assert_eq!(tokens.last(), Some(&Token::new(TokenType::Eof, 6)));
}

#[test]
fn last_word_bears_the_last_line() {
    let tokens = get_tokens("x\ny\nz");
    assert_eq!(tokens[tokens.len() - 2], Token::new(identifier("z"), 3));
    assert_eq!(tokens[tokens.len() - 1], Token::new(TokenType::Eof, 3));
}

#[test]
fn carriage_return_is_plain_white_space() {
    assert_eq!(get_tokens("a\r\nb"), [
        Token::new(identifier("a"), 1),
        Token::new(TokenType::Newline, 1),
        Token::new(identifier("b"), 2),
        Token::new(TokenType::Eof, 2),
    ]);
}

#[test]
fn string_literal_keeps_everything_between_the_quotes() {
    assert_eq!(kinds("\"a + b, (c) 1.5  if\""), [
        TokenType::StringLiteral(String::from("a + b, (c) 1.5  if")),
        TokenType::Eof
    ]);
    assert_eq!(kinds("\"\""), [TokenType::StringLiteral(String::new()), TokenType::Eof]);
    assert_eq!(kinds("x\"y\"z"), [
        identifier("x"),
        TokenType::StringLiteral(String::from("y")),
        identifier("z"),
        TokenType::Eof
    ]);
}

#[test]
fn unterminated_string_runs_to_the_end() {
    assert_eq!(get_tokens("x is \"abc def"), [
        Token::new(identifier("x"), 1),
        Token::new(TokenType::Is, 1),
        Token::new(TokenType::StringLiteral(String::from("abc def")), 1),
        Token::new(TokenType::Eof, 1),
    ]);
    assert_eq!(kinds("\""), [TokenType::StringLiteral(String::new()), TokenType::Eof]);
}

#[test]
fn line_break_inside_a_string_counts_as_a_line() {
    // the literal begins on line 1; what follows it stands on line 2
    assert_eq!(get_tokens("\"a\nb\" c\nd"), [
        Token::new(TokenType::StringLiteral(String::from("a\nb")), 1),
        Token::new(identifier("c"), 2),
        Token::new(TokenType::Newline, 2),
        Token::new(identifier("d"), 3),
        Token::new(TokenType::Eof, 3),
    ]);
}

#[test]
fn integers_and_their_limits() {
    assert_eq!(kinds("0 007 9223372036854775807"), [
        TokenType::Integer(0),
        TokenType::Integer(7),
        TokenType::Integer(i64::MAX),
        TokenType::Eof
    ]);
    // one more than the largest integer reads as a floating-point literal
    assert_eq!(kinds("9223372036854775808"), [
        TokenType::Float(String::from("9223372036854775808")),
        TokenType::Eof
    ]);
}

#[test]
fn floats_in_their_forms() {
    assert_eq!(kinds("1.5 .5 5. 1e5 2E3 1.5e3 inf NaN Infinity"), [
        TokenType::Float(String::from("1.5")),
        TokenType::Float(String::from(".5")),
        TokenType::Float(String::from("5.")),
        TokenType::Float(String::from("1e5")),
        TokenType::Float(String::from("2E3")),
        TokenType::Float(String::from("1.5e3")),
        TokenType::Float(String::from("inf")),
        TokenType::Float(String::from("NaN")),
        TokenType::Float(String::from("Infinity")),
        TokenType::Eof,
    ]);
}

#[test]
fn second_point_ends_the_number() {
    assert_eq!(kinds("1.2.3"), [
        TokenType::Float(String::from("1.2")),
        identifier("."),
        TokenType::Integer(3),
        TokenType::Eof
    ]);
}

#[test]
fn point_after_a_word_starts_a_new_word() {
    assert_eq!(kinds("x.y"), [identifier("x"), identifier(".y"), TokenType::Eof]);
    assert_eq!(kinds("x. y"), [identifier("x"), identifier("."), identifier("y"), TokenType::Eof]);
}

#[test]
fn unknown_symbol_is_an_identifier_of_its_own() {
    assert_eq!(kinds("a % b"), [identifier("a"), identifier("%"), identifier("b"), TokenType::Eof]);
    assert_eq!(kinds("a%5"), [identifier("a"), identifier("%"), TokenType::Integer(5), TokenType::Eof]);
    assert_eq!(kinds("a%b"), [identifier("a"), identifier("%b"), TokenType::Eof]);
    // each such character flushes the word before it, another of its kind included
    assert_eq!(kinds("a == b"), [
        identifier("a"),
        identifier("="),
        identifier("="),
        identifier("b"),
        TokenType::Eof
    ]);
    assert_eq!(kinds("!\n"), [identifier("!"), TokenType::Newline, TokenType::Eof]);
}

#[test]
fn unknown_symbol_after_a_number_joins_it() {
    // after digits alone a point joins the word, and `=` does not
    assert_eq!(kinds("12.x"), [identifier("12.x"), TokenType::Eof]);
    assert_eq!(kinds("12=3"), [
        TokenType::Integer(12),
        identifier("="),
        TokenType::Integer(3),
        TokenType::Eof
    ]);
}

#[test]
fn white_space_beyond_ascii_separates_words() {
    assert_eq!(kinds("a\u{a0}b\u{2003}c\u{3000}d"), [
        identifier("a"),
        identifier("b"),
        identifier("c"),
        identifier("d"),
        TokenType::Eof
    ]);
}

#[test]
fn letters_and_digits_beyond_ascii_form_words() {
    assert_eq!(kinds("héllo wörld+日本語"), [
        identifier("héllo"),
        identifier("wörld"),
        TokenType::Add,
        identifier("日本語"),
        TokenType::Eof
    ]);
    // a symbol that is no letter ends the word before it
    assert_eq!(kinds("a→b"), [identifier("a"), identifier("→b"), TokenType::Eof]);
}

#[test]
fn numeric_characters_beyond_ascii_let_a_point_join() {
    // Arabic-Indic digits are numeric, so the point joins the word
    assert_eq!(kinds("\u{663}.5"), [identifier("\u{663}.5"), TokenType::Eof]);
    // after a letter it does not
    assert_eq!(kinds("é.5"), [identifier("é"), identifier("."), TokenType::Integer(5), TokenType::Eof]);
}

#[test]
fn keyword_in_capitals_beyond_ascii() {
    // the Kelvin sign has the lower-case form `k`
    assert_eq!(kinds("BREA\u{212a}"), [TokenType::Break, TokenType::Eof]);
    assert_eq!(kinds("ÉLSE"), [identifier("ÉLSE"), TokenType::Eof]);
}

#[test]
fn lines_never_decrease() {
    let source = "a \"x\ny\" b\n\nc \"\n\n\" d\ne";
    let all = lines(source);
    assert!(all.windows(2).all(|pair| pair[0] <= pair[1]));
    assert_eq!(all.last(), Some(&(1 + source.matches('\n').count() as i32)));
}

#[test]
fn identifiers_hold_no_symbol() {
    let source = "fib(x-1)+ab,cd*ef/gh^ij (k)l \"m+n\" o%p q.r 1.5e3+2";
    for token in get_tokens(source) {
        match token.token {
            TokenType::Identifier(text) | TokenType::Float(text) => {
                assert!(!text.is_empty());
                assert!(!text.contains(|c: char| "(),+-*/^\" \t\n".contains(c)));
            }
            _ => {}
        }
    }
}

#[test]
fn ordinary_texts_fit_the_line_counter() {
    assert!(boop::lexer::line_breaks_fit(""));
    assert!(boop::lexer::line_breaks_fit("a\nb\n\n\nc"));
}

#[test]
fn flushing_the_buffer() {
    let mut buffer = String::from("Until");
    let mut tokens = vec![Token::new(TokenType::If, 1)];
    boop::lexer::process_buffer(&mut buffer, &mut tokens, 4);
    assert_eq!(buffer, "");
    assert_eq!(tokens, [Token::new(TokenType::If, 1), Token::new(TokenType::Until, 4)]);
    // an empty buffer gives no token
    boop::lexer::process_buffer(&mut buffer, &mut tokens, 5);
    assert_eq!(buffer, "");
    assert_eq!(tokens.len(), 2);
}

fn write_out(tokens: &[Token]) -> String {
    let mut text = String::new();
    for token in tokens {
        if token.token != TokenType::Eof {
            text.push_str(&token.token.lexeme());
            text.push(' ');
        }
    }
    text
}

#[test]
fn written_tokens_read_back() {
    let source = "func fib uses x, y\n  if x lte 3 then return 1.5e3 end\n  \
                  s is \"a (quoted) text\"\n  return fib(x-1)+y*2^z/4\nend\n\
                  until not done and n neq 007 or false do break continue elif else for gt gte \
                  eq lt note true 12.x inf";
    let first = get_tokens(source);
    let text = write_out(&first);
    let second = get_tokens(&text);
    let first_kinds: Vec<&TokenType> = first.iter().map(|token| &token.token).collect();
    let second_kinds: Vec<&TokenType> = second.iter().map(|token| &token.token).collect();
    assert_eq!(second_kinds, first_kinds);
    // and what was written once is written the same way again
    assert_eq!(write_out(&second), text);
}

#[test]
fn texts_of_the_kinds() {
    assert_eq!(TokenType::Function.lexeme(), "func");
    assert_eq!(TokenType::ElseIf.lexeme(), "elif");
    assert_eq!(TokenType::Neq.lexeme(), "neq");
    assert_eq!(TokenType::Power.lexeme(), "^");
    assert_eq!(TokenType::Comma.lexeme(), ",");
    assert_eq!(TokenType::Newline.lexeme(), "\n");
    assert_eq!(TokenType::Eof.lexeme(), "");
    assert_eq!(identifier("Fib").lexeme(), "Fib");
    assert_eq!(TokenType::Integer(-12).lexeme(), "-12");
    assert_eq!(TokenType::Float(String::from("2.50")).lexeme(), "2.50");
    assert_eq!(TokenType::StringLiteral(String::from("a b")).lexeme(), "\"a b\"");
}

#[test]
fn every_kind_with_a_text_resolves_from_it() {
    let kinds = kinds(
        "func uses if then return else end lt lte eq neq gt gte not note for until break \
         continue elif do is false true or and ( ) + - * / ^ ,",
    );
    for kind in kinds {
        if kind != TokenType::Eof {
            assert_eq!(TokenType::from_str(&kind.lexeme()), kind);
        }
    }
}

fn kinds_after_writing(source: &str) -> (Vec<TokenType>, Vec<TokenType>) {
    let first = get_tokens(source);
    let second = get_tokens(&write_out(&first));
    (
        first.into_iter().map(|token| token.token).collect(),
        second.into_iter().map(|token| token.token).collect(),
    )
}

fn join(tokens: &[Token]) -> String {
    let texts: Vec<String> = tokens
        .iter()
        .filter(|token| token.token != TokenType::Eof)
        .map(|token| token.token.lexeme())
        .collect();
    texts.join(" ")
}

fn kinds_after_joining(source: &str) -> (Vec<TokenType>, Vec<TokenType>) {
    let first = get_tokens(source);
    let second = get_tokens(&join(&first));
    (
        first.into_iter().map(|token| token.token).collect(),
        second.into_iter().map(|token| token.token).collect(),
    )
}

#[test]
fn odd_words_read_back_too() {
    let source = "a%b %5 x.y 1.2.3 == ! 007 12.x é.5 \u{663}.5 ~ ~~ @1 #x $. .$ \"str\ning\" \"open";
    let (first, second) = kinds_after_writing(source);
    assert_eq!(second, first);
    let (first, second) = kinds_after_joining(source);
    assert_eq!(second, first);
}

#[test]
fn tokenizing_twice_is_tokenizing_once() {
    // every text of up to five characters over a small alphabet
    let alphabet = ['a', 'E', '1', '.', '%', ' ', '\n', '"', '+', 'é'];
    let mut texts: Vec<String> = vec![String::new()];
    let mut start = 0;
    for _ in 0..5 {
        let end = texts.len();
        for i in start..end {
            for c in alphabet {
                let mut longer = texts[i].clone();
                longer.push(c);
                texts.push(longer);
            }
        }
        start = end;
    }
    assert_eq!(texts.len(), 111_111);
    for text in &texts {
        let (first, second) = kinds_after_writing(text);
        assert_eq!(second, first, "{:?}", text);
    }
}

#[test]
fn tokens_joined_by_blanks_read_back() {
    // every text of up to four characters over a small alphabet
    let alphabet = ['a', 'E', '1', '.', '%', ' ', '\n', '"', '+', 'é'];
    let mut texts: Vec<String> = vec![String::new()];
    let mut start = 0;
    for _ in 0..4 {
        let end = texts.len();
        for i in start..end {
            for c in alphabet {
                let mut longer = texts[i].clone();
                longer.push(c);
                texts.push(longer);
            }
        }
        start = end;
    }
    for text in &texts {
        let (first, second) = kinds_after_joining(text);
        assert_eq!(second, first, "{:?}", text);
    }
    assert_eq!(join(&get_tokens("fib(x - 1)\nend")), "fib ( x - 1 ) \n end");
}

#[test]
fn last_word_stands_on_the_line_of_the_last_character() {
    for (source, line) in [
        ("a", 1),
        ("a\n\n  \n", 1),
        ("a\nb c\n\n", 2),
        ("\n\n+", 3),
        ("x\n%\n\n", 2),
        ("x\n12.\n", 2),
        ("a\nb\nc   ", 3),
    ] {
        let tokens = get_tokens(source);
        let last = tokens
            .iter()
            .rev()
            .find(|token| token.token != TokenType::Newline && token.token != TokenType::Eof)
            .unwrap();
        assert_eq!(last.line_number, line, "{:?}", source);
    }
}
