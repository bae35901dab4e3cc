use lox_frontend::errors::TokenError;
use lox_frontend::scanner::keyword_type;
use lox_frontend::scanner::Scanner;
use lox_frontend::token::Literal;
use lox_frontend::token::Token;
use lox_frontend::token_type::TokenType;

fn construct_scanner(source: &str) -> Scanner {
    let b = source.as_bytes().to_vec();
    Scanner::new(b)
}

fn assert_tokens(token: Token, token_type: TokenType) {
    assert_eq!(token.token_type, token_type);
}

fn scan(source: &str) -> (Vec<Token>, Vec<TokenError>) {
    let mut scanner = construct_scanner(source);
    let tokens = scanner.scan_tokens();
    let faults = scanner.faults().clone();
    (tokens, faults)
}

fn types(tokens: &Vec<Token>) -> Vec<TokenType> {
    tokens.iter().map(|t| t.token_type).collect()
}

fn lexemes(tokens: &Vec<Token>) -> Vec<String> {
    tokens.iter().map(|t| t.lexeme.clone()).collect()
}

fn assert_single(source: &str, token_type: TokenType) {
    let (tokens, faults) = scan(source);
    assert!(faults.is_empty());
    assert_eq!(tokens.len(), 2);
    assert_eq!(tokens[0].token_type, token_type);
    assert_eq!(tokens[0].lexeme, source);
    assert!(tokens[0].literal.is_none());
    assert_eq!(tokens[0].line, 1);
    assert_eq!(tokens[1].token_type, TokenType::Eof);
    assert_eq!(tokens[1].lexeme, "");
    assert_eq!(tokens[1].line, 1);
}

#[test]
fn test_and() {
    let mut scanner = construct_scanner("and");
    let tokens = scanner.scan_tokens();
    assert_eq!(tokens[0].token_type, TokenType::And);
    assert_eq!(tokens[0].lexeme, "and");
}

#[test]
fn test_left_paren() {
    let mut scanner = construct_scanner("(");
    let tokens = scanner.scan_tokens();
    assert_tokens(tokens[0].clone(), TokenType::LeftParen);
}

#[test]
fn test_right_paren() {
    let mut scanner = construct_scanner(")");
    let tokens = scanner.scan_tokens();
    assert_tokens(tokens[0].clone(), TokenType::RightParen);
}

#[test]
fn test_left_brace() {
    let mut scanner = construct_scanner("{");
    let tokens = scanner.scan_tokens();
    assert_tokens(tokens[0].clone(), TokenType::LeftBrace);
}

#[test]
fn test_right_brace() {
    let mut scanner = construct_scanner("}");
    let tokens = scanner.scan_tokens();
    assert_tokens(tokens[0].clone(), TokenType::RightBrace);
}

#[test]
fn test_comma() {
    let mut scanner = construct_scanner(",");
    let tokens = scanner.scan_tokens();
    assert_tokens(tokens[0].clone(), TokenType::Comma);
}

#[test]
fn test_dot() {
    let mut scanner = construct_scanner(".");
    let tokens = scanner.scan_tokens();
    assert_tokens(tokens[0].clone(), TokenType::Dot);
}

#[test]
fn single_punctuation_gives_its_token_and_eof() {
    assert_single("(", TokenType::LeftParen);
    assert_single(")", TokenType::RightParen);
    assert_single("{", TokenType::LeftBrace);
    assert_single("}", TokenType::RightBrace);
    assert_single(",", TokenType::Comma);
    assert_single(".", TokenType::Dot);
    assert_single("-", TokenType::Minus);
    assert_single("+", TokenType::Plus);
    assert_single(";", TokenType::Semicolon);
    assert_single("/", TokenType::Slash);
    assert_single("*", TokenType::Star);
}

#[test]
fn single_operator_gives_its_token_and_eof() {
    assert_single("!", TokenType::Bang);
    assert_single("!=", TokenType::BangEqual);
    assert_single("=", TokenType::Equal);
    assert_single("==", TokenType::EqualEqual);
    assert_single(">", TokenType::Greater);
    assert_single(">=", TokenType::GreaterEqual);
    assert_single("<", TokenType::Less);
    assert_single("<=", TokenType::LessEqual);
}

#[test]
fn operators_take_the_longest_lexeme() {
    let (tokens, faults) = scan("!===<=<>=>");
    assert!(faults.is_empty());
    assert_eq!(
        types(&tokens),
        vec![
            TokenType::BangEqual,
            TokenType::EqualEqual,
            TokenType::LessEqual,
            TokenType::Less,
            TokenType::GreaterEqual,
            TokenType::Greater,
            TokenType::Eof,
        ]
    );
    assert_eq!(lexemes(&tokens), vec!["!=", "==", "<=", "<", ">=", ">", ""]);
}

#[test]
fn empty_source_gives_eof_alone() {
    let (tokens, faults) = scan("");
    assert!(faults.is_empty());
    assert_eq!(tokens.len(), 1);
    assert_eq!(tokens[0].token_type, TokenType::Eof);
    assert_eq!(tokens[0].lexeme, "");
    assert!(tokens[0].literal.is_none());
    assert_eq!(tokens[0].line, 1);
}

#[test]
fn result_ends_with_exactly_one_eof() {
    for source in ["", "1 + 2", "@#", "\"open", "/* open", "a\nb\n", "((("] {
        let (tokens, _) = scan(source);
        let last = tokens.len() - 1;
        assert_eq!(tokens[last].token_type, TokenType::Eof);
        for token in &tokens[..last] {
            assert_ne!(token.token_type, TokenType::Eof);
        }
    }
}

#[test]
fn scanning_again_gives_the_same_tokens() {
    let mut scanner = construct_scanner("1 + x");
    let first = scanner.scan_tokens();
    let second = scanner.scan_tokens();
    assert_eq!(types(&first), types(&second));
    assert_eq!(lexemes(&first), lexemes(&second));
    assert_eq!(second.len(), 4);
}

#[test]
fn trailing_dot_is_not_part_of_the_number() {
    let (tokens, faults) = scan("3.");
    assert!(faults.is_empty());
    assert_eq!(types(&tokens), vec![TokenType::Number, TokenType::Dot, TokenType::Eof]);
    assert_eq!(tokens[0].lexeme, "3");
    assert!(matches!(&tokens[0].literal, Some(Literal::Number(n)) if n == "3"));
    assert_eq!(tokens[1].lexeme, ".");
}

#[test]
fn number_with_fraction() {
    let (tokens, faults) = scan("45.67");
    assert!(faults.is_empty());
    assert_eq!(types(&tokens), vec![TokenType::Number, TokenType::Eof]);
    assert_eq!(tokens[0].lexeme, "45.67");
    assert!(matches!(&tokens[0].literal, Some(Literal::Number(n)) if n == "45.67"));
}

#[test]
fn number_takes_one_fraction_only() {
    let (tokens, _) = scan("1.2.3");
    assert_eq!(
        types(&tokens),
        vec![TokenType::Number, TokenType::Dot, TokenType::Number, TokenType::Eof]
    );
    assert_eq!(lexemes(&tokens), vec!["1.2", ".", "3", ""]);
}

#[test]
fn leading_dot_is_a_dot() {
    let (tokens, _) = scan(".5");
    assert_eq!(types(&tokens), vec![TokenType::Dot, TokenType::Number, TokenType::Eof]);
}

#[test]
fn unterminated_string_reports_its_line_and_gives_no_token() {
    let (tokens, faults) = scan("\n\"abc");
    assert_eq!(faults, vec![TokenError::UnterminatedString(2)]);
    assert_eq!(types(&tokens), vec![TokenType::Eof]);
    assert_eq!(tokens[0].line, 2);
}

#[test]
fn unterminated_block_comment_is_a_fault_and_gives_no_token() {
    let (tokens, faults) = scan("/* abc");
    assert_eq!(faults, vec![TokenError::UnterminatedBlockComment(1)]);
    assert_eq!(types(&tokens), vec![TokenType::Eof]);
}

#[test]
fn unterminated_block_comment_after_a_star() {
    let (tokens, faults) = scan("1 /* a\n*");
    assert_eq!(faults, vec![TokenError::UnterminatedBlockComment(2)]);
    assert_eq!(types(&tokens), vec![TokenType::Number, TokenType::Eof]);
    let (tokens, faults) = scan("/*/");
    assert_eq!(faults, vec![TokenError::UnterminatedBlockComment(1)]);
    assert_eq!(types(&tokens), vec![TokenType::Eof]);
}

#[test]
fn block_comment_gives_no_token() {
    let (tokens, faults) = scan("1 /* two\nthree */ 4");
    assert!(faults.is_empty());
    assert_eq!(types(&tokens), vec![TokenType::Number, TokenType::Number, TokenType::Eof]);
    assert_eq!(tokens[0].line, 1);
    assert_eq!(tokens[1].lexeme, "4");
    assert_eq!(tokens[1].line, 2);
    let (tokens, faults) = scan("/**/");
    assert!(faults.is_empty());
    assert_eq!(types(&tokens), vec![TokenType::Eof]);
}

#[test]
fn line_comment_runs_to_the_end_of_the_line() {
    let (tokens, faults) = scan("1 // two three\n4 // five");
    assert!(faults.is_empty());
    assert_eq!(types(&tokens), vec![TokenType::Number, TokenType::Number, TokenType::Eof]);
    assert_eq!(tokens[1].lexeme, "4");
    assert_eq!(tokens[1].line, 2);
    assert_eq!(tokens[2].line, 2);
}

#[test]
fn slash_alone_is_a_token() {
    let (tokens, _) = scan("1 / 2");
    assert_eq!(
        types(&tokens),
        vec![TokenType::Number, TokenType::Slash, TokenType::Number, TokenType::Eof]
    );
}

#[test]
fn white_space_gives_no_token_and_newlines_count_lines() {
    let (tokens, faults) = scan(" \t\r\n\n;");
    assert!(faults.is_empty());
    assert_eq!(types(&tokens), vec![TokenType::Semicolon, TokenType::Eof]);
    assert_eq!(tokens[0].line, 3);
    assert_eq!(tokens[1].line, 3);
}

#[test]
fn string_literal_carries_the_text_between_its_quotes() {
    let (tokens, faults) = scan("\"hi there\"");
    assert!(faults.is_empty());
    assert_eq!(types(&tokens), vec![TokenType::String, TokenType::Eof]);
    assert_eq!(tokens[0].lexeme, "\"hi there\"");
    assert!(matches!(&tokens[0].literal, Some(Literal::Str(s)) if s == "hi there"));
}

#[test]
fn string_literal_has_no_escapes() {
    let (tokens, faults) = scan("\"a\\n\"");
    assert!(faults.is_empty());
    assert!(matches!(&tokens[0].literal, Some(Literal::Str(s)) if s == "a\\n"));
}

#[test]
fn empty_string_literal() {
    let (tokens, faults) = scan("\"\"");
    assert!(faults.is_empty());
    assert_eq!(tokens[0].lexeme, "\"\"");
    assert!(matches!(&tokens[0].literal, Some(Literal::Str(s)) if s.is_empty()));
}

#[test]
fn string_literal_may_span_lines() {
    let (tokens, faults) = scan("\"a\nb\" c");
    assert!(faults.is_empty());
    assert_eq!(types(&tokens), vec![TokenType::String, TokenType::Identifier, TokenType::Eof]);
    assert!(matches!(&tokens[0].literal, Some(Literal::Str(s)) if s == "a\nb"));
    assert_eq!(tokens[0].line, 2);
    assert_eq!(tokens[1].line, 2);
}

#[test]
fn string_literal_keeps_text_that_is_not_ascii() {
    let (tokens, faults) = scan("\"h\u{e9}llo \u{4e16}\"");
    assert!(faults.is_empty());
    assert_eq!(tokens[0].lexeme, "\"h\u{e9}llo \u{4e16}\"");
    assert!(matches!(&tokens[0].literal, Some(Literal::Str(s)) if s == "h\u{e9}llo \u{4e16}"));
}

#[test]
fn invalid_character_is_recorded_and_scanning_goes_on() {
    let (tokens, faults) = scan("@ 1 #\n$");
    assert_eq!(
        faults,
        vec![
            TokenError::InvalidToken(1, '@'),
            TokenError::InvalidToken(1, '#'),
            TokenError::InvalidToken(2, '$'),
        ]
    );
    assert_eq!(types(&tokens), vec![TokenType::Number, TokenType::Eof]);
}

#[test]
fn byte_that_is_not_ascii_is_an_invalid_character() {
    let mut scanner = Scanner::new(vec![0xff, b'1']);
    let tokens = scanner.scan_tokens();
    assert_eq!(scanner.faults().clone(), vec![TokenError::InvalidToken(1, '\u{ff}')]);
    assert_eq!(types(&tokens), vec![TokenType::Number, TokenType::Eof]);
}

#[test]
fn every_kind_of_fault_in_one_pass() {
    let (tokens, faults) = scan("@\n/* x */ \"ok\" ^ \"open\n");
    assert_eq!(
        faults,
        vec![
            TokenError::InvalidToken(1, '@'),
            TokenError::InvalidToken(2, '^'),
            TokenError::UnterminatedString(3),
        ]
    );
    assert_eq!(types(&tokens), vec![TokenType::String, TokenType::Eof]);
    assert_eq!(faults[2].line(), 3);
}

#[test]
fn identifier_carries_its_text() {
    let (tokens, faults) = scan("foo_1 _bar Or");
    assert!(faults.is_empty());
    assert_eq!(
        types(&tokens),
        vec![
            TokenType::Identifier,
            TokenType::Identifier,
            TokenType::Identifier,
            TokenType::Eof
        ]
    );
    assert_eq!(tokens[0].lexeme, "foo_1");
    assert!(matches!(&tokens[0].literal, Some(Literal::Identifier(s)) if s == "foo_1"));
    assert!(matches!(&tokens[2].literal, Some(Literal::Identifier(s)) if s == "Or"));
}

#[test]
fn reserved_words_are_looked_up_by_their_whole_text() {
    let (tokens, faults) = scan(
        "and class else false fun for if nil or print return super this true var while",
    );
    assert!(faults.is_empty());
    assert_eq!(
        types(&tokens),
        vec![
            TokenType::And,
            TokenType::Class,
            TokenType::Else,
            TokenType::False,
            TokenType::Fun,
            TokenType::For,
            TokenType::If,
            TokenType::Nil,
            TokenType::Or,
            TokenType::Print,
            TokenType::Return,
            TokenType::Super,
            TokenType::This,
            TokenType::True,
            TokenType::Var,
            TokenType::While,
            TokenType::Eof,
        ]
    );
    for token in &tokens {
        assert!(token.literal.is_none());
    }
}

#[test]
fn word_that_begins_with_a_reserved_word_is_an_identifier() {
    let (tokens, _) = scan("orchid o android nil_ iff");
    assert_eq!(
        types(&tokens),
        vec![
            TokenType::Identifier,
            TokenType::Identifier,
            TokenType::Identifier,
            TokenType::Identifier,
            TokenType::Identifier,
            TokenType::Eof,
        ]
    );
    assert_eq!(tokens[0].lexeme, "orchid");
    assert_eq!(tokens[1].lexeme, "o");
}

#[test]
fn keyword_table() {
    assert_eq!(keyword_type(b"while"), Some(TokenType::While));
    assert_eq!(keyword_type(b"return"), Some(TokenType::Return));
    assert_eq!(keyword_type(b"whil"), None);
    assert_eq!(keyword_type(b"AND"), None);
    assert_eq!(keyword_type(b""), None);
}

#[test]
fn lines_never_go_down() {
    let (tokens, _) = scan("a\n\"b\nc\"\n/* d\n\n */ e // f\ng");
    let lines: Vec<u64> = tokens.iter().map(|t| t.line).collect();
    assert_eq!(lines, vec![1, 3, 6, 7, 7]);
    for pair in lines.windows(2) {
        assert!(pair[0] <= pair[1]);
    }
}

#[test]
fn expression_source() {
    let (tokens, faults) = scan("-123 * (45.67)");
    assert!(faults.is_empty());
    assert_eq!(
        types(&tokens),
        vec![
            TokenType::Minus,
            TokenType::Number,
            TokenType::Star,
            TokenType::LeftParen,
            TokenType::Number,
            TokenType::RightParen,
            TokenType::Eof,
        ]
    );
    assert_eq!(lexemes(&tokens), vec!["-", "123", "*", "(", "45.67", ")", ""]);
}

#[test]
fn string_that_is_not_utf8_cannot_be_scanned() {
    let mut scanner = Scanner::new(vec![b'1', b' ', b'"', 0xff, b'"']);
    assert!(scanner.try_scan_tokens().is_none());
    let mut scanner = Scanner::new(vec![b'"', 0xc3, 0xa9, b'"']);
    let tokens = scanner.try_scan_tokens().unwrap();
    assert!(matches!(&tokens[0].literal, Some(Literal::Str(s)) if s == "\u{e9}"));
    let mut scanner = Scanner::new(vec![b'"', 0xc3, b'"', 0xa9]);
    assert!(scanner.try_scan_tokens().is_none());
}

#[test]
fn try_scan_gives_what_scan_gives() {
    let mut scanner = construct_scanner("1 + @ nil");
    let tokens = scanner.try_scan_tokens().unwrap();
    assert_eq!(
        types(&tokens),
        vec![TokenType::Number, TokenType::Plus, TokenType::Nil, TokenType::Eof]
    );
    assert_eq!(scanner.faults().clone(), vec![TokenError::InvalidToken(1, '@')]);
}
