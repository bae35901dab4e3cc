use lox_frontend::ast::Expr;
use lox_frontend::ast_printer::AstPrinter;
use lox_frontend::errors::ParserError;
use lox_frontend::parser::Parser;
use lox_frontend::scanner::Scanner;
use lox_frontend::token::Literal;
use lox_frontend::token::Token;
use lox_frontend::token_type::TokenType;

fn tokens_of(source: &str) -> Vec<Token> {
    Scanner::new(source.as_bytes().to_vec()).scan_tokens()
}

fn parse(source: &str) -> Result<Expr, ParserError> {
    Parser::new(tokens_of(source)).parse()
}

fn printed(source: &str) -> String {
    AstPrinter.print(parse(source).unwrap()).unwrap()
}

fn fault(source: &str) -> ParserError {
    match parse(source) {
        Ok(_) => panic!("parsed"),
        Err(e) => e,
    }
}

#[test]
fn prints_the_parsed_expression() {
    assert_eq!(printed("-123 * (45.67)"), "(* (- 123) (group 45.67))");
}

#[test]
fn binary_operators_associate_to_the_left() {
    assert_eq!(printed("1 - 2 - 3"), "(- (- 1 2) 3)");
    assert_ne!(printed("1 - 2 - 3"), "(- 1 (- 2 3))");
    assert_eq!(printed("8 / 4 / 2 * 3"), "(* (/ (/ 8 4) 2) 3)");
    assert_eq!(printed("1 == 2 != 3"), "(!= (== 1 2) 3)");
    assert_eq!(printed("1 < 2 <= 3 > 4 >= 5"), "(>= (> (<= (< 1 2) 3) 4) 5)");
}

#[test]
fn tighter_operators_bind_first() {
    assert_eq!(printed("1 + 2 * 3"), "(+ 1 (* 2 3))");
    assert_eq!(printed("1 * 2 + 3"), "(+ (* 1 2) 3)");
    assert_eq!(printed("1 + 2 < 3 - 4"), "(< (+ 1 2) (- 3 4))");
    assert_eq!(printed("1 < 2 == 3 > 4"), "(== (< 1 2) (> 3 4))");
    assert_eq!(printed("-1 * -2"), "(* (- 1) (- 2))");
    assert_eq!(printed("!true == false"), "(== (! true) false)");
}

#[test]
fn prefix_operators_stack() {
    assert_eq!(printed("--1"), "(- (- 1))");
    assert_eq!(printed("!!true"), "(! (! true))");
    assert_eq!(printed("-!-2"), "(- (! (- 2)))");
}

#[test]
fn groups_nest() {
    assert_eq!(printed("(1)"), "(group 1)");
    assert_eq!(printed("((1 + 2) * 3)"), "(group (* (group (+ 1 2)) 3))");
    assert_eq!(printed("1 * (2 + 3)"), "(* 1 (group (+ 2 3)))");
}

#[test]
fn literals() {
    assert_eq!(printed("nil"), "nil");
    assert_eq!(printed("true"), "true");
    assert_eq!(printed("false"), "false");
    assert_eq!(printed("12"), "12");
    assert_eq!(printed("\"hi\""), "\"hi\"");
    assert_eq!(printed("\"a\" + \"b\""), "(+ \"a\" \"b\")");
}

#[test]
fn numbers_print_in_canonical_text() {
    assert_eq!(printed("1.50 + 2.0"), "(+ 1.5 2)");
    assert_eq!(printed("007"), "7");
    assert_eq!(printed("0.0"), "0");
}

#[test]
fn literal_tree_carries_the_token_value() {
    match parse("\"hi\"").unwrap() {
        Expr::Literal(l) => assert!(matches!(l.value, Some(Literal::Str(s)) if s == "hi")),
        _ => panic!("not a literal"),
    }
    match parse("nil").unwrap() {
        Expr::Literal(l) => assert!(l.value.is_none()),
        _ => panic!("not a literal"),
    }
    match parse("true").unwrap() {
        Expr::Literal(l) => assert!(matches!(l.value, Some(Literal::True))),
        _ => panic!("not a literal"),
    }
}

#[test]
fn binary_tree_carries_the_operator_token() {
    match parse("1\n+ 2").unwrap() {
        Expr::Binary(b) => {
            assert_eq!(b.operator.token_type, TokenType::Plus);
            assert_eq!(b.operator.lexeme, "+");
            assert_eq!(b.operator.line, 2);
            assert!(matches!(*b.left, Expr::Literal(_)));
            assert!(matches!(*b.right, Expr::Literal(_)));
        },
        _ => panic!("not binary"),
    }
}

#[test]
fn missing_closing_parenthesis_is_a_fault() {
    assert!(parse("(1 + 2").is_err());
    assert!(matches!(fault("(1 + 2"), ParserError::Eof(1)));
    assert!(matches!(fault("(1 + 2\n"), ParserError::Eof(2)));
    assert!(matches!(fault("(1 + 2 3)"), ParserError::At(1, l) if l == "3"));
    assert!(matches!(fault("((1)\n;"), ParserError::At(2, l) if l == ";"));
}

#[test]
fn missing_operand_is_a_fault() {
    assert!(matches!(fault(""), ParserError::Eof(1)));
    assert!(matches!(fault("1 +"), ParserError::Eof(1)));
    assert!(matches!(fault("+ 1"), ParserError::At(1, l) if l == "+"));
    assert!(matches!(fault("1 * )"), ParserError::At(1, l) if l == ")"));
    assert!(matches!(fault("-"), ParserError::Eof(1)));
    assert!(matches!(fault("()"), ParserError::At(1, l) if l == ")"));
    assert!(matches!(fault("\n\nvar"), ParserError::At(3, l) if l == "var"));
    assert!(matches!(fault("x"), ParserError::At(1, l) if l == "x"));
}

#[test]
fn cursor_stands_after_the_tree() {
    let mut parser = Parser::new(tokens_of("1 + 2 ; 3"));
    assert!(parser.parse().is_ok());
    assert_eq!(parser.current, 3);
    assert_eq!(parser.peek().token_type, TokenType::Semicolon);
}

#[test]
fn cursor_stands_at_the_fault() {
    let mut parser = Parser::new(tokens_of("1 + (2 * ; 3"));
    assert!(matches!(parser.parse(), Err(ParserError::At(1, l)) if l == ";"));
    assert_eq!(parser.current, 5);
    let mut parser = Parser::new(tokens_of("(1"));
    assert!(matches!(parser.parse(), Err(ParserError::Eof(1))));
    assert_eq!(parser.current, 2);
    assert!(parser.is_at_end());
}

#[test]
fn one_expression_for_each_call() {
    let mut parser = Parser::new(tokens_of("1 2"));
    let first = parser.parse().unwrap();
    let second = parser.parse().unwrap();
    assert_eq!(AstPrinter.print(first).unwrap(), "1");
    assert_eq!(AstPrinter.print(second).unwrap(), "2");
    assert!(parser.is_at_end());
}

#[test]
fn each_rule_reads_its_level() {
    let mut parser = Parser::new(tokens_of("1 * 2 + 3 < 4 == 5"));
    let tree = parser.factor().unwrap();
    assert_eq!(AstPrinter.print(tree).unwrap(), "(* 1 2)");
    assert_eq!(parser.current, 3);
    let mut parser = Parser::new(tokens_of("1 * 2 + 3 < 4 == 5"));
    let tree = parser.term().unwrap();
    assert_eq!(AstPrinter.print(tree).unwrap(), "(+ (* 1 2) 3)");
    let mut parser = Parser::new(tokens_of("1 * 2 + 3 < 4 == 5"));
    let tree = parser.comparison().unwrap();
    assert_eq!(AstPrinter.print(tree).unwrap(), "(< (+ (* 1 2) 3) 4)");
    let mut parser = Parser::new(tokens_of("1 * 2 + 3 < 4 == 5"));
    let tree = parser.equality().unwrap();
    assert_eq!(AstPrinter.print(tree).unwrap(), "(== (< (+ (* 1 2) 3) 4) 5)");
    let mut parser = Parser::new(tokens_of("-1 * 2"));
    let tree = parser.unary().unwrap();
    assert_eq!(AstPrinter.print(tree).unwrap(), "(- 1)");
    let mut parser = Parser::new(tokens_of("1 * 2"));
    let tree = parser.primary().unwrap();
    assert_eq!(AstPrinter.print(tree).unwrap(), "1");
    let mut parser = Parser::new(tokens_of("1 * 2"));
    let tree = parser.expression().unwrap();
    assert_eq!(AstPrinter.print(tree).unwrap(), "(* 1 2)");
}

#[test]
fn primitives() {
    let mut parser = Parser::new(tokens_of("( )"));
    assert_eq!(parser.current, 0);
    assert_eq!(parser.peek().token_type, TokenType::LeftParen);
    assert!(!parser.is_at_end());
    assert!(parser.check(TokenType::LeftParen));
    assert!(!parser.check(TokenType::RightParen));
    assert!(!parser.match_types(vec![TokenType::RightParen, TokenType::Comma]));
    assert_eq!(parser.current, 0);
    assert!(parser.match_types(vec![TokenType::RightParen, TokenType::LeftParen]));
    assert_eq!(parser.current, 1);
    assert_eq!(parser.previous().token_type, TokenType::LeftParen);
    assert_eq!(parser.advance().token_type, TokenType::RightParen);
    assert_eq!(parser.current, 2);
    assert!(parser.is_at_end());
    assert!(!parser.check(TokenType::Eof));
    assert!(!parser.match_types(vec![TokenType::Eof]));
    assert_eq!(parser.advance().token_type, TokenType::RightParen);
    assert_eq!(parser.current, 2);
    assert_eq!(parser.previous().token_type, TokenType::RightParen);
}

#[test]
fn consume_requires_the_category() {
    let mut parser = Parser::new(tokens_of("( 1"));
    assert!(parser.consume(TokenType::LeftParen).is_ok());
    assert_eq!(parser.current, 1);
    assert!(matches!(
        parser.consume(TokenType::RightParen),
        Err(ParserError::ExpectedToken(TokenType::RightParen))
    ));
    assert_eq!(parser.current, 1);
    parser.advance();
    assert!(matches!(
        parser.consume(TokenType::Eof),
        Err(ParserError::ExpectedToken(TokenType::Eof))
    ));
}

#[test]
fn fault_here_is_anchored_at_the_current_token() {
    let mut parser = Parser::new(tokens_of("\nfoo"));
    assert!(matches!(parser.fault_here(), ParserError::At(2, l) if l == "foo"));
    parser.advance();
    assert!(matches!(parser.fault_here(), ParserError::Eof(2)));
}

#[test]
fn synchronize_stops_after_a_semicolon() {
    let mut parser = Parser::new(tokens_of("1 + + 2 ; 3"));
    assert!(parser.parse().is_err());
    assert_eq!(parser.current, 2);
    parser.synchronize();
    assert_eq!(parser.current, 5);
    assert_eq!(parser.peek().lexeme, "3");
}

#[test]
fn synchronize_stops_before_a_statement() {
    for (word, expected) in [
        ("class", TokenType::Class),
        ("fun", TokenType::Fun),
        ("var", TokenType::Var),
        ("for", TokenType::For),
        ("if", TokenType::If),
        ("while", TokenType::While),
        ("print", TokenType::Print),
        ("return", TokenType::Return),
    ] {
        let source = format!(") ) 1 {} x ;", word);
        let mut parser = Parser::new(tokens_of(&source));
        parser.synchronize();
        assert_eq!(parser.current, 3);
        assert_eq!(parser.peek().token_type, expected);
    }
}

#[test]
fn synchronize_skips_the_current_token() {
    let mut parser = Parser::new(tokens_of("var print"));
    parser.synchronize();
    assert_eq!(parser.current, 1);
    let mut parser = Parser::new(tokens_of("; ; 1"));
    parser.synchronize();
    assert_eq!(parser.current, 1);
    parser.synchronize();
    assert_eq!(parser.current, 2);
}

#[test]
fn synchronize_stops_at_the_end() {
    let mut parser = Parser::new(tokens_of("1 2 3"));
    parser.synchronize();
    assert_eq!(parser.current, 3);
    assert!(parser.is_at_end());
    parser.synchronize();
    assert_eq!(parser.current, 3);
    let mut parser = Parser::new(tokens_of(""));
    parser.synchronize();
    assert_eq!(parser.current, 0);
}
