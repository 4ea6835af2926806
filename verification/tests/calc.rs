//! End-to-end tests of the calculator: whole inputs through `run`, plus
//! direct checks of the lexer, the parser and the evaluator.

use calc::ast::{evaluate, AST};
use calc::driver::run;
use calc::errors::CalcError;
use calc::lexer::Lexer;
use calc::parser::Parser;
use calc::token::{token_eq, Token, TokenKind};

fn outputs(input: &[u8]) -> (Vec<i32>, CalcError) {
    run(input.to_vec())
}

#[test]
fn single_literal() {
    let (vals, err) = outputs(b"42;\n");
    assert_eq!(vals, vec![42]);
    assert_eq!(err, CalcError::EndOfInput);
}

#[test]
fn addition() {
    let (vals, err) = outputs(b"1+2;\n");
    assert_eq!(vals, vec![3]);
    assert_eq!(err, CalcError::EndOfInput);
}

#[test]
fn subtraction() {
    let (vals, _) = outputs(b"10-4;\n");
    assert_eq!(vals, vec![6]);
}

#[test]
fn multiplication() {
    let (vals, _) = outputs(b"6*7;\n");
    assert_eq!(vals, vec![42]);
}

#[test]
fn division() {
    let (vals, _) = outputs(b"84/2;\n");
    assert_eq!(vals, vec![42]);
}

#[test]
fn subtraction_is_left_associative() {
    let (vals, _) = outputs(b"8-3-2;\n");
    assert_eq!(vals, vec![3]);
}

#[test]
fn division_is_left_associative() {
    let (vals, _) = outputs(b"100/5/2;\n");
    assert_eq!(vals, vec![10]);
}

#[test]
fn precedence_times_over_plus() {
    let (vals, _) = outputs(b"2+3*4;\n");
    assert_eq!(vals, vec![14]);
}

#[test]
fn precedence_overridden_by_parens() {
    let (vals, _) = outputs(b"(2+3)*4;\n");
    assert_eq!(vals, vec![20]);
}

#[test]
fn nested_parentheses() {
    let (vals, _) = outputs(b"((1+2)*(3+4));\n");
    assert_eq!(vals, vec![21]);
}

#[test]
fn division_truncates_toward_zero() {
    let (vals, _) = outputs(b"7/2;\n");
    assert_eq!(vals, vec![3]);
    let (vals, _) = outputs(b"9/4;\n");
    assert_eq!(vals, vec![2]);
}

#[test]
fn unary_minus_is_rejected() {
    let (vals, err) = outputs(b"-7/2;\n");
    assert_eq!(vals, vec![]);
    assert_eq!(err, CalcError::ExpectedFactor { found: TokenKind::Minus });
}

#[test]
fn division_by_zero_is_fatal_without_output() {
    let (vals, err) = outputs(b"5/0;\n");
    assert_eq!(vals, vec![]);
    assert_eq!(err, CalcError::DivideByZero);
}

#[test]
fn expression_may_span_lines() {
    let (vals, err) = outputs(b"1 +\n2;\n");
    assert_eq!(vals, vec![3]);
    assert_eq!(err, CalcError::EndOfInput);
}

#[test]
fn sequential_statements_in_order() {
    let (vals, err) = outputs(b"1+1;\n2*2;\n");
    assert_eq!(vals, vec![2, 4]);
    assert_eq!(err, CalcError::EndOfInput);
}

#[test]
fn unrecognized_character_is_fatal() {
    let (vals, err) = outputs(b"1&2;\n");
    assert_eq!(vals, vec![]);
    assert_eq!(err, CalcError::UnrecognizedChar(b'&'));
}

#[test]
fn values_before_the_error_are_kept() {
    let (vals, err) = outputs(b"1+1;\n5/0;\n");
    assert_eq!(vals, vec![2]);
    assert_eq!(err, CalcError::DivideByZero);
}

#[test]
fn empty_input_ends_at_once() {
    let (vals, err) = outputs(b"");
    assert_eq!(vals, vec![]);
    assert_eq!(err, CalcError::EndOfInput);
}

#[test]
fn input_ending_inside_a_number_is_fatal() {
    // the lexer looks one byte past a digit run; the input ending there is
    // the same fatal error as running out of input between tokens
    let (vals, err) = outputs(b"12");
    assert_eq!(vals, vec![]);
    assert_eq!(err, CalcError::EndOfInput);
}

#[test]
fn largest_literal_fits() {
    let (vals, _) = outputs(b"2147483647;\n");
    assert_eq!(vals, vec![2147483647]);
}

#[test]
fn literal_too_large_is_fatal() {
    let (vals, err) = outputs(b"2147483648;\n");
    assert_eq!(vals, vec![]);
    assert_eq!(err, CalcError::LiteralTooLarge);
}

#[test]
fn addition_overflow_is_fatal() {
    let (vals, err) = outputs(b"2147483647+1;\n");
    assert_eq!(vals, vec![]);
    assert_eq!(err, CalcError::Overflow);
}

#[test]
fn subtraction_overflow_is_fatal() {
    let (vals, err) = outputs(b"0-2147483647-2;\n");
    assert_eq!(vals, vec![]);
    assert_eq!(err, CalcError::Overflow);
}

#[test]
fn multiplication_overflow_is_fatal() {
    let (vals, err) = outputs(b"65536*65536;\n");
    assert_eq!(vals, vec![]);
    assert_eq!(err, CalcError::Overflow);
}

#[test]
fn missing_semicolon_is_a_syntax_error() {
    let (vals, err) = outputs(b"1 2;\n");
    assert_eq!(vals, vec![]);
    assert_eq!(
        err,
        CalcError::UnexpectedToken { expected: TokenKind::Semi, found: TokenKind::Number }
    );
}

#[test]
fn unclosed_parenthesis_is_a_syntax_error() {
    let (vals, err) = outputs(b"(1+2;\n");
    assert_eq!(vals, vec![]);
    assert_eq!(
        err,
        CalcError::UnexpectedToken { expected: TokenKind::RParen, found: TokenKind::Semi }
    );
}

#[test]
fn empty_parentheses_are_a_syntax_error() {
    let (vals, err) = outputs(b"();\n");
    assert_eq!(vals, vec![]);
    assert_eq!(err, CalcError::ExpectedFactor { found: TokenKind::RParen });
}

#[test]
fn whitespace_only_separates_tokens() {
    let (vals, err) = outputs(b"  12  \t + \r\n 3 ;\n");
    assert_eq!(vals, vec![15]);
    assert_eq!(err, CalcError::EndOfInput);
}

#[test]
fn zero_divided_and_zero_results() {
    let (vals, _) = outputs(b"0/5;\n0*7;\n");
    assert_eq!(vals, vec![0, 0]);
}

#[test]
fn lexer_hands_out_tokens_in_order() {
    let mut lex = Lexer::new(b"12+(3);\n".to_vec());
    assert_eq!(lex.get_token(), Ok(Token::Num(vec![b'1', b'2'])));
    assert_eq!(lex.get_token(), Ok(Token::Plus));
    assert_eq!(lex.get_token(), Ok(Token::LParen));
    assert_eq!(lex.get_token(), Ok(Token::Num(vec![b'3'])));
    assert_eq!(lex.get_token(), Ok(Token::RParen));
    assert_eq!(lex.get_token(), Ok(Token::Semi));
    assert_eq!(lex.get_token(), Err(CalcError::EndOfInput));
}

#[test]
fn lexer_current_reads_without_consuming() {
    let lex = Lexer::new(b"7;".to_vec());
    assert_eq!(lex.current(), Some(b'7'));
    assert_eq!(lex.current(), Some(b'7'));
    let empty = Lexer::new(Vec::new());
    assert_eq!(empty.current(), None);
}

#[test]
fn token_equality_compares_digit_text() {
    assert!(token_eq(&Token::Num(vec![b'1']), &Token::Num(vec![b'1'])));
    assert!(!token_eq(&Token::Num(vec![b'1']), &Token::Num(vec![b'2'])));
    assert!(token_eq(&Token::Plus, &Token::Plus));
    assert!(!token_eq(&Token::Plus, &Token::Semi));
}

#[test]
fn parser_builds_the_precedence_tree() {
    let lex = Lexer::new(b"2+3*4;\n".to_vec());
    let mut parser = Parser::new(lex).expect("first token");
    let tree = parser.program().expect("parse");
    assert_eq!(
        tree,
        AST::Plus(
            Box::new(AST::Num(2)),
            Box::new(AST::Times(Box::new(AST::Num(3)), Box::new(AST::Num(4)))),
        )
    );
}

#[test]
fn parser_productions_expose_the_grammar() {
    let lex = Lexer::new(b"3*4+5;\n".to_vec());
    let mut p = Parser::new(lex).expect("first token");
    let t = p.term().expect("term");
    assert_eq!(t, AST::Times(Box::new(AST::Num(3)), Box::new(AST::Num(4))));
    let full = p.exp_(t).expect("operator chain");
    assert_eq!(
        full,
        AST::Plus(
            Box::new(AST::Times(Box::new(AST::Num(3)), Box::new(AST::Num(4)))),
            Box::new(AST::Num(5)),
        )
    );
    let done = p.semi(full).expect("terminator");
    assert_eq!(
        done,
        AST::Plus(
            Box::new(AST::Times(Box::new(AST::Num(3)), Box::new(AST::Num(4)))),
            Box::new(AST::Num(5)),
        )
    );
}

#[test]
fn eat_checks_the_lookahead() {
    let lex = Lexer::new(b"(1);\n".to_vec());
    let mut p = Parser::new(lex).expect("first token");
    assert_eq!(p.eat(Token::LParen), Ok(()));
    assert_eq!(
        p.eat(Token::RParen),
        Err(CalcError::UnexpectedToken {
            expected: TokenKind::RParen,
            found: TokenKind::Number
        })
    );
    let f = p.factor().expect("factor");
    assert_eq!(f, AST::Num(1));
    assert_eq!(p.eat(Token::RParen), Ok(()));
}

#[test]
fn factor_rejects_an_operator() {
    let lex = Lexer::new(b"*2;\n".to_vec());
    let mut p = Parser::new(lex).expect("first token");
    assert_eq!(p.factor(), Err(CalcError::ExpectedFactor { found: TokenKind::Times }));
}

#[test]
fn literals_parse_with_leading_zeros() {
    assert_eq!(calc::arith::parse_literal(&vec![b'0', b'0', b'7']), Ok(7));
    assert_eq!(
        calc::arith::parse_literal(&b"2147483648".to_vec()),
        Err(CalcError::LiteralTooLarge)
    );
    assert_eq!(calc::arith::parse_literal(&b"2147483647".to_vec()), Ok(2147483647));
}

#[test]
fn division_helper_truncates_toward_zero() {
    assert_eq!(calc::arith::div_trunc(7, 2), 3);
    assert_eq!(calc::arith::div_trunc(-7, 2), -3);
    assert_eq!(calc::arith::div_trunc(7, -2), -3);
    assert_eq!(calc::arith::div_trunc(-7, -2), 3);
    assert_eq!(calc::arith::div_trunc(i32::MIN, 1), i32::MIN);
}

#[test]
fn evaluate_walks_the_tree() {
    let tree = AST::Minus(
        Box::new(AST::Num(8)),
        Box::new(AST::Divide(Box::new(AST::Num(6)), Box::new(AST::Num(4)))),
    );
    assert_eq!(evaluate(tree), Ok(7));
    let bad = AST::Divide(Box::new(AST::Num(1)), Box::new(AST::Num(0)));
    assert_eq!(evaluate(bad), Err(CalcError::DivideByZero));
}
