use confetti_rs::lexer::{Lexer, TokenType};
use confetti_rs::ConfOptions;

#[test]
fn test_lexer_new() {
    let input = "test";
    let options = ConfOptions::default();
    let lexer = Lexer::new(input, options);
    assert_eq!(lexer.input(), input);
    assert_eq!(lexer.position(), 0);
}

#[test]
fn test_lexer_current_char() {
    let input = "test";
    let options = ConfOptions::default();
    let lexer = Lexer::new(input, options);
    assert_eq!(lexer.current_char(), Some('t'));
}

#[test]
fn test_lexer_next_char() {
    let input = "test";
    let options = ConfOptions::default();
    let lexer = Lexer::new(input, options);
    assert_eq!(lexer.next_char(), Some('e'));
}

#[test]
fn test_lexer_advance() {
    let input = "test";
    let options = ConfOptions::default();
    let mut lexer = Lexer::new(input, options);
    lexer.advance();
    assert_eq!(lexer.position(), 1);
}

#[test]
fn test_lexer_is_whitespace() {
    let input = " ";
    let options = ConfOptions::default();
    let lexer = Lexer::new(input, options);
    assert!(lexer.is_whitespace());
}

#[test]
fn test_lexer_is_newline() {
    let input = "\n";
    let options = ConfOptions::default();
    let lexer = Lexer::new(input, options);
    assert!(lexer.is_newline());
}

#[test]
fn test_lexer_is_comment() {
    let input = "#";
    let options = ConfOptions {
        allow_c_style_comments: true,
        ..Default::default()
    };
    let lexer = Lexer::new(input, options);
    assert!(lexer.is_comment());
}

#[test]
fn test_lexer_is_comment_multi_line() {
    let input = "/*";
    let options = ConfOptions {
        allow_c_style_comments: true,
        ..Default::default()
    };
    let lexer = Lexer::new(input, options);
    assert!(lexer.is_comment());
}

#[test]
fn test_lexer_scan_comment_single_line() {
    let input = "# This is a comment\n";
    let options = ConfOptions {
        allow_c_style_comments: true,
        ..Default::default()
    };
    let mut lexer = Lexer::new(input, options);
    assert!(lexer.scan_comment().is_ok());
    assert_eq!(lexer.position(), input.len() - 1);
}

#[test]
fn test_lexer_scan_comment_multi_line() {
    let input = "/* This is a\nmulti-line\ncomment */";
    let options = ConfOptions {
        allow_c_style_comments: true,
        ..Default::default()
    };
    let mut lexer = Lexer::new(input, options);
    assert!(lexer.scan_comment().is_ok());
    assert_eq!(lexer.position(), input.len());
}

#[test]
fn test_lexer_scan_comment_multi_line_unterminated() {
    let input = "/* This is an unterminated comment";
    let options = ConfOptions {
        allow_c_style_comments: true,
        ..Default::default()
    };
    let mut lexer = Lexer::new(input, options);
    assert!(lexer.scan_comment().is_err());
}

#[test]
fn test_lexer_scan_quoted_argument() {
    let input = "\"test\"";
    let options = ConfOptions::default();
    let mut lexer = Lexer::new(input, options);
    let (is_triple_quoted, is_expression) = lexer.scan_quoted_argument().unwrap();
    assert!(!is_triple_quoted);
    assert!(!is_expression);
    assert_eq!(lexer.position(), input.len());
}

#[test]
fn test_lexer_scan_quoted_argument_with_escape() {
    let input = "\"test\\n\"";
    let options = ConfOptions::default();
    let mut lexer = Lexer::new(input, options);
    let (is_triple_quoted, is_expression) = lexer.scan_quoted_argument().unwrap();
    assert!(!is_triple_quoted);
    assert!(!is_expression);
    assert_eq!(lexer.position(), input.len());
}

#[test]
fn test_lexer_scan_quoted_argument_unterminated() {
    let input = "\"test";
    let options = ConfOptions::default();
    let mut lexer = Lexer::new(input, options);
    assert!(lexer.scan_quoted_argument().is_err());
}

#[test]
fn test_lexer_scan_quoted_argument_triple() {
    let input = "\"\"\"test\"\"\"";
    let options = ConfOptions::default();
    let mut lexer = Lexer::new(input, options);
    let (is_triple_quoted, is_expression) = lexer.scan_quoted_argument().unwrap();
    assert!(is_triple_quoted);
    assert!(!is_expression);
    assert_eq!(lexer.position(), input.len());
}

#[test]
fn test_lexer_scan_quoted_argument_triple_unterminated() {
    let input = "\"\"\"test";
    let options = ConfOptions::default();
    let mut lexer = Lexer::new(input, options);
    assert!(lexer.scan_quoted_argument().is_err());
}

#[test]
fn test_lexer_scan_argument() {
    let input = "test";
    let options = ConfOptions::default();
    let mut lexer = Lexer::new(input, options);
    let is_expression = lexer.scan_argument().unwrap();
    assert!(!is_expression);
    assert_eq!(lexer.position(), input.len());
}

#[test]
fn test_lexer_scan_argument_with_escape() {
    let input = "test\\n";
    let options = ConfOptions::default();
    let mut lexer = Lexer::new(input, options);
    lexer.scan_argument().unwrap();
    assert_eq!(lexer.position(), 6);
}

#[test]
fn test_lexer_scan_argument_with_space() {
    let input = "test ";
    let options = ConfOptions::default();
    let mut lexer = Lexer::new(input, options);
    let is_expression = lexer.scan_argument().unwrap();
    assert!(!is_expression);
    assert_eq!(lexer.position(), input.len() - 1);
}

#[test]
fn test_lexer_scan_argument_with_expression() {
    let input = "test(";
    let options = ConfOptions {
        allow_expression_arguments: true,
        ..Default::default()
    };
    let mut lexer = Lexer::new(input, options);
    let is_expression = lexer.scan_argument().unwrap();
    assert!(is_expression);
    assert_eq!(lexer.position(), 4);
}

#[test]
fn test_lexer_next_token_eof() {
    let input = "";
    let options = ConfOptions::default();
    let mut lexer = Lexer::new(input, options);
    let token = lexer.next_token().unwrap();
    assert_eq!(token.token_type, TokenType::Eof);
    assert_eq!(token.span, 0..0);
    assert!(!token.is_quoted);
    assert!(!token.is_triple_quoted);
    assert!(!token.is_expression);
}

#[test]
fn test_lexer_next_token_newline() {
    let input = "\n";
    let options = ConfOptions::default();
    let mut lexer = Lexer::new(input, options);
    let token = lexer.next_token().unwrap();
    assert_eq!(token.token_type, TokenType::Newline);
    assert_eq!(token.span, 0..1);
    assert!(!token.is_quoted);
    assert!(!token.is_triple_quoted);
    assert!(!token.is_expression);
}

#[test]
fn test_lexer_next_token_semicolon() {
    let input = ";";
    let options = ConfOptions::default();
    let mut lexer = Lexer::new(input, options);
    let token = lexer.next_token().unwrap();
    assert_eq!(token.token_type, TokenType::Semicolon);
    assert_eq!(token.span, 0..1);
    assert!(!token.is_quoted);
    assert!(!token.is_triple_quoted);
    assert!(!token.is_expression);
}

#[test]
fn test_lexer_next_token_left_curly_brace() {
    let input = "{";
    let options = ConfOptions::default();
    let mut lexer = Lexer::new(input, options);
    let token = lexer.next_token().unwrap();
    assert_eq!(token.token_type, TokenType::LeftCurlyBrace);
    assert_eq!(token.span, 0..1);
    assert!(!token.is_quoted);
    assert!(!token.is_triple_quoted);
    assert!(!token.is_expression);
}

#[test]
fn test_lexer_next_token_right_curly_brace() {
    let input = "}";
    let options = ConfOptions::default();
    let mut lexer = Lexer::new(input, options);
    let token = lexer.next_token().unwrap();
    assert_eq!(token.token_type, TokenType::RightCurlyBrace);
    assert_eq!(token.span, 0..1);
    assert!(!token.is_quoted);
    assert!(!token.is_triple_quoted);
    assert!(!token.is_expression);
}

#[test]
fn test_lexer_next_token_continuation() {
    let input = "\\\n";
    let options = ConfOptions::default();
    let mut lexer = Lexer::new(input, options);
    let token = lexer.next_token().unwrap();
    assert_eq!(token.token_type, TokenType::Continuation);
    assert_eq!(token.span, 0..1);
    assert!(!token.is_quoted);
    assert!(!token.is_triple_quoted);
    assert!(!token.is_expression);
}

#[test]
fn test_lexer_next_token_quoted_argument() {
    let input = "\"test\"";
    let options = ConfOptions::default();
    let mut lexer = Lexer::new(input, options);
    let token = lexer.next_token().unwrap();
    assert_eq!(token.token_type, TokenType::Argument);
    assert_eq!(token.span, 0..input.len());
    assert!(token.is_quoted);
    assert!(!token.is_triple_quoted);
    assert!(!token.is_expression);
}

#[test]
fn test_lexer_next_token_triple_quoted_argument() {
    let input = "\"\"\"test\"\"\"";
    let options = ConfOptions::default();
    let mut lexer = Lexer::new(input, options);
    let token = lexer.next_token().unwrap();
    assert_eq!(token.token_type, TokenType::Argument);
    assert_eq!(token.span, 0..input.len());
    assert!(token.is_quoted);
    assert!(token.is_triple_quoted);
    assert!(!token.is_expression);
}

#[test]
fn test_lexer_next_token_argument() {
    let input = "test";
    let options = ConfOptions::default();
    let mut lexer = Lexer::new(input, options);
    let token = lexer.next_token().unwrap();
    assert_eq!(token.token_type, TokenType::Argument);
    assert_eq!(token.span, 0..input.len());
    assert!(!token.is_quoted);
    assert!(!token.is_triple_quoted);
    assert!(!token.is_expression);
}

#[test]
fn test_lexer_next_token_argument_with_expression() {
    let input = "test(";
    let options = ConfOptions {
        allow_expression_arguments: true,
        ..Default::default()
    };
    let mut lexer = Lexer::new(input, options);
    let token = lexer.next_token().unwrap();
    assert_eq!(token.token_type, TokenType::Argument);
    assert_eq!(token.span, 0..4);
    assert!(!token.is_quoted);
    assert!(!token.is_triple_quoted);
    assert!(token.is_expression);
}
