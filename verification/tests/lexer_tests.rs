use leuchtkraft::diagnostics::{ErrorVariant, InputLocation};
use leuchtkraft::lexer::Lexer;
use leuchtkraft::position::Position;
use leuchtkraft::token::Token;

#[test]
fn forall_keyword_single_token() {
    let tokens = Lexer::new("forall").tokenize().unwrap();
    assert_eq!(tokens.len(), 1);
    assert_eq!(*tokens[0].as_inner(), Token::Forall);
    assert_eq!(tokens[0].position(), Position::Span(0, 6));
}

#[test]
fn generic_identifier_single_token() {
    let tokens = Lexer::new("foobar").tokenize().unwrap();
    assert_eq!(tokens.len(), 1);
    assert_eq!(*tokens[0].as_inner(), Token::Ident("foobar"));
    assert_eq!(tokens[0].position(), Position::Span(0, 6));
}

#[test]
fn true_and_false_keywords() {
    let tokens = Lexer::new("true false").tokenize().unwrap();
    assert_eq!(tokens.len(), 2);
    assert_eq!(*tokens[0].as_inner(), Token::True);
    assert_eq!(tokens[0].position(), Position::Span(0, 4));
    assert_eq!(*tokens[1].as_inner(), Token::False);
    assert_eq!(tokens[1].position(), Position::Span(5, 10));
}

#[test]
fn whitespace_elided_between_identifiers() {
    let tokens = Lexer::new("a    b").tokenize().unwrap();
    assert_eq!(tokens.len(), 2);
    assert_eq!(*tokens[0].as_inner(), Token::Ident("a"));
    assert_eq!(tokens[0].position(), Position::Span(0, 1));
    assert_eq!(*tokens[1].as_inner(), Token::Ident("b"));
    assert_eq!(tokens[1].position(), Position::Span(5, 6));
}

#[test]
fn paren_true_paren_positions() {
    let tokens = Lexer::new("(true)").tokenize().unwrap();
    assert_eq!(tokens.len(), 3);
    assert_eq!(*tokens[0].as_inner(), Token::OpeningParen);
    assert_eq!(tokens[0].position(), Position::Pos(0));
    assert_eq!(*tokens[1].as_inner(), Token::True);
    assert_eq!(tokens[1].position(), Position::Span(1, 5));
    assert_eq!(*tokens[2].as_inner(), Token::ClosingParen);
    assert_eq!(tokens[2].position(), Position::Pos(5));
}

#[test]
fn unexpected_character_fails_with_position() {
    let err = Lexer::new("#").tokenize().unwrap_err();
    assert_eq!(
        err.variant,
        ErrorVariant::UnexpectedCharacter { found: '#', expected: None }
    );
    assert_eq!(err.location, InputLocation::Pos(0));
}

#[test]
fn implication_token_spans_both_characters() {
    let tokens = Lexer::new("=>").tokenize().unwrap();
    assert_eq!(tokens.len(), 1);
    assert_eq!(*tokens[0].as_inner(), Token::Implication);
    assert_eq!(tokens[0].position(), Position::Span(0, 2));
}

#[test]
fn implication_mismatch_reports_unexpected_character() {
    let err = Lexer::new("=x").tokenize().unwrap_err();
    assert_eq!(
        err.variant,
        ErrorVariant::UnexpectedCharacter { found: 'x', expected: Some(vec!['>']) }
    );
    assert_eq!(err.location, InputLocation::Pos(1));
}

#[test]
fn implication_cut_short_reports_end_of_input() {
    let err = Lexer::new("=").tokenize().unwrap_err();
    assert_eq!(err.variant, ErrorVariant::UnexpectedEndOfInput);
    assert_eq!(err.location, InputLocation::Pos(1));
}

#[test]
fn leading_space_becomes_indent_token() {
    let tokens = Lexer::new("  a").tokenize().unwrap();
    // One indent token for the first space; the second space is consumed as
    // trailing whitespace of that token and elided.
    assert_eq!(tokens.len(), 2);
    assert_eq!(*tokens[0].as_inner(), Token::Indent);
    assert_eq!(tokens[0].position(), Position::Pos(0));
    assert_eq!(*tokens[1].as_inner(), Token::Ident("a"));
    assert_eq!(tokens[1].position(), Position::Span(2, 3));
}

#[test]
fn empty_input_yields_no_tokens() {
    let tokens = Lexer::new("").tokenize().unwrap();
    assert_eq!(tokens.len(), 0);
}

#[test]
fn underscore_starts_identifier() {
    let tokens = Lexer::new("_x1").tokenize().unwrap();
    assert_eq!(tokens.len(), 1);
    assert_eq!(*tokens[0].as_inner(), Token::Ident("_x1"));
    assert_eq!(tokens[0].position(), Position::Span(0, 3));
}

#[test]
fn full_formula_token_stream() {
    let tokens = Lexer::new("forall x (p => true)").tokenize().unwrap();
    let kinds: Vec<Token> = tokens.iter().map(|t| t.as_inner().clone()).collect();
    assert_eq!(
        kinds,
        vec![
            Token::Forall,
            Token::Ident("x"),
            Token::OpeningParen,
            Token::Ident("p"),
            Token::Implication,
            Token::True,
            Token::ClosingParen,
        ]
    );
    assert_eq!(tokens[4].position(), Position::Span(12, 14));
    assert_eq!(tokens[5].position(), Position::Span(15, 19));
}

#[test]
fn consume_advances_one_character() {
    let lx = Lexer::new("ab");
    let mut pos: usize = 0;
    let c = lx.consume(&mut pos).unwrap();
    assert_eq!(*c.as_inner(), 'a');
    assert_eq!(c.position(), Position::Pos(0));
    assert_eq!(pos, 1);
    let c = lx.consume(&mut pos).unwrap();
    assert_eq!(c.into_inner(), 'b');
    assert_eq!(pos, 2);
    assert!(lx.consume(&mut pos).is_none());
    assert_eq!(pos, 2);
}

#[test]
fn consume_exact_returns_span() {
    let lx = Lexer::new("abcd");
    let mut pos: usize = 1;
    let read = lx.consume_exact(&mut pos, 2);
    assert_eq!(*read.as_inner(), "bc");
    assert_eq!(read.position(), Position::Span(1, 3));
    assert_eq!(pos, 3);
}

#[test]
fn consume_while_reads_maximal_run() {
    let lx = Lexer::new("abc123 x");
    let mut pos: usize = 0;
    let read = lx.consume_while(&mut pos, |c| c.is_ascii_alphanumeric()).unwrap();
    assert_eq!(*read.as_inner(), "abc123");
    assert_eq!(read.position(), Position::Span(0, 6));
    assert_eq!(pos, 6);
}

#[test]
fn consume_while_empty_run_yields_nothing() {
    let lx = Lexer::new(" abc");
    let mut pos: usize = 0;
    assert!(lx.consume_while(&mut pos, |c| c.is_ascii_alphanumeric()).is_none());
    assert_eq!(pos, 0);
}

#[test]
fn peek_does_not_advance() {
    let lx = Lexer::new("xy");
    let pos: usize = 0;
    assert_eq!(lx.peek(&pos), Some('x'));
    assert_eq!(pos, 0);
    let at_end: usize = 2;
    assert_eq!(lx.peek(&at_end), None);
}

#[test]
fn peek_exact_reads_without_advancing() {
    let lx = Lexer::new("hello");
    assert_eq!(lx.peek_exact(1, 3), "ell");
}

#[test]
fn take_matches_expected_text() {
    let lx = Lexer::new("=>rest");
    let mut pos: usize = 0;
    let read = lx.take(&mut pos, "=>").unwrap();
    assert_eq!(read.position(), Position::Span(0, 2));
    assert_eq!(pos, 2);
}

#[test]
fn take_mismatch_names_expected_character() {
    let lx = Lexer::new("=(");
    let mut pos: usize = 0;
    let err = lx.take(&mut pos, "=>").unwrap_err();
    assert_eq!(
        err.variant,
        ErrorVariant::UnexpectedCharacter { found: '(', expected: Some(vec!['>']) }
    );
    assert_eq!(err.location, InputLocation::Pos(1));
}

#[test]
fn take_past_end_reports_end_of_input() {
    let lx = Lexer::new("=");
    let mut pos: usize = 0;
    let err = lx.take(&mut pos, "=>").unwrap_err();
    assert_eq!(err.variant, ErrorVariant::UnexpectedEndOfInput);
    assert_eq!(err.location, InputLocation::Pos(1));
}
