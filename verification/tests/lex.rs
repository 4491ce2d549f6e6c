//! The lexer observed directly: token positions, lookahead, and lexical
//! failures.

use rcalc::lex::{Lexer, Token, UNKNOWN_SYMBOL};

#[test]
fn tokens_carry_their_positions() {
    let mut lx = Lexer::new(" 12 + (3.5)");
    assert_eq!(Some(Ok((1, Token::Number(vec!['1', '2'])))), lx.next());
    assert_eq!(Some(Ok((4, Token::Plus))), lx.next());
    assert_eq!(Some(Ok((6, Token::LParen))), lx.next());
    assert_eq!(Some(Ok((7, Token::Number(vec!['3', '.', '5'])))), lx.next());
    assert_eq!(Some(Ok((10, Token::RParen))), lx.next());
    assert_eq!(None, lx.next());
    assert_eq!(None, lx.next());
}

#[test]
fn single_character_tokens() {
    let mut lx = Lexer::new("()+-*/%^");
    assert_eq!(Some(Ok((0, Token::LParen))), lx.next());
    assert_eq!(Some(Ok((1, Token::RParen))), lx.next());
    assert_eq!(Some(Ok((2, Token::Plus))), lx.next());
    assert_eq!(Some(Ok((3, Token::Dash))), lx.next());
    assert_eq!(Some(Ok((4, Token::Star))), lx.next());
    assert_eq!(Some(Ok((5, Token::Slash))), lx.next());
    assert_eq!(Some(Ok((6, Token::Percent))), lx.next());
    assert_eq!(Some(Ok((7, Token::Caret))), lx.next());
    assert_eq!(None, lx.next());
}

#[test]
fn peek_does_not_consume() {
    let mut lx = Lexer::new("7*8");
    assert_eq!(lx.peek(), lx.peek());
    assert_eq!(Some(Ok((0, Token::Number(vec!['7'])))), lx.next());
    assert_eq!(Some(Ok((1, Token::Star))), lx.peek());
    assert_eq!(Some(Ok((1, Token::Star))), lx.next());
}

#[test]
fn numbers_need_no_separating_whitespace() {
    let mut lx = Lexer::new("-5^2");
    assert_eq!(Some(Ok((0, Token::Dash))), lx.next());
    assert_eq!(Some(Ok((1, Token::Number(vec!['5'])))), lx.next());
    assert_eq!(Some(Ok((2, Token::Caret))), lx.next());
    assert_eq!(Some(Ok((3, Token::Number(vec!['2'])))), lx.next());
    assert_eq!(None, lx.next());
}

#[test]
fn unknown_symbol_is_reported_at_run_start() {
    let mut lx = Lexer::new("1 &2");
    assert_eq!(Some(Ok((0, Token::Number(vec!['1'])))), lx.next());
    assert_eq!(Some(Err((2, UNKNOWN_SYMBOL))), lx.next());
}

#[test]
fn empty_input_yields_no_tokens() {
    let mut lx = Lexer::new("");
    assert_eq!(None, lx.next());
    let mut ws = Lexer::new(" \t\n ");
    assert_eq!(None, ws.next());
}
