use ham_core::parse_expr::{parse_args, parse_expr, NodeKind, ParseContext, ParseEvent, Token};

#[test]
fn token_classes() {
    assert!(Token::Ident.is_expr_first());
    assert!(Token::Minus.is_expr_first());
    assert!(!Token::Comma.is_expr_first());
    assert!(Token::Comma.is_arg_first());
    assert!(Token::RightParen.at_end_of_expr());
    assert!(Token::Eol.at_end_of_args());
    assert!(!Token::Other.at_end_of_args());
}

#[test]
fn call_with_trailing_comma() {
    let mut p = ParseContext::new(vec![Token::Ident, Token::LeftParen, Token::Digit, Token::Comma, Token::RightParen, Token::Eol]);
    parse_expr(&mut p);
    assert_eq!(p.pos, 5);
    assert_eq!(
        p.events,
        vec![
            ParseEvent::Start,
            ParseEvent::Bump(Token::Ident),
            ParseEvent::End(NodeKind::Name),
            ParseEvent::Bump(Token::LeftParen),
            ParseEvent::Restart,
            ParseEvent::Start,
            ParseEvent::Start,
            ParseEvent::Bump(Token::Digit),
            ParseEvent::End(NodeKind::IntLiteral),
            ParseEvent::Bump(Token::Comma),
            ParseEvent::End(NodeKind::Arg),
            ParseEvent::Start,
            ParseEvent::End(NodeKind::Arg),
            ParseEvent::Bump(Token::RightParen),
            ParseEvent::End(NodeKind::CallExpr),
        ]
    );
}

#[test]
fn args_recover_from_junk_and_stop_at_end_of_statement() {
    let mut p = ParseContext::new(vec![Token::Other, Token::Other, Token::Digit, Token::Comma, Token::Star, Token::Ident, Token::Eol, Token::Ident]);
    parse_args(&mut p);
    assert_eq!(p.pos, 6);
    assert_eq!(p.next(), Token::Eol);
    assert_eq!(p.events[0], ParseEvent::Start);
    assert_eq!(p.events[3], ParseEvent::End(NodeKind::Other));
}

#[test]
fn group_and_unknown_tokens() {
    let mut p = ParseContext::new(vec![Token::LeftParen, Token::DoubleQuote, Token::RightParen]);
    parse_expr(&mut p);
    assert_eq!(p.pos, 3);
    let mut q = ParseContext::new(vec![Token::Other]);
    parse_expr(&mut q);
    assert_eq!(q.pos, 1);
    let mut e = ParseContext::new(vec![]);
    parse_expr(&mut e);
    assert_eq!(e.pos, 0);
    assert!(e.at_eof());
}

fn arg_nodes(tokens: Vec<Token>) -> usize {
    let mut p = ParseContext::new(tokens);
    parse_args(&mut p);
    p.events.iter().filter(|e| **e == ParseEvent::End(NodeKind::Arg)).count()
}

#[test]
fn one_arg_node_per_slot() {
    assert_eq!(arg_nodes(vec![Token::Digit, Token::Comma, Token::Digit, Token::Comma, Token::Eol]), 3);
    assert_eq!(arg_nodes(vec![Token::Digit, Token::Comma, Token::Digit, Token::Eol]), 2);
    assert_eq!(arg_nodes(vec![Token::Comma, Token::Eol]), 2);
    assert_eq!(arg_nodes(vec![Token::Eol]), 0);
}
