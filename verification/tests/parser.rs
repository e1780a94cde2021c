use dollar::parser::{Error, Node, Parser};
use dollar::scanner;
use dollar::scanner::Token;

fn exp(s: &str) -> Node {
    Node::Exp(s.to_string())
}

fn dollar_exp(s: &str) -> Node {
    Node::DollarExp(s.to_string())
}

fn parser_for(s: &str) -> Parser {
    match Parser::new(s) {
        Ok(p) => p,
        Err(e) => panic!("scan failed: {}", e.to_string()),
    }
}

fn nodes_of(s: &str) -> Result<Vec<Node>, Error> {
    match parser_for(s).parse() {
        Ok(p) => Ok(p.nodes),
        Err(e) => Err(e),
    }
}

fn missing_marker() -> Error {
    Error::ParseError("expected $$".to_string())
}

#[test]
fn new_parser_has_no_nodes() {
    let p = parser_for("a$$b$$");
    assert!(p.nodes.is_empty());
}

#[test]
fn new_parser_holds_the_tokens_of_the_text() {
    let mut p = parser_for("a$$\\$$");
    assert_eq!(p.peek(0), Token::Other("a".to_string()));
    assert_eq!(p.peek(1), Token::DollarDollar);
    assert_eq!(p.peek(2), Token::Other("$".to_string()));
    assert_eq!(p.peek(3), Token::Dollar);
    assert_eq!(p.peek(4), Token::Eof);
}

#[test]
fn parse_empty_input_gives_no_nodes() {
    assert_eq!(nodes_of(""), Ok(vec![]));
}

#[test]
fn parse_plain_text() {
    assert_eq!(nodes_of("hello"), Ok(vec![exp("hello")]));
}

#[test]
fn parse_lone_dollars_join_the_text() {
    assert_eq!(nodes_of("$"), Ok(vec![exp("$")]));
    assert_eq!(nodes_of("a$b$c"), Ok(vec![exp("a$b$c")]));
}

#[test]
fn parse_empty_dollar_expression() {
    assert_eq!(nodes_of("$$$$"), Ok(vec![dollar_exp("")]));
}

#[test]
fn parse_dollar_expression_with_lone_dollar() {
    assert_eq!(nodes_of("$$a$b$$"), Ok(vec![dollar_exp("a$b")]));
}

#[test]
fn parse_two_dollar_expressions() {
    assert_eq!(
        nodes_of("$$a$$$$b$$"),
        Ok(vec![dollar_exp("a"), dollar_exp("b")])
    );
}

#[test]
fn parse_unclosed_at_end() {
    assert_eq!(nodes_of("$$"), Err(missing_marker()));
    assert_eq!(nodes_of("$$abc"), Err(missing_marker()));
    assert_eq!(nodes_of("a$$b$$c$$d"), Err(missing_marker()));
}

#[test]
fn parse_three_dollars_is_unclosed() {
    assert_eq!(nodes_of("$$$"), Err(missing_marker()));
}

#[test]
fn parse_five_dollars_closes_with_the_pair() {
    assert_eq!(nodes_of("$$x$$$"), Ok(vec![dollar_exp("x"), exp("$")]));
}

#[test]
fn parse_stops_at_null_character() {
    assert_eq!(nodes_of("a\0$$"), Ok(vec![exp("a")]));
    assert_eq!(nodes_of("$$a\0$$"), Err(missing_marker()));
}

#[test]
fn parse_never_stores_eof() {
    for s in ["", "abc", "$", "$$a$$", "a$$b$$c", "\\$"] {
        match nodes_of(s) {
            Ok(nodes) => assert!(nodes.iter().all(|n| *n != Node::Eof)),
            Err(e) => panic!("parse failed: {}", e.to_string()),
        }
    }
}

#[test]
fn parse_merges_neighbouring_text() {
    for s in ["a$b$$c$$d$e", "$$a$$b$c$$d$$", "$a\\$b$"] {
        match nodes_of(s) {
            Ok(nodes) => {
                for w in nodes.windows(2) {
                    if let (Node::Exp(_), Node::Exp(_)) = (&w[0], &w[1]) {
                        panic!("two text nodes side by side");
                    }
                }
            }
            Err(e) => panic!("parse failed: {}", e.to_string()),
        }
    }
}

#[test]
fn parse_keeps_nodes_already_there() {
    let mut p = parser_for("a");
    p.nodes.push(dollar_exp("x"));
    match p.parse() {
        Ok(p) => assert_eq!(p.nodes, vec![dollar_exp("x"), exp("a")]),
        Err(_) => panic!("parse failed"),
    }
}

#[test]
fn into_nodes_hands_out_the_nodes() {
    match parser_for("a$$b$$").parse() {
        Ok(p) => assert_eq!(p.into_nodes(), vec![exp("a"), dollar_exp("b")]),
        Err(_) => panic!("parse failed"),
    }
}

#[test]
fn parse_node_steps_through_input() {
    let mut p = parser_for("a$b$$c$$d");
    assert_eq!(p.parse_node(), Ok(exp("a$b")));
    assert_eq!(p.parse_node(), Ok(dollar_exp("c")));
    assert_eq!(p.parse_node(), Ok(exp("d")));
    assert_eq!(p.parse_node(), Ok(Node::Eof));
    assert_eq!(p.parse_node(), Ok(Node::Eof));
    assert!(p.nodes.is_empty());
}

#[test]
fn parse_node_reports_unclosed_expression() {
    let mut p = parser_for("a$$b");
    assert_eq!(p.parse_node(), Ok(exp("a")));
    assert_eq!(p.parse_node(), Err(missing_marker()));
}

#[test]
fn parse_other_stops_before_marker() {
    let mut p = parser_for("a$b$$c");
    assert_eq!(p.parse_other(), Ok(exp("a$b")));
    assert_eq!(p.peek(0), Token::DollarDollar);
}

#[test]
fn parse_other_at_marker_is_empty() {
    let mut p = parser_for("$$a$$");
    assert_eq!(p.parse_other(), Ok(exp("")));
    assert_eq!(p.peek(0), Token::DollarDollar);
}

#[test]
fn parse_other_at_end_is_empty() {
    let mut p = parser_for("");
    assert_eq!(p.parse_other(), Ok(exp("")));
}

#[test]
fn parse_dollardollar_reads_through_the_closer() {
    let mut p = parser_for("$$a$b$$c");
    assert_eq!(p.parse_dollardollar(), Ok(dollar_exp("a$b")));
    assert_eq!(p.peek(0), Token::Other("c".to_string()));
}

#[test]
fn parse_dollardollar_without_opener_takes_one_token() {
    let mut p = parser_for("a$$b$$");
    assert_eq!(p.parse_dollardollar(), Err(missing_marker()));
    assert_eq!(p.peek(0), Token::DollarDollar);
}

#[test]
fn parse_dollardollar_without_closer_moves_past_end() {
    let mut p = parser_for("$$a");
    assert_eq!(p.parse_dollardollar(), Err(missing_marker()));
    assert_eq!(p.peek(0), Token::Eof);
}

#[test]
fn parser_peek_looks_ahead_without_moving() {
    let mut p = parser_for("a$");
    assert_eq!(p.peek(0), Token::Other("a".to_string()));
    assert_eq!(p.peek(1), Token::Dollar);
    assert_eq!(p.peek(2), Token::Eof);
    assert_eq!(p.peek(usize::MAX), Token::Eof);
    assert_eq!(p.peek(0), Token::Other("a".to_string()));
}

#[test]
fn parser_read_returns_and_advances() {
    let mut p = parser_for("a$$");
    assert_eq!(p.read(), Token::Other("a".to_string()));
    assert_eq!(p.read(), Token::DollarDollar);
    assert_eq!(p.read(), Token::Eof);
    assert_eq!(p.peek(0), Token::Eof);
    assert_eq!(p.peek(usize::MAX), Token::Eof);
}

#[test]
fn parse_error_text() {
    assert_eq!(missing_marker().to_string(), "expected $$");
    assert_eq!(Error::Eof.to_string(), "EOF");
}

#[test]
fn parse_error_from_scan_error_keeps_the_text() {
    assert_eq!(
        Error::from(scanner::Error::ScanError("bad".to_string())),
        Error::ParseError("bad".to_string())
    );
    assert_eq!(
        Error::from(scanner::Error::Eof),
        Error::ParseError("EOF".to_string())
    );
}

#[test]
fn parse_error_clone_is_equal() {
    assert_eq!(missing_marker().clone(), missing_marker());
    assert_eq!(Error::Eof.clone(), Error::Eof);
}

#[test]
fn node_clone_is_equal() {
    for n in [Node::Eof, exp("a"), dollar_exp("b")] {
        assert_eq!(n.clone(), n);
    }
}
