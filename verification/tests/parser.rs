use tt_rust::parser::{lex, parse_method, parse_script, LexError, SyntaxError, TokenKind, AST};

fn spans(input: &str) -> Vec<(TokenKind, usize, usize)> {
    lex(input).unwrap().iter().map(|t| (t.kind, t.start, t.end)).collect()
}

#[test]
fn lexemes_take_the_longest_match() {
    assert_eq!(
        vec![
            (TokenKind::Identifier, 0, 1),
            (TokenKind::Assign, 2, 4),
            (TokenKind::Int, 5, 7),
            (TokenKind::Binary, 8, 10),
            (TokenKind::Char, 11, 13),
            (TokenKind::Str, 14, 18),
            (TokenKind::Keyword, 26, 30),
            (TokenKind::Return, 31, 32),
        ],
        spans("a := 12 <= $x 'hi' \"note\" foo: ^")
    );
    assert_eq!(vec![(TokenKind::Assign, 0, 2), (TokenKind::EndOfChunk, 3, 4)], spans("<- !"));
}

#[test]
fn lexing_stops_at_an_unclosed_string() {
    assert_eq!(Err(LexError { position: 2 }), lex("a 'open").map(|_| ()));
    assert_eq!(Err(LexError { position: 0 }), lex("$").map(|_| ()));
    assert_eq!(Err(LexError { position: 1 }), lex("a#").map(|_| ()));
}

#[test]
fn binary_messages_go_left_to_right() {
    let trees = parse_script(String::from("a := 1 + 2 * 3.")).unwrap();
    assert_eq!(1, trees.len());
    let AST::Statements(v) = &trees[0] else { panic!("statements expected") };
    assert_eq!(1, v.len());
    let AST::Assign(n, e) = &v[0] else { panic!("assignment expected") };
    assert!(matches!(&**n, AST::Name(s) if s == "a"));
    let AST::InvokeSequence(t, msgs) = &**e else { panic!("send expected") };
    assert!(matches!(**t, AST::Int(1)));
    assert_eq!(2, msgs.len());
    assert!(matches!(&msgs[0], AST::Message { name, args } if name == "+" && matches!(args[..], [AST::Int(2)])));
    assert!(matches!(&msgs[1], AST::Message { name, args } if name == "*" && matches!(args[..], [AST::Int(3)])));
}

#[test]
fn keyword_parts_join_their_selector() {
    let trees = parse_script(String::from("x foo: 1 + 2 bar: 3")).unwrap();
    let AST::Statements(v) = &trees[0] else { panic!("statements expected") };
    let AST::InvokeSequence(t, msgs) = &v[0] else { panic!("send expected") };
    assert!(matches!(&**t, AST::Variable(x) if x == "x"));
    assert_eq!(1, msgs.len());
    let AST::Message { name, args } = &msgs[0] else { panic!("message expected") };
    assert_eq!("foo:bar:", name);
    assert_eq!(2, args.len());
    assert!(matches!(&args[0], AST::InvokeSequence(one, m) if matches!(**one, AST::Int(1)) && m.len() == 1));
    assert!(matches!(args[1], AST::Int(3)));
}

#[test]
fn a_trailing_statement_without_a_separator_is_refused() {
    assert!(matches!(parse_script(String::from("1 2")), Err(SyntaxError::Parse(_))));
    assert!(matches!(parse_script(String::from("'x")), Err(SyntaxError::Lex(LexError { position: 0 }))));
}

#[test]
fn method_header_gives_selector_and_parameters() {
    let m = parse_method(String::from("at: i put: v ^i")).unwrap();
    let AST::Method { name, params, temps, body } = &m[0] else { panic!("method expected") };
    assert_eq!("at:put:", name);
    assert_eq!(&vec![String::from("i"), String::from("v")], params);
    assert!(temps.is_empty());
    let AST::Statements(v) = &**body else { panic!("statements expected") };
    assert!(matches!(&v[0], AST::Return(e) if matches!(&**e, AST::Variable(i) if i == "i")));
}
