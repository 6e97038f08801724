use scriptlang::error::ScriptError;
use scriptlang::lexer::{tokenise, DataStream, Op, Token, TokenStream, TokenType};

fn kinds(src: &str) -> Vec<TokenType> {
    tokenise(src.to_string()).unwrap().tokens.into_iter().map(|t| t.token_type).collect()
}

#[test]
fn compound_operators_are_single_tokens() {
    let cases = [
        ("+=", Op::PlusAssign),
        ("-=", Op::MinusAssign),
        ("*=", Op::StarAssign),
        ("/=", Op::SlashAssign),
        ("==", Op::EqEq),
        ("!=", Op::NotEq),
        (">=", Op::Ge),
        ("<=", Op::Le),
        ("&&", Op::AndAnd),
        ("||", Op::OrOr),
    ];
    for (text, op) in cases {
        let ts = kinds(text);
        assert_eq!(ts.len(), 2, "{}", text);
        match &ts[0] {
            TokenType::Operator(o) => assert_eq!(*o, op),
            other => panic!("{:?}", other),
        }
        assert!(matches!(ts[1], TokenType::EOF));
        assert_eq!(op.text().iter().collect::<String>(), text);
    }
}

#[test]
fn single_character_operators() {
    let ts = kinds("+ * / = ! > < & | %");
    let ops: Vec<Op> = ts
        .iter()
        .filter_map(|t| match t {
            TokenType::Operator(o) => Some(*o),
            _ => None,
        })
        .collect();
    assert_eq!(
        ops,
        vec![Op::Plus, Op::Star, Op::Slash, Op::Assign, Op::Bang, Op::Gt, Op::Lt, Op::Amp, Op::Pipe, Op::Percent]
    );
}

#[test]
fn keywords_and_identifiers() {
    let ts = kinds("let if elseif else loop print break true false name1");
    assert!(matches!(ts[0], TokenType::Let));
    assert!(matches!(ts[1], TokenType::If));
    assert!(matches!(ts[2], TokenType::ElseIf));
    assert!(matches!(ts[3], TokenType::Else));
    assert!(matches!(ts[4], TokenType::Loop));
    assert!(matches!(ts[5], TokenType::Print));
    assert!(matches!(ts[6], TokenType::Break));
    assert!(matches!(ts[7], TokenType::Boolean(true)));
    assert!(matches!(ts[8], TokenType::Boolean(false)));
    match &ts[9] {
        TokenType::Identifier(s) => assert_eq!(s.iter().collect::<String>(), "name1"),
        other => panic!("{:?}", other),
    }
    assert!(matches!(ts[10], TokenType::EOF));
}

#[test]
fn numerals_and_negative_literal_heuristic() {
    let ts = kinds("x=-4");
    assert!(matches!(ts[2], TokenType::Integer(-4)));
    let ts = kinds("3-4");
    assert!(matches!(ts[0], TokenType::Integer(3)));
    assert!(matches!(ts[1], TokenType::Operator(Op::Minus)));
    assert!(matches!(ts[2], TokenType::Integer(4)));
    let ts = kinds("-2.5");
    match &ts[0] {
        TokenType::Float(t) => assert_eq!(t.iter().collect::<String>(), "-2.5"),
        other => panic!("{:?}", other),
    }
}

#[test]
fn brackets_newlines_and_strings() {
    let ts = kinds("( ) { } ;\n'a b' \"c\" .");
    assert!(matches!(ts[0], TokenType::OpenBracket));
    assert!(matches!(ts[1], TokenType::CloseBracket));
    assert!(matches!(ts[2], TokenType::OpenCurlyBracket));
    assert!(matches!(ts[3], TokenType::CloseCurlyBracket));
    assert!(matches!(ts[4], TokenType::EOL));
    assert!(matches!(ts[5], TokenType::EOL));
    match &ts[6] {
        TokenType::StringLiteral(s) => assert_eq!(s.iter().collect::<String>(), "a b"),
        other => panic!("{:?}", other),
    }
    match &ts[7] {
        TokenType::StringLiteral(s) => assert_eq!(s.iter().collect::<String>(), "c"),
        other => panic!("{:?}", other),
    }
    assert!(matches!(ts[8], TokenType::Punctuation('.')));
    assert!(matches!(ts[9], TokenType::EOF));
}

#[test]
fn empty_source_is_just_eof() {
    let ts = kinds("  \t ");
    assert_eq!(ts.len(), 1);
    assert!(matches!(ts[0], TokenType::EOF));
}

#[test]
fn lexical_error_positions() {
    assert!(matches!(tokenise("ab 'cd".to_string()), Err(ScriptError::Lexical(3))));
    assert!(matches!(tokenise("1..2".to_string()), Err(ScriptError::Lexical(0))));
    assert!(matches!(tokenise("x # y".to_string()), Err(ScriptError::Lexical(2))));
}

#[test]
fn token_extractors() {
    let t = TokenType::Integer(9);
    assert_eq!(t.extract_int_value(), Some(9));
    assert_eq!(t.extract_bool_value(), None);
    assert_eq!(TokenType::Boolean(true).extract_bool_value(), Some(true));
    assert_eq!(TokenType::Operator(Op::Le).extract_operator(), Some(Op::Le));
    let name = TokenType::Identifier(vec!['a', 'b']);
    assert_eq!(name.extract_str_value(), Some(vec!['a', 'b']));
    assert_eq!(TokenType::Punctuation('.').extract_str_value(), Some(vec!['.']));
    let f = TokenType::Float(vec!['1', '.', '5']);
    assert_eq!(f.extract_float_value(), Some(&vec!['1', '.', '5']));
    assert!(TokenType::check_reserved_keywords(&vec!['l', 'e', 't']).is_some());
    assert!(TokenType::check_reserved_keywords(&vec!['l', 'e']).is_none());
}

#[test]
fn data_stream_reads_in_order() {
    let mut ds = DataStream { characters: Vec::new(), current_pos: 0 };
    ds.push('a');
    ds.push('b');
    assert_eq!(ds.at(), 'a');
    ds.pop();
    assert_eq!(ds.at(), 'b');
    assert_eq!(ds.current_pos, 1);
}

#[test]
fn token_stream_reads_in_order() {
    let mut ts = TokenStream { tokens: Vec::new(), current_pos: 0 };
    ts.push(Token { token_type: TokenType::Integer(1) });
    ts.push(Token { token_type: TokenType::EOF });
    assert!(matches!(ts.at().token_type, TokenType::Integer(1)));
    ts.pop();
    assert!(matches!(ts.current().token_type, TokenType::EOF));
}
