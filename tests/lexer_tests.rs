use wheelc::lexer::{Lexer, Token};

fn tokens(src: &str) -> Vec<Token> {
    let mut lx = Lexer::new(src);
    let mut out = Vec::new();
    loop {
        let t = lx.next_token();
        if matches!(t, Token::EOF) {
            break;
        }
        out.push(t);
    }
    out
}

fn ident(t: &Token) -> Option<String> {
    match t {
        Token::Ident(s) => Some(s.clone()),
        _ => None,
    }
}

#[test]
fn keywords_are_recognized() {
    let ts = tokens("let func return import from use in range set struct print if else then while for");
    assert_eq!(ts.len(), 16);
    assert!(matches!(ts[0], Token::Let));
    assert!(matches!(ts[1], Token::Func));
    assert!(matches!(ts[2], Token::Return));
    assert!(matches!(ts[3], Token::Import));
    assert!(matches!(ts[4], Token::From));
    assert!(matches!(ts[5], Token::Use));
    assert!(matches!(ts[6], Token::In));
    assert!(matches!(ts[7], Token::Range));
    assert!(matches!(ts[8], Token::SetKw));
    assert!(matches!(ts[9], Token::Struct));
    assert!(matches!(ts[10], Token::Print));
    assert!(matches!(ts[11], Token::If));
    assert!(matches!(ts[12], Token::Else));
    assert!(matches!(ts[13], Token::Then));
    assert!(matches!(ts[14], Token::While));
    assert!(matches!(ts[15], Token::For));
}

#[test]
fn keywords_are_case_sensitive_and_words_extend() {
    let ts = tokens("Let lets _x1 a_b9");
    let names: Vec<String> = ts.iter().map(|t| ident(t).unwrap()).collect();
    assert_eq!(names, vec!["Let", "lets", "_x1", "a_b9"]);
}

#[test]
fn operators_and_punctuation() {
    let ts = tokens("+ - * / % ( ) { } [ ] , : # ; = == < <= > >= !=");
    assert_eq!(ts.len(), 22);
    assert!(matches!(ts[0], Token::Plus));
    assert!(matches!(ts[1], Token::Minus));
    assert!(matches!(ts[2], Token::Star));
    assert!(matches!(ts[3], Token::Slash));
    assert!(matches!(ts[4], Token::Percent));
    assert!(matches!(ts[5], Token::LParen));
    assert!(matches!(ts[6], Token::RParen));
    assert!(matches!(ts[7], Token::LBrace));
    assert!(matches!(ts[8], Token::RBrace));
    assert!(matches!(ts[9], Token::LBracket));
    assert!(matches!(ts[10], Token::RBracket));
    assert!(matches!(ts[11], Token::Comma));
    assert!(matches!(ts[12], Token::Colon));
    assert!(matches!(ts[13], Token::Hash));
    assert!(matches!(ts[14], Token::Semicolon));
    assert!(matches!(ts[15], Token::Eq));
    assert!(matches!(ts[16], Token::EqEq));
    assert!(matches!(ts[17], Token::Lt));
    assert!(matches!(ts[18], Token::LtEq));
    assert!(matches!(ts[19], Token::Gt));
    assert!(matches!(ts[20], Token::GtEq));
    assert!(matches!(ts[21], Token::NotEq));
}

#[test]
fn operators_merge_without_spaces() {
    let ts = tokens("a<=b==c");
    assert_eq!(ts.len(), 5);
    assert!(matches!(ts[1], Token::LtEq));
    assert!(matches!(ts[3], Token::EqEq));
}

#[test]
fn lone_bang_is_an_identifier() {
    let ts = tokens("! x");
    assert_eq!(ident(&ts[0]).unwrap(), "!");
    assert_eq!(ident(&ts[1]).unwrap(), "x");
}

#[test]
fn integer_literals() {
    let ts = tokens("0 42 007 9223372036854775807");
    let vals: Vec<i64> = ts
        .iter()
        .map(|t| match t {
            Token::Int(v) => *v,
            _ => panic!("not an integer"),
        })
        .collect();
    assert_eq!(vals, vec![0, 42, 7, i64::MAX]);
}

#[test]
fn integer_literal_too_large_reads_as_zero() {
    let ts = tokens("9223372036854775808 99999999999999999999");
    assert!(matches!(ts[0], Token::Int(0)));
    assert!(matches!(ts[1], Token::Int(0)));
}

#[test]
fn digits_then_letters_split() {
    let ts = tokens("12abc");
    assert!(matches!(ts[0], Token::Int(12)));
    assert_eq!(ident(&ts[1]).unwrap(), "abc");
}

#[test]
fn string_literals_are_verbatim() {
    let ts = tokens("\"hello, world\" \"a\\nb\" \"h\u{e9}llo\"");
    match (&ts[0], &ts[1], &ts[2]) {
        (Token::Str(a), Token::Str(b), Token::Str(c)) => {
            assert_eq!(a, "hello, world");
            assert_eq!(b, "a\\nb");
            assert_eq!(c, "h\u{e9}llo");
        }
        _ => panic!("expected three strings"),
    }
}

#[test]
fn unterminated_string_runs_to_end() {
    let ts = tokens("print(\"abc");
    assert_eq!(ts.len(), 3);
    match &ts[2] {
        Token::Str(s) => assert_eq!(s, "abc"),
        _ => panic!("expected a string"),
    }
}

#[test]
fn unknown_characters_are_skipped() {
    let ts = tokens("@ $ ` x \u{e9} ?");
    assert_eq!(ts.len(), 1);
    assert_eq!(ident(&ts[0]).unwrap(), "x");
}

#[test]
fn end_of_input_repeats() {
    let mut lx = Lexer::new("x");
    assert!(matches!(lx.next_token(), Token::Ident(_)));
    assert!(matches!(lx.next_token(), Token::EOF));
    assert!(matches!(lx.next_token(), Token::EOF));
    assert!(matches!(Lexer::new("").next_token(), Token::EOF));
    assert!(matches!(Lexer::new("  \n\t ").next_token(), Token::EOF));
}
