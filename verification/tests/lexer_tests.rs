use xeon::lexer::{Lexer, Token, TokenSpan};

fn all_tokens(src: &str) -> Vec<TokenSpan> {
    let mut lexer = Lexer::new(src);
    let mut out = Vec::new();
    loop {
        let t = lexer.next_token();
        let end = matches!(t.token, Token::Eof);
        out.push(t);
        if end {
            break;
        }
    }
    out
}

fn ident(t: &Token) -> Option<&str> {
    match t {
        Token::Identifier(s) => Some(s.as_str()),
        _ => None,
    }
}

#[test]
fn import_line_tokens() {
    let toks = all_tokens("import { Button, Text } from \"@xeon/ui\";");
    assert_eq!(toks.len(), 10);
    assert!(matches!(toks[0].token, Token::Import));
    assert!(matches!(toks[1].token, Token::OpenBrace));
    assert_eq!(ident(&toks[2].token), Some("Button"));
    assert!(matches!(toks[3].token, Token::Comma));
    assert_eq!(ident(&toks[4].token), Some("Text"));
    assert!(matches!(toks[5].token, Token::CloseBrace));
    assert!(matches!(toks[6].token, Token::From));
    match &toks[7].token {
        Token::StringLiteral(s) => assert_eq!(s, "@xeon/ui"),
        other => panic!("unexpected {:?}", other),
    }
    assert!(matches!(toks[8].token, Token::Semicolon));
    assert!(matches!(toks[9].token, Token::Eof));
}

#[test]
fn keywords_and_punctuation() {
    let toks = all_tokens("component return let ( ) [ ] < > / = => ,");
    let expected = [
        "Component", "Return", "Let", "OpenParen", "CloseParen", "OpenBracket", "CloseBracket",
        "AngleOpen", "AngleClose", "Slash", "Assign", "Arrow", "Comma", "Eof",
    ];
    let got: Vec<String> = toks.iter().map(|t| format!("{:?}", t.token)).collect();
    assert_eq!(got, expected);
}

#[test]
fn positions_count_lines_and_columns() {
    // Each token is reported at the line and column where it starts.
    let toks = all_tokens("let x\n  <Tag>\n\n\t\"s\" y");
    let pos: Vec<(usize, usize)> = toks.iter().map(|t| (t.line, t.col)).collect();
    assert_eq!(pos, vec![(1, 1), (1, 5), (2, 3), (2, 4), (2, 7), (4, 2), (4, 6), (4, 7)]);
    assert!(matches!(toks[7].token, Token::Eof));
}

#[test]
fn eof_repeats_at_same_place() {
    let mut lexer = Lexer::new("a  \n ");
    let a = lexer.next_token();
    assert_eq!(ident(&a.token), Some("a"));
    let e1 = lexer.next_token();
    let e2 = lexer.next_token();
    assert!(matches!(e1.token, Token::Eof));
    assert!(matches!(e2.token, Token::Eof));
    assert_eq!((e1.line, e1.col), (2, 2));
    assert_eq!((e2.line, e2.col), (2, 2));
}

#[test]
fn peek_does_not_advance() {
    let mut lexer = Lexer::new("  <Button");
    let p = lexer.peek_token();
    assert!(matches!(p.token, Token::AngleOpen));
    assert_eq!((p.line, p.col), (1, 3));
    let n = lexer.next_token();
    assert!(matches!(n.token, Token::AngleOpen));
    assert_eq!((n.line, n.col), (1, 3));
    let p2 = lexer.peek_token();
    let n2 = lexer.next_token();
    assert_eq!(ident(&p2.token), Some("Button"));
    assert_eq!(ident(&n2.token), Some("Button"));
}

#[test]
fn unterminated_string_runs_to_end() {
    let toks = all_tokens("\"abc def");
    match &toks[0].token {
        Token::StringLiteral(s) => assert_eq!(s, "abc def"),
        other => panic!("unexpected {:?}", other),
    }
    assert!(matches!(toks[1].token, Token::Eof));
    assert_eq!((toks[1].line, toks[1].col), (1, 9));
}

#[test]
fn numbers_read_one_digit_per_token() {
    let toks = all_tokens("42");
    assert_eq!(toks.len(), 3);
    assert!(matches!(toks[0].token, Token::NumberLiteral('4')));
    assert!(matches!(toks[1].token, Token::NumberLiteral('2')));
    assert_eq!(toks[1].col, 2);
}

#[test]
fn identifiers_take_letters_digits_and_underscores() {
    let toks = all_tokens("is_loading2 _x");
    assert_eq!(ident(&toks[0].token), Some("is_loading2"));
    assert!(matches!(toks[1].token, Token::Illegal('_')));
    assert_eq!(ident(&toks[2].token), Some("x"));
}

#[test]
fn unicode_letters_digits_and_spaces() {
    // 'é' is alphabetic, '٣' (Arabic-Indic three) is numeric, U+00A0 is whitespace.
    let toks = all_tokens("caf\u{e9}\u{a0}\u{663} .");
    assert_eq!(ident(&toks[0].token), Some("caf\u{e9}"));
    assert!(matches!(toks[1].token, Token::NumberLiteral('\u{663}')));
    assert_eq!(toks[1].col, 6);
    assert!(matches!(toks[2].token, Token::Illegal('.')));
}

#[test]
fn identifier_continues_through_unicode_digits() {
    let toks = all_tokens("x\u{663}y");
    assert_eq!(ident(&toks[0].token), Some("x\u{663}y"));
    assert!(matches!(toks[1].token, Token::Eof));
}

#[test]
fn equals_alone_is_assign() {
    let toks = all_tokens("= >=>");
    assert!(matches!(toks[0].token, Token::Assign));
    assert!(matches!(toks[1].token, Token::AngleClose));
    assert!(matches!(toks[2].token, Token::Arrow));
}

#[test]
fn fields_line_and_col_are_public() {
    let mut lexer = Lexer::new("\nab");
    assert_eq!((lexer.line, lexer.col), (1, 1));
    let t = lexer.next_token();
    assert_eq!((t.line, t.col), (2, 1));
    assert_eq!((lexer.line, lexer.col), (2, 3));
}

#[test]
fn dot_is_an_illegal_token() {
    let toks = all_tokens("console.log");
    assert_eq!(ident(&toks[0].token), Some("console"));
    assert!(matches!(toks[1].token, Token::Illegal('.')));
    assert_eq!(toks[1].col, 8);
    assert_eq!(ident(&toks[2].token), Some("log"));
}

#[test]
fn positions_never_go_back() {
    let mut lexer = Lexer::new("a\n  \"x\ny\" b");
    let mut last = (lexer.line, lexer.col);
    loop {
        let t = lexer.next_token();
        assert!((t.line, t.col) >= last);
        if matches!(t.token, Token::Eof) {
            assert_eq!((lexer.line, lexer.col), (t.line, t.col));
            break;
        }
        assert!((lexer.line, lexer.col) > (t.line, t.col));
        last = (lexer.line, lexer.col);
    }
}
