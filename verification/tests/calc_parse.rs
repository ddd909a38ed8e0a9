use hako::calc::{lex, parse_line, repl_action, Instr, NumLit, Op, ReplAction, Token};

fn dec_text(t: &Token) -> Option<&str> {
    match t {
        Token::Number(NumLit::Dec(s)) => Some(s.as_str()),
        _ => None,
    }
}

#[test]
fn lexes_hex_and_binary_literals() {
    let ts = lex("0xff + 0b1010").unwrap();
    assert_eq!(ts.len(), 4);
    assert!(matches!(ts[0], Token::Number(NumLit::Int(255))));
    assert!(matches!(ts[1], Token::Plus));
    assert!(matches!(ts[2], Token::Number(NumLit::Int(10))));
    assert!(matches!(ts[3], Token::Eof));
}

#[test]
fn lexes_decimal_literals() {
    let ts = lex(".5 + 1.25").unwrap();
    assert_eq!(dec_text(&ts[0]), Some(".5"));
    assert_eq!(dec_text(&ts[2]), Some("1.25"));
}

#[test]
fn lex_errors() {
    assert_eq!(lex("2 $ 3").err().unwrap(), "unexpected character: $");
    assert_eq!(lex("0x").err().unwrap(), "expected hex digits");
    assert_eq!(lex("0b").err().unwrap(), "expected binary digits");
    assert_eq!(lex("0x1ffffffffffffffff").err().unwrap(), "hex literal too large");
}

#[test]
fn lexes_keywords_and_names() {
    let ts = lex("let block = x_1").unwrap();
    assert!(matches!(ts[0], Token::Let));
    assert!(matches!(&ts[1], Token::Ident(n) if n == "block"));
    assert!(matches!(ts[2], Token::Equal));
    assert!(matches!(&ts[3], Token::Ident(n) if n == "x_1"));
}

#[test]
fn parses_precedence_into_evaluation_order() {
    let p = parse_line(&lex("2 + 3 * 4").unwrap());
    assert!(p.let_name.is_none());
    assert!(p.error.is_none());
    assert_eq!(p.code.len(), 5);
    assert!(matches!(p.code[3], Instr::Bin(Op::Mul)));
    assert!(matches!(p.code[4], Instr::Bin(Op::Add)));

    let p = parse_line(&lex("(2 + 3) * 4").unwrap());
    assert!(p.error.is_none());
    assert!(matches!(p.code[2], Instr::Bin(Op::Add)));
    assert!(matches!(p.code[4], Instr::Bin(Op::Mul)));
}

#[test]
fn parses_unary_minus_below_power() {
    // -2 ^ 3 is -(2 ^ 3)
    let p = parse_line(&lex("-2 ^ 3").unwrap());
    assert!(p.error.is_none());
    assert_eq!(p.code.len(), 4);
    assert!(matches!(p.code[2], Instr::Bin(Op::Pow)));
    assert!(matches!(p.code[3], Instr::Neg));
}

#[test]
fn parses_let_binding() {
    let p = parse_line(&lex("let pages = 128").unwrap());
    assert_eq!(p.let_name.as_deref(), Some("pages"));
    assert!(p.error.is_none());
    assert_eq!(p.code.len(), 1);
}

#[test]
fn rejects_bad_let_names() {
    let p = parse_line(&lex("let 1x = 2").unwrap());
    let e = p.error.unwrap();
    assert_eq!(e.expected, "variable name");
    assert!(matches!(e.found, Token::Number(_)));
}

#[test]
fn reports_trailing_tokens() {
    let p = parse_line(&lex("1 2").unwrap());
    let e = p.error.unwrap();
    assert_eq!(e.expected, "end of input");
}

#[test]
fn repl_actions() {
    assert!(matches!(repl_action(" :q \n"), ReplAction::Quit));
    assert!(matches!(repl_action(":quit"), ReplAction::Quit));
    assert!(matches!(repl_action("   \n"), ReplAction::Skip));
    assert!(matches!(repl_action(" x * 3\n"), ReplAction::Eval(ref s) if s == "x * 3"));
}
