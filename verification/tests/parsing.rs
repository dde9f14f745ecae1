use dis::errors::ParseErrorKind;
use dis::lexer::{Lexer, Location, Token};
use dis::statement::{Op, Statement};

fn chars(s: &str) -> Vec<char> {
    s.chars().collect()
}

fn tokens_of(src: &str) -> Vec<Token> {
    let mut lexer = Lexer::new(chars("test.dis"), chars(src));
    lexer.tokens().expect("lexing should succeed")
}

fn parse_one(src: &str) -> Statement {
    let mut toks = tokens_of(src);
    Statement::parse(&mut toks)
        .expect("parsing should succeed")
        .expect("one statement expected")
}

fn parse_err(src: &str) -> ParseErrorKind {
    let mut toks = tokens_of(src);
    match Statement::parse(&mut toks) {
        Err(e) => e.kind,
        Ok(_) => panic!("parse of `{}` should fail", src),
    }
}

#[test]
fn mov_takes_a_value_and_a_place() {
    let s = parse_one("mov .A #0");
    assert!(matches!(s.op, Op::MOV(_)));
    assert!(s.label.is_none());
    assert_eq!(s.body.len(), 2);
    assert!(matches!(s.body[0], Token::Char { .. }));
    assert!(matches!(s.body[1], Token::Register { .. }));
}

#[test]
fn a_label_attaches_to_its_statement() {
    let s = parse_one("top: add 1 #0");
    match &s.label {
        Some(Token::Label { value, .. }) => {
            assert_eq!(value.iter().collect::<String>(), "top")
        },
        other => panic!("expected a label, got {:?}", other.is_some()),
    }
    assert!(matches!(s.op, Op::ADD(_)));
}

#[test]
fn a_label_alone_at_stream_end_is_a_nop() {
    let s = parse_one("stop:");
    assert!(matches!(s.op, Op::NOP));
    assert!(s.label.is_some());
    assert_eq!(s.body.len(), 0);
}

#[test]
fn empty_stream_parses_to_nothing() {
    let mut toks: Vec<Token> = Vec::new();
    assert!(Statement::parse(&mut toks).unwrap().is_none());
}

#[test]
fn parse_consumes_only_one_statement() {
    let mut toks = tokens_of("die ret");
    let first = Statement::parse(&mut toks).unwrap().unwrap();
    assert!(matches!(first.op, Op::DIE(_)));
    let second = Statement::parse(&mut toks).unwrap().unwrap();
    assert!(matches!(second.op, Op::RET(_)));
    assert!(Statement::parse(&mut toks).unwrap().is_none());
}

#[test]
fn statement_must_begin_with_keyword_or_label() {
    assert_eq!(parse_err("5 mov"), ParseErrorKind::ExpectedKeywordOrLabel);
}

#[test]
fn after_a_label_a_keyword_must_follow() {
    assert_eq!(parse_err("a: b: mov 1 #0"), ParseErrorKind::ExpectedKeyword);
}

#[test]
fn missing_operands_are_reported_at_the_keyword() {
    let mut toks = tokens_of("out mov 5");
    // `mov` swallows the two following words, leaving `out` short one operand:
    // here we check the simpler direct case instead
    toks.truncate(1);
    let e = Statement::parse(&mut toks).unwrap_err();
    assert_eq!(e.kind, ParseErrorKind::MissingOperand);
    assert_eq!((e.loc.line, e.loc.column), (1, 1));
    assert_eq!(parse_err("mov 5"), ParseErrorKind::MissingOperand);
    assert_eq!(parse_err("rln &0"), ParseErrorKind::MissingOperand);
}

#[test]
fn a_keyword_is_no_value_operand() {
    assert_eq!(parse_err("mov ret #0"), ParseErrorKind::ExpectedValue);
}

#[test]
fn a_number_is_no_place() {
    assert_eq!(parse_err("mov 5 6"), ParseErrorKind::ExpectedPlace);
    assert_eq!(parse_err("rdn 6"), ParseErrorKind::ExpectedPlace);
}

#[test]
fn jumps_want_a_bare_label_name() {
    assert_eq!(parse_err("jmp #0"), ParseErrorKind::ExpectedLabelName);
    assert_eq!(parse_err("run 5"), ParseErrorKind::ExpectedLabelName);
}

#[test]
fn rln_wants_memory_first() {
    assert_eq!(parse_err("rln #0 5"), ParseErrorKind::ExpectedMemory);
}

#[test]
fn unknown_registers_are_rejected() {
    assert_eq!(parse_err("mov 5 #9"), ParseErrorKind::UnknownRegister);
    assert_eq!(parse_err("mov #zz #0"), ParseErrorKind::UnknownRegister);
}

#[test]
fn memory_addresses_must_fit_the_memory() {
    assert_eq!(parse_err("mov 5 &4096"), ParseErrorKind::BadAddress);
    assert_eq!(parse_err("mov &x #0"), ParseErrorKind::BadAddress);
    // the largest valid address is fine
    let s = parse_one("mov 5 &4095");
    assert!(matches!(s.op, Op::MOV(_)));
}

#[test]
fn nop_is_not_a_keyword() {
    // a lone label is the only way to a NOP: `nop` itself is an identifier
    assert_eq!(parse_err("a: nop"), ParseErrorKind::ExpectedKeyword);
}

#[test]
fn handmade_unknown_keyword_is_rejected() {
    let loc = Location { file: chars("t"), line: 1, column: 1 };
    let mut toks = vec![Token::Keyword { value: chars("xyz"), loc }];
    let e = Statement::parse(&mut toks).unwrap_err();
    assert_eq!(e.kind, ParseErrorKind::UnknownKeyword);
}

#[test]
fn error_cites_the_offending_token() {
    let mut toks = tokens_of("mov 5\n  6");
    let e = Statement::parse(&mut toks).unwrap_err();
    assert_eq!(e.kind, ParseErrorKind::ExpectedPlace);
    assert_eq!((e.loc.line, e.loc.column), (2, 3));
}

#[test]
fn statement_render_gives_source_form() {
    let s = parse_one("x: mov .A &#3");
    assert_eq!(s.render().iter().collect::<String>(), "x: mov .A &#3");
    let s = parse_one("stop:");
    assert_eq!(s.render().iter().collect::<String>(), "stop:");
    let s = parse_one("ret");
    assert_eq!(s.render().iter().collect::<String>(), "ret");
}

#[test]
fn lexing_a_rendered_statement_gives_its_tokens_back() {
    // print a parsed statement and lex the text again: the same words come out
    let s = parse_one("x: rln &#2 7");
    let rendered: String = s.render().iter().collect();
    let mut lexer = Lexer::new(chars("t"), rendered.chars().collect());
    let toks = lexer.tokens().unwrap();
    let words: Vec<String> = toks.iter().map(|t| t.render().iter().collect()).collect();
    assert_eq!(words, vec!["x:", "rln", "&#2", "7"]);
}
