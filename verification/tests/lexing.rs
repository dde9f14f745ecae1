use dis::lexer::{Lexer, Token};

fn chars(s: &str) -> Vec<char> {
    s.chars().collect()
}

fn lex(src: &str) -> Vec<Token> {
    let mut lexer = Lexer::new(chars("test.dis"), chars(src));
    lexer.tokens().expect("lexing should succeed")
}

fn value_of(t: &Token) -> String {
    match t {
        Token::Keyword { value, .. } => format!("kw:{}", value.iter().collect::<String>()),
        Token::Label { value, .. } => format!("lbl:{}", value.iter().collect::<String>()),
        Token::Char { value, .. } => format!("ch:{}", value),
        Token::Number { value, .. } => format!("num:{}", value),
        Token::Register { value, .. } => format!("reg:{}", value.iter().collect::<String>()),
        Token::Memory { value, .. } => format!("mem:{}", value.iter().collect::<String>()),
        Token::Identifier { value, .. } => format!("id:{}", value.iter().collect::<String>()),
    }
}

#[test]
fn classifies_every_kind() {
    let toks = lex("mov .H x: #3 &10 &#0 42 hello");
    let got: Vec<String> = toks.iter().map(value_of).collect();
    assert_eq!(
        got,
        vec!["kw:mov", "ch:H", "lbl:x", "reg:3", "mem:10", "mem:#0", "num:42", "id:hello"]
    );
}

#[test]
fn recognises_all_keywords() {
    let src = "mov add sub cmp jmp jlt jgt jeq jne run ret die out prt @ rdn rdc rln dbg";
    let toks = lex(src);
    assert_eq!(toks.len(), 19);
    for t in &toks {
        assert!(matches!(t, Token::Keyword { .. }), "not a keyword: {}", value_of(t));
    }
}

#[test]
fn char_wins_over_label() {
    // a word starting with `.` is a character literal even when it ends in `:`
    let toks = lex(".x:");
    assert_eq!(toks.len(), 1);
    assert_eq!(value_of(&toks[0]), "ch:x");
}

#[test]
fn label_wins_over_register() {
    // the label rule is tried before the register rule
    let toks = lex("#x:");
    assert_eq!(toks.len(), 1);
    assert_eq!(value_of(&toks[0]), "lbl:#x");
}

#[test]
fn comments_run_to_end_of_line() {
    let toks = lex("mov - the rest is ignored\nadd");
    let got: Vec<String> = toks.iter().map(value_of).collect();
    assert_eq!(got, vec!["kw:mov", "kw:add"]);
}

#[test]
fn number_too_big_is_identifier() {
    let toks = lex("65535 65536");
    assert_eq!(value_of(&toks[0]), "num:65535");
    assert_eq!(value_of(&toks[1]), "id:65536");
}

#[test]
fn signed_number_is_identifier() {
    // only plain digit strings are numbers
    let toks = lex("+5");
    assert_eq!(value_of(&toks[0]), "id:+5");
}

#[test]
fn lone_dot_is_a_lexical_error() {
    let mut lexer = Lexer::new(chars("test.dis"), chars("mov . #0"));
    let err = lexer.tokens().expect_err("a lone dot is malformed");
    assert_eq!(err.loc.line, 1);
    assert_eq!(err.loc.column, 5);
}

#[test]
fn empty_source_has_no_tokens() {
    assert_eq!(lex("").len(), 0);
    assert_eq!(lex("   \n\t  ").len(), 0);
    assert_eq!(lex("- only a comment").len(), 0);
}

#[test]
fn locations_are_one_based_lines_and_columns() {
    let toks = lex("mov\n  add");
    let l0 = toks[0].loc();
    assert_eq!((l0.line, l0.column), (1, 1));
    assert_eq!(l0.file.iter().collect::<String>(), "test.dis");
    let l1 = toks[1].loc();
    assert_eq!((l1.line, l1.column), (2, 3));
}

#[test]
fn next_token_walks_the_stream() {
    let mut lexer = Lexer::new(chars("t.dis"), chars("jmp top"));
    let t1 = lexer.next_token().unwrap().unwrap();
    assert_eq!(value_of(&t1), "kw:jmp");
    let t2 = lexer.next_token().unwrap().unwrap();
    assert_eq!(value_of(&t2), "id:top");
    assert!(lexer.next_token().unwrap().is_none());
}

#[test]
fn token_render_gives_source_form() {
    let toks = lex("mov .H x: #3 &10 &#0 42 hello");
    let words: Vec<String> = toks.iter().map(|t| t.render().iter().collect()).collect();
    assert_eq!(words, vec!["mov", ".H", "x:", "#3", "&10", "&#0", "42", "hello"]);
}

#[test]
fn lexing_a_rendered_token_gives_it_back() {
    // the lex -> print round trip, on each token kind
    for src in ["mov", ".H", "x:", "#3", "&10", "&#0", "42", "hello"] {
        let toks = lex(src);
        assert_eq!(toks.len(), 1, "{}", src);
        let rendered: String = toks[0].render().iter().collect();
        let again = lex(&rendered);
        assert_eq!(again.len(), 1, "{}", src);
        assert_eq!(value_of(&again[0]), value_of(&toks[0]), "{}", src);
    }
}
