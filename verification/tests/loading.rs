use dis::dis::{IoBuf, StepOutcome, DIS};
use dis::errors::LoadError;
use dis::loader::Loader;

fn chars(s: &str) -> Vec<char> {
    s.chars().collect()
}

fn text(v: &[char]) -> String {
    v.iter().collect()
}

#[test]
fn a_single_file_loads_and_links() {
    let mut loader = Loader::new(chars("main.dis"));
    assert_eq!(text(loader.pending_path().unwrap()), "main.dis");
    loader.supply(chars("top: out .A jmp top")).unwrap();
    assert!(loader.is_done());
    let program = loader.finish();
    assert_eq!(program.len(), 2);
    let mut m = DIS::new();
    m.load(program).unwrap();
    assert_eq!(m.program_len(), 2);
    assert_eq!(m.find_label(&chars("top")), Some(0));
    assert_eq!(m.find_label(&chars("absent")), None);
}

#[test]
fn imports_splice_in_place() {
    // main imports lib, whose statements land where the `@` stood
    let mut loader = Loader::new(chars("main.dis"));
    loader.supply(chars("out .A @ lib out .C die")).unwrap();
    assert_eq!(text(loader.pending_path().unwrap()), "lib.dis");
    loader.supply(chars("out .B")).unwrap();
    assert!(loader.is_done());
    let mut m = DIS::new();
    m.load(loader.finish()).unwrap();
    let mut io = IoBuf::new();
    assert_eq!(m.run(&mut io, 1000), Ok(StepOutcome::Halted));
    assert_eq!(String::from_utf8(io.output).unwrap(), "ABC");
}

#[test]
fn imports_resolve_beside_the_importing_file() {
    let mut loader = Loader::new(chars("examples/deep/main.dis"));
    loader.supply(chars("@ helper die")).unwrap();
    assert_eq!(text(loader.pending_path().unwrap()), "examples/deep/helper.dis");
}

#[test]
fn an_unreadable_import_is_an_error() {
    let mut loader = Loader::new(chars("main.dis"));
    loader.supply(chars("@ gone die")).unwrap();
    assert_eq!(text(loader.pending_path().unwrap()), "gone.dis");
    match loader.fail_pending() {
        LoadError::ImportIo { loc, path } => {
            assert_eq!(text(&path), "gone.dis");
            assert_eq!(text(&loc.file), "main.dis");
            assert_eq!((loc.line, loc.column), (1, 1));
        },
        _ => panic!("expected an import error"),
    }
    assert!(loader.is_failed());
}

#[test]
fn circular_imports_are_refused_at_the_second_site() {
    // file A pulls in B, and B pulls A back in
    let mut loader = Loader::new(chars("A.dis"));
    loader.supply(chars("@ B")).unwrap();
    assert_eq!(text(loader.pending_path().unwrap()), "B.dis");
    match loader.supply(chars("@ A")) {
        Err(LoadError::CircularImport { loc, path }) => {
            assert_eq!(text(&path), "A.dis");
            assert_eq!(text(&loc.file), "B.dis");
            assert_eq!((loc.line, loc.column), (1, 1));
        },
        other => panic!("expected a circular import, got ok={}", other.is_ok()),
    }
    assert!(loader.is_failed());
}

#[test]
fn a_file_may_import_itself_only_once() {
    let mut loader = Loader::new(chars("A.dis"));
    match loader.supply(chars("@ A")) {
        Err(LoadError::CircularImport { path, .. }) => {
            assert_eq!(text(&path), "A.dis");
        },
        other => panic!("expected a circular import, got ok={}", other.is_ok()),
    }
}

#[test]
fn duplicate_labels_cite_both_sites() {
    let mut loader = Loader::new(chars("main.dis"));
    loader.supply(chars("a: die\na: die")).unwrap();
    let mut m = DIS::new();
    match m.load(loader.finish()) {
        Err(LoadError::DuplicateLabel { name, first, second }) => {
            assert_eq!(text(&name), "a");
            assert_eq!((first.line, first.column), (1, 1));
            assert_eq!((second.line, second.column), (2, 1));
        },
        other => panic!("expected a duplicate label, got ok={}", other.is_ok()),
    }
    // a failed load leaves the machine fresh
    assert_eq!(m.program_len(), 0);
    assert!(!m.halted());
}

#[test]
fn undefined_labels_are_refused() {
    let mut loader = Loader::new(chars("main.dis"));
    loader.supply(chars("jmp nowhere\ndie")).unwrap();
    let mut m = DIS::new();
    match m.load(loader.finish()) {
        Err(LoadError::UndefinedLabel { name, loc }) => {
            assert_eq!(text(&name), "nowhere");
            assert_eq!((loc.line, loc.column), (1, 5));
        },
        other => panic!("expected an undefined label, got ok={}", other.is_ok()),
    }
    assert_eq!(m.program_len(), 0);
}

#[test]
fn lexical_errors_fail_the_load() {
    let mut loader = Loader::new(chars("main.dis"));
    match loader.supply(chars("out . die")) {
        Err(LoadError::Lex(e)) => {
            assert_eq!((e.loc.line, e.loc.column), (1, 5));
        },
        other => panic!("expected a lexical error, got ok={}", other.is_ok()),
    }
}

#[test]
fn parse_errors_fail_the_load() {
    let mut loader = Loader::new(chars("main.dis"));
    match loader.supply(chars("mov 5 6")) {
        Err(LoadError::Parse(e)) => {
            assert_eq!((e.loc.line, e.loc.column), (1, 7));
        },
        other => panic!("expected a parse error, got ok={}", other.is_ok()),
    }
}

#[test]
fn a_label_on_an_import_line_is_dropped() {
    // the `@` statement vanishes when the import is spliced, its label with it
    let mut loader = Loader::new(chars("main.dis"));
    loader.supply(chars("lib: @ lib2 die")).unwrap();
    loader.supply(chars("out .B")).unwrap();
    let mut m = DIS::new();
    m.load(loader.finish()).unwrap();
    assert_eq!(m.find_label(&chars("lib")), None);
}

#[test]
fn loading_resets_an_earlier_machine() {
    let mut loader = Loader::new(chars("main.dis"));
    loader.supply(chars("mov 9 #0 mov 8 &5 die")).unwrap();
    let mut m = DIS::new();
    m.load(loader.finish()).unwrap();
    let mut io = IoBuf::new();
    m.run(&mut io, 1000).unwrap();
    assert_eq!(m.reg(0), 9);

    let mut loader = Loader::new(chars("main.dis"));
    loader.supply(chars("die")).unwrap();
    m.load(loader.finish()).unwrap();
    assert_eq!(m.reg(0), 0, "registers zeroed");
    assert_eq!(m.mem(5), 0, "memory zeroed");
    assert_eq!(m.pc(), 0);
    assert!(!m.halted());
}
