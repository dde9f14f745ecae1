//! The import resolver. A source file may splice another with `@ name`,
//! which stands for `<directory of the importing file>/name.dis`. Reading
//! files is the host's business, so loading is a small exchange: the loader
//! names the file it needs (`pending_path`), the host reads it and hands the
//! text back (`supply`), and the loader lexes and parses it, splicing the
//! statements in place of the `@` statement, until it needs the next file or
//! is done. An `@` that re-enters a file still being expanded is refused as
//! a circular import, so the exchange cannot go on forever.

use vstd::prelude::*;
use crate::errors::LoadError;
use crate::lexer::{lex_fails, lexes_to, Lexer, Location, LocV, Token, TokenV};
use crate::statement::{
    spec_parse, lemma_parse_wf, wf_label, wf_statement, Op, OpV, ParseErrV, Statement,
    StatementV,
};
use crate::text::copy_chars;

verus! {

/// One file in mid-expansion: its path and the tokens not yet parsed.
struct Frame {
    path: Vec<char>,
    tokens: Vec<Token>,
}

/// The mathematical value of a `Frame`.
pub ghost struct FrameV {
    pub path: Seq<char>,
    pub tokens: Seq<TokenV>,
}

impl View for Frame {
    type V = FrameV;

    closed spec fn view(&self) -> FrameV {
        FrameV { path: self.path@, tokens: self.tokens.deep_view() }
    }
}

impl DeepView for Frame {
    type V = FrameV;

    closed spec fn deep_view(&self) -> FrameV {
        self.view()
    }
}

/// A file the loader has asked the host for.
struct Pending {
    path: Vec<char>,
    loc: Location,
}

/// The loader. It accumulates the spliced statement list.
pub struct Loader {
    frames: Vec<Frame>,
    statements: Vec<Statement>,
    pending: Option<Pending>,
    done: bool,
    failed: bool,
}

/// Tokens still to parse, plus one for each open file: the exchange's
/// progress measure.
pub open spec fn frames_measure(frames: Seq<FrameV>) -> nat
    decreases frames.len(),
{
    if frames.len() == 0 {
        0
    } else {
        frames_measure(frames.drop_last()) + frames.last().tokens.len() + 1
    }
}

/// Every statement gathered so far can be executed: well-formed operands,
/// label slots holding label tokens, and no `@` statement left.
pub open spec fn statements_ok(stmts: Seq<StatementV>) -> bool {
    forall|i: int|
        0 <= i < stmts.len() ==> wf_statement(#[trigger] stmts[i]) && wf_label(stmts[i]) && !(
        stmts[i].op is INC)
}

/// Does the loader stand, and the call return, exactly as the splicing
/// loop's outcome says?
pub open spec fn process_outcome(
    outcome: ProcV,
    l: Loader,
    r: Result<(), LoadError>,
) -> bool {
    match outcome {
        ProcV::Done(stmts) => r is Ok && l.spec_done() && !l.spec_failed()
            && l.spec_statements() == stmts,
        ProcV::Need(frames2, stmts, child, loc) => r is Ok && !l.spec_done()
            && !l.spec_failed() && l.spec_pending() == Some(child) && l.spec_pending_loc()
            == Some(loc) && l.spec_statements() == stmts && l.spec_frames() == frames2,
        ProcV::FailParse(ev) => l.spec_failed() && (r matches Err(LoadError::Parse(pe)) && pe@
            == ev),
        ProcV::FailCircular(cp, cl) => l.spec_failed() && (r matches Err(
            LoadError::CircularImport { loc, path },
        ) && path@ == cp && loc@ == cl),
    }
}

impl Loader {
    /// The statements spliced together so far.
    pub closed spec fn spec_statements(&self) -> Seq<StatementV> {
        self.statements.deep_view()
    }

    /// The paths of the files still being expanded, outermost first.
    pub closed spec fn spec_frame_paths(&self) -> Seq<Seq<char>> {
        Seq::new(self.frames@.len(), |i: int| self.frames@[i].path@)
    }

    /// The path of the file the loader is waiting for, if any.
    pub closed spec fn spec_pending(&self) -> Option<Seq<char>> {
        match self.pending {
            Some(p) => Some(p.path@),
            None => None,
        }
    }

    /// Where the pending file was asked for: the `@` statement's location.
    pub closed spec fn spec_pending_loc(&self) -> Option<LocV> {
        match self.pending {
            Some(p) => Some(p.loc@),
            None => None,
        }
    }

    /// The open files, outermost first: each path with its unparsed tokens.
    pub closed spec fn spec_frames(&self) -> Seq<FrameV> {
        self.frames.deep_view()
    }

    pub closed spec fn spec_done(&self) -> bool {
        self.done
    }

    pub closed spec fn spec_failed(&self) -> bool {
        self.failed
    }

    /// A loader that can still make progress holds good statements, and is
    /// waiting for exactly one file unless done or failed.
    pub closed spec fn wf(&self) -> bool {
        &&& statements_ok(self.statements.deep_view())
        &&& (self.done ==> self.pending is None && self.frames@.len() == 0)
        &&& (!self.done && !self.failed ==> self.pending is Some)
    }

    /// Begin a load of the program rooted at `root`: the loader first asks
    /// for that file itself.
    pub fn new(root: Vec<char>) -> (r: Loader)
        ensures
            r.wf(),
            !r.spec_done(),
            !r.spec_failed(),
            r.spec_pending() == Some(root@),
            r.spec_statements() == Seq::<StatementV>::empty(),
    {
        let loc = Location { file: copy_chars(&root), line: 1, column: 1 };
        let r = Loader {
            frames: Vec::new(),
            statements: Vec::new(),
            pending: Some(Pending { path: root, loc }),
            done: false,
            failed: false,
        };
        proof {
            assert(r.spec_statements() =~= Seq::<StatementV>::empty());
        }
        r
    }

    /// The file to read next, if the loader is waiting for one.
    pub fn pending_path(&self) -> (r: Option<&Vec<char>>)
        ensures
            match r {
                Some(p) => self.spec_pending() == Some(p@),
                None => self.spec_pending() is None,
            },
    {
        match &self.pending {
            Some(p) => Some(&p.path),
            None => None,
        }
    }

    /// Has the whole program been gathered?
    pub fn is_done(&self) -> (r: bool)
        ensures
            r == self.spec_done(),
    {
        self.done
    }

    /// Has the load failed?
    pub fn is_failed(&self) -> (r: bool)
        ensures
            r == self.spec_failed(),
    {
        self.failed
    }

    /// The host could not read the pending file: the load fails with an
    /// import error citing the `@` statement that asked for it.
    pub fn fail_pending(&mut self) -> (r: LoadError)
        requires
            old(self).wf(),
            old(self).spec_pending() is Some,
            !old(self).spec_done(),
        ensures
            final(self).spec_failed(),
            final(self).wf(),
            r matches LoadError::ImportIo { loc, path } && Some(path@)
                == old(self).spec_pending() && Some(loc@) == old(self).spec_pending_loc(),
    {
        self.failed = true;
        let mut taken: Option<Pending> = None;
        core::mem::swap(&mut self.pending, &mut taken);
        let p = match taken {
            Some(p) => p,
            None => {
                proof {
                    assert(false);
                }
                Pending {
                    path: Vec::new(),
                    loc: Location { file: Vec::new(), line: 1, column: 1 },
                }
            },
        };
        LoadError::ImportIo { loc: p.loc, path: p.path }
    }

    /// Hand the loader the text of the pending file. It lexes and parses it,
    /// splicing statements until it needs another file (`pending_path` then
    /// names it), finishes (`is_done`), or fails: on a malformed character
    /// literal with the lexical error, on a statement that breaks the
    /// operand table with the parse error, and on an `@` that names a file
    /// still being expanded with a circular-import error.
    pub fn supply(&mut self, text: Vec<char>) -> (r: Result<(), LoadError>)
        requires
            old(self).wf(),
            old(self).spec_pending() is Some,
            !old(self).spec_done(),
            !old(self).spec_failed(),
            text@.len() < usize::MAX,
        ensures
            final(self).wf(),
            r matches Err(LoadError::Lex(_)) <==> lex_fails(text@, 0),
            !lex_fails(text@, 0) ==> forall|toks: Seq<TokenV>|
                #[trigger] lexes_to(old(self).spec_pending()->Some_0, text@, 0, toks)
                    ==> process_outcome(
                    spec_process(
                        old(self).spec_frames().push(
                            FrameV { path: old(self).spec_pending()->Some_0, tokens: toks },
                        ),
                        old(self).spec_statements(),
                    ),
                    *final(self),
                    r,
                ),
    {
        let mut taken: Option<Pending> = None;
        core::mem::swap(&mut self.pending, &mut taken);
        let p = match taken {
            Some(p) => p,
            None => {
                proof {
                    assert(false);
                }
                Pending {
                    path: Vec::new(),
                    loc: Location { file: Vec::new(), line: 1, column: 1 },
                }
            },
        };
        let ghost frames0 = self.spec_frames();
        let ghost stmts0 = self.spec_statements();
        let ghost path_spec = p.path@;
        let ghost text0 = text@;
        let mut lexer = Lexer::new(copy_chars(&p.path), text);
        let tokens = match lexer.tokens() {
            Ok(toks) => toks,
            Err(e) => {
                self.failed = true;
                return Err(LoadError::Lex(e));
            },
        };
        let ghost toks0 = tokens.deep_view();
        self.frames.push(Frame { path: p.path, tokens });
        proof {
            assert(self.spec_frames() =~= frames0.push(
                FrameV { path: path_spec, tokens: toks0 },
            ));
        }
        let r = self.process();
        proof {
            assert forall|toks: Seq<TokenV>|
                #[trigger] lexes_to(path_spec, text0, 0, toks) implies process_outcome(
                spec_process(
                    frames0.push(FrameV { path: path_spec, tokens: toks }),
                    stmts0,
                ),
                *self,
                r,
            ) by {
                crate::lexer::lemma_lexes_deterministic(path_spec, text0, 0, toks, toks0);
            }
        }
        r
    }

    /// Parse the open files, innermost first, until the next import, the
    /// end, or an error.
    fn process(&mut self) -> (r: Result<(), LoadError>)
        requires
            statements_ok(old(self).spec_statements()),
            old(self).pending is None,
            !old(self).spec_done(),
            !old(self).spec_failed(),
        ensures
            final(self).wf(),
            process_outcome(
                spec_process(old(self).spec_frames(), old(self).spec_statements()),
                *final(self),
                r,
            ),
    {
        loop
            invariant
                statements_ok(self.spec_statements()),
                self.pending is None,
                !self.done,
                !self.failed,
                spec_process(old(self).spec_frames(), old(self).spec_statements())
                    == spec_process(self.spec_frames(), self.spec_statements()),
            decreases frames_measure(self.frames.deep_view()),
        {
            let ghost frames0 = self.frames.deep_view();
            let ghost stmts_cur = self.spec_statements();
            let frame = match self.frames.pop() {
                None => {
                    self.done = true;
                    proof {
                        assert(spec_process(frames0, stmts_cur) == ProcV::Done(stmts_cur));
                    }
                    return Ok(());
                },
                Some(f) => f,
            };
            proof {
                assert(frames0.drop_last() =~= self.frames.deep_view());
                assert(frames0.last() == frame@);
            }
            let mut frame = frame;
            let ghost toks0 = frame.tokens.deep_view();
            proof {
                crate::statement::lemma_parse_wf(toks0);
            }
            match Statement::parse(&mut frame.tokens) {
                Err(pe) => {
                    self.failed = true;
                    proof {
                        assert(spec_process(frames0, stmts_cur) == ProcV::FailParse(pe@));
                    }
                    return Err(LoadError::Parse(pe));
                },
                Ok(None) => {
                    // this file is fully parsed; drop its frame
                    proof {
                        lemma_measure_drop_last(frames0);
                        assert(spec_process(frames0, stmts_cur) == spec_process(
                            self.spec_frames(),
                            stmts_cur,
                        ));
                    }
                },
                Ok(Some(st)) => {
                    proof {
                        lemma_measure_drop_last(frames0);
                    }
                    let ghost sn0 = st@;
                    let is_import = match &st.op {
                        Op::INC(_) => true,
                        _ => false,
                    };
                    if is_import {
                        let kw_loc = match &st.op {
                            Op::INC(t) => t.loc().duplicate(),
                            _ => {
                                proof {
                                    assert(false);
                                }
                                Location { file: Vec::new(), line: 1, column: 1 }
                            },
                        };
                        let name = match &st.body[0] {
                            Token::Identifier { value, .. } => copy_chars(value),
                            _ => {
                                proof {
                                    assert(false);
                                }
                                Vec::new()
                            },
                        };
                        let child = child_path(&frame.path, &name);
                        self.frames.push(frame);
                        let ghost frames2 = self.frames.deep_view();
                        let ghost paths2 = self.spec_frame_paths();
                        proof {
                            assert(frames2 =~= frames0.drop_last().push(frames2.last()));
                            lemma_frame_paths(*self);
                        }
                        if self.on_stack(&child) {
                            let ghost wi = choose|i: int|
                                0 <= i < paths2.len() && paths2[i] == child@;
                            self.failed = true;
                            proof {
                                assert(frames2[wi].path == child@);
                                assert(spec_process(frames0, stmts_cur) == ProcV::FailCircular(
                                    child@,
                                    kw_loc@,
                                ));
                            }
                            return Err(
                                LoadError::CircularImport { loc: kw_loc, path: child },
                            );
                        }
                        self.pending = Some(Pending { path: child, loc: kw_loc });
                        proof {
                            assert(spec_process(frames0, stmts_cur) == ProcV::Need(
                                frames2,
                                stmts_cur,
                                child@,
                                kw_loc@,
                            ));
                        }
                        return Ok(());
                    } else {
                        let ghost stmts0 = self.statements.deep_view();
                        self.statements.push(st);
                        self.frames.push(frame);
                        proof {
                            assert(self.statements.deep_view() =~= stmts0.push(sn0));
                            assert(self.frames.deep_view() =~= frames0.drop_last().push(
                                frame@,
                            ));
                            lemma_measure_push(frames0.drop_last(), frame@);
                            assert(spec_process(frames0, stmts_cur) == spec_process(
                                self.spec_frames(),
                                self.spec_statements(),
                            ));
                        }
                    }
                },
            }
        }
    }

    /// Is `path` one of the files still being expanded?
    fn on_stack(&self, path: &Vec<char>) -> (r: bool)
        ensures
            r == exists|i: int|
                0 <= i < self.spec_frame_paths().len() && self.spec_frame_paths()[i] == path@,
    {
        let mut i: usize = 0;
        while i < self.frames.len()
            invariant
                0 <= i <= self.frames@.len(),
                forall|j: int| 0 <= j < i ==> self.spec_frame_paths()[j] != path@,
            decreases self.frames@.len() - i,
        {
            if crate::text::chars_eq(&self.frames[i].path, path) {
                proof {
                    assert(self.spec_frame_paths()[i as int] == path@);
                }
                return true;
            }
            i = i + 1;
        }
        false
    }

    /// The gathered program. Every statement is executable: the machine's
    /// `load` accepts it.
    pub fn finish(self) -> (r: Vec<Statement>)
        requires
            self.spec_done(),
            self.wf(),
        ensures
            r.deep_view() == self.spec_statements(),
            statements_ok(r.deep_view()),
    {
        self.statements
    }
}

/// The path `@ name` in the file at `path` refers to: `name.dis` beside it.
pub fn child_path(path: &Vec<char>, name: &Vec<char>) -> (r: Vec<char>)
    ensures
        r@ == dir_of(path@) + name@ + seq!['.', 'd', 'i', 's'],
{
    let mut r: Vec<char> = Vec::new();
    let mut cut: usize = 0;
    let mut i: usize = 0;
    while i < path.len()
        invariant
            0 <= cut <= i <= path@.len(),
            cut == last_sep(path@.take(i as int)),
        decreases path@.len() - i,
    {
        if path[i] == '/' {
            cut = i + 1;
        }
        proof {
            assert(path@.take(i + 1).drop_last() =~= path@.take(i as int));
        }
        i = i + 1;
    }
    proof {
        assert(path@.take(path@.len() as int) =~= path@);
    }
    let mut j: usize = 0;
    while j < cut
        invariant
            0 <= j <= cut <= path@.len(),
            r@ == path@.take(cut as int).take(j as int),
        decreases cut - j,
    {
        r.push(path[j]);
        proof {
            assert(path@.take(cut as int).take(j + 1) =~= path@.take(cut as int).take(
                j as int,
            ).push(path@[j as int]));
        }
        j = j + 1;
    }
    proof {
        assert(r@ =~= dir_of(path@));
    }
    let mut k: usize = 0;
    while k < name.len()
        invariant
            0 <= k <= name@.len(),
            r@ == dir_of(path@) + name@.take(k as int),
        decreases name@.len() - k,
    {
        r.push(name[k]);
        proof {
            assert(dir_of(path@) + name@.take(k + 1) =~= (dir_of(path@) + name@.take(
                k as int,
            )).push(name@[k as int]));
        }
        k = k + 1;
    }
    proof {
        assert(dir_of(path@) + name@.take(name@.len() as int) =~= dir_of(path@) + name@);
    }
    r.push('.');
    r.push('d');
    r.push('i');
    r.push('s');
    proof {
        assert(r@ =~= dir_of(path@) + name@ + seq!['.', 'd', 'i', 's']);
    }
    r
}

/// The directory prefix of a path: everything through its last `/`, empty
/// when it has none.
pub open spec fn dir_of(path: Seq<char>) -> Seq<char> {
    path.take(last_sep(path))
}

/// One past the index of the last `/`, or zero.
pub open spec fn last_sep(path: Seq<char>) -> int
    decreases path.len(),
{
    if path.len() == 0 {
        0
    } else if path.last() == '/' {
        path.len() as int
    } else {
        last_sep(path.drop_last())
    }
}

/// The frame paths are the frames' paths.
proof fn lemma_frame_paths(l: Loader)
    ensures
        l.spec_frame_paths().len() == l.spec_frames().len(),
        forall|i: int|
            0 <= i < l.spec_frames().len() ==> l.spec_frame_paths()[i] == (
            #[trigger] l.spec_frames()[i]).path,
{
}

proof fn lemma_measure_drop_last(frames: Seq<FrameV>)
    requires
        frames.len() > 0,
    ensures
        frames_measure(frames.drop_last()) < frames_measure(frames),
{
}

proof fn lemma_measure_push(frames: Seq<FrameV>, f: FrameV)
    ensures
        frames_measure(frames.push(f)) == frames_measure(frames) + f.tokens.len() + 1,
{
    assert(frames.push(f).drop_last() =~= frames);
}

/// Where the splicing loop comes to rest.
pub ghost enum ProcV {
    /// Every open file is parsed: the whole program.
    Done(Seq<StatementV>),
    /// An `@` statement asks for another file: the frames and statements so
    /// far, and the requested path with the `@` keyword's location.
    Need(Seq<FrameV>, Seq<StatementV>, Seq<char>, LocV),
    /// A statement broke the operand table.
    FailParse(ParseErrV),
    /// An `@` statement re-entered a file still being expanded.
    FailCircular(Seq<char>, LocV),
}

/// What the splicing loop does with the open files `frames` (innermost
/// last) and the statements gathered so far: parse the innermost file
/// statement by statement, dropping a finished file, splicing in place of
/// an `@`, until everything is parsed, another file is needed, or an error
/// stops the load.
pub open spec fn spec_process(frames: Seq<FrameV>, stmts: Seq<StatementV>) -> ProcV
    decreases frames_measure(frames),
    when frames.len() >= 0
    via spec_process_dec
{
    if frames.len() == 0 {
        ProcV::Done(stmts)
    } else {
        let f = frames.last();
        match spec_parse(f.tokens) {
            Err(e) => ProcV::FailParse(e),
            Ok(None) => spec_process(frames.drop_last(), stmts),
            Ok(Some(sn)) => {
                let f2 = FrameV { path: f.path, tokens: f.tokens.skip(sn.1) };
                let frames2 = frames.drop_last().push(f2);
                if sn.0.op is INC {
                    let child = import_target(f.path, sn.0);
                    let loc = import_loc(sn.0);
                    if exists|i: int| 0 <= i < frames2.len() && (#[trigger] frames2[i]).path
                        == child {
                        ProcV::FailCircular(child, loc)
                    } else {
                        ProcV::Need(frames2, stmts, child, loc)
                    }
                } else {
                    spec_process(frames2, stmts.push(sn.0))
                }
            },
        }
    }
}

#[via_fn]
proof fn spec_process_dec(frames: Seq<FrameV>, stmts: Seq<StatementV>) {
    if frames.len() > 0 {
        let f = frames.last();
        lemma_measure_drop_last(frames);
        lemma_parse_wf(f.tokens);
        match spec_parse(f.tokens) {
            Ok(Some(sn)) => {
                let f2 = FrameV { path: f.path, tokens: f.tokens.skip(sn.1) };
                lemma_measure_push(frames.drop_last(), f2);
            },
            _ => {},
        }
    }
}

/// The path an `@` statement asks for.
pub open spec fn import_target(path: Seq<char>, s: StatementV) -> Seq<char> {
    match s.body[0] {
        TokenV::Identifier { value, .. } => dir_of(path) + value + seq!['.', 'd', 'i', 's'],
        _ => Seq::empty(),
    }
}

/// The location of an `@` statement's keyword.
pub open spec fn import_loc(s: StatementV) -> LocV {
    match s.op {
        OpV::INC(t) => t.loc(),
        _ => LocV { file: Seq::empty(), line: 0, column: 0 },
    }
}

} // verus!
