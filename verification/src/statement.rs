//! The statement parser: it consumes a token stream from the front and
//! builds one statement at a time, checking the arity and the operand kinds
//! that each keyword admits, and validating register names and direct
//! memory addresses against the machine model.

use vstd::prelude::*;
use crate::errors::{ParseError, ParseErrorKind};
use crate::lexer::{Location, LocV, Token, TokenV};
use crate::text::{all_digits, dec_val, parse_u16};

verus! {

/// Number of cells of the machine's linear memory.
pub const MEM_SIZE: usize = 4096;

/// Number of registers: `0` through `7`, and the error flag `e`.
pub const REG_COUNT: usize = 9;

/// Does `s` name one of the machine's registers?
pub open spec fn valid_reg_name(s: Seq<char>) -> bool {
    s.len() == 1 && (('0' <= s[0] && s[0] <= '7') || s[0] == 'e')
}

/// The register file index a register name denotes: `0`..`7` by digit,
/// and `8` for the error flag `e`.
pub open spec fn reg_index(s: Seq<char>) -> int
    recommends
        valid_reg_name(s),
{
    if s.len() == 1 && s[0] == 'e' {
        8
    } else if s.len() == 1 {
        (s[0] as int) - ('0' as int)
    } else {
        0
    }
}

/// Executable test matching `valid_reg_name`.
pub fn reg_name_ok(s: &Vec<char>) -> (r: bool)
    ensures
        r == valid_reg_name(s@),
{
    s.len() == 1 && (('0' <= s[0] && s[0] <= '7') || s[0] == 'e')
}

/// The register file index of a valid register name.
pub fn reg_index_of(s: &Vec<char>) -> (r: usize)
    requires
        valid_reg_name(s@),
    ensures
        r == reg_index(s@),
        r < REG_COUNT,
{
    if s[0] == 'e' {
        8
    } else {
        (s[0] as u32 as usize) - ('0' as u32 as usize)
    }
}

/// Is `s` a well-formed memory operand: a decimal address below `MEM_SIZE`,
/// or `#r` for a valid register `r` (indirection)?
pub open spec fn mem_spec_ok(s: Seq<char>) -> bool {
    if s.len() > 0 && s[0] == '#' {
        valid_reg_name(s.drop_first())
    } else {
        s.len() > 0 && all_digits(s) && dec_val(s) < MEM_SIZE
    }
}

/// Executable test matching `mem_spec_ok`.
pub fn mem_spec_check(s: &Vec<char>) -> (r: bool)
    ensures
        r == mem_spec_ok(s@),
{
    if s.len() > 0 && s[0] == '#' {
        let rest = crate::text::copy_range(s, 1, s.len());
        proof {
            assert(rest@ =~= s@.drop_first());
        }
        reg_name_ok(&rest)
    } else {
        match parse_u16(s) {
            Some(v) => (v as usize) < MEM_SIZE,
            None => {
                proof {
                    if s@.len() > 0 && all_digits(s@) && dec_val(s@) < MEM_SIZE {
                        assert(dec_val(s@) <= u16::MAX);
                    }
                }
                false
            },
        }
    }
}

/// An operation together with the keyword token it was written as.
#[derive(Debug)]
pub enum Op {
    MOV(Token),
    ADD(Token),
    SUB(Token),
    CMP(Token),
    JLT(Token),
    JGT(Token),
    JEQ(Token),
    JNE(Token),
    JMP(Token),
    RUN(Token),
    RET(Token),
    DIE(Token),
    OUT(Token),
    PRT(Token),
    DBG(Token),
    INC(Token),
    RDN(Token),
    RDC(Token),
    RLN(Token),
    NOP,
}

/// The mathematical value of an `Op`.
pub ghost enum OpV {
    MOV(TokenV),
    ADD(TokenV),
    SUB(TokenV),
    CMP(TokenV),
    JLT(TokenV),
    JGT(TokenV),
    JEQ(TokenV),
    JNE(TokenV),
    JMP(TokenV),
    RUN(TokenV),
    RET(TokenV),
    DIE(TokenV),
    OUT(TokenV),
    PRT(TokenV),
    DBG(TokenV),
    INC(TokenV),
    RDN(TokenV),
    RDC(TokenV),
    RLN(TokenV),
    NOP,
}

impl View for Op {
    type V = OpV;

    open spec fn view(&self) -> OpV {
        match self {
            Op::MOV(t) => OpV::MOV(t@),
            Op::ADD(t) => OpV::ADD(t@),
            Op::SUB(t) => OpV::SUB(t@),
            Op::CMP(t) => OpV::CMP(t@),
            Op::JLT(t) => OpV::JLT(t@),
            Op::JGT(t) => OpV::JGT(t@),
            Op::JEQ(t) => OpV::JEQ(t@),
            Op::JNE(t) => OpV::JNE(t@),
            Op::JMP(t) => OpV::JMP(t@),
            Op::RUN(t) => OpV::RUN(t@),
            Op::RET(t) => OpV::RET(t@),
            Op::DIE(t) => OpV::DIE(t@),
            Op::OUT(t) => OpV::OUT(t@),
            Op::PRT(t) => OpV::PRT(t@),
            Op::DBG(t) => OpV::DBG(t@),
            Op::INC(t) => OpV::INC(t@),
            Op::RDN(t) => OpV::RDN(t@),
            Op::RDC(t) => OpV::RDC(t@),
            Op::RLN(t) => OpV::RLN(t@),
            Op::NOP => OpV::NOP,
        }
    }
}

/// One statement: an optional label, an operation, and its operand tokens.
#[derive(Debug)]
pub struct Statement {
    pub label: Option<Token>,
    pub op: Op,
    pub body: Vec<Token>,
}

/// The mathematical value of a `Statement`.
pub ghost struct StatementV {
    pub label: Option<TokenV>,
    pub op: OpV,
    pub body: Seq<TokenV>,
}

impl View for Statement {
    type V = StatementV;

    open spec fn view(&self) -> StatementV {
        StatementV {
            label: match self.label {
                Some(t) => Some(t@),
                None => None,
            },
            op: self.op@,
            body: self.body.deep_view(),
        }
    }
}

impl DeepView for Statement {
    type V = StatementV;

    open spec fn deep_view(&self) -> StatementV {
        self.view()
    }
}

/// The operand kinds of the table: readable, writable, a label name,
/// or a memory operand.
#[derive(Clone, Copy, PartialEq, Eq, Structural)]
pub enum ArgKind {
    Value,
    Place,
    LabelRef,
    MemoryArg,
}

/// Why a token cannot stand as an operand of kind `k`, or `None` if it can.
pub open spec fn fault_of(k: ArgKind, t: TokenV) -> Option<ParseErrorKind> {
    match k {
        ArgKind::Value => match t {
            TokenV::Number { .. } => None,
            TokenV::Char { .. } => None,
            TokenV::Register { value, .. } => if valid_reg_name(value) {
                None
            } else {
                Some(ParseErrorKind::UnknownRegister)
            },
            TokenV::Memory { value, .. } => if mem_spec_ok(value) {
                None
            } else {
                Some(ParseErrorKind::BadAddress)
            },
            _ => Some(ParseErrorKind::ExpectedValue),
        },
        ArgKind::Place => match t {
            TokenV::Register { value, .. } => if valid_reg_name(value) {
                None
            } else {
                Some(ParseErrorKind::UnknownRegister)
            },
            TokenV::Memory { value, .. } => if mem_spec_ok(value) {
                None
            } else {
                Some(ParseErrorKind::BadAddress)
            },
            _ => Some(ParseErrorKind::ExpectedPlace),
        },
        ArgKind::LabelRef => match t {
            TokenV::Identifier { .. } => None,
            _ => Some(ParseErrorKind::ExpectedLabelName),
        },
        ArgKind::MemoryArg => match t {
            TokenV::Memory { value, .. } => if mem_spec_ok(value) {
                None
            } else {
                Some(ParseErrorKind::BadAddress)
            },
            _ => Some(ParseErrorKind::ExpectedMemory),
        },
    }
}

/// Executable test matching `fault_of`.
fn fault_check(k: ArgKind, t: &Token) -> (r: Option<ParseErrorKind>)
    ensures
        r == fault_of(k, t@),
{
    match k {
        ArgKind::Value => match t {
            Token::Number { .. } => None,
            Token::Char { .. } => None,
            Token::Register { value, .. } => if reg_name_ok(value) {
                None
            } else {
                Some(ParseErrorKind::UnknownRegister)
            },
            Token::Memory { value, .. } => if mem_spec_check(value) {
                None
            } else {
                Some(ParseErrorKind::BadAddress)
            },
            _ => Some(ParseErrorKind::ExpectedValue),
        },
        ArgKind::Place => match t {
            Token::Register { value, .. } => if reg_name_ok(value) {
                None
            } else {
                Some(ParseErrorKind::UnknownRegister)
            },
            Token::Memory { value, .. } => if mem_spec_check(value) {
                None
            } else {
                Some(ParseErrorKind::BadAddress)
            },
            _ => Some(ParseErrorKind::ExpectedPlace),
        },
        ArgKind::LabelRef => match t {
            Token::Identifier { .. } => None,
            _ => Some(ParseErrorKind::ExpectedLabelName),
        },
        ArgKind::MemoryArg => match t {
            Token::Memory { value, .. } => if mem_spec_check(value) {
                None
            } else {
                Some(ParseErrorKind::BadAddress)
            },
            _ => Some(ParseErrorKind::ExpectedMemory),
        },
    }
}

/// The mathematical value of a `ParseError`.
pub ghost struct ParseErrV {
    pub loc: LocV,
    pub kind: ParseErrorKind,
}

impl View for ParseError {
    type V = ParseErrV;

    open spec fn view(&self) -> ParseErrV {
        ParseErrV { loc: self.loc@, kind: self.kind }
    }
}

/// One operand of kind `k` taken from the front of `ops`; a missing operand
/// is reported at the keyword's location.
pub open spec fn spec_take1(k: ArgKind, ops: Seq<TokenV>, kwloc: LocV) -> Result<
    TokenV,
    ParseErrV,
> {
    if ops.len() < 1 {
        Err(ParseErrV { loc: kwloc, kind: ParseErrorKind::MissingOperand })
    } else {
        match fault_of(k, ops[0]) {
            None => Ok(ops[0]),
            Some(kind) => Err(ParseErrV { loc: ops[0].loc(), kind }),
        }
    }
}

/// Two operands of kinds `k1`, `k2`; the arity is checked before the kinds.
pub open spec fn spec_take2(k1: ArgKind, k2: ArgKind, ops: Seq<TokenV>, kwloc: LocV) -> Result<
    (TokenV, TokenV),
    ParseErrV,
> {
    if ops.len() < 2 {
        Err(ParseErrV { loc: kwloc, kind: ParseErrorKind::MissingOperand })
    } else {
        match fault_of(k1, ops[0]) {
            Some(kind) => Err(ParseErrV { loc: ops[0].loc(), kind }),
            None => match fault_of(k2, ops[1]) {
                Some(kind) => Err(ParseErrV { loc: ops[1].loc(), kind }),
                None => Ok((ops[0], ops[1])),
            },
        }
    }
}

/// The keywords, as a dispatchable code; `Unknown` for any other word.
#[derive(Clone, Copy, PartialEq, Eq, Structural)]
pub enum OpCode {
    Mov,
    Add,
    Sub,
    Cmp,
    Jlt,
    Jgt,
    Jeq,
    Jne,
    Jmp,
    Run,
    Ret,
    Die,
    Out,
    Prt,
    Dbg,
    Inc,
    Rdn,
    Rdc,
    Rln,
    Unknown,
}

/// Which keyword a word is.
pub open spec fn spec_opcode(w: Seq<char>) -> OpCode {
    if w == seq!['m', 'o', 'v'] {
        OpCode::Mov
    } else if w == seq!['a', 'd', 'd'] {
        OpCode::Add
    } else if w == seq!['s', 'u', 'b'] {
        OpCode::Sub
    } else if w == seq!['c', 'm', 'p'] {
        OpCode::Cmp
    } else if w == seq!['j', 'l', 't'] {
        OpCode::Jlt
    } else if w == seq!['j', 'g', 't'] {
        OpCode::Jgt
    } else if w == seq!['j', 'e', 'q'] {
        OpCode::Jeq
    } else if w == seq!['j', 'n', 'e'] {
        OpCode::Jne
    } else if w == seq!['j', 'm', 'p'] {
        OpCode::Jmp
    } else if w == seq!['r', 'u', 'n'] {
        OpCode::Run
    } else if w == seq!['r', 'e', 't'] {
        OpCode::Ret
    } else if w == seq!['d', 'i', 'e'] {
        OpCode::Die
    } else if w == seq!['o', 'u', 't'] {
        OpCode::Out
    } else if w == seq!['p', 'r', 't'] {
        OpCode::Prt
    } else if w == seq!['d', 'b', 'g'] {
        OpCode::Dbg
    } else if w == seq!['@'] {
        OpCode::Inc
    } else if w == seq!['r', 'd', 'n'] {
        OpCode::Rdn
    } else if w == seq!['r', 'd', 'c'] {
        OpCode::Rdc
    } else if w == seq!['r', 'l', 'n'] {
        OpCode::Rln
    } else {
        OpCode::Unknown
    }
}

/// Is `w` exactly the one-character word `a`?
fn kw_is1(w: &Vec<char>, a: char) -> (r: bool)
    ensures
        r == (w@ == seq![a]),
{
    let r = w.len() == 1 && w[0] == a;
    proof {
        if r {
            assert(w@ =~= seq![a]);
        } else if w@ == seq![a] {
            assert(w@.len() == 1 && w@[0] == a);
        }
    }
    r
}

/// Is `w` exactly the three-character word `a b c`?
fn kw_is3(w: &Vec<char>, a: char, b: char, c: char) -> (r: bool)
    ensures
        r == (w@ == seq![a, b, c]),
{
    let r = w.len() == 3 && w[0] == a && w[1] == b && w[2] == c;
    proof {
        if r {
            assert(w@ =~= seq![a, b, c]);
        } else if w@ == seq![a, b, c] {
            assert(w@.len() == 3 && w@[0] == a && w@[1] == b && w@[2] == c);
        }
    }
    r
}

/// Executable dispatch matching `spec_opcode`.
pub fn opcode_of(w: &Vec<char>) -> (r: OpCode)
    ensures
        r == spec_opcode(w@),
{
    if kw_is3(w, 'm', 'o', 'v') {
        OpCode::Mov
    } else if kw_is3(w, 'a', 'd', 'd') {
        OpCode::Add
    } else if kw_is3(w, 's', 'u', 'b') {
        OpCode::Sub
    } else if kw_is3(w, 'c', 'm', 'p') {
        OpCode::Cmp
    } else if kw_is3(w, 'j', 'l', 't') {
        OpCode::Jlt
    } else if kw_is3(w, 'j', 'g', 't') {
        OpCode::Jgt
    } else if kw_is3(w, 'j', 'e', 'q') {
        OpCode::Jeq
    } else if kw_is3(w, 'j', 'n', 'e') {
        OpCode::Jne
    } else if kw_is3(w, 'j', 'm', 'p') {
        OpCode::Jmp
    } else if kw_is3(w, 'r', 'u', 'n') {
        OpCode::Run
    } else if kw_is3(w, 'r', 'e', 't') {
        OpCode::Ret
    } else if kw_is3(w, 'd', 'i', 'e') {
        OpCode::Die
    } else if kw_is3(w, 'o', 'u', 't') {
        OpCode::Out
    } else if kw_is3(w, 'p', 'r', 't') {
        OpCode::Prt
    } else if kw_is3(w, 'd', 'b', 'g') {
        OpCode::Dbg
    } else if kw_is1(w, '@') {
        OpCode::Inc
    } else if kw_is3(w, 'r', 'd', 'n') {
        OpCode::Rdn
    } else if kw_is3(w, 'r', 'd', 'c') {
        OpCode::Rdc
    } else if kw_is3(w, 'r', 'l', 'n') {
        OpCode::Rln
    } else {
        OpCode::Unknown
    }
}

/// Abbreviation for a successfully parsed statement that consumed `n` tokens.
pub open spec fn parsed(label: Option<TokenV>, op: OpV, body: Seq<TokenV>, n: int) -> Result<
    Option<(StatementV, int)>,
    ParseErrV,
> {
    Ok(Some((StatementV { label, op, body }, n)))
}

/// What parsing one statement after the keyword yields. `base` counts the
/// tokens already consumed (the label, if any), `ops` are the tokens after
/// the keyword.
pub open spec fn spec_parse_op(
    label: Option<TokenV>,
    base: int,
    kwtok: TokenV,
    kw: Seq<char>,
    kwloc: LocV,
    ops: Seq<TokenV>,
) -> Result<Option<(StatementV, int)>, ParseErrV> {
    match spec_opcode(kw) {
        OpCode::Mov => match spec_take2(ArgKind::Value, ArgKind::Place, ops, kwloc) {
            Ok(p) => parsed(label, OpV::MOV(kwtok), seq![p.0, p.1], base + 3),
            Err(e) => Err(e),
        },
        OpCode::Add => match spec_take2(ArgKind::Value, ArgKind::Place, ops, kwloc) {
            Ok(p) => parsed(label, OpV::ADD(kwtok), seq![p.0, p.1], base + 3),
            Err(e) => Err(e),
        },
        OpCode::Sub => match spec_take2(ArgKind::Value, ArgKind::Place, ops, kwloc) {
            Ok(p) => parsed(label, OpV::SUB(kwtok), seq![p.0, p.1], base + 3),
            Err(e) => Err(e),
        },
        OpCode::Cmp => match spec_take2(ArgKind::Value, ArgKind::Place, ops, kwloc) {
            Ok(p) => parsed(label, OpV::CMP(kwtok), seq![p.0, p.1], base + 3),
            Err(e) => Err(e),
        },
        OpCode::Jlt => match spec_take1(ArgKind::LabelRef, ops, kwloc) {
            Ok(t) => parsed(label, OpV::JLT(kwtok), seq![t], base + 2),
            Err(e) => Err(e),
        },
        OpCode::Jgt => match spec_take1(ArgKind::LabelRef, ops, kwloc) {
            Ok(t) => parsed(label, OpV::JGT(kwtok), seq![t], base + 2),
            Err(e) => Err(e),
        },
        OpCode::Jeq => match spec_take1(ArgKind::LabelRef, ops, kwloc) {
            Ok(t) => parsed(label, OpV::JEQ(kwtok), seq![t], base + 2),
            Err(e) => Err(e),
        },
        OpCode::Jne => match spec_take1(ArgKind::LabelRef, ops, kwloc) {
            Ok(t) => parsed(label, OpV::JNE(kwtok), seq![t], base + 2),
            Err(e) => Err(e),
        },
        OpCode::Jmp => match spec_take1(ArgKind::LabelRef, ops, kwloc) {
            Ok(t) => parsed(label, OpV::JMP(kwtok), seq![t], base + 2),
            Err(e) => Err(e),
        },
        OpCode::Run => match spec_take1(ArgKind::LabelRef, ops, kwloc) {
            Ok(t) => parsed(label, OpV::RUN(kwtok), seq![t], base + 2),
            Err(e) => Err(e),
        },
        OpCode::Ret => parsed(label, OpV::RET(kwtok), Seq::empty(), base + 1),
        OpCode::Die => parsed(label, OpV::DIE(kwtok), Seq::empty(), base + 1),
        OpCode::Out => match spec_take1(ArgKind::Value, ops, kwloc) {
            Ok(t) => parsed(label, OpV::OUT(kwtok), seq![t], base + 2),
            Err(e) => Err(e),
        },
        OpCode::Prt => match spec_take1(ArgKind::Value, ops, kwloc) {
            Ok(t) => parsed(label, OpV::PRT(kwtok), seq![t], base + 2),
            Err(e) => Err(e),
        },
        OpCode::Dbg => match spec_take1(ArgKind::Value, ops, kwloc) {
            Ok(t) => parsed(label, OpV::DBG(kwtok), seq![t], base + 2),
            Err(e) => Err(e),
        },
        OpCode::Inc => match spec_take1(ArgKind::LabelRef, ops, kwloc) {
            Ok(t) => parsed(label, OpV::INC(kwtok), seq![t], base + 2),
            Err(e) => Err(e),
        },
        OpCode::Rdn => match spec_take1(ArgKind::Place, ops, kwloc) {
            Ok(t) => parsed(label, OpV::RDN(kwtok), seq![t], base + 2),
            Err(e) => Err(e),
        },
        OpCode::Rdc => match spec_take1(ArgKind::Place, ops, kwloc) {
            Ok(t) => parsed(label, OpV::RDC(kwtok), seq![t], base + 2),
            Err(e) => Err(e),
        },
        OpCode::Rln => match spec_take2(ArgKind::MemoryArg, ArgKind::Value, ops, kwloc) {
            Ok(p) => parsed(label, OpV::RLN(kwtok), seq![p.0, p.1], base + 3),
            Err(e) => Err(e),
        },
        OpCode::Unknown => Err(
            ParseErrV { loc: kwloc, kind: ParseErrorKind::UnknownKeyword },
        ),
    }
}

/// What parsing the front of a token stream yields: `Ok(None)` on an empty
/// stream, one statement and the count of tokens it consumed, or the first
/// error. A label followed by the end of the stream is a `NOP` statement of
/// its own, so that its index exists as a jump target.
pub open spec fn spec_parse(toks: Seq<TokenV>) -> Result<Option<(StatementV, int)>, ParseErrV> {
    if toks.len() == 0 {
        Ok(None)
    } else {
        let has_label = toks[0] is Label;
        let label = if has_label {
            Some(toks[0])
        } else {
            Option::<TokenV>::None
        };
        let base: int = if has_label {
            1
        } else {
            0
        };
        let rest = toks.skip(base);
        if rest.len() == 0 {
            parsed(label, OpV::NOP, Seq::empty(), 1)
        } else {
            match rest[0] {
                TokenV::Keyword { value, loc } => spec_parse_op(
                    label,
                    base,
                    rest[0],
                    value,
                    loc,
                    rest.skip(1),
                ),
                _ => Err(
                    ParseErrV {
                        loc: rest[0].loc(),
                        kind: if has_label {
                            ParseErrorKind::ExpectedKeyword
                        } else {
                            ParseErrorKind::ExpectedKeywordOrLabel
                        },
                    },
                ),
            }
        }
    }
}

/// Remove and return the front token.
fn take_front(tokens: &mut Vec<Token>) -> (t: Token)
    requires
        old(tokens)@.len() > 0,
    ensures
        t@ == old(tokens).deep_view()[0],
        final(tokens).deep_view() == old(tokens).deep_view().skip(1),
        final(tokens)@.len() == old(tokens)@.len() - 1,
{
    let t = tokens.remove(0);
    proof {
        assert(tokens.deep_view() =~= old(tokens).deep_view().skip(1));
    }
    t
}

/// Take one operand of kind `k` from the front of the stream.
fn take_one(k: ArgKind, tokens: &mut Vec<Token>, kwloc: &Location) -> (r: Result<
    Token,
    ParseError,
>)
    ensures
        match spec_take1(k, old(tokens).deep_view(), kwloc@) {
            Ok(tv) => r matches Ok(t) && t@ == tv
                && final(tokens).deep_view() == old(tokens).deep_view().skip(1),
            Err(e) => r matches Err(pe) && pe@ == e,
        },
{
    if tokens.len() == 0 {
        return Err(
            ParseError { loc: kwloc.duplicate(), kind: ParseErrorKind::MissingOperand },
        );
    }
    let t = take_front(tokens);
    match fault_check(k, &t) {
        None => Ok(t),
        Some(kind) => Err(ParseError { loc: t.loc().duplicate(), kind }),
    }
}

/// Take two operands of kinds `k1`, `k2` from the front of the stream.
fn take_two(k1: ArgKind, k2: ArgKind, tokens: &mut Vec<Token>, kwloc: &Location) -> (r: Result<
    (Token, Token),
    ParseError,
>)
    ensures
        match spec_take2(k1, k2, old(tokens).deep_view(), kwloc@) {
            Ok(p) => r matches Ok(q) && q.0@ == p.0 && q.1@ == p.1
                && final(tokens).deep_view() == old(tokens).deep_view().skip(2),
            Err(e) => r matches Err(pe) && pe@ == e,
        },
{
    if tokens.len() < 2 {
        return Err(
            ParseError { loc: kwloc.duplicate(), kind: ParseErrorKind::MissingOperand },
        );
    }
    let a = take_front(tokens);
    match fault_check(k1, &a) {
        Some(kind) => Err(ParseError { loc: a.loc().duplicate(), kind }),
        None => {
            let b = take_front(tokens);
            proof {
                assert(old(tokens).deep_view().skip(1).skip(1) =~= old(
                    tokens,
                ).deep_view().skip(2));
            }
            match fault_check(k2, &b) {
                Some(kind) => Err(ParseError { loc: b.loc().duplicate(), kind }),
                None => Ok((a, b)),
            }
        },
    }
}

/// Two operand tokens as a statement body.
fn body2(a: Token, b: Token) -> (r: Vec<Token>)
    ensures
        r.deep_view() == seq![a@, b@],
{
    let mut v: Vec<Token> = Vec::new();
    v.push(a);
    v.push(b);
    proof {
        assert(v.deep_view() =~= seq![v@[0]@, v@[1]@]);
    }
    v
}

/// One operand token as a statement body.
fn body1(a: Token) -> (r: Vec<Token>)
    ensures
        r.deep_view() == seq![a@],
{
    let mut v: Vec<Token> = Vec::new();
    v.push(a);
    proof {
        assert(v.deep_view() =~= seq![v@[0]@]);
    }
    v
}

impl Statement {
    /// Parse one statement from the front of the token stream, consuming the
    /// tokens it is made of. `Ok(None)` on an empty stream.
    #[verifier::rlimit(100)]
    #[verifier::spinoff_prover]
    pub fn parse(tokens: &mut Vec<Token>) -> (r: Result<Option<Statement>, ParseError>)
        ensures
            match spec_parse(old(tokens).deep_view()) {
                Ok(opt) => match opt {
                    None => r matches Ok(ro) && ro is None,
                    Some(sn) => r matches Ok(ro) && ro matches Some(s) && s@ == sn.0
                        && final(tokens).deep_view() == old(tokens).deep_view().skip(sn.1),
                },
                Err(e) => r matches Err(pe) && pe@ == e,
            },
    {
        let ghost toks0 = old(tokens).deep_view();
        if tokens.len() == 0 {
            return Ok(None);
        }
        let first_is_label = match &tokens[0] {
            Token::Label { .. } => true,
            _ => false,
        };
        let mut label: Option<Token> = None;
        if first_is_label {
            let t = take_front(tokens);
            label = Some(t);
        }
        let ghost base: int = if first_is_label {
            1
        } else {
            0
        };
        proof {
            assert(tokens.deep_view() =~= toks0.skip(base));
        }
        if tokens.len() == 0 {
            // a label at the end of the stream stands as its own statement
            let body: Vec<Token> = Vec::new();
            proof {
                assert(toks0.len() > 0);
                assert(first_is_label);
                assert(body.deep_view() =~= Seq::<TokenV>::empty());
                assert(tokens.deep_view() =~= toks0.skip(1));
            }
            return Ok(Some(Statement { label, op: Op::NOP, body }));
        }
        let head_is_keyword = match &tokens[0] {
            Token::Keyword { .. } => true,
            _ => false,
        };
        if !head_is_keyword {
            let kind = if first_is_label {
                ParseErrorKind::ExpectedKeyword
            } else {
                ParseErrorKind::ExpectedKeywordOrLabel
            };
            return Err(ParseError { loc: tokens[0].loc().duplicate(), kind });
        }
        let head = take_front(tokens);
        proof {
            assert(tokens.deep_view() =~= toks0.skip(base).skip(1));
        }
        let code = match &head {
            Token::Keyword { value, .. } => opcode_of(value),
            _ => OpCode::Unknown,
        };
        let ghost ops0 = tokens.deep_view();
        match code {
            OpCode::Mov => {
                let kwloc = head.loc().duplicate();
                match take_two(ArgKind::Value, ArgKind::Place, tokens, &kwloc) {
                    Ok(p) => {
                        proof {
                            assert(tokens.deep_view() =~= toks0.skip(base + 3));
                        }
                        Ok(Some(Statement { label, op: Op::MOV(head), body: body2(p.0, p.1) }))
                    },
                    Err(e) => Err(e),
                }
            },
            OpCode::Add => {
                let kwloc = head.loc().duplicate();
                match take_two(ArgKind::Value, ArgKind::Place, tokens, &kwloc) {
                    Ok(p) => {
                        proof {
                            assert(tokens.deep_view() =~= toks0.skip(base + 3));
                        }
                        Ok(Some(Statement { label, op: Op::ADD(head), body: body2(p.0, p.1) }))
                    },
                    Err(e) => Err(e),
                }
            },
            OpCode::Sub => {
                let kwloc = head.loc().duplicate();
                match take_two(ArgKind::Value, ArgKind::Place, tokens, &kwloc) {
                    Ok(p) => {
                        proof {
                            assert(tokens.deep_view() =~= toks0.skip(base + 3));
                        }
                        Ok(Some(Statement { label, op: Op::SUB(head), body: body2(p.0, p.1) }))
                    },
                    Err(e) => Err(e),
                }
            },
            OpCode::Cmp => {
                let kwloc = head.loc().duplicate();
                match take_two(ArgKind::Value, ArgKind::Place, tokens, &kwloc) {
                    Ok(p) => {
                        proof {
                            assert(tokens.deep_view() =~= toks0.skip(base + 3));
                        }
                        Ok(Some(Statement { label, op: Op::CMP(head), body: body2(p.0, p.1) }))
                    },
                    Err(e) => Err(e),
                }
            },
            OpCode::Jlt => {
                let kwloc = head.loc().duplicate();
                match take_one(ArgKind::LabelRef, tokens, &kwloc) {
                    Ok(t) => {
                        proof {
                            assert(tokens.deep_view() =~= toks0.skip(base + 2));
                        }
                        Ok(Some(Statement { label, op: Op::JLT(head), body: body1(t) }))
                    },
                    Err(e) => Err(e),
                }
            },
            OpCode::Jgt => {
                let kwloc = head.loc().duplicate();
                match take_one(ArgKind::LabelRef, tokens, &kwloc) {
                    Ok(t) => {
                        proof {
                            assert(tokens.deep_view() =~= toks0.skip(base + 2));
                        }
                        Ok(Some(Statement { label, op: Op::JGT(head), body: body1(t) }))
                    },
                    Err(e) => Err(e),
                }
            },
            OpCode::Jeq => {
                let kwloc = head.loc().duplicate();
                match take_one(ArgKind::LabelRef, tokens, &kwloc) {
                    Ok(t) => {
                        proof {
                            assert(tokens.deep_view() =~= toks0.skip(base + 2));
                        }
                        Ok(Some(Statement { label, op: Op::JEQ(head), body: body1(t) }))
                    },
                    Err(e) => Err(e),
                }
            },
            OpCode::Jne => {
                let kwloc = head.loc().duplicate();
                match take_one(ArgKind::LabelRef, tokens, &kwloc) {
                    Ok(t) => {
                        proof {
                            assert(tokens.deep_view() =~= toks0.skip(base + 2));
                        }
                        Ok(Some(Statement { label, op: Op::JNE(head), body: body1(t) }))
                    },
                    Err(e) => Err(e),
                }
            },
            OpCode::Jmp => {
                let kwloc = head.loc().duplicate();
                match take_one(ArgKind::LabelRef, tokens, &kwloc) {
                    Ok(t) => {
                        proof {
                            assert(tokens.deep_view() =~= toks0.skip(base + 2));
                        }
                        Ok(Some(Statement { label, op: Op::JMP(head), body: body1(t) }))
                    },
                    Err(e) => Err(e),
                }
            },
            OpCode::Run => {
                let kwloc = head.loc().duplicate();
                match take_one(ArgKind::LabelRef, tokens, &kwloc) {
                    Ok(t) => {
                        proof {
                            assert(tokens.deep_view() =~= toks0.skip(base + 2));
                        }
                        Ok(Some(Statement { label, op: Op::RUN(head), body: body1(t) }))
                    },
                    Err(e) => Err(e),
                }
            },
            OpCode::Ret => {
                let body: Vec<Token> = Vec::new();
                proof {
                    assert(body.deep_view() =~= Seq::<TokenV>::empty());
                    assert(tokens.deep_view() =~= toks0.skip(base + 1));
                }
                Ok(Some(Statement { label, op: Op::RET(head), body }))
            },
            OpCode::Die => {
                let body: Vec<Token> = Vec::new();
                proof {
                    assert(body.deep_view() =~= Seq::<TokenV>::empty());
                    assert(tokens.deep_view() =~= toks0.skip(base + 1));
                }
                Ok(Some(Statement { label, op: Op::DIE(head), body }))
            },
            OpCode::Out => {
                let kwloc = head.loc().duplicate();
                match take_one(ArgKind::Value, tokens, &kwloc) {
                    Ok(t) => {
                        proof {
                            assert(tokens.deep_view() =~= toks0.skip(base + 2));
                        }
                        Ok(Some(Statement { label, op: Op::OUT(head), body: body1(t) }))
                    },
                    Err(e) => Err(e),
                }
            },
            OpCode::Prt => {
                let kwloc = head.loc().duplicate();
                match take_one(ArgKind::Value, tokens, &kwloc) {
                    Ok(t) => {
                        proof {
                            assert(tokens.deep_view() =~= toks0.skip(base + 2));
                        }
                        Ok(Some(Statement { label, op: Op::PRT(head), body: body1(t) }))
                    },
                    Err(e) => Err(e),
                }
            },
            OpCode::Dbg => {
                let kwloc = head.loc().duplicate();
                match take_one(ArgKind::Value, tokens, &kwloc) {
                    Ok(t) => {
                        proof {
                            assert(tokens.deep_view() =~= toks0.skip(base + 2));
                        }
                        Ok(Some(Statement { label, op: Op::DBG(head), body: body1(t) }))
                    },
                    Err(e) => Err(e),
                }
            },
            OpCode::Inc => {
                let kwloc = head.loc().duplicate();
                match take_one(ArgKind::LabelRef, tokens, &kwloc) {
                    Ok(t) => {
                        proof {
                            assert(tokens.deep_view() =~= toks0.skip(base + 2));
                        }
                        Ok(Some(Statement { label, op: Op::INC(head), body: body1(t) }))
                    },
                    Err(e) => Err(e),
                }
            },
            OpCode::Rdn => {
                let kwloc = head.loc().duplicate();
                match take_one(ArgKind::Place, tokens, &kwloc) {
                    Ok(t) => {
                        proof {
                            assert(tokens.deep_view() =~= toks0.skip(base + 2));
                        }
                        Ok(Some(Statement { label, op: Op::RDN(head), body: body1(t) }))
                    },
                    Err(e) => Err(e),
                }
            },
            OpCode::Rdc => {
                let kwloc = head.loc().duplicate();
                match take_one(ArgKind::Place, tokens, &kwloc) {
                    Ok(t) => {
                        proof {
                            assert(tokens.deep_view() =~= toks0.skip(base + 2));
                        }
                        Ok(Some(Statement { label, op: Op::RDC(head), body: body1(t) }))
                    },
                    Err(e) => Err(e),
                }
            },
            OpCode::Rln => {
                let kwloc = head.loc().duplicate();
                match take_two(ArgKind::MemoryArg, ArgKind::Value, tokens, &kwloc) {
                    Ok(p) => {
                        proof {
                            assert(tokens.deep_view() =~= toks0.skip(base + 3));
                        }
                        Ok(Some(Statement { label, op: Op::RLN(head), body: body2(p.0, p.1) }))
                    },
                    Err(e) => Err(e),
                }
            },
            OpCode::Unknown => {
                Err(
                    ParseError {
                        loc: head.loc().duplicate(),
                        kind: ParseErrorKind::UnknownKeyword,
                    },
                )
            },
        }
    }
}

/// A statement the machine can execute: the operand shapes that the parser
/// guarantees, by operation.
pub open spec fn wf_statement(s: StatementV) -> bool {
    match s.op {
        OpV::MOV(_) | OpV::ADD(_) | OpV::SUB(_) | OpV::CMP(_) => s.body.len() == 2 && fault_of(
            ArgKind::Value,
            s.body[0],
        ) is None && fault_of(ArgKind::Place, s.body[1]) is None,
        OpV::JLT(_) | OpV::JGT(_) | OpV::JEQ(_) | OpV::JNE(_) | OpV::JMP(_) | OpV::RUN(_) => s.body.len() == 1
            && s.body[0] is Identifier,
        OpV::RET(_) | OpV::DIE(_) | OpV::NOP => s.body.len() == 0,
        OpV::OUT(_) | OpV::PRT(_) | OpV::DBG(_) => s.body.len() == 1 && fault_of(
            ArgKind::Value,
            s.body[0],
        ) is None,
        OpV::INC(_) => s.body.len() == 1 && s.body[0] is Identifier,
        OpV::RDN(_) | OpV::RDC(_) => s.body.len() == 1 && fault_of(ArgKind::Place, s.body[0]) is None,
        OpV::RLN(_) => s.body.len() == 2 && fault_of(ArgKind::MemoryArg, s.body[0]) is None
            && fault_of(ArgKind::Value, s.body[1]) is None,
    }
}

/// A statement's label slot, when filled, holds a label token.
pub open spec fn wf_label(s: StatementV) -> bool {
    match s.label {
        Some(t) => t is Label,
        None => true,
    }
}

/// Whatever the parser accepts is well-formed.
proof fn lemma_take1_wf(k: ArgKind, ops: Seq<TokenV>, kwloc: LocV)
    ensures
        spec_take1(k, ops, kwloc) matches Ok(t) ==> fault_of(k, t) is None && ops.len() >= 1
            && t == ops[0],
{
}

proof fn lemma_take2_wf(k1: ArgKind, k2: ArgKind, ops: Seq<TokenV>, kwloc: LocV)
    ensures
        spec_take2(k1, k2, ops, kwloc) matches Ok(p) ==> fault_of(k1, p.0) is None && fault_of(
            k2,
            p.1,
        ) is None && ops.len() >= 2 && p.0 == ops[0] && p.1 == ops[1],
{
}

/// Whatever the parser accepts is well-formed.
pub proof fn lemma_parse_wf(toks: Seq<TokenV>)
    ensures
        spec_parse(toks) matches Ok(Some(sn)) ==> wf_statement(sn.0) && wf_label(sn.0) && 1
            <= sn.1 <= toks.len(),
{
    if toks.len() > 0 {
        let has_label = toks[0] is Label;
        let base: int = if has_label {
            1
        } else {
            0
        };
        let rest = toks.skip(base);
        if rest.len() > 0 {
            match rest[0] {
                TokenV::Keyword { value, loc } => {
                    let ops = rest.skip(1);
                    assert(ops.len() == toks.len() - base - 1);
                    lemma_take1_wf(ArgKind::Value, ops, loc);
                    lemma_take1_wf(ArgKind::Place, ops, loc);
                    lemma_take1_wf(ArgKind::LabelRef, ops, loc);
                    lemma_take2_wf(ArgKind::Value, ArgKind::Place, ops, loc);
                    lemma_take2_wf(ArgKind::MemoryArg, ArgKind::Value, ops, loc);
                },
                _ => {},
            }
        }
    }
}

/// The source word of an operation.
pub open spec fn op_word(op: OpV) -> Seq<char> {
    match op {
        OpV::MOV(_) => seq!['m', 'o', 'v'],
        OpV::ADD(_) => seq!['a', 'd', 'd'],
        OpV::SUB(_) => seq!['s', 'u', 'b'],
        OpV::CMP(_) => seq!['c', 'm', 'p'],
        OpV::JLT(_) => seq!['j', 'l', 't'],
        OpV::JGT(_) => seq!['j', 'g', 't'],
        OpV::JEQ(_) => seq!['j', 'e', 'q'],
        OpV::JNE(_) => seq!['j', 'n', 'e'],
        OpV::JMP(_) => seq!['j', 'm', 'p'],
        OpV::RUN(_) => seq!['r', 'u', 'n'],
        OpV::RET(_) => seq!['r', 'e', 't'],
        OpV::DIE(_) => seq!['d', 'i', 'e'],
        OpV::OUT(_) => seq!['o', 'u', 't'],
        OpV::PRT(_) => seq!['p', 'r', 't'],
        OpV::DBG(_) => seq!['d', 'b', 'g'],
        OpV::INC(_) => seq!['@'],
        OpV::RDN(_) => seq!['r', 'd', 'n'],
        OpV::RDC(_) => seq!['r', 'd', 'c'],
        OpV::RLN(_) => seq!['r', 'l', 'n'],
        OpV::NOP => Seq::empty(),
    }
}

/// The words of a statement's printed form: the label's word if any, the
/// operation's word unless it is a bare `NOP`, and each operand's word.
pub open spec fn statement_words(s: StatementV) -> Seq<Seq<char>> {
    (match s.label {
        Some(t) => seq![crate::lexer::token_text(t)],
        None => Seq::<Seq<char>>::empty(),
    }) + (if s.op is NOP {
        Seq::<Seq<char>>::empty()
    } else {
        seq![op_word(s.op)]
    }) + Seq::new(s.body.len(), |k: int| crate::lexer::token_text(s.body[k]))
}

/// Words joined by single spaces.
pub open spec fn join_words(ws: Seq<Seq<char>>) -> Seq<char>
    decreases ws.len(),
{
    if ws.len() == 0 {
        Seq::empty()
    } else if ws.len() == 1 {
        ws[0]
    } else {
        ws[0] + seq![' '] + join_words(ws.drop_first())
    }
}

/// The printed form of a statement.
pub open spec fn statement_text(s: StatementV) -> Seq<char> {
    join_words(statement_words(s))
}

/// Joining one more word appends a space and the word.
pub proof fn lemma_join_push(ws: Seq<Seq<char>>, k: int)
    requires
        0 <= k < ws.len(),
    ensures
        join_words(ws.take(k + 1)) == if k == 0 {
            ws[0]
        } else {
            join_words(ws.take(k)) + seq![' '] + ws[k]
        },
    decreases k,
{
    if k == 0 {
        assert(ws.take(1) =~= seq![ws[0]]);
    } else {
        lemma_join_push(ws.drop_first(), k - 1);
        assert(ws.take(k + 1).drop_first() =~= ws.drop_first().take(k));
        assert(ws.take(k).drop_first() =~= ws.drop_first().take(k - 1));
        assert(ws.take(k + 1)[0] == ws[0]);
        assert(ws.take(k)[0] == ws[0]);
        assert(ws.drop_first().take(k)[k - 1] == ws[k]);
        if k == 1 {
            assert(join_words(ws.take(2)) == ws[0] + seq![' '] + join_words(
                ws.drop_first().take(1),
            ));
            assert(ws.drop_first().take(1) =~= seq![ws[1]]);
            assert(ws.take(1) =~= seq![ws[0]]);
        } else {
            assert(join_words(ws.take(k + 1)) == ws[0] + seq![' '] + join_words(
                ws.drop_first().take(k),
            ));
            assert(join_words(ws.drop_first().take(k)) == join_words(ws.drop_first().take(k - 1))
                + seq![' '] + ws.drop_first()[k - 1]);
            assert(join_words(ws.take(k)) == ws[0] + seq![' '] + join_words(
                ws.drop_first().take(k - 1),
            ));
            assert((ws[0] + seq![' '] + (join_words(ws.drop_first().take(k - 1)) + seq![' ']
                + ws[k])) =~= (ws[0] + seq![' '] + join_words(ws.drop_first().take(k - 1)))
                + seq![' '] + ws[k]);
        }
    }
}

/// Join words with single spaces.
fn join(words: &Vec<Vec<char>>) -> (r: Vec<char>)
    ensures
        r@ == join_words(words.deep_view()),
{
    let ghost ws = words.deep_view();
    let mut r: Vec<char> = Vec::new();
    let mut k: usize = 0;
    proof {
        assert(ws.take(0) =~= Seq::<Seq<char>>::empty());
    }
    while k < words.len()
        invariant
            0 <= k <= words@.len(),
            ws == words.deep_view(),
            ws.len() == words@.len(),
            r@ == join_words(ws.take(k as int)),
        decreases words@.len() - k,
    {
        if k > 0 {
            r.push(' ');
        }
        let mut w = crate::text::copy_chars(&words[k]);
        r.append(&mut w);
        proof {
            assert(ws[k as int] =~= words@[k as int]@);
            lemma_join_push(ws, k as int);
            assert(r@ =~= join_words(ws.take(k + 1)));
        }
        k = k + 1;
    }
    proof {
        assert(ws.take(ws.len() as int) =~= ws);
    }
    r
}

impl Statement {
    /// The keyword of this statement's operation, empty for a bare `NOP`.
    fn op_text(&self) -> (r: Vec<char>)
        ensures
            r@ == op_word(self@.op),
    {
        let mut r: Vec<char> = Vec::new();
        match &self.op {
            Op::MOV(_) => {
                r.push('m');
                r.push('o');
                r.push('v');
            },
            Op::ADD(_) => {
                r.push('a');
                r.push('d');
                r.push('d');
            },
            Op::SUB(_) => {
                r.push('s');
                r.push('u');
                r.push('b');
            },
            Op::CMP(_) => {
                r.push('c');
                r.push('m');
                r.push('p');
            },
            Op::JLT(_) => {
                r.push('j');
                r.push('l');
                r.push('t');
            },
            Op::JGT(_) => {
                r.push('j');
                r.push('g');
                r.push('t');
            },
            Op::JEQ(_) => {
                r.push('j');
                r.push('e');
                r.push('q');
            },
            Op::JNE(_) => {
                r.push('j');
                r.push('n');
                r.push('e');
            },
            Op::JMP(_) => {
                r.push('j');
                r.push('m');
                r.push('p');
            },
            Op::RUN(_) => {
                r.push('r');
                r.push('u');
                r.push('n');
            },
            Op::RET(_) => {
                r.push('r');
                r.push('e');
                r.push('t');
            },
            Op::DIE(_) => {
                r.push('d');
                r.push('i');
                r.push('e');
            },
            Op::OUT(_) => {
                r.push('o');
                r.push('u');
                r.push('t');
            },
            Op::PRT(_) => {
                r.push('p');
                r.push('r');
                r.push('t');
            },
            Op::DBG(_) => {
                r.push('d');
                r.push('b');
                r.push('g');
            },
            Op::INC(_) => {
                r.push('@');
            },
            Op::RDN(_) => {
                r.push('r');
                r.push('d');
                r.push('n');
            },
            Op::RDC(_) => {
                r.push('r');
                r.push('d');
                r.push('c');
            },
            Op::RLN(_) => {
                r.push('r');
                r.push('l');
                r.push('n');
            },
            Op::NOP => {},
        }
        proof {
            assert(r@ =~= op_word(self@.op));
        }
        r
    }

    /// Print this statement back in source form: its words separated by
    /// single spaces.
    pub fn render(&self) -> (r: Vec<char>)
        ensures
            r@ == statement_text(self@),
    {
        let ghost ws = statement_words(self@);
        let ghost head_len: int = ws.len() - self.body@.len();
        let mut words: Vec<Vec<char>> = Vec::new();
        match &self.label {
            Some(t) => {
                words.push(t.render());
            },
            None => {},
        }
        match &self.op {
            Op::NOP => {},
            _ => {
                words.push(self.op_text());
            },
        }
        proof {
            assert(words.deep_view() =~~= ws.take(head_len));
        }
        let mut k: usize = 0;
        while k < self.body.len()
            invariant
                0 <= k <= self.body@.len(),
                ws == statement_words(self@),
                head_len == ws.len() - self.body@.len(),
                0 <= head_len,
                self@.body.len() == self.body@.len(),
                words.deep_view() == ws.take(head_len + k),
            decreases self.body@.len() - k,
        {
            let rendered = self.body[k].render();
            proof {
                assert(rendered.deep_view() =~= rendered@);
            }
            let ghost old_dv = words.deep_view();
            words.push(rendered);
            proof {
                assert(words.deep_view() =~= old_dv.push(rendered@));
                assert(self@.body[k as int] == self.body@[k as int]@);
                assert(ws[head_len + k] == crate::lexer::token_text(self@.body[k as int]));
                assert(words.deep_view() =~= ws.take(head_len + k + 1));
            }
            k = k + 1;
        }
        proof {
            assert(words.deep_view() =~~= ws);
        }
        join(&words)
    }
}

} // verus!
