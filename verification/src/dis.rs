//! The virtual machine: a register file, a linear memory, compare flags,
//! a bounded return stack, a program counter and a halt flag, driven one
//! statement at a time over injectable line-based input and byte-based
//! output buffers.

use vstd::prelude::*;
use crate::errors::{LoadError, RuntimeError};
use crate::lexer::{Token, TokenV, token_text};
use crate::statement::{
    reg_index, reg_index_of, mem_spec_ok, fault_of, wf_statement, wf_label, ArgKind, Op, OpV, Statement,
    StatementV, MEM_SIZE, REG_COUNT,
};
use crate::text::{
    char_code, char_u16, chars_eq, copy_chars, copy_range, dec_bytes, dec_render, dec_val,
    parse_u16, push_dec, push_dec_bytes, push_text_utf8, trim, trimmed, utf8_of_text,
};

verus! {

/// Capacity of the return stack.
pub const STACK_LIMIT: usize = 256;

/// Compare flag set by `cmp` when the operands are equal.
pub const FLAG_EQ: u8 = 1;

/// Compare flag set by `cmp` when the first operand is below the second.
pub const FLAG_LT: u8 = 2;

/// Compare flag set by `cmp` when the first operand is above the second.
pub const FLAG_GT: u8 = 4;

/// The machine's input and output: lines waiting to be read, and the bytes
/// written so far. The host feeds `input` and drains `output`.
pub struct IoBuf {
    pub input: Vec<Vec<char>>,
    pub output: Vec<u8>,
}

/// The mathematical value of an `IoBuf`.
pub ghost struct IoV {
    pub input: Seq<Seq<char>>,
    pub output: Seq<u8>,
}

impl View for IoBuf {
    type V = IoV;

    open spec fn view(&self) -> IoV {
        IoV { input: self.input.deep_view(), output: self.output@ }
    }
}

impl IoBuf {
    /// An empty input queue and an empty output buffer.
    pub fn new() -> (r: IoBuf)
        ensures
            r@.input == Seq::<Seq<char>>::empty(),
            r@.output == Seq::<u8>::empty(),
    {
        let r = IoBuf { input: Vec::new(), output: Vec::new() };
        proof {
            assert(r@.input =~= Seq::<Seq<char>>::empty());
        }
        r
    }
}

/// The mathematical value of the whole machine.
pub ghost struct MachineV {
    pub registers: Seq<u16>,
    pub memory: Seq<u16>,
    pub return_stack: Seq<int>,
    pub label_map: Seq<(Seq<char>, int)>,
    pub program: Seq<StatementV>,
    pub pc: int,
    pub cmp: u8,
    pub die: bool,
}

/// The machine. Registers `0`..`7` sit at indices 0..7 of the register
/// file and the error flag `e` at index 8.
pub struct DIS {
    registers: Vec<u16>,
    memory: Vec<u16>,
    return_stack: Vec<usize>,
    label_map: Vec<(Vec<char>, usize)>,
    program: Vec<Statement>,
    pc: usize,
    cmp: u8,
    die: bool,
}

impl View for DIS {
    type V = MachineV;

    closed spec fn view(&self) -> MachineV {
        MachineV {
            registers: self.registers@,
            memory: self.memory@,
            return_stack: Seq::new(self.return_stack@.len(), |i: int| self.return_stack@[i] as int),
            label_map: Seq::new(
                self.label_map@.len(),
                |i: int| (self.label_map@[i].0@, self.label_map@[i].1 as int),
            ),
            program: self.program.deep_view(),
            pc: self.pc as int,
            cmp: self.cmp,
            die: self.die,
        }
    }
}

/// The machine as it stands before any program is loaded.
pub open spec fn initial_machine() -> MachineV {
    MachineV {
        registers: Seq::new(REG_COUNT as nat, |i: int| 0u16),
        memory: Seq::new(MEM_SIZE as nat, |i: int| 0u16),
        return_stack: Seq::empty(),
        label_map: Seq::empty(),
        program: Seq::empty(),
        pc: 0,
        cmp: 0,
        die: false,
    }
}

/// The index of the first entry for `name`, if any.
pub open spec fn label_lookup(lm: Seq<(Seq<char>, int)>, name: Seq<char>) -> Option<int>
    decreases lm.len(),
{
    if lm.len() == 0 {
        None
    } else if lm[0].0 == name {
        Some(lm[0].1)
    } else {
        label_lookup(lm.drop_first(), name)
    }
}

/// No two entries share a name.
pub open spec fn labels_unique(lm: Seq<(Seq<char>, int)>) -> bool {
    forall|i: int, j: int| 0 <= i < j < lm.len() ==> (#[trigger] lm[i]).0 != (#[trigger] lm[j]).0
}

/// The statement index a control transfer through `t` goes to.
pub open spec fn target_of(m: MachineV, t: TokenV) -> Option<int> {
    match t {
        TokenV::Identifier { value, .. } => label_lookup(m.label_map, value),
        _ => None,
    }
}

/// Is `op` one of the six control transfers?
pub open spec fn is_jump(op: OpV) -> bool {
    op is JLT || op is JGT || op is JEQ || op is JNE || op is JMP || op is RUN
}

/// Every control transfer of `s` has a target in the label map of `m`.
pub open spec fn jump_ok(m: MachineV, s: StatementV) -> bool {
    is_jump(s.op) ==> s.body.len() == 1 && target_of(m, s.body[0]) is Some
}

/// The machine invariant: sizes of the fixed stores, a program counter
/// inside the program (or just past it), a bounded return stack of valid
/// return indices, a duplicate-free label map into the program, and a
/// program of well-formed statements, imports all expanded, every control
/// transfer resolvable.
pub open spec fn m_wf(m: MachineV) -> bool {
    &&& m.registers.len() == REG_COUNT
    &&& m.memory.len() == MEM_SIZE
    &&& m.return_stack.len() <= STACK_LIMIT
    &&& forall|i: int|
        0 <= i < m.return_stack.len() ==> 0 <= #[trigger] m.return_stack[i] < m.program.len()
    &&& 0 <= m.pc <= m.program.len()
    &&& labels_unique(m.label_map)
    &&& forall|k: int|
        0 <= k < m.label_map.len() ==> 0 <= (#[trigger] m.label_map[k]).1 < m.program.len()
    &&& forall|i: int|
        0 <= i < m.program.len() ==> wf_statement(#[trigger] m.program[i]) && wf_label(
            m.program[i],
        ) && !(m.program[i].op is INC)
    &&& forall|i: int| 0 <= i < m.program.len() ==> jump_ok(m, #[trigger] m.program[i])
}

/// The memory cell a memory operand denotes under the current registers:
/// `#r` reads register `r` as the address, a plain spec is the address.
pub open spec fn mem_addr_of(m: MachineV, s: Seq<char>) -> int {
    if s.len() > 0 && s[0] == '#' {
        m.registers[reg_index(s.drop_first())] as int
    } else {
        dec_val(s) as int
    }
}

/// What reading a value operand yields: `None` on an out-of-range
/// register-indirect memory access.
pub open spec fn read_value_spec(m: MachineV, t: TokenV) -> Option<u16> {
    match t {
        TokenV::Number { value, .. } => Some(value),
        TokenV::Char { value, .. } => Some(char_u16(value)),
        TokenV::Register { value, .. } => Some(m.registers[reg_index(value)]),
        TokenV::Memory { value, .. } => {
            let a = mem_addr_of(m, value);
            if 0 <= a < MEM_SIZE {
                Some(m.memory[a])
            } else {
                None
            }
        },
        _ => None,
    }
}

/// The address a failed memory access was aimed at.
pub open spec fn fail_addr(m: MachineV, t: TokenV) -> int {
    match t {
        TokenV::Memory { value, .. } => mem_addr_of(m, value),
        _ => 0,
    }
}

/// What writing `v` to a place operand yields: `None` on an out-of-range
/// register-indirect memory access.
pub open spec fn write_value_spec(m: MachineV, t: TokenV, v: u16) -> Option<MachineV> {
    match t {
        TokenV::Register { value, .. } => Some(
            MachineV { registers: m.registers.update(reg_index(value), v), ..m },
        ),
        TokenV::Memory { value, .. } => {
            let a = mem_addr_of(m, value);
            if 0 <= a < MEM_SIZE {
                Some(MachineV { memory: m.memory.update(a, v), ..m })
            } else {
                None
            }
        },
        _ => None,
    }
}

impl DIS {
    /// A zeroed machine with an empty program.
    pub fn new() -> (r: DIS)
        ensures
            r@ == initial_machine(),
            m_wf(r@),
    {
        let r = DIS {
            registers: zeroes(REG_COUNT),
            memory: zeroes(MEM_SIZE),
            return_stack: Vec::new(),
            label_map: Vec::new(),
            program: Vec::new(),
            pc: 0,
            cmp: 0,
            die: false,
        };
        proof {
            assert(r@.registers =~= initial_machine().registers);
            assert(r@.memory =~= initial_machine().memory);
            assert(r@.return_stack =~= initial_machine().return_stack);
            assert(r@.label_map =~= initial_machine().label_map);
            assert(r@.program =~= initial_machine().program);
        }
        r
    }

    /// Zero every register and memory cell and forget the program, the
    /// labels, the return stack, the flags and the halt state.
    fn reset(&mut self)
        ensures
            final(self)@ == initial_machine(),
    {
        self.registers = zeroes(REG_COUNT);
        self.memory = zeroes(MEM_SIZE);
        self.return_stack = Vec::new();
        self.label_map = Vec::new();
        self.program = Vec::new();
        self.pc = 0;
        self.cmp = 0;
        self.die = false;
        proof {
            assert(self@.registers =~= initial_machine().registers);
            assert(self@.memory =~= initial_machine().memory);
            assert(self@.return_stack =~= initial_machine().return_stack);
            assert(self@.label_map =~= initial_machine().label_map);
            assert(self@.program =~= initial_machine().program);
        }
    }

    /// The program counter.
    pub fn pc(&self) -> (r: usize)
        ensures
            r == self@.pc,
    {
        self.pc
    }

    /// Has the machine halted?
    pub fn halted(&self) -> (r: bool)
        ensures
            r == self@.die,
    {
        self.die
    }

    /// The compare flags.
    pub fn flags(&self) -> (r: u8)
        ensures
            r == self@.cmp,
    {
        self.cmp
    }

    /// The register at file index `i`.
    pub fn reg(&self, i: usize) -> (r: u16)
        requires
            m_wf(self@),
            i < REG_COUNT,
        ensures
            r == self@.registers[i as int],
    {
        self.registers[i]
    }

    /// The memory cell at `a`.
    pub fn mem(&self, a: usize) -> (r: u16)
        requires
            m_wf(self@),
            a < MEM_SIZE,
        ensures
            r == self@.memory[a as int],
    {
        self.memory[a]
    }

    /// How many statements the loaded program has.
    pub fn program_len(&self) -> (r: usize)
        ensures
            r == self@.program.len(),
    {
        self.program.len()
    }

    /// The statement at index `i`.
    pub fn statement_at(&self, i: usize) -> (r: &Statement)
        requires
            i < self@.program.len(),
        ensures
            r@ == self@.program[i as int],
    {
        &self.program[i]
    }

    /// The statement index `name` labels, if any.
    pub fn find_label(&self, name: &Vec<char>) -> (r: Option<usize>)
        ensures
            match r {
                Some(i) => label_lookup(self@.label_map, name@) == Some(i as int),
                None => label_lookup(self@.label_map, name@) is None,
            },
    {
        let ghost lm = self@.label_map;
        proof {
            assert(lm.skip(0) =~= lm);
        }
        let mut k: usize = 0;
        while k < self.label_map.len()
            invariant
                0 <= k <= self.label_map@.len(),
                lm == self@.label_map,
                lm.len() == self.label_map@.len(),
                forall|i: int| 0 <= i < lm.len() ==> #[trigger] lm[i] == (
                    self.label_map@[i].0@,
                    self.label_map@[i].1 as int,
                ),
                label_lookup(lm, name@) == label_lookup(lm.skip(k as int), name@),
            decreases self.label_map@.len() - k,
        {
            if chars_eq(&self.label_map[k].0, name) {
                proof {
                    assert(lm.skip(k as int)[0] == lm[k as int]);
                }
                return Some(self.label_map[k].1);
            }
            proof {
                assert(lm.skip(k as int).drop_first() =~= lm.skip(k + 1));
                assert(lm.skip(k as int)[0] == lm[k as int]);
            }
            k = k + 1;
        }
        proof {
            assert(lm.skip(k as int).len() == 0);
        }
        None
    }

    /// The memory address a memory operand denotes: the register's value
    /// for `#r`, the spelled-out address otherwise.
    fn mem_addr_from_id(&self, mem_id: &Vec<char>) -> (r: usize)
        requires
            self@.registers.len() == REG_COUNT,
            mem_spec_ok(mem_id@),
        ensures
            r == mem_addr_of(self@, mem_id@),
    {
        if mem_id[0] == '#' {
            let reg_name = copy_range(mem_id, 1, mem_id.len());
            proof {
                assert(reg_name@ =~= mem_id@.drop_first());
            }
            let idx = reg_index_of(&reg_name);
            self.registers[idx] as usize
        } else {
            match parse_u16(mem_id) {
                Some(v) => v as usize,
                None => 0,
            }
        }
    }

    /// Read a value operand: a number or character literal by itself, a
    /// register's contents, or a memory cell, directly or through a register.
    fn get_value(&self, t: &Token) -> (r: Result<u16, RuntimeError>)
        requires
            self@.registers.len() == REG_COUNT,
            self@.memory.len() == MEM_SIZE,
            fault_of(ArgKind::Value, t@) is None,
        ensures
            match read_value_spec(self@, t@) {
                Some(v) => r == Ok::<u16, RuntimeError>(v),
                None => r == Err::<u16, RuntimeError>(
                    RuntimeError::MemoryBounds { addr: fail_addr(self@, t@) as usize },
                ),
            },
    {
        match t {
            Token::Number { value, .. } => Ok(*value),
            Token::Char { value, .. } => Ok((*value as u32 % 0x10000) as u16),
            Token::Register { value, .. } => {
                let idx = reg_index_of(value);
                Ok(self.registers[idx])
            },
            Token::Memory { value, .. } => {
                let a = self.mem_addr_from_id(value);
                if a < MEM_SIZE {
                    Ok(self.memory[a])
                } else {
                    Err(RuntimeError::MemoryBounds { addr: a })
                }
            },
            _ => {
                proof {
                    assert(false);
                }
                Ok(0)
            },
        }
    }

    /// Write `v` to a place operand: a register or a memory cell, directly
    /// or through a register. The machine is untouched on failure.
    fn set_value(&mut self, t: &Token, v: u16) -> (r: Result<(), RuntimeError>)
        requires
            old(self)@.registers.len() == REG_COUNT,
            old(self)@.memory.len() == MEM_SIZE,
            fault_of(ArgKind::Place, t@) is None,
        ensures
            match write_value_spec(old(self)@, t@, v) {
                Some(m2) => r == Ok::<(), RuntimeError>(()) && final(self)@ == m2,
                None => r == Err::<(), RuntimeError>(
                    RuntimeError::MemoryBounds { addr: fail_addr(old(self)@, t@) as usize },
                ) && final(self)@ == old(self)@,
            },
    {
        match t {
            Token::Register { value, .. } => {
                let idx = reg_index_of(value);
                self.registers[idx] = v;
                Ok(())
            },
            Token::Memory { value, .. } => {
                let a = self.mem_addr_from_id(value);
                if a < MEM_SIZE {
                    self.memory[a] = v;
                    Ok(())
                } else {
                    Err(RuntimeError::MemoryBounds { addr: a })
                }
            },
            _ => {
                proof {
                    assert(false);
                }
                Ok(())
            },
        }
    }
}

/// A vector of `n` zeroed cells.
fn zeroes(n: usize) -> (r: Vec<u16>)
    ensures
        r@ == Seq::new(n as nat, |i: int| 0u16),
{
    let mut r: Vec<u16> = Vec::new();
    let mut i: usize = 0;
    while i < n
        invariant
            0 <= i <= n,
            r@ == Seq::new(i as nat, |j: int| 0u16),
        decreases n - i,
    {
        r.push(0);
        proof {
            assert(r@ =~= Seq::new((i + 1) as nat, |j: int| 0u16));
        }
        i = i + 1;
    }
    r
}

/// What one tick returned.
#[derive(Clone, Copy, PartialEq, Eq, Structural, Debug)]
pub enum StepOutcome {
    /// A statement ran; the machine is ready for the next tick.
    Ran,
    /// The next statement reads a line, and no input line is queued; the
    /// machine is untouched. Queue a line and tick again.
    AwaitInput,
    /// The machine has halted.
    Halted,
}

/// The fieldless shape of an operation.
#[derive(Clone, Copy, PartialEq, Eq, Structural)]
pub enum OpKind {
    KMov,
    KAdd,
    KSub,
    KCmp,
    KJlt,
    KJgt,
    KJeq,
    KJne,
    KJmp,
    KRun,
    KRet,
    KDie,
    KOut,
    KPrt,
    KDbg,
    KInc,
    KRdn,
    KRdc,
    KRln,
    KNop,
}

pub open spec fn kind_of(op: OpV) -> OpKind {
    match op {
        OpV::MOV(_) => OpKind::KMov,
        OpV::ADD(_) => OpKind::KAdd,
        OpV::SUB(_) => OpKind::KSub,
        OpV::CMP(_) => OpKind::KCmp,
        OpV::JLT(_) => OpKind::KJlt,
        OpV::JGT(_) => OpKind::KJgt,
        OpV::JEQ(_) => OpKind::KJeq,
        OpV::JNE(_) => OpKind::KJne,
        OpV::JMP(_) => OpKind::KJmp,
        OpV::RUN(_) => OpKind::KRun,
        OpV::RET(_) => OpKind::KRet,
        OpV::DIE(_) => OpKind::KDie,
        OpV::OUT(_) => OpKind::KOut,
        OpV::PRT(_) => OpKind::KPrt,
        OpV::DBG(_) => OpKind::KDbg,
        OpV::INC(_) => OpKind::KInc,
        OpV::RDN(_) => OpKind::KRdn,
        OpV::RDC(_) => OpKind::KRdc,
        OpV::RLN(_) => OpKind::KRln,
        OpV::NOP => OpKind::KNop,
    }
}

/// `m` with the program counter at `pc`.
pub open spec fn with_pc(m: MachineV, pc: int) -> MachineV {
    MachineV { pc, ..m }
}

/// `m` halted by a runtime error or by `die`.
pub open spec fn stopped(m: MachineV) -> MachineV {
    MachineV { die: true, ..m }
}

/// Sum modulo 2^16.
pub open spec fn wrap_add(a: u16, b: u16) -> u16 {
    ((a as int + b as int) % 0x10000) as u16
}

/// Difference modulo 2^16.
pub open spec fn wrap_sub(a: u16, b: u16) -> u16 {
    ((a as int - b as int + 0x10000) % 0x10000) as u16
}

/// The compare flags `cmp a, b` leaves: exactly one of EQ, LT, GT.
pub open spec fn flags_for(a: u16, b: u16) -> u8 {
    if a == b {
        FLAG_EQ
    } else if a < b {
        FLAG_LT
    } else {
        FLAG_GT
    }
}

/// `mov src, dst`: the value read from `src` is written to `dst`.
pub open spec fn mov_effect(
    pre: MachineV,
    src: TokenV,
    dst: TokenV,
    post: MachineV,
    r: Result<StepOutcome, RuntimeError>,
) -> bool {
    match read_value_spec(pre, src) {
        None => r == Err::<StepOutcome, RuntimeError>(
            RuntimeError::MemoryBounds { addr: fail_addr(pre, src) as usize },
        ) && post == stopped(pre),
        Some(v) => match write_value_spec(pre, dst, v) {
            None => r == Err::<StepOutcome, RuntimeError>(
                RuntimeError::MemoryBounds { addr: fail_addr(pre, dst) as usize },
            ) && post == stopped(pre),
            Some(m2) => r == Ok::<StepOutcome, RuntimeError>(StepOutcome::Ran) && post == with_pc(
                m2,
                pre.pc + 1,
            ),
        },
    }
}

/// `add`/`sub src, dst`: the destination is read, combined with the source
/// modulo 2^16, and written back.
pub open spec fn arith_effect(
    pre: MachineV,
    src: TokenV,
    dst: TokenV,
    is_add: bool,
    post: MachineV,
    r: Result<StepOutcome, RuntimeError>,
) -> bool {
    match read_value_spec(pre, src) {
        None => r == Err::<StepOutcome, RuntimeError>(
            RuntimeError::MemoryBounds { addr: fail_addr(pre, src) as usize },
        ) && post == stopped(pre),
        Some(v) => match read_value_spec(pre, dst) {
            None => r == Err::<StepOutcome, RuntimeError>(
                RuntimeError::MemoryBounds { addr: fail_addr(pre, dst) as usize },
            ) && post == stopped(pre),
            Some(d) => {
                let res = if is_add {
                    wrap_add(d, v)
                } else {
                    wrap_sub(d, v)
                };
                write_value_spec(pre, dst, res) matches Some(m2) && r == Ok::<
                    StepOutcome,
                    RuntimeError,
                >(StepOutcome::Ran) && post == with_pc(m2, pre.pc + 1)
            },
        },
    }
}

/// `cmp a, b`: the flags are set from the two values; nothing else moves.
pub open spec fn cmp_effect(
    pre: MachineV,
    src: TokenV,
    dst: TokenV,
    post: MachineV,
    r: Result<StepOutcome, RuntimeError>,
) -> bool {
    match read_value_spec(pre, src) {
        None => r == Err::<StepOutcome, RuntimeError>(
            RuntimeError::MemoryBounds { addr: fail_addr(pre, src) as usize },
        ) && post == stopped(pre),
        Some(a) => match read_value_spec(pre, dst) {
            None => r == Err::<StepOutcome, RuntimeError>(
                RuntimeError::MemoryBounds { addr: fail_addr(pre, dst) as usize },
            ) && post == stopped(pre),
            Some(b) => r == Ok::<StepOutcome, RuntimeError>(StepOutcome::Ran) && post == with_pc(
                MachineV { cmp: flags_for(a, b), ..pre },
                pre.pc + 1,
            ),
        },
    }
}

/// A conditional or unconditional jump: when taken, the next statement
/// executed is the target; otherwise the one after the jump.
pub open spec fn jump_effect(
    pre: MachineV,
    t: TokenV,
    taken: bool,
    post: MachineV,
    r: Result<StepOutcome, RuntimeError>,
) -> bool {
    target_of(pre, t) matches Some(ti) && r == Ok::<StepOutcome, RuntimeError>(StepOutcome::Ran)
        && post == with_pc(
        pre,
        if taken {
            ti
        } else {
            pre.pc + 1
        },
    )
}

/// `run L`: the current statement index is pushed and control moves to the
/// target; a full stack is an overflow.
pub open spec fn run_effect(
    pre: MachineV,
    t: TokenV,
    post: MachineV,
    r: Result<StepOutcome, RuntimeError>,
) -> bool {
    if pre.return_stack.len() >= STACK_LIMIT {
        r == Err::<StepOutcome, RuntimeError>(RuntimeError::StackOverflow) && post == stopped(pre)
    } else {
        target_of(pre, t) matches Some(ti) && r == Ok::<StepOutcome, RuntimeError>(
            StepOutcome::Ran,
        ) && post == MachineV {
            return_stack: pre.return_stack.push(pre.pc),
            pc: ti,
            ..pre
        }
    }
}

/// `ret`: control resumes just after the statement whose index is popped;
/// an empty stack is an underflow.
pub open spec fn ret_effect(
    pre: MachineV,
    post: MachineV,
    r: Result<StepOutcome, RuntimeError>,
) -> bool {
    if pre.return_stack.len() == 0 {
        r == Err::<StepOutcome, RuntimeError>(RuntimeError::StackUnderflow) && post == stopped(pre)
    } else {
        r == Ok::<StepOutcome, RuntimeError>(StepOutcome::Ran) && post == MachineV {
            return_stack: pre.return_stack.drop_last(),
            pc: pre.return_stack.last() + 1,
            ..pre
        }
    }
}

/// The diagnostic line `dbg` prints: the operand in source form, the
/// resolved address for register-indirect memory, and the value read.
pub open spec fn dbg_text(pre: MachineV, t: TokenV, v: u16) -> Seq<char> {
    let mid = match t {
        TokenV::Memory { value, .. } => if value.len() > 0 && value[0] == '#' {
            seq![' ', '(', '&'] + dec_render(mem_addr_of(pre, value) as nat) + seq![')']
        } else {
            Seq::<char>::empty()
        },
        _ => Seq::<char>::empty(),
    };
    seq!['D', 'B', 'G', ' '] + token_text(t) + mid + seq![':', ' '] + dec_render(v as nat) + seq![
        '\n',
    ]
}

/// `out`/`prt`/`dbg`: the value is read and bytes go to the output.
pub open spec fn print_effect(
    pre: MachineV,
    io0: IoV,
    t: TokenV,
    k: OpKind,
    post: MachineV,
    io1: IoV,
    r: Result<StepOutcome, RuntimeError>,
) -> bool {
    match read_value_spec(pre, t) {
        None => r == Err::<StepOutcome, RuntimeError>(
            RuntimeError::MemoryBounds { addr: fail_addr(pre, t) as usize },
        ) && post == stopped(pre) && io1 == io0,
        Some(v) => r == Ok::<StepOutcome, RuntimeError>(StepOutcome::Ran) && post == with_pc(
            pre,
            pre.pc + 1,
        ) && io1.input == io0.input && io1.output == io0.output + (if k is KOut {
            seq![(v % 256) as u8]
        } else if k is KPrt {
            dec_bytes(v as nat)
        } else {
            utf8_of_text(dbg_text(pre, t, v))
        }),
    }
}

/// `rdn dst`: one line is consumed; a line that is a decimal `u16` clears
/// `e` and lands in `dst`, any other line sets `e` and leaves `dst` alone.
pub open spec fn rdn_effect(
    pre: MachineV,
    io0: IoV,
    dst: TokenV,
    post: MachineV,
    io1: IoV,
    r: Result<StepOutcome, RuntimeError>,
) -> bool {
    if io0.input.len() == 0 {
        r == Ok::<StepOutcome, RuntimeError>(StepOutcome::AwaitInput) && post == pre && io1 == io0
    } else {
        let line = trimmed(io0.input[0]);
        io1.input == io0.input.drop_first() && io1.output == io0.output && if crate::text::is_number_word(
            line,
        ) {
            let m1 = MachineV { registers: pre.registers.update(8, 0u16), ..pre };
            match write_value_spec(m1, dst, dec_val(line) as u16) {
                Some(m2) => r == Ok::<StepOutcome, RuntimeError>(StepOutcome::Ran) && post
                    == with_pc(m2, pre.pc + 1),
                None => r == Err::<StepOutcome, RuntimeError>(
                    RuntimeError::MemoryBounds { addr: fail_addr(m1, dst) as usize },
                ) && post == stopped(m1),
            }
        } else {
            r == Ok::<StepOutcome, RuntimeError>(StepOutcome::Ran) && post == with_pc(
                MachineV { registers: pre.registers.update(8, 1u16), ..pre },
                pre.pc + 1,
            )
        }
    }
}

/// `rdc dst`: one line is consumed; its first character's codepoint (low
/// 16 bits) lands in `dst` and clears `e`; an empty line sets `e`.
pub open spec fn rdc_effect(
    pre: MachineV,
    io0: IoV,
    dst: TokenV,
    post: MachineV,
    io1: IoV,
    r: Result<StepOutcome, RuntimeError>,
) -> bool {
    if io0.input.len() == 0 {
        r == Ok::<StepOutcome, RuntimeError>(StepOutcome::AwaitInput) && post == pre && io1 == io0
    } else {
        let line = trimmed(io0.input[0]);
        io1.input == io0.input.drop_first() && io1.output == io0.output && if line.len() > 0 {
            let m1 = MachineV { registers: pre.registers.update(8, 0u16), ..pre };
            match write_value_spec(m1, dst, char_u16(line[0])) {
                Some(m2) => r == Ok::<StepOutcome, RuntimeError>(StepOutcome::Ran) && post
                    == with_pc(m2, pre.pc + 1),
                None => r == Err::<StepOutcome, RuntimeError>(
                    RuntimeError::MemoryBounds { addr: fail_addr(m1, dst) as usize },
                ) && post == stopped(m1),
            }
        } else {
            r == Ok::<StepOutcome, RuntimeError>(StepOutcome::Ran) && post == with_pc(
                MachineV { registers: pre.registers.update(8, 1u16), ..pre },
                pre.pc + 1,
            )
        }
    }
}

/// The memory after a line's first `n` codepoints land at `addr`.
pub open spec fn write_mem_line(mem: Seq<u16>, addr: int, line: Seq<char>, n: nat) -> Seq<u16> {
    Seq::new(
        mem.len(),
        |i: int| if addr <= i < addr + n {
            char_u16(line[i - addr])
        } else {
            mem[i]
        },
    )
}

/// `rln &m, max`: one line is consumed; its first `n` codepoints go to
/// consecutive cells from the operand's address, where `n` is the line's
/// length clamped to `max` (`max == 0` meaning no limit); register `3`
/// receives `n`.
pub open spec fn rln_effect(
    pre: MachineV,
    io0: IoV,
    dst: TokenV,
    max_tok: TokenV,
    post: MachineV,
    io1: IoV,
    r: Result<StepOutcome, RuntimeError>,
) -> bool {
    match read_value_spec(pre, max_tok) {
        None => r == Err::<StepOutcome, RuntimeError>(
            RuntimeError::MemoryBounds { addr: fail_addr(pre, max_tok) as usize },
        ) && post == stopped(pre) && io1 == io0,
        Some(maxv) => {
            if io0.input.len() == 0 {
                r == Ok::<StepOutcome, RuntimeError>(StepOutcome::AwaitInput) && post == pre && io1
                    == io0
            } else {
                let line = trimmed(io0.input[0]);
                let n: nat = if maxv == 0 || line.len() < maxv as nat {
                    line.len()
                } else {
                    maxv as nat
                };
                dst matches TokenV::Memory { value, .. } && {
                    let a = mem_addr_of(pre, value);
                    io1.input == io0.input.drop_first() && io1.output == io0.output && if !(0 <= a
                        < MEM_SIZE) {
                        r == Err::<StepOutcome, RuntimeError>(
                            RuntimeError::MemoryBounds { addr: a as usize },
                        ) && post == stopped(pre)
                    } else if a + n > MEM_SIZE {
                        r == Err::<StepOutcome, RuntimeError>(
                            RuntimeError::MemoryBounds { addr: MEM_SIZE },
                        ) && post == stopped(pre)
                    } else {
                        r == Ok::<StepOutcome, RuntimeError>(StepOutcome::Ran) && post == with_pc(
                            MachineV {
                                registers: pre.registers.update(3, (n % 0x10000) as u16),
                                memory: write_mem_line(pre.memory, a, line, n),
                                ..pre
                            },
                            pre.pc + 1,
                        )
                    }
                }
            }
        },
    }
}

/// The whole step relation: what one tick does to the machine and its
/// input/output, and what it returns, for every statement of the language.
pub open spec fn step_effect(
    pre: MachineV,
    io0: IoV,
    post: MachineV,
    io1: IoV,
    r: Result<StepOutcome, RuntimeError>,
) -> bool {
    if pre.die {
        r == Ok::<StepOutcome, RuntimeError>(StepOutcome::Halted) && post == pre && io1 == io0
    } else if pre.pc >= pre.program.len() {
        r == Ok::<StepOutcome, RuntimeError>(StepOutcome::Halted) && post == stopped(pre) && io1
            == io0
    } else {
        let s = pre.program[pre.pc];
        match s.op {
            OpV::NOP => r == Ok::<StepOutcome, RuntimeError>(StepOutcome::Ran) && post == with_pc(
                pre,
                pre.pc + 1,
            ) && io1 == io0,
            OpV::MOV(_) => mov_effect(pre, s.body[0], s.body[1], post, r) && io1 == io0,
            OpV::ADD(_) => arith_effect(pre, s.body[0], s.body[1], true, post, r) && io1 == io0,
            OpV::SUB(_) => arith_effect(pre, s.body[0], s.body[1], false, post, r) && io1 == io0,
            OpV::CMP(_) => cmp_effect(pre, s.body[0], s.body[1], post, r) && io1 == io0,
            OpV::JLT(_) => jump_effect(pre, s.body[0], pre.cmp & FLAG_LT != 0, post, r) && io1
                == io0,
            OpV::JGT(_) => jump_effect(pre, s.body[0], pre.cmp & FLAG_GT != 0, post, r) && io1
                == io0,
            OpV::JEQ(_) => jump_effect(pre, s.body[0], pre.cmp & FLAG_EQ != 0, post, r) && io1
                == io0,
            OpV::JNE(_) => jump_effect(pre, s.body[0], pre.cmp & FLAG_EQ == 0, post, r) && io1
                == io0,
            OpV::JMP(_) => jump_effect(pre, s.body[0], true, post, r) && io1 == io0,
            OpV::RUN(_) => run_effect(pre, s.body[0], post, r) && io1 == io0,
            OpV::RET(_) => ret_effect(pre, post, r) && io1 == io0,
            OpV::DIE(_) => r == Ok::<StepOutcome, RuntimeError>(StepOutcome::Halted) && post
                == stopped(pre) && io1 == io0,
            OpV::OUT(_) => print_effect(pre, io0, s.body[0], OpKind::KOut, post, io1, r),
            OpV::PRT(_) => print_effect(pre, io0, s.body[0], OpKind::KPrt, post, io1, r),
            OpV::DBG(_) => print_effect(pre, io0, s.body[0], OpKind::KDbg, post, io1, r),
            OpV::INC(_) => false,
            OpV::RDN(_) => rdn_effect(pre, io0, s.body[0], post, io1, r),
            OpV::RDC(_) => rdc_effect(pre, io0, s.body[0], post, io1, r),
            OpV::RLN(_) => rln_effect(pre, io0, s.body[0], s.body[1], post, io1, r),
        }
    }
}

impl IoBuf {
    /// Remove and return the next input line.
    fn take_line(&mut self) -> (r: Vec<char>)
        requires
            old(self)@.input.len() > 0,
        ensures
            r@ == old(self)@.input[0],
            final(self)@.input == old(self)@.input.drop_first(),
            final(self)@.output == old(self)@.output,
    {
        let l = self.input.remove(0);
        proof {
            assert(self@.input =~= old(self)@.input.drop_first());
        }
        l
    }
}

impl DIS {
    /// Copy of operand `j` of the current statement.
    fn body_tok(&self, j: usize) -> (t: Token)
        requires
            0 <= self@.pc < self@.program.len(),
            j < self@.program[self@.pc].body.len(),
        ensures
            t@ == self@.program[self@.pc].body[j as int],
    {
        self.program[self.pc].body[j].duplicate()
    }

    /// The shape of the current statement's operation.
    fn op_kind_at(&self) -> (k: OpKind)
        requires
            0 <= self@.pc < self@.program.len(),
        ensures
            k == kind_of(self@.program[self@.pc].op),
    {
        match &self.program[self.pc].op {
            Op::MOV(_) => OpKind::KMov,
            Op::ADD(_) => OpKind::KAdd,
            Op::SUB(_) => OpKind::KSub,
            Op::CMP(_) => OpKind::KCmp,
            Op::JLT(_) => OpKind::KJlt,
            Op::JGT(_) => OpKind::KJgt,
            Op::JEQ(_) => OpKind::KJeq,
            Op::JNE(_) => OpKind::KJne,
            Op::JMP(_) => OpKind::KJmp,
            Op::RUN(_) => OpKind::KRun,
            Op::RET(_) => OpKind::KRet,
            Op::DIE(_) => OpKind::KDie,
            Op::OUT(_) => OpKind::KOut,
            Op::PRT(_) => OpKind::KPrt,
            Op::DBG(_) => OpKind::KDbg,
            Op::INC(_) => OpKind::KInc,
            Op::RDN(_) => OpKind::KRdn,
            Op::RDC(_) => OpKind::KRdc,
            Op::RLN(_) => OpKind::KRln,
            Op::NOP => OpKind::KNop,
        }
    }

    /// The statement index the identifier token `t` jumps to. The machine
    /// invariant guarantees the label exists.
    fn target_index(&self, t: &Token) -> (ti: usize)
        requires
            m_wf(self@),
            target_of(self@, t@) is Some,
        ensures
            Some(ti as int) == target_of(self@, t@),
            ti < self@.program.len(),
    {
        let name = match t {
            Token::Identifier { value, .. } => value,
            _ => {
                proof {
                    assert(false);
                }
                return 0;
            },
        };
        proof {
            lemma_label_lookup_in_range(self@.label_map, name@, self@.program.len() as int);
        }
        match self.find_label(name) {
            Some(ti) => ti,
            None => {
                proof {
                    assert(false);
                }
                0
            },
        }
    }

    /// Execute one statement: the machine moves exactly as `step_effect`
    /// says, and the invariant is kept.
    #[verifier::rlimit(100)]
    #[verifier::spinoff_prover]
    pub fn step(&mut self, io: &mut IoBuf) -> (r: Result<StepOutcome, RuntimeError>)
        requires
            m_wf(old(self)@),
        ensures
            m_wf(final(self)@),
            step_effect(old(self)@, old(io)@, final(self)@, final(io)@, r),
    {
        if self.die {
            return Ok(StepOutcome::Halted);
        }
        if self.pc >= self.program.len() {
            self.die = true;
            return Ok(StepOutcome::Halted);
        }
        let ghost pre = self@;
        let k = self.op_kind_at();
        match k {
            OpKind::KNop => {
                self.pc = self.pc + 1;
                Ok(StepOutcome::Ran)
            },
            OpKind::KMov => {
                let src = self.body_tok(0);
                let dst = self.body_tok(1);
                let v = match self.get_value(&src) {
                    Ok(v) => v,
                    Err(e) => {
                        self.die = true;
                        return Err(e);
                    },
                };
                match self.set_value(&dst, v) {
                    Ok(()) => {
                        self.pc = self.pc + 1;
                        Ok(StepOutcome::Ran)
                    },
                    Err(e) => {
                        self.die = true;
                        return Err(e);
                    },
                }
            },
            OpKind::KAdd | OpKind::KSub => {
                let src = self.body_tok(0);
                let dst = self.body_tok(1);
                let v = match self.get_value(&src) {
                    Ok(v) => v,
                    Err(e) => {
                        self.die = true;
                        return Err(e);
                    },
                };
                let d = match self.get_value(&dst) {
                    Ok(d) => d,
                    Err(e) => {
                        self.die = true;
                        return Err(e);
                    },
                };
                let res: u16 = if matches!(k, OpKind::KAdd) {
                    ((d as u32 + v as u32) % 0x10000) as u16
                } else {
                    ((d as u32 + 0x10000 - v as u32) % 0x10000) as u16
                };
                match self.set_value(&dst, res) {
                    Ok(()) => {
                        self.pc = self.pc + 1;
                        Ok(StepOutcome::Ran)
                    },
                    Err(e) => {
                        proof {
                            assert(false);
                        }
                        self.die = true;
                        return Err(e);
                    },
                }
            },
            OpKind::KCmp => {
                let src = self.body_tok(0);
                let dst = self.body_tok(1);
                let a = match self.get_value(&src) {
                    Ok(v) => v,
                    Err(e) => {
                        self.die = true;
                        return Err(e);
                    },
                };
                let b = match self.get_value(&dst) {
                    Ok(d) => d,
                    Err(e) => {
                        self.die = true;
                        return Err(e);
                    },
                };
                self.cmp = if a == b {
                    FLAG_EQ
                } else if a < b {
                    FLAG_LT
                } else {
                    FLAG_GT
                };
                self.pc = self.pc + 1;
                Ok(StepOutcome::Ran)
            },
            OpKind::KJlt | OpKind::KJgt | OpKind::KJeq | OpKind::KJne | OpKind::KJmp => {
                let t = self.body_tok(0);
                let ti = self.target_index(&t);
                let taken = match k {
                    OpKind::KJlt => self.cmp & FLAG_LT != 0,
                    OpKind::KJgt => self.cmp & FLAG_GT != 0,
                    OpKind::KJeq => self.cmp & FLAG_EQ != 0,
                    OpKind::KJne => self.cmp & FLAG_EQ == 0,
                    _ => true,
                };
                if taken {
                    self.pc = ti;
                } else {
                    self.pc = self.pc + 1;
                }
                Ok(StepOutcome::Ran)
            },
            OpKind::KRun => {
                let t = self.body_tok(0);
                if self.return_stack.len() >= STACK_LIMIT {
                    self.die = true;
                    return Err(RuntimeError::StackOverflow);
                }
                let ti = self.target_index(&t);
                self.return_stack.push(self.pc);
                self.pc = ti;
                proof {
                    assert(self@.return_stack =~= pre.return_stack.push(pre.pc));
                }
                Ok(StepOutcome::Ran)
            },
            OpKind::KRet => {
                match self.return_stack.pop() {
                    None => {
                        self.die = true;
                        return Err(RuntimeError::StackUnderflow);
                    },
                    Some(idx) => {
                        proof {
                            assert(pre.return_stack.last() == idx as int);
                            assert(pre.return_stack.last() < pre.program.len());
                        }
                        self.pc = idx + 1;
                        proof {
                            assert(self@.return_stack =~= pre.return_stack.drop_last());
                        }
                        Ok(StepOutcome::Ran)
                    },
                }
            },
            OpKind::KDie => {
                self.die = true;
                Ok(StepOutcome::Halted)
            },
            OpKind::KOut => {
                let t = self.body_tok(0);
                let v = match self.get_value(&t) {
                    Ok(v) => v,
                    Err(e) => {
                        self.die = true;
                        return Err(e);
                    },
                };
                io.output.push((v % 256) as u8);
                self.pc = self.pc + 1;
                proof {
                    assert(io@.output =~= old(io)@.output + seq![(v % 256) as u8]);
                }
                Ok(StepOutcome::Ran)
            },
            OpKind::KPrt => {
                let t = self.body_tok(0);
                let v = match self.get_value(&t) {
                    Ok(v) => v,
                    Err(e) => {
                        self.die = true;
                        return Err(e);
                    },
                };
                push_dec_bytes(&mut io.output, v);
                self.pc = self.pc + 1;
                Ok(StepOutcome::Ran)
            },
            OpKind::KDbg => {
                let t = self.body_tok(0);
                let v = match self.get_value(&t) {
                    Ok(v) => v,
                    Err(e) => {
                        self.die = true;
                        return Err(e);
                    },
                };
                let mut text: Vec<char> = Vec::new();
                text.push('D');
                text.push('B');
                text.push('G');
                text.push(' ');
                let mut rendered = t.render();
                text.append(&mut rendered);
                match &t {
                    Token::Memory { value, .. } => {
                        if value.len() > 0 && value[0] == '#' {
                            let a = self.mem_addr_from_id(value);
                            text.push(' ');
                            text.push('(');
                            text.push('&');
                            push_dec(&mut text, a as u16);
                            text.push(')');
                        }
                    },
                    _ => {},
                }
                text.push(':');
                text.push(' ');
                push_dec(&mut text, v);
                text.push('\n');
                proof {
                    assert(text@ =~= dbg_text(pre, pre.program[pre.pc].body[0], v));
                }
                push_text_utf8(&mut io.output, &text);
                self.pc = self.pc + 1;
                Ok(StepOutcome::Ran)
            },
            OpKind::KInc => {
                // imports are expanded at load time; the machine invariant
                // leaves no `@` statement to execute
                proof {
                    assert(false);
                }
                Err(RuntimeError::StackUnderflow)
            },
            OpKind::KRdn => {
                let dst = self.body_tok(0);
                if self.input_empty(io) {
                    return Ok(StepOutcome::AwaitInput);
                }
                let line = io.take_line();
                let line = trim(&line);
                match parse_u16(&line) {
                    Some(v) => {
                        self.registers[8] = 0;
                        match self.set_value(&dst, v) {
                            Ok(()) => {
                                self.pc = self.pc + 1;
                                Ok(StepOutcome::Ran)
                            },
                            Err(e) => {
                                self.die = true;
                                return Err(e);
                            },
                        }
                    },
                    None => {
                        self.registers[8] = 1;
                        self.pc = self.pc + 1;
                        Ok(StepOutcome::Ran)
                    },
                }
            },
            OpKind::KRdc => {
                let dst = self.body_tok(0);
                if self.input_empty(io) {
                    return Ok(StepOutcome::AwaitInput);
                }
                let line = io.take_line();
                let line = trim(&line);
                if line.len() > 0 {
                    self.registers[8] = 0;
                    let v = char_code(line[0]);
                    match self.set_value(&dst, v) {
                        Ok(()) => {
                            self.pc = self.pc + 1;
                            Ok(StepOutcome::Ran)
                        },
                        Err(e) => {
                            self.die = true;
                            return Err(e);
                        },
                    }
                } else {
                    self.registers[8] = 1;
                    self.pc = self.pc + 1;
                    Ok(StepOutcome::Ran)
                }
            },
            OpKind::KRln => {
                let dst = self.body_tok(0);
                let max_tok = self.body_tok(1);
                let maxv = match self.get_value(&max_tok) {
                    Ok(v) => v,
                    Err(e) => {
                        self.die = true;
                        return Err(e);
                    },
                };
                if self.input_empty(io) {
                    return Ok(StepOutcome::AwaitInput);
                }
                let line = io.take_line();
                let line = trim(&line);
                let n: usize = if maxv == 0 || line.len() < maxv as usize {
                    line.len()
                } else {
                    maxv as usize
                };
                let mem_id = match &dst {
                    Token::Memory { value, .. } => value,
                    _ => {
                        proof {
                            assert(false);
                        }
                        return Err(RuntimeError::StackUnderflow);
                    },
                };
                let a = self.mem_addr_from_id(mem_id);
                if a >= MEM_SIZE {
                    self.die = true;
                    return Err(RuntimeError::MemoryBounds { addr: a });
                }
                if n > MEM_SIZE - a {
                    self.die = true;
                    return Err(RuntimeError::MemoryBounds { addr: MEM_SIZE });
                }
                self.registers[3] = (n % 0x10000) as u16;
                let ghost m1 = self@;
                let mut i: usize = 0;
                while i < n
                    invariant
                        0 <= i <= n,
                        a + n <= MEM_SIZE,
                        n <= line@.len(),
                        self@.memory.len() == MEM_SIZE,
                        self@ == (MachineV { memory: self@.memory, ..m1 }),
                        self@.memory =~= write_mem_line(m1.memory, a as int, line@, i as nat),
                    decreases n - i,
                {
                    let ghost mem_before = self@.memory;
                    let cv: u16 = char_code(line[i]);
                    self.memory[a + i] = cv;
                    proof {
                        assert(self@.memory == mem_before.update(a + i, cv));
                        assert(cv == char_u16(line@[i as int]));
                        assert forall|j: int| 0 <= j < MEM_SIZE implies self@.memory[j]
                            == write_mem_line(m1.memory, a as int, line@, (i + 1) as nat)[j] by {
                            if j == a + i {
                            } else if a <= j < a + i {
                                assert(mem_before[j] == char_u16(line@[j - a]));
                            } else {
                                assert(mem_before[j] == m1.memory[j]);
                            }
                        }
                        assert(self@.memory =~= write_mem_line(
                            m1.memory,
                            a as int,
                            line@,
                            (i + 1) as nat,
                        ));
                    }
                    i = i + 1;
                }
                self.pc = self.pc + 1;
                proof {
                    assert(self@.registers =~= pre.registers.update(3, (n % 0x10000) as u16));
                    assert(self@.memory =~= write_mem_line(pre.memory, a as int, line@, n as nat));
                }
                Ok(StepOutcome::Ran)
            },
        }
    }

    /// Is the input queue empty?
    fn input_empty(&self, io: &IoBuf) -> (r: bool)
        ensures
            r == (io@.input.len() == 0),
    {
        io.input.len() == 0
    }
}

/// Every index a lookup can return lies under `n` when every entry does.
pub proof fn lemma_label_lookup_in_range(lm: Seq<(Seq<char>, int)>, name: Seq<char>, n: int)
    requires
        forall|k: int| 0 <= k < lm.len() ==> 0 <= (#[trigger] lm[k]).1 < n,
    ensures
        label_lookup(lm, name) matches Some(ti) ==> 0 <= ti < n,
    decreases lm.len(),
{
    if lm.len() > 0 && lm[0].0 != name {
        assert(forall|k: int|
            0 <= k < lm.drop_first().len() ==> 0 <= (#[trigger] lm.drop_first()[k]).1 < n);
        lemma_label_lookup_in_range(lm.drop_first(), name, n);
    }
}

/// The label a statement defines, if any.
pub open spec fn stmt_has_label(s: StatementV, name: Seq<char>) -> bool {
    s.label matches Some(TokenV::Label { value, .. }) && value == name
}

/// The location of a statement's label.
pub open spec fn label_loc(s: StatementV) -> crate::lexer::LocV {
    match s.label {
        Some(t) => t.loc(),
        None => crate::lexer::LocV { file: Seq::empty(), line: 0, column: 0 },
    }
}

/// Walking the program from `k` with the entries `acc` already indexed:
/// either the full label map, or the name and both statement indices of the
/// first duplicate.
pub open spec fn spec_index_labels(
    prog: Seq<StatementV>,
    k: int,
    acc: Seq<(Seq<char>, int)>,
) -> Result<Seq<(Seq<char>, int)>, (Seq<char>, int, int)>
    decreases prog.len() - k,
    when 0 <= k <= prog.len()
{
    if k >= prog.len() {
        Ok(acc)
    } else {
        match prog[k].label {
            Some(TokenV::Label { value, .. }) => match label_lookup(acc, value) {
                Some(i) => Err((value, i, k)),
                None => spec_index_labels(prog, k + 1, acc.push((value, k))),
            },
            _ => spec_index_labels(prog, k + 1, acc),
        }
    }
}

/// A lookup that finds something found an entry.
pub proof fn lemma_lookup_found(lm: Seq<(Seq<char>, int)>, name: Seq<char>)
    ensures
        label_lookup(lm, name) matches Some(i) ==> exists|e: int|
            0 <= e < lm.len() && #[trigger] lm[e] == (name, i),
    decreases lm.len(),
{
    if lm.len() > 0 {
        if lm[0].0 == name {
            assert(lm[0] == (name, lm[0].1));
        } else {
            lemma_lookup_found(lm.drop_first(), name);
            match label_lookup(lm.drop_first(), name) {
                Some(i) => {
                    let e = choose|e: int|
                        0 <= e < lm.drop_first().len() && #[trigger] lm.drop_first()[e] == (
                        name,
                        i,
                        );
                    assert(lm[e + 1] == (name, i));
                },
                None => {},
            }
        }
    }
}

/// A lookup that finds nothing means no entry bears the name.
pub proof fn lemma_lookup_none(lm: Seq<(Seq<char>, int)>, name: Seq<char>)
    ensures
        label_lookup(lm, name) is None ==> forall|e: int|
            0 <= e < lm.len() ==> (#[trigger] lm[e]).0 != name,
    decreases lm.len(),
{
    if lm.len() > 0 && lm[0].0 != name {
        lemma_lookup_none(lm.drop_first(), name);
        if label_lookup(lm, name) is None {
            assert forall|e: int| 0 <= e < lm.len() implies (#[trigger] lm[e]).0 != name by {
                if e >= 1 {
                    assert(lm.drop_first()[e - 1] == lm[e]);
                }
            }
        }
    }
}

/// Indexing keeps the entries unique and pointing at the statements that
/// define them.
pub proof fn lemma_index_props(prog: Seq<StatementV>, k: int, acc: Seq<(Seq<char>, int)>)
    requires
        0 <= k <= prog.len(),
        labels_unique(acc),
        forall|e: int|
            0 <= e < acc.len() ==> 0 <= (#[trigger] acc[e]).1 < prog.len() && stmt_has_label(
                prog[acc[e].1],
                acc[e].0,
            ),
    ensures
        spec_index_labels(prog, k, acc) matches Ok(lm) ==> labels_unique(lm) && forall|e: int|
            0 <= e < lm.len() ==> 0 <= (#[trigger] lm[e]).1 < prog.len() && stmt_has_label(
                prog[lm[e].1],
                lm[e].0,
            ),
    decreases prog.len() - k,
{
    if k < prog.len() {
        match prog[k].label {
            Some(TokenV::Label { value, .. }) => match label_lookup(acc, value) {
                Some(i) => {},
                None => {
                    lemma_lookup_none(acc, value);
                    let acc2 = acc.push((value, k));
                    assert(labels_unique(acc2)) by {
                        assert forall|i: int, j: int| 0 <= i < j < acc2.len() implies (
                        #[trigger] acc2[i]).0 != (#[trigger] acc2[j]).0 by {
                            if j < acc.len() {
                            } else {
                                assert(acc2[j] == (value, k));
                                assert(acc2[i] == acc[i]);
                            }
                        }
                    }
                    lemma_index_props(prog, k + 1, acc2);
                },
            },
            _ => {
                lemma_index_props(prog, k + 1, acc);
            },
        }
    }
}

/// Does every control transfer of `s` name a label of `lm`?
pub open spec fn resolves(lm: Seq<(Seq<char>, int)>, s: StatementV) -> bool {
    is_jump(s.op) ==> s.body.len() == 1 && (s.body[0] matches TokenV::Identifier { value, .. }
        && label_lookup(lm, value) is Some)
}

/// The first statement from `k` on whose control transfer has no target.
pub open spec fn first_unresolved(
    prog: Seq<StatementV>,
    lm: Seq<(Seq<char>, int)>,
    k: int,
) -> Option<int>
    decreases prog.len() - k,
    when 0 <= k <= prog.len()
{
    if k >= prog.len() {
        None
    } else if !resolves(lm, prog[k]) {
        Some(k)
    } else {
        first_unresolved(prog, lm, k + 1)
    }
}

pub proof fn lemma_unresolved_none(prog: Seq<StatementV>, lm: Seq<(Seq<char>, int)>, k: int)
    requires
        0 <= k <= prog.len(),
    ensures
        first_unresolved(prog, lm, k) is None ==> forall|i: int|
            k <= i < prog.len() ==> resolves(lm, #[trigger] prog[i]),
    decreases prog.len() - k,
{
    if k < prog.len() && resolves(lm, prog[k]) {
        lemma_unresolved_none(prog, lm, k + 1);
    }
}

impl DIS {
    /// Record each labelled statement's index; the first name defined twice
    /// stops the pass, citing both definitions.
    fn index_labels(&mut self) -> (r: Result<(), LoadError>)
        requires
            old(self)@.label_map.len() == 0,
            forall|i: int|
                0 <= i < old(self)@.program.len() ==> wf_label(#[trigger] old(self)@.program[i]),
        ensures
            final(self)@ == (MachineV { label_map: final(self)@.label_map, ..old(self)@ }),
            match spec_index_labels(old(self)@.program, 0, Seq::empty()) {
                Ok(lm) => r is Ok && final(self)@.label_map == lm,
                Err(t3) => r matches Err(LoadError::DuplicateLabel { name, first, second })
                    && name@ == t3.0 && first@ == label_loc(old(self)@.program[t3.1]) && second@
                    == label_loc(old(self)@.program[t3.2]),
            },
    {
        let ghost prog = self@.program;
        proof {
            assert(self@.label_map =~= Seq::<(Seq<char>, int)>::empty());
        }
        let mut idx: usize = 0;
        while idx < self.program.len()
            invariant
                m_label_inv(old(self)@, self@, prog, idx as int),
            decreases self@.program.len() - idx,
        {
            proof {
                assert(prog[idx as int] == self.program@[idx as int]@);
            }
            let label_opt = match &self.program[idx].label {
                Some(Token::Label { value, .. }) => Some(copy_chars(value)),
                _ => None,
            };
            match label_opt {
                Some(name) => {
                    match self.find_label(&name) {
                        Some(first_idx) => {
                            proof {
                                lemma_lookup_found(self@.label_map, name@);
                                assert(stmt_has_label(prog[first_idx as int], name@));
                                assert(prog[first_idx as int]
                                    == self.program@[first_idx as int]@);
                            }
                            let first = match &self.program[first_idx].label {
                                Some(t) => t.loc().duplicate(),
                                None => {
                                    proof {
                                        assert(false);
                                    }
                                    return Ok(());
                                },
                            };
                            let second = match &self.program[idx].label {
                                Some(t) => t.loc().duplicate(),
                                None => {
                                    proof {
                                        assert(false);
                                    }
                                    return Ok(());
                                },
                            };
                            return Err(LoadError::DuplicateLabel { name, first, second });
                        },
                        None => {
                            let ghost lm0 = self@.label_map;
                            self.label_map.push((name, idx));
                            proof {
                                assert(self@.label_map =~= lm0.push((name@, idx as int)));
                                lemma_lookup_none(lm0, name@);
                            }
                        },
                    }
                },
                None => {},
            }
            idx = idx + 1;
        }
        Ok(())
    }

    /// Check that every control transfer names a defined label; the first
    /// that does not stops the pass.
    fn ensure_labels(&self) -> (r: Result<(), LoadError>)
        requires
            forall|i: int|
                0 <= i < self@.program.len() ==> wf_statement(#[trigger] self@.program[i]),
        ensures
            match first_unresolved(self@.program, self@.label_map, 0) {
                None => r is Ok,
                Some(k) => r matches Err(LoadError::UndefinedLabel { name, loc })
                    && self@.program[k].body[0] matches TokenV::Identifier { value, loc: l2 }
                    && name@ == value && loc@ == l2,
            },
    {
        let ghost prog = self@.program;
        let ghost lm = self@.label_map;
        let mut k: usize = 0;
        while k < self.program.len()
            invariant
                prog == self@.program,
                lm == self@.label_map,
                0 <= k <= prog.len(),
                forall|i: int| 0 <= i < prog.len() ==> wf_statement(#[trigger] prog[i]),
                first_unresolved(prog, lm, 0) == first_unresolved(prog, lm, k as int),
            decreases prog.len() - k,
        {
            let is_transfer = match &self.program[k].op {
                Op::JLT(_) | Op::JGT(_) | Op::JEQ(_) | Op::JNE(_) | Op::JMP(_) | Op::RUN(_) => true,
                _ => false,
            };
            if is_transfer {
                let name = match &self.program[k].body[0] {
                    Token::Identifier { value, .. } => copy_chars(value),
                    _ => {
                        proof {
                            assert(false);
                        }
                        return Ok(());
                    },
                };
                match self.find_label(&name) {
                    Some(_) => {},
                    None => {
                        let loc = match &self.program[k].body[0] {
                            Token::Identifier { loc, .. } => loc.duplicate(),
                            _ => {
                                proof {
                                    assert(false);
                                }
                                return Ok(());
                            },
                        };
                        return Err(LoadError::UndefinedLabel { name, loc });
                    },
                }
            }
            k = k + 1;
        }
        Ok(())
    }

    /// Install a parsed, import-free program: the machine is reset, the
    /// labels are indexed and every control transfer checked. On failure
    /// the machine is left freshly reset, with no program.
    pub fn load(&mut self, program: Vec<Statement>) -> (r: Result<(), LoadError>)
        requires
            forall|i: int|
                0 <= i < program.deep_view().len() ==> wf_statement(
                    #[trigger] program.deep_view()[i],
                ) && wf_label(program.deep_view()[i]) && !(program.deep_view()[i].op is INC),
        ensures
            m_wf(final(self)@),
            match r {
                Ok(()) => spec_index_labels(program.deep_view(), 0, Seq::empty()) matches Ok(lm)
                    && final(self)@ == (MachineV {
                    program: program.deep_view(),
                    label_map: lm,
                    ..initial_machine()
                }) && first_unresolved(program.deep_view(), lm, 0) is None,
                Err(e) => final(self)@ == initial_machine() && match e {
                    LoadError::DuplicateLabel { name, first, second } => spec_index_labels(
                        program.deep_view(),
                        0,
                        Seq::empty(),
                    ) matches Err(t3) && name@ == t3.0 && first@ == label_loc(
                        program.deep_view()[t3.1],
                    ) && second@ == label_loc(program.deep_view()[t3.2]),
                    LoadError::UndefinedLabel { name, loc } => spec_index_labels(
                        program.deep_view(),
                        0,
                        Seq::empty(),
                    ) matches Ok(lm) && first_unresolved(program.deep_view(), lm, 0) matches Some(
                        k,
                    ) && program.deep_view()[k].body[0] matches TokenV::Identifier {
                        value,
                        loc: l2,
                    } && name@ == value && loc@ == l2,
                    _ => false,
                },
            },
    {
        let ghost pdv = program.deep_view();
        self.reset();
        self.program = program;
        proof {
            assert(self@ == (MachineV { program: pdv, ..initial_machine() }));
        }
        match self.index_labels() {
            Err(e) => {
                self.reset();
                return Err(e);
            },
            Ok(()) => {},
        }
        match self.ensure_labels() {
            Err(e) => {
                self.reset();
                return Err(e);
            },
            Ok(()) => {},
        }
        proof {
            lemma_index_props(pdv, 0, Seq::empty());
            lemma_unresolved_none(pdv, self@.label_map, 0);
            assert forall|i: int| 0 <= i < pdv.len() implies jump_ok(self@, #[trigger] pdv[i]) by {
                assert(resolves(self@.label_map, pdv[i]));
            }
        }
        Ok(())
    }
}

/// Invariant of the label-indexing pass.
pub open spec fn m_label_inv(pre: MachineV, cur: MachineV, prog: Seq<StatementV>, idx: int) -> bool {
    &&& cur == (MachineV { label_map: cur.label_map, ..pre })
    &&& prog == pre.program
    &&& 0 <= idx <= prog.len()
    &&& forall|i: int| 0 <= i < prog.len() ==> wf_label(#[trigger] prog[i])
    &&& spec_index_labels(prog, 0, Seq::empty()) == spec_index_labels(prog, idx, cur.label_map)
    &&& forall|e: int|
        0 <= e < cur.label_map.len() ==> 0 <= (#[trigger] cur.label_map[e]).1 < prog.len()
            && stmt_has_label(prog[cur.label_map[e].1], cur.label_map[e].0)
}

/// `n` ordinary ticks (each returning `Ran`) lead from `p0` to `p1`.
pub open spec fn steps_to(p0: (MachineV, IoV), p1: (MachineV, IoV), n: nat) -> bool
    decreases n,
{
    if n == 0 {
        p1 == p0
    } else {
        exists|mid: (MachineV, IoV)|
            steps_to(p0, mid, (n - 1) as nat) && #[trigger] step_effect(
                mid.0,
                mid.1,
                p1.0,
                p1.1,
                Ok(StepOutcome::Ran),
            )
    }
}

impl DIS {
    /// Tick up to `fuel` times, stopping early when the machine halts,
    /// fails, or wants input. `Ok(Ran)` means the whole budget was spent
    /// while the machine was still going — exactly `fuel` ordinary ticks
    /// were executed — so call again to go on. A host that wants the
    /// unbounded loop of the language simply calls this repeatedly.
    pub fn run(&mut self, io: &mut IoBuf, fuel: usize) -> (r: Result<StepOutcome, RuntimeError>)
        requires
            m_wf(old(self)@),
        ensures
            m_wf(final(self)@),
            match r {
                Ok(StepOutcome::Ran) => steps_to(
                    (old(self)@, old(io)@),
                    (final(self)@, final(io)@),
                    fuel as nat,
                ),
                _ => exists|n: nat, mid: (MachineV, IoV)|
                    n < fuel && #[trigger] steps_to((old(self)@, old(io)@), mid, n)
                        && step_effect(mid.0, mid.1, final(self)@, final(io)@, r),
            },
    {
        let ghost start = (old(self)@, old(io)@);
        let ghost mut n: nat = 0;
        proof {
            assert(steps_to(start, (self@, io@), 0));
        }
        let mut k: usize = 0;
        while k < fuel
            invariant
                m_wf(self@),
                start == (old(self)@, old(io)@),
                n == k as nat,
                k <= fuel,
                steps_to(start, (self@, io@), n),
            decreases fuel - k,
        {
            let ghost pre_pair = (self@, io@);
            let step_r = self.step(io);
            match step_r {
                Ok(StepOutcome::Ran) => {
                    proof {
                        let cur = (self@, io@);
                        assert(steps_to(start, pre_pair, n));
                        assert(step_effect(pre_pair.0, pre_pair.1, cur.0, cur.1, Ok(
                            StepOutcome::Ran,
                        )));
                        n = n + 1;
                        assert(steps_to(start, cur, n));
                        assert(steps_to(start, (self@, io@), n));
                    }
                },
                _ => {
                    return step_r;
                },
            }
            k = k + 1;
        }
        Ok(StepOutcome::Ran)
    }
}

} // verus!
