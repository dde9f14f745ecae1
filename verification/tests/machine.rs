use dis::dis::{IoBuf, StepOutcome, DIS};
use dis::errors::RuntimeError;
use dis::loader::Loader;

fn chars(s: &str) -> Vec<char> {
    s.chars().collect()
}

fn load(src: &str) -> DIS {
    let mut loader = Loader::new(chars("main.dis"));
    loader.supply(chars(src)).expect("source should load");
    assert!(loader.is_done());
    let mut machine = DIS::new();
    machine.load(loader.finish()).expect("program should link");
    machine
}

fn run_all(machine: &mut DIS, io: &mut IoBuf) -> Result<StepOutcome, RuntimeError> {
    machine.run(io, 1_000_000)
}

fn output_text(io: &IoBuf) -> String {
    String::from_utf8(io.output.clone()).expect("output should be text")
}

#[test]
fn out_writes_the_low_byte() {
    let mut m = load("out .H out 33 die");
    let mut io = IoBuf::new();
    assert_eq!(run_all(&mut m, &mut io), Ok(StepOutcome::Halted));
    assert_eq!(io.output, vec![b'H', 33]);
    assert!(m.halted());
}

#[test]
fn prt_writes_decimal() {
    let mut m = load("prt 0 prt 65535 prt 1000 die");
    let mut io = IoBuf::new();
    run_all(&mut m, &mut io).unwrap();
    assert_eq!(output_text(&io), "0655351000");
}

#[test]
fn mov_lands_in_registers_and_memory() {
    let mut m = load("mov 7 #4 mov 9 &100 die");
    let mut io = IoBuf::new();
    run_all(&mut m, &mut io).unwrap();
    assert_eq!(m.reg(4), 7);
    assert_eq!(m.mem(100), 9);
}

#[test]
fn mov_is_idempotent_at_the_destination() {
    let mut once = load("mov .Q #2 die");
    let mut twice = load("mov .Q #2 mov .Q #2 die");
    let mut io1 = IoBuf::new();
    let mut io2 = IoBuf::new();
    run_all(&mut once, &mut io1).unwrap();
    run_all(&mut twice, &mut io2).unwrap();
    assert_eq!(once.reg(2), twice.reg(2));
    assert_eq!(once.reg(2), 'Q' as u16);
}

#[test]
fn add_and_sub_wrap_modulo_two_to_the_sixteen() {
    let mut m = load("mov 65535 #0 add 1 #0 mov 0 #1 sub 1 #1 mov 70 &9 add 200 &9 die");
    let mut io = IoBuf::new();
    run_all(&mut m, &mut io).unwrap();
    assert_eq!(m.reg(0), 0);
    assert_eq!(m.reg(1), 65535);
    assert_eq!(m.mem(9), 270);
}

#[test]
fn add_reads_the_destination_too() {
    let mut m = load("mov 40 #0 add 2 #0 die");
    let mut io = IoBuf::new();
    run_all(&mut m, &mut io).unwrap();
    assert_eq!(m.reg(0), 42);
}

#[test]
fn cmp_sets_exactly_one_flag() {
    for (a, b, expect) in [(5, 5, 1u8), (4, 5, 2u8), (6, 5, 4u8)] {
        let src = format!("mov {} #1 mov {} #2 cmp #1 #2 die", a, b);
        let mut m = load(&src);
        let mut io = IoBuf::new();
        run_all(&mut m, &mut io).unwrap();
        assert_eq!(m.flags(), expect, "cmp {} {}", a, b);
    }
}

#[test]
fn conditional_jumps_follow_the_flags() {
    // equal: jeq taken, jne not
    let mut m = load("mov 3 #1 cmp #1 #1 jeq yes out .N die yes: out .Y die");
    let mut io = IoBuf::new();
    run_all(&mut m, &mut io).unwrap();
    assert_eq!(output_text(&io), "Y");

    let mut m = load("mov 1 #1 mov 2 #2 cmp #1 #2 jlt less out .N die less: out .L die");
    let mut io = IoBuf::new();
    run_all(&mut m, &mut io).unwrap();
    assert_eq!(output_text(&io), "L");

    let mut m = load("mov 9 #1 mov 2 #2 cmp #1 #2 jgt more out .N die more: out .G die");
    let mut io = IoBuf::new();
    run_all(&mut m, &mut io).unwrap();
    assert_eq!(output_text(&io), "G");

    let mut m = load("mov 9 #1 mov 2 #2 cmp #1 #2 jne differ out .N die differ: out .D die");
    let mut io = IoBuf::new();
    run_all(&mut m, &mut io).unwrap();
    assert_eq!(output_text(&io), "D");
}

#[test]
fn jmp_is_unconditional() {
    let mut m = load("jmp skip out .X skip: out .O die");
    let mut io = IoBuf::new();
    run_all(&mut m, &mut io).unwrap();
    assert_eq!(output_text(&io), "O");
}

#[test]
fn jump_to_the_first_statement_works() {
    // a taken jump to index 0 must re-execute the first statement
    let mut m = load("first: add 1 #0 cmp #0 #1 mov 3 #1 jne first die");
    let mut io = IoBuf::new();
    // #1 is 3 only after the first pass; the loop runs until #0 == 3
    run_all(&mut m, &mut io).unwrap();
    assert_eq!(m.reg(0), 3);
}

#[test]
fn ret_with_empty_stack_underflows() {
    let mut m = load("ret");
    let mut io = IoBuf::new();
    assert_eq!(run_all(&mut m, &mut io), Err(RuntimeError::StackUnderflow));
    assert!(m.halted());
}

#[test]
fn deep_recursion_overflows_the_return_stack() {
    let mut m = load("again: run again");
    let mut io = IoBuf::new();
    assert_eq!(run_all(&mut m, &mut io), Err(RuntimeError::StackOverflow));
    assert!(m.halted());
}

#[test]
fn out_of_range_indirect_access_is_caught() {
    let mut m = load("mov 5000 #0 mov 1 &#0 die");
    let mut io = IoBuf::new();
    assert_eq!(run_all(&mut m, &mut io), Err(RuntimeError::MemoryBounds { addr: 5000 }));
    assert!(m.halted());
}

#[test]
fn rdn_reads_a_number_and_clears_e() {
    let mut m = load("rdn #0 die");
    let mut io = IoBuf::new();
    io.input.push(chars("123\n"));
    run_all(&mut m, &mut io).unwrap();
    assert_eq!(m.reg(0), 123);
    assert_eq!(m.reg(8), 0);
}

#[test]
fn rdn_flags_a_bad_number_and_leaves_the_place() {
    let mut m = load("mov 9 #0 rdn #0 die");
    let mut io = IoBuf::new();
    io.input.push(chars("abc\n"));
    run_all(&mut m, &mut io).unwrap();
    assert_eq!(m.reg(0), 9, "destination untouched");
    assert_eq!(m.reg(8), 1, "error flag set");
}

#[test]
fn rdc_takes_the_first_character() {
    let mut m = load("rdc #5 die");
    let mut io = IoBuf::new();
    io.input.push(chars("  Zebra\n"));
    run_all(&mut m, &mut io).unwrap();
    assert_eq!(m.reg(5), 'Z' as u16);
    assert_eq!(m.reg(8), 0);
}

#[test]
fn rdc_flags_an_empty_line() {
    let mut m = load("rdc #5 die");
    let mut io = IoBuf::new();
    io.input.push(chars("\n"));
    run_all(&mut m, &mut io).unwrap();
    assert_eq!(m.reg(8), 1);
}

#[test]
fn rln_copies_a_line_into_memory() {
    let mut m = load("rln &100 0 die");
    let mut io = IoBuf::new();
    io.input.push(chars("hi!\n"));
    run_all(&mut m, &mut io).unwrap();
    assert_eq!(m.mem(100), 'h' as u16);
    assert_eq!(m.mem(101), 'i' as u16);
    assert_eq!(m.mem(102), '!' as u16);
    assert_eq!(m.reg(3), 3, "register 3 holds the count");
}

#[test]
fn rln_clamps_to_its_limit() {
    let mut m = load("rln &200 2 die");
    let mut io = IoBuf::new();
    io.input.push(chars("hello\n"));
    run_all(&mut m, &mut io).unwrap();
    assert_eq!(m.mem(200), 'h' as u16);
    assert_eq!(m.mem(201), 'e' as u16);
    assert_eq!(m.mem(202), 0, "nothing beyond the limit");
    assert_eq!(m.reg(3), 2);
}

#[test]
fn reading_without_input_awaits_the_host() {
    let mut m = load("rdn #0 die");
    let mut io = IoBuf::new();
    assert_eq!(run_all(&mut m, &mut io), Ok(StepOutcome::AwaitInput));
    assert!(!m.halted(), "the machine is untouched");
    io.input.push(chars("7"));
    assert_eq!(run_all(&mut m, &mut io), Ok(StepOutcome::Halted));
    assert_eq!(m.reg(0), 7);
}

#[test]
fn running_off_the_end_halts() {
    let mut m = load("out .E");
    let mut io = IoBuf::new();
    assert_eq!(run_all(&mut m, &mut io), Ok(StepOutcome::Halted));
    assert_eq!(output_text(&io), "E");
    assert!(m.halted());
}

#[test]
fn a_halted_machine_stays_halted() {
    let mut m = load("die");
    let mut io = IoBuf::new();
    run_all(&mut m, &mut io).unwrap();
    assert_eq!(m.step(&mut io), Ok(StepOutcome::Halted));
    assert_eq!(m.step(&mut io), Ok(StepOutcome::Halted));
}

#[test]
fn the_fuel_budget_pauses_an_endless_loop() {
    let mut m = load("spin: jmp spin");
    let mut io = IoBuf::new();
    assert_eq!(m.run(&mut io, 1000), Ok(StepOutcome::Ran));
    assert!(!m.halted());
}

#[test]
fn dbg_prints_a_diagnostic_line() {
    let mut m = load("mov 10 #0 mov 7 &#0 dbg &#0 dbg 5 dbg .A dbg #0 die");
    let mut io = IoBuf::new();
    run_all(&mut m, &mut io).unwrap();
    assert_eq!(
        output_text(&io),
        "DBG &#0 (&10): 7\nDBG 5: 5\nDBG .A: 65\nDBG #0: 10\n"
    );
}

#[test]
fn step_executes_one_statement_at_a_time() {
    let mut m = load("mov 1 #0 mov 2 #1 die");
    let mut io = IoBuf::new();
    assert_eq!(m.pc(), 0);
    assert_eq!(m.step(&mut io), Ok(StepOutcome::Ran));
    assert_eq!(m.pc(), 1);
    assert_eq!(m.reg(0), 1);
    assert_eq!(m.reg(1), 0);
    assert_eq!(m.step(&mut io), Ok(StepOutcome::Ran));
    assert_eq!(m.reg(1), 2);
    assert_eq!(m.step(&mut io), Ok(StepOutcome::Halted));
    assert!(m.halted());
}

#[test]
fn the_machine_starts_zeroed() {
    let m = DIS::new();
    assert_eq!(m.pc(), 0);
    assert!(!m.halted());
    assert_eq!(m.flags(), 0);
    assert_eq!(m.program_len(), 0);
    for i in 0..9 {
        assert_eq!(m.reg(i), 0);
    }
    assert_eq!(m.mem(0), 0);
    assert_eq!(m.mem(4095), 0);
}

#[test]
fn rln_must_fit_in_memory() {
    let mut m = load("mov 4090 #0 rln &#0 0 die");
    let mut io = IoBuf::new();
    io.input.push(chars("0123456789X"));
    assert_eq!(run_all(&mut m, &mut io), Err(RuntimeError::MemoryBounds { addr: 4096 }));
    assert!(m.halted());
}

#[test]
fn rln_base_address_must_be_in_range() {
    let mut m = load("mov 5000 #0 rln &#0 0 die");
    let mut io = IoBuf::new();
    io.input.push(chars("x"));
    assert_eq!(run_all(&mut m, &mut io), Err(RuntimeError::MemoryBounds { addr: 5000 }));
}

#[test]
fn any_whitespace_separates_words() {
    let mut m = load("mov\t1\r\n#6  die");
    let mut io = IoBuf::new();
    run_all(&mut m, &mut io).unwrap();
    assert_eq!(m.reg(6), 1);
}

#[test]
fn the_error_register_is_register_e() {
    // `e` sits at file index 8 and programs can read it back
    let mut m = load("rdn #0 mov #e #7 die");
    let mut io = IoBuf::new();
    io.input.push(chars("not a number"));
    run_all(&mut m, &mut io).unwrap();
    assert_eq!(m.reg(7), 1);
}

#[test]
fn the_budget_spends_exactly_its_ticks() {
    // a run that returns Ran has executed exactly its fuel's worth
    let mut m = load("add 1 #0 add 1 #0 add 1 #0 add 1 #0 die");
    let mut io = IoBuf::new();
    assert_eq!(m.run(&mut io, 3), Ok(StepOutcome::Ran));
    assert_eq!(m.reg(0), 3);
    assert_eq!(m.pc(), 3);
    assert_eq!(m.run(&mut io, 1000), Ok(StepOutcome::Halted));
    assert_eq!(m.reg(0), 4);
}
