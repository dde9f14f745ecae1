use dis::dis::{IoBuf, StepOutcome, DIS};
use dis::loader::Loader;

fn chars(s: &str) -> Vec<char> {
    s.chars().collect()
}

fn load(src: &str) -> DIS {
    let mut loader = Loader::new(chars("main.dis"));
    loader.supply(chars(src)).expect("source should load");
    let mut machine = DIS::new();
    machine.load(loader.finish()).expect("program should link");
    machine
}

fn run_and_capture(src: &str) -> String {
    let mut m = load(src);
    let mut io = IoBuf::new();
    assert_eq!(m.run(&mut io, 1_000_000), Ok(StepOutcome::Halted));
    String::from_utf8(io.output).expect("output should be text")
}

#[test]
fn hello() {
    let out = run_and_capture("mov .H #0  out #0  mov .i #0  out #0  die");
    assert_eq!(out, "Hi");
}

#[test]
fn counting_loop() {
    // count 0, 1, 2, separated by X; the compared bound sits in a register,
    // since `cmp` writes its flags against a readable value and a place
    let out = run_and_capture(
        "mov 0 #0 mov 3 #1\nloop: prt #0 out .X  add 1 #0  cmp #0 #1  jne loop  die",
    );
    assert_eq!(out, "0X1X2X");
}

#[test]
fn subroutine() {
    let out = run_and_capture(
        "run greet  die\ngreet: mov .O #0 out #0 mov .k #0 out #0 ret",
    );
    assert_eq!(out, "Ok");
}

#[test]
fn nested_subroutines_return_in_order() {
    let out = run_and_capture(
        "run a out .1 die\na: out .2 run b out .3 ret\nb: out .4 ret",
    );
    assert_eq!(out, "2431");
}

#[test]
fn indirect_memory() {
    let out = run_and_capture("mov 10 #0  mov 65 &#0  out &10  die");
    assert_eq!(out, "A");
}

#[test]
fn a_program_reads_echoes_and_sums() {
    let mut m = load("rdn #0 rdn #1 add #0 #1 prt #1 die");
    let mut io = IoBuf::new();
    io.input.push(chars("30"));
    io.input.push(chars("12"));
    assert_eq!(m.run(&mut io, 1000), Ok(StepOutcome::Halted));
    assert_eq!(String::from_utf8(io.output).unwrap(), "42");
}
