use fucker::ast::AST;
use fucker::interp::Fucker;
use fucker::interp::RunStatus;

fn run_source(src: &str, input: &[u8], fuel: u64) -> (RunStatus, Vec<u8>) {
    let ast = AST::parse(src).unwrap();
    let mut f = Fucker::new(&ast.data, input.to_vec());
    let status = f.run(fuel);
    (status, f.machine.output)
}

#[test]
fn hello_world() {
    let src = "++++++++++[>+++++++>++++++++++>+++>++++<<<<-]>++.>+.+++++++..+++.\
               >>++++.<++.<<+++++++++++++++.>.+++.------.--------.>+.<<<++++++++++.";
    let (status, output) = run_source(src, b"", 1000);
    assert_eq!(status, RunStatus::Done);
    assert_eq!(output, b"Hello, World!\n".to_vec());
}

#[test]
fn echo() {
    // Reads bytes and echoes them until end of input reads a zero.
    let (status, output) = run_source(",[.,]", b"abc", 1000);
    assert_eq!(status, RunStatus::Done);
    assert_eq!(output, b"abc".to_vec());
}

#[test]
fn wrap_around() {
    // 256 increments wrap the cell back to zero before it is printed.
    let src: String = "+".repeat(256) + ".";
    let (status, output) = run_source(&src, b"", 1000);
    assert_eq!(status, RunStatus::Done);
    assert_eq!(output, vec![0u8]);
}

#[test]
fn read_at_end_of_input_stores_zero() {
    let (status, output) = run_source(",.", b"", 1000);
    assert_eq!(status, RunStatus::Done);
    assert_eq!(output, vec![0u8]);
}

#[test]
fn pointer_underflow_faults() {
    let (status, output) = run_source("<.", b"", 1000);
    assert_eq!(status, RunStatus::Fault);
    assert_eq!(output, Vec::<u8>::new());
}

#[test]
fn nonterminating_program_runs_out_of_fuel() {
    let (status, _) = run_source("+[]", b"", 3);
    assert_eq!(status, RunStatus::OutOfFuel);
}

#[test]
fn elided_leading_loop_changes_nothing() {
    // `[-]` at the start can never run; with or without it the program
    // behaves the same.
    let (s1, o1) = run_source("[-]+++.", b"", 1000);
    let (s2, o2) = run_source("+++.", b"", 1000);
    assert_eq!(s1, s2);
    assert_eq!(o1, o2);
}

#[test]
fn loop_counts_down() {
    // 65 in cell 0, copy-as-count into `A` printed once.
    let (status, output) = run_source("+++++[>+++++++++++++<-]>.", b"", 1000);
    assert_eq!(status, RunStatus::Done);
    assert_eq!(output, b"A".to_vec());
}
