use brainfuck_vm::brainfuck::InterpreterBase;
use brainfuck_vm::indexed::{Get, Indexed, Len, ToVec};
use brainfuck_vm::instructions::{
    Decr, Incr, Instruction, Loop, LoopEnd, LoopStart, MoveLeft, MoveRight, Opcode,
};
use brainfuck_vm::interpreter::{execute, execute_within, Interpreter};
use brainfuck_vm::numbers::Number;
use brainfuck_vm::program::{opcode_from_byte, Program};

const HELLO: &str = "+++++++++[>++++++++>+++++++++++>++++>+++++++++>+++++++++++++<<<<<-]>.>++.+++++++..+++.>----.>+++.>++++.<<<+.-----------.>>>------.<<+.";

fn program(source: &str) -> Program {
    Program::parse(source.as_bytes()).unwrap()
}

fn run(source: &str, ram: Indexed) -> InterpreterBase {
    execute(program(source), ram)
}

fn data(tape: &Indexed) -> Vec<usize> {
    brainfuck_vm::indexed::Debug::data(tape)
}

fn index(tape: &Indexed) -> usize {
    brainfuck_vm::indexed::Debug::index(tape)
}

#[test]
fn test_loop() {
    // memory is init to [3] with pointer at index 0
    let ram = Indexed::from_values(0, &[3]);
    assert_eq!(data(&ram), [3]);
    assert_eq!(index(&ram), 0);
    let end = run("[-]>+.", ram);
    assert_eq!(data(&end.ram), [0, 1]);
    assert_eq!(index(&end.ram), 1);
    assert_eq!(data(&end.output), [1]);
}

#[test]
fn test_loop2() {
    let end = run("++[-]+", Indexed::new());
    assert_eq!(data(&end.ram), [1]);
}

#[test]
fn empty_loop() {
    let end = run("[>-<]", Indexed::from_values(0, &[0, 1]));
    assert_eq!(data(&end.ram), [0, 1]);
}

#[test]
fn base_loop_3() {
    let mut code = Interpreter::new(program("[>+<-]"), Indexed::from_values(0, &[9]));
    // from the loop's start to its test
    assert!(!code.run(1));
    // one test and the four opcodes of the body
    assert!(!code.run(5));
    assert_eq!(code.data(), [8, 1]);
    assert!(!code.run(5));
    assert_eq!(code.data(), [7, 2]);
    assert!(!code.run(5));
    assert_eq!(code.data(), [6, 3]);
    assert!(!code.run(5));
    assert_eq!(code.data(), [5, 4]);
    assert!(!code.run(5));
    assert_eq!(code.data(), [4, 5]);
    assert!(!code.run(5));
    assert_eq!(code.data(), [3, 6]);
    assert!(!code.run(5));
    assert_eq!(code.data(), [2, 7]);
    assert!(!code.run(5));
    assert_eq!(code.data(), [1, 8]);
    assert!(!code.run(5));
    assert_eq!(code.data(), [0, 9]);
    // the test finds zero and the loop is left
    assert!(code.run(5));
    assert_eq!(code.data(), [0, 9]);
}

#[test]
fn test_loop_3() {
    let end = run("[>+<-]", Indexed::from_values(0, &[9]));
    assert_eq!(data(&end.ram), [0, 9]);
}

#[test]
fn manipulate_list() {
    let mut code = Interpreter::new(program(">++>+"), Indexed::new());
    assert!(code.run(u64::MAX));
    assert_eq!(code.data(), [0, 2, 1]);
    assert_eq!(code.index(), 2);
}

#[test]
fn loop_basic() {
    let mut code = Interpreter::new(program("[]"), Indexed::new());
    assert!(!code.finished());
    assert!(code.run(2));
    assert_eq!(code.position(), 2);
}

#[test]
fn non_loop() {
    let mut ram = Indexed::from_values(0, &[0]);
    assert_eq!(ram.get().eval(), 0);
    // since the condition is 0, the body is never run
    let end = run("[++]", ram);
    assert_eq!(data(&end.ram), [0]);
}

#[test]
fn multi_loop() {
    let mut ram = Indexed::from_values(0, &[1, 1]);
    assert_eq!(ram.get().eval(), 1);
    let end = run("[+>]", ram);
    assert_eq!(data(&end.ram), [2, 2, 0]);
    assert_eq!(index(&end.ram), 2);
}

#[test]
fn ten_increments_then_zeroing_loop() {
    let end = run("++++++++++[-]", Indexed::new());
    assert_eq!(data(&end.ram), [0]);
    assert_eq!(data(&end.ram)[0], 0);
    assert_eq!(index(&end.ram), 0);
    assert_eq!(end.output.len(), 0);
}

#[test]
fn hello_types() {
    let end = run(HELLO, Indexed::new());
    assert_eq!(end.output.to_string().unwrap(), "Hello Types!");
    assert_eq!(
        brainfuck_vm::indexed::Debug::string(&end.output).unwrap(),
        "Hello Types!"
    );
    assert_eq!(
        data(&end.output),
        [72, 101, 108, 108, 111, 32, 84, 121, 112, 101, 115, 33]
    );
}

#[test]
fn countdown_runs_body_once_per_unit() {
    for v in 0..20usize {
        // reach the loop with v in the cell
        let mut code = Interpreter::new(program("-[-]"), Indexed::from_values(0, &[v + 1]));
        assert!(!code.run(1));
        assert_eq!(code.data(), [v]);
        let mut body_runs = 0;
        let mut steps = 0;
        while !code.finished() {
            if code.position() == 2 {
                body_runs += 1;
            }
            code.step();
            steps += 1;
        }
        assert_eq!(body_runs, v);
        assert_eq!(steps, 2 * v + 2);
        assert_eq!(code.data(), [0]);
        assert_eq!(code.index(), 0);
    }
}

#[test]
fn countdown_from_zero_leaves_zero() {
    let end = run("-[-]", Indexed::new());
    assert_eq!(data(&end.ram), [0]);
    let mut code = Interpreter::new(program("-[-]"), Indexed::new());
    assert!(!code.run(2));
    assert!(code.run(1));
}

#[test]
fn step_budget_that_is_too_small_gives_no_result() {
    assert!(execute_within(program("+++"), Indexed::new(), 2).is_none());
    let end = execute_within(program("+++"), Indexed::new(), 3).unwrap();
    assert_eq!(data(&end.ram), [3]);
    assert!(execute_within(program("+[]"), Indexed::new(), 10_000).is_none());
    assert!(execute_within(program(""), Indexed::new(), 0).is_some());
    let end = execute_within(program("++[>+++<-]>."), Indexed::new(), u64::MAX).unwrap();
    assert_eq!(data(&end.ram), [0, 6]);
    assert_eq!(data(&end.output), [6]);
}

#[test]
fn finish_runs_to_the_end() {
    let mut code = Interpreter::new(program("+++[>++<-]"), Indexed::new());
    code.step();
    code.finish();
    assert!(code.finished());
    assert_eq!(code.data(), [0, 6]);
    assert_eq!(code.position(), 10);
    assert_eq!(data(&code.state().ram), [0, 6]);
    code.finish();
    assert_eq!(code.data(), [0, 6]);
}

#[test]
fn halted_run_stays_as_it_is() {
    let mut code = Interpreter::new(program("+>+"), Indexed::new());
    assert!(code.run(3));
    assert_eq!(code.position(), 3);
    code.step();
    assert!(code.run(100));
    assert_eq!(code.position(), 3);
    assert_eq!(code.data(), [1, 1]);
    let end = code.into_state();
    assert_eq!(data(&end.ram), [1, 1]);
    assert_eq!(end.output.len(), 0);
}

#[test]
fn nested_loops() {
    // 3 * 4 into the third cell
    let end = run("+++[>++++[>+<-]<-]", Indexed::new());
    assert_eq!(data(&end.ram), [0, 0, 12]);
    assert_eq!(index(&end.ram), 0);
}

#[test]
fn loop_test_reads_the_cell_under_the_pointer() {
    // the test at the end of a skipped loop still accesses the cell
    let end = run(">>[-]", Indexed::new());
    assert_eq!(data(&end.ram), [0, 0, 0]);
    assert_eq!(index(&end.ram), 2);
}

#[test]
fn print_copies_without_changing_cells() {
    let end = run("++.>.<+.", Indexed::new());
    assert_eq!(data(&end.output), [2, 0, 3]);
    assert_eq!(data(&end.ram), [3, 0]);
    assert_eq!(index(&end.output), 0);
}

#[test]
fn move_left_at_left_edge_in_a_program() {
    let end = run("<<<+", Indexed::new());
    assert_eq!(data(&end.ram), [1]);
    assert_eq!(index(&end.ram), 0);
}

#[test]
fn opcodes_from_bytes() {
    assert_eq!(opcode_from_byte(b'+'), Some(Opcode::IncrCell));
    assert_eq!(opcode_from_byte(b'-'), Some(Opcode::DecrCell));
    assert_eq!(opcode_from_byte(b'>'), Some(Opcode::MoveRight));
    assert_eq!(opcode_from_byte(b'<'), Some(Opcode::MoveLeft));
    assert_eq!(opcode_from_byte(b'.'), Some(Opcode::Print));
    assert_eq!(opcode_from_byte(b'['), Some(Opcode::LoopStart));
    assert_eq!(opcode_from_byte(b']'), Some(Opcode::LoopEnd));
    assert_eq!(opcode_from_byte(b','), None);
    assert_eq!(opcode_from_byte(b' '), None);
}

#[test]
fn unbalanced_programs_are_refused() {
    assert!(Program::parse(b"[").is_none());
    assert!(Program::parse(b"]").is_none());
    assert!(Program::parse(b"+]").is_none());
    assert!(Program::parse(b"[[]").is_none());
    assert!(Program::parse(b"[]]").is_none());
    assert!(Program::parse(b"][").is_none());
    assert!(Program::parse(b"+ +").is_none());
    assert!(Program::new(vec![Opcode::LoopEnd, Opcode::LoopStart]).is_none());
    assert!(Program::new(vec![Opcode::LoopStart, Opcode::IncrCell]).is_none());
}

#[test]
fn balanced_programs_resolve_their_brackets() {
    let program = Program::parse(b"[[-]>[+]]").unwrap();
    assert_eq!(program.len(), 9);
    assert_eq!(program.opcodes().len(), 9);
    assert_eq!(program.opcode(0), Opcode::LoopStart);
    assert_eq!(program.opcode(2), Opcode::DecrCell);
    assert_eq!(program.partner(0), 8);
    assert_eq!(program.partner(8), 0);
    assert_eq!(program.partner(1), 3);
    assert_eq!(program.partner(3), 1);
    assert_eq!(program.partner(5), 7);
    assert_eq!(program.partner(7), 5);
    let program = Program::new(vec![
        Opcode::DecrCell,
        Opcode::LoopStart,
        Opcode::DecrCell,
        Opcode::LoopEnd,
    ])
    .unwrap();
    assert_eq!(program.partner(1), 3);
    assert_eq!(program.partner(3), 1);
}

#[test]
fn instructions_act_on_the_state() {
    let mut state = InterpreterBase::new(Indexed::new());
    Incr::exec(&mut state);
    Incr::exec(&mut state);
    MoveRight::exec(&mut state);
    LoopStart::exec(&mut state);
    assert_eq!(data(&state.ram), [2]);
    assert!(!LoopEnd::test(&mut state));
    assert_eq!(data(&state.ram), [2, 0]);
    MoveLeft::exec(&mut state);
    MoveLeft::exec(&mut state);
    assert!(LoopEnd::test(&mut state));
    Decr::exec(&mut state);
    brainfuck_vm::instructions::Print::exec(&mut state);
    brainfuck_vm::brainfuck::Print::print(&mut state);
    LoopEnd::exec(&mut state);
    assert_eq!(data(&state.ram), [1, 0]);
    assert_eq!(data(&state.output), [1, 1]);
    Opcode::DecrCell.exec(&mut state);
    Opcode::DecrCell.exec(&mut state);
    assert_eq!(data(&state.ram), [0, 0]);
}

#[test]
fn doubled_operators_are_two_opcodes() {
    let program = Program::parse(b">>..<<->+<-").unwrap();
    assert_eq!(
        program.opcodes().as_slice(),
        [
            Opcode::MoveRight,
            Opcode::MoveRight,
            Opcode::Print,
            Opcode::Print,
            Opcode::MoveLeft,
            Opcode::MoveLeft,
            Opcode::DecrCell,
            Opcode::MoveRight,
            Opcode::IncrCell,
            Opcode::MoveLeft,
            Opcode::DecrCell,
        ]
    );
    let end = run("++>>+..<<->+<-", Indexed::new());
    assert_eq!(data(&end.ram), [0, 1, 1]);
    assert_eq!(data(&end.output), [1, 1]);
}

#[test]
fn one_turn_of_a_loop_is_one_run_of_its_body() {
    // the loop stands at positions 3 to 9; its body is ">++.<-"
    let mut whole = Interpreter::new(program("+++[>++.<-]>."), Indexed::new());
    assert!(!whole.run(3));
    assert_eq!(whole.position(), 3);
    // the start of the loop passes control to the test
    whole.step();
    assert_eq!(whole.position(), 10);
    assert_eq!(whole.data(), [3]);
    let mut expected = Indexed::from_values(0, &[3]);
    let mut printed: Vec<usize> = Vec::new();
    for turn in 1..=3usize {
        // the body alone, on the state at the test
        let mut body = Interpreter::new(program(">++.<-"), expected);
        assert!(body.run(6));
        let after = body.into_state();
        printed.extend(data(&after.output));
        // the test and the body in place
        assert!(!whole.run(7));
        assert_eq!(whole.position(), 10);
        assert_eq!(whole.data(), data(&after.ram));
        assert_eq!(whole.data(), [3 - turn, 2 * turn]);
        assert_eq!(whole.index(), index(&after.ram));
        assert_eq!(data(&whole.state().output), printed);
        expected = after.ram;
    }
    // the test finds zero: the loop is left
    whole.step();
    assert_eq!(whole.position(), 11);
    assert!(whole.run(2));
    assert_eq!(data(&whole.state().output), [2, 4, 6, 6]);
}

#[test]
fn clearing_loop_clears_wherever_it_stands() {
    for v in [0usize, 1, 2, 17] {
        let mut code = Interpreter::new(program(">[-]>+"), Indexed::from_values(0, &[5, v, 9]));
        assert!(!code.run(1));
        assert!(!code.run(2 * v as u64 + 2));
        assert_eq!(code.position(), 4);
        assert_eq!(code.data(), [5, 0, 9]);
        assert_eq!(code.index(), 1);
        assert!(code.run(2));
        assert_eq!(code.data(), [5, 0, 10]);
    }
}

#[test]
fn output_only_grows() {
    let mut code = Interpreter::new(program("+.+.[-.]>."), Indexed::new());
    let mut seen: Vec<usize> = Vec::new();
    let mut cells = 0;
    while !code.finished() {
        code.step();
        let now = data(&code.state().output);
        assert!(now.len() <= seen.len() + 1);
        assert_eq!(&now[..seen.len()], seen.as_slice());
        assert!(code.state().ram.len() >= cells);
        cells = code.state().ram.len();
        seen = now;
    }
    assert_eq!(seen, [1, 2, 1, 0, 0]);
}
