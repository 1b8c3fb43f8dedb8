use tapevm::engine::{execute, resume, EngineError, RunState};
use tapevm::machine::TapeMachine;

const BUDGET: usize = 100_000;

/// Drive a command string to completion, re-invoking the engine whenever the
/// step budget runs out. Programs under test never ask for input.
fn run_all(cmd: &str, machine: &mut TapeMachine) -> Result<Vec<u8>, EngineError> {
    let mut out: Vec<u8> = Vec::new();
    let mut start: usize = 0;
    loop {
        match execute(cmd, machine, start, &mut out, BUDGET)? {
            RunState::Complete => return Ok(out),
            RunState::Running(i) => start = i,
            RunState::AwaitingInput(_) => panic!("test program asked for input"),
        }
    }
}

#[test]
fn loop_multiply_program_emits_its_checksum() {
    // Six passes of the loop add 10 to the second cell, then five more
    // increments: the program emits 6 * 10 + 5 = 65.
    let mut m = TapeMachine::new();
    let out = run_all("++++++[>++++++++++<-]>+++++.", &mut m).unwrap();
    assert_eq!(out, vec![65u8]);
    assert_eq!(out[0] as char, 'A');
    assert_eq!(m.tape[0], 0);
    assert_eq!(m.tape[1], 65);
    assert_eq!(m.data_ptr, 1);
}

#[test]
fn loop_multiply_program_outputs_capital_e() {
    // Six passes of 11, then three increments: 6 * 11 + 3 = 69.
    let mut m = TapeMachine::new();
    let out = run_all("++++++[>+++++++++++<-]>+++.", &mut m).unwrap();
    assert_eq!(out, vec![69u8]);
    assert_eq!(out[0] as char, 'E');
}

#[test]
fn increments_wrap_at_256() {
    let mut m = TapeMachine::new();
    let cmd: String = std::iter::repeat('+').take(256).collect();
    run_all(&cmd, &mut m).unwrap();
    assert_eq!(m.tape[0], 0);

    let mut m2 = TapeMachine::new();
    let cmd2: String = std::iter::repeat('+').take(255).collect();
    run_all(&cmd2, &mut m2).unwrap();
    assert_eq!(m2.tape[0], 255);
}

#[test]
fn decrement_wraps_below_zero() {
    let mut m = TapeMachine::new();
    run_all("-", &mut m).unwrap();
    assert_eq!(m.tape[0], 255);
}

#[test]
fn cell_holds_net_increments_mod_256() {
    let mut m = TapeMachine::new();
    run_all("+++--", &mut m).unwrap();
    assert_eq!(m.tape[0], 1);
}

#[test]
fn move_right_grows_tape_with_zeroed_cell() {
    let mut m = TapeMachine {
        tape: vec![5, 9],
        data_ptr: 1,
    };
    run_all(">", &mut m).unwrap();
    assert_eq!(m.data_ptr, 2);
    assert_eq!(m.tape, vec![5, 9, 0]);
    assert_eq!(m.tape[m.data_ptr], 0);
}

#[test]
fn revisited_cell_keeps_last_written_value() {
    let mut m = TapeMachine::new();
    run_all(">+<>", &mut m).unwrap();
    assert_eq!(m.data_ptr, 1);
    assert_eq!(m.tape[1], 1);
}

#[test]
fn pointer_underflow_faults_and_moves_nothing() {
    let mut m = TapeMachine::new();
    let r = run_all("<", &mut m);
    assert_eq!(r, Err(EngineError::PointerUnderflow));
    assert_eq!(m.data_ptr, 0);
}

#[test]
fn open_bracket_on_zero_cell_skips_body() {
    let mut m = TapeMachine::new();
    let out = run_all("[.>.]+", &mut m).unwrap();
    assert_eq!(out, Vec::<u8>::new());
    assert_eq!(m.tape[0], 1);
    assert_eq!(m.data_ptr, 0);
}

#[test]
fn open_bracket_skips_over_nested_brackets() {
    let mut m = TapeMachine::new();
    let out = run_all("[[.].]+", &mut m).unwrap();
    assert_eq!(out, Vec::<u8>::new());
    assert_eq!(m.tape[0], 1);
}

#[test]
fn clear_idiom_zeroes_current_cell() {
    let mut m = TapeMachine::new();
    run_all("+++++[-]", &mut m).unwrap();
    assert_eq!(m.tape[0], 0);

    let mut m2 = TapeMachine::new();
    run_all("++[-]+", &mut m2).unwrap();
    assert_eq!(m2.tape[0], 1);
}

#[test]
fn clear_idiom_on_cell_value_one_takes_one_pass() {
    let mut m = TapeMachine::new();
    // Cell is 1: the body runs exactly once, so one step each for `[`, `-`
    // and `]`, plus the final completion step, fit in a budget of 4.
    run_all("+", &mut m).unwrap();
    let mut out: Vec<u8> = Vec::new();
    let r = execute("[-]", &mut m, 0, &mut out, 4);
    assert_eq!(r, Ok(RunState::Complete));
    assert_eq!(m.tape[0], 0);
}

#[test]
fn unmatched_open_bracket_faults() {
    let mut m = TapeMachine::new();
    let r = run_all("[+", &mut m);
    assert_eq!(r, Err(EngineError::UnmatchedOpenBracket));
}

#[test]
fn unmatched_close_bracket_faults() {
    let mut m = TapeMachine::new();
    let r = run_all("+]", &mut m);
    assert_eq!(r, Err(EngineError::UnmatchedCloseBracket));
}

#[test]
fn comment_characters_are_no_ops() {
    let mut m = TapeMachine::new();
    run_all("+a+b+", &mut m).unwrap();
    let mut plain = TapeMachine::new();
    run_all("+++", &mut plain).unwrap();
    assert_eq!(m.tape[0], 3);
    assert_eq!(m.tape[0], plain.tape[0]);
    assert_eq!(m.data_ptr, plain.data_ptr);
}

#[test]
fn output_emits_current_cell_value() {
    let mut m = TapeMachine::new();
    let out = run_all("++.", &mut m).unwrap();
    assert_eq!(out, vec![2u8]);
}

#[test]
fn output_bytes_emitted_before_a_fault_are_kept() {
    let mut m = TapeMachine::new();
    let mut out: Vec<u8> = Vec::new();
    let r = execute("+.<", &mut m, 0, &mut out, BUDGET);
    assert_eq!(r, Err(EngineError::PointerUnderflow));
    assert_eq!(out, vec![1u8]);
}

#[test]
fn input_suspends_then_resume_stores_byte() {
    let mut m = TapeMachine::new();
    let mut out: Vec<u8> = Vec::new();
    let r = execute(",.", &mut m, 0, &mut out, BUDGET);
    assert_eq!(r, Ok(RunState::AwaitingInput(0)));
    assert_eq!(out, Vec::<u8>::new());
    let r2 = resume(",.", &mut m, 0, b'A', &mut out, BUDGET);
    assert_eq!(r2, Ok(RunState::Complete));
    assert_eq!(m.tape[0], 65);
    assert_eq!(out, vec![65u8]);
}

#[test]
fn resume_with_newline_default_byte() {
    // An empty input line makes the caller hand in 10, the engine's sentinel
    // default for `,`.
    let mut m = TapeMachine::new();
    let mut out: Vec<u8> = Vec::new();
    assert_eq!(execute(",", &mut m, 0, &mut out, BUDGET), Ok(RunState::AwaitingInput(0)));
    assert_eq!(resume(",", &mut m, 0, 10, &mut out, BUDGET), Ok(RunState::Complete));
    assert_eq!(m.tape[0], 10);
}

#[test]
fn exhausted_budget_reports_cursor_and_run_continues() {
    let mut m = TapeMachine::new();
    let mut out: Vec<u8> = Vec::new();
    let r = execute("++", &mut m, 0, &mut out, 1);
    assert_eq!(r, Ok(RunState::Running(1)));
    assert_eq!(m.tape[0], 1);
    let r2 = execute("++", &mut m, 1, &mut out, BUDGET);
    assert_eq!(r2, Ok(RunState::Complete));
    assert_eq!(m.tape[0], 2);
}

#[test]
fn non_terminating_loop_returns_when_budget_runs_out() {
    let mut m = TapeMachine::new();
    let mut out: Vec<u8> = Vec::new();
    let r = execute("+[]", &mut m, 0, &mut out, 1000);
    assert!(matches!(r, Ok(RunState::Running(_))));
}

#[test]
fn empty_command_string_completes_and_changes_nothing() {
    let mut m = TapeMachine::new();
    let out = run_all("", &mut m).unwrap();
    assert_eq!(out, Vec::<u8>::new());
    assert_eq!(m.data_ptr, 0);
    assert_eq!(m.tape.len(), 30000);
    assert_eq!(m.tape[0], 0);
}
