use tapevm::engine::{execute, RunState};
use tapevm::machine::{debug_print, TapeMachine};

#[test]
fn fresh_machine_has_30000_zeroed_cells_and_pointer_at_zero() {
    let m = TapeMachine::new();
    assert_eq!(m.tape.len(), 30000);
    assert_eq!(m.data_ptr, 0);
    assert!(m.tape.iter().all(|&c| c == 0));
}

#[test]
fn debug_print_shows_first_ten_cells() {
    let mut m = TapeMachine::new();
    let mut out: Vec<u8> = Vec::new();
    let r = execute("+++>++", &mut m, 0, &mut out, 1000);
    assert_eq!(r, Ok(RunState::Complete));
    assert_eq!(debug_print(&m), vec![3, 2, 0, 0, 0, 0, 0, 0, 0, 0]);
}

#[test]
fn debug_print_of_a_short_tape_shows_what_there_is() {
    let m = TapeMachine {
        tape: vec![7, 8],
        data_ptr: 0,
    };
    assert_eq!(debug_print(&m), vec![7, 8]);
}
