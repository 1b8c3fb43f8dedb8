use crate::machine::TapeMachine;
use vstd::prelude::*;

verus! {

/// The ways a run halts abnormally. Every fault aborts the current execution;
/// the caller decides whether its session goes on.
#[derive(Clone, Copy, Debug, PartialEq, Eq)]
pub enum EngineError {
    /// `<` was executed while the data pointer stood at cell 0.
    PointerUnderflow,
    /// `[` had no matching `]` to its right.
    UnmatchedOpenBracket,
    /// `]` had no matching `[` to its left.
    UnmatchedCloseBracket,
}

/// Why `execute` stopped without a fault.
#[derive(Clone, Copy, Debug, PartialEq, Eq)]
pub enum RunState {
    /// The cursor moved past the end of the command string.
    Complete,
    /// The command at this cursor position is `,`: the caller must obtain one
    /// input byte and continue through `resume`.
    AwaitingInput(usize),
    /// The step budget ran out with the cursor at this position; calling
    /// `execute` again from here continues the same run.
    Running(usize),
}

/// The whole state of one execution as the specification sees it: the cursor
/// into the command string, the tape, the data pointer, and every byte
/// emitted so far.
#[verifier::ext_equal]
pub ghost struct EngineState {
    pub cursor: int,
    pub tape: Seq<u8>,
    pub pointer: int,
    pub output: Seq<u8>,
}

/// What one step of the engine does to an `EngineState`.
pub ghost enum StepResult {
    /// The step went through; execution continues from this state.
    Running(EngineState),
    /// The cursor stands on `,`: nothing happens until an input byte arrives.
    AwaitingInput(EngineState),
    /// The cursor stands past the end of the command string.
    Complete(EngineState),
    /// The step faulted; the state is as it was just before the fault.
    Fault(EngineState, EngineError),
}

/// A valid engine state: the cursor is not negative and the data pointer
/// rests on a cell of the tape.
pub open spec fn state_wf(s: EngineState) -> bool {
    0 <= s.cursor && 0 <= s.pointer < s.tape.len()
}

/// Increment one cell with unsigned 8-bit wraparound: 255 + 1 = 0.
pub open spec fn wrap_inc(v: u8) -> u8 {
    if v == 255 {
        0
    } else {
        (v + 1) as u8
    }
}

/// Decrement one cell with unsigned 8-bit wraparound: 0 - 1 = 255.
pub open spec fn wrap_dec(v: u8) -> u8 {
    if v == 0 {
        255
    } else {
        (v - 1) as u8
    }
}

/// The position of the `]` that closes the bracket a forward scan is inside
/// of, starting at `j` with `depth` additional `[` still open: each further
/// `[` deepens the nesting, a `]` at depth 0 is the match, any other `]`
/// closes one nested pair. `None` when the string ends first.
pub open spec fn scan_forward(cmd: Seq<char>, j: int, depth: nat) -> Option<int>
    decreases cmd.len() - j,
{
    if j < 0 || j >= cmd.len() {
        None
    } else if cmd[j] == '[' {
        scan_forward(cmd, j + 1, depth + 1)
    } else if cmd[j] == ']' {
        if depth == 0 {
            Some(j)
        } else {
            scan_forward(cmd, j + 1, (depth - 1) as nat)
        }
    } else {
        scan_forward(cmd, j + 1, depth)
    }
}

/// The position of the `[` that opens the bracket a backward scan is inside
/// of, starting at `j` with `depth` additional `]` still open. `None` when
/// the scan reaches the start of the string first.
pub open spec fn scan_backward(cmd: Seq<char>, j: int, depth: nat) -> Option<int>
    decreases j + 1,
{
    if j < 0 || j >= cmd.len() {
        None
    } else if cmd[j] == ']' {
        scan_backward(cmd, j - 1, depth + 1)
    } else if cmd[j] == '[' {
        if depth == 0 {
            Some(j)
        } else {
            scan_backward(cmd, j - 1, (depth - 1) as nat)
        }
    } else {
        scan_backward(cmd, j - 1, depth)
    }
}

/// One step of the engine: what processing the character at `s.cursor` does.
/// A successful bracket jump lands the cursor one past the matching bracket,
/// so the match is never re-evaluated; every other command advances the
/// cursor by exactly one.
pub open spec fn step_state(cmd: Seq<char>, s: EngineState) -> StepResult {
    if s.cursor < 0 || s.cursor >= cmd.len() {
        StepResult::Complete(s)
    } else {
        let c = cmd[s.cursor];
        if c == '+' {
            StepResult::Running(
                EngineState {
                    cursor: s.cursor + 1,
                    tape: s.tape.update(s.pointer, wrap_inc(s.tape[s.pointer])),
                    pointer: s.pointer,
                    output: s.output,
                },
            )
        } else if c == '-' {
            StepResult::Running(
                EngineState {
                    cursor: s.cursor + 1,
                    tape: s.tape.update(s.pointer, wrap_dec(s.tape[s.pointer])),
                    pointer: s.pointer,
                    output: s.output,
                },
            )
        } else if c == '>' {
            StepResult::Running(
                EngineState {
                    cursor: s.cursor + 1,
                    tape: if s.pointer + 1 == s.tape.len() {
                        s.tape.push(0u8)
                    } else {
                        s.tape
                    },
                    pointer: s.pointer + 1,
                    output: s.output,
                },
            )
        } else if c == '<' {
            if s.pointer == 0 {
                StepResult::Fault(s, EngineError::PointerUnderflow)
            } else {
                StepResult::Running(
                    EngineState {
                        cursor: s.cursor + 1,
                        tape: s.tape,
                        pointer: s.pointer - 1,
                        output: s.output,
                    },
                )
            }
        } else if c == '.' {
            StepResult::Running(
                EngineState {
                    cursor: s.cursor + 1,
                    tape: s.tape,
                    pointer: s.pointer,
                    output: s.output.push(s.tape[s.pointer]),
                },
            )
        } else if c == ',' {
            StepResult::AwaitingInput(s)
        } else if c == '[' {
            if s.tape[s.pointer] == 0 {
                match scan_forward(cmd, s.cursor + 1, 0) {
                    Some(j) => StepResult::Running(
                        EngineState {
                            cursor: j + 1,
                            tape: s.tape,
                            pointer: s.pointer,
                            output: s.output,
                        },
                    ),
                    None => StepResult::Fault(s, EngineError::UnmatchedOpenBracket),
                }
            } else {
                StepResult::Running(
                    EngineState {
                        cursor: s.cursor + 1,
                        tape: s.tape,
                        pointer: s.pointer,
                        output: s.output,
                    },
                )
            }
        } else if c == ']' {
            if s.tape[s.pointer] != 0 {
                match scan_backward(cmd, s.cursor - 1, 0) {
                    Some(j) => StepResult::Running(
                        EngineState {
                            cursor: j + 1,
                            tape: s.tape,
                            pointer: s.pointer,
                            output: s.output,
                        },
                    ),
                    None => StepResult::Fault(s, EngineError::UnmatchedCloseBracket),
                }
            } else {
                StepResult::Running(
                    EngineState {
                        cursor: s.cursor + 1,
                        tape: s.tape,
                        pointer: s.pointer,
                        output: s.output,
                    },
                )
            }
        } else {
            StepResult::Running(
                EngineState {
                    cursor: s.cursor + 1,
                    tape: s.tape,
                    pointer: s.pointer,
                    output: s.output,
                },
            )
        }
    }
}

/// `n` steps of the engine from `s`. An outcome other than `Running` is
/// final: further steps leave it as it is.
pub open spec fn run_steps(cmd: Seq<char>, s: EngineState, n: nat) -> StepResult
    decreases n,
{
    if n == 0 {
        StepResult::Running(s)
    } else {
        match run_steps(cmd, s, (n - 1) as nat) {
            StepResult::Running(s2) => step_state(cmd, s2),
            r => r,
        }
    }
}

/// The engine state that a cursor, a machine and an output buffer stand for.
pub open spec fn abs_state(cursor: int, m: TapeMachine, out: Seq<u8>) -> EngineState {
    EngineState { cursor, tape: m.tape@, pointer: m.data_ptr as int, output: out }
}

/// What `,` does once an input byte is there: store it at the data pointer
/// and step past the `,`.
pub open spec fn consume_input(s: EngineState, b: u8) -> EngineState {
    EngineState {
        cursor: s.cursor + 1,
        tape: s.tape.update(s.pointer, b),
        pointer: s.pointer,
        output: s.output,
    }
}

/// A forward scan that found a match found a `]` within the string, at or
/// after where it started.
pub proof fn lemma_scan_forward_bounds(cmd: Seq<char>, j: int, depth: nat, k: int)
    requires
        scan_forward(cmd, j, depth) == Some(k),
    ensures
        j <= k < cmd.len(),
        cmd[k] == ']',
    decreases cmd.len() - j,
{
    if j < 0 || j >= cmd.len() {
    } else if cmd[j] == '[' {
        lemma_scan_forward_bounds(cmd, j + 1, depth + 1, k);
    } else if cmd[j] == ']' {
        if depth != 0 {
            lemma_scan_forward_bounds(cmd, j + 1, (depth - 1) as nat, k);
        }
    } else {
        lemma_scan_forward_bounds(cmd, j + 1, depth, k);
    }
}

/// A backward scan that found a match found a `[` at or before where it
/// started.
pub proof fn lemma_scan_backward_bounds(cmd: Seq<char>, j: int, depth: nat, k: int)
    requires
        scan_backward(cmd, j, depth) == Some(k),
    ensures
        0 <= k <= j,
        cmd[k] == '[',
    decreases j + 1,
{
    if j < 0 || j >= cmd.len() {
    } else if cmd[j] == ']' {
        lemma_scan_backward_bounds(cmd, j - 1, depth + 1, k);
    } else if cmd[j] == '[' {
        if depth != 0 {
            lemma_scan_backward_bounds(cmd, j - 1, (depth - 1) as nat, k);
        }
    } else {
        lemma_scan_backward_bounds(cmd, j - 1, depth, k);
    }
}

/// Find the `]` that matches the `[` at `open_at`, by the forward
/// nesting-depth scan.
fn matching_close(cmd: &str, open_at: usize) -> (r: Option<usize>)
    requires
        open_at < cmd@.len(),
    ensures
        r matches Some(j) ==> scan_forward(cmd@, open_at + 1, 0) == Some(j as int),
        r is None ==> scan_forward(cmd@, open_at + 1, 0) is None,
{
    let len = cmd.unicode_len();
    let mut j: usize = open_at + 1;
    let mut depth: usize = 0;
    while j < len
        invariant
            cmd@.len() == len,
            open_at + 1 <= j <= len,
            depth < j,
            scan_forward(cmd@, open_at + 1, 0) == scan_forward(cmd@, j as int, depth as nat),
        decreases len - j,
    {
        let c = cmd.get_char(j);
        if c == '[' {
            depth = depth + 1;
        } else if c == ']' {
            if depth == 0 {
                return Some(j);
            }
            depth = depth - 1;
        }
        j = j + 1;
    }
    None
}

/// What `execute` promises of its result: the run of the small-step
/// semantics from `s0` reaches, within `fuel` steps, exactly the outcome the
/// return value and the final machine and output describe.
pub open spec fn execute_post(
    cmd: Seq<char>,
    s0: EngineState,
    m: TapeMachine,
    out: Seq<u8>,
    fuel: nat,
    r: Result<RunState, EngineError>,
) -> bool {
    match r {
        Ok(RunState::Complete) => exists|n: nat|
            n <= fuel && (#[trigger] run_steps(cmd, s0, n) matches StepResult::Complete(f)
                && f.tape == m.tape@ && f.pointer == m.data_ptr as int && f.output == out),
        Ok(RunState::AwaitingInput(c)) => c < cmd.len() && cmd[c as int] == ',' && exists|n: nat|
            n <= fuel && #[trigger] run_steps(cmd, s0, n) == StepResult::AwaitingInput(
                abs_state(c as int, m, out),
            ),
        Ok(RunState::Running(c)) => run_steps(cmd, s0, fuel) == StepResult::Running(
            abs_state(c as int, m, out),
        ),
        Err(e) => exists|n: nat|
            n <= fuel && (#[trigger] run_steps(cmd, s0, n) matches StepResult::Fault(f, e2)
                && e2 == e && f.tape == m.tape@ && f.pointer == m.data_ptr as int && f.output
                == out),
    }
}

/// Interpret `cmd` against `machine` with the cursor starting at `start`,
/// for at most `fuel` steps. Every byte that `.` emits is appended to `out`;
/// `,` suspends the run instead of reading anything, and the caller continues
/// it through `resume` once it has an input byte.
#[verifier::loop_isolation(false)]
pub fn execute(
    cmd: &str,
    machine: &mut TapeMachine,
    start: usize,
    out: &mut Vec<u8>,
    fuel: usize,
) -> (r: Result<RunState, EngineError>)
    requires
        old(machine).wf(),
    ensures
        final(machine).wf(),
        execute_post(
            cmd@,
            abs_state(start as int, *old(machine), old(out)@),
            *final(machine),
            final(out)@,
            fuel as nat,
            r,
        ),
{
    let ghost s0 = abs_state(start as int, *machine, out@);
    let len = cmd.unicode_len();
    let mut i: usize = start;
    let mut steps: usize = 0;
    while steps < fuel
        invariant
            machine.wf(),
            steps <= fuel,
            run_steps(cmd@, s0, steps as nat) == StepResult::Running(
                abs_state(i as int, *machine, out@),
            ),
        decreases fuel - steps,
    {
        let ghost cur = abs_state(i as int, *machine, out@);
        if i >= len {
            assert(run_steps(cmd@, s0, (steps + 1) as nat) == StepResult::Complete(cur));
            return Ok(RunState::Complete);
        }
        let c = cmd.get_char(i);
        let p = machine.data_ptr;
        match c {
            '+' => {
                let v = machine.tape[p];
                machine.tape[p] = if v == 255 {
                    0
                } else {
                    v + 1
                };
                i = i + 1;
            },
            '-' => {
                let v = machine.tape[p];
                machine.tape[p] = if v == 0 {
                    255
                } else {
                    v - 1
                };
                i = i + 1;
            },
            '>' => {
                let tl = machine.tape.len();
                if p + 1 == tl {
                    machine.tape.push(0);
                }
                machine.data_ptr = p + 1;
                i = i + 1;
            },
            '<' => {
                if p == 0 {
                    assert(run_steps(cmd@, s0, (steps + 1) as nat) == StepResult::Fault(
                        cur,
                        EngineError::PointerUnderflow,
                    ));
                    return Err(EngineError::PointerUnderflow);
                }
                machine.data_ptr = p - 1;
                i = i + 1;
            },
            '.' => {
                out.push(machine.tape[p]);
                i = i + 1;
            },
            ',' => {
                assert(run_steps(cmd@, s0, (steps + 1) as nat) == StepResult::AwaitingInput(cur));
                return Ok(RunState::AwaitingInput(i));
            },
            '[' => {
                if machine.tape[p] == 0 {
                    match matching_close(cmd, i) {
                        Some(j) => {
                            proof {
                                lemma_scan_forward_bounds(cmd@, i + 1, 0, j as int);
                            }
                            i = j + 1;
                        },
                        None => {
                            assert(run_steps(cmd@, s0, (steps + 1) as nat) == StepResult::Fault(
                                cur,
                                EngineError::UnmatchedOpenBracket,
                            ));
                            return Err(EngineError::UnmatchedOpenBracket);
                        },
                    }
                } else {
                    i = i + 1;
                }
            },
            ']' => {
                if machine.tape[p] != 0 {
                    match matching_open(cmd, i) {
                        Some(j) => {
                            proof {
                                lemma_scan_backward_bounds(cmd@, i - 1, 0, j as int);
                            }
                            i = j + 1;
                        },
                        None => {
                            assert(run_steps(cmd@, s0, (steps + 1) as nat) == StepResult::Fault(
                                cur,
                                EngineError::UnmatchedCloseBracket,
                            ));
                            return Err(EngineError::UnmatchedCloseBracket);
                        },
                    }
                } else {
                    i = i + 1;
                }
            },
            _ => {
                i = i + 1;
            },
        }
        steps = steps + 1;
    }
    Ok(RunState::Running(i))
}

/// Store one input byte at the data pointer — what `,` was waiting for — and
/// continue the run just past the `,` at `cursor`, for at most `fuel` further
/// steps.
pub fn resume(
    cmd: &str,
    machine: &mut TapeMachine,
    cursor: usize,
    input: u8,
    out: &mut Vec<u8>,
    fuel: usize,
) -> (r: Result<RunState, EngineError>)
    requires
        old(machine).wf(),
        cursor < cmd@.len(),
    ensures
        final(machine).wf(),
        execute_post(
            cmd@,
            consume_input(abs_state(cursor as int, *old(machine), old(out)@), input),
            *final(machine),
            final(out)@,
            fuel as nat,
            r,
        ),
{
    let _len = cmd.unicode_len();
    let p = machine.data_ptr;
    machine.tape[p] = input;
    execute(cmd, machine, cursor + 1, out, fuel)
}

/// Find the `[` that matches the `]` at `close_at`, by the backward
/// nesting-depth scan.
fn matching_open(cmd: &str, close_at: usize) -> (r: Option<usize>)
    requires
        close_at < cmd@.len(),
    ensures
        r matches Some(j) ==> scan_backward(cmd@, close_at - 1, 0) == Some(j as int),
        r is None ==> scan_backward(cmd@, close_at - 1, 0) is None,
{
    let mut j: usize = close_at;
    let mut depth: usize = 0;
    while j > 0
        invariant
            j <= close_at < cmd@.len(),
            depth <= close_at - j,
            scan_backward(cmd@, close_at - 1, 0) == scan_backward(cmd@, j - 1, depth as nat),
        decreases j,
    {
        j = j - 1;
        let c = cmd.get_char(j);
        if c == ']' {
            depth = depth + 1;
        } else if c == '[' {
            if depth == 0 {
                return Some(j);
            }
            depth = depth - 1;
        }
    }
    None
}

} // verus!
