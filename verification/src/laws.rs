use crate::engine::{
    scan_backward, scan_forward, step_state, lemma_scan_backward_bounds,
    lemma_scan_forward_bounds, run_steps, state_wf, wrap_dec, wrap_inc, EngineError, EngineState,
    StepResult,
};
use vstd::arithmetic::div_mod::{lemma_add_mod_noop_right, lemma_mod_self_0, lemma_small_mod};
use vstd::prelude::*;

verus! {

/// The eight characters the engine acts on; every other character is a
/// comment.
pub open spec fn is_command(c: char) -> bool {
    c == '+' || c == '-' || c == '>' || c == '<' || c == '.' || c == ',' || c == '[' || c == ']'
}

/// A command string of cell arithmetic only: every character is `+`, `-` or
/// a comment character, which does nothing.
pub open spec fn only_arith(cmd: Seq<char>) -> bool {
    forall|k: int| 0 <= k < cmd.len() ==> cmd[k] == '+' || cmd[k] == '-' || !is_command(cmd[k])
}

/// The net number of increments the characters of `cmd` from position `k` on
/// apply to a cell: `+` counts 1, `-` counts -1, anything else 0.
pub open spec fn net_from(cmd: Seq<char>, k: int) -> int
    decreases cmd.len() - k,
{
    if k < 0 || k >= cmd.len() {
        0
    } else {
        (if cmd[k] == '+' {
            1int
        } else if cmd[k] == '-' {
            -1int
        } else {
            0int
        }) + net_from(cmd, k + 1)
    }
}

/// The net number of increments a command string applies to a cell.
pub open spec fn net_increments(cmd: Seq<char>) -> int {
    net_from(cmd, 0)
}

/// How a character moves the bracket nesting depth: `[` opens one pair, `]`
/// closes one, anything else leaves it alone.
pub open spec fn bracket_weight(c: char) -> int {
    if c == '[' {
        1
    } else if c == ']' {
        -1
    } else {
        0
    }
}

/// The net bracket depth of the characters of `cmd` in `[a, b)`: how many
/// more `[` than `]` the range holds. A range of 0 is balanced.
pub open spec fn net_brackets(cmd: Seq<char>, a: int, b: int) -> int
    decreases b - a,
{
    if a >= b {
        0
    } else {
        bracket_weight(cmd[a]) + net_brackets(cmd, a + 1, b)
    }
}

/// Net bracket depth adds up over adjacent ranges.
pub proof fn lemma_net_brackets_split(cmd: Seq<char>, a: int, b: int, c: int)
    requires
        a <= b <= c,
    ensures
        net_brackets(cmd, a, c) == net_brackets(cmd, a, b) + net_brackets(cmd, b, c),
    decreases b - a,
{
    if a == b {
    } else {
        lemma_net_brackets_split(cmd, a + 1, b, c);
    }
}

/// What a successful forward scan found is the matching partner: the close
/// bracket at equal nesting depth — `depth` open pairs plus the net depth of
/// the scanned range come out to zero there — and the nearest one, since at
/// every earlier `]` the nesting was still positive.
pub proof fn lemma_scan_forward_match(cmd: Seq<char>, j: int, depth: nat, k: int)
    requires
        scan_forward(cmd, j, depth) == Some(k),
    ensures
        j <= k < cmd.len(),
        cmd[k] == ']',
        depth + net_brackets(cmd, j, k) == 0,
        forall|m: int| j <= m < k && cmd[m] == ']' ==> depth + net_brackets(cmd, j, m) > 0,
    decreases cmd.len() - j,
{
    lemma_scan_forward_bounds(cmd, j, depth, k);
    if cmd[j] == ']' && depth == 0 {
    } else {
        let d2: nat = if cmd[j] == '[' {
            depth + 1
        } else if cmd[j] == ']' {
            (depth - 1) as nat
        } else {
            depth
        };
        lemma_scan_forward_match(cmd, j + 1, d2, k);
        assert(net_brackets(cmd, j, k) == bracket_weight(cmd[j]) + net_brackets(cmd, j + 1, k));
        assert forall|m: int| j <= m < k && cmd[m] == ']' implies depth + net_brackets(cmd, j, m)
            > 0 by {
            if m > j {
                assert(net_brackets(cmd, j, m) == bracket_weight(cmd[j]) + net_brackets(
                    cmd,
                    j + 1,
                    m,
                ));
            }
        }
    }
}

/// What a successful backward scan found is the matching partner: the open
/// bracket at equal nesting depth — the net depth of the range between it and
/// where the scan started pays off the `depth` pending close pairs exactly —
/// and the nearest one, since at every later `[` the nesting was still
/// positive.
pub proof fn lemma_scan_backward_match(cmd: Seq<char>, j: int, depth: nat, k: int)
    requires
        scan_backward(cmd, j, depth) == Some(k),
    ensures
        0 <= k <= j < cmd.len(),
        cmd[k] == '[',
        net_brackets(cmd, k + 1, j + 1) == depth,
        forall|m: int| k < m <= j && cmd[m] == '[' ==> depth - net_brackets(cmd, m + 1, j + 1) > 0,
    decreases j + 1,
{
    lemma_scan_backward_bounds(cmd, j, depth, k);
    assert(0 <= j < cmd.len());
    if cmd[j] == '[' && depth == 0 {
    } else {
        let d2: nat = if cmd[j] == ']' {
            depth + 1
        } else if cmd[j] == '[' {
            (depth - 1) as nat
        } else {
            depth
        };
        lemma_scan_backward_match(cmd, j - 1, d2, k);
        lemma_net_brackets_split(cmd, k + 1, j, j + 1);
        assert(net_brackets(cmd, j + 1, j + 1) == 0);
        assert(net_brackets(cmd, j, j + 1) == bracket_weight(cmd[j]));
        assert forall|m: int| k < m <= j && cmd[m] == '[' implies depth - net_brackets(
            cmd,
            m + 1,
            j + 1,
        ) > 0 by {
            if m < j {
                lemma_net_brackets_split(cmd, m + 1, j, j + 1);
            }
        }
    }
}

/// Splitting a run: `a + b` steps from `s` are `a` steps from `s` and then,
/// if the run is still going, `b` steps from where it got to.
pub proof fn lemma_run_steps_add(cmd: Seq<char>, s: EngineState, a: nat, b: nat)
    ensures
        run_steps(cmd, s, a + b) == (match run_steps(cmd, s, a) {
            StepResult::Running(s2) => run_steps(cmd, s2, b),
            r => r,
        }),
    decreases b,
{
    if b == 0 {
        assert(run_steps(cmd, s, a + 0) == run_steps(cmd, s, a));
        match run_steps(cmd, s, a) {
            StepResult::Running(s2) => {
                assert(run_steps(cmd, s2, 0) == StepResult::Running(s2));
            },
            _ => {},
        }
    } else {
        lemma_run_steps_add(cmd, s, a, (b - 1) as nat);
        assert(a + b == (a + b - 1) + 1);
        match run_steps(cmd, s, a) {
            StepResult::Running(s2) => {
                assert(run_steps(cmd, s, a + b) == (match run_steps(cmd, s2, (b - 1) as nat) {
                    StepResult::Running(s3) => step_state(cmd, s3),
                    r => r,
                }));
                assert(run_steps(cmd, s2, b) == (match run_steps(cmd, s2, (b - 1) as nat) {
                    StepResult::Running(s3) => step_state(cmd, s3),
                    r => r,
                }));
            },
            _ => {},
        }
    }
}

/// One step of a run is one step of the engine.
pub proof fn lemma_run_steps_one(cmd: Seq<char>, s: EngineState)
    ensures
        run_steps(cmd, s, 1) == step_state(cmd, s),
{
    assert(run_steps(cmd, s, 0) == StepResult::Running(s));
}

/// The machine invariant is preserved: a step that keeps running keeps the
/// data pointer on a valid cell, and a suspended or completed step keeps the
/// state as it is.
pub proof fn lemma_step_preserves_wf(cmd: Seq<char>, s: EngineState)
    requires
        state_wf(s),
    ensures
        step_state(cmd, s) matches StepResult::Running(s2) ==> state_wf(s2),
        step_state(cmd, s) matches StepResult::AwaitingInput(s2) ==> s2 == s,
        step_state(cmd, s) matches StepResult::Complete(s2) ==> s2 == s,
        step_state(cmd, s) matches StepResult::Fault(s2, e) ==> s2 == s,
{
    if 0 <= s.cursor < cmd.len() {
        let c = cmd[s.cursor];
        if c == '[' && s.tape[s.pointer] == 0 {
            match scan_forward(cmd, s.cursor + 1, 0) {
                Some(j) => lemma_scan_forward_bounds(cmd, s.cursor + 1, 0, j),
                None => {},
            }
        }
        if c == ']' && s.tape[s.pointer] != 0 {
            match scan_backward(cmd, s.cursor - 1, 0) {
                Some(j) => lemma_scan_backward_bounds(cmd, s.cursor - 1, 0, j),
                None => {},
            }
        }
    }
}

/// The machine invariant holds along whole runs: however many steps the
/// engine takes, the data pointer stays on a valid cell and never goes below
/// 0, whatever the outcome.
pub proof fn lemma_run_steps_preserves_wf(cmd: Seq<char>, s: EngineState, n: nat)
    requires
        state_wf(s),
    ensures
        run_steps(cmd, s, n) matches StepResult::Running(s2) ==> state_wf(s2),
        run_steps(cmd, s, n) matches StepResult::AwaitingInput(s2) ==> state_wf(s2),
        run_steps(cmd, s, n) matches StepResult::Complete(s2) ==> state_wf(s2),
        run_steps(cmd, s, n) matches StepResult::Fault(s2, e) ==> state_wf(s2),
    decreases n,
{
    if n > 0 {
        lemma_run_steps_preserves_wf(cmd, s, (n - 1) as nat);
        match run_steps(cmd, s, (n - 1) as nat) {
            StepResult::Running(s2) => lemma_step_preserves_wf(cmd, s2),
            _ => {},
        }
    }
}

/// Wraparound helper: the wrapped successor of a cell is its successor
/// modulo 256.
proof fn lemma_wrap_inc_mod(v: u8)
    ensures
        wrap_inc(v) == ((v + 1) % 256) as u8,
{
    if v == 255 {
        lemma_mod_self_0(256);
    } else {
        lemma_small_mod((v + 1) as nat, 256);
    }
}

/// Wraparound helper: the wrapped predecessor of a cell is its predecessor
/// modulo 256.
proof fn lemma_wrap_dec_mod(v: u8)
    ensures
        wrap_dec(v) == ((v - 1) % 256) as u8,
{
    if v == 0 {
        lemma_mod_self_0(256);
        lemma_add_mod_noop_right(-1, 256, 256);
        lemma_small_mod(255, 256);
        assert((-1 + (256int % 256)) % 256 == (-1 + 256) % 256);
    } else {
        lemma_small_mod((v - 1) as nat, 256);
    }
}

/// The wraparound law from an arbitrary cursor: the characters of `cmd` from
/// `s.cursor` on, all `+`, `-` or comments, complete and leave the current
/// cell at its old value plus their net increments, modulo 256.
proof fn lemma_arith_from(cmd: Seq<char>, s: EngineState)
    requires
        state_wf(s),
        s.cursor <= cmd.len(),
        only_arith(cmd),
    ensures
        run_steps(cmd, s, (cmd.len() - s.cursor + 1) as nat) == StepResult::Complete(
            EngineState {
                cursor: cmd.len() as int,
                tape: s.tape.update(
                    s.pointer,
                    (((s.tape[s.pointer] + net_from(cmd, s.cursor)) % 256) as u8),
                ),
                pointer: s.pointer,
                output: s.output,
            },
        ),
    decreases cmd.len() - s.cursor,
{
    let p = s.pointer;
    let v = s.tape[p];
    if s.cursor == cmd.len() {
        lemma_run_steps_one(cmd, s);
        lemma_small_mod(v as nat, 256);
        assert(s.tape.update(p, (((v + net_from(cmd, s.cursor)) % 256) as u8)) =~= s.tape);
    } else {
        let c = cmd[s.cursor];
        let w = if c == '+' {
            wrap_inc(v)
        } else if c == '-' {
            wrap_dec(v)
        } else {
            v
        };
        let s2 = EngineState {
            cursor: s.cursor + 1,
            tape: if c == '+' || c == '-' {
                s.tape.update(p, w)
            } else {
                s.tape
            },
            pointer: p,
            output: s.output,
        };
        assert(step_state(cmd, s) == StepResult::Running(s2));
        lemma_arith_from(cmd, s2);
        lemma_run_steps_one(cmd, s);
        lemma_run_steps_add(cmd, s, 1, (cmd.len() - s.cursor) as nat);
        // The cell after the remaining steps: fold the first wrapped change
        // into the net sum.
        let d: int = if c == '+' {
            1
        } else if c == '-' {
            -1
        } else {
            0
        };
        if c == '+' {
            lemma_wrap_inc_mod(v);
        } else if c == '-' {
            lemma_wrap_dec_mod(v);
        } else {
            lemma_small_mod(v as nat, 256);
        }
        lemma_add_mod_noop_right(net_from(cmd, s.cursor + 1), v + d, 256);
        assert(w == ((v + d) % 256) as u8);
        assert((w + net_from(cmd, s.cursor + 1)) % 256 == (net_from(cmd, s.cursor + 1) + ((v + d)
            % 256)) % 256);
        assert((net_from(cmd, s.cursor + 1) + ((v + d) % 256)) % 256 == (net_from(cmd, s.cursor + 1)
            + (v + d)) % 256);
        assert(net_from(cmd, s.cursor) == d + net_from(cmd, s.cursor + 1));
        assert(s2.tape.update(p, (((w + net_from(cmd, s.cursor + 1)) % 256) as u8)) =~= s.tape
            .update(p, (((v + net_from(cmd, s.cursor)) % 256) as u8)));
    }
}

/// Wraparound law: a command string of only `+`, `-` and comment characters,
/// run from its start, completes and leaves the current cell at its old value
/// plus the net number of increments, modulo 256; the pointer, the rest of
/// the tape and the output do not change. Comment characters contribute
/// nothing, so interleaving them never changes what the cell ends at.
pub proof fn lemma_arith_wraparound(cmd: Seq<char>, s: EngineState)
    requires
        state_wf(s),
        s.cursor == 0,
        only_arith(cmd),
    ensures
        run_steps(cmd, s, (cmd.len() + 1) as nat) == StepResult::Complete(
            EngineState {
                cursor: cmd.len() as int,
                tape: s.tape.update(
                    s.pointer,
                    (((s.tape[s.pointer] + net_increments(cmd)) % 256) as u8),
                ),
                pointer: s.pointer,
                output: s.output,
            },
        ),
{
    lemma_arith_from(cmd, s);
}

/// Moving right always lands the pointer on a valid cell. A cell the pointer
/// reaches for the first time — one past the old end of the tape — holds 0,
/// and every cell that already existed keeps its value.
pub proof fn lemma_move_right(cmd: Seq<char>, s: EngineState)
    requires
        state_wf(s),
        0 <= s.cursor < cmd.len(),
        cmd[s.cursor] == '>',
    ensures
        step_state(cmd, s) matches StepResult::Running(s2) && {
            &&& s2.cursor == s.cursor + 1
            &&& s2.pointer == s.pointer + 1
            &&& 0 <= s2.pointer < s2.tape.len()
            &&& s.pointer + 1 == s.tape.len() ==> s2.tape == s.tape.push(0u8)
                && s2.tape[s2.pointer] == 0
            &&& s.pointer + 1 < s.tape.len() ==> s2.tape == s.tape && s2.tape[s2.pointer]
                == s.tape[s.pointer + 1]
            &&& forall|k: int| 0 <= k < s.tape.len() ==> s2.tape[k] == s.tape[k]
            &&& s2.output == s.output
        },
{
}

/// `<` at cell 0 faults with `PointerUnderflow` and changes nothing — the
/// pointer never goes below 0. Anywhere else it moves the pointer one cell
/// left, which stays a valid index.
pub proof fn lemma_move_left(cmd: Seq<char>, s: EngineState)
    requires
        state_wf(s),
        0 <= s.cursor < cmd.len(),
        cmd[s.cursor] == '<',
    ensures
        s.pointer == 0 ==> step_state(cmd, s) == StepResult::Fault(
            s,
            EngineError::PointerUnderflow,
        ),
        s.pointer > 0 ==> step_state(cmd, s) == StepResult::Running(
            EngineState {
                cursor: s.cursor + 1,
                tape: s.tape,
                pointer: s.pointer - 1,
                output: s.output,
            },
        ),
{
}

/// `[` on a zero cell skips in a single step to the character immediately
/// after the matching `]` — the nearest one at equal nesting depth — so
/// nothing in between executes, whatever the nesting. Tape, pointer and
/// output stay untouched.
pub proof fn lemma_open_bracket_skips(cmd: Seq<char>, s: EngineState, j: int)
    requires
        state_wf(s),
        0 <= s.cursor < cmd.len(),
        cmd[s.cursor] == '[',
        s.tape[s.pointer] == 0,
        scan_forward(cmd, s.cursor + 1, 0) == Some(j),
    ensures
        s.cursor < j < cmd.len(),
        cmd[j] == ']',
        net_brackets(cmd, s.cursor + 1, j) == 0,
        step_state(cmd, s) == StepResult::Running(
            EngineState { cursor: j + 1, tape: s.tape, pointer: s.pointer, output: s.output },
        ),
{
    lemma_scan_forward_match(cmd, s.cursor + 1, 0, j);
}

/// `[` on a zero cell with no matching `]` to its right faults with
/// `UnmatchedOpenBracket` instead of running on or scanning out of range.
pub proof fn lemma_open_bracket_unmatched(cmd: Seq<char>, s: EngineState)
    requires
        state_wf(s),
        0 <= s.cursor < cmd.len(),
        cmd[s.cursor] == '[',
        s.tape[s.pointer] == 0,
        scan_forward(cmd, s.cursor + 1, 0) is None,
    ensures
        step_state(cmd, s) == StepResult::Fault(s, EngineError::UnmatchedOpenBracket),
{
}

/// `]` on a nonzero cell jumps in a single step to the character immediately
/// after the matching `[`, re-entering the loop body: the repeat cycle. Tape,
/// pointer and output stay untouched.
pub proof fn lemma_close_bracket_repeats(cmd: Seq<char>, s: EngineState, j: int)
    requires
        state_wf(s),
        0 <= s.cursor < cmd.len(),
        cmd[s.cursor] == ']',
        s.tape[s.pointer] != 0,
        scan_backward(cmd, s.cursor - 1, 0) == Some(j),
    ensures
        0 <= j < s.cursor,
        cmd[j] == '[',
        net_brackets(cmd, j + 1, s.cursor) == 0,
        step_state(cmd, s) == StepResult::Running(
            EngineState { cursor: j + 1, tape: s.tape, pointer: s.pointer, output: s.output },
        ),
{
    lemma_scan_backward_match(cmd, s.cursor - 1, 0, j);
}

/// `]` on a nonzero cell with no matching `[` to its left faults with
/// `UnmatchedCloseBracket`.
pub proof fn lemma_close_bracket_unmatched(cmd: Seq<char>, s: EngineState)
    requires
        state_wf(s),
        0 <= s.cursor < cmd.len(),
        cmd[s.cursor] == ']',
        s.tape[s.pointer] != 0,
        scan_backward(cmd, s.cursor - 1, 0) is None,
    ensures
        step_state(cmd, s) == StepResult::Fault(s, EngineError::UnmatchedCloseBracket),
{
}

/// The body of the clearing idiom: from the cursor just inside `[-]` with a
/// nonzero cell, each pass decrements once and jumps back, and the run
/// completes with the cell at 0 after exactly two steps per unit.
proof fn lemma_clear_loop_body(s: EngineState)
    requires
        state_wf(s),
        s.cursor == 1,
        s.tape[s.pointer] >= 1,
    ensures
        run_steps(seq!['[', '-', ']'], s, (2 * s.tape[s.pointer] + 1) as nat)
            == StepResult::Complete(
            EngineState {
                cursor: 3,
                tape: s.tape.update(s.pointer, 0u8),
                pointer: s.pointer,
                output: s.output,
            },
        ),
    decreases s.tape[s.pointer],
{
    let cmd = seq!['[', '-', ']'];
    let p = s.pointer;
    let v = s.tape[p];
    let s2 = EngineState {
        cursor: 2,
        tape: s.tape.update(p, (v - 1) as u8),
        pointer: p,
        output: s.output,
    };
    assert(cmd[1] == '-' && cmd[2] == ']' && cmd[0] == '[');
    assert(step_state(cmd, s) == StepResult::Running(s2));
    lemma_run_steps_one(cmd, s);
    if v == 1 {
        // `]` sees 0 and falls through; the next step completes the run.
        let s3 = EngineState { cursor: 3, tape: s2.tape, pointer: p, output: s.output };
        assert(step_state(cmd, s2) == StepResult::Running(s3));
        assert(step_state(cmd, s3) == StepResult::Complete(s3));
        lemma_run_steps_add(cmd, s, 1, 2);
        lemma_run_steps_one(cmd, s2);
        lemma_run_steps_add(cmd, s2, 1, 1);
        lemma_run_steps_one(cmd, s3);
        assert(run_steps(cmd, s, 3) == StepResult::Complete(s3));
    } else {
        // `]` sees a nonzero cell and jumps back to just after the `[`.
        assert(scan_backward(cmd, 1, 0) == Some(0int));
        let s3 = EngineState { cursor: 1, tape: s2.tape, pointer: p, output: s.output };
        assert(step_state(cmd, s2) == StepResult::Running(s3));
        lemma_clear_loop_body(s3);
        lemma_run_steps_add(cmd, s, 1, (2 * v) as nat);
        lemma_run_steps_add(cmd, s2, 1, (2 * v - 1) as nat);
        lemma_run_steps_one(cmd, s2);
        assert(s3.tape[p] == v - 1);
        assert(run_steps(cmd, s3, (2 * (v - 1) + 1) as nat) == StepResult::Complete(
            EngineState {
                cursor: 3,
                tape: s3.tape.update(p, 0u8),
                pointer: p,
                output: s.output,
            },
        ));
        assert(s3.tape.update(p, 0u8) =~= s.tape.update(p, 0u8));
        assert((2 * v) as nat == 1 + (2 * (v - 1) + 1) as nat);
    }
}

/// The classic clearing idiom: running `[-]` zeroes the current cell — one
/// decrement-and-jump pass per unit of its value — and completes just past
/// the `]`, leaving pointer, the rest of the tape and the output untouched.
/// A cell already at 0 is skipped without executing the body at all.
pub proof fn lemma_clear_loop(s: EngineState)
    requires
        state_wf(s),
        s.cursor == 0,
    ensures
        run_steps(seq!['[', '-', ']'], s, (2 * s.tape[s.pointer] + 2) as nat)
            == StepResult::Complete(
            EngineState {
                cursor: 3,
                tape: s.tape.update(s.pointer, 0u8),
                pointer: s.pointer,
                output: s.output,
            },
        ),
{
    let cmd = seq!['[', '-', ']'];
    let p = s.pointer;
    let v = s.tape[p];
    assert(cmd[0] == '[' && cmd[1] == '-' && cmd[2] == ']');
    if v == 0 {
        assert(scan_forward(cmd, 2, 0) == Some(2int));
        assert(scan_forward(cmd, 1, 0) == Some(2int));
        let s2 = EngineState { cursor: 3, tape: s.tape, pointer: p, output: s.output };
        assert(step_state(cmd, s) == StepResult::Running(s2));
        assert(step_state(cmd, s2) == StepResult::Complete(s2));
        lemma_run_steps_one(cmd, s);
        lemma_run_steps_add(cmd, s, 1, 1);
        lemma_run_steps_one(cmd, s2);
        assert(s.tape.update(p, 0u8) =~= s.tape);
    } else {
        let s2 = EngineState { cursor: 1, tape: s.tape, pointer: p, output: s.output };
        assert(step_state(cmd, s) == StepResult::Running(s2));
        lemma_run_steps_one(cmd, s);
        lemma_clear_loop_body(s2);
        lemma_run_steps_add(cmd, s, 1, (2 * v + 1) as nat);
    }
}

/// A character that is not one of the eight commands is a no-op: the cursor
/// advances and nothing else changes.
pub proof fn lemma_comment_noop(cmd: Seq<char>, s: EngineState)
    requires
        state_wf(s),
        0 <= s.cursor < cmd.len(),
        !is_command(cmd[s.cursor]),
    ensures
        step_state(cmd, s) == StepResult::Running(
            EngineState {
                cursor: s.cursor + 1,
                tape: s.tape,
                pointer: s.pointer,
                output: s.output,
            },
        ),
{
}

} // verus!
