use vstd::prelude::*;

verus! {

/// How many cells a fresh tape holds before any growth.
pub const INITIAL_TAPE_LEN: usize = 30000;

/// How many leading cells the debug view shows.
pub const DEBUG_VIEW_LEN: usize = 10;

/// The memory of the interpreter: a growable tape of byte cells and the data
/// pointer, the index of the cell the next command acts on.
///
/// The state is created once and persists across command executions; only the
/// engine mutates it.
pub struct TapeMachine {
    pub tape: Vec<u8>,
    pub data_ptr: usize,
}

impl TapeMachine {
    /// The machine invariant: the data pointer always rests on a valid cell.
    pub open spec fn wf(&self) -> bool {
        self.data_ptr < self.tape@.len()
    }

    /// A fresh machine: `INITIAL_TAPE_LEN` cells of value 0, pointer at cell 0.
    pub fn new() -> (m: TapeMachine)
        ensures
            m.wf(),
            m.data_ptr == 0,
            m.tape@.len() == INITIAL_TAPE_LEN,
            forall|k: int| 0 <= k < m.tape@.len() ==> m.tape@[k] == 0u8,
    {
        TapeMachine { tape: vec![0u8; INITIAL_TAPE_LEN], data_ptr: 0 }
    }
}

/// The debug view of a machine: a copy of its first `DEBUG_VIEW_LEN` cells
/// (fewer when the tape is shorter), for the caller to log after a run.
pub fn debug_print(machine: &TapeMachine) -> (r: Vec<u8>)
    ensures
        r@.len() == if machine.tape@.len() < DEBUG_VIEW_LEN { machine.tape@.len() } else {
            DEBUG_VIEW_LEN as nat
        },
        forall|k: int| 0 <= k < r@.len() ==> r@[k] == machine.tape@[k],
{
    let n = if machine.tape.len() < DEBUG_VIEW_LEN {
        machine.tape.len()
    } else {
        DEBUG_VIEW_LEN
    };
    let mut r: Vec<u8> = Vec::new();
    let mut k: usize = 0;
    while k < n
        invariant
            k <= n,
            n <= machine.tape@.len(),
            r@.len() == k,
            forall|j: int| 0 <= j < k ==> r@[j] == machine.tape@[j],
        decreases n - k,
    {
        r.push(machine.tape[k]);
        k = k + 1;
    }
    r
}

} // verus!
