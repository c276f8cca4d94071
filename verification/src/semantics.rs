//! The mathematical model of the machine: its state, the effect of one
//! instruction, bracket matching, and multi-step execution traces.
//!
//! One machine state is a program (a sequence of characters), an instruction
//! pointer into it, a sparse memory mapping addresses to signed byte cells,
//! and a data pointer selecting the current cell. Unset addresses implicitly
//! hold 0; an entry is materialized only on a write.

use vstd::prelude::*;

verus! {

/// The outcome of executing one instruction.
#[derive(Clone, Copy, Debug, PartialEq, Eq, Structural)]
pub enum InstructionResult {
    /// The instruction pointer is at or past the end of the program: the run
    /// is finished. The state is unchanged.
    StopExecution,
    /// An instruction executed silently.
    Continue,
    /// The `.` instruction executed: the current cell's value is produced,
    /// without mutating memory.
    OutputChar(i8),
    /// A bracket instruction had no matching partner within the program; the
    /// payload is the position of the unmatched bracket. The state is
    /// unchanged.
    BracketError(usize),
}

/// The abstract state of the machine.
pub struct StateModel {
    /// The program text, fixed at construction.
    pub code: Seq<char>,
    /// The instruction pointer: an index into `code`; `code.len()` means the
    /// run has halted.
    pub ip: int,
    /// The sparse memory: only addresses that have been written appear.
    pub mem: Map<i64, i8>,
    /// The data pointer: the address of the current cell.
    pub dp: i64,
}

/// The state of a machine freshly constructed from a program: instruction
/// pointer 0, empty memory, data pointer 0.
pub open spec fn init_state(code: Seq<char>) -> StateModel {
    StateModel { code: code, ip: 0, mem: Map::empty(), dp: 0 }
}

/// The value of the current cell: 0 if the address was never written.
pub open spec fn cell(m: StateModel) -> i8 {
    if m.mem.dom().contains(m.dp) {
        m.mem[m.dp]
    } else {
        0
    }
}

/// Increment of a cell, with 8-bit wraparound.
pub open spec fn wrap_inc(v: i8) -> i8 {
    if v == i8::MAX {
        i8::MIN
    } else {
        (v + 1) as i8
    }
}

/// Decrement of a cell, with 8-bit wraparound.
pub open spec fn wrap_dec(v: i8) -> i8 {
    if v == i8::MIN {
        i8::MAX
    } else {
        (v - 1) as i8
    }
}

/// Moving the data pointer right. The tape is unbounded in the abstract; the
/// machine address space is not, so at the far end of it the pointer wraps
/// around rather than fail (out-of-range addresses are permissive by design).
pub open spec fn ptr_inc(p: i64) -> i64 {
    if p == i64::MAX {
        i64::MIN
    } else {
        (p + 1) as i64
    }
}

/// Moving the data pointer left; see [`ptr_inc`].
pub open spec fn ptr_dec(p: i64) -> i64 {
    if p == i64::MIN {
        i64::MAX
    } else {
        (p - 1) as i64
    }
}

/// The position of the `]` matching an `[`, found by scanning forward with a
/// depth counter. `find_close(code, i, depth)` scans from position `i` with
/// `depth` unclosed brackets outstanding; the scan for the `[` at position
/// `p` is `find_close(code, p + 1, 1)`. `None` means the program ended first.
pub open spec fn find_close(code: Seq<char>, i: int, depth: int) -> Option<int>
    decreases code.len() - i,
{
    if i < 0 || i >= code.len() {
        None
    } else if code[i] == ']' {
        if depth == 1 {
            Some(i)
        } else {
            find_close(code, i + 1, depth - 1)
        }
    } else if code[i] == '[' {
        find_close(code, i + 1, depth + 1)
    } else {
        find_close(code, i + 1, depth)
    }
}

/// The position of the `[` matching a `]`, found by scanning backward with a
/// depth counter. `find_open(code, i, depth)` scans from position `i` down;
/// the scan for the `]` at position `p` is `find_open(code, p - 1, 1)`.
/// `None` means the scan ran past the start of the program.
pub open spec fn find_open(code: Seq<char>, i: int, depth: int) -> Option<int>
    decreases i + 1,
{
    if i < 0 || i >= code.len() {
        None
    } else if code[i] == '[' {
        if depth == 1 {
            Some(i)
        } else {
            find_open(code, i - 1, depth - 1)
        }
    } else if code[i] == ']' {
        find_open(code, i - 1, depth + 1)
    } else {
        find_open(code, i - 1, depth)
    }
}

/// Whether the next instruction to execute is `,`, i.e. whether one step from
/// `m` invokes the input source.
pub open spec fn consumes_input(m: StateModel) -> bool {
    0 <= m.ip < m.code.len() && m.code[m.ip] == ','
}

/// The effect of executing one instruction from state `pre`, where `input` is
/// the byte the input source would supply (consulted only when the current
/// instruction is `,`): the successor state and the step's outcome.
///
/// The instruction pointer advances by one after every instruction, except
/// that a matched `[` lands just past its matching `]`, and a matched `]`
/// lands on (not past) its matching `[`. Neither bracket consults the current
/// cell: the jumps are unconditional.
pub open spec fn step(pre: StateModel, input: i8) -> (StateModel, InstructionResult) {
    if pre.ip < 0 || pre.ip >= pre.code.len() {
        (pre, InstructionResult::StopExecution)
    } else {
        let c = pre.code[pre.ip];
        if c == '+' {
            (
                StateModel { ip: pre.ip + 1, mem: pre.mem.insert(pre.dp, wrap_inc(cell(pre))), ..pre },
                InstructionResult::Continue,
            )
        } else if c == '-' {
            (
                StateModel { ip: pre.ip + 1, mem: pre.mem.insert(pre.dp, wrap_dec(cell(pre))), ..pre },
                InstructionResult::Continue,
            )
        } else if c == '>' {
            (StateModel { ip: pre.ip + 1, dp: ptr_inc(pre.dp), ..pre }, InstructionResult::Continue)
        } else if c == '<' {
            (StateModel { ip: pre.ip + 1, dp: ptr_dec(pre.dp), ..pre }, InstructionResult::Continue)
        } else if c == ',' {
            (
                StateModel { ip: pre.ip + 1, mem: pre.mem.insert(pre.dp, input), ..pre },
                InstructionResult::Continue,
            )
        } else if c == '.' {
            (StateModel { ip: pre.ip + 1, ..pre }, InstructionResult::OutputChar(cell(pre)))
        } else if c == '[' {
            match find_close(pre.code, pre.ip + 1, 1) {
                Some(j) => (StateModel { ip: j + 1, ..pre }, InstructionResult::Continue),
                None => (pre, InstructionResult::BracketError(pre.ip as usize)),
            }
        } else if c == ']' {
            match find_open(pre.code, pre.ip - 1, 1) {
                Some(j) => (StateModel { ip: j, ..pre }, InstructionResult::Continue),
                None => (pre, InstructionResult::BracketError(pre.ip as usize)),
            }
        } else {
            (StateModel { ip: pre.ip + 1, ..pre }, InstructionResult::Continue)
        }
    }
}

/// The successor state of one step; see [`step`].
pub open spec fn step_state(pre: StateModel, input: i8) -> StateModel {
    step(pre, input).0
}

/// The outcome of one step; see [`step`].
pub open spec fn step_outcome(pre: StateModel, input: i8) -> InstructionResult {
    step(pre, input).1
}

/// Whether `c` is one of the eight meaningful instruction characters; every
/// other character is a no-op consuming one step.
pub open spec fn is_instruction(c: char) -> bool {
    c == '+' || c == '-' || c == '>' || c == '<' || c == ',' || c == '.' || c == '[' || c == ']'
}

/// Whether the program consists only of no-op characters.
pub open spec fn all_noops(code: Seq<char>) -> bool {
    forall|i: int| 0 <= i < code.len() ==> !is_instruction(#[trigger] code[i])
}

/// The byte the input source supplies on its `n`-th invocation, when the
/// source plays back the stream `ins` (and 0 once the stream is exhausted).
pub open spec fn input_at(ins: Seq<i8>, n: nat) -> i8 {
    if n < ins.len() {
        ins[n as int]
    } else {
        0
    }
}

/// How many inputs have been consumed after one step from `m`, when `n` were
/// consumed before it: the `,` instruction invokes the input source exactly
/// once, every other step leaves it untouched.
pub open spec fn next_input_count(m: StateModel, n: nat) -> nat {
    if consumes_input(m) {
        n + 1
    } else {
        n
    }
}

/// The state after `k` steps from `m`, feeding the input stream `ins`, with
/// `n` inputs already consumed; paired with the input count after those
/// steps.
pub open spec fn advance(m: StateModel, ins: Seq<i8>, n: nat, k: nat) -> (StateModel, nat)
    decreases k,
{
    if k == 0 {
        (m, n)
    } else {
        let prev = advance(m, ins, n, (k - 1) as nat);
        (step_state(prev.0, input_at(ins, prev.1)), next_input_count(prev.0, prev.1))
    }
}

/// The outcome of the step taken after `k` steps from `m`; see [`advance`].
pub open spec fn outcome_at(m: StateModel, ins: Seq<i8>, n: nat, k: nat) -> InstructionResult {
    let prev = advance(m, ins, n, k);
    step_outcome(prev.0, input_at(ins, prev.1))
}

/// The bytes output within the first `k` steps from `m`, feeding the input
/// stream `ins` with `n` inputs already consumed. A halt or a structural
/// error ends the sequence: nothing past it is collected.
pub open spec fn run_outputs(m: StateModel, ins: Seq<i8>, n: nat, k: nat) -> Seq<i8>
    decreases k,
{
    if k == 0 {
        Seq::empty()
    } else {
        let b = input_at(ins, n);
        match step_outcome(m, b) {
            InstructionResult::StopExecution => Seq::empty(),
            InstructionResult::BracketError(_) => Seq::empty(),
            InstructionResult::Continue => run_outputs(
                step_state(m, b),
                ins,
                next_input_count(m, n),
                (k - 1) as nat,
            ),
            InstructionResult::OutputChar(c) => seq![c] + run_outputs(
                step_state(m, b),
                ins,
                next_input_count(m, n),
                (k - 1) as nat,
            ),
        }
    }
}

} // verus!
