//! General laws of the machine's semantics, proved once and for all programs.
//!
//! Each law is stated over the model of [`crate::semantics`]; the contracts
//! of [`crate::interpreter`] pin every executable step to that model, so the
//! laws carry over to every run of the interpreter.

use vstd::prelude::*;

use crate::semantics::{
    InstructionResult, StateModel, advance, all_noops, cell, consumes_input, find_close, find_open,
    init_state, input_at, is_instruction, next_input_count, outcome_at, run_outputs, step,
    step_outcome, step_state, wrap_dec, wrap_inc,
};

verus! {

/// One step from a state whose program holds only no-op characters: a silent
/// advance by one while the instruction pointer is inside the program, a halt
/// once it is past the end; memory and data pointer untouched.
proof fn lemma_noop_step(m: StateModel, b: i8)
    requires
        all_noops(m.code),
        0 <= m.ip,
    ensures
        m.ip < m.code.len() ==> step(m, b) == (
            StateModel { ip: m.ip + 1, ..m },
            InstructionResult::Continue,
        ),
        m.ip >= m.code.len() ==> step(m, b) == (m, InstructionResult::StopExecution),
{
    if m.ip < m.code.len() {
        assert(!is_instruction(m.code[m.ip]));
    }
}

/// No-op programs output nothing, from any starting point of the run.
proof fn lemma_noop_outputs(m: StateModel, ins: Seq<i8>, n: nat, k: nat)
    requires
        all_noops(m.code),
        0 <= m.ip,
    ensures
        run_outputs(m, ins, n, k) =~= Seq::<i8>::empty(),
    decreases k,
{
    if k > 0 {
        let b = input_at(ins, n);
        lemma_noop_step(m, b);
        if m.ip < m.code.len() {
            lemma_noop_outputs(step_state(m, b), ins, next_input_count(m, n), (k - 1) as nat);
        }
    }
}

/// Advancing a no-op program moves the instruction pointer forward one
/// position per step until it rests at the end, and touches nothing else.
proof fn lemma_noop_advance(m: StateModel, ins: Seq<i8>, n: nat, k: nat)
    requires
        all_noops(m.code),
        0 <= m.ip <= m.code.len(),
    ensures
        ({
            let a = advance(m, ins, n, k);
            &&& a.1 == n
            &&& a.0 == StateModel {
                ip: if m.ip + k <= m.code.len() {
                    m.ip + k
                } else {
                    m.code.len() as int
                },
                ..m
            }
        }),
    decreases k,
{
    if k > 0 {
        lemma_noop_advance(m, ins, n, (k - 1) as nat);
        let prev = advance(m, ins, n, (k - 1) as nat);
        lemma_noop_step(prev.0, input_at(ins, prev.1));
    }
}

/// A program consisting only of no-op characters runs to completion
/// immediately: every step inside the program is a silent `Continue`, the
/// step at its length (and every later one) reports `StopExecution`, and no
/// byte is ever output and no structural error ever arises.
pub proof fn lemma_noop_program_halts(code: Seq<char>, ins: Seq<i8>, k: nat)
    requires
        all_noops(code),
    ensures
        run_outputs(init_state(code), ins, 0, k) =~= Seq::<i8>::empty(),
        k < code.len() ==> outcome_at(init_state(code), ins, 0, k) == InstructionResult::Continue,
        k >= code.len() ==> outcome_at(init_state(code), ins, 0, k)
            == InstructionResult::StopExecution,
{
    lemma_noop_outputs(init_state(code), ins, 0, k);
    lemma_noop_advance(init_state(code), ins, 0, k);
    let a = advance(init_state(code), ins, 0, k);
    lemma_noop_step(a.0, input_at(ins, a.1));
}

/// The cell value reached by applying the wrapping increment `n` times to an
/// untouched cell.
pub open spec fn iter_inc(n: nat) -> i8
    decreases n,
{
    if n == 0 {
        0
    } else {
        wrap_inc(iter_inc((n - 1) as nat))
    }
}

/// The cell value reached by applying the wrapping decrement `n` times to an
/// untouched cell.
pub open spec fn iter_dec(n: nat) -> i8
    decreases n,
{
    if n == 0 {
        0
    } else {
        wrap_dec(iter_dec((n - 1) as nat))
    }
}

/// Closed form of [`iter_inc`] below one full cycle: counting up from 0
/// passes through 0, 1, …, 127, −128, −127, …, −1.
proof fn lemma_iter_inc_small(n: nat)
    requires
        n <= 255,
    ensures
        iter_inc(n) as int == if n < 128 {
            n as int
        } else {
            n - 256
        },
    decreases n,
{
    if n > 0 {
        lemma_iter_inc_small((n - 1) as nat);
    }
}

/// Closed form of [`iter_dec`] below one full cycle: counting down from 0
/// passes through 0, −1, …, −128, 127, 126, …, 1.
proof fn lemma_iter_dec_small(n: nat)
    requires
        n <= 255,
    ensures
        iter_dec(n) as int == if n <= 128 {
            -(n as int)
        } else {
            256 - n
        },
    decreases n,
{
    if n > 0 {
        lemma_iter_dec_small((n - 1) as nat);
    }
}

/// Advancing a program of `+` instructions only: after `k` steps the cell at
/// address 0 has been incremented `k` times with 8-bit wraparound (and, once
/// written, stays materialized).
proof fn lemma_plus_advance(code: Seq<char>, ins: Seq<i8>, k: nat)
    requires
        forall|i: int| 0 <= i < code.len() ==> #[trigger] code[i] == '+',
        k <= code.len(),
    ensures
        ({
            let a = advance(init_state(code), ins, 0, k);
            &&& a.1 == 0
            &&& a.0.code == code
            &&& a.0.dp == 0
            &&& a.0.ip == k
            &&& a.0.mem =~= if k == 0 {
                Map::<i64, i8>::empty()
            } else {
                Map::<i64, i8>::empty().insert(0, iter_inc(k))
            }
            &&& cell(a.0) == iter_inc(k)
        }),
    decreases k,
{
    if k > 0 {
        lemma_plus_advance(code, ins, (k - 1) as nat);
    }
}

/// Advancing a program of `-` instructions only, symmetrically.
proof fn lemma_minus_advance(code: Seq<char>, ins: Seq<i8>, k: nat)
    requires
        forall|i: int| 0 <= i < code.len() ==> #[trigger] code[i] == '-',
        k <= code.len(),
    ensures
        ({
            let a = advance(init_state(code), ins, 0, k);
            &&& a.1 == 0
            &&& a.0.code == code
            &&& a.0.dp == 0
            &&& a.0.ip == k
            &&& a.0.mem =~= if k == 0 {
                Map::<i64, i8>::empty()
            } else {
                Map::<i64, i8>::empty().insert(0, iter_dec(k))
            }
            &&& cell(a.0) == iter_dec(k)
        }),
    decreases k,
{
    if k > 0 {
        lemma_minus_advance(code, ins, (k - 1) as nat);
    }
}

/// Wraparound law for `+`: applied 256 times to an untouched cell, it returns
/// that cell to value 0 — the entry stays materialized, holding 0.
pub proof fn lemma_plus_wraparound(code: Seq<char>, ins: Seq<i8>)
    requires
        code.len() == 256,
        forall|i: int| 0 <= i < code.len() ==> #[trigger] code[i] == '+',
    ensures
        ({
            let m = advance(init_state(code), ins, 0, 256).0;
            &&& m.mem.contains_pair(0i64, 0i8)
            &&& cell(m) == 0
        }),
{
    lemma_plus_advance(code, ins, 256);
    lemma_iter_inc_small(255);
    assert(iter_inc(256) == wrap_inc(iter_inc(255)));
}

/// Wraparound law for `-`: applied 256 times to an untouched cell, it returns
/// that cell to value 0 — the entry stays materialized, holding 0.
pub proof fn lemma_minus_wraparound(code: Seq<char>, ins: Seq<i8>)
    requires
        code.len() == 256,
        forall|i: int| 0 <= i < code.len() ==> #[trigger] code[i] == '-',
    ensures
        ({
            let m = advance(init_state(code), ins, 0, 256).0;
            &&& m.mem.contains_pair(0i64, 0i8)
            &&& cell(m) == 0
        }),
{
    lemma_minus_advance(code, ins, 256);
    lemma_iter_dec_small(255);
    assert(iter_dec(256) == wrap_dec(iter_dec(255)));
}

/// A `,` followed immediately by `.` on the same cell outputs exactly the
/// byte the input source supplied for that `,`, whatever byte `b2` the later
/// step would be fed.
pub proof fn lemma_input_then_output(m: StateModel, b: i8, b2: i8)
    requires
        0 <= m.ip,
        m.ip + 1 < m.code.len(),
        m.code[m.ip] == ',',
        m.code[m.ip + 1] == '.',
    ensures
        step_outcome(m, b) == InstructionResult::Continue,
        step_outcome(step_state(m, b), b2) == InstructionResult::OutputChar(b),
{
}

/// Reading a cell via `.` never mutates memory; in particular an untouched
/// cell reads as 0 and does not become materialized, so it cannot appear in
/// any later diagnostic dump.
pub proof fn lemma_output_no_materialize(m: StateModel, b: i8)
    requires
        0 <= m.ip < m.code.len(),
        m.code[m.ip] == '.',
    ensures
        step_state(m, b).mem == m.mem,
        step_state(m, b).dp == m.dp,
        !m.mem.dom().contains(m.dp) ==> step_outcome(m, b) == InstructionResult::OutputChar(0i8),
{
}

/// A forward scan over a region with no `]` finds no match.
proof fn lemma_no_close_scan(code: Seq<char>, i: int, depth: int)
    requires
        forall|j: int| i <= j < code.len() ==> code[j] != ']',
    ensures
        find_close(code, i, depth) is None,
    decreases code.len() - i,
{
    if 0 <= i < code.len() {
        lemma_no_close_scan(code, i + 1, if code[i] == '[' {
            depth + 1
        } else {
            depth
        });
    }
}

/// A backward scan over a region with no `[` finds no match.
proof fn lemma_no_open_scan(code: Seq<char>, i: int, depth: int)
    requires
        forall|j: int| 0 <= j <= i && j < code.len() ==> code[j] != '[',
    ensures
        find_open(code, i, depth) is None,
    decreases i + 1,
{
    if 0 <= i < code.len() {
        lemma_no_open_scan(code, i - 1, if code[i] == ']' {
            depth + 1
        } else {
            depth
        });
    }
}

/// An `[` with no `]` anywhere after it is unmatched: executing it reports a
/// structural error carrying exactly the position of that `[`, and leaves the
/// state unchanged.
pub proof fn lemma_unmatched_open_bracket(m: StateModel, b: i8)
    requires
        0 <= m.ip < m.code.len(),
        m.code[m.ip] == '[',
        forall|j: int| m.ip < j < m.code.len() ==> m.code[j] != ']',
    ensures
        step(m, b) == (m, InstructionResult::BracketError(m.ip as usize)),
{
    lemma_no_close_scan(m.code, m.ip + 1, 1);
}

/// Symmetrically, a `]` with no `[` anywhere before it is unmatched:
/// executing it reports a structural error carrying exactly the position of
/// that `]`, and leaves the state unchanged.
pub proof fn lemma_unmatched_close_bracket(m: StateModel, b: i8)
    requires
        0 <= m.ip < m.code.len(),
        m.code[m.ip] == ']',
        forall|j: int| 0 <= j < m.ip ==> m.code[j] != '[',
    ensures
        step(m, b) == (m, InstructionResult::BracketError(m.ip as usize)),
{
    lemma_no_open_scan(m.code, m.ip - 1, 1);
}

/// Memory never shrinks: once an address is materialized, its entry persists
/// through every further step, even if arithmetic later returns it to 0.
pub proof fn lemma_memory_never_shrinks(m: StateModel, b: i8, a: i64)
    requires
        m.mem.dom().contains(a),
    ensures
        step_state(m, b).mem.dom().contains(a),
{
}

/// A successful forward scan lands inside the program, on a `]`, at or after
/// where it started.
proof fn lemma_find_close_in_range(code: Seq<char>, i: int, depth: int, j: int)
    requires
        find_close(code, i, depth) == Some(j),
    ensures
        i <= j < code.len(),
        code[j] == ']',
    decreases code.len() - i,
{
    if code[i] == ']' && depth == 1 {
    } else if code[i] == ']' {
        lemma_find_close_in_range(code, i + 1, depth - 1, j);
    } else if code[i] == '[' {
        lemma_find_close_in_range(code, i + 1, depth + 1, j);
    } else {
        lemma_find_close_in_range(code, i + 1, depth, j);
    }
}

/// A successful backward scan lands inside the program, on a `[`, at or
/// before where it started.
proof fn lemma_find_open_in_range(code: Seq<char>, i: int, depth: int, j: int)
    requires
        find_open(code, i, depth) == Some(j),
    ensures
        0 <= j <= i,
        j < code.len(),
        code[j] == '[',
    decreases i + 1,
{
    if code[i] == '[' && depth == 1 {
    } else if code[i] == '[' {
        lemma_find_open_in_range(code, i - 1, depth - 1, j);
    } else if code[i] == ']' {
        lemma_find_open_in_range(code, i - 1, depth + 1, j);
    } else {
        lemma_find_open_in_range(code, i - 1, depth, j);
    }
}

/// The instruction pointer never leaves `[0, code.len()]`: every step from a
/// state in that range — by one position, or by a bracket's jump to its
/// matching partner — lands in it again.
pub proof fn lemma_ip_stays_in_range(m: StateModel, b: i8)
    requires
        0 <= m.ip <= m.code.len(),
    ensures
        0 <= step_state(m, b).ip <= m.code.len(),
{
    if 0 <= m.ip < m.code.len() {
        let c = m.code[m.ip];
        if c == '[' {
            if let Some(j) = find_close(m.code, m.ip + 1, 1) {
                lemma_find_close_in_range(m.code, m.ip + 1, 1, j);
            }
        } else if c == ']' {
            if let Some(j) = find_open(m.code, m.ip - 1, 1) {
                lemma_find_open_in_range(m.code, m.ip - 1, 1, j);
            }
        }
    }
}

/// Determinism: the outputs of a run are a function of the program text and
/// the input stream alone. Two runs started from identical programs, fed the
/// same stream of input bytes, produce identical output sequences — and the
/// interpreter's contracts pin each of its steps to this same [`step`]
/// relation, so two drivers built from identical text and deterministic input
/// sources cannot diverge.
pub proof fn lemma_run_deterministic(
    m1: StateModel,
    m2: StateModel,
    code: Seq<char>,
    ins: Seq<i8>,
    k: nat,
)
    requires
        m1 == init_state(code),
        m2 == init_state(code),
    ensures
        run_outputs(m1, ins, 0, k) == run_outputs(m2, ins, 0, k),
        advance(m1, ins, 0, k) == advance(m2, ins, 0, k),
{
}

} // verus!
