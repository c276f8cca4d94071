//! The executable interpreter, proved against the semantics in
//! [`crate::semantics`].
//!
//! [`InterpreterState`] owns the program text, the instruction pointer, the
//! sparse memory and the data pointer, and executes exactly one instruction
//! per call of [`InterpreterState::handle_instruction`]. [`InterpreterRun`]
//! wraps a state together with a caller-supplied input source and drives it
//! step by step.

use vstd::prelude::*;

use std::collections::HashMap;

pub use crate::semantics::InstructionResult;
use crate::semantics::{
    StateModel, consumes_input, find_close, find_open, init_state, step_outcome, step_state,
};

verus! {

broadcast use vstd::std_specs::hash::group_hash_axioms;

/// The execution state of one run: the program, the instruction pointer, the
/// sparse memory, and the data pointer.
///
/// Its abstraction is a [`StateModel`]; every method's contract is stated
/// over that view.
pub struct InterpreterState {
    code: String,
    code_ptr: usize,
    mem: HashMap<i64, i8>,
    mem_ptr: i64,
}

impl View for InterpreterState {
    type V = StateModel;

    closed spec fn view(&self) -> StateModel {
        StateModel {
            code: self.code@,
            ip: self.code_ptr as int,
            mem: self.mem@,
            dp: self.mem_ptr,
        }
    }
}

/// Scans forward for the `]` matching the `[` at position `start`, keeping a
/// depth counter; returns its position, or `None` when the program ends
/// before the counter returns to zero.
fn scan_close(code: &str, start: usize) -> (r: Option<usize>)
    requires
        start < code@.len(),
    ensures
        match r {
            Some(j) => find_close(code@, start + 1, 1) == Some(j as int) && start < j < code@.len(),
            None => find_close(code@, start + 1, 1) is None,
        },
{
    let len = code.unicode_len();
    let mut depth: usize = 1;
    let mut index: usize = start + 1;
    loop
        invariant
            start < len <= usize::MAX,
            start + 1 <= index <= len,
            1 <= depth <= index - start,
            len == code@.len(),
            find_close(code@, index as int, depth as int) == find_close(code@, start + 1, 1),
        decreases len - index,
    {
        if index >= len {
            return None;
        }
        let c = code.get_char(index);
        if c == ']' {
            if depth == 1 {
                return Some(index);
            }
            depth = depth - 1;
        } else if c == '[' {
            depth = depth + 1;
        }
        index = index + 1;
    }
}

/// Scans backward for the `[` matching the `]` at position `start`, keeping a
/// depth counter; returns its position, or `None` when the scan runs past the
/// start of the program before the counter returns to zero.
fn scan_open(code: &str, start: usize) -> (r: Option<usize>)
    requires
        start < code@.len(),
    ensures
        match r {
            Some(j) => find_open(code@, start - 1, 1) == Some(j as int) && j < start,
            None => find_open(code@, start - 1, 1) is None,
        },
{
    let len = code.unicode_len();
    let mut depth: usize = 1;
    let mut index: usize = start;
    loop
        invariant
            start < len <= usize::MAX,
            index <= start,
            1 <= depth <= 1 + start - index,
            len == code@.len(),
            find_open(code@, index as int - 1, depth as int) == find_open(code@, start - 1, 1),
        decreases index,
    {
        if index == 0 {
            return None;
        }
        index = index - 1;
        let c = code.get_char(index);
        if c == '[' {
            if depth == 1 {
                return Some(index);
            }
            depth = depth - 1;
        } else if c == ']' {
            depth = depth + 1;
        }
    }
}

impl InterpreterState {
    /// Constructs a fresh state for `code`: instruction pointer 0, empty
    /// memory, data pointer 0.
    pub fn new(code: String) -> (r: InterpreterState)
        ensures
            r@ == init_state(code@),
    {
        InterpreterState { code: code, code_ptr: 0, mem: HashMap::new(), mem_ptr: 0 }
    }

    /// Read-only access to the program text, for diagnostics and display.
    pub fn get_code(&self) -> (r: &String)
        ensures
            r@ == self@.code,
    {
        &self.code
    }

    /// The current position of the instruction pointer, for diagnostics: a
    /// caret under the program text is drawn at this offset.
    pub fn code_position(&self) -> (r: usize)
        ensures
            r == self@.ip,
    {
        self.code_ptr
    }

    /// The current address selected by the data pointer, for diagnostics.
    pub fn data_position(&self) -> (r: i64)
        ensures
            r == self@.dp,
    {
        self.mem_ptr
    }

    /// Whether the cell at `addr` has been materialized, i.e. written at
    /// least once. Reads via `.` never materialize a cell.
    pub fn is_materialized(&self, addr: i64) -> (r: bool)
        ensures
            r == self@.mem.dom().contains(addr),
    {
        self.mem.contains_key(&addr)
    }

    /// A listing of all materialized memory entries (address, value), in
    /// arbitrary iteration order: exactly the entries of the sparse mapping,
    /// each once.
    pub fn materialized_entries(&self) -> (r: Vec<(i64, i8)>)
        ensures
            r@.len() == self@.mem.dom().len(),
            forall|i: int|
                0 <= i < r@.len() ==> self@.mem.contains_pair(#[trigger] r@[i].0, r@[i].1),
            forall|a: i64, v: i8| self@.mem.contains_pair(a, v) ==> r@.contains((a, v)),
    {
        let mut out: Vec<(i64, i8)> = Vec::new();
        for pair in it: self.mem.iter()
            invariant
                out@.len() == it.index(),
                it.seq().len() == self@.mem.dom().len(),
                forall|i: int|
                    0 <= i < out@.len() ==> self@.mem.contains_pair(
                        (#[trigger] out@[i]).0,
                        out@[i].1,
                    ),
                forall|i: int|
                    0 <= i < it.seq().len() ==> self@.mem.contains_pair(
                        *(#[trigger] it.seq()[i]).0,
                        *it.seq()[i].1,
                    ),
                forall|a: i64, v: i8|
                    self@.mem.contains_pair(a, v) ==> out@.contains((a, v)) || exists|j: int|
                        it.index() <= j < it.seq().len() && it.seq()[j] == (&a, &v),
        {
            let ghost pre = out@;
            out.push((*pair.0, *pair.1));
            proof {
                assert(pair == it.seq()[it.index()]);
                assert(out@[out@.len() - 1] == (*pair.0, *pair.1));
                assert forall|a: i64, v: i8|
                    self@.mem.contains_pair(a, v) && !out@.contains((a, v)) implies exists|j: int|
                    it.index() + 1 <= j < it.seq().len() && it.seq()[j] == (&a, &v) by {
                    assert(!pre.contains((a, v))) by {
                        if pre.contains((a, v)) {
                            let i = choose|i: int| 0 <= i < pre.len() && pre[i] == (a, v);
                            assert(out@[i] == (a, v));
                        }
                    }
                    let j = choose|j: int|
                        it.index() <= j < it.seq().len() && it.seq()[j] == (&a, &v);
                    if j == it.index() {
                        assert(out@[out@.len() - 1] == (a, v));
                    }
                }
            }
        }
        out
    }

    /// Executes the instruction at the current instruction pointer and
    /// reports the outcome. The input source is invoked exactly once if and
    /// only if that instruction is `,`; the byte it returns is the witness
    /// `b` below. In every other case the step is the semantics' [`crate::semantics::step`]
    /// applied to an arbitrary byte, which it then ignores.
    pub fn handle_instruction<InFn: Fn() -> i8>(&mut self, input_handler: InFn) -> (r:
        InstructionResult)
        requires
            call_requires(input_handler, ()),
        ensures
            consumes_input(old(self)@) ==> exists|b: i8|
                {
                    &&& #[trigger] call_ensures(input_handler, (), b)
                    &&& final(self)@ == step_state(old(self)@, b)
                    &&& r == step_outcome(old(self)@, b)
                },
            !consumes_input(old(self)@) ==> final(self)@ == step_state(old(self)@, 0) && r
                == step_outcome(old(self)@, 0),
    {
        let len = self.code.as_str().unicode_len();
        if self.code_ptr >= len {
            return InstructionResult::StopExecution;
        }
        let c = self.code.as_str().get_char(self.code_ptr);
        if c == '+' {
            let cur = match self.mem.get(&self.mem_ptr) {
                Some(v) => *v,
                None => 0,
            };
            let bumped = if cur == i8::MAX {
                i8::MIN
            } else {
                cur + 1
            };
            self.mem.insert(self.mem_ptr, bumped);
        } else if c == '-' {
            let cur = match self.mem.get(&self.mem_ptr) {
                Some(v) => *v,
                None => 0,
            };
            let lowered = if cur == i8::MIN {
                i8::MAX
            } else {
                cur - 1
            };
            self.mem.insert(self.mem_ptr, lowered);
        } else if c == '>' {
            self.mem_ptr = if self.mem_ptr == i64::MAX {
                i64::MIN
            } else {
                self.mem_ptr + 1
            };
        } else if c == '<' {
            self.mem_ptr = if self.mem_ptr == i64::MIN {
                i64::MAX
            } else {
                self.mem_ptr - 1
            };
        } else if c == ',' {
            let b = input_handler();
            self.mem.insert(self.mem_ptr, b);
        } else if c == '.' {
            let out = match self.mem.get(&self.mem_ptr) {
                Some(v) => *v,
                None => 0,
            };
            self.code_ptr = self.code_ptr + 1;
            return InstructionResult::OutputChar(out);
        } else if c == '[' {
            match scan_close(self.code.as_str(), self.code_ptr) {
                Some(j) => {
                    self.code_ptr = j + 1;
                    return InstructionResult::Continue;
                },
                None => {
                    return InstructionResult::BracketError(self.code_ptr);
                },
            }
        } else if c == ']' {
            match scan_open(self.code.as_str(), self.code_ptr) {
                Some(j) => {
                    self.code_ptr = j;
                    return InstructionResult::Continue;
                },
                None => {
                    return InstructionResult::BracketError(self.code_ptr);
                },
            }
        }
        self.code_ptr = self.code_ptr + 1;
        InstructionResult::Continue
    }
}

/// How one call of [`InterpreterRun::next`] relates the driver's state before
/// (`pre`, `pre_err`) and after (`post`, `post_err`) to the item `r` it
/// yields, where `b` is the byte the input source supplied (ignored unless
/// the step consumed input): a halt ends the sequence, a silent step yields
/// `Some(None)`, an output step yields the byte, and a structural error ends
/// the sequence and records the offending position.
pub open spec fn next_rel(
    pre: StateModel,
    pre_err: Option<usize>,
    b: i8,
    post: StateModel,
    post_err: Option<usize>,
    r: Option<Option<i8>>,
) -> bool {
    &&& post == step_state(pre, b)
    &&& match step_outcome(pre, b) {
        InstructionResult::StopExecution => r is None && post_err == pre_err,
        InstructionResult::Continue => r == Some(None::<i8>) && post_err == pre_err,
        InstructionResult::OutputChar(c) => r == Some(Some(c)) && post_err == pre_err,
        InstructionResult::BracketError(p) => r is None && post_err == Some(p),
    }
}

/// One forward-only execution: an execution state together with the
/// caller-supplied input source, stepped by [`InterpreterRun::next`] until
/// the sequence of yielded items ends.
pub struct InterpreterRun<InFn> {
    state: InterpreterState,
    error: Option<usize>,
    input_fn: InFn,
}

impl<InFn> InterpreterRun<InFn> where InFn: Fn() -> i8 {
    /// The model of the wrapped execution state.
    pub closed spec fn state_model(&self) -> StateModel {
        self.state@
    }

    /// The position of the unmatched bracket that ended the run, if the run
    /// has ended with a structural error; retrievable after the sequence is
    /// exhausted.
    pub closed spec fn recorded_error(&self) -> Option<usize> {
        self.error
    }

    /// The input source the run was constructed with.
    pub closed spec fn input_source(&self) -> InFn {
        self.input_fn
    }

    /// Wraps an existing execution state with an input source.
    pub fn from_state(state: InterpreterState, input_handler: InFn) -> (r: Self)
        ensures
            r.state_model() == state@,
            r.recorded_error() is None,
            r.input_source() == input_handler,
    {
        InterpreterRun { state: state, input_fn: input_handler, error: Option::None }
    }

    /// Constructs a run of `code` from a fresh state; see
    /// [`InterpreterState::new`].
    pub fn new(code: String, input_handler: InFn) -> (r: Self)
        ensures
            r.state_model() == init_state(code@),
            r.recorded_error() is None,
            r.input_source() == input_handler,
    {
        Self::from_state(InterpreterState::new(code), input_handler)
    }

    /// Advances the run by one instruction and yields the next item of the
    /// output sequence: `None` ends the sequence (the program halted, or a
    /// structural error was recorded), `Some(None)` is a silent internal
    /// step, and `Some(Some(b))` is an output byte.
    pub fn next(&mut self) -> (r: Option<Option<i8>>)
        requires
            call_requires(&old(self).input_source(), ()),
        ensures
            final(self).input_source() == old(self).input_source(),
            consumes_input(old(self).state_model()) ==> exists|b: i8|
                {
                    &&& #[trigger] call_ensures(&old(self).input_source(), (), b)
                    &&& next_rel(
                        old(self).state_model(),
                        old(self).recorded_error(),
                        b,
                        final(self).state_model(),
                        final(self).recorded_error(),
                        r,
                    )
                },
            !consumes_input(old(self).state_model()) ==> next_rel(
                old(self).state_model(),
                old(self).recorded_error(),
                0,
                final(self).state_model(),
                final(self).recorded_error(),
                r,
            ),
    {
        match self.state.handle_instruction(&self.input_fn) {
            InstructionResult::StopExecution => Option::None,
            InstructionResult::Continue => Option::Some(Option::None),
            InstructionResult::OutputChar(c) => Option::Some(Option::Some(c)),
            InstructionResult::BracketError(err) => {
                self.error = Option::Some(err);
                Option::None
            },
        }
    }

    /// The position of the unmatched bracket that ended the run, if any; see
    /// [`Self::recorded_error`].
    pub fn get_error(&self) -> (r: Option<usize>)
        ensures
            r == self.recorded_error(),
    {
        self.error
    }
}

} // verus!
