use tape_interp::interpreter::{InstructionResult, InterpreterRun, InterpreterState};

/// Runs `code` to the end of its output sequence and returns the bytes it
/// produced together with the recorded structural error, if any.
fn run_collect<F: Fn() -> i8>(code: &str, input: F) -> (Vec<i8>, Option<usize>) {
    let mut run = InterpreterRun::new(code.to_string(), input);
    let mut out = Vec::new();
    loop {
        match run.next() {
            None => break,
            Some(Some(b)) => out.push(b),
            Some(None) => {}
        }
    }
    let err = run.get_error();
    (out, err)
}

/// Collects the raw item sequence of a run, `None`-terminated.
fn run_items<F: Fn() -> i8>(code: &str, input: F) -> (Vec<Option<i8>>, Option<usize>) {
    let mut run = InterpreterRun::new(code.to_string(), input);
    let mut items = Vec::new();
    loop {
        match run.next() {
            None => break,
            Some(item) => items.push(item),
        }
    }
    let err = run.get_error();
    (items, err)
}

#[test]
fn noop_program_halts_silently() {
    let (items, err) = run_items("hello world", || 0);
    assert_eq!(items.len(), 11);
    assert!(items.iter().all(|i| i.is_none()));
    assert_eq!(err, None);
}

#[test]
fn empty_program_halts_immediately() {
    let (items, err) = run_items("", || 0);
    assert_eq!(items, Vec::<Option<i8>>::new());
    assert_eq!(err, None);
}

#[test]
fn plus_256_times_wraps_to_zero() {
    let code = format!("{}.", "+".repeat(256));
    let (out, err) = run_collect(&code, || 0);
    assert_eq!(out, vec![0i8]);
    assert_eq!(err, None);
}

#[test]
fn minus_256_times_wraps_to_zero() {
    let code = format!("{}.", "-".repeat(256));
    let (out, err) = run_collect(&code, || 0);
    assert_eq!(out, vec![0i8]);
    assert_eq!(err, None);
}

#[test]
fn plus_256_leaves_cell_materialized_at_zero() {
    let mut state = InterpreterState::new("+".repeat(256));
    for _ in 0..256 {
        let r = state.handle_instruction(|| 0);
        assert!(matches!(r, InstructionResult::Continue));
    }
    assert!(state.is_materialized(0));
    assert_eq!(state.materialized_entries(), vec![(0i64, 0i8)]);
}

#[test]
fn input_then_output_echoes_supplied_byte() {
    let (out, err) = run_collect(",.", || 42);
    assert_eq!(out, vec![42i8]);
    assert_eq!(err, None);

    let (out, err) = run_collect(",.", || -7);
    assert_eq!(out, vec![-7i8]);
    assert_eq!(err, None);
}

#[test]
fn input_overwrites_previous_cell_value() {
    let (out, err) = run_collect("+++,.", || 9);
    assert_eq!(out, vec![9i8]);
    assert_eq!(err, None);
}

#[test]
fn input_invoked_exactly_once_per_comma() {
    let calls = std::cell::Cell::new(0i8);
    let (out, err) = run_collect(",,.", || {
        calls.set(calls.get() + 1);
        calls.get()
    });
    assert_eq!(calls.get(), 2);
    assert_eq!(out, vec![2i8]);
    assert_eq!(err, None);
}

#[test]
fn output_of_untouched_cell_is_zero_without_materializing() {
    let mut state = InterpreterState::new(".".to_string());
    let r = state.handle_instruction(|| 0);
    assert!(matches!(r, InstructionResult::OutputChar(0)));
    assert!(!state.is_materialized(0));
    assert_eq!(state.materialized_entries(), Vec::<(i64, i8)>::new());
}

#[test]
fn write_materializes_entry() {
    let mut state = InterpreterState::new("+".to_string());
    let r = state.handle_instruction(|| 0);
    assert!(matches!(r, InstructionResult::Continue));
    assert!(state.is_materialized(0));
    assert_eq!(state.materialized_entries(), vec![(0i64, 1i8)]);
}

#[test]
fn minus_materializes_at_minus_one() {
    let mut state = InterpreterState::new("-".to_string());
    let r = state.handle_instruction(|| 0);
    assert!(matches!(r, InstructionResult::Continue));
    assert_eq!(state.materialized_entries(), vec![(0i64, -1i8)]);
}

#[test]
fn pointer_moves_select_other_cells() {
    let (out, err) = run_collect(">+<.", || 0);
    assert_eq!(out, vec![0i8]);
    assert_eq!(err, None);

    let mut state = InterpreterState::new(">+<".to_string());
    assert_eq!(state.data_position(), 0);
    state.handle_instruction(|| 0);
    assert_eq!(state.data_position(), 1);
    state.handle_instruction(|| 0);
    state.handle_instruction(|| 0);
    assert_eq!(state.data_position(), 0);
    assert!(state.is_materialized(1));
    assert!(!state.is_materialized(0));
    assert_eq!(state.materialized_entries(), vec![(1i64, 1i8)]);
}

#[test]
fn negative_addresses_are_valid() {
    let (out, err) = run_collect("<+.", || 0);
    assert_eq!(out, vec![1i8]);
    assert_eq!(err, None);
}

#[test]
fn unmatched_open_bracket_records_its_position() {
    let (out, err) = run_collect("+[", || 0);
    assert_eq!(out, Vec::<i8>::new());
    assert_eq!(err, Some(1));

    let (out, err) = run_collect("[", || 0);
    assert_eq!(out, Vec::<i8>::new());
    assert_eq!(err, Some(0));
}

#[test]
fn unmatched_close_bracket_records_its_position() {
    let (out, err) = run_collect("+]", || 0);
    assert_eq!(out, Vec::<i8>::new());
    assert_eq!(err, Some(1));

    let (out, err) = run_collect("]", || 0);
    assert_eq!(out, Vec::<i8>::new());
    assert_eq!(err, Some(0));
}

#[test]
fn bracket_error_ends_sequence_without_an_item() {
    let (items, err) = run_items("+[", || 0);
    // one silent step for `+`; the `[` ends the sequence without yielding
    assert_eq!(items, vec![None]);
    assert_eq!(err, Some(1));
}

#[test]
fn two_plus_then_output_gives_two() {
    let (out, err) = run_collect("++.", || 0);
    assert_eq!(out, vec![2i8]);
    assert_eq!(err, None);

    let (out, err) = run_collect("++.", || 77);
    assert_eq!(out, vec![2i8]);
    assert_eq!(err, None);
}

#[test]
fn open_bracket_jumps_past_its_match_unconditionally() {
    // Per the scan rule, `[` never consults the cell: it always jumps just
    // past its matching `]`, so the loop body is skipped entirely and the run
    // halts after two silent steps.
    let (items, err) = run_items("+[-]", || 0);
    assert_eq!(items, vec![None, None]);
    assert_eq!(err, None);
}

#[test]
fn open_bracket_jump_lands_just_past_match() {
    let mut state = InterpreterState::new("[-].".to_string());
    assert_eq!(state.code_position(), 0);
    let r = state.handle_instruction(|| 0);
    assert!(matches!(r, InstructionResult::Continue));
    assert_eq!(state.code_position(), 3);
    let r = state.handle_instruction(|| 0);
    // the `-` was skipped: the untouched cell still reads 0
    assert!(matches!(r, InstructionResult::OutputChar(0)));
    assert!(!state.is_materialized(0));
    let r = state.handle_instruction(|| 0);
    assert!(matches!(r, InstructionResult::StopExecution));
}

#[test]
fn nested_brackets_match_outermost() {
    let mut state = InterpreterState::new("[[]]x.".to_string());
    let r = state.handle_instruction(|| 0);
    assert!(matches!(r, InstructionResult::Continue));
    assert_eq!(state.code_position(), 4);
}

#[test]
fn halt_leaves_state_untouched() {
    let mut state = InterpreterState::new("+".to_string());
    state.handle_instruction(|| 0);
    let r = state.handle_instruction(|| 0);
    assert!(matches!(r, InstructionResult::StopExecution));
    let r = state.handle_instruction(|| 0);
    assert!(matches!(r, InstructionResult::StopExecution));
    assert_eq!(state.code_position(), 1);
    assert_eq!(state.materialized_entries(), vec![(0i64, 1i8)]);
}

#[test]
fn get_code_returns_program_text() {
    let state = InterpreterState::new("++[].".to_string());
    assert_eq!(state.get_code(), "++[].");
}

#[test]
fn from_state_continues_where_state_stands() {
    let mut state = InterpreterState::new("+.".to_string());
    let r = state.handle_instruction(|| 0);
    assert!(matches!(r, InstructionResult::Continue));
    let mut run = InterpreterRun::from_state(state, || 0);
    assert_eq!(run.next(), Some(Some(1i8)));
    assert_eq!(run.next(), None);
    assert_eq!(run.get_error(), None);
}

#[test]
fn non_ascii_characters_are_noops() {
    let (items, err) = run_items("é☃.", || 0);
    assert_eq!(items, vec![None, None, Some(0i8)]);
    assert_eq!(err, None);
}

#[test]
fn nested_unmatched_open_counts_depth() {
    // the inner pair closes, the outer `[` never does
    let (out, err) = run_collect("[[]", || 0);
    assert_eq!(out, Vec::<i8>::new());
    assert_eq!(err, Some(0));
}

#[test]
fn bracket_pair_jumps_to_end() {
    let (items, err) = run_items("[]", || 0);
    assert_eq!(items, vec![None]);
    assert_eq!(err, None);
}

#[test]
fn identical_runs_produce_identical_sequences() {
    let code = ",+.>,.";
    let (items_a, err_a) = run_items(code, || 11);
    let (items_b, err_b) = run_items(code, || 11);
    assert_eq!(items_a, items_b);
    assert_eq!(err_a, err_b);
    assert_eq!(
        items_a.iter().filter_map(|i| *i).collect::<Vec<i8>>(),
        vec![12i8, 11i8]
    );
}
