use tape_machine::brackets::find_matching_close;
use tape_machine::machine::{execute, Machine, Report, TAPE_CAPACITY};
use tape_machine::semantics::{Action, Fault, Status};

fn program(text: &str) -> Vec<char> {
    text.chars().collect()
}

fn blank() -> Vec<u8> {
    vec![0u8; TAPE_CAPACITY]
}

fn run_fresh(text: &str, input: &[u8], max_steps: u64) -> (Report, Vec<u8>) {
    let mut tape = blank();
    let report = execute(program(text), &mut tape, 0, input, max_steps);
    (report, tape)
}

#[test]
fn two_increments_then_output_emit_two() {
    let (report, tape) = run_fresh("++.", &[], 1000);
    assert_eq!(report.output, vec![2u8]);
    assert_eq!(report.taken, 0);
    assert_eq!(report.status, Status::Halted);
    assert_eq!(tape[0], 2);
}

#[test]
fn multiply_by_repeated_add_gives_nine() {
    let (report, tape) = run_fresh("+++[>+++<-]>.", &[], 1000);
    assert_eq!(report.output, vec![9u8]);
    assert_eq!(report.status, Status::Halted);
    assert_eq!(tape[0], 0);
    assert_eq!(tape[1], 9);
    assert!(tape[2..].iter().all(|&cell| cell == 0));
}

#[test]
fn lone_close_bracket_is_rejected_before_any_mutation() {
    let (report, tape) = run_fresh("]", &[], 1000);
    assert_eq!(report.status, Status::Failed(Fault::UnmatchedClose { position: 0 }));
    assert!(report.output.is_empty());
    assert_eq!(tape, blank());
}

#[test]
fn lone_open_bracket_is_rejected_before_any_output() {
    let (report, tape) = run_fresh("[", &[], 1000);
    assert_eq!(report.status, Status::Failed(Fault::UnmatchedOpen { position: 0 }));
    assert!(report.output.is_empty());
    assert_eq!(tape, blank());
}

#[test]
fn close_bracket_without_open_loop_faults_on_nonzero_cell_too() {
    let (report, tape) = run_fresh("+.]+.", &[], 1000);
    assert_eq!(report.status, Status::Failed(Fault::UnmatchedClose { position: 2 }));
    assert_eq!(report.output, vec![1u8]);
    assert_eq!(tape[0], 1);
}

#[test]
fn open_bracket_that_is_entered_needs_no_close() {
    let mut machine = Machine::fresh(program("+["));
    assert_eq!(machine.step(), Ok(Action::Continue));
    assert_eq!(machine.step(), Ok(Action::Continue));
    assert_eq!(machine.loop_depth(), 1);
    assert_eq!(machine.step(), Ok(Action::Halt));
}

#[test]
fn skip_scan_running_past_the_end_names_the_open_bracket() {
    let (report, tape) = run_fresh("+>[[-]", &[], 1000);
    assert_eq!(report.status, Status::Failed(Fault::UnmatchedOpen { position: 2 }));
    assert_eq!(tape[0], 1);
}

#[test]
fn increment_wraps_from_255_to_zero() {
    let mut tape = vec![255u8, 7];
    let report = execute(program("+"), &mut tape, 0, &[], 10);
    assert_eq!(report.status, Status::Halted);
    assert_eq!(tape, vec![0u8, 7]);
}

#[test]
fn decrement_wraps_from_zero_to_255() {
    let mut tape = vec![0u8, 7];
    let report = execute(program("-"), &mut tape, 0, &[], 10);
    assert_eq!(report.status, Status::Halted);
    assert_eq!(tape, vec![255u8, 7]);
}

#[test]
fn increments_256_times_restore_every_cell_value() {
    let text: String = "+".repeat(256);
    for start in [0u8, 1, 100, 200, 255] {
        let mut tape = vec![start, 3];
        let report = execute(program(&text), &mut tape, 0, &[], 1000);
        assert_eq!(report.status, Status::Halted);
        assert_eq!(tape, vec![start, 3]);
    }
}

#[test]
fn decrements_256_times_restore_every_cell_value() {
    let text: String = "-".repeat(256);
    for start in [0u8, 1, 100, 200, 255] {
        let mut tape = vec![start, 3];
        let report = execute(program(&text), &mut tape, 0, &[], 1000);
        assert_eq!(report.status, Status::Halted);
        assert_eq!(tape, vec![start, 3]);
    }
}

#[test]
fn increments_255_times_do_not_restore() {
    let text: String = "+".repeat(255);
    let mut tape = vec![10u8];
    execute(program(&text), &mut tape, 0, &[], 1000);
    assert_eq!(tape, vec![9u8]);
}

#[test]
fn empty_loop_on_zero_cell_resumes_behind_close() {
    let mut machine = Machine::fresh(program("[]+"));
    assert_eq!(machine.step(), Ok(Action::Continue));
    assert_eq!(machine.position(), 2);
    assert_eq!(machine.loop_depth(), 0);
    assert_eq!(machine.pointer(), 0);
    assert_eq!(machine.tape(), &blank());
}

#[test]
fn loop_on_zero_cell_never_runs_its_body() {
    let mut machine = Machine::fresh(program("[+.>[-],]."));
    assert_eq!(machine.step(), Ok(Action::Continue));
    assert_eq!(machine.position(), 9);
    assert_eq!(machine.loop_depth(), 0);
    assert_eq!(machine.pointer(), 0);
    assert_eq!(machine.tape(), &blank());
    assert_eq!(machine.step(), Ok(Action::Emit(0)));
    assert_eq!(machine.step(), Ok(Action::Halt));
}

#[test]
fn skipping_passes_nested_brackets() {
    let mut machine = Machine::fresh(program("[[][[]]]+"));
    assert_eq!(machine.step(), Ok(Action::Continue));
    assert_eq!(machine.position(), 8);
}

fn passes_of_clear_loop(start: u8) -> (usize, Machine) {
    let mut machine = Machine::new(program(">[-]<"), vec![9, start, 9], 0).unwrap();
    assert_eq!(machine.step(), Ok(Action::Continue));
    let depth_before = machine.loop_depth();
    let mut passes = 0usize;
    while machine.position() < 4 {
        if machine.position() == 2 {
            passes += 1;
        }
        assert_eq!(machine.step(), Ok(Action::Continue));
    }
    assert_eq!(machine.position(), 4);
    assert_eq!(machine.loop_depth(), depth_before);
    (passes, machine)
}

#[test]
fn counting_loop_makes_as_many_passes_as_the_cell_holds() {
    for start in [0u8, 1, 2, 5, 128, 255] {
        let (passes, machine) = passes_of_clear_loop(start);
        assert_eq!(passes, start as usize);
        assert_eq!(machine.tape(), &vec![9u8, 0, 9]);
        assert_eq!(machine.pointer(), 1);
        assert_eq!(machine.loop_depth(), 0);
    }
}

#[test]
fn counting_loop_inside_a_loop_restores_the_outer_depth() {
    let mut machine = Machine::new(program("+[>[-]<-]"), vec![0, 4], 0).unwrap();
    for _ in 0..3 {
        assert_eq!(machine.step(), Ok(Action::Continue));
    }
    assert_eq!(machine.position(), 3);
    assert_eq!(machine.loop_depth(), 1);
    let mut passes = 0usize;
    while machine.position() != 6 {
        if machine.position() == 4 {
            passes += 1;
        }
        assert_eq!(machine.step(), Ok(Action::Continue));
    }
    assert_eq!(passes, 4);
    assert_eq!(machine.loop_depth(), 1);
    assert_eq!(machine.tape(), &vec![1u8, 0]);
}

fn deepest_stack(text: &str, max_steps: usize) -> usize {
    let mut machine = Machine::fresh(program(text));
    let mut deepest = machine.loop_depth();
    for _ in 0..max_steps {
        match machine.step() {
            Ok(Action::Halt) | Err(_) => break,
            Ok(Action::Read) => {
                assert!(machine.supply(1));
            }
            Ok(_) => {}
        }
        deepest = deepest.max(machine.loop_depth());
    }
    deepest
}

#[test]
fn loop_stack_is_never_deeper_than_the_nesting_in_the_source() {
    assert_eq!(deepest_stack("+++.", 100), 0);
    assert_eq!(deepest_stack("++[-]++[-]", 1000), 1);
    assert_eq!(deepest_stack("++[>++[>++[>+<-]<-]<-]", 10_000), 3);
    assert_eq!(deepest_stack("++[>++[-]>[[[[+]]]]<<-]", 10_000), 2);
    assert_eq!(deepest_stack("+[+[+[", 100), 3);
    assert_eq!(deepest_stack("[[[[]]]]", 100), 0);
}

#[test]
fn loop_depth_follows_entering_and_leaving() {
    let mut machine = Machine::fresh(program("+[[-]]"));
    let mut seen = vec![machine.loop_depth()];
    while machine.step() != Ok(Action::Halt) {
        seen.push(machine.loop_depth());
    }
    assert_eq!(seen, vec![0, 0, 1, 2, 2, 1, 0]);
}

#[test]
fn same_program_twice_from_fresh_tapes_gives_same_output() {
    let text = "++++++++[>++++++++<-]>+.+.+.>++[<.>-]";
    let (first, first_tape) = run_fresh(text, &[], 100_000);
    let (second, second_tape) = run_fresh(text, &[], 100_000);
    assert_eq!(first.status, Status::Halted);
    assert_eq!(first.output, vec![65u8, 66, 67, 67, 67]);
    assert_eq!(first, second);
    assert_eq!(first_tape, second_tape);
}

#[test]
fn finished_run_does_not_depend_on_the_step_budget() {
    let text = "+++[>++<-]>.";
    let (short, _) = run_fresh(text, &[], 23);
    assert_eq!(short.status, Status::Running);
    let (tight, _) = run_fresh(text, &[], 24);
    let (loose, _) = run_fresh(text, &[], u64::MAX);
    assert_eq!(tight.status, Status::Halted);
    assert_eq!(tight, loose);
    assert_eq!(tight.output, vec![6u8]);
}

#[test]
fn run_stops_at_the_step_budget() {
    let (report, tape) = run_fresh("+[]", &[], 100);
    assert_eq!(report.status, Status::Running);
    assert!(report.output.is_empty());
    assert_eq!(tape[0], 1);

    let (short, tape) = run_fresh("+++.", &[], 2);
    assert_eq!(short.status, Status::Running);
    assert!(short.output.is_empty());
    assert_eq!(tape[0], 2);

    let (exact, _) = run_fresh("+++.", &[], 4);
    assert_eq!(exact.status, Status::Halted);
    assert_eq!(exact.output, vec![3u8]);

    let (none, tape) = run_fresh("+", &[], 0);
    assert_eq!(none.status, Status::Running);
    assert_eq!(tape[0], 0);
}

#[test]
fn status_at_the_budget_is_that_of_the_instruction_at_hand() {
    let (at_fault, _) = run_fresh("+]", &[], 1);
    assert_eq!(at_fault.status, Status::Failed(Fault::UnmatchedClose { position: 1 }));
    let (at_read, _) = run_fresh("+,", &[], 1);
    assert_eq!(at_read.status, Status::Starved);
    let (at_read_with_input, _) = run_fresh("+,", &[5], 1);
    assert_eq!(at_read_with_input.status, Status::Running);
    assert_eq!(at_read_with_input.taken, 0);
    let (at_skip, _) = run_fresh("+>[", &[], 2);
    assert_eq!(at_skip.status, Status::Failed(Fault::UnmatchedOpen { position: 2 }));
    let (at_edge, _) = run_fresh("+<", &[], 1);
    assert_eq!(at_edge.status, Status::Failed(Fault::TapeBounds { position: 1 }));
}

#[test]
fn input_bytes_go_into_the_current_cell() {
    let (report, tape) = run_fresh(",.>,.", &[65, 10], 100);
    assert_eq!(report.status, Status::Halted);
    assert_eq!(report.output, vec![65u8, 10]);
    assert_eq!(report.taken, 2);
    assert_eq!(tape[0], 65);
    assert_eq!(tape[1], 10);
}

#[test]
fn run_starves_when_the_script_is_used_up() {
    let (report, tape) = run_fresh(",.,.", &[7], 100);
    assert_eq!(report.status, Status::Starved);
    assert_eq!(report.output, vec![7u8]);
    assert_eq!(report.taken, 1);
    assert_eq!(tape[0], 7);
}

#[test]
fn unused_script_bytes_are_not_taken() {
    let (report, _) = run_fresh(",", &[1, 2, 3], 100);
    assert_eq!(report.status, Status::Halted);
    assert_eq!(report.taken, 1);
}

#[test]
fn machine_waits_at_a_read_until_supplied() {
    let mut machine = Machine::fresh(program(",."));
    assert_eq!(machine.peek(), Ok(Action::Read));
    assert_eq!(machine.step(), Ok(Action::Read));
    assert_eq!(machine.step(), Ok(Action::Read));
    assert_eq!(machine.position(), 0);
    assert!(machine.supply(200));
    assert_eq!(machine.position(), 1);
    assert_eq!(machine.tape()[0], 200);
    assert_eq!(machine.step(), Ok(Action::Emit(200)));
}

#[test]
fn byte_is_refused_where_no_read_is_at_hand() {
    let mut machine = Machine::fresh(program("+"));
    assert!(!machine.supply(9));
    assert_eq!(machine.position(), 0);
    assert_eq!(machine.tape()[0], 0);
    assert_eq!(machine.step(), Ok(Action::Continue));
    assert!(!machine.supply(9));
    assert_eq!(machine.tape()[0], 1);
}

#[test]
fn peek_tells_what_step_will_signal() {
    for text in ["", "+", "-", ">", "<", ".", ",", "[", "]", "x", "[]", "+[", "?"] {
        let mut machine = Machine::fresh(program(text));
        let told = machine.peek();
        let before = machine.position();
        assert_eq!(machine.step(), told);
        if told.is_err() {
            assert_eq!(machine.position(), before);
        }
    }
}

#[test]
fn moving_left_of_the_first_cell_is_a_fault() {
    let (report, tape) = run_fresh("+<+", &[], 100);
    assert_eq!(report.status, Status::Failed(Fault::TapeBounds { position: 1 }));
    assert_eq!(tape[0], 1);
}

#[test]
fn moving_right_of_the_last_cell_is_a_fault() {
    let mut tape = vec![0u8; 3];
    let report = execute(program(">+>+>+"), &mut tape, 0, &[], 100);
    assert_eq!(report.status, Status::Failed(Fault::TapeBounds { position: 4 }));
    assert_eq!(tape, vec![0u8, 1, 1]);
}

#[test]
fn fresh_tape_has_thirty_thousand_cells() {
    assert_eq!(TAPE_CAPACITY, 30000);
    let machine = Machine::fresh(program(""));
    assert_eq!(machine.tape().len(), 30000);
    assert!(machine.tape().iter().all(|&cell| cell == 0));
    assert_eq!(machine.pointer(), 0);
    assert_eq!(machine.position(), 0);
    assert_eq!(machine.loop_depth(), 0);

    let text: String = ">".repeat(29_999);
    let (at_last, _) = run_fresh(&text, &[], 100_000);
    assert_eq!(at_last.status, Status::Halted);
    let text: String = ">".repeat(30_000);
    let (past_last, _) = run_fresh(&text, &[], 100_000);
    assert_eq!(past_last.status, Status::Failed(Fault::TapeBounds { position: 29_999 }));
}

#[test]
fn starting_position_outside_the_tape_is_a_fault() {
    assert_eq!(
        Machine::new(program("+"), vec![0u8; 4], 4).err(),
        Some(Fault::TapeBounds { position: 0 })
    );
    assert!(Machine::new(program("+"), Vec::new(), 0).is_err());
    assert!(Machine::new(program("+"), vec![0u8; 4], 3).is_ok());

    let mut tape = vec![1u8, 2, 3];
    let report = execute(program("+."), &mut tape, 3, &[], 100);
    assert_eq!(report.status, Status::Failed(Fault::TapeBounds { position: 0 }));
    assert!(report.output.is_empty());
    assert_eq!(report.taken, 0);
    assert_eq!(tape, vec![1u8, 2, 3]);
}

#[test]
fn run_starts_at_the_given_cell() {
    let mut tape = vec![1u8, 2, 3];
    let report = execute(program("+.<."), &mut tape, 2, &[], 100);
    assert_eq!(report.status, Status::Halted);
    assert_eq!(report.output, vec![4u8, 2]);
    assert_eq!(tape, vec![1u8, 2, 4]);
}

#[test]
fn other_characters_are_skipped() {
    let (report, tape) = run_fresh("a+ b\n+?c.!", &[], 100);
    assert_eq!(report.status, Status::Halted);
    assert_eq!(report.output, vec![2u8]);
    assert_eq!(tape[0], 2);
}

#[test]
fn empty_program_halts_at_once() {
    let mut machine = Machine::fresh(program(""));
    assert_eq!(machine.step(), Ok(Action::Halt));
    assert_eq!(machine.step(), Ok(Action::Halt));
    let (report, tape) = run_fresh("", &[1], 10);
    assert_eq!(report, Report { output: vec![], taken: 0, status: Status::Halted });
    assert_eq!(tape, blank());
}

#[test]
fn into_tape_hands_the_cells_back() {
    let mut machine = Machine::new(program("+>++"), vec![0u8; 2], 0).unwrap();
    while machine.step() != Ok(Action::Halt) {}
    assert_eq!(machine.into_tape(), vec![1u8, 2]);
}

#[test]
fn repeat_jumps_behind_the_open_bracket_without_pushing() {
    let mut machine = Machine::fresh(program("++[-]"));
    for _ in 0..5 {
        assert_eq!(machine.step(), Ok(Action::Continue));
    }
    assert_eq!(machine.position(), 3);
    assert_eq!(machine.loop_depth(), 1);
    assert_eq!(machine.tape()[0], 1);
    assert_eq!(machine.step(), Ok(Action::Continue));
    assert_eq!(machine.step(), Ok(Action::Continue));
    assert_eq!(machine.position(), 5);
    assert_eq!(machine.loop_depth(), 0);
}

#[test]
fn matching_close_is_found_by_depth() {
    let text = program("[a[b]c[]]d]");
    assert_eq!(find_matching_close(&text, 0), Some(8));
    assert_eq!(find_matching_close(&text, 2), Some(4));
    assert_eq!(find_matching_close(&text, 6), Some(7));
    assert_eq!(find_matching_close(&program("[[]"), 0), None);
    assert_eq!(find_matching_close(&program("[[]"), 1), Some(2));
    assert_eq!(find_matching_close(&program("["), 0), None);
}

#[test]
fn only_an_open_bracket_has_a_matching_close() {
    let text = program("a[]]");
    assert_eq!(find_matching_close(&text, 0), None);
    assert_eq!(find_matching_close(&text, 2), None);
    assert_eq!(find_matching_close(&text, 3), None);
    assert_eq!(find_matching_close(&text, 4), None);
    assert_eq!(find_matching_close(&text, usize::MAX), None);
}

#[test]
fn run_in_two_parts_is_one_run() {
    let text = ",[.-],[.-]";
    let input = [3u8, 2];
    let mut whole = Machine::fresh(program(text));
    let all = whole.run(&input, 1000);
    assert_eq!(all.status, Status::Halted);
    assert_eq!(all.output, vec![3u8, 2, 1, 2, 1]);
    assert_eq!(all.taken, 2);

    for first_budget in 0..30u64 {
        let mut parts = Machine::fresh(program(text));
        let first = parts.run(&input, first_budget);
        let second = parts.run(&input[first.taken..], 1000);
        let mut output = first.output.clone();
        output.extend_from_slice(&second.output);
        assert_eq!(output, all.output);
        assert_eq!(first.taken + second.taken, all.taken);
        assert_eq!(second.status, Status::Halted);
        assert_eq!(parts.tape(), whole.tape());
        assert_eq!(parts.position(), whole.position());
    }
}

#[test]
fn run_goes_on_from_where_steps_left_the_machine() {
    let mut machine = Machine::fresh(program("++>+++<[>.<-]"));
    for _ in 0..7 {
        assert_eq!(machine.step(), Ok(Action::Continue));
    }
    assert_eq!(machine.position(), 7);
    assert_eq!(machine.loop_depth(), 0);
    assert_eq!(machine.step(), Ok(Action::Continue));
    assert_eq!(machine.loop_depth(), 1);
    let report = machine.run(&[], 1000);
    assert_eq!(report.status, Status::Halted);
    assert_eq!(report.output, vec![3u8, 3]);
    assert_eq!(machine.loop_depth(), 0);
    assert_eq!(machine.pointer(), 0);
    assert_eq!(machine.position(), 13);
}
