use brainfuck_interpreter::context::{BrainfuckContext, RunReport};
use brainfuck_interpreter::error::BrainfuckError;

const LIMIT: u64 = 1_000_000;

fn run_to_end(program: &str, input: &[u8]) -> (Result<RunReport, BrainfuckError>, Vec<u8>) {
    let program = String::from(program);
    let mut ctx = BrainfuckContext::new(&program);
    let mut output = Vec::new();
    let result = ctx.run(input, &mut output, LIMIT);
    (result, output)
}

#[test]
fn new_context_is_zeroed() {
    let program = String::from("+-");
    let ctx = BrainfuckContext::new(&program);
    assert_eq!(ctx.cell_index(), 0);
    assert_eq!(ctx.code_index(), 0);
    assert_eq!(ctx.cell_at(0), Some(0));
    assert_eq!(ctx.cell_at(29999), Some(0));
    assert_eq!(ctx.cell_at(30000), None);
    assert!(!ctx.is_finished());
    assert!(!ctx.awaits_input());
}

#[test]
fn empty_program_is_finished_at_once() {
    let program = String::new();
    let mut ctx = BrainfuckContext::new(&program);
    assert!(ctx.is_finished());
    let mut output = Vec::new();
    let report = ctx.run(&[], &mut output, 0).unwrap();
    assert_eq!(report, RunReport { steps: 0, consumed: 0, finished: true });
    assert!(output.is_empty());
}

#[test]
fn increments_wrap_after_256() {
    let program = "+".repeat(256);
    let mut ctx = BrainfuckContext::new(&program);
    for expected in 1..=255u8 {
        ctx.inc_cell();
        assert_eq!(ctx.cell_at(0), Some(expected));
    }
    ctx.inc_cell();
    assert_eq!(ctx.cell_at(0), Some(0));
    assert_eq!(ctx.code_index(), 256);
    assert!(ctx.is_finished());
}

#[test]
fn increments_wrap_from_any_value() {
    for start in [1usize, 100, 255] {
        let program = "+".repeat(start + 256);
        let mut ctx = BrainfuckContext::new(&program);
        let mut output = Vec::new();
        let report = ctx.run(&[], &mut output, start as u64).unwrap();
        assert!(!report.finished);
        assert_eq!(ctx.cell_at(0), Some(start as u8));
        let report = ctx.run(&[], &mut output, 256).unwrap();
        assert_eq!(report, RunReport { steps: 256, consumed: 0, finished: true });
        assert_eq!(ctx.cell_at(0), Some(start as u8));
    }
}

#[test]
fn decrement_wraps_below_zero() {
    let program = String::from("-+");
    let mut ctx = BrainfuckContext::new(&program);
    ctx.dec_cell();
    assert_eq!(ctx.cell_at(0), Some(255));
    assert_eq!(ctx.code_index(), 1);
    ctx.inc_cell();
    assert_eq!(ctx.cell_at(0), Some(0));
}

#[test]
fn decrement_takes_one() {
    let program = String::from("+++-");
    let mut ctx = BrainfuckContext::new(&program);
    let mut output = Vec::new();
    ctx.run(&[], &mut output, LIMIT).unwrap();
    assert_eq!(ctx.cell_at(0), Some(2));
}

#[test]
fn pointer_moves_right_and_left() {
    let program = String::from("><");
    let mut ctx = BrainfuckContext::new(&program);
    assert_eq!(ctx.next_cell(), Ok(()));
    assert_eq!(ctx.cell_index(), 1);
    assert_eq!(ctx.code_index(), 1);
    assert_eq!(ctx.prev_cell(), Ok(()));
    assert_eq!(ctx.cell_index(), 0);
    assert_eq!(ctx.code_index(), 2);
}

#[test]
fn moving_left_of_the_first_cell_fails() {
    let program = String::from("<");
    let mut ctx = BrainfuckContext::new(&program);
    assert_eq!(ctx.prev_cell(), Err(BrainfuckError::TapeBoundsError));
    assert_eq!(ctx.cell_index(), 0);
    assert_eq!(ctx.code_index(), 0);

    let (result, output) = run_to_end("+.<.", &[]);
    assert_eq!(result, Err(BrainfuckError::TapeBoundsError));
    assert_eq!(output, vec![1u8]);
}

#[test]
fn moving_right_of_the_last_cell_fails() {
    let program = ">".repeat(30000);
    let mut ctx = BrainfuckContext::new(&program);
    let mut output = Vec::new();
    let report = ctx.run(&[], &mut output, 29999).unwrap();
    assert_eq!(report, RunReport { steps: 29999, consumed: 0, finished: false });
    assert_eq!(ctx.cell_index(), 29999);
    assert_eq!(ctx.next_cell(), Err(BrainfuckError::TapeBoundsError));
    assert_eq!(ctx.cell_index(), 29999);
    assert_eq!(ctx.code_index(), 29999);
    assert_eq!(ctx.run(&[], &mut output, 1), Err(BrainfuckError::TapeBoundsError));
}

#[test]
fn zero_cell_skips_the_loop_body() {
    let (result, output) = run_to_end("[+.>,<]", &[7]);
    assert_eq!(result, Ok(RunReport { steps: 1, consumed: 0, finished: true }));
    assert!(output.is_empty());

    let program = String::from("[]+");
    let mut ctx = BrainfuckContext::new(&program);
    assert_eq!(ctx.bracket_open_check(), Ok(()));
    assert_eq!(ctx.code_index(), 2);
    assert_eq!(ctx.cell_index(), 0);
    assert_eq!(ctx.cell_at(0), Some(0));
}

#[test]
fn skipped_body_leaves_the_tape_alone() {
    let program = String::from(">[<+++>-]");
    let mut ctx = BrainfuckContext::new(&program);
    let mut output = Vec::new();
    let report = ctx.run(&[], &mut output, LIMIT).unwrap();
    assert_eq!(report, RunReport { steps: 2, consumed: 0, finished: true });
    assert_eq!(ctx.cell_index(), 1);
    assert_eq!(ctx.cell_at(0), Some(0));
    assert_eq!(ctx.cell_at(1), Some(0));
}

#[test]
fn nonzero_cell_enters_the_loop_body() {
    let program = String::from("+[-]");
    let mut ctx = BrainfuckContext::new(&program);
    ctx.inc_cell();
    assert_eq!(ctx.bracket_open_check(), Ok(()));
    assert_eq!(ctx.code_index(), 2);
}

#[test]
fn clear_loop_on_zero() {
    let (result, _) = run_to_end("[-]", &[]);
    assert_eq!(result, Ok(RunReport { steps: 1, consumed: 0, finished: true }));
}

#[test]
fn clear_loop_on_one() {
    let program = String::from("+[-]");
    let mut ctx = BrainfuckContext::new(&program);
    let mut output = Vec::new();
    let report = ctx.run(&[], &mut output, LIMIT).unwrap();
    assert_eq!(report, RunReport { steps: 1 + 3, consumed: 0, finished: true });
    assert_eq!(ctx.cell_at(0), Some(0));
}

#[test]
fn clear_loop_on_255() {
    let program = String::from("-[-]");
    let mut ctx = BrainfuckContext::new(&program);
    let mut output = Vec::new();
    let report = ctx.run(&[], &mut output, 1).unwrap();
    assert!(!report.finished);
    assert_eq!(ctx.cell_at(0), Some(255));
    let report = ctx.run(&[], &mut output, LIMIT).unwrap();
    assert_eq!(report, RunReport { steps: 2 * 255 + 1, consumed: 0, finished: true });
    assert_eq!(ctx.cell_at(0), Some(0));
    assert!(output.is_empty());
}

#[test]
fn clear_loop_counts_its_rounds() {
    for n in [0u8, 1, 2, 17, 255] {
        let program = String::from(",[-.]");
        let mut ctx = BrainfuckContext::new(&program);
        let mut output = Vec::new();
        let report = ctx.run(&[n], &mut output, LIMIT).unwrap();
        assert!(report.finished);
        assert_eq!(output.len(), n as usize);
        assert_eq!(ctx.cell_at(0), Some(0));
    }
}

#[test]
fn echo_reproduces_every_byte() {
    for byte in 0..=255u8 {
        let (result, output) = run_to_end(",.", &[byte]);
        assert_eq!(result, Ok(RunReport { steps: 2, consumed: 1, finished: true }));
        assert_eq!(output, vec![byte]);
    }
}

#[test]
fn echo_reads_input_front_to_back() {
    let (result, output) = run_to_end(",.,.,.", &[3, 1, 2, 9]);
    assert_eq!(result, Ok(RunReport { steps: 6, consumed: 3, finished: true }));
    assert_eq!(output, vec![3u8, 1, 2]);
}

#[test]
fn reading_past_the_input_fails() {
    let (result, output) = run_to_end(",.,.", &[5]);
    assert_eq!(result, Err(BrainfuckError::InputExhausted));
    assert_eq!(output, vec![5u8]);

    let program = String::from(",");
    let mut ctx = BrainfuckContext::new(&program);
    assert!(ctx.awaits_input());
    assert_eq!(ctx.read_cell(None), Err(BrainfuckError::InputExhausted));
    assert_eq!(ctx.code_index(), 0);
    assert_eq!(ctx.read_cell(Some(200)), Ok(()));
    assert_eq!(ctx.cell_at(0), Some(200));
    assert_eq!(ctx.code_index(), 1);
}

#[test]
fn put_cell_hands_out_the_current_cell() {
    let program = String::from("+++.");
    let mut ctx = BrainfuckContext::new(&program);
    ctx.inc_cell();
    ctx.inc_cell();
    ctx.inc_cell();
    assert_eq!(ctx.put_cell(), 3);
    assert_eq!(ctx.cell_at(0), Some(3));
    assert!(ctx.is_finished());
}

#[test]
fn nested_loops_match_by_depth() {
    // The outer `[` of `[[-]-]` belongs to the last `]`, not to the first.
    let program = String::from("[[-]-]+");
    let mut ctx = BrainfuckContext::new(&program);
    assert_eq!(ctx.bracket_open_check(), Ok(()));
    assert_eq!(ctx.code_index(), 6);

    let program = String::from("+[[-]-]");
    let mut ctx = BrainfuckContext::new(&program);
    let mut output = Vec::new();
    // `+`, `[`, `[`, `-`, `]` leave the inner loop with a zero cell.
    ctx.run(&[], &mut output, 5).unwrap();
    assert_eq!(ctx.code_index(), 5);
    assert_eq!(ctx.cell_at(0), Some(0));
    // `-` wraps to 255, and the outer `]` goes back behind the outer `[`.
    ctx.run(&[], &mut output, 1).unwrap();
    assert_eq!(ctx.cell_at(0), Some(255));
    assert_eq!(ctx.bracket_close_check(), Ok(()));
    assert_eq!(ctx.code_index(), 2);
}

#[test]
fn nested_loops_with_different_trip_counts() {
    // 3 outer rounds of 4 inner rounds: 12 bytes written by the inner loop,
    // 3 by the outer one.
    let (result, output) = run_to_end("+++[>++++[-.]<-.]", &[]);
    assert!(result.unwrap().finished);
    assert_eq!(output, vec![3u8, 2, 1, 0, 2, 3, 2, 1, 0, 1, 3, 2, 1, 0, 0]);
}

#[test]
fn three_levels_of_nesting() {
    // 2 * 3 * 4 = 24 in the fourth cell.
    let program = String::from("++[>+++[>++++[>+<-]<-]<-]>>>.");
    let mut ctx = BrainfuckContext::new(&program);
    let mut output = Vec::new();
    assert!(ctx.run(&[], &mut output, LIMIT).unwrap().finished);
    assert_eq!(output, vec![24u8]);
    assert_eq!(ctx.cell_at(0), Some(0));
    assert_eq!(ctx.cell_at(1), Some(0));
    assert_eq!(ctx.cell_at(2), Some(0));
    assert_eq!(ctx.cell_at(3), Some(24));
}

#[test]
fn close_bracket_skips_nested_loops_going_back() {
    let program = String::from("+[>[-]<]");
    let mut ctx = BrainfuckContext::new(&program);
    let mut output = Vec::new();
    ctx.run(&[], &mut output, 5).unwrap();
    assert_eq!(ctx.code_index(), 7);
    assert_eq!(ctx.cell_at(0), Some(1));
    assert_eq!(ctx.bracket_close_check(), Ok(()));
    assert_eq!(ctx.code_index(), 2);
}

#[test]
fn close_bracket_on_zero_leaves_the_loop() {
    let program = String::from("]+");
    let mut ctx = BrainfuckContext::new(&program);
    assert_eq!(ctx.bracket_close_check(), Ok(()));
    assert_eq!(ctx.code_index(), 1);
}

#[test]
fn hello() {
    let (result, output) = run_to_end(
        "++++++++[>++++[>++>+++>+++>+<<<<-]>+>+>->>+[<]<-]>>.>---.+++++++..+++.",
        &[],
    );
    assert!(result.unwrap().finished);
    assert_eq!(output, b"Hello".to_vec());
}

#[test]
fn hello_world() {
    let (result, output) = run_to_end(
        "++++++++[>++++[>++>+++>+++>+<<<<-]>+>+>->>+[<]<-]>>.>---.+++++++..+++.>>.<-.<.+++.------.--------.>>+.>++.",
        &[],
    );
    assert!(result.unwrap().finished);
    assert_eq!(output, b"Hello World!\n".to_vec());
}

#[test]
fn computed_cell_is_written_as_one_byte() {
    let (result, output) = run_to_end("++++++++[>++++++++<-]>.", &[]);
    assert!(result.unwrap().finished);
    assert_eq!(output, vec![64u8]);
    assert_eq!(output, b"@".to_vec());
}

#[test]
fn unmatched_open_bracket_fails() {
    let (result, output) = run_to_end("[+++", &[]);
    assert_eq!(result, Err(BrainfuckError::UnmatchedBracketError));
    assert!(output.is_empty());

    let program = String::from("+.>[[-]");
    let mut ctx = BrainfuckContext::new(&program);
    let mut output = Vec::new();
    assert_eq!(ctx.run(&[], &mut output, LIMIT), Err(BrainfuckError::UnmatchedBracketError));
    assert_eq!(output, vec![1u8]);
    assert_eq!(ctx.code_index(), 3);
    assert_eq!(ctx.cell_index(), 1);
    assert_eq!(ctx.bracket_open_check(), Err(BrainfuckError::UnmatchedBracketError));
    assert_eq!(ctx.code_index(), 3);
}

#[test]
fn unmatched_open_bracket_at_the_last_byte_fails() {
    let (result, _) = run_to_end("[", &[]);
    assert_eq!(result, Err(BrainfuckError::UnmatchedBracketError));
}

#[test]
fn unmatched_open_bracket_is_entered_on_nonzero() {
    let (result, output) = run_to_end("+[.", &[]);
    assert_eq!(result, Ok(RunReport { steps: 3, consumed: 0, finished: true }));
    assert_eq!(output, vec![1u8]);
}

#[test]
fn unmatched_close_bracket_fails() {
    let (result, output) = run_to_end("+.]", &[]);
    assert_eq!(result, Err(BrainfuckError::UnmatchedBracketError));
    assert_eq!(output, vec![1u8]);

    let (result, _) = run_to_end("+[-]+]", &[]);
    assert_eq!(result, Err(BrainfuckError::UnmatchedBracketError));

    let program = String::from("+]");
    let mut ctx = BrainfuckContext::new(&program);
    ctx.inc_cell();
    assert_eq!(ctx.bracket_close_check(), Err(BrainfuckError::UnmatchedBracketError));
    assert_eq!(ctx.code_index(), 1);
}

#[test]
fn other_bytes_are_comments() {
    let (result, output) = run_to_end("a+ b+\n\t+ (three) . done", &[]);
    let report = result.unwrap();
    assert!(report.finished);
    assert_eq!(report.steps, 23);
    assert_eq!(output, vec![3u8]);
}

#[test]
fn non_ascii_text_is_a_comment_byte_by_byte() {
    let (result, output) = run_to_end("+é+.", &[]);
    assert_eq!(result, Ok(RunReport { steps: 5, consumed: 0, finished: true }));
    assert_eq!(output, vec![2u8]);
}

#[test]
fn step_limit_stops_an_endless_loop() {
    let program = String::from("+[]");
    let mut ctx = BrainfuckContext::new(&program);
    let mut output = Vec::new();
    let report = ctx.run(&[], &mut output, 1000).unwrap();
    assert_eq!(report, RunReport { steps: 1000, consumed: 0, finished: false });
    assert!(!ctx.is_finished());
    assert_eq!(ctx.cell_at(0), Some(1));
}

#[test]
fn run_can_be_taken_up_again() {
    let program = String::from(",.,.");
    let mut ctx = BrainfuckContext::new(&program);
    let mut output = Vec::new();
    let input = [10u8, 20];
    let first = ctx.run(&input, &mut output, 3).unwrap();
    assert_eq!(first, RunReport { steps: 3, consumed: 2, finished: false });
    let second = ctx.run(&input[first.consumed..], &mut output, 3).unwrap();
    assert_eq!(second, RunReport { steps: 1, consumed: 0, finished: true });
    assert_eq!(output, vec![10u8, 20]);
}

#[test]
fn run_appends_to_the_output() {
    let program = String::from("+.");
    let mut ctx = BrainfuckContext::new(&program);
    let mut output = vec![9u8, 8];
    ctx.run(&[], &mut output, LIMIT).unwrap();
    assert_eq!(output, vec![9u8, 8, 1]);
}

#[test]
fn step_executes_one_instruction() {
    let program = String::from("+>,.x<<");
    let mut ctx = BrainfuckContext::new(&program);
    assert_eq!(ctx.step(Some(42)), Ok(None));
    assert_eq!(ctx.cell_at(0), Some(1));
    assert_eq!(ctx.step(Some(42)), Ok(None));
    assert_eq!(ctx.cell_index(), 1);
    assert!(ctx.awaits_input());
    assert_eq!(ctx.step(None), Err(BrainfuckError::InputExhausted));
    assert_eq!(ctx.code_index(), 2);
    assert_eq!(ctx.step(Some(42)), Ok(None));
    assert_eq!(ctx.cell_at(1), Some(42));
    assert!(!ctx.awaits_input());
    assert_eq!(ctx.step(None), Ok(Some(42)));
    assert_eq!(ctx.step(None), Ok(None));
    assert_eq!(ctx.code_index(), 5);
    assert_eq!(ctx.step(None), Ok(None));
    assert_eq!(ctx.cell_index(), 0);
    assert_eq!(ctx.step(None), Err(BrainfuckError::TapeBoundsError));
    assert_eq!(ctx.code_index(), 6);
    assert!(!ctx.is_finished());
}

#[test]
fn step_takes_both_brackets() {
    let program = String::from("[x]+[-]");
    let mut ctx = BrainfuckContext::new(&program);
    assert_eq!(ctx.step(None), Ok(None));
    assert_eq!(ctx.code_index(), 3);
    assert_eq!(ctx.step(None), Ok(None));
    assert_eq!(ctx.step(None), Ok(None));
    assert_eq!(ctx.code_index(), 5);
    assert_eq!(ctx.step(None), Ok(None));
    assert_eq!(ctx.cell_at(0), Some(0));
    assert_eq!(ctx.step(None), Ok(None));
    assert!(ctx.is_finished());
}

#[test]
fn adds_two_input_digits() {
    // Reads two bytes and writes their sum.
    let (result, output) = run_to_end(",>,[<+>-]<.", &[30, 12]);
    assert!(result.unwrap().finished);
    assert_eq!(output, vec![42u8]);
}
