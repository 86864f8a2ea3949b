//! What holds of every run: facts about the abstract machine that follow from
//! its definition.

use crate::brackets::{
    balanced, closes, depth, lemma_matching_close, lemma_matching_open, matching_close,
    matching_open, opens,
};
use crate::error::BrainfuckError;
use crate::instruction::{
    DECREMENT, INCREMENT, INPUT, LOOP_CLOSE, LOOP_OPEN, MOVE_LEFT, MOVE_RIGHT, OUTPUT, TAPE_LEN,
};
use crate::machine::{Execution, Machine, Stop};
use vstd::prelude::*;

verus! {

/// The machine after `+` has been executed `n` times in a row.
pub open spec fn inc_cells(m: Machine, n: nat) -> Machine
    decreases n,
{
    if n == 0 {
        m
    } else {
        inc_cells(m.inc_cell(), (n - 1) as nat)
    }
}

/// `n` times `+` add `n` to the current cell modulo 256, move the
/// instruction pointer by `n` and touch nothing else.
pub proof fn lemma_inc_cells(m: Machine, n: nat)
    requires
        0 <= m.dp < m.tape.len(),
    ensures
        inc_cells(m, n) == (Machine {
            tape: m.tape.update(m.dp, ((m.cell() + n) % 256) as u8),
            ip: m.ip + n,
            ..m
        }),
    decreases n,
{
    if n == 0 {
        assert(m.tape.update(m.dp, m.cell()) =~= m.tape);
    } else {
        let next = m.inc_cell();
        lemma_inc_cells(next, (n - 1) as nat);
        assert(next.tape.update(next.dp, ((next.cell() + (n - 1)) % 256) as u8) =~= m.tape.update(
            m.dp,
            ((m.cell() + n) % 256) as u8,
        ));
    }
}

/// After 256 times `+` every cell holds what it held before.
pub proof fn lemma_inc_cell_wraps(m: Machine)
    requires
        0 <= m.dp < m.tape.len(),
    ensures
        inc_cells(m, 256) == (Machine { ip: m.ip + 256, ..m }),
{
    lemma_inc_cells(m, 256);
    assert(m.tape.update(m.dp, ((m.cell() + 256) % 256) as u8) =~= m.tape);
}

/// A run of `n` `+` in the program, executed from its first byte, is `n`
/// steps that read and write nothing and leave the machine as `inc_cells`
/// says.
pub proof fn lemma_run_of_increments(e: Execution, input: Seq<u8>, n: nat)
    requires
        e.machine.wf(),
        e.machine.ip + n <= e.machine.program.len(),
        forall|i: int| e.machine.ip <= i < e.machine.ip + n ==> e.machine.program[i] == INCREMENT,
    ensures
        e.run(input, n).0 == (Execution {
            machine: inc_cells(e.machine, n),
            steps: e.steps + n,
            ..e
        }),
    decreases n,
{
    if n > 0 {
        let next = e.step(input).unwrap();
        assert(e.machine.program[e.machine.ip] == INCREMENT);
        assert(next.machine == e.machine.inc_cell());
        lemma_run_of_increments(next, input, (n - 1) as nat);
    }
}

/// 256 `+` in a row bring the run back to the tape it began with.
pub proof fn lemma_run_of_256_increments(e: Execution, input: Seq<u8>)
    requires
        e.machine.wf(),
        e.machine.ip + 256 <= e.machine.program.len(),
        forall|i: int|
            e.machine.ip <= i < e.machine.ip + 256 ==> e.machine.program[i] == INCREMENT,
    ensures
        e.run(input, 256).0 == (Execution {
            machine: Machine { ip: e.machine.ip + 256, ..e.machine },
            steps: e.steps + 256,
            ..e
        }),
{
    lemma_run_of_increments(e, input, 256);
    lemma_inc_cell_wraps(e.machine);
}

/// `[` on a zero cell continues behind its `]` in one step, whatever stands
/// in between: the tape, the data pointer, the input and the output are as
/// before.
pub proof fn lemma_zero_cell_skips_loop(e: Execution, input: Seq<u8>, close: int)
    requires
        e.machine.wf(),
        !e.machine.halted(),
        e.machine.instruction() == LOOP_OPEN,
        e.machine.cell() == 0,
        closes(e.machine.program, e.machine.ip, close),
    ensures
        e.step(input) == Ok::<Execution, BrainfuckError>(
            Execution { machine: e.machine.jump(close + 1), steps: e.steps + 1, ..e },
        ),
{
    lemma_matching_close(e.machine.program, e.machine.ip, close);
}

/// `<` on the first cell ends the run with `TapeBoundsError`, and so does
/// `>` on the last cell; the run stays where it was.
pub proof fn lemma_leaving_the_tape_fails(e: Execution, input: Seq<u8>, budget: nat)
    requires
        e.machine.wf(),
        !e.machine.halted(),
        budget > 0,
        e.machine.instruction() == MOVE_LEFT && e.machine.dp == 0 || e.machine.instruction()
            == MOVE_RIGHT && e.machine.dp == TAPE_LEN - 1,
    ensures
        e.run(input, budget) == (e, Stop::Failed(BrainfuckError::TapeBoundsError)),
{
}

/// Where no `]` follows, no bracket closes the loop.
pub proof fn lemma_no_close_no_match(code: Seq<u8>, open: int)
    requires
        forall|k: int| open < k < code.len() ==> code[k] != LOOP_CLOSE,
    ensures
        matching_close(code, open) is None,
{
}

/// `[` on a zero cell with no `]` to close it ends the run with
/// `UnmatchedBracketError`; the run stays where it was.
pub proof fn lemma_unmatched_open_fails(e: Execution, input: Seq<u8>, budget: nat)
    requires
        e.machine.wf(),
        !e.machine.halted(),
        budget > 0,
        e.machine.instruction() == LOOP_OPEN,
        e.machine.cell() == 0,
        matching_close(e.machine.program, e.machine.ip) is None,
    ensures
        e.run(input, budget) == (e, Stop::Failed(BrainfuckError::UnmatchedBracketError)),
{
}

/// The program `,.` reads one byte and writes that same byte, in two steps.
pub proof fn lemma_echo(e: Execution, input: Seq<u8>, budget: nat)
    requires
        e.machine.wf(),
        e.machine.program == seq![INPUT, OUTPUT],
        e.machine.ip == 0,
        e.consumed < input.len(),
        budget >= 2,
    ensures
        e.run(input, budget) == (
            Execution {
                machine: e.machine.store(input[e.consumed as int]).advance(),
                consumed: e.consumed + 1,
                output: e.output.push(input[e.consumed as int]),
                steps: e.steps + 2,
            },
            Stop::Finished,
        ),
{
    let read = e.step(input).unwrap();
    assert(read.machine == e.machine.store(input[e.consumed as int]));
    let wrote = read.step(input).unwrap();
    assert(wrote.machine.halted());
    assert(read.run(input, (budget - 1) as nat) == wrote.run(input, (budget - 2) as nat));
}

/// The program `[-]`, entered with `n` in the current cell, finishes after
/// `2 * n + 1` steps, of which `n` are `-`, with 0 in that cell; it reads and
/// writes nothing and changes no other cell.
pub proof fn lemma_clear_loop(e: Execution, input: Seq<u8>, budget: nat)
    requires
        e.machine.wf(),
        e.machine.program == seq![LOOP_OPEN, DECREMENT, LOOP_CLOSE],
        e.machine.ip == 0,
        budget >= 2 * e.machine.cell() + 1,
    ensures
        e.run(input, budget) == (
            Execution {
                machine: Machine {
                    tape: e.machine.tape.update(e.machine.dp, 0),
                    ip: 3,
                    ..e.machine
                },
                steps: (e.steps + 2 * e.machine.cell() + 1) as nat,
                ..e
            },
            Stop::Finished,
        ),
{
    let code = e.machine.program;
    lemma_clear_loop_brackets(code);
    lemma_matching_close(code, 0, 2);
    let entered = e.step(input).unwrap();
    assert(e.machine.instruction() == LOOP_OPEN);
    assert(e.run(input, budget) == entered.run(input, (budget - 1) as nat));
    if e.machine.cell() == 0 {
        assert(entered.machine.halted());
        assert(e.machine.tape.update(e.machine.dp, 0) =~= e.machine.tape);
    } else {
        lemma_clear_loop_body(entered, input, (budget - 1) as nat);
    }
}

/// In `[-]` the two brackets belong together.
proof fn lemma_clear_loop_brackets(code: Seq<u8>)
    requires
        code == seq![LOOP_OPEN, DECREMENT, LOOP_CLOSE],
    ensures
        closes(code, 0, 2),
        opens(code, 2, 0),
{
    reveal_with_fuel(depth, 3);
    assert(balanced(code, 1, 2));
}

/// `[-]` from inside its body, with a nonzero cell: each round is one `-`
/// and one `]`.
proof fn lemma_clear_loop_body(e: Execution, input: Seq<u8>, budget: nat)
    requires
        e.machine.wf(),
        e.machine.program == seq![LOOP_OPEN, DECREMENT, LOOP_CLOSE],
        e.machine.ip == 1,
        e.machine.cell() > 0,
        budget >= 2 * e.machine.cell(),
    ensures
        e.run(input, budget) == (
            Execution {
                machine: Machine {
                    tape: e.machine.tape.update(e.machine.dp, 0),
                    ip: 3,
                    ..e.machine
                },
                steps: (e.steps + 2 * e.machine.cell()) as nat,
                ..e
            },
            Stop::Finished,
        ),
    decreases e.machine.cell(),
{
    let code = e.machine.program;
    lemma_clear_loop_brackets(code);
    lemma_matching_open(code, 2, 0);
    assert(e.machine.instruction() == DECREMENT);
    let lowered = e.step(input).unwrap();
    assert(lowered.machine == e.machine.dec_cell());
    assert(e.run(input, budget) == lowered.run(input, (budget - 1) as nat));
    assert(lowered.machine.instruction() == LOOP_CLOSE);
    let tested = lowered.step(input).unwrap();
    assert(lowered.run(input, (budget - 1) as nat) == tested.run(input, (budget - 2) as nat));
    if lowered.machine.cell() == 0 {
        assert(tested.machine.halted());
        assert(tested.machine.tape =~= e.machine.tape.update(e.machine.dp, 0));
    } else {
        lemma_clear_loop_body(tested, input, (budget - 2) as nat);
        assert(tested.machine.tape.update(tested.machine.dp, 0) =~= e.machine.tape.update(
            e.machine.dp,
            0,
        ));
    }
}

/// One step keeps a machine well formed and its program as it is, and
/// writes at most what `.` writes.
pub proof fn lemma_step_keeps_wf(m: Machine, input: Option<u8>)
    requires
        m.wf(),
        !m.halted(),
    ensures
        m.step(input) matches Ok((next, written)) ==> {
            &&& next.wf()
            &&& next.program == m.program
            &&& written is Some <==> m.instruction() == OUTPUT
        },
{
    if m.instruction() == LOOP_OPEN && m.cell() == 0 {
        if let Some(close) = matching_close(m.program, m.ip) {
            assert(closes(m.program, m.ip, close));
        }
    }
    if m.instruction() == LOOP_CLOSE && m.cell() != 0 {
        if let Some(open) = matching_open(m.program, m.ip) {
            assert(opens(m.program, m.ip, open));
        }
    }
}

/// What holds of every run, however it ends: the machine stays well formed
/// and keeps its program; at most `budget` steps are made; input is read
/// front to back and never past its end; what was written stays written; the
/// run is `Finished` exactly when no instruction is left, and stops at the
/// `StepLimit` only with the whole budget spent.
pub proof fn lemma_run_invariants(e: Execution, input: Seq<u8>, budget: nat)
    requires
        e.machine.wf(),
        e.consumed <= input.len(),
    ensures
        ({
            let (end, stop) = e.run(input, budget);
            &&& end.machine.wf()
            &&& end.machine.program == e.machine.program
            &&& e.steps <= end.steps <= e.steps + budget
            &&& e.consumed <= end.consumed <= input.len()
            &&& end.consumed - e.consumed <= end.steps - e.steps
            &&& e.output.is_prefix_of(end.output)
            &&& end.output.len() - e.output.len() <= end.steps - e.steps
            &&& stop == Stop::Finished <==> end.machine.halted()
            &&& stop == Stop::StepLimit ==> end.steps == e.steps + budget
            &&& stop matches Stop::Failed(error) ==> end.step(input) == Err::<
                Execution,
                BrainfuckError,
            >(error)
        }),
    decreases budget,
{
    if !e.machine.halted() && budget > 0 {
        lemma_step_keeps_wf(e.machine, e.pending(input));
        if let Ok(next) = e.step(input) {
            lemma_run_invariants(next, input, (budget - 1) as nat);
        }
    }
}

} // verus!
