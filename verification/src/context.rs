//! The interpreter itself.

use crate::brackets::{
    closes, depth, lemma_depth_bounds, lemma_depth_first, lemma_depth_split,
    lemma_matching_close, lemma_matching_open, opens,
};
use crate::error::BrainfuckError;
use crate::instruction::{
    DECREMENT, INCREMENT, INPUT, LOOP_CLOSE, LOOP_OPEN, MOVE_LEFT, MOVE_RIGHT, OUTPUT, TAPE_LEN,
};
use crate::machine::{Execution, Machine, Stop};
use vstd::prelude::*;
use vstd::utf8::encode_utf8;

verus! {

/// How a run that did not fail went.
#[derive(Clone, Copy, Debug, PartialEq, Eq)]
pub struct RunReport {
    /// Number of instructions executed.
    pub steps: u64,
    /// Number of input bytes read.
    pub consumed: usize,
    /// Whether the program ran to its end; if not, the step limit stopped it.
    pub finished: bool,
}

/// An interpreter at work on one program: the tape, the program, and the two
/// pointers.
pub struct BrainfuckContext<'a> {
    cells: [u8; TAPE_LEN],
    code: &'a [u8],
    cell_index: usize,
    code_index: usize,
}

impl<'a> View for BrainfuckContext<'a> {
    type V = Machine;

    closed spec fn view(&self) -> Machine {
        Machine {
            program: self.code@,
            tape: self.cells@,
            dp: self.cell_index as int,
            ip: self.code_index as int,
        }
    }
}

impl<'a> BrainfuckContext<'a> {
    /// The invariant of the type: its machine is well formed.
    pub open spec fn wf(&self) -> bool {
        self@.wf()
    }

    /// An interpreter about to execute the first byte of `code`, on a tape of
    /// zeros. The program is the UTF-8 encoding of `code`, byte by byte.
    pub fn new(code: &'a String) -> (ctx: Self)
        ensures
            ctx.wf(),
            ctx@ == Machine::boot(encode_utf8(code@)),
    {
        let ctx = BrainfuckContext {
            cells: [0; TAPE_LEN],
            code: code.as_str().as_bytes(),
            cell_index: 0,
            code_index: 0,
        };
        assert(ctx@.tape =~= Machine::boot(encode_utf8(code@)).tape);
        ctx
    }

    /// Moves the instruction pointer behind the instruction that was just
    /// executed.
    fn advance(&mut self)
        requires
            !old(self)@.halted(),
        ensures
            final(self)@ == old(self)@.advance(),
    {
        // A slice is no longer than `usize::MAX`, so one past an index of it
        // is still a `usize`.
        let len = self.code.len();
        assert(self.code_index < len);
        self.code_index += 1;
    }

    /// `>`: moves the data pointer one cell to the right. On the last cell
    /// nothing changes and the result is `TapeBoundsError`.
    pub fn next_cell(&mut self) -> (r: Result<(), BrainfuckError>)
        requires
            old(self).wf(),
            !old(self)@.halted(),
        ensures
            final(self).wf(),
            match old(self)@.next_cell() {
                Ok(next) => r is Ok && final(self)@ == next,
                Err(e) => r == Err::<(), BrainfuckError>(e) && final(self)@ == old(self)@,
            },
    {
        if self.cell_index + 1 >= TAPE_LEN {
            return Err(BrainfuckError::TapeBoundsError);
        }
        self.cell_index += 1;
        self.advance();
        Ok(())
    }

    /// `<`: moves the data pointer one cell to the left. On the first cell
    /// nothing changes and the result is `TapeBoundsError`.
    pub fn prev_cell(&mut self) -> (r: Result<(), BrainfuckError>)
        requires
            old(self).wf(),
            !old(self)@.halted(),
        ensures
            final(self).wf(),
            match old(self)@.prev_cell() {
                Ok(next) => r is Ok && final(self)@ == next,
                Err(e) => r == Err::<(), BrainfuckError>(e) && final(self)@ == old(self)@,
            },
    {
        if self.cell_index == 0 {
            return Err(BrainfuckError::TapeBoundsError);
        }
        self.cell_index -= 1;
        self.advance();
        Ok(())
    }

    /// `[`: with a nonzero cell, steps into the loop body. With a zero cell,
    /// scans forward for the `]` at which the nesting depth is back to where
    /// the scan began and continues behind it; the tape and the data pointer
    /// stay as they are. If the program ends before that, nothing changes and
    /// the result is `UnmatchedBracketError`.
    pub fn bracket_open_check(&mut self) -> (r: Result<(), BrainfuckError>)
        requires
            old(self).wf(),
            !old(self)@.halted(),
        ensures
            final(self).wf(),
            match old(self)@.bracket_open_check() {
                Ok(next) => r is Ok && final(self)@ == next,
                Err(e) => r == Err::<(), BrainfuckError>(e) && final(self)@ == old(self)@,
            },
    {
        let len = self.code.len();
        let mut index = self.code_index;
        if self.cells[self.cell_index] == 0 {
            let ghost body = self.code_index + 1;
            let mut brackets: usize = 1;
            while brackets > 0
                invariant
                    self.wf(),
                    self@ == old(self)@,
                    self@.cell() == 0,
                    len == self.code@.len(),
                    body == self.code_index + 1,
                    body - 1 <= index < len,
                    brackets == 1 + depth(self.code@, body, index + 1),
                    forall|k: int| body <= k <= index ==> depth(self.code@, body, k) >= 0,
                decreases len - index,
            {
                index += 1;
                if index >= len {
                    proof {
                        assert forall|close: int| !closes(self.code@, self.code_index as int, close) by {
                            if closes(self.code@, self.code_index as int, close) {
                                assert(depth(self.code@, body, close + 1) == depth(
                                    self.code@,
                                    body,
                                    close,
                                ) + -1);
                            }
                        }
                    }
                    return Err(BrainfuckError::UnmatchedBracketError);
                }
                proof {
                    lemma_depth_bounds(self.code@, body, index as int);
                }
                let c = self.code[index];
                if c == LOOP_OPEN {
                    brackets += 1;
                } else if c == LOOP_CLOSE {
                    brackets -= 1;
                }
            }
            proof {
                assert(depth(self.code@, body, index + 1) == depth(self.code@, body, index as int)
                    + crate::brackets::weight(self.code@[index as int]));
                assert(closes(self.code@, self.code_index as int, index as int));
                lemma_matching_close(self.code@, self.code_index as int, index as int);
            }
        }
        self.code_index = index + 1;
        Ok(())
    }

    /// `]`: with a zero cell, steps out of the loop. With a nonzero cell,
    /// scans backward for the `[` at which the nesting depth is back to where
    /// the scan began and continues behind it, at the first instruction of
    /// the loop body; the tape and the data pointer stay as they are. If the
    /// program begins before that, nothing changes and the result is
    /// `UnmatchedBracketError`.
    pub fn bracket_close_check(&mut self) -> (r: Result<(), BrainfuckError>)
        requires
            old(self).wf(),
            !old(self)@.halted(),
        ensures
            final(self).wf(),
            match old(self)@.bracket_close_check() {
                Ok(next) => r is Ok && final(self)@ == next,
                Err(e) => r == Err::<(), BrainfuckError>(e) && final(self)@ == old(self)@,
            },
    {
        let len = self.code.len();
        let mut index = self.code_index;
        if self.cells[self.cell_index] != 0 {
            let ghost end = self.code_index as int;
            let mut brackets: usize = 1;
            while brackets > 0
                invariant
                    self.wf(),
                    self@ == old(self)@,
                    self@.cell() != 0,
                    len == self.code@.len(),
                    end == self.code_index < len,
                    0 <= index <= end,
                    brackets == 1 - depth(self.code@, index as int, end),
                    forall|k: int| index < k <= end ==> depth(self.code@, k, end) <= 0,
                decreases index,
            {
                if index == 0 {
                    proof {
                        assert forall|open: int| !opens(self.code@, end, open) by {
                            if opens(self.code@, end, open) {
                                lemma_depth_first(self.code@, open, end);
                            }
                        }
                    }
                    return Err(BrainfuckError::UnmatchedBracketError);
                }
                index -= 1;
                proof {
                    lemma_depth_first(self.code@, index as int, end);
                    lemma_depth_bounds(self.code@, index + 1, end);
                }
                let c = self.code[index];
                if c == LOOP_CLOSE {
                    brackets += 1;
                } else if c == LOOP_OPEN {
                    brackets -= 1;
                }
            }
            proof {
                let body = index + 1;
                lemma_depth_first(self.code@, index as int, end);
                assert forall|k: int| body <= k <= end implies depth(self.code@, body, k) >= 0 by {
                    lemma_depth_split(self.code@, body, k, end);
                }
                assert(opens(self.code@, end, index as int));
                lemma_matching_open(self.code@, end, index as int);
            }
        }
        self.code_index = index + 1;
        Ok(())
    }

    /// `+`: adds one to the current cell; 255 becomes 0.
    pub fn inc_cell(&mut self)
        requires
            old(self).wf(),
            !old(self)@.halted(),
        ensures
            final(self).wf(),
            final(self)@ == old(self)@.inc_cell(),
    {
        if self.cells[self.cell_index] == 255 {
            self.cells[self.cell_index] = 0;
        } else {
            self.cells[self.cell_index] += 1;
        }
        self.advance();
    }

    /// `-`: takes one from the current cell; 0 becomes 255, as 255 becomes 0
    /// under `+`.
    pub fn dec_cell(&mut self)
        requires
            old(self).wf(),
            !old(self)@.halted(),
        ensures
            final(self).wf(),
            final(self)@ == old(self)@.dec_cell(),
    {
        if self.cells[self.cell_index] == 0 {
            self.cells[self.cell_index] = 255;
        } else {
            self.cells[self.cell_index] -= 1;
        }
        self.advance();
    }

    /// `,`: stores `input`, the byte that was read, in the current cell.
    /// With `None`, which stands for an input that has come to its end,
    /// nothing changes and the result is `InputExhausted`.
    pub fn read_cell(&mut self, input: Option<u8>) -> (r: Result<(), BrainfuckError>)
        requires
            old(self).wf(),
            !old(self)@.halted(),
        ensures
            final(self).wf(),
            match old(self)@.read_cell(input) {
                Ok(next) => r is Ok && final(self)@ == next,
                Err(e) => r == Err::<(), BrainfuckError>(e) && final(self)@ == old(self)@,
            },
    {
        self.cells[self.cell_index] = match input {
            Some(i) => i,
            None => return Err(BrainfuckError::InputExhausted),
        };
        self.advance();
        Ok(())
    }

    /// `.`: returns the value of the current cell, for the caller to write.
    pub fn put_cell(&mut self) -> (byte: u8)
        requires
            old(self).wf(),
            !old(self)@.halted(),
        ensures
            final(self).wf(),
            byte == old(self)@.cell(),
            final(self)@ == old(self)@.advance(),
    {
        let byte = self.cells[self.cell_index];
        self.advance();
        byte
    }

    /// The data pointer: the index of the current cell.
    pub fn cell_index(&self) -> (index: usize)
        ensures
            index == self@.dp,
    {
        self.cell_index
    }

    /// The instruction pointer: the index of the next program byte.
    pub fn code_index(&self) -> (index: usize)
        ensures
            index == self@.ip,
    {
        self.code_index
    }

    /// The value of the cell at `index`, or `None` if the tape has no such
    /// cell.
    pub fn cell_at(&self, index: usize) -> (value: Option<u8>)
        ensures
            value == if index < TAPE_LEN {
                Some(self@.tape[index as int])
            } else {
                None
            },
    {
        if index < TAPE_LEN {
            Some(self.cells[index])
        } else {
            None
        }
    }

    /// Whether the program has been executed to its end.
    pub fn is_finished(&self) -> (done: bool)
        ensures
            done == self@.halted(),
    {
        self.code_index >= self.code.len()
    }

    /// Whether the next instruction is `,`, so that `step` will ask for an
    /// input byte.
    pub fn awaits_input(&self) -> (asks: bool)
        ensures
            asks == self@.awaits_input(),
    {
        self.code_index < self.code.len() && self.code[self.code_index] == INPUT
    }

    /// Executes the instruction under the instruction pointer. `input` is
    /// the next byte of the input, or `None` at its end; only `,` looks at it.
    /// Returns the byte that the instruction wrote, if it is `.`. When an
    /// instruction fails, the interpreter stays as it was.
    pub fn step(&mut self, input: Option<u8>) -> (r: Result<Option<u8>, BrainfuckError>)
        requires
            old(self).wf(),
            !old(self)@.halted(),
        ensures
            final(self).wf(),
            match old(self)@.step(input) {
                Ok((next, written)) => r == Ok::<Option<u8>, BrainfuckError>(written) && final(self)@
                    == next,
                Err(e) => r == Err::<Option<u8>, BrainfuckError>(e) && final(self)@ == old(self)@,
            },
    {
        let op = self.code[self.code_index];
        if op == OUTPUT {
            return Ok(Some(self.put_cell()));
        }
        let done = if op == INCREMENT {
            self.inc_cell();
            Ok(())
        } else if op == DECREMENT {
            self.dec_cell();
            Ok(())
        } else if op == MOVE_RIGHT {
            self.next_cell()
        } else if op == MOVE_LEFT {
            self.prev_cell()
        } else if op == INPUT {
            self.read_cell(input)
        } else if op == LOOP_OPEN {
            self.bracket_open_check()
        } else if op == LOOP_CLOSE {
            self.bracket_close_check()
        } else {
            self.advance();
            Ok(())
        };
        match done {
            Ok(()) => Ok(None),
            Err(e) => Err(e),
        }
    }

    /// Executes the program from where the interpreter stands until it is
    /// finished, an instruction fails, or `max_steps` instructions have been
    /// executed. `,` takes its bytes from `input`, front to back; `.` appends
    /// to `output`. On failure the interpreter stands at the instruction that
    /// failed and `output` holds what was written before it.
    pub fn run(&mut self, input: &[u8], output: &mut Vec<u8>, max_steps: u64) -> (r: Result<
        RunReport,
        BrainfuckError,
    >)
        requires
            old(self).wf(),
        ensures
            final(self).wf(),
            ({
                let start = Execution {
                    machine: old(self)@,
                    consumed: 0,
                    output: old(output)@,
                    steps: 0,
                };
                let (end, stop) = start.run(input@, max_steps as nat);
                &&& final(self)@ == end.machine
                &&& final(output)@ == end.output
                &&& match r {
                    Ok(report) => {
                        &&& report.steps == end.steps
                        &&& report.consumed == end.consumed
                        &&& stop == if report.finished {
                            Stop::Finished
                        } else {
                            Stop::StepLimit
                        }
                    },
                    Err(e) => stop == Stop::Failed(e),
                }
            }),
    {
        let mut steps: u64 = 0;
        let mut consumed: usize = 0;
        while steps < max_steps && !self.is_finished()
            invariant
                self.wf(),
                steps <= max_steps,
                consumed <= input@.len(),
                (Execution {
                    machine: old(self)@,
                    consumed: 0,
                    output: old(output)@,
                    steps: 0,
                }).run(input@, max_steps as nat) == (Execution {
                    machine: self@,
                    consumed: consumed as nat,
                    output: output@,
                    steps: steps as nat,
                }).run(input@, (max_steps - steps) as nat),
            decreases max_steps - steps,
        {
            let pending = if consumed < input.len() {
                Some(input[consumed])
            } else {
                None
            };
            let reads = self.awaits_input();
            let ghost here = Execution {
                machine: self@,
                consumed: consumed as nat,
                output: output@,
                steps: steps as nat,
            };
            assert(here.pending(input@) == pending);
            match self.step(pending) {
                Ok(written) => {
                    if reads {
                        consumed += 1;
                    }
                    if let Some(byte) = written {
                        output.push(byte);
                    }
                    steps += 1;
                    assert(here.step(input@) == Ok::<Execution, BrainfuckError>(
                        Execution {
                            machine: self@,
                            consumed: consumed as nat,
                            output: output@,
                            steps: steps as nat,
                        },
                    ));
                },
                Err(e) => {
                    assert(here.step(input@) == Err::<Execution, BrainfuckError>(e));
                    return Err(e);
                },
            }
        }
        Ok(RunReport { steps, consumed, finished: self.is_finished() })
    }
}

} // verus!
