//! The abstract machine: what a program means, one instruction at a time and
//! as a whole run.

use crate::brackets::{matching_close, matching_open};
use crate::error::BrainfuckError;
use crate::instruction::{
    DECREMENT, INCREMENT, INPUT, LOOP_CLOSE, LOOP_OPEN, MOVE_LEFT, MOVE_RIGHT, OUTPUT, TAPE_LEN,
};
use vstd::prelude::*;

verus! {

/// The value of a cell after `+`: one more, and 0 after 255.
pub open spec fn wrapping_inc(v: u8) -> u8 {
    if v == 255 {
        0
    } else {
        (v + 1) as u8
    }
}

/// The value of a cell after `-`: one less, and 255 after 0.
pub open spec fn wrapping_dec(v: u8) -> u8 {
    if v == 0 {
        255
    } else {
        (v - 1) as u8
    }
}

/// The whole state of an interpreter: the program it runs, the tape, the data
/// pointer `dp` and the instruction pointer `ip`.
pub struct Machine {
    pub program: Seq<u8>,
    pub tape: Seq<u8>,
    pub dp: int,
    pub ip: int,
}

impl Machine {
    /// The tape has its fixed length, the data pointer is on the tape and the
    /// instruction pointer is in the program or just behind its last byte.
    pub open spec fn wf(self) -> bool {
        &&& self.tape.len() == TAPE_LEN
        &&& 0 <= self.dp < TAPE_LEN
        &&& 0 <= self.ip <= self.program.len()
    }

    /// The machine before the first instruction: all cells zero, both
    /// pointers at 0.
    pub open spec fn boot(program: Seq<u8>) -> Machine {
        Machine { program, tape: Seq::new(TAPE_LEN as nat, |i: int| 0u8), dp: 0, ip: 0 }
    }

    /// No instruction is left to execute.
    pub open spec fn halted(self) -> bool {
        self.ip >= self.program.len()
    }

    /// The byte under the instruction pointer.
    pub open spec fn instruction(self) -> u8 {
        self.program[self.ip]
    }

    /// The value of the cell under the data pointer.
    pub open spec fn cell(self) -> u8 {
        self.tape[self.dp]
    }

    /// The same machine with the instruction pointer one further.
    pub open spec fn advance(self) -> Machine {
        Machine { ip: self.ip + 1, ..self }
    }

    /// The same machine with the instruction pointer at `target`.
    pub open spec fn jump(self, target: int) -> Machine {
        Machine { ip: target, ..self }
    }

    /// The same machine with `v` in the current cell and the instruction
    /// pointer one further.
    pub open spec fn store(self, v: u8) -> Machine {
        Machine { tape: self.tape.update(self.dp, v), ip: self.ip + 1, ..self }
    }

    /// `>`: fails on the last cell.
    pub open spec fn next_cell(self) -> Result<Machine, BrainfuckError> {
        if self.dp + 1 < TAPE_LEN {
            Ok(Machine { dp: self.dp + 1, ip: self.ip + 1, ..self })
        } else {
            Err(BrainfuckError::TapeBoundsError)
        }
    }

    /// `<`: fails on the first cell.
    pub open spec fn prev_cell(self) -> Result<Machine, BrainfuckError> {
        if self.dp > 0 {
            Ok(Machine { dp: self.dp - 1, ip: self.ip + 1, ..self })
        } else {
            Err(BrainfuckError::TapeBoundsError)
        }
    }

    /// `+`.
    pub open spec fn inc_cell(self) -> Machine {
        self.store(wrapping_inc(self.cell()))
    }

    /// `-`.
    pub open spec fn dec_cell(self) -> Machine {
        self.store(wrapping_dec(self.cell()))
    }

    /// `,` with `input` as the next byte of the input, if there is one.
    pub open spec fn read_cell(self, input: Option<u8>) -> Result<Machine, BrainfuckError> {
        match input {
            Some(byte) => Ok(self.store(byte)),
            None => Err(BrainfuckError::InputExhausted),
        }
    }

    /// `[`: with a zero cell, continue behind the matching `]`, and fail
    /// if there is none; else enter the loop body.
    pub open spec fn bracket_open_check(self) -> Result<Machine, BrainfuckError> {
        if self.cell() != 0 {
            Ok(self.advance())
        } else {
            match matching_close(self.program, self.ip) {
                Some(close) => Ok(self.jump(close + 1)),
                None => Err(BrainfuckError::UnmatchedBracketError),
            }
        }
    }

    /// `]`: with a nonzero cell, continue behind the matching `[`, and
    /// fail if there is none; else leave the loop.
    pub open spec fn bracket_close_check(self) -> Result<Machine, BrainfuckError> {
        if self.cell() == 0 {
            Ok(self.advance())
        } else {
            match matching_open(self.program, self.ip) {
                Some(open) => Ok(self.jump(open + 1)),
                None => Err(BrainfuckError::UnmatchedBracketError),
            }
        }
    }

    /// The instruction under the instruction pointer is `,`, the only one
    /// that looks at the input.
    pub open spec fn awaits_input(self) -> bool {
        !self.halted() && self.instruction() == INPUT
    }

    /// One instruction. `input` is the next input byte, if there is one; it
    /// is used up if and only if the instruction is `,`. The result is the
    /// machine after the instruction, with the byte that the instruction
    /// wrote, if it wrote one.
    pub open spec fn step(self, input: Option<u8>) -> Result<(Machine, Option<u8>), BrainfuckError> {
        let op = self.instruction();
        if op == OUTPUT {
            Ok((self.advance(), Some(self.cell())))
        } else {
            let moved = if op == INCREMENT {
                Ok(self.inc_cell())
            } else if op == DECREMENT {
                Ok(self.dec_cell())
            } else if op == MOVE_RIGHT {
                self.next_cell()
            } else if op == MOVE_LEFT {
                self.prev_cell()
            } else if op == INPUT {
                self.read_cell(input)
            } else if op == LOOP_OPEN {
                self.bracket_open_check()
            } else if op == LOOP_CLOSE {
                self.bracket_close_check()
            } else {
                Ok(self.advance())
            };
            match moved {
                Ok(next) => Ok((next, None)),
                Err(e) => Err(e),
            }
        }
    }
}

/// Why a run came to an end.
pub enum Stop {
    /// The instruction pointer left the program.
    Finished,
    /// The step budget was used up with instructions still to execute.
    StepLimit,
    /// An instruction failed.
    Failed(BrainfuckError),
}

/// A run in progress: the machine, how many input bytes it has read, the bytes
/// it has written and how many instructions it has executed.
pub struct Execution {
    pub machine: Machine,
    pub consumed: nat,
    pub output: Seq<u8>,
    pub steps: nat,
}

impl Execution {
    /// The first byte of `input` that has not been read, if there is one.
    pub open spec fn pending(self, input: Seq<u8>) -> Option<u8> {
        if self.consumed < input.len() {
            Some(input[self.consumed as int])
        } else {
            None
        }
    }

    /// The run one instruction further.
    pub open spec fn step(self, input: Seq<u8>) -> Result<Execution, BrainfuckError> {
        match self.machine.step(self.pending(input)) {
            Ok((next, written)) => Ok(
                Execution {
                    machine: next,
                    consumed: if self.machine.awaits_input() {
                        self.consumed + 1
                    } else {
                        self.consumed
                    },
                    output: match written {
                        Some(byte) => self.output.push(byte),
                        None => self.output,
                    },
                    steps: self.steps + 1,
                },
            ),
            Err(e) => Err(e),
        }
    }

    /// The run carried on until the program is finished, an instruction fails
    /// or `budget` more instructions have been executed, whichever comes
    /// first. A failing instruction leaves the run where it was.
    pub open spec fn run(self, input: Seq<u8>, budget: nat) -> (Execution, Stop)
        decreases budget,
    {
        if self.machine.halted() {
            (self, Stop::Finished)
        } else if budget == 0 {
            (self, Stop::StepLimit)
        } else {
            match self.step(input) {
                Ok(next) => next.run(input, (budget - 1) as nat),
                Err(e) => (self, Stop::Failed(e)),
            }
        }
    }
}

} // verus!
