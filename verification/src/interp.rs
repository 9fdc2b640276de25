//! The program table, the I/O bridge and the dispatcher. Every function here
//! is pinned to the small-step semantics: `run_cmd` performs exactly one
//! `step`, and `execute` returns exactly what the machine reached after at
//! most `fuel` steps says it must.
//!
//! Two conditions the language leaves undefined are made defined here, as the
//! model states: a pointer move off the tape fails the run and is reported,
//! and a scan for an unmatched bracket falls through to the next instruction.

use vstd::prelude::*;

use crate::cmd::{decode_program, Command};
use crate::machine::{bwd_match, fwd_match, init_machine, running, step, steps, Machine};
use crate::machine::{lemma_steps_add, lemma_steps_frozen, lemma_steps_snoc};
use crate::tape::State;

verus! {

/// How a run can end short of a clean halt.
#[derive(Clone, Copy, Debug, PartialEq, Eq, Structural)]
pub enum VmError {
    /// The data pointer was moved off the tape; the reference semantics leave
    /// this undefined, this implementation fails fast.
    PointerOutOfRange,
    /// The machine was still running when the step budget was spent.
    StepLimitReached,
}

/// The program table: the instruction sequence decoded once from the raw
/// input, and the cursor the dispatcher drives through it. The sequence is
/// never changed after `build`.
pub struct Code {
    pub sequence: Vec<Command>,
    pub pointer: usize,
}

/// The I/O bridge: the input bytes with a read position, and the output
/// written so far. Output bytes are the cell values as written; the value 10
/// stands for one line terminator, which the caller renders for its platform.
pub struct Io {
    pub input: Vec<u8>,
    pub in_pos: usize,
    pub output: Vec<u8>,
}

impl Io {
    /// The read position has not run past the input.
    pub open spec fn wf(self) -> bool {
        self.in_pos <= self.input@.len()
    }

    /// A fresh bridge over the given input: nothing read, nothing written.
    pub fn new(input: Vec<u8>) -> (io: Io)
        ensures
            io.wf(),
            io.input@ == input@,
            io.in_pos == 0,
            io.output@ =~= Seq::<u8>::empty(),
    {
        Io { input, in_pos: 0, output: Vec::new() }
    }

    /// Read one input byte: at end-of-stream the cell value 0; otherwise the
    /// next byte, with carriage return and line feed normalized to 10.
    pub fn read_input_byte(&mut self) -> (v: u8)
        requires
            old(self).wf(),
        ensures
            final(self).wf(),
            final(self).input@ == old(self).input@,
            final(self).output@ == old(self).output@,
            if old(self).in_pos < old(self).input@.len() {
                &&& v == crate::tape::normalize_input_byte(
                    old(self).input@[old(self).in_pos as int],
                )
                &&& final(self).in_pos == old(self).in_pos + 1
            } else {
                &&& v == 0
                &&& final(self).in_pos == old(self).in_pos
            },
    {
        if self.in_pos < self.input.len() {
            let b = self.input[self.in_pos];
            self.in_pos = self.in_pos + 1;
            if b == 13 || b == 10 {
                10
            } else {
                b
            }
        } else {
            0
        }
    }

    /// Append one cell value to the output.
    pub fn write_output_byte(&mut self, v: u8)
        requires
            old(self).wf(),
        ensures
            final(self).wf(),
            final(self).input@ == old(self).input@,
            final(self).in_pos == old(self).in_pos,
            final(self).output@ == old(self).output@.push(v),
    {
        self.output.push(v);
    }
}

impl Code {
    /// The cursor has not run past the sequence.
    pub open spec fn wf(self) -> bool {
        self.pointer <= self.sequence@.len()
    }

    /// Decode the raw bytes into the instruction sequence, dropping every
    /// byte with no mapping and keeping the order of the rest; the cursor
    /// starts at the first instruction. Never fails.
    pub fn build(raw: &[u8]) -> (c: Code)
        ensures
            c.wf(),
            c.pointer == 0,
            c.sequence@ == decode_program(raw@),
    {
        let mut sequence: Vec<Command> = Vec::new();
        let mut i: usize = 0;
        while i < raw.len()
            invariant
                i <= raw@.len(),
                sequence@ == decode_program(raw@.subrange(0, i as int)),
            decreases raw@.len() - i,
        {
            proof {
                assert(raw@.subrange(0, i + 1).drop_last() =~= raw@.subrange(0, i as int));
                assert(raw@.subrange(0, i + 1).last() == raw@[i as int]);
            }
            match Command::from_byte(raw[i]) {
                Some(c) => sequence.push(c),
                None => (),
            }
            i = i + 1;
        }
        proof {
            assert(raw@.subrange(0, raw@.len() as int) =~= raw@);
        }
        Code { sequence, pointer: 0 }
    }

    /// The instruction under the cursor, or `None` once the cursor is at or
    /// past the end — the run loop's termination signal, not an error.
    pub fn get_cmd(&self) -> (r: Option<&Command>)
        ensures
            match r {
                Some(c) => self.pointer < self.sequence@.len() && *c == self.sequence@[self.pointer as int],
                None => self.pointer >= self.sequence@.len(),
            },
    {
        if self.pointer < self.sequence.len() {
            Some(&self.sequence[self.pointer])
        } else {
            None
        }
    }

    /// Scan forward from just after the cursor for the `]` that closes the
    /// construct, counting nested pairs; `None` when the bracket is unmatched.
    pub fn scan_forward(&self) -> (r: Option<usize>)
        requires
            self.pointer < self.sequence@.len(),
        ensures
            match r {
                Some(t) => fwd_match(self.sequence@, self.pointer + 1, 0) == Some(t as int),
                None => fwd_match(self.sequence@, self.pointer + 1, 0) is None,
            },
    {
        let n = self.sequence.len();
        let mut i: usize = self.pointer + 1;
        let mut depth: usize = 0;
        while i < self.sequence.len()
            invariant
                self.pointer + 1 <= i <= self.sequence@.len(),
                depth <= i,
                fwd_match(self.sequence@, self.pointer + 1, 0) == fwd_match(
                    self.sequence@,
                    i as int,
                    depth as int,
                ),
            decreases self.sequence@.len() - i,
        {
            let c = self.sequence[i];
            if c == Command::LoopEnd {
                if depth == 0 {
                    return Some(i + 1);
                }
                depth = depth - 1;
            } else if c == Command::LoopStart {
                depth = depth + 1;
            }
            i = i + 1;
        }
        None
    }

    /// Scan backward from just before the cursor for the `[` that opens the
    /// construct, counting nested pairs; `None` when the bracket is unmatched.
    pub fn scan_backward(&self) -> (r: Option<usize>)
        requires
            self.pointer < self.sequence@.len(),
        ensures
            match r {
                Some(t) => bwd_match(self.sequence@, self.pointer - 1, 0) == Some(t as int),
                None => bwd_match(self.sequence@, self.pointer - 1, 0) is None,
            },
    {
        let mut i: usize = self.pointer;
        let mut depth: usize = 0;
        while i > 0
            invariant
                i <= self.pointer,
                depth <= self.pointer - i,
                self.pointer < self.sequence@.len(),
                bwd_match(self.sequence@, self.pointer - 1, 0) == bwd_match(
                    self.sequence@,
                    i - 1,
                    depth as int,
                ),
            decreases i,
        {
            let c = self.sequence[i - 1];
            if c == Command::LoopStart {
                if depth == 0 {
                    return Some(i);
                }
                depth = depth - 1;
            } else if c == Command::LoopEnd {
                depth = depth + 1;
            }
            i = i - 1;
        }
        None
    }
}

/// The machine configuration that an interpreter state stands for.
pub open spec fn abs(s: State, ip: int, io: Io) -> Machine {
    Machine {
        mem: s.memory@,
        ptr: s.pointer as int,
        ip: ip,
        in_pos: io.in_pos as int,
        output: io.output@,
        failed: false,
    }
}

impl State {
    /// Execute one instruction against the tape and the I/O bridge: exactly
    /// one `step` of the machine. Returns the next cursor value, or the error
    /// when the step fails (a pointer move off the tape; the step then
    /// changes nothing).
    pub fn run_cmd(&mut self, cmd: &Command, code: &Code, io: &mut Io) -> (r: Result<
        usize,
        VmError,
    >)
        requires
            old(self).wf(),
            old(io).wf(),
            code.pointer < code.sequence@.len(),
            *cmd == code.sequence@[code.pointer as int],
        ensures
            final(self).wf(),
            final(io).wf(),
            final(io).input@ == old(io).input@,
            ({
                let m0 = abs(*old(self), code.pointer as int, *old(io));
                let m1 = step(code.sequence@, old(io).input@, m0);
                match r {
                    Ok(next) => {
                        &&& !m1.failed
                        &&& next <= code.sequence@.len()
                        &&& abs(*final(self), next as int, *final(io)) == m1
                    },
                    Err(e) => {
                        &&& m1.failed
                        &&& e == VmError::PointerOutOfRange
                        &&& abs(*final(self), code.pointer as int, *final(io)) == m0
                    },
                }
            }),
    {
        let n = code.sequence.len();
        assert(code.pointer < n);
        let ghost m0 = abs(*old(self), code.pointer as int, *old(io));
        let ghost m1 = step(code.sequence@, old(io).input@, m0);
        match cmd {
            Command::IncrementPointer => {
                if self.move_forward() {
                    proof {
                        assert(abs(*self, code.pointer + 1, *io) =~= m1);
                    }
                    Ok(code.pointer + 1)
                } else {
                    Err(VmError::PointerOutOfRange)
                }
            },
            Command::DecrementPointer => {
                if self.move_backward() {
                    proof {
                        assert(abs(*self, code.pointer + 1, *io) =~= m1);
                    }
                    Ok(code.pointer + 1)
                } else {
                    Err(VmError::PointerOutOfRange)
                }
            },
            Command::IncrementByte => {
                self.increment_cell();
                proof {
                    assert(abs(*self, code.pointer + 1, *io) =~= m1);
                }
                Ok(code.pointer + 1)
            },
            Command::DecrementByte => {
                self.decrement_cell();
                proof {
                    assert(abs(*self, code.pointer + 1, *io) =~= m1);
                }
                Ok(code.pointer + 1)
            },
            Command::WriteByte => {
                let v = self.read_cell_value();
                io.write_output_byte(v);
                proof {
                    assert(abs(*self, code.pointer + 1, *io) =~= m1);
                }
                Ok(code.pointer + 1)
            },
            Command::ReadByte => {
                let v = io.read_input_byte();
                self.write_cell_value(v);
                proof {
                    assert(abs(*self, code.pointer + 1, *io) =~= m1);
                }
                Ok(code.pointer + 1)
            },
            Command::LoopStart => {
                if self.read_cell_value() == 0 {
                    match code.scan_forward() {
                        Some(t) => {
                            proof {
                                crate::machine::lemma_fwd_match_bounds(
                                    code.sequence@,
                                    code.pointer + 1,
                                    0,
                                    t as int,
                                );
                                assert(abs(*self, t as int, *io) =~= m1);
                            }
                            Ok(t)
                        },
                        None => {
                            proof {
                                assert(abs(*self, code.pointer + 1, *io) =~= m1);
                            }
                            Ok(code.pointer + 1)
                        },
                    }
                } else {
                    proof {
                        assert(abs(*self, code.pointer + 1, *io) =~= m1);
                    }
                    Ok(code.pointer + 1)
                }
            },
            Command::LoopEnd => {
                if self.read_cell_value() != 0 {
                    match code.scan_backward() {
                        Some(t) => {
                            proof {
                                crate::machine::lemma_bwd_match_bounds(
                                    code.sequence@,
                                    code.pointer - 1,
                                    0,
                                    t as int,
                                );
                                assert(abs(*self, t as int, *io) =~= m1);
                            }
                            Ok(t)
                        },
                        None => {
                            proof {
                                assert(abs(*self, code.pointer + 1, *io) =~= m1);
                            }
                            Ok(code.pointer + 1)
                        },
                    }
                } else {
                    proof {
                        assert(abs(*self, code.pointer + 1, *io) =~= m1);
                    }
                    Ok(code.pointer + 1)
                }
            },
        }
    }
}

/// Decode a program from its raw bytes and run it over the given input for at
/// most `fuel` steps. The result is exactly what the machine reached after
/// `fuel` steps dictates: the output of a clean halt, or the failure when the
/// data pointer left the tape, or the report that the budget was spent while
/// the machine was still running.
#[verifier::loop_isolation(false)]
pub fn execute(program: &[u8], input: &[u8], fuel: u64) -> (r: Result<Vec<u8>, VmError>)
    ensures
        ({
            let m = steps(decode_program(program@), input@, init_machine(), fuel as nat);
            match r {
                Ok(out) => {
                    &&& !m.failed
                    &&& m.ip >= decode_program(program@).len()
                    &&& out@ == m.output
                },
                Err(VmError::PointerOutOfRange) => m.failed,
                Err(VmError::StepLimitReached) => running(decode_program(program@), m),
            }
        }),
{
    let mut state = State::new();
    let mut code = Code::build(program);
    let mut io = Io::new(vstd::slice::slice_to_vec(input));
    let mut used: u64 = 0;
    let ghost prog = decode_program(program@);
    let ghost m_init = init_machine();
    proof {
        assert(abs(state, 0, io) =~= m_init);
        assert(steps(prog, input@, m_init, 0) == m_init);
    }
    loop
        invariant
            state.wf(),
            io.wf(),
            code.wf(),
            code.sequence@ == prog,
            prog == decode_program(program@),
            io.input@ == input@,
            used <= fuel,
            abs(state, code.pointer as int, io) == steps(prog, input@, m_init, used as nat),
        decreases fuel - used,
    {
        let ghost m_cur = steps(prog, input@, m_init, used as nat);
        match code.get_cmd() {
            None => {
                proof {
                    assert(!running(prog, m_cur));
                    lemma_steps_add(
                        prog,
                        input@,
                        m_init,
                        used as nat,
                        (fuel - used) as nat,
                    );
                    lemma_steps_frozen(prog, input@, m_cur, (fuel - used) as nat);
                    assert(used as nat + (fuel - used) as nat == fuel as nat);
                }
                return Ok(io.output);
            },
            Some(cmd) => {
                if used == fuel {
                    proof {
                        assert(running(prog, m_cur));
                    }
                    return Err(VmError::StepLimitReached);
                }
                let cmd = *cmd;
                match state.run_cmd(&cmd, &code, &mut io) {
                    Ok(next) => {
                        proof {
                            lemma_steps_snoc(prog, input@, m_init, used as nat);
                        }
                        code.pointer = next;
                        used = used + 1;
                    },
                    Err(e) => {
                        proof {
                            lemma_steps_snoc(prog, input@, m_init, used as nat);
                            let m_fail = step(prog, input@, m_cur);
                            assert(m_fail.failed);
                            assert(steps(prog, input@, m_init, used as nat + 1) == m_fail);
                            lemma_steps_add(
                                prog,
                                input@,
                                m_init,
                                used as nat + 1,
                                (fuel - used - 1) as nat,
                            );
                            lemma_steps_frozen(prog, input@, m_fail, (fuel - used - 1) as nat);
                            assert(used as nat + 1 + (fuel - used - 1) as nat == fuel as nat);
                        }
                        return Err(e);
                    },
                }
            },
        }
    }
}

} // verus!
