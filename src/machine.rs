use vstd::prelude::*;
use crate::opcode::{OpCode, Instruction, head_opcode};

verus! {

/// What the surrounding program has to do after one step.
#[derive(Clone, Copy, Debug, PartialEq, Eq, Structural)]
pub enum Action {
    /// Nothing: the step was internal.
    Continue,
    /// Write this byte to the output.
    Output(u8),
    /// The current instruction reads a byte: step again with one.
    NeedInput,
    /// The program has run to its end.
    Halted,
}

/// A fatal condition at run time.
#[derive(Clone, Copy, Debug, PartialEq, Eq, Structural)]
pub enum RuntimeError {
    /// The cell under the data pointer was used while the pointer was off the
    /// tape, or the pointer could not move any further.
    PointerOutOfBounds(i64),
    /// Incrementing the cell at this index would pass 255.
    CellOverflow(i64),
    /// Decrementing the cell at this index would pass 0.
    CellUnderflow(i64),
}

/// The mathematical state of a machine: its program, its tape, its data
/// pointer, and where it stands in the program.
///
/// The position is a path: `path[0]` indexes the top-level sequence, each
/// further entry indexes the body of the loop that the entry before it
/// points at, and the last entry may equal the length of its sequence, which
/// means that sequence has been run to its end.
pub struct Config {
    pub program: Seq<Instruction>,
    pub tape: Seq<u8>,
    pub pointer: int,
    pub path: Seq<usize>,
}

/// The body of a loop instruction; empty for any other instruction.
pub open spec fn loop_body(i: Instruction) -> Seq<Instruction> {
    match i {
        Instruction::Loop(b) => b@,
        _ => Seq::empty(),
    }
}

/// The instruction sequence that the last entry of `path` indexes.
pub open spec fn body_at(p: Seq<Instruction>, path: Seq<usize>) -> Seq<Instruction>
    decreases path.len(),
{
    if path.len() <= 1 {
        p
    } else {
        let q = path.drop_last();
        loop_body(body_at(p, q)[q.last() as int])
    }
}

/// `path` is a position in `p`: every entry but the last points at a loop,
/// and the last is at most the length of its sequence.
pub open spec fn path_ok(p: Seq<Instruction>, path: Seq<usize>) -> bool
    decreases path.len(),
{
    &&& path.len() >= 1
    &&& path.last() <= body_at(p, path).len()
    &&& path.len() >= 2 ==> {
        let q = path.drop_last();
        &&& path_ok(p, q)
        &&& q.last() < body_at(p, q).len()
        &&& body_at(p, q)[q.last() as int] is Loop
    }
}

/// The instruction that comes next, by its head opcode; `None` at the end of
/// a sequence.
pub open spec fn current_op(c: Config) -> Option<OpCode> {
    let body = body_at(c.program, c.path);
    let pc = c.path.last();
    if pc < body.len() {
        Some(head_opcode(body[pc as int]))
    } else {
        None
    }
}

/// The data pointer indexes a cell of the tape.
pub open spec fn on_tape(c: Config) -> bool {
    0 <= c.pointer < c.tape.len()
}

/// The value of the cell under the data pointer.
pub open spec fn cell(c: Config) -> u8 {
    c.tape[c.pointer]
}

/// `c` moved on past the instruction it stands at.
pub open spec fn advance(c: Config) -> Config {
    Config { path: c.path.update(c.path.len() - 1, (c.path.last() + 1) as usize), ..c }
}

/// One step of execution: the next state and what it asks of the caller.
/// `input` is used only by a read instruction; without one the read asks for
/// input and the state stays as it is. A fatal condition leaves the state
/// unchanged.
pub open spec fn step_spec(c: Config, input: Option<u8>) -> (Config, Result<Action, RuntimeError>) {
    let err = Err(RuntimeError::PointerOutOfBounds(c.pointer as i64));
    match current_op(c) {
        None => {
            if c.path.len() <= 1 {
                (c, Ok(Action::Halted))
            } else if !on_tape(c) {
                (c, err)
            } else if cell(c) != 0 {
                (Config { path: c.path.update(c.path.len() - 1, 0), ..c }, Ok(Action::Continue))
            } else {
                (advance(Config { path: c.path.drop_last(), ..c }), Ok(Action::Continue))
            }
        },
        Some(OpCode::IncrementPointer) => {
            if c.pointer == i64::MAX {
                (c, err)
            } else {
                (advance(Config { pointer: c.pointer + 1, ..c }), Ok(Action::Continue))
            }
        },
        Some(OpCode::DecrementPointer) => {
            if c.pointer == i64::MIN {
                (c, err)
            } else {
                (advance(Config { pointer: c.pointer - 1, ..c }), Ok(Action::Continue))
            }
        },
        Some(op) => {
            if !on_tape(c) {
                (c, err)
            } else {
                match op {
                    OpCode::Increment => if cell(c) == 255 {
                        (c, Err(RuntimeError::CellOverflow(c.pointer as i64)))
                    } else {
                        (advance(Config { tape: c.tape.update(c.pointer, (cell(c) + 1) as u8), ..c }), Ok(Action::Continue))
                    },
                    OpCode::Decrement => if cell(c) == 0 {
                        (c, Err(RuntimeError::CellUnderflow(c.pointer as i64)))
                    } else {
                        (advance(Config { tape: c.tape.update(c.pointer, (cell(c) - 1) as u8), ..c }), Ok(Action::Continue))
                    },
                    OpCode::Write => (advance(c), Ok(Action::Output(cell(c)))),
                    OpCode::Read => match input {
                        None => (c, Ok(Action::NeedInput)),
                        Some(b) => (advance(Config { tape: c.tape.update(c.pointer, b), ..c }), Ok(Action::Continue)),
                    },
                    _ => if cell(c) == 0 {
                        (advance(c), Ok(Action::Continue))
                    } else {
                        (Config { path: c.path.push(0), ..c }, Ok(Action::Continue))
                    },
                }
            }
        },
    }
}

/// Every prefix of a position is a position.
pub proof fn lemma_path_prefix(p: Seq<Instruction>, path: Seq<usize>, k: int)
    requires
        path_ok(p, path),
        1 <= k <= path.len(),
    ensures
        path_ok(p, path.take(k)),
    decreases path.len() - k,
{
    if k == path.len() {
        assert(path.take(k) == path);
    } else {
        assert(path.drop_last().take(k) == path.take(k));
        lemma_path_prefix(p, path.drop_last(), k);
    }
}

/// Setting the last entry of a position to any value up to the length of its
/// sequence gives a position within the same sequence.
pub proof fn lemma_path_set_last(p: Seq<Instruction>, path: Seq<usize>, v: usize)
    requires
        path_ok(p, path),
        v <= body_at(p, path).len(),
    ensures
        path_ok(p, path.update(path.len() - 1, v)),
        body_at(p, path.update(path.len() - 1, v)) == body_at(p, path),
{
    let path2 = path.update(path.len() - 1, v);
    if path.len() >= 2 {
        assert(path2.drop_last() == path.drop_last());
    }
}

/// The next step reads or writes the cell under the data pointer: a cell
/// operation, a loop's guard on entry, or its guard at the end of its body.
pub open spec fn uses_cell(c: Config) -> bool {
    match current_op(c) {
        None => c.path.len() >= 2,
        Some(op) => op != OpCode::IncrementPointer && op != OpCode::DecrementPointer,
    }
}

/// A data pointer off the tape is harmless until a step uses the cell under
/// it; that step is then a fatal bounds error that names the pointer and
/// changes nothing.
pub proof fn lemma_off_tape_cell_use_is_fatal(c: Config, input: Option<u8>)
    requires
        !on_tape(c),
        uses_cell(c),
    ensures
        step_spec(c, input) == (c, Err::<Action, RuntimeError>(RuntimeError::PointerOutOfBounds(c.pointer as i64))),
{
}

/// Moving the data pointer is never a bounds error while it stays in the
/// range of its type, whether or not it lands on the tape.
pub proof fn lemma_pointer_moves_freely(c: Config, input: Option<u8>)
    requires
        current_op(c) == Some(OpCode::IncrementPointer) && c.pointer < i64::MAX
            || current_op(c) == Some(OpCode::DecrementPointer) && c.pointer > i64::MIN,
    ensures
        step_spec(c, input).1 == Ok::<Action, RuntimeError>(Action::Continue),
        step_spec(c, input).0.pointer == c.pointer + if current_op(c) == Some(OpCode::IncrementPointer) { 1int } else { -1int },
{
}

/// A running program: the instruction tree, the tape with its data pointer,
/// and the position of the next instruction.
pub struct Machine {
    program: Vec<Instruction>,
    tape: Vec<u8>,
    pointer: i64,
    path: Vec<usize>,
}

impl View for Machine {
    type V = Config;

    closed spec fn view(&self) -> Config {
        Config { program: self.program@, tape: self.tape@, pointer: self.pointer as int, path: self.path@ }
    }
}

impl Machine {
    /// The machine's own invariant: it stands at a position of its program.
    pub closed spec fn wf(&self) -> bool {
        path_ok(self.program@, self.path@)
    }

    /// A machine at the start of `program`, with a tape of `tape_len` zero
    /// cells and the data pointer at the tape's midpoint.
    pub fn new(program: Vec<Instruction>, tape_len: usize) -> (m: Machine)
        ensures
            m.wf(),
            m@.program == program@,
            m@.tape == Seq::new(tape_len as nat, |i: int| 0u8),
            m@.pointer == tape_len / 2,
            m@.path == seq![0usize],
    {
        let tape: Vec<u8> = vec![0u8; tape_len];
        let mut path: Vec<usize> = Vec::new();
        path.push(0);
        let m = Machine { program, tape, pointer: (tape_len / 2) as i64, path };
        assert(m@.tape == Seq::new(tape_len as nat, |i: int| 0u8));
        m
    }

    /// The tape.
    pub fn tape(&self) -> (r: &Vec<u8>)
        ensures
            r@ == self@.tape,
    {
        &self.tape
    }

    /// The data pointer.
    pub fn pointer(&self) -> (r: i64)
        ensures
            r == self@.pointer,
    {
        self.pointer
    }

    /// Moves past the instruction at the current position.
    fn advance_pc(&mut self)
        requires
            old(self).wf(),
            current_op(old(self)@) is Some,
            old(self)@.path.last() < usize::MAX,
        ensures
            final(self).wf(),
            final(self)@ == advance(old(self)@),
    {
        let n = self.path.len();
        let pc = self.path[n - 1];
        proof {
            lemma_path_set_last(self.program@, self.path@, (pc + 1) as usize);
        }
        self.path.set(n - 1, pc + 1);
    }

    /// Runs one step of the program: see `step_spec`.
    pub fn step(&mut self, input: Option<u8>) -> (r: Result<Action, RuntimeError>)
        requires
            old(self).wf(),
        ensures
            final(self).wf(),
            (final(self)@, r) == step_spec(old(self)@, input),
    {
        let cur = self.current();
        let n = self.path.len();
        let ptr = self.pointer;
        let on = ptr >= 0 && (ptr as u64) < (self.tape.len() as u64);
        let err = Err(RuntimeError::PointerOutOfBounds(ptr));
        let ghost c = self@;
        assert(on == on_tape(c));
        match cur {
            None => {
                if n <= 1 {
                    return Ok(Action::Halted);
                }
                if !on {
                    return err;
                }
                let idx = ptr as usize;
                if self.tape[idx] != 0 {
                    proof {
                        lemma_path_set_last(self.program@, self.path@, 0);
                    }
                    self.path.set(n - 1, 0);
                    assert(self@ == Config { path: c.path.update(c.path.len() - 1, 0), ..c });
                } else {
                    self.path.pop();
                    assert(self.path@ == c.path.drop_last());
                    assert(self@ == Config { path: c.path.drop_last(), ..c });
                    // the enclosing loop instruction, whose position bounds the next one
                    let enclosing = self.current();
                    assert(enclosing is Some);
                    self.advance_pc();
                }
                Ok(Action::Continue)
            },
            Some(OpCode::IncrementPointer) => {
                if ptr == i64::MAX {
                    return err;
                }
                self.pointer = ptr + 1;
                self.advance_pc();
                Ok(Action::Continue)
            },
            Some(OpCode::DecrementPointer) => {
                if ptr == i64::MIN {
                    return err;
                }
                self.pointer = ptr - 1;
                self.advance_pc();
                Ok(Action::Continue)
            },
            Some(op) => {
                if !on {
                    return err;
                }
                let idx = ptr as usize;
                let v = self.tape[idx];
                match op {
                    OpCode::Increment => {
                        if v == 255 {
                            return Err(RuntimeError::CellOverflow(ptr));
                        }
                        self.tape.set(idx, v + 1);
                        self.advance_pc();
                        Ok(Action::Continue)
                    },
                    OpCode::Decrement => {
                        if v == 0 {
                            return Err(RuntimeError::CellUnderflow(ptr));
                        }
                        self.tape.set(idx, v - 1);
                        self.advance_pc();
                        Ok(Action::Continue)
                    },
                    OpCode::Write => {
                        self.advance_pc();
                        Ok(Action::Output(v))
                    },
                    OpCode::Read => {
                        match input {
                            None => Ok(Action::NeedInput),
                            Some(b) => {
                                self.tape.set(idx, b);
                                self.advance_pc();
                                Ok(Action::Continue)
                            },
                        }
                    },
                    _ => {
                        if v == 0 {
                            self.advance_pc();
                        } else {
                            self.path.push(0);
                            assert(self.path@.drop_last() == c.path);
                            assert(self@ == Config { path: c.path.push(0), ..c });
                        }
                        Ok(Action::Continue)
                    },
                }
            },
        }
    }

    /// The next instruction by its head opcode; `None` at the end of a sequence.
    fn current(&self) -> (r: Option<OpCode>)
        requires
            self.wf(),
        ensures
            r == current_op(self@),
            r is Some ==> self@.path.last() < usize::MAX,
    {
        let ghost p = self.program@;
        let ghost path = self.path@;
        let n = self.path.len();
        let mut cur: &Vec<Instruction> = &self.program;
        let mut d: usize = 0;
        assert(path.take(1).len() == 1);
        while d + 1 < n
            invariant
                p == self.program@,
                path == self.path@,
                n == path.len(),
                n >= 1,
                d + 1 <= n,
                path_ok(p, path),
                cur@ == body_at(p, path.take(d + 1)),
            decreases n - d,
        {
            proof {
                lemma_path_prefix(p, path, d + 2);
                assert(path.take(d + 2).drop_last() == path.take(d + 1));
            }
            if let Instruction::Loop(b) = &cur[self.path[d]] {
                cur = b;
            }
            d = d + 1;
        }
        assert(path.take(n as int) == path);
        let pc = self.path[n - 1];
        if pc < cur.len() {
            let op = match &cur[pc] {
                Instruction::IncrementPointer => OpCode::IncrementPointer,
                Instruction::DecrementPointer => OpCode::DecrementPointer,
                Instruction::Increment => OpCode::Increment,
                Instruction::Decrement => OpCode::Decrement,
                Instruction::Write => OpCode::Write,
                Instruction::Read => OpCode::Read,
                Instruction::Loop(_) => OpCode::LoopBegin,
            };
            Some(op)
        } else {
            None
        }
    }
}

} // verus!
