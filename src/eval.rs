use crate::ops::Instruction;
use vstd::prelude::*;

verus! {

/// Why a run stopped before the end of the program.
#[derive(Clone, Copy, Debug, PartialEq, Eq, Structural)]
pub enum RunError {
    /// The data pointer would have left the tape.
    TapeOverflow,
    /// A read found no input byte left.
    InputExhausted,
    /// A loop was still running when its iteration budget ran out.
    OutOfFuel,
}

/// The abstract state of a run: the tape, the data pointer, the input not
/// yet read, and the output written so far.
pub struct State {
    pub tape: Seq<u8>,
    pub ptr: int,
    pub input: Seq<u8>,
    pub output: Seq<u8>,
}

/// How a run ends: with the whole program done, or halted by an error.
pub enum Outcome {
    Done(State),
    Halted(RunError, State),
}

/// The pointer designates a cell of the tape.
pub open spec fn valid(s: State) -> bool {
    0 <= s.ptr < s.tape.len()
}

/// The cell under the data pointer.
pub open spec fn cell(s: State) -> u8 {
    s.tape[s.ptr]
}

/// The state with the cell under the pointer replaced.
pub open spec fn with_cell(s: State, v: u8) -> State {
    State { tape: s.tape.update(s.ptr, v), ptr: s.ptr, input: s.input, output: s.output }
}

/// The state with the pointer moved to `p`.
pub open spec fn with_ptr(s: State, p: int) -> State {
    State { tape: s.tape, ptr: p, input: s.input, output: s.output }
}

/// The effect of one instruction other than a loop.
pub open spec fn step(ins: Instruction, s: State) -> Outcome {
    match ins {
        Instruction::IncPtr => if s.ptr + 1 < s.tape.len() {
            Outcome::Done(with_ptr(s, s.ptr + 1))
        } else {
            Outcome::Halted(RunError::TapeOverflow, s)
        },
        Instruction::DecPtr => if s.ptr >= 1 {
            Outcome::Done(with_ptr(s, s.ptr - 1))
        } else {
            Outcome::Halted(RunError::TapeOverflow, s)
        },
        Instruction::Inc => Outcome::Done(with_cell(s, ((cell(s) + 1) % 256) as u8)),
        Instruction::Dec => Outcome::Done(with_cell(s, ((cell(s) + 255) % 256) as u8)),
        Instruction::Write => Outcome::Done(
            State { tape: s.tape, ptr: s.ptr, input: s.input, output: s.output.push(cell(s)) },
        ),
        Instruction::Read => if s.input.len() > 0 {
            Outcome::Done(
                State {
                    tape: s.tape.update(s.ptr, s.input[0]),
                    ptr: s.ptr,
                    input: s.input.drop_first(),
                    output: s.output,
                },
            )
        } else {
            Outcome::Halted(RunError::InputExhausted, s)
        },
        Instruction::Loop(_) => Outcome::Done(s),
    }
}

/// Runs a sequence of instructions in order from state `s`; each loop may
/// iterate at most `fuel` times, and the loops nested in it one time fewer
/// at each further iteration.
pub open spec fn run_block(prog: Seq<Instruction>, s: State, fuel: nat) -> Outcome
    decreases fuel, prog,
{
    if prog.len() == 0 {
        Outcome::Done(s)
    } else {
        match run_instr(prog[0], s, fuel) {
            Outcome::Done(s1) => run_block(prog.drop_first(), s1, fuel),
            halted => halted,
        }
    }
}

/// Runs one instruction from state `s`: a loop runs its body while the cell
/// under the pointer is nonzero.
pub open spec fn run_instr(ins: Instruction, s: State, fuel: nat) -> Outcome
    decreases fuel, ins,
{
    match ins {
        Instruction::Loop(body) => if cell(s) == 0 {
            Outcome::Done(s)
        } else if fuel == 0 {
            Outcome::Halted(RunError::OutOfFuel, s)
        } else {
            match run_block(body@, s, (fuel - 1) as nat) {
                Outcome::Done(s1) => run_instr(ins, s1, (fuel - 1) as nat),
                halted => halted,
            }
        },
        _ => step(ins, s),
    }
}

/// The default tape size, in cells.
pub const TAPESIZE: usize = 1024;

/// The iteration budget that `runbf` gives each loop: 2^64 - 1 iterations,
/// more than any run that ends in practice.
pub const MAX_FUEL: u64 = 0xffff_ffff_ffff_ffff;

/// A running interpreter: the tape, the data pointer, the input bytes with
/// how many of them were read, and the output bytes written so far.
pub struct Machine {
    pub tape: Vec<u8>,
    pub ptr: usize,
    pub input: Vec<u8>,
    pub pos: usize,
    pub output: Vec<u8>,
}

impl View for Machine {
    type V = State;

    open spec fn view(&self) -> State {
        State {
            tape: self.tape@,
            ptr: self.ptr as int,
            input: self.input@.skip(self.pos as int),
            output: self.output@,
        }
    }
}

impl Machine {
    /// The pointer is on the tape and no more input was read than given.
    pub open spec fn wf(&self) -> bool {
        &&& self.ptr < self.tape.len()
        &&& self.pos <= self.input.len()
    }

    /// A machine over the given tape, with the pointer at `data_pointer`,
    /// nothing read from `input` and nothing written.
    pub fn new(tape: Vec<u8>, data_pointer: usize, input: Vec<u8>) -> (m: Machine)
        ensures
            m.tape@ == tape@,
            m.ptr == data_pointer,
            m.input@ == input@,
            m.pos == 0,
            m.output@ == Seq::<u8>::empty(),
    {
        Machine { tape, ptr: data_pointer, input, pos: 0, output: Vec::new() }
    }

    /// A machine over `tape_size` zero cells with the pointer at the middle.
    pub fn blank(tape_size: usize, input: Vec<u8>) -> (m: Machine)
        requires
            tape_size > 0,
        ensures
            m.wf(),
            m.tape@ == Seq::new(tape_size as nat, |i: int| 0u8),
            m.ptr == tape_size / 2,
            m.input@ == input@,
            m.pos == 0,
            m.output@ == Seq::<u8>::empty(),
    {
        let mut tape: Vec<u8> = Vec::new();
        let mut i: usize = 0;
        while i < tape_size
            invariant
                i <= tape_size,
                tape@ == Seq::new(i as nat, |k: int| 0u8),
            decreases tape_size - i,
        {
            tape.push(0);
            i += 1;
        }
        Machine { tape, ptr: tape_size / 2, input, pos: 0, output: Vec::new() }
    }
}

/// Runs `instructions` in order on `m`, each loop iterating at most `fuel`
/// times; on an error the machine is left as it was when the error arose.
pub fn run_with_fuel(instructions: &Vec<Instruction>, m: &mut Machine, fuel: u64) -> (r: Result<
    (),
    RunError,
>)
    requires
        old(m).wf(),
    ensures
        final(m).wf(),
        final(m).input@ == old(m).input@,
        match run_block(instructions@, old(m)@, fuel as nat) {
            Outcome::Done(s) => r is Ok && final(m)@ == s,
            Outcome::Halted(e, s) => r == Err::<(), RunError>(e) && final(m)@ == s,
        },
    decreases fuel,
{
    let ghost prog = instructions@;
    let ghost start = m@;
    let ghost input0 = m.input@;
    let n = instructions.len();
    let mut i: usize = 0;
    assert(prog.skip(0) == prog);
    while i < n
        invariant
            n == prog.len(),
            start == old(m)@,
            input0 == old(m).input@,
            prog == instructions@,
            i <= n,
            m.wf(),
            m.input@ == input0,
            run_block(prog, start, fuel as nat) == run_block(prog.skip(i as int), m@, fuel as nat),
        decreases n - i,
    {
        proof {
            assert(prog.skip(i as int)[0] == prog[i as int]);
            assert(prog.skip(i as int).drop_first() == prog.skip(i + 1));
        }
        let ghost before = m@;
        match &instructions[i] {
            Instruction::IncPtr => {
                if m.ptr + 1 < m.tape.len() {
                    m.ptr = m.ptr + 1;
                } else {
                    return Err(RunError::TapeOverflow);
                }
            },
            Instruction::DecPtr => {
                if m.ptr >= 1 {
                    m.ptr = m.ptr - 1;
                } else {
                    return Err(RunError::TapeOverflow);
                }
            },
            Instruction::Inc => {
                let p = m.ptr;
                let v = m.tape[p].wrapping_add(1);
                m.tape.set(p, v);
            },
            Instruction::Dec => {
                let p = m.ptr;
                let v = m.tape[p].wrapping_sub(1);
                m.tape.set(p, v);
            },
            Instruction::Write => {
                let v = m.tape[m.ptr];
                m.output.push(v);
            },
            Instruction::Read => {
                if m.pos < m.input.len() {
                    let p = m.ptr;
                    let v = m.input[m.pos];
                    m.tape.set(p, v);
                    m.pos = m.pos + 1;
                    proof {
                        assert(m.input@.skip(m.pos as int) == before.input.drop_first());
                    }
                } else {
                    return Err(RunError::InputExhausted);
                }
            },
            Instruction::Loop(body) => {
                let ghost ins = prog[i as int];
                let mut f: u64 = fuel;
                while m.tape[m.ptr] != 0
                    invariant
                        f <= fuel,
                        m.wf(),
                        prog == instructions@,
                        start == old(m)@,
                        input0 == old(m).input@,
                        run_block(prog, start, fuel as nat) == run_block(
                            prog.skip(i as int),
                            before,
                            fuel as nat,
                        ),
                        prog.skip(i as int)[0] == ins,
                        prog.skip(i as int).len() > 0,
                        m.input@ == input0,
                        ins == Instruction::Loop(*body),
                        run_instr(ins, before, fuel as nat) == run_instr(ins, m@, f as nat),
                    decreases f,
                {
                    if f == 0 {
                        assert(run_instr(ins, m@, 0) == Outcome::Halted(RunError::OutOfFuel, m@));
                        assert(run_block(prog.skip(i as int), before, fuel as nat) == run_instr(
                            ins,
                            before,
                            fuel as nat,
                        ));
                        return Err(RunError::OutOfFuel);
                    }
                    let ghost prev = m@;
                    f = f - 1;
                    let r = run_with_fuel(body, m, f);
                    if let Err(e) = r {
                        assert(run_instr(ins, prev, (f + 1) as nat) == run_block(body@, prev, f as nat));
                        assert(run_block(prog.skip(i as int), before, fuel as nat) == run_instr(
                            ins,
                            before,
                            fuel as nat,
                        ));
                        return Err(e);
                    }
                }
            },
        }
        i += 1;
    }
    proof {
        assert(prog.skip(n as int).len() == 0);
    }
    Ok(())
}

/// Runs `instructions` in order on `machine`, stopping at the first tape
/// overflow or missing input byte; each loop may iterate `MAX_FUEL` times.
pub fn runbf(instructions: &Vec<Instruction>, machine: &mut Machine) -> (r: Result<(), RunError>)
    requires
        old(machine).wf(),
    ensures
        final(machine).wf(),
        final(machine).input@ == old(machine).input@,
        match run_block(instructions@, old(machine)@, MAX_FUEL as nat) {
            Outcome::Done(s) => r is Ok && final(machine)@ == s,
            Outcome::Halted(e, s) => r == Err::<(), RunError>(e) && final(machine)@ == s,
        },
{
    run_with_fuel(instructions, machine, MAX_FUEL)
}

/// `n` copies of one instruction.
pub open spec fn repeat(ins: Instruction, n: nat) -> Seq<Instruction> {
    Seq::new(n, |k: int| ins)
}

/// Incrementing `n` times adds `n` to the cell under the pointer, modulo 256.
pub proof fn lemma_increments(s: State, n: nat, fuel: nat)
    requires
        valid(s),
    ensures
        run_block(repeat(Instruction::Inc, n), s, fuel) == Outcome::Done(
            with_cell(s, ((cell(s) + n) % 256) as u8),
        ),
    decreases n,
{
    let prog = repeat(Instruction::Inc, n);
    if n == 0 {
        assert(s.tape.update(s.ptr, cell(s)) == s.tape);
    } else {
        let s1 = with_cell(s, ((cell(s) + 1) % 256) as u8);
        assert(prog.drop_first() == repeat(Instruction::Inc, (n - 1) as nat));
        assert(run_instr(prog[0], s, fuel) == Outcome::Done(s1));
        lemma_increments(s1, (n - 1) as nat, fuel);
        assert(((cell(s1) + (n - 1)) % 256) as u8 == ((cell(s) + n) % 256) as u8);
        assert(with_cell(s1, ((cell(s) + n) % 256) as u8).tape == with_cell(
            s,
            ((cell(s) + n) % 256) as u8,
        ).tape);
    }
}

/// Incrementing a cell 256 times leaves the whole state as it was.
pub proof fn lemma_inc_256_identity(s: State, fuel: nat)
    requires
        valid(s),
    ensures
        run_block(repeat(Instruction::Inc, 256), s, fuel) == Outcome::Done(s),
{
    lemma_increments(s, 256, fuel);
    assert(s.tape.update(s.ptr, cell(s)) == s.tape);
}

/// An increment followed by a decrement leaves the whole state as it was,
/// whatever the cell held, 255 and 0 included.
pub proof fn lemma_inc_dec_identity(s: State, fuel: nat)
    requires
        valid(s),
    ensures
        run_block(seq![Instruction::Inc, Instruction::Dec], s, fuel) == Outcome::Done(s),
{
    let prog = seq![Instruction::Inc, Instruction::Dec];
    let s1 = with_cell(s, ((cell(s) + 1) % 256) as u8);
    assert(prog.drop_first() == seq![Instruction::Dec]);
    assert(prog.drop_first().drop_first() == Seq::<Instruction>::empty());
    assert(run_instr(prog[0], s, fuel) == Outcome::Done(s1));
    let s2 = with_cell(s1, ((cell(s1) + 255) % 256) as u8);
    assert(s2.tape == s.tape);
    assert(s2 == s);
    let rest = prog.drop_first();
    assert(run_instr(rest[0], s1, fuel) == Outcome::Done(s2));
    assert(run_block(rest.drop_first(), s2, fuel) == Outcome::Done(s2));
    assert(run_block(rest, s1, fuel) == Outcome::Done(s2));
    assert(run_block(prog, s, fuel) == run_block(rest, s1, fuel));
}

/// Moving the pointer left of the first cell halts the run at once with a
/// tape overflow: nothing after it runs and no further output is written.
pub proof fn lemma_move_below_start_halts(prog: Seq<Instruction>, s: State, fuel: nat)
    requires
        valid(s),
        s.ptr == 0,
    ensures
        run_block(seq![Instruction::DecPtr] + prog, s, fuel) == Outcome::Halted(
            RunError::TapeOverflow,
            s,
        ),
{
    assert((seq![Instruction::DecPtr] + prog)[0] == Instruction::DecPtr);
    assert(run_instr(Instruction::DecPtr, s, fuel) == Outcome::Halted(RunError::TapeOverflow, s));
}

/// Moving the pointer right of the last cell halts the run at once with a
/// tape overflow: nothing after it runs and no further output is written.
pub proof fn lemma_move_past_end_halts(prog: Seq<Instruction>, s: State, fuel: nat)
    requires
        valid(s),
        s.ptr == s.tape.len() - 1,
    ensures
        run_block(seq![Instruction::IncPtr] + prog, s, fuel) == Outcome::Halted(
            RunError::TapeOverflow,
            s,
        ),
{
    assert((seq![Instruction::IncPtr] + prog)[0] == Instruction::IncPtr);
    assert(run_instr(Instruction::IncPtr, s, fuel) == Outcome::Halted(RunError::TapeOverflow, s));
}

} // verus!
