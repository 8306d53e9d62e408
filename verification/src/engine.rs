//! The execution engine: accumulator, memory and instruction counter, and
//! the rules by which one instruction changes them.
//!
//! The rules are stated over [`Machine`], the machine as the specification
//! sees it. Where the port tells what it holds, every step has one outcome.
//! Where it does not, the port decides what `Read` stores and whether `Read`
//! and `Print` succeed, and the rules say what holds either way.

use vstd::prelude::*;
use vstd::std_specs::cmp::PartialEqSpecImpl;
use crate::instructions::{DivaremaProgram, OpCode};
use crate::io_module::{
    after_line, line_number, next_line, number_line, ByteSink, DivaremaIoModule, IoError,
    LineSource,
};

verus! {

/// The machine's memory: cells of 32 bits, addressed from 0.
pub type DivaremaMemory = Vec<i32>;

/// Why a machine stopped without halting.
#[derive(Debug, PartialEq, Eq)]
pub enum EngineError {
    /// An operand named a memory cell that does not exist, or a jump target
    /// behind the end of the program. `instruction_counter` is where the
    /// instruction stands.
    AddressOutOfBounds { address: usize, instruction_counter: usize },
    /// `Read` found no line, or a line that is no integer.
    MalformedInput,
    /// The input or the output failed; the text is its complaint.
    IoFailure(String),
}

/// What a machine is doing after a step.
#[derive(Debug, PartialEq, Eq)]
pub enum EngineState {
    /// The next instruction can be executed.
    Running,
    /// `Halt` was executed, or the instruction counter has left the program.
    Halted,
    /// The instruction could not be executed.
    Failed(EngineError),
}

/// The machine as the rules of execution see it. Of the port it holds what
/// the port tells: the input that is left and the output so far, each
/// `None` where the port does not tell.
pub struct Machine {
    pub program: Seq<(OpCode, usize)>,
    pub memory: Seq<i32>,
    pub acc: i32,
    pub ip: nat,
    pub input: Option<Seq<u8>>,
    pub output: Option<Seq<u8>>,
}

/// A machine: its program, its memory, its two registers and its port.
#[derive(Debug)]
pub struct DivaremaEngine<I: LineSource, O: ByteSink> {
    pub program: DivaremaProgram,
    pub memory: DivaremaMemory,
    pub acc: i32,
    pub instruction_counter: usize,
    pub io_module: DivaremaIoModule<I, O>,
}

/// A memory of `size` cells that all hold zero.
pub open spec fn zeroed(size: nat) -> Seq<i32> {
    Seq::new(size, |i: int| 0i32)
}

/// The machine as it is built: nothing executed, everything zero.
pub open spec fn fresh(
    program: Seq<(OpCode, usize)>,
    size: nat,
    input: Option<Seq<u8>>,
    output: Option<Seq<u8>>,
) -> Machine {
    Machine { program, memory: zeroed(size), acc: 0, ip: 0, input, output }
}

/// What a failure at the port means to the machine: input that ended or
/// does not decode is malformed input, a complaint of the source or the
/// sink is an I/O failure with that complaint.
pub open spec fn port_failure(error: IoError) -> EngineError {
    match error {
        IoError::EndOfInput => EngineError::MalformedInput,
        IoError::Decode => EngineError::MalformedInput,
        IoError::Read(complaint) => EngineError::IoFailure(complaint),
        IoError::Write(complaint) => EngineError::IoFailure(complaint),
    }
}

/// The state that the result of an operation leaves the machine in.
pub open spec fn state_after(result: Result<(), EngineError>) -> EngineState {
    match result {
        Ok(_) => EngineState::Running,
        Err(error) => EngineState::Failed(error),
    }
}

impl Machine {
    /// Whether the operand of `action` is in its legal range: a memory
    /// address names a cell that exists, a jump target lies in the program
    /// or just behind its end, and the operand of `Halt` is not looked at.
    pub open spec fn accepts(self, action: (OpCode, usize)) -> bool {
        match action.0 {
            OpCode::Load | OpCode::Add | OpCode::Sub | OpCode::Store | OpCode::Read | OpCode::Print => {
                action.1 < self.memory.len()
            },
            OpCode::Jgz => action.1 <= self.program.len(),
            OpCode::Halt => true,
        }
    }

    /// The failure that an operand out of range raises at this machine.
    pub open spec fn address_fault(self, address: usize) -> EngineState {
        EngineState::Failed(
            EngineError::AddressOutOfBounds { address, instruction_counter: self.ip as usize },
        )
    }

    /// This machine, one instruction further on.
    pub open spec fn advanced(self) -> Machine {
        Machine { ip: self.ip + 1, ..self }
    }

    /// `Read` into cell `a` can leave the machine `after` in the state
    /// `state`.
    ///
    /// Of an input that tells what it holds, the first line is taken. Its
    /// number goes to the cell and execution moves on; if it is no integer,
    /// or if no input is left, the input is malformed and memory and
    /// registers stay. Of any other input the line may hold any number, and
    /// the source may fail as well; memory and registers stay on every
    /// failure.
    pub open spec fn reads(self, a: int, after: Machine, state: EngineState) -> bool {
        match self.input {
            Some(rest) => {
                let taken = Machine { input: Some(after_line(rest)), ..self };
                match line_number(next_line(rest)) {
                    Ok(n) => state is Running && after == (Machine {
                        memory: self.memory.update(a, n),
                        ..taken.advanced()
                    }),
                    Err(error) => state == EngineState::Failed(port_failure(error)) && after
                        == taken,
                }
            },
            None => {
                let taken = Machine { input: after.input, ..self };
                ||| state is Running && after == (Machine {
                    memory: self.memory.update(a, after.memory[a]),
                    ..taken.advanced()
                })
                ||| state == EngineState::Failed(EngineError::MalformedInput) && after == taken
                ||| state matches EngineState::Failed(EngineError::IoFailure(_)) && after == taken
            },
        }
    }

    /// `Print` of cell `a` can leave the machine `after` in the state
    /// `state`.
    ///
    /// To an output that tells what it holds, the line of the cell's value
    /// is appended, and execution moves on. Any other output may fail as
    /// well, and memory and registers stay if it does.
    pub open spec fn prints(self, a: int, after: Machine, state: EngineState) -> bool {
        match self.output {
            Some(sent) => state is Running && after == (Machine {
                output: Some(sent + number_line(self.memory[a])),
                ..self.advanced()
            }),
            None => {
                let touched = Machine { output: after.output, ..self };
                ||| state is Running && after == touched.advanced()
                ||| state matches EngineState::Failed(EngineError::IoFailure(_)) && after
                    == touched
            },
        }
    }
}

/// Executing `action` at the machine `before` can leave the machine `after`
/// in the state `state`.
///
/// An operand out of range fails and changes nothing. Otherwise `Load`,
/// `Add`, `Sub`, `Store` and `Jgz` have one outcome each, `Halt` halts and
/// changes nothing, and `Read` and `Print` go by [`Machine::reads`] and
/// [`Machine::prints`].
pub open spec fn applies(
    before: Machine,
    action: (OpCode, usize),
    after: Machine,
    state: EngineState,
) -> bool {
    let a = action.1 as int;
    if !before.accepts(action) {
        after == before && state == before.address_fault(action.1)
    } else {
        match action.0 {
            OpCode::Load => state is Running && after == (Machine {
                acc: before.memory[a],
                ..before.advanced()
            }),
            OpCode::Add => state is Running && after == (Machine {
                acc: before.acc.wrapping_add(before.memory[a]),
                ..before.advanced()
            }),
            OpCode::Sub => state is Running && after == (Machine {
                acc: before.acc.wrapping_sub(before.memory[a]),
                ..before.advanced()
            }),
            OpCode::Store => state is Running && after == (Machine {
                memory: before.memory.update(a, before.acc),
                ..before.advanced()
            }),
            OpCode::Jgz => state is Running && after == (Machine {
                ip: if before.acc > 0 {
                    action.1 as nat
                } else {
                    before.ip + 1
                },
                ..before
            }),
            OpCode::Read => before.reads(a, after, state),
            OpCode::Print => before.prints(a, after, state),
            OpCode::Halt => state is Halted && after == before,
        }
    }
}

/// One step of the machine `before` can leave the machine `after` in the
/// state `state`: the instruction at the instruction counter is executed,
/// and a counter that has left the program means that the machine has
/// halted.
pub open spec fn steps(before: Machine, after: Machine, state: EngineState) -> bool {
    if before.ip >= before.program.len() {
        state is Halted && after == before
    } else {
        applies(before, before.program[before.ip as int], after, state)
    }
}

/// `count` steps can lead from the machine `before` to the machine `after`
/// in the state `state`. All steps but the last leave the machine running;
/// the last one may halt it or fail.
pub open spec fn runs(before: Machine, after: Machine, state: EngineState, count: nat) -> bool
    decreases count,
{
    if count == 0 {
        state is Running && after == before
    } else {
        exists|next: Machine, reached: EngineState| #[trigger]
            steps(before, next, reached) && if reached is Running {
                runs(next, after, state, (count - 1) as nat)
            } else {
                count == 1 && after == next && state == reached
            }
    }
}

/// Turns a failure at the port into the failure of the machine.
pub fn engine_error(error: IoError) -> (e: EngineError)
    ensures
        e == port_failure(error),
{
    match error {
        IoError::EndOfInput => EngineError::MalformedInput,
        IoError::Decode => EngineError::MalformedInput,
        IoError::Read(complaint) => EngineError::IoFailure(complaint),
        IoError::Write(complaint) => EngineError::IoFailure(complaint),
    }
}

/// `Load`: the accumulator takes the value of cell `arg`.
pub fn apply_load<I: LineSource, O: ByteSink>(engine: &mut DivaremaEngine<I, O>, arg: usize)
    requires
        arg < old(engine).memory.len(),
        old(engine).instruction_counter < usize::MAX,
    ensures
        final(engine)@ == (Machine {
            acc: old(engine)@.memory[arg as int],
            ..old(engine)@.advanced()
        }),
        final(engine).io_module == old(engine).io_module,
{
    let val: i32 = engine.memory[arg];
    let next_ic: usize = engine.instruction_counter + 1;
    engine.acc = val;
    engine.instruction_counter = next_ic;
}

/// `Add`: cell `arg` is added to the accumulator. The sum wraps round in
/// 32 bits.
pub fn apply_add<I: LineSource, O: ByteSink>(engine: &mut DivaremaEngine<I, O>, arg: usize)
    requires
        arg < old(engine).memory.len(),
        old(engine).instruction_counter < usize::MAX,
    ensures
        final(engine)@ == (Machine {
            acc: old(engine)@.acc.wrapping_add(old(engine)@.memory[arg as int]),
            ..old(engine)@.advanced()
        }),
        final(engine).io_module == old(engine).io_module,
{
    let val: i32 = engine.memory[arg];
    let next_ic: usize = engine.instruction_counter + 1;
    engine.acc = engine.acc.wrapping_add(val);
    engine.instruction_counter = next_ic;
}

/// `Sub`: cell `arg` is taken from the accumulator. The difference wraps
/// round in 32 bits.
pub fn apply_sub<I: LineSource, O: ByteSink>(engine: &mut DivaremaEngine<I, O>, arg: usize)
    requires
        arg < old(engine).memory.len(),
        old(engine).instruction_counter < usize::MAX,
    ensures
        final(engine)@ == (Machine {
            acc: old(engine)@.acc.wrapping_sub(old(engine)@.memory[arg as int]),
            ..old(engine)@.advanced()
        }),
        final(engine).io_module == old(engine).io_module,
{
    let val: i32 = engine.memory[arg];
    let next_ic: usize = engine.instruction_counter + 1;
    engine.acc = engine.acc.wrapping_sub(val);
    engine.instruction_counter = next_ic;
}

/// `Store`: cell `arg` takes the value of the accumulator.
pub fn apply_store<I: LineSource, O: ByteSink>(engine: &mut DivaremaEngine<I, O>, arg: usize)
    requires
        arg < old(engine).memory.len(),
        old(engine).instruction_counter < usize::MAX,
    ensures
        final(engine)@ == (Machine {
            memory: old(engine)@.memory.update(arg as int, old(engine)@.acc),
            ..old(engine)@.advanced()
        }),
        final(engine).io_module == old(engine).io_module,
{
    engine.memory[arg] = engine.acc;
    engine.instruction_counter += 1;
}

/// `Jgz`: with an accumulator above zero execution goes on at `arg`, with
/// any other at the next instruction. The target must lie in the program or
/// just behind its end, whatever the accumulator holds: a target further on
/// is out of bounds, and the machine stays as it was.
pub fn apply_jgz<I: LineSource, O: ByteSink>(engine: &mut DivaremaEngine<I, O>, arg: usize) -> (r:
    Result<(), EngineError>)
    requires
        old(engine).acc > 0 || arg > old(engine).program.len() || old(engine).instruction_counter
            < usize::MAX,
    ensures
        arg > old(engine).program.len() ==> r == Err::<(), EngineError>(
            EngineError::AddressOutOfBounds {
                address: arg,
                instruction_counter: old(engine).instruction_counter,
            },
        ) && final(engine)@ == old(engine)@,
        arg <= old(engine).program.len() ==> r == Ok::<(), EngineError>(()) && final(engine)@ == (
        Machine {
            ip: if old(engine)@.acc > 0 {
                arg as nat
            } else {
                old(engine)@.ip + 1
            },
            ..old(engine)@
        }),
        applies(old(engine)@, (OpCode::Jgz, arg), final(engine)@, state_after(r)),
        final(engine).io_module == old(engine).io_module,
{
    if arg > engine.program.len() {
        return Err(
            EngineError::AddressOutOfBounds {
                address: arg,
                instruction_counter: engine.instruction_counter,
            },
        );
    }
    if engine.acc > 0 {
        engine.instruction_counter = arg;
    } else {
        engine.instruction_counter += 1;
    }
    Ok(())
}

/// The second half of `Read`: `got` is what the port returned. A number goes
/// to cell `arg` and execution moves on; a failure leaves the machine as it
/// was.
pub fn complete_read<I: LineSource, O: ByteSink>(
    engine: &mut DivaremaEngine<I, O>,
    arg: usize,
    got: Result<i32, IoError>,
) -> (r: Result<(), EngineError>)
    requires
        arg < old(engine).memory.len(),
        old(engine).instruction_counter < usize::MAX,
    ensures
        match got {
            Ok(n) => r == Ok::<(), EngineError>(()) && final(engine)@ == (Machine {
                memory: old(engine)@.memory.update(arg as int, n),
                ..old(engine)@.advanced()
            }),
            Err(error) => r == Err::<(), EngineError>(port_failure(error)) && final(engine)@
                == old(engine)@,
        },
        final(engine).io_module == old(engine).io_module,
{
    match got {
        Ok(n) => {
            engine.memory[arg] = n;
            engine.instruction_counter += 1;
            Ok(())
        },
        Err(error) => Err(engine_error(error)),
    }
}

/// The second half of `Print`: `sent` is what the port returned. After a
/// line that went out execution moves on; a failure leaves the machine as
/// it was.
pub fn complete_write<I: LineSource, O: ByteSink>(
    engine: &mut DivaremaEngine<I, O>,
    sent: Result<(), IoError>,
) -> (r: Result<(), EngineError>)
    requires
        old(engine).instruction_counter < usize::MAX,
    ensures
        match sent {
            Ok(_) => r == Ok::<(), EngineError>(()) && final(engine)@ == old(engine)@.advanced(),
            Err(error) => r == Err::<(), EngineError>(port_failure(error)) && final(engine)@
                == old(engine)@,
        },
        final(engine).io_module == old(engine).io_module,
{
    match sent {
        Ok(_) => {
            engine.instruction_counter += 1;
            Ok(())
        },
        Err(error) => Err(engine_error(error)),
    }
}

/// `Read`: the next line of the input is read as a number, which goes to
/// cell `arg`. Without a line, or with a line that is no integer, the input
/// is malformed; a source that fails is an I/O failure. On any failure
/// memory, accumulator and instruction counter stay as they were. The
/// output is not touched.
pub fn apply_read<I: LineSource, O: ByteSink>(engine: &mut DivaremaEngine<I, O>, arg: usize) -> (r:
    Result<(), EngineError>)
    requires
        arg < old(engine).memory.len(),
        old(engine).instruction_counter < usize::MAX,
    ensures
        old(engine)@.reads(arg as int, final(engine)@, state_after(r)),
        final(engine).io_module.output == old(engine).io_module.output,
{
    let got = engine.io_module.get_int();
    complete_read(engine, arg, got)
}

/// `Print`: the value of cell `arg` goes out as one line, and the output is
/// flushed. A sink that fails is an I/O failure, which leaves memory,
/// accumulator and instruction counter as they were. The input is not
/// touched.
pub fn apply_write<I: LineSource, O: ByteSink>(engine: &mut DivaremaEngine<I, O>, arg: usize) -> (r:
    Result<(), EngineError>)
    requires
        arg < old(engine).memory.len(),
        old(engine).instruction_counter < usize::MAX,
    ensures
        old(engine)@.prints(arg as int, final(engine)@, state_after(r)),
        final(engine).io_module.input == old(engine).io_module.input,
{
    let outp_n: i32 = engine.memory[arg];
    let sent = engine.io_module.put_int(outp_n);
    complete_write(engine, sent)
}

impl<I: LineSource, O: ByteSink> DivaremaEngine<I, O> {
    /// The machine as the rules of execution see it.
    pub open spec fn view(&self) -> Machine {
        Machine {
            program: self.program@,
            memory: self.memory@,
            acc: self.acc,
            ip: self.instruction_counter as nat,
            input: self.io_module.input.pending(),
            output: self.io_module.output.written(),
        }
    }

    /// Builds a machine for `program` with `memsize` cells of memory. All
    /// cells and the accumulator hold zero, and execution starts at the
    /// first instruction. The machine takes the input and the output for
    /// its own.
    pub fn new(program: DivaremaProgram, memsize: usize, inp: I, outp: O) -> (engine:
        DivaremaEngine<I, O>)
        ensures
            engine@ == fresh(program@, memsize as nat, inp.pending(), outp.written()),
            engine.io_module.input == inp,
            engine.io_module.output == outp,
    {
        let memory: Vec<i32> = vec![0i32; memsize];
        assert(memory@ =~= zeroed(memsize as nat));
        DivaremaEngine {
            program,
            memory,
            acc: 0,
            instruction_counter: 0,
            io_module: DivaremaIoModule { input: inp, output: outp },
        }
    }

    /// The failure for an operand that is out of range.
    fn address_fault(&self, address: usize) -> (state: EngineState)
        ensures
            state == self@.address_fault(address),
    {
        EngineState::Failed(
            EngineError::AddressOutOfBounds {
                address,
                instruction_counter: self.instruction_counter,
            },
        )
    }

    /// Executes `action`. A memory address must name a cell of the memory
    /// and a jump target must not lie further than just behind the program:
    /// if it does, the result is `AddressOutOfBounds` with the operand and
    /// the instruction counter, and nothing has changed. No other failure is
    /// an `AddressOutOfBounds`. The instruction counter moves on by one, but
    /// for `Jgz` with an accumulator above zero, which sets it to the
    /// operand, for `Halt`, and for an instruction that fails.
    pub fn apply(&mut self, action: (OpCode, usize)) -> (state: EngineState)
        requires
            old(self).instruction_counter < usize::MAX,
        ensures
            applies(old(self)@, action, final(self)@, state),
            !old(self)@.accepts(action) <==> state matches EngineState::Failed(
                EngineError::AddressOutOfBounds { .. },
            ),
            !(action.0 is Read) ==> final(self).io_module.input == old(self).io_module.input,
            !(action.0 is Print) ==> final(self).io_module.output == old(self).io_module.output,
            !old(self)@.accepts(action) ==> final(self).io_module == old(self).io_module,
    {
        let (op, arg) = action;
        match op {
            OpCode::Load => {
                if arg >= self.memory.len() {
                    return self.address_fault(arg);
                }
                apply_load(self, arg);
                EngineState::Running
            },
            OpCode::Add => {
                if arg >= self.memory.len() {
                    return self.address_fault(arg);
                }
                apply_add(self, arg);
                EngineState::Running
            },
            OpCode::Sub => {
                if arg >= self.memory.len() {
                    return self.address_fault(arg);
                }
                apply_sub(self, arg);
                EngineState::Running
            },
            OpCode::Store => {
                if arg >= self.memory.len() {
                    return self.address_fault(arg);
                }
                apply_store(self, arg);
                EngineState::Running
            },
            OpCode::Jgz => match apply_jgz(self, arg) {
                Ok(_) => EngineState::Running,
                Err(error) => EngineState::Failed(error),
            },
            OpCode::Read => {
                if arg >= self.memory.len() {
                    return self.address_fault(arg);
                }
                match apply_read(self, arg) {
                    Ok(_) => EngineState::Running,
                    Err(error) => EngineState::Failed(error),
                }
            },
            OpCode::Print => {
                if arg >= self.memory.len() {
                    return self.address_fault(arg);
                }
                match apply_write(self, arg) {
                    Ok(_) => EngineState::Running,
                    Err(error) => EngineState::Failed(error),
                }
            },
            OpCode::Halt => EngineState::Halted,
        }
    }

    /// Executes the instruction at the instruction counter, as [`apply`]
    /// does. With the counter at or behind the end of the program there is
    /// nothing to execute: the machine has halted.
    ///
    /// [`apply`]: DivaremaEngine::apply
    pub fn step(&mut self) -> (state: EngineState)
        ensures
            steps(old(self)@, final(self)@, state),
            final(self)@.program == old(self)@.program,
            final(self)@.memory.len() == old(self)@.memory.len(),
            old(self)@.ip <= old(self)@.program.len() ==> final(self)@.ip <= final(self)@.program.len(),
            state matches EngineState::Failed(EngineError::AddressOutOfBounds { .. }) <==> old(
                self,
            )@.ip < old(self)@.program.len() && !old(self)@.accepts(
                old(self)@.program[old(self)@.ip as int],
            ),
    {
        if self.instruction_counter >= self.program.len() {
            return EngineState::Halted;
        }
        let action: (OpCode, usize) = self.program[self.instruction_counter];
        self.apply(action)
    }

    /// Runs the machine: step after step, until a step halts it or fails,
    /// or until `budget` steps are done. The result is the state after the
    /// last step; where it is `Running`, the budget is used up and the
    /// machine can be run on.
    pub fn run(&mut self, budget: u64) -> (state: EngineState)
        ensures
            exists|count: nat|
                count <= budget && #[trigger] runs(old(self)@, final(self)@, state, count) && (state
                    is Running ==> count == budget),
            final(self)@.program == old(self)@.program,
            final(self)@.memory.len() == old(self)@.memory.len(),
            old(self)@.ip <= old(self)@.program.len() ==> final(self)@.ip <= final(self)@.program.len(),
    {
        let ghost start = self@;
        let mut done: u64 = 0;
        while done < budget
            invariant
                done <= budget,
                start == old(self)@,
                runs(start, self@, EngineState::Running, done as nat),
            decreases budget - done,
        {
            let ghost between = self@;
            let state = self.step();
            proof {
                lemma_runs_extend(start, between, self@, state, done as nat);
                lemma_run_keeps_shape(start, self@, state, (done + 1) as nat);
            }
            done = done + 1;
            match state {
                EngineState::Running => {},
                stopped => {
                    return stopped;
                },
            }
        }
        proof {
            lemma_run_keeps_shape(start, self@, EngineState::Running, done as nat);
        }
        EngineState::Running
    }
}

/// A run that is still going goes on with every further step.
pub proof fn lemma_runs_extend(
    before: Machine,
    between: Machine,
    after: Machine,
    state: EngineState,
    count: nat,
)
    requires
        runs(before, between, EngineState::Running, count),
        steps(between, after, state),
    ensures
        runs(before, after, state, count + 1),
    decreases count,
{
    if count == 0 {
        assert(steps(before, after, state));
        if state is Running {
            assert(runs(after, after, state, 0));
        }
    } else {
        let (next, reached) = choose|next: Machine, reached: EngineState| #[trigger]
            steps(before, next, reached) && if reached is Running {
                runs(next, between, EngineState::Running, (count - 1) as nat)
            } else {
                count == 1 && between == next && EngineState::Running == reached
            };
        lemma_runs_extend(next, between, after, state, (count - 1) as nat);
        assert(steps(before, next, reached));
    }
}

/// A step changes neither the program nor the size of the memory, and an
/// instruction counter that lies in the program or just behind its end
/// stays there.
pub proof fn lemma_step_keeps_shape(before: Machine, after: Machine, state: EngineState)
    requires
        steps(before, after, state),
    ensures
        after.program == before.program,
        after.memory.len() == before.memory.len(),
        before.ip <= before.program.len() ==> after.ip <= after.program.len(),
{
}

/// What holds of a step holds of a run: program and memory size stay, and
/// so does an instruction counter within the program or just behind its
/// end.
pub proof fn lemma_run_keeps_shape(before: Machine, after: Machine, state: EngineState, count: nat)
    requires
        runs(before, after, state, count),
    ensures
        after.program == before.program,
        after.memory.len() == before.memory.len(),
        before.ip <= before.program.len() ==> after.ip <= after.program.len(),
    decreases count,
{
    if count > 0 {
        let (next, reached) = choose|next: Machine, reached: EngineState| #[trigger]
            steps(before, next, reached) && if reached is Running {
                runs(next, after, state, (count - 1) as nat)
            } else {
                count == 1 && after == next && state == reached
            };
        lemma_step_keeps_shape(before, next, reached);
        if reached is Running {
            lemma_run_keeps_shape(next, after, state, (count - 1) as nat);
        }
    }
}

/// An operand out of range fails with `AddressOutOfBounds`, which names the
/// operand and the instruction counter and changes nothing; an operand in
/// range never does.
pub proof fn lemma_address_fault(
    before: Machine,
    action: (OpCode, usize),
    after: Machine,
    state: EngineState,
)
    requires
        applies(before, action, after, state),
    ensures
        !before.accepts(action) <==> state matches EngineState::Failed(
            EngineError::AddressOutOfBounds { .. },
        ),
        !before.accepts(action) ==> after == before && state == before.address_fault(action.1),
{
}

/// A halted machine stays halted: a step at `Halt`, or behind the end of
/// the program, halts again and changes nothing.
pub proof fn lemma_halted_stays(before: Machine, after: Machine, state: EngineState)
    requires
        steps(before, after, state),
        before.ip >= before.program.len() || before.program[before.ip as int].0 is Halt,
    ensures
        state is Halted,
        after == before,
{
}

/// With a port that tells what it holds, a step has one outcome, and the
/// port still tells what it holds afterwards.
pub proof fn lemma_step_determined(
    before: Machine,
    after: Machine,
    state: EngineState,
    other: Machine,
    other_state: EngineState,
)
    requires
        before.input is Some,
        before.output is Some,
        steps(before, after, state),
        steps(before, other, other_state),
    ensures
        after == other,
        state == other_state,
        after.input is Some,
        after.output is Some,
{
}

/// With a port that tells what it holds, a run within a budget has one
/// outcome: two runs from one machine, each of which has stopped or has
/// used up the budget, took as many steps and ended alike.
pub proof fn lemma_run_determined(
    before: Machine,
    budget: nat,
    after: Machine,
    state: EngineState,
    count: nat,
    other: Machine,
    other_state: EngineState,
    other_count: nat,
)
    requires
        before.input is Some,
        before.output is Some,
        runs(before, after, state, count),
        runs(before, other, other_state, other_count),
        count <= budget,
        other_count <= budget,
        state is Running ==> count == budget,
        other_state is Running ==> other_count == budget,
    ensures
        after == other,
        state == other_state,
        count == other_count,
    decreases count,
{
    if count > 0 && other_count > 0 {
        let (next, reached) = choose|next: Machine, reached: EngineState| #[trigger]
            steps(before, next, reached) && if reached is Running {
                runs(next, after, state, (count - 1) as nat)
            } else {
                count == 1 && after == next && state == reached
            };
        let (other_next, other_reached) = choose|next: Machine, reached: EngineState| #[trigger]
            steps(before, next, reached) && if reached is Running {
                runs(next, other, other_state, (other_count - 1) as nat)
            } else {
                other_count == 1 && other == next && other_state == reached
            };
        lemma_step_determined(before, next, reached, other_next, other_reached);
        if reached is Running {
            lemma_run_determined(
                next,
                (budget - 1) as nat,
                after,
                state,
                (count - 1) as nat,
                other,
                other_state,
                (other_count - 1) as nat,
            );
        }
    }
}

/// A program that is one `Halt` halts at its first step, on a memory of any
/// size and with any port, and the accumulator and every cell are still
/// zero.
pub proof fn lemma_lone_halt(
    operand: usize,
    size: nat,
    input: Option<Seq<u8>>,
    output: Option<Seq<u8>>,
    after: Machine,
    state: EngineState,
    count: nat,
)
    requires
        count > 0,
        runs(fresh(seq![(OpCode::Halt, operand)], size, input, output), after, state, count),
    ensures
        count == 1,
        state is Halted,
        after == fresh(seq![(OpCode::Halt, operand)], size, input, output),
        after.acc == 0,
        forall|i: int| 0 <= i < size ==> after.memory[i] == 0,
{
    let before = fresh(seq![(OpCode::Halt, operand)], size, input, output);
    let (next, reached) = choose|next: Machine, reached: EngineState| #[trigger]
        steps(before, next, reached) && if reached is Running {
            runs(next, after, state, (count - 1) as nat)
        } else {
            count == 1 && after == next && state == reached
        };
    lemma_halted_stays(before, next, reached);
}

/// Whether two programs hold the same instructions.
fn same_program(left: &DivaremaProgram, right: &DivaremaProgram) -> (same: bool)
    ensures
        same == (left@ == right@),
{
    if left.len() != right.len() {
        return false;
    }
    let mut i: usize = 0;
    while i < left.len()
        invariant
            left.len() == right.len(),
            i <= left.len(),
            forall|j: int| 0 <= j < i ==> left@[j] == right@[j],
        decreases left.len() - i,
    {
        if left[i].0 != right[i].0 || left[i].1 != right[i].1 {
            return false;
        }
        i = i + 1;
    }
    assert(left@ =~= right@);
    true
}

/// Whether two memories hold the same values.
fn same_memory(left: &DivaremaMemory, right: &DivaremaMemory) -> (same: bool)
    ensures
        same == (left@ == right@),
{
    if left.len() != right.len() {
        return false;
    }
    let mut i: usize = 0;
    while i < left.len()
        invariant
            left.len() == right.len(),
            i <= left.len(),
            forall|j: int| 0 <= j < i ==> left@[j] == right@[j],
        decreases left.len() - i,
    {
        if left[i] != right[i] {
            return false;
        }
        i = i + 1;
    }
    assert(left@ =~= right@);
    true
}

impl<I: LineSource, O: ByteSink> PartialEq for DivaremaEngine<I, O> {
    /// Two machines are equal when their programs, memories, accumulators
    /// and instruction counters are. Their ports are not compared.
    fn eq(&self, other: &DivaremaEngine<I, O>) -> (same: bool) {
        same_program(&self.program, &other.program) && same_memory(&self.memory, &other.memory)
            && self.acc == other.acc && self.instruction_counter == other.instruction_counter
    }
}

impl<I: LineSource, O: ByteSink> PartialEqSpecImpl for DivaremaEngine<I, O> {
    open spec fn obeys_eq_spec() -> bool {
        true
    }

    open spec fn eq_spec(&self, other: &DivaremaEngine<I, O>) -> bool {
        &&& self.program@ == other.program@
        &&& self.memory@ == other.memory@
        &&& self.acc == other.acc
        &&& self.instruction_counter == other.instruction_counter
    }
}

} // verus!
