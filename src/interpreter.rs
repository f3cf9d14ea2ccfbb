//! The interpreter: executes a script against a sequence of inputs.
use vstd::prelude::*;
use crate::script_object::{Block, ScriptObject, last_named, well_placed};
use crate::script_object::instruction::Instruction;
use crate::script_object::value_box::{ValueBox, ValueBoxMemoryAddress};

pub mod memory;

use memory::{GetMemoryError, Memory, MemoryView, SetMemoryError};

verus! {

/// The interpreter holds the state of a run: the memory, the value held by the
/// character (the head), and the position of the next input to read.
pub struct Interpreter {
    /// The tiles on the floor where values can be placed.
    pub memory: Memory,
    /// The value held by the character, if any.
    pub head: Option<ValueBox>,
    /// The index of the next input value to be read.
    pub next_input: usize,
}

/// The state of an interpreter, as the specifications see it.
pub struct InterpreterView {
    pub memory: MemoryView,
    pub head: Option<ValueBox>,
    pub next_input: usize,
}

impl View for Interpreter {
    type V = InterpreterView;

    open spec fn view(&self) -> InterpreterView {
        InterpreterView { memory: self.memory@, head: self.head, next_input: self.next_input }
    }
}

/// A snapshot of a run at the moment it failed: what was left to read, what was
/// output, and the whole memory.
#[derive(Debug)]
pub struct InterpreterStateInfo {
    inputs_left: Vec<ValueBox>,
    outputs: Vec<ValueBox>,
    memory: Memory,
}

/// The contents of a snapshot.
pub struct StateInfoView {
    pub inputs_left: Seq<ValueBox>,
    pub outputs: Seq<ValueBox>,
    pub memory: MemoryView,
}

impl View for InterpreterStateInfo {
    type V = StateInfoView;

    closed spec fn view(&self) -> StateInfoView {
        StateInfoView { inputs_left: self.inputs_left@, outputs: self.outputs@, memory: self.memory@ }
    }
}

impl InterpreterStateInfo {
    /// The inputs that were not read.
    pub fn inputs_left(&self) -> (r: &Vec<ValueBox>)
        ensures
            r@ == self@.inputs_left,
    {
        &self.inputs_left
    }

    /// The values output so far.
    pub fn outputs(&self) -> (r: &Vec<ValueBox>)
        ensures
            r@ == self@.outputs,
    {
        &self.outputs
    }

    /// The memory at that moment.
    pub fn memory(&self) -> (r: &Memory)
        ensures
            r@ == self@.memory,
    {
        &self.memory
    }
}

/// Every way in which the execution of a script can fail.
#[derive(Debug)]
pub enum ExecuteScriptError {
    /// A jump targets a label that no block has.
    InvalidJumpError(InterpreterStateInfo, String),
    /// An instruction failed.
    ExecuteInstructionError(InterpreterStateInfo, ExecuteInstructionError),
    /// The run entered as many blocks as it was allowed to.
    BlockLimitReached(InterpreterStateInfo),
}

/// What can happen after a block is executed.
#[derive(Debug, PartialEq)]
pub enum BlockResult {
    /// A jump instruction was executed inside the block.
    JumpBlock(String),
    /// The block reached its end: go on to the next one.
    NextBlock,
    /// The program has terminated.
    Terminate,
}

/// What can happen after an instruction is executed.
#[derive(Debug, PartialEq)]
pub enum InstructionResult {
    /// A jump instruction was executed.
    JumpBlock(String),
    /// The instruction was executed: read the next one.
    NextInstruction,
    /// The program has terminated (an `In` found no input left).
    Terminate,
}

/// Every error that an instruction can raise. They are deliberately specific to each
/// instruction, to make it clear what went wrong.
#[derive(Debug)]
pub enum ExecuteInstructionError {
    /// `Out` with an empty head.
    OutputNone,
    /// `CopyFrom` from an address that does not resolve, or an empty tile.
    CopyFromInvalidAddress(GetMemoryError),
    /// `CopyTo` to an address that does not resolve.
    CopyToInvalidAddress(SetMemoryError),
    /// `CopyTo` with an empty head.
    CopyToHeadNone,
    /// `Add` from an address that does not resolve, or an empty tile.
    AddInvalidAddress(GetMemoryError),
    /// `Add` with an empty head.
    AddHeadNone,
    /// `Add` of two characters.
    AddCharacters { head: char, mem: char, address: usize },
    /// `Add` of a character and a number.
    AddCharacterAndNumber { head: ValueBox, mem: ValueBox, address: usize },
    /// `Add` whose sum does not fit in an `i32`.
    AddOverflow { head: i32, mem: i32 },
    /// `Sub` from an address that does not resolve, or an empty tile.
    SubInvalidAddress(GetMemoryError),
    /// `Sub` with an empty head.
    SubHeadNone,
    /// `Sub` of a character and a number.
    SubCharacterAndNumber { head: ValueBox, mem: ValueBox, address: usize },
    /// `Sub` whose difference does not fit in an `i32`.
    SubOverflow { head: i32, mem: i32 },
    /// `JumpIfZero` with an empty head.
    JumpIfZeroInvalidHead(Option<ValueBox>),
    /// `JumpIfNegative` with an empty head.
    JumpIfNegativeInvalidHead(Option<ValueBox>),
    /// `BumpUp` or `BumpDown` at an address that does not resolve, or an empty tile.
    BumpInvalidAddress(GetMemoryError),
    /// `BumpUp` or `BumpDown` of a character.
    BumpCharacter,
    /// `BumpUp` or `BumpDown` whose result does not fit in an `i32`.
    BumpOverflow { value: i32 },
}

/// The effect of one instruction: its result, the state after it, and what it output.
pub struct Step {
    pub result: Result<InstructionResult, ExecuteInstructionError>,
    pub state: InterpreterView,
    pub emitted: Seq<ValueBox>,
}

/// A character's offset from `'A'`, lower-case letters counted as upper-case ones.
pub open spec fn alphabetic_index(c: char) -> int {
    (if 'a' <= c && c <= 'z' { (c as int) - 32 } else { c as int }) - ('A' as int)
}

/// Whether `n` is an `i32`.
pub open spec fn fits_i32(n: int) -> bool {
    i32::MIN <= n && n <= i32::MAX
}

/// An instruction that goes on to the next one, in state `s`.
pub open spec fn proceed(s: InterpreterView) -> Step {
    Step { result: Ok(InstructionResult::NextInstruction), state: s, emitted: seq![] }
}

/// An instruction that fails with `e`, changing nothing.
pub open spec fn fail(s: InterpreterView, e: ExecuteInstructionError) -> Step {
    Step { result: Err(e), state: s, emitted: seq![] }
}

/// An instruction that jumps to `label`, changing nothing.
pub open spec fn jump(s: InterpreterView, label: String) -> Step {
    Step { result: Ok(InstructionResult::JumpBlock(label)), state: s, emitted: seq![] }
}

/// The state `s` with `v` in the head.
pub open spec fn with_head(s: InterpreterView, v: ValueBox) -> InterpreterView {
    InterpreterView { memory: s.memory, head: Some(v), next_input: s.next_input }
}

/// The address that a readable operand resolved to.
pub open spec fn resolved(s: InterpreterView, a: ValueBoxMemoryAddress) -> usize {
    s.memory.resolve(a)->Ok_0
}

/// What one instruction does to the state, given the inputs.
/// An instruction that fails changes nothing.
pub open spec fn step(s: InterpreterView, ins: Instruction, inputs: Seq<ValueBox>) -> Step {
    match ins {
        Instruction::In => if s.next_input < inputs.len() {
            proceed(InterpreterView {
                memory: s.memory,
                head: Some(inputs[s.next_input as int]),
                next_input: (s.next_input + 1) as usize,
            })
        } else {
            Step { result: Ok(InstructionResult::Terminate), state: s, emitted: seq![] }
        },
        Instruction::Out => match s.head {
            Some(v) => Step { result: Ok(InstructionResult::NextInstruction), state: s, emitted: seq![v] },
            None => fail(s, ExecuteInstructionError::OutputNone),
        },
        Instruction::CopyFrom(a) => match s.memory.read(a) {
            Ok(v) => proceed(with_head(s, v)),
            Err(e) => fail(s, ExecuteInstructionError::CopyFromInvalidAddress(e)),
        },
        Instruction::CopyTo(a) => match s.head {
            None => fail(s, ExecuteInstructionError::CopyToHeadNone),
            Some(h) => match s.memory.resolve(a) {
                Ok(address) => proceed(InterpreterView {
                    memory: s.memory.write(address, Some(h)),
                    head: s.head,
                    next_input: s.next_input,
                }),
                Err(e) => fail(s, ExecuteInstructionError::CopyToInvalidAddress(
                    SetMemoryError::InvalidValueBoxMemoryAddress(e),
                )),
            },
        },
        Instruction::Add(a) => match s.memory.read(a) {
            Err(e) => fail(s, ExecuteInstructionError::AddInvalidAddress(e)),
            Ok(m) => match s.head {
                None => fail(s, ExecuteInstructionError::AddHeadNone),
                Some(h) => match (h, m) {
                    (ValueBox::Number(x), ValueBox::Number(y)) => if fits_i32(x + y) {
                        proceed(with_head(s, ValueBox::Number((x + y) as i32)))
                    } else {
                        fail(s, ExecuteInstructionError::AddOverflow { head: x, mem: y })
                    },
                    (ValueBox::Character(x), ValueBox::Character(y)) => fail(
                        s,
                        ExecuteInstructionError::AddCharacters { head: x, mem: y, address: resolved(s, a) },
                    ),
                    _ => fail(
                        s,
                        ExecuteInstructionError::AddCharacterAndNumber { head: h, mem: m, address: resolved(s, a) },
                    ),
                },
            },
        },
        Instruction::Sub(a) => match s.memory.read(a) {
            Err(e) => fail(s, ExecuteInstructionError::SubInvalidAddress(e)),
            Ok(m) => match s.head {
                None => fail(s, ExecuteInstructionError::SubHeadNone),
                Some(h) => match (h, m) {
                    (ValueBox::Number(x), ValueBox::Number(y)) => if fits_i32(x - y) {
                        proceed(with_head(s, ValueBox::Number((x - y) as i32)))
                    } else {
                        fail(s, ExecuteInstructionError::SubOverflow { head: x, mem: y })
                    },
                    (ValueBox::Character(x), ValueBox::Character(y)) => proceed(
                        with_head(s, ValueBox::Number((alphabetic_index(x) - alphabetic_index(y)) as i32)),
                    ),
                    _ => fail(
                        s,
                        ExecuteInstructionError::SubCharacterAndNumber { head: h, mem: m, address: resolved(s, a) },
                    ),
                },
            },
        },
        Instruction::BumpUp(a) => bump(s, a, 1),
        Instruction::BumpDown(a) => bump(s, a, -1),
        Instruction::Jump(l) => jump(s, l),
        Instruction::JumpIfZero(l) => match s.head {
            Some(ValueBox::Number(n)) => if n == 0 { jump(s, l) } else { proceed(s) },
            Some(ValueBox::Character(_)) => proceed(s),
            None => fail(s, ExecuteInstructionError::JumpIfZeroInvalidHead(s.head)),
        },
        Instruction::JumpIfNegative(l) => match s.head {
            Some(ValueBox::Number(n)) => if n < 0 { jump(s, l) } else { proceed(s) },
            Some(ValueBox::Character(_)) => proceed(s),
            None => fail(s, ExecuteInstructionError::JumpIfNegativeInvalidHead(s.head)),
        },
    }
}

/// Adding `delta` to the number at an address: the result goes there and to the head.
pub open spec fn bump(s: InterpreterView, a: ValueBoxMemoryAddress, delta: int) -> Step {
    match s.memory.read(a) {
        Err(e) => fail(s, ExecuteInstructionError::BumpInvalidAddress(e)),
        Ok(ValueBox::Character(_)) => fail(s, ExecuteInstructionError::BumpCharacter),
        Ok(ValueBox::Number(m)) => if fits_i32(m + delta) {
            proceed(InterpreterView {
                memory: s.memory.write(resolved(s, a), Some(ValueBox::Number((m + delta) as i32))),
                head: Some(ValueBox::Number((m + delta) as i32)),
                next_input: s.next_input,
            })
        } else {
            fail(s, ExecuteInstructionError::BumpOverflow { value: m })
        },
    }
}

/// The effect of a run of instructions: how it ended, the state after it, and what it output.
pub struct BlockRun {
    pub result: Result<BlockResult, ExecuteInstructionError>,
    pub state: InterpreterView,
    pub emitted: Seq<ValueBox>,
}

/// What executing `instrs` in order does, up to the first jump, termination or failure.
pub open spec fn run_block(s: InterpreterView, instrs: Seq<Instruction>, inputs: Seq<ValueBox>) -> BlockRun
    decreases instrs.len(),
{
    if instrs.len() == 0 {
        BlockRun { result: Ok(BlockResult::NextBlock), state: s, emitted: seq![] }
    } else {
        let o = step(s, instrs[0], inputs);
        match o.result {
            Err(e) => BlockRun { result: Err(e), state: o.state, emitted: o.emitted },
            Ok(InstructionResult::JumpBlock(l)) => BlockRun {
                result: Ok(BlockResult::JumpBlock(l)),
                state: o.state,
                emitted: o.emitted,
            },
            Ok(InstructionResult::Terminate) => BlockRun {
                result: Ok(BlockResult::Terminate),
                state: o.state,
                emitted: o.emitted,
            },
            Ok(InstructionResult::NextInstruction) => {
                let rest = run_block(o.state, instrs.drop_first(), inputs);
                BlockRun { result: rest.result, state: rest.state, emitted: o.emitted + rest.emitted }
            },
        }
    }
}

/// How a run of a script ended.
pub enum RunEnd {
    /// Normally: the last block ended or an `In` found no input left.
    Finished,
    /// At a jump to a label that no block has.
    InvalidJump(Seq<char>),
    /// At an instruction that failed.
    Failed(ExecuteInstructionError),
    /// Having entered as many blocks as allowed.
    OutOfBudget,
}

/// A run of a script: how it ended, everything it output, and the final state.
pub struct Run {
    pub end: RunEnd,
    pub outputs: Seq<ValueBox>,
    pub state: InterpreterView,
}

/// Running `blocks` from block `b`, with `outputs` already output and at most
/// `budget` more blocks to enter.
pub open spec fn run(
    blocks: Seq<Block>,
    s: InterpreterView,
    b: int,
    outputs: Seq<ValueBox>,
    inputs: Seq<ValueBox>,
    budget: nat,
) -> Run
    decreases budget,
{
    if budget == 0 {
        Run { end: RunEnd::OutOfBudget, outputs, state: s }
    } else {
        let br = run_block(s, blocks[b].instructions@, inputs);
        let out = outputs + br.emitted;
        match br.result {
            Err(e) => Run { end: RunEnd::Failed(e), outputs: out, state: br.state },
            Ok(BlockResult::JumpBlock(l)) => match last_named(blocks, l@) {
                Some(j) => run(blocks, br.state, j, out, inputs, (budget - 1) as nat),
                None => Run { end: RunEnd::InvalidJump(l@), outputs: out, state: br.state },
            },
            Ok(BlockResult::NextBlock) => if b + 1 < blocks.len() {
                run(blocks, br.state, b + 1, out, inputs, (budget - 1) as nat)
            } else {
                Run { end: RunEnd::Finished, outputs: out, state: br.state }
            },
            Ok(BlockResult::Terminate) => Run { end: RunEnd::Finished, outputs: out, state: br.state },
        }
    }
}

/// The inputs not yet read.
pub open spec fn pending(inputs: Seq<ValueBox>, next_input: usize) -> Seq<ValueBox> {
    if next_input < inputs.len() {
        inputs.subrange(next_input as int, inputs.len() as int)
    } else {
        seq![]
    }
}

impl InterpreterStateInfo {
    /// Whether this is the snapshot of a run that ended in state `s` with `outputs`.
    pub open spec fn describes(&self, s: InterpreterView, outputs: Seq<ValueBox>, inputs: Seq<ValueBox>) -> bool {
        &&& self@.inputs_left == pending(inputs, s.next_input)
        &&& self@.outputs == outputs
        &&& self@.memory == s.memory
    }
}

/// Whether `r` reports the run `o`.
pub open spec fn reports(r: Result<Vec<ValueBox>, ExecuteScriptError>, o: Run, inputs: Seq<ValueBox>) -> bool {
    match r {
        Ok(out) => o.end is Finished && out@ == o.outputs,
        Err(ExecuteScriptError::InvalidJumpError(info, label)) => o.end == RunEnd::InvalidJump(label@)
            && info.describes(o.state, o.outputs, inputs),
        Err(ExecuteScriptError::ExecuteInstructionError(info, e)) => o.end == RunEnd::Failed(e)
            && info.describes(o.state, o.outputs, inputs),
        Err(ExecuteScriptError::BlockLimitReached(info)) => o.end is OutOfBudget
            && info.describes(o.state, o.outputs, inputs),
    }
}

/// `In` reads the inputs in order, one per call; once they are exhausted it
/// terminates the program and changes nothing.
pub proof fn lemma_in_reads_in_order(s: InterpreterView, inputs: Seq<ValueBox>)
    ensures
        s.next_input < inputs.len() ==> {
            let o = step(s, Instruction::In, inputs);
            &&& o.result == Ok::<InstructionResult, ExecuteInstructionError>(InstructionResult::NextInstruction)
            &&& o.state.head == Some(inputs[s.next_input as int])
            &&& o.state.next_input == (s.next_input + 1) as usize
            &&& o.state.memory == s.memory
        },
        s.next_input >= inputs.len() ==> {
            let o = step(s, Instruction::In, inputs);
            &&& o.result == Ok::<InstructionResult, ExecuteInstructionError>(InstructionResult::Terminate)
            &&& o.state == s
            &&& o.emitted.len() == 0
        },
{
}

/// Subtracting a character from a character gives their signed distance in the
/// alphabet; adding two characters always fails, and changes nothing.
pub proof fn lemma_character_arithmetic(
    s: InterpreterView,
    a: ValueBoxMemoryAddress,
    x: char,
    y: char,
    inputs: Seq<ValueBox>,
)
    requires
        s.head == Some(ValueBox::Character(x)),
        s.memory.read(a) == Ok::<ValueBox, GetMemoryError>(ValueBox::Character(y)),
    ensures
        step(s, Instruction::Sub(a), inputs).result == Ok::<InstructionResult, ExecuteInstructionError>(
            InstructionResult::NextInstruction,
        ),
        step(s, Instruction::Sub(a), inputs).state.head == Some(
            ValueBox::Number((alphabetic_index(x) - alphabetic_index(y)) as i32),
        ),
        step(s, Instruction::Add(a), inputs).result is Err,
        step(s, Instruction::Add(a), inputs).state == s,
{
}

/// `BumpUp` at a direct address holding a number sets both the tile and the head to
/// the number plus one; a `BumpDown` there then restores the memory and sets the head
/// back to the number.
pub proof fn lemma_bump_up_then_down(s: InterpreterView, address: usize, n: i32, inputs: Seq<ValueBox>)
    requires
        address <= s.memory.max_address,
        s.memory.cell(address) == Some(ValueBox::Number(n)),
        n < i32::MAX,
    ensures
        ({
            let up = step(s, Instruction::BumpUp(ValueBoxMemoryAddress::Pointer(address)), inputs);
            let down = step(up.state, Instruction::BumpDown(ValueBoxMemoryAddress::Pointer(address)), inputs);
            &&& up.result is Ok
            &&& up.state.memory.cell(address) == Some(ValueBox::Number((n + 1) as i32))
            &&& up.state.head == Some(ValueBox::Number((n + 1) as i32))
            &&& down.result is Ok
            &&& down.state.memory == s.memory
            &&& down.state.head == Some(ValueBox::Number(n))
        }),
{
    let up = step(s, Instruction::BumpUp(ValueBoxMemoryAddress::Pointer(address)), inputs);
    let down = step(up.state, Instruction::BumpDown(ValueBoxMemoryAddress::Pointer(address)), inputs);
    assert(down.state.memory.cells =~= s.memory.cells);
}

/// A block that jumps to a label that no block has ends the run with an invalid-jump
/// error naming that label.
pub proof fn lemma_jump_to_missing_label_fails(
    blocks: Seq<Block>,
    s: InterpreterView,
    b: int,
    outputs: Seq<ValueBox>,
    inputs: Seq<ValueBox>,
    budget: nat,
    label: String,
)
    requires
        budget > 0,
        0 <= b < blocks.len(),
        blocks[b].instructions@.len() > 0,
        blocks[b].instructions@[0] == Instruction::Jump(label),
        last_named(blocks, label@) is None,
    ensures
        run(blocks, s, b, outputs, inputs, budget).end == RunEnd::InvalidJump(label@),
{
}

fn alphabetic_index_of(c: char) -> (r: i32)
    ensures
        r == alphabetic_index(c),
{
    let code = c as u32;
    let upper = if 'a' <= c && c <= 'z' { code - 32 } else { code };
    upper as i32 - 65
}

impl Interpreter {
    /// An interpreter over `memory`, with an empty head, that reads inputs from the first.
    pub fn new(memory: Memory) -> (r: Interpreter)
        ensures
            r@ == (InterpreterView { memory: memory@, head: None, next_input: 0 }),
    {
        Interpreter { memory, head: None, next_input: 0 }
    }

    /// Executes one instruction, reading from `inputs` and appending to `outputs`.
    pub fn execute_instruction(
        &mut self,
        instruction: &Instruction,
        inputs: &[ValueBox],
        outputs: &mut Vec<ValueBox>,
    ) -> (r: Result<InstructionResult, ExecuteInstructionError>)
        ensures
            ({
                let o = step(old(self)@, *instruction, inputs@);
                &&& r == o.result
                &&& final(self)@ == o.state
                &&& final(outputs)@ == old(outputs)@ + o.emitted
            }),
    {
        match instruction {
            Instruction::In => {
                if self.next_input < inputs.len() {
                    self.head = Some(inputs[self.next_input]);
                    self.next_input = self.next_input + 1;
                } else {
                    assert(old(outputs)@ + seq![] =~= old(outputs)@);
                    return Ok(InstructionResult::Terminate);
                }
            },
            Instruction::Out => match self.head {
                Some(value) => outputs.push(value),
                None => return Err(ExecuteInstructionError::OutputNone),
            },
            Instruction::CopyFrom(vbma) => {
                let value = match self.memory.get_with_vbma(vbma) {
                    Ok(v) => *v,
                    Err(e) => return Err(ExecuteInstructionError::CopyFromInvalidAddress(e)),
                };
                self.head = Some(value);
            },
            Instruction::CopyTo(vbma) => {
                let head_value = match self.head {
                    Some(v) => v,
                    None => return Err(ExecuteInstructionError::CopyToHeadNone),
                };
                match self.memory.set_with_vbma(vbma, Some(head_value)) {
                    Ok(()) => {},
                    Err(e) => return Err(ExecuteInstructionError::CopyToInvalidAddress(e)),
                }
            },
            Instruction::Add(vbma) => {
                let mem_value = match self.memory.get_with_vbma(vbma) {
                    Ok(v) => *v,
                    Err(e) => return Err(ExecuteInstructionError::AddInvalidAddress(e)),
                };
                let head_value = match self.head {
                    Some(v) => v,
                    None => return Err(ExecuteInstructionError::AddHeadNone),
                };
                match (head_value, mem_value) {
                    (ValueBox::Number(h), ValueBox::Number(m)) => {
                        match h.checked_add(m) {
                            Some(sum) => self.head = Some(ValueBox::Number(sum)),
                            None => return Err(ExecuteInstructionError::AddOverflow { head: h, mem: m }),
                        }
                    },
                    (ValueBox::Character(char_head), ValueBox::Character(char_mem)) => {
                        let address = self.resolved_address(vbma);
                        return Err(ExecuteInstructionError::AddCharacters { head: char_head, mem: char_mem, address });
                    },
                    _ => {
                        let address = self.resolved_address(vbma);
                        return Err(ExecuteInstructionError::AddCharacterAndNumber { head: head_value, mem: mem_value, address });
                    },
                }
            },
            Instruction::Sub(vbma) => {
                let mem_value = match self.memory.get_with_vbma(vbma) {
                    Ok(v) => *v,
                    Err(e) => return Err(ExecuteInstructionError::SubInvalidAddress(e)),
                };
                let head_value = match self.head {
                    Some(v) => v,
                    None => return Err(ExecuteInstructionError::SubHeadNone),
                };
                match (head_value, mem_value) {
                    (ValueBox::Number(h), ValueBox::Number(m)) => {
                        match h.checked_sub(m) {
                            Some(diff) => self.head = Some(ValueBox::Number(diff)),
                            None => return Err(ExecuteInstructionError::SubOverflow { head: h, mem: m }),
                        }
                    },
                    (ValueBox::Character(h), ValueBox::Character(m)) => {
                        // Characters can be subtracted: the result is their distance in the alphabet.
                        let h = alphabetic_index_of(h);
                        let m = alphabetic_index_of(m);
                        self.head = Some(ValueBox::Number(h - m));
                    },
                    _ => {
                        let address = self.resolved_address(vbma);
                        return Err(ExecuteInstructionError::SubCharacterAndNumber { head: head_value, mem: mem_value, address });
                    },
                }
            },
            Instruction::BumpUp(vbma) => {
                match self.bump_mem_value(vbma, true) {
                    Ok(()) => {},
                    Err(e) => return Err(e),
                }
            },
            Instruction::BumpDown(vbma) => {
                match self.bump_mem_value(vbma, false) {
                    Ok(()) => {},
                    Err(e) => return Err(e),
                }
            },
            Instruction::Jump(block_key) => {
                return Ok(InstructionResult::JumpBlock(block_key.clone()));
            },
            Instruction::JumpIfZero(block_key) => match self.head {
                Some(ValueBox::Number(n)) => {
                    if n == 0 {
                        return Ok(InstructionResult::JumpBlock(block_key.clone()));
                    }
                },
                Some(ValueBox::Character(_)) => {},
                None => return Err(ExecuteInstructionError::JumpIfZeroInvalidHead(self.head)),
            },
            Instruction::JumpIfNegative(block_key) => match self.head {
                Some(ValueBox::Number(n)) => {
                    if n < 0 {
                        return Ok(InstructionResult::JumpBlock(block_key.clone()));
                    }
                },
                Some(ValueBox::Character(_)) => {},
                None => return Err(ExecuteInstructionError::JumpIfNegativeInvalidHead(self.head)),
            },
        }
        assert(old(outputs)@ + seq![] =~= old(outputs)@);
        Ok(InstructionResult::NextInstruction)
    }

    /// Executes the instructions of a block in order, appending to `outputs`, up to
    /// the first jump, termination or failure.
    fn execute_block(&mut self, block: &Block, inputs: &[ValueBox], outputs: &mut Vec<ValueBox>) -> (r: Result<BlockResult, ExecuteInstructionError>)
        ensures
            ({
                let o = run_block(old(self)@, block.instructions@, inputs@);
                &&& r == o.result
                &&& final(self)@ == o.state
                &&& final(outputs)@ == old(outputs)@ + o.emitted
            }),
    {
        let ghost whole = run_block(self@, block.instructions@, inputs@);
        let mut k: usize = 0;
        assert(block.instructions@.skip(0) =~= block.instructions@);
        while k < block.instructions.len()
            invariant
                k <= block.instructions@.len(),
                whole == run_block(old(self)@, block.instructions@, inputs@),
                ({
                    let rest = run_block(self@, block.instructions@.skip(k as int), inputs@);
                    &&& whole.result == rest.result
                    &&& whole.state == rest.state
                    &&& old(outputs)@ + whole.emitted == outputs@ + rest.emitted
                }),
            decreases block.instructions@.len() - k,
        {
            let ghost before = outputs@;
            let ghost pre = self@;
            let ghost tail = block.instructions@.skip(k as int);
            assert(tail.drop_first() =~= block.instructions@.skip(k + 1));
            assert(tail[0] == block.instructions@[k as int]);
            let result = self.execute_instruction(&block.instructions[k], inputs, outputs);
            let ghost o = step(pre, tail[0], inputs@);
            proof {
                assert(before + (o.emitted + run_block(self@, tail.drop_first(), inputs@).emitted)
                    =~= (before + o.emitted) + run_block(self@, tail.drop_first(), inputs@).emitted);
                assert(before + o.emitted =~= before + o.emitted + seq![]);
            }
            match result {
                Ok(InstructionResult::JumpBlock(label)) => {
                    return Ok(BlockResult::JumpBlock(label));
                },
                Ok(InstructionResult::NextInstruction) => {},
                Ok(InstructionResult::Terminate) => {
                    assert(outputs@ + seq![] =~= outputs@);
                    return Ok(BlockResult::Terminate);
                },
                Err(e) => {
                    assert(outputs@ + seq![] =~= outputs@);
                    return Err(e);
                },
            }
            k = k + 1;
        }
        assert(outputs@ + seq![] =~= outputs@);
        Ok(BlockResult::NextBlock)
    }

    /// A snapshot of the run: the inputs not read, the outputs so far, the memory.
    fn build_state(&self, inputs: &[ValueBox], outputs: &Vec<ValueBox>) -> (r: InterpreterStateInfo)
        ensures
            r.describes(self@, outputs@, inputs@),
    {
        let mut inputs_left: Vec<ValueBox> = Vec::new();
        let mut i: usize = self.next_input;
        while i < inputs.len()
            invariant
                self.next_input <= i,
                i >= inputs@.len() ==> inputs_left@ == pending(inputs@, self.next_input),
                i < inputs@.len() ==> inputs_left@ == inputs@.subrange(self.next_input as int, i as int),
            decreases inputs@.len() - i,
        {
            inputs_left.push(inputs[i]);
            i = i + 1;
            assert(inputs_left@ =~= inputs@.subrange(self.next_input as int, i as int));
        }
        if self.next_input >= inputs.len() {
            assert(inputs_left@ =~= pending(inputs@, self.next_input));
        }
        InterpreterStateInfo { inputs_left, outputs: outputs.clone(), memory: self.memory.duplicate() }
    }

    /// Executes a script from its first block, reading `inputs` in order, and returns
    /// the values output, or the error that stopped it with a snapshot of the run.
    pub fn execute(&mut self, script: &ScriptObject, inputs: &[ValueBox]) -> (r: Result<Vec<ValueBox>, ExecuteScriptError>)
        ensures
            ({
                let o = run(script@, old(self)@, 0, seq![], inputs@, u64::MAX as nat);
                &&& reports(r, o, inputs@)
                &&& final(self)@ == o.state
            }),
    {
        self.execute_with_block_limit(script, inputs, u64::MAX)
    }

    /// Executes a script as `execute` does, entering at most `limit` blocks.
    pub fn execute_with_block_limit(&mut self, script: &ScriptObject, inputs: &[ValueBox], limit: u64) -> (r: Result<Vec<ValueBox>, ExecuteScriptError>)
        ensures
            ({
                let o = run(script@, old(self)@, 0, seq![], inputs@, limit as nat);
                &&& reports(r, o, inputs@)
                &&& final(self)@ == o.state
            }),
    {
        script.blocks_are_well_placed();
        let mut output: Vec<ValueBox> = Vec::new();
        let mut current: usize = 0;
        let mut budget: u64 = limit;
        loop
            invariant
                well_placed(script@),
                current < script@.len(),
                run(script@, old(self)@, 0, seq![], inputs@, limit as nat)
                    == run(script@, self@, current as int, output@, inputs@, budget as nat),
            decreases budget,
        {
            if budget == 0 {
                return Err(ExecuteScriptError::BlockLimitReached(self.build_state(inputs, &output)));
            }
            let current_block = match script.get_block_by_index(current) {
                Some(b) => b,
                None => return Ok(output),
            };
            let result = self.execute_block(current_block, inputs, &mut output);
            match result {
                Err(e) => {
                    return Err(ExecuteScriptError::ExecuteInstructionError(self.build_state(inputs, &output), e));
                },
                Ok(BlockResult::JumpBlock(label)) => match script.position_of_label(label.as_str()) {
                    Some(j) => current = j,
                    None => {
                        return Err(ExecuteScriptError::InvalidJumpError(self.build_state(inputs, &output), label));
                    },
                },
                Ok(BlockResult::NextBlock) => match script.get_next(current_block) {
                    Some(next) => current = next.index,
                    None => return Ok(output),
                },
                Ok(BlockResult::Terminate) => return Ok(output),
            }
            budget = budget - 1;
        }
    }

    /// The address that an operand designates, where it is known to resolve.
    fn resolved_address(&self, vbma: &ValueBoxMemoryAddress) -> (r: usize)
        requires
            self.memory@.resolve(*vbma) is Ok,
        ensures
            r == self.memory@.resolve(*vbma)->Ok_0,
    {
        match self.memory.translate_vbma_to_mem_address(vbma) {
            Ok(a) => a,
            Err(_) => 0,
        }
    }

    /// Adds 1 (`up`) or subtracts 1 from the number at an address; the result goes
    /// there and to the head.
    fn bump_mem_value(&mut self, vbma: &ValueBoxMemoryAddress, up: bool) -> (r: Result<(), ExecuteInstructionError>)
        ensures
            ({
                let o = bump(old(self)@, *vbma, if up { 1 } else { -1 });
                &&& final(self)@ == o.state
                &&& match r {
                    Ok(()) => o.result == Ok::<InstructionResult, ExecuteInstructionError>(InstructionResult::NextInstruction),
                    Err(e) => o.result == Err::<InstructionResult, ExecuteInstructionError>(e),
                }
            }),
    {
        let mem_value = match self.memory.get_with_vbma(vbma) {
            Ok(v) => *v,
            Err(e) => return Err(ExecuteInstructionError::BumpInvalidAddress(e)),
        };
        let new_value = match mem_value {
            ValueBox::Number(m) => {
                let bumped = if up { m.checked_add(1) } else { m.checked_sub(1) };
                match bumped {
                    Some(n) => n,
                    None => return Err(ExecuteInstructionError::BumpOverflow { value: m }),
                }
            },
            ValueBox::Character(_) => return Err(ExecuteInstructionError::BumpCharacter),
        };
        let address = self.resolved_address(vbma);
        let written = self.memory.set(&address, Some(ValueBox::Number(new_value)));
        // The address resolved, so it is valid and the write cannot fail.
        assert(written is Ok);
        self.head = Some(ValueBox::Number(new_value));
        Ok(())
    }
}

} // verus!
