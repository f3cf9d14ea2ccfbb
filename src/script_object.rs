//! A script as the interpreter reads it: an ordered list of named blocks of instructions.
use vstd::prelude::*;
use instruction::{Instruction, ParseInstructionError, collapsed, lemma_parse_ok, parse_ok, parse_result};
use value_box::{trim_spaces, trimmed_bounds};
use crate::text::{
    before_first, chars_of, contains_text, find_char, has_infix, has_prefix, line_spans,
    split_lines, starts_with, string_of,
};

pub mod instruction;
pub mod value_box;

verus! {

/// The representation of a script. It neither executes itself nor holds the state of
/// a run: it is a transcription of the text that the interpreter can read.
#[derive(Debug, PartialEq)]
pub struct ScriptObject {
    blocks: Vec<Block>,
}

/// A block is the run of instructions after a jump point.
/// In a program without labels, there is only the `entry` block.
#[derive(Debug, PartialEq)]
pub struct Block {
    pub name: String,
    pub index: usize,
    pub instructions: Vec<Instruction>,
}

/// The label that a jump instruction targets; `None` for the others.
pub open spec fn jump_target(i: Instruction) -> Option<Seq<char>> {
    match i {
        Instruction::Jump(l) => Some(l@),
        Instruction::JumpIfZero(l) => Some(l@),
        Instruction::JumpIfNegative(l) => Some(l@),
        _ => None,
    }
}

/// The position of the last block of `blocks` named `label`.
pub open spec fn last_named(blocks: Seq<Block>, label: Seq<char>) -> Option<int>
    decreases blocks.len(),
{
    if blocks.len() == 0 {
        None
    } else if blocks.last().name@ == label {
        Some(blocks.len() - 1)
    } else {
        last_named(blocks.drop_last(), label)
    }
}

proof fn lemma_last_named_in_range(blocks: Seq<Block>, label: Seq<char>)
    ensures
        match last_named(blocks, label) {
            Some(i) => 0 <= i < blocks.len() && blocks[i].name@ == label,
            None => forall|i: int| 0 <= i < blocks.len() ==> #[trigger] blocks[i].name@ != label,
        },
    decreases blocks.len(),
{
    if blocks.len() > 0 {
        lemma_last_named_in_range(blocks.drop_last(), label);
        if blocks.last().name@ != label {
            assert forall|i: int| 0 <= i < blocks.len() implies match last_named(blocks, label) {
                Some(j) => true,
                None => #[trigger] blocks[i].name@ != label,
            } by {
                if i < blocks.len() - 1 {
                    assert(blocks[i] == blocks.drop_last()[i]);
                }
            }
        }
    }
}

impl Block {
    /// A block named `name` at position `index` of its script.
    pub fn new(name: String, index: usize, instructions: Vec<Instruction>) -> (r: Block)
        ensures
            r == (Block { name, index, instructions }),
    {
        Block { name, index, instructions }
    }
}

/// Error returned by `validate` for a script that is not valid.
#[derive(Debug)]
pub enum ScriptObjectValidationError {
    /// Some jumps target labels that no block has.
    InvalidJumps,
}

impl View for ScriptObject {
    type V = Seq<Block>;

    closed spec fn view(&self) -> Seq<Block> {
        self.blocks@
    }
}

/// Whether `blocks` can make a script: at least one block, each at its own position.
pub open spec fn well_placed(blocks: Seq<Block>) -> bool {
    blocks.len() > 0 && forall|i: int| 0 <= i < blocks.len() ==> (#[trigger] blocks[i]).index == i
}

/// A jump to a label that no block has makes the script invalid, wherever it stands.
pub proof fn lemma_dangling_jump_invalidates(script: &ScriptObject, b: int, k: int, label: Seq<char>)
    requires
        0 <= b < script@.len(),
        0 <= k < script@[b].instructions@.len(),
        jump_target(script@[b].instructions@[k]) == Some(label),
        script.label_position(label) is None,
    ensures
        !script.jumps_resolve(),
{
}

impl ScriptObject {
    #[verifier::type_invariant]
    spec fn blocks_well_placed(&self) -> bool {
        well_placed(self.blocks@)
    }

    /// The position of the block that a jump to `label` goes to.
    pub open spec fn label_position(&self, label: Seq<char>) -> Option<int> {
        last_named(self@, label)
    }

    /// Whether every jump of the script targets a label that a block has.
    pub open spec fn jumps_resolve(&self) -> bool {
        forall|b: int, k: int|
            0 <= b < self@.len() && 0 <= k < self@[b].instructions@.len()
                ==> match jump_target(#[trigger] self@[b].instructions@[k]) {
                    Some(l) => self.label_position(l) is Some,
                    None => true,
                }
    }

    /// A script made of `blocks`.
    pub fn new(blocks: Vec<Block>) -> (r: ScriptObject)
        requires
            well_placed(blocks@),
        ensures
            r@ == blocks@,
    {
        ScriptObject { blocks }
    }

    /// Its blocks are well placed.
    pub(crate) fn blocks_are_well_placed(&self)
        ensures
            well_placed(self@),
    {
        proof {
            use_type_invariant(self);
        }
    }

    /// The block at the given position.
    pub fn get_block_by_index(&self, current_block: usize) -> (r: Option<&Block>)
        ensures
            match r {
                Some(b) => current_block < self@.len() && *b == self@[current_block as int],
                None => current_block >= self@.len(),
            },
    {
        if current_block < self.blocks.len() {
            Some(&self.blocks[current_block])
        } else {
            None
        }
    }

    /// The block with the given label (the last one, were two to share it).
    pub fn get_block_by_label(&self, label: &str) -> (r: Option<&Block>)
        ensures
            match r {
                Some(b) => self.label_position(label@) is Some
                    && *b == self@[self.label_position(label@)->0],
                None => self.label_position(label@) is None,
            },
    {
        match self.position_of_label(label) {
            Some(i) => Some(&self.blocks[i]),
            None => None,
        }
    }

    /// The position of the block with the given label.
    pub fn position_of_label(&self, label: &str) -> (r: Option<usize>)
        ensures
            match r {
                Some(i) => self.label_position(label@) == Some(i as int) && i < self@.len()
                    && self@[i as int].name@ == label@,
                None => self.label_position(label@) is None
                    && forall|i: int| 0 <= i < self@.len() ==> #[trigger] self@[i].name@ != label@,
            },
    {
        proof {
            lemma_last_named_in_range(self@, label@);
        }
        let wanted: String = label.to_owned();
        let mut i: usize = self.blocks.len();
        assert(self.blocks@.take(i as int) =~= self.blocks@);
        while i > 0
            invariant
                i <= self.blocks@.len(),
                wanted@ == label@,
                last_named(self.blocks@, label@) == last_named(self.blocks@.take(i as int), label@),
            decreases i,
        {
            let ghost prefix = self.blocks@.take(i as int);
            assert(prefix.drop_last() =~= self.blocks@.take(i - 1));
            if self.blocks[i - 1].name == wanted {
                return Some(i - 1);
            }
            i = i - 1;
        }
        None
    }

    /// The block after the given one, in the order of the script.
    pub fn get_next(&self, current_block: &Block) -> (r: Option<&Block>)
        ensures
            match r {
                Some(b) => current_block.index + 1 < self@.len()
                    && *b == self@[current_block.index + 1],
                None => current_block.index + 1 >= self@.len(),
            },
    {
        let curr_index = current_block.index;
        if curr_index < self.blocks.len() && curr_index + 1 < self.blocks.len() {
            Some(&self.blocks[curr_index + 1])
        } else {
            None
        }
    }

    /// Checks that the script is valid: every jump targets an existing block.
    pub fn validate(&self) -> (r: Result<(), ScriptObjectValidationError>)
        ensures
            r is Ok <==> self.jumps_resolve(),
    {
        if !self.all_jumps_have_valid_anchors() {
            Err(ScriptObjectValidationError::InvalidJumps)
        } else {
            Ok(())
        }
    }

    /// Whether every jump targets an existing block.
    pub fn all_jumps_have_valid_anchors(&self) -> (r: bool)
        ensures
            r == self.jumps_resolve(),
    {
        let mut b: usize = 0;
        while b < self.blocks.len()
            invariant
                b <= self@.len(),
                forall|c: int, k: int|
                    0 <= c < b && 0 <= k < self@[c].instructions@.len()
                        ==> match jump_target(#[trigger] self@[c].instructions@[k]) {
                            Some(l) => self.label_position(l) is Some,
                            None => true,
                        },
            decreases self@.len() - b,
        {
            let instructions = &self.blocks[b].instructions;
            let mut k: usize = 0;
            while k < instructions.len()
                invariant
                    b < self@.len(),
                    *instructions == self@[b as int].instructions,
                    k <= instructions@.len(),
                    forall|c: int, j: int|
                        0 <= c < b && 0 <= j < self@[c].instructions@.len()
                            ==> match jump_target(#[trigger] self@[c].instructions@[j]) {
                                Some(l) => self.label_position(l) is Some,
                                None => true,
                            },
                    forall|j: int|
                        0 <= j < k ==> match jump_target(#[trigger] instructions@[j]) {
                            Some(l) => self.label_position(l) is Some,
                            None => true,
                        },
                decreases instructions@.len() - k,
            {
                match &instructions[k] {
                    Instruction::Jump(label) | Instruction::JumpIfZero(label) | Instruction::JumpIfNegative(label) => {
                        if self.position_of_label(label.as_str()).is_none() {
                            assert(jump_target(self@[b as int].instructions@[k as int]) == Some(label@));
                            return false;
                        }
                    },
                    _ => {},
                }
                k = k + 1;
            }
            b = b + 1;
        }
        true
    }
}

/// Error that can occur when parsing a script.
#[derive(Debug)]
pub enum ParseScriptObjectError {
    /// The line numbered `line` (from 1), trimmed, is not an instruction.
    InvalidInstruction { line: usize, instruction: String, error: ParseInstructionError },
}

/// How a trimmed line of a script is read.
pub enum LineKind {
    /// A title, an empty line or a comment.
    Skip,
    /// The start of the label and comment definitions, which end the code.
    Stop,
    /// The start of a block with the given name.
    Label(Seq<char>),
    /// An instruction.
    Code,
}

/// How the trimmed line `t` is read; a comment marker wins over the others.
pub open spec fn line_kind(t: Seq<char>) -> LineKind {
    if starts_with(t, "--"@) || t.len() == 0 || contains_text(t, "COMMENT"@) {
        LineKind::Skip
    } else if starts_with(t, "DEFINE"@) {
        LineKind::Stop
    } else if t.contains(':') {
        LineKind::Label(before_first(t, ':'))
    } else {
        LineKind::Code
    }
}

/// A block as the text describes it: its name and its code lines (each with its
/// position among the lines, and its text trimmed).
pub struct BlockModel {
    pub name: Seq<char>,
    pub code: Seq<(int, Seq<char>)>,
}

/// The blocks described by the first lines of a script, and whether a `DEFINE` ended the code.
pub struct ScriptModel {
    pub blocks: Seq<BlockModel>,
    pub stopped: bool,
}

/// What the first `n` of the lines `ls` describe.
pub open spec fn read_lines(ls: Seq<Seq<char>>, n: nat) -> ScriptModel
    decreases n,
{
    if n == 0 {
        ScriptModel { blocks: seq![BlockModel { name: "entry"@, code: seq![] }], stopped: false }
    } else {
        let m = read_lines(ls, (n - 1) as nat);
        if m.stopped {
            m
        } else {
            let t = trim_spaces(ls[n - 1]);
            match line_kind(t) {
                LineKind::Skip => m,
                LineKind::Stop => ScriptModel { blocks: m.blocks, stopped: true },
                LineKind::Label(name) => ScriptModel {
                    blocks: m.blocks.push(BlockModel { name, code: seq![] }),
                    stopped: false,
                },
                LineKind::Code => ScriptModel {
                    blocks: m.blocks.update(
                        m.blocks.len() - 1,
                        BlockModel { name: m.blocks.last().name, code: m.blocks.last().code.push(((n - 1) as int, t)) },
                    ),
                    stopped: false,
                },
            }
        }
    }
}

/// The blocks that the script text `s` describes.
pub open spec fn script_model(s: Seq<char>) -> Seq<BlockModel> {
    read_lines(split_lines(s), split_lines(s).len()).blocks
}

/// Whether line `i` of `ls` is a line of code that is read.
pub open spec fn is_code_line(ls: Seq<Seq<char>>, i: int) -> bool {
    0 <= i < ls.len() && !read_lines(ls, i as nat).stopped && line_kind(trim_spaces(ls[i])) is Code
}

/// Whether block `b` is what the model `m` describes.
pub open spec fn block_builds(b: Block, m: BlockModel) -> bool {
    &&& b.name@ == m.name
    &&& b.instructions@.len() == m.code.len()
    &&& forall|j: int| 0 <= j < m.code.len() ==> parse_result(collapsed(#[trigger] m.code[j].1), Ok(b.instructions@[j]))
}

/// Whether `blocks` are what the models `m` describe, each at its position.
pub open spec fn blocks_build(blocks: Seq<Block>, m: Seq<BlockModel>) -> bool {
    &&& blocks.len() == m.len()
    &&& forall|k: int| 0 <= k < m.len() ==> block_builds(#[trigger] blocks[k], m[k]) && blocks[k].index == k
}

proof fn lemma_read_lines_nonempty(ls: Seq<Seq<char>>, n: nat)
    ensures
        read_lines(ls, n).blocks.len() >= 1,
    decreases n,
{
    if n > 0 {
        lemma_read_lines_nonempty(ls, (n - 1) as nat);
    }
}

proof fn lemma_read_lines_stays_stopped(ls: Seq<Seq<char>>, a: nat, b: nat)
    requires
        a <= b,
        read_lines(ls, a).stopped,
    ensures
        read_lines(ls, b) == read_lines(ls, a),
    decreases b - a,
{
    if a < b {
        lemma_read_lines_stays_stopped(ls, a, (b - 1) as nat);
    }
}

impl ScriptObject {
    /// Reads a script. Lines are trimmed; titles (`--`), empty lines and comments are
    /// skipped; a line starting with `DEFINE` ends the code; a line with a `:` starts a
    /// block named by what precedes it; any other line is an instruction of the current
    /// block, the first block being `entry`.
    pub fn from_str(s: &str) -> (r: Result<ScriptObject, ParseScriptObjectError>)
        ensures
            ({
                let ls = split_lines(s@);
                match r {
                    Ok(script) => blocks_build(script@, script_model(s@)),
                    Err(ParseScriptObjectError::InvalidInstruction { line, instruction, error }) => {
                        &&& 1 <= line <= ls.len()
                        &&& is_code_line(ls, line - 1)
                        &&& instruction@ == trim_spaces(ls[line - 1])
                        &&& parse_result(collapsed(instruction@), Err(error))
                        &&& forall|i: int| 0 <= i < line - 1 && #[trigger] is_code_line(ls, i)
                            ==> parse_ok(collapsed(trim_spaces(ls[i])))
                    },
                }
            }),
    {
        proof {
            reveal_strlit("entry");
            reveal_strlit("--");
            reveal_strlit("COMMENT");
            reveal_strlit("DEFINE");
        }
        let chars = chars_of(s);
        let spans = line_spans(&chars);
        let ghost ls = split_lines(s@);
        let mut done: Vec<Block> = Vec::new();
        let mut name: String = String::from_str("entry");
        let mut code: Vec<Instruction> = Vec::new();
        let mut i: usize = 0;
        while i < spans.len()
            invariant
                i <= spans@.len(),
                ls == split_lines(s@),
                chars@ == s@,
                spans@.len() == ls.len(),
                forall|k: int| 0 <= k < spans@.len() ==> (#[trigger] spans@[k]).0 <= spans@[k].1 <= chars@.len(),
                forall|k: int| 0 <= k < spans@.len() ==> #[trigger] ls[k] == chars@.subrange(spans@[k].0 as int, spans@[k].1 as int),
                !read_lines(ls, i as nat).stopped,
                ({
                    let m = read_lines(ls, i as nat).blocks;
                    &&& m.len() == done@.len() + 1
                    &&& forall|k: int| 0 <= k < done@.len() ==> block_builds(#[trigger] done@[k], m[k]) && done@[k].index == k
                    &&& block_builds(Block { name, index: done.len(), instructions: code }, m.last())
                }),
                forall|j: int| 0 <= j < i && #[trigger] is_code_line(ls, j) ==> parse_ok(collapsed(trim_spaces(ls[j]))),
            ensures
                read_lines(ls, ls.len()).blocks == read_lines(ls, i as nat).blocks,
            decreases spans@.len() - i,
        {
            let ghost m = read_lines(ls, i as nat);
            proof {
                lemma_read_lines_nonempty(ls, i as nat);
            }
            let (a, b) = spans[i];
            let (c, d) = trimmed_bounds(&chars, a, b, None, None);
            let ghost t = chars@.subrange(c as int, d as int);
            assert(t == trim_spaces(ls[i as int]));
            if has_prefix(&chars, c, d, "--") || c == d || has_infix(&chars, c, d, "COMMENT") {
                assert(line_kind(t) is Skip);
            } else if has_prefix(&chars, c, d, "DEFINE") {
                assert(line_kind(t) is Stop);
                assert(read_lines(ls, (i + 1) as nat).stopped);
                proof {
                    lemma_read_lines_stays_stopped(ls, (i + 1) as nat, ls.len());
                }
                break;
            } else {
                match find_char(&chars, c, d, ':') {
                    Some(colon) => {
                        assert(line_kind(t) == LineKind::Label(chars@.subrange(c as int, colon as int)));
                        let index = done.len();
                        done.push(Block { name, index, instructions: code });
                        name = string_of(&chars, c, colon);
                        code = Vec::new();
                        proof {
                            let m2 = read_lines(ls, (i + 1) as nat).blocks;
                            assert(m2 == m.blocks.push(BlockModel { name: name@, code: seq![] }));
                            assert forall|k: int| 0 <= k < done@.len() implies block_builds(#[trigger] done@[k], m2[k]) && done@[k].index == k by {
                                if k < done@.len() - 1 {
                                    assert(m2[k] == m.blocks[k]);
                                }
                            }
                        }
                    },
                    None => {
                        assert(line_kind(t) is Code);
                        let line_text = string_of(&chars, c, d);
                        match Instruction::from_str(line_text.as_str()) {
                            Ok(instruction) => {
                                proof {
                                    lemma_parse_ok(collapsed(t), Ok(instruction));
                                }
                                code.push(instruction);
                                proof {
                                    let m2 = read_lines(ls, (i + 1) as nat).blocks;
                                    let last = m.blocks.len() - 1;
                                    assert(m2 == m.blocks.update(last, BlockModel { name: m.blocks.last().name, code: m.blocks.last().code.push((i as int, t)) }));
                                    assert forall|k: int| 0 <= k < done@.len() implies block_builds(#[trigger] done@[k], m2[k]) && done@[k].index == k by {
                                        assert(m2[k] == m.blocks[k]);
                                    }
                                    assert forall|j: int| 0 <= j < m2.last().code.len() implies parse_result(collapsed(#[trigger] m2.last().code[j].1), Ok(code@[j])) by {
                                        if j < m2.last().code.len() - 1 {
                                            assert(m2.last().code[j] == m.blocks.last().code[j]);
                                        }
                                    }
                                }
                            },
                            Err(error) => {
                                proof {
                                    lemma_parse_ok(collapsed(t), Err(error));
                                }
                                return Err(ParseScriptObjectError::InvalidInstruction { line: i + 1, instruction: line_text, error });
                            },
                        }
                    },
                }
            }
            i = i + 1;
        }
        let index = done.len();
        done.push(Block { name, index, instructions: code });
        Ok(ScriptObject::new(done))
    }
}

} // verus!
