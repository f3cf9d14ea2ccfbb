//! The eleven instructions, and how one line of a script is read as one of them.
use vstd::prelude::*;
use crate::text::{chars_of, is_space, is_space_char, is_word, string_of};
use super::value_box::{ParseValueBoxMemoryAddressError, ValueBoxMemoryAddress, without_spaces};

verus! {

/// One line of code of a script: an operation and, for most, an operand.
///
/// The instruction does not say how it is executed: that is the interpreter's job.
#[derive(Debug, PartialEq)]
pub enum Instruction {
    /// Read the next input value into the head.
    In,
    /// Drop the head on the output belt.
    Out,
    /// Copy the value at the given address to the head.
    CopyFrom(ValueBoxMemoryAddress),
    /// Copy the head to the given address.
    CopyTo(ValueBoxMemoryAddress),
    /// Add the value at the given address to the head.
    Add(ValueBoxMemoryAddress),
    /// Subtract the value at the given address from the head (head - value).
    Sub(ValueBoxMemoryAddress),
    /// Add 1 to the value at the given address; the result goes there and to the head.
    BumpUp(ValueBoxMemoryAddress),
    /// Subtract 1 from the value at the given address; the result goes there and to the head.
    BumpDown(ValueBoxMemoryAddress),
    /// Jump to the given block.
    Jump(String),
    /// Jump to the given block if the head is the number zero.
    JumpIfZero(String),
    /// Jump to the given block if the head is a negative number.
    JumpIfNegative(String),
}

/// Error that can occur when parsing an instruction.
#[derive(Debug)]
pub enum ParseInstructionError {
    /// More than two words on the line (the words).
    TooMuchParts(Vec<String>),
    /// Not an instruction (the line, its whitespace collapsed).
    InvalidInstruction(String),
    /// The instruction's address operand is not an address.
    InvalidMemoryAddress(ParseValueBoxMemoryAddressError),
}

/// What `collapse::collapse` returns for `s`.
pub uninterp spec fn collapsed(s: Seq<char>) -> Seq<char>;

/// Relies on `collapse::collapse`: `s` trimmed, each run of whitespace made one space.
#[verifier::external_body]
fn collapse_whitespace(s: &str) -> (r: String)
    ensures
        r@ == collapsed(s@),
{
    collapse::collapse(s)
}

/// The whitespace-separated words of `s`, as `str::split_whitespace` yields them.
pub open spec fn words(s: Seq<char>) -> Seq<Seq<char>>
    decreases s.len(),
{
    if s.len() == 0 {
        seq![]
    } else if is_space(s.last()) {
        words(s.drop_last())
    } else {
        let w = words(s.drop_last());
        if s.len() >= 2 && !is_space(s[s.len() - 2]) {
            w.update(w.len() - 1, w.last().push(s.last()))
        } else {
            w.push(seq![s.last()])
        }
    }
}

/// The pieces of `s` that `spans` bound.
pub open spec fn span_words(s: Seq<char>, spans: Seq<(usize, usize)>) -> Seq<Seq<char>> {
    spans.map_values(|p: (usize, usize)| s.subrange(p.0 as int, p.1 as int))
}

/// The bounds of the whitespace-separated words of `s`.
fn word_spans(s: &Vec<char>) -> (r: Vec<(usize, usize)>)
    ensures
        span_words(s@, r@) == words(s@),
        forall|k: int| 0 <= k < r@.len() ==> (#[trigger] r@[k]).0 <= r@[k].1 <= s@.len(),
{
    let mut spans: Vec<(usize, usize)> = Vec::new();
    let mut i: usize = 0;
    while i < s.len()
        invariant
            i <= s@.len(),
            span_words(s@, spans@) == words(s@.take(i as int)),
            forall|k: int| 0 <= k < spans@.len() ==> (#[trigger] spans@[k]).0 <= spans@[k].1 <= i,
            i > 0 && !is_space(s@[i - 1]) ==> spans@.len() > 0 && spans@.last().1 == i,
        decreases s@.len() - i,
    {
        let ghost before = s@.take(i as int);
        let ghost after = s@.take(i as int + 1);
        assert(after.drop_last() =~= before);
        if is_space_char(s[i]) {
            i = i + 1;
        } else if i > 0 && !is_space_char(s[i - 1]) {
            let last = spans.len() - 1;
            let (a, b) = spans[last];
            proof {
                assert(after[after.len() - 2] == s@[i - 1]);
                assert(s@.subrange(a as int, b as int + 1) =~= s@.subrange(a as int, b as int).push(s@[i as int]));
            }
            spans.set(last, (a, b + 1));
            i = i + 1;
            assert(span_words(s@, spans@) =~= words(s@.take(i as int)));
        } else {
            spans.push((i, i + 1));
            i = i + 1;
            proof {
                assert(s@.subrange(i - 1, i as int) =~= seq![s@[i - 1]]);
                if i >= 2 {
                    assert(after[after.len() - 2] == s@[i - 2]);
                }
            }
            assert(span_words(s@, spans@) =~= words(s@.take(i as int)));
        }
    }
    assert(s@.take(s@.len() as int) =~= s@);
    spans
}

/// The operations that take no operand.
pub open spec fn is_plain_op(w: Seq<char>) -> bool {
    w == "INBOX"@ || w == "OUTBOX"@
}

/// The operations that take an address operand.
pub open spec fn is_address_op(w: Seq<char>) -> bool {
    w == "COPYFROM"@ || w == "COPYTO"@ || w == "ADD"@ || w == "SUB"@ || w == "BUMPUP"@
        || w == "BUMPDN"@
}

/// The operations that take a label operand.
pub open spec fn is_label_op(w: Seq<char>) -> bool {
    w == "JUMP"@ || w == "JUMPZ"@ || w == "JUMPN"@
}

/// Whether `i` is the instruction that the words `w` spell.
pub open spec fn spells(w: Seq<Seq<char>>, i: Instruction) -> bool {
    match i {
        Instruction::In => w == seq!["INBOX"@],
        Instruction::Out => w == seq!["OUTBOX"@],
        Instruction::CopyFrom(a) => w.len() == 2 && w[0] == "COPYFROM"@ && ValueBoxMemoryAddress::parsed(w[1]) == Ok::<ValueBoxMemoryAddress, bool>(a),
        Instruction::CopyTo(a) => w.len() == 2 && w[0] == "COPYTO"@ && ValueBoxMemoryAddress::parsed(w[1]) == Ok::<ValueBoxMemoryAddress, bool>(a),
        Instruction::Add(a) => w.len() == 2 && w[0] == "ADD"@ && ValueBoxMemoryAddress::parsed(w[1]) == Ok::<ValueBoxMemoryAddress, bool>(a),
        Instruction::Sub(a) => w.len() == 2 && w[0] == "SUB"@ && ValueBoxMemoryAddress::parsed(w[1]) == Ok::<ValueBoxMemoryAddress, bool>(a),
        Instruction::BumpUp(a) => w.len() == 2 && w[0] == "BUMPUP"@ && ValueBoxMemoryAddress::parsed(w[1]) == Ok::<ValueBoxMemoryAddress, bool>(a),
        Instruction::BumpDown(a) => w.len() == 2 && w[0] == "BUMPDN"@ && ValueBoxMemoryAddress::parsed(w[1]) == Ok::<ValueBoxMemoryAddress, bool>(a),
        Instruction::Jump(l) => w.len() == 2 && w[0] == "JUMP"@ && l@ == w[1],
        Instruction::JumpIfZero(l) => w.len() == 2 && w[0] == "JUMPZ"@ && l@ == w[1],
        Instruction::JumpIfNegative(l) => w.len() == 2 && w[0] == "JUMPN"@ && l@ == w[1],
    }
}

/// Whether the words `w` have the shape of an instruction: an operation with the
/// operand that it takes.
pub open spec fn has_instruction_shape(w: Seq<Seq<char>>) -> bool {
    ||| w.len() == 1 && is_plain_op(w[0])
    ||| w.len() == 2 && (is_address_op(w[0]) || is_label_op(w[0]))
}

/// Whether `r` is what reading the line `s` gives.
pub open spec fn parse_result(s: Seq<char>, r: Result<Instruction, ParseInstructionError>) -> bool {
    let w = words(s);
    match r {
        Ok(i) => spells(w, i),
        Err(ParseInstructionError::TooMuchParts(p)) => w.len() > 2 && p@.len() == w.len()
            && forall|k: int| 0 <= k < w.len() ==> #[trigger] p@[k]@ == w[k],
        Err(ParseInstructionError::InvalidInstruction(t)) => w.len() <= 2
            && !has_instruction_shape(w) && t@ == s,
        Err(ParseInstructionError::InvalidMemoryAddress(e)) => w.len() == 2 && is_address_op(w[0])
            && e.explains(w[1]),
    }
}

/// Whether reading the line `s` succeeds.
pub open spec fn parse_ok(s: Seq<char>) -> bool {
    let w = words(s);
    &&& has_instruction_shape(w)
    &&& (w.len() == 2 && is_address_op(w[0]) ==> ValueBoxMemoryAddress::parsed(w[1]) is Ok)
}

/// Reading a line succeeds exactly where `parse_ok` says.
pub proof fn lemma_parse_ok(s: Seq<char>, r: Result<Instruction, ParseInstructionError>)
    requires
        parse_result(s, r),
    ensures
        r is Ok <==> parse_ok(s),
{
    reveal_strlit("INBOX");
    reveal_strlit("OUTBOX");
    reveal_strlit("COPYFROM");
    reveal_strlit("COPYTO");
    reveal_strlit("ADD");
    reveal_strlit("SUB");
    reveal_strlit("BUMPUP");
    reveal_strlit("BUMPDN");
    reveal_strlit("JUMP");
    reveal_strlit("JUMPZ");
    reveal_strlit("JUMPN");
    let w = words(s);
    match r {
        Ok(i) => {
            match i {
                Instruction::In => assert(w.len() == 1 && w[0] == "INBOX"@),
                Instruction::Out => assert(w.len() == 1 && w[0] == "OUTBOX"@),
                Instruction::Jump(_) => {
                    assert("JUMP"@.len() == 4);
                    assert(!is_address_op("JUMP"@));
                },
                Instruction::JumpIfZero(_) => {
                    assert("JUMPZ"@.len() == 5);
                    assert(!is_address_op("JUMPZ"@));
                },
                Instruction::JumpIfNegative(_) => {
                    assert("JUMPN"@.len() == 5);
                    assert(!is_address_op("JUMPN"@));
                },
                _ => {},
            }
        },
        Err(_) => {},
    }
}

impl Instruction {
    /// Reads a line whose whitespace is already collapsed.
    pub fn from_collapsed(s: &str) -> (r: Result<Instruction, ParseInstructionError>)
        ensures
            parse_result(s@, r),
    {
        proof {
            reveal_strlit("INBOX");
            reveal_strlit("OUTBOX");
            reveal_strlit("COPYFROM");
            reveal_strlit("COPYTO");
            reveal_strlit("ADD");
            reveal_strlit("SUB");
            reveal_strlit("BUMPUP");
            reveal_strlit("BUMPDN");
            reveal_strlit("JUMP");
            reveal_strlit("JUMPZ");
            reveal_strlit("JUMPN");
        }
        let chars = chars_of(s);
        let spans = word_spans(&chars);
        let ghost w = words(s@);
        assert(forall|k: int| 0 <= k < spans@.len() ==> #[trigger] w[k] == chars@.subrange(spans@[k].0 as int, spans@[k].1 as int));
        if spans.len() > 2 {
            let mut parts: Vec<String> = Vec::new();
            let mut k: usize = 0;
            while k < spans.len()
                invariant
                    k <= spans@.len(),
                    w == words(s@),
                    w.len() == spans@.len(),
                    parts@.len() == k,
                    forall|j: int| 0 <= j < spans@.len() ==> (#[trigger] spans@[j]).0 <= spans@[j].1 <= chars@.len(),
                    forall|j: int| 0 <= j < spans@.len() ==> #[trigger] w[j] == chars@.subrange(spans@[j].0 as int, spans@[j].1 as int),
                    forall|j: int| 0 <= j < k ==> #[trigger] parts@[j]@ == w[j],
                decreases spans@.len() - k,
            {
                let (a, b) = spans[k];
                parts.push(string_of(&chars, a, b));
                k = k + 1;
            }
            return Err(ParseInstructionError::TooMuchParts(parts));
        }
        let ghost line = s@;
        if spans.len() == 1 {
            let (a, b) = spans[0];
            if is_word(&chars, a, b, "INBOX") {
                assert(w =~= seq!["INBOX"@]);
                return Ok(Instruction::In);
            } else if is_word(&chars, a, b, "OUTBOX") {
                assert(w =~= seq!["OUTBOX"@]);
                return Ok(Instruction::Out);
            }
        } else if spans.len() == 2 {
            let (a, b) = spans[0];
            let (c, d) = spans[1];
            let is_copy_from = is_word(&chars, a, b, "COPYFROM");
            let is_copy_to = is_word(&chars, a, b, "COPYTO");
            let is_add = is_word(&chars, a, b, "ADD");
            let is_sub = is_word(&chars, a, b, "SUB");
            let is_bump_up = is_word(&chars, a, b, "BUMPUP");
            let is_bump_down = is_word(&chars, a, b, "BUMPDN");
            if is_copy_from || is_copy_to || is_add || is_sub || is_bump_up || is_bump_down {
                let operand = string_of(&chars, c, d);
                let address = match ValueBoxMemoryAddress::from_str(operand.as_str()) {
                    Ok(address) => address,
                    Err(e) => return Err(ParseInstructionError::InvalidMemoryAddress(e)),
                };
                if is_copy_from {
                    return Ok(Instruction::CopyFrom(address));
                } else if is_copy_to {
                    return Ok(Instruction::CopyTo(address));
                } else if is_add {
                    return Ok(Instruction::Add(address));
                } else if is_sub {
                    return Ok(Instruction::Sub(address));
                } else if is_bump_up {
                    return Ok(Instruction::BumpUp(address));
                } else {
                    return Ok(Instruction::BumpDown(address));
                }
            }
            if is_word(&chars, a, b, "JUMP") {
                return Ok(Instruction::Jump(string_of(&chars, c, d)));
            } else if is_word(&chars, a, b, "JUMPZ") {
                return Ok(Instruction::JumpIfZero(string_of(&chars, c, d)));
            } else if is_word(&chars, a, b, "JUMPN") {
                return Ok(Instruction::JumpIfNegative(string_of(&chars, c, d)));
            }
        }
        let n = chars.len();
        assert(chars@.subrange(0, n as int) =~= chars@);
        Err(ParseInstructionError::InvalidInstruction(string_of(&chars, 0, n)))
    }

    /// Reads one line of a script: its whitespace is collapsed, then its words are
    /// an operation and, for most, an operand.
    pub fn from_str(s: &str) -> (r: Result<Instruction, ParseInstructionError>)
        ensures
            parse_result(collapsed(s@), r),
    {
        let line = collapse_whitespace(s);
        Instruction::from_collapsed(line.as_str())
    }
}

} // verus!
