//! The values that the machine moves around, and the address operands of instructions.
use vstd::prelude::*;
use crate::text::{
    chars_of, decimal_string, decimal_text, i32_numeral, is_space, is_space_char, parse_i32,
    parse_usize, string_of, usize_numeral,
};

verus! {

/// A value that can be held, read, written or output: a number or a character.
/// In the game, values are like cardboard boxes.
#[derive(Copy, Clone, PartialEq, Eq, Debug, Structural)]
pub enum ValueBox {
    Number(i32),
    Character(char),
}

/// The address operand of an instruction.
///
/// - `Pointer(2)` is direct: the tile at address 2.
/// - `PointerAddress(2)` is indirect: the tile whose address is the number held at address 2.
#[derive(Copy, Clone, PartialEq, Eq, Debug, Structural)]
pub enum ValueBoxMemoryAddress {
    Pointer(usize),
    PointerAddress(usize),
}

/// Error that can occur when parsing a `ValueBox`.
#[derive(Debug)]
pub enum ParseValueBoxError {
    /// Neither a number nor a single character (the text without its spaces).
    TooManyCharacters(String),
}

/// Error that can occur when parsing a `ValueBoxMemoryAddress`.
#[derive(Debug)]
pub enum ParseValueBoxMemoryAddressError {
    /// Not a non-negative integer (the text without its spaces).
    InvalidPointer(String),
    /// Brackets around something that is not a non-negative integer (the text without its spaces).
    InvalidPointerAddress(String),
}

impl From<i32> for ValueBox {
    fn from(value: i32) -> (r: Self)
        ensures
            r == ValueBox::Number(value),
    {
        ValueBox::Number(value)
    }
}

impl vstd::std_specs::convert::FromSpecImpl<i32> for ValueBox {
    open spec fn obeys_from_spec() -> bool {
        true
    }

    open spec fn from_spec(v: i32) -> Self {
        ValueBox::Number(v)
    }
}

impl From<char> for ValueBox {
    fn from(value: char) -> (r: Self)
        ensures
            r == ValueBox::Character(value),
    {
        ValueBox::Character(value)
    }
}

impl vstd::std_specs::convert::FromSpecImpl<char> for ValueBox {
    open spec fn obeys_from_spec() -> bool {
        true
    }

    open spec fn from_spec(v: char) -> Self {
        ValueBox::Character(v)
    }
}

/// `s` with every space character `' '` taken out.
pub open spec fn without_spaces(s: Seq<char>) -> Seq<char>
    decreases s.len(),
{
    if s.len() == 0 {
        s
    } else if s.last() == ' ' {
        without_spaces(s.drop_last())
    } else {
        without_spaces(s.drop_last()).push(s.last())
    }
}

fn remove_spaces(s: &Vec<char>) -> (r: Vec<char>)
    ensures
        r@ == without_spaces(s@),
{
    let mut r: Vec<char> = Vec::new();
    let mut i: usize = 0;
    while i < s.len()
        invariant
            i <= s@.len(),
            r@ == without_spaces(s@.take(i as int)),
        decreases s@.len() - i,
    {
        assert(s@.take(i as int + 1).drop_last() =~= s@.take(i as int));
        if s[i] != ' ' {
            r.push(s[i]);
        }
        i = i + 1;
    }
    assert(s@.take(s@.len() as int) =~= s@);
    r
}

impl ValueBox {
    /// How the value is written: a number in decimal, a character as itself.
    pub open spec fn text(self) -> Seq<char> {
        match self {
            ValueBox::Number(n) => decimal_text(n as int),
            ValueBox::Character(c) => seq![c],
        }
    }

    /// What `from_str` makes of `s`.
    pub open spec fn parsed(s: Seq<char>) -> Option<ValueBox> {
        let t = without_spaces(s);
        match i32_numeral(t) {
            Some(n) => Some(ValueBox::Number(n)),
            None => if t.len() == 1 && (t[0] as u32) < 128 {
                Some(ValueBox::Character(t[0]))
            } else {
                None
            },
        }
    }

    /// The value written as text.
    pub fn to_string(&self) -> (r: String)
        ensures
            r@ == self.text(),
    {
        match self {
            ValueBox::Number(n) => decimal_string(*n),
            ValueBox::Character(c) => {
                let v = vec![*c];
                let r = string_of(&v, 0, 1);
                assert(v@.subrange(0, 1) =~= seq![*c]);
                r
            },
        }
    }

    /// Reads a value, spaces ignored: an `i32` numeral is a number, and otherwise one
    /// ASCII character is a character.
    pub fn from_str(s: &str) -> (r: Result<ValueBox, ParseValueBoxError>)
        ensures
            match r {
                Ok(v) => ValueBox::parsed(s@) == Some(v),
                Err(ParseValueBoxError::TooManyCharacters(t)) => ValueBox::parsed(s@) is None
                    && t@ == without_spaces(s@),
            },
    {
        let chars = chars_of(s);
        let t = remove_spaces(&chars);
        match parse_i32(&t) {
            Some(n) => Ok(ValueBox::Number(n)),
            None => {
                if t.len() == 1 && (t[0] as u32) < 128 {
                    Ok(ValueBox::Character(t[0]))
                } else {
                    Err(ParseValueBoxError::TooManyCharacters(string_of(&t, 0, t.len())))
                }
            },
        }
    }
}

/// Whether `x` is trimmed by `sel`: the character `c` for `Some(c)`, any whitespace for `None`.
pub open spec fn trimmed_by(x: char, sel: Option<char>) -> bool {
    match sel {
        Some(c) => x == c,
        None => is_space(x),
    }
}

fn is_trimmed_by(x: char, sel: Option<char>) -> (r: bool)
    ensures
        r == trimmed_by(x, sel),
{
    match sel {
        Some(c) => x == c,
        None => is_space_char(x),
    }
}

/// `s` without its leading characters that `sel` trims.
pub open spec fn trim_front(s: Seq<char>, sel: Option<char>) -> Seq<char>
    decreases s.len(),
{
    if s.len() > 0 && trimmed_by(s[0], sel) {
        trim_front(s.drop_first(), sel)
    } else {
        s
    }
}

/// `s` without its trailing characters that `sel` trims.
pub open spec fn trim_back(s: Seq<char>, sel: Option<char>) -> Seq<char>
    decreases s.len(),
{
    if s.len() > 0 && trimmed_by(s.last(), sel) {
        trim_back(s.drop_last(), sel)
    } else {
        s
    }
}

/// `s` without its leading and trailing whitespace, as `str::trim` leaves it.
pub open spec fn trim_spaces(s: Seq<char>) -> Seq<char> {
    trim_back(trim_front(s, None), None)
}

/// The bounds of `s[lo..hi]` once trimmed at the front by `front` and then at the back by `back`.
pub fn trimmed_bounds(s: &Vec<char>, lo: usize, hi: usize, front: Option<char>, back: Option<char>) -> (r: (usize, usize))
    requires
        lo <= hi <= s@.len(),
    ensures
        lo <= r.0 <= r.1 <= hi,
        s@.subrange(r.0 as int, r.1 as int) == trim_back(
            trim_front(s@.subrange(lo as int, hi as int), front),
            back,
        ),
{
    let mut from = lo;
    while from < hi && is_trimmed_by(s[from], front)
        invariant
            lo <= from <= hi <= s@.len(),
            trim_front(s@.subrange(lo as int, hi as int), front) == trim_front(
                s@.subrange(from as int, hi as int),
                front,
            ),
        decreases hi - from,
    {
        assert(s@.subrange(from as int, hi as int).drop_first() =~= s@.subrange(
            from as int + 1,
            hi as int,
        ));
        from = from + 1;
    }
    let ghost a = s@.subrange(from as int, hi as int);
    let mut to = hi;
    while to > from && is_trimmed_by(s[to - 1], back)
        invariant
            lo <= from <= to <= hi <= s@.len(),
            a == s@.subrange(from as int, hi as int),
            trim_back(a, back) == trim_back(s@.subrange(from as int, to as int), back),
        decreases to - from,
    {
        assert(s@.subrange(from as int, to as int).drop_last() =~= s@.subrange(
            from as int,
            to as int - 1,
        ));
        to = to - 1;
    }
    (from, to)
}

impl ParseValueBoxMemoryAddressError {
    /// Whether this is the error that reading `s` as an address gives.
    pub open spec fn explains(&self, s: Seq<char>) -> bool {
        match self {
            ParseValueBoxMemoryAddressError::InvalidPointer(t) => ValueBoxMemoryAddress::parsed(s)
                == Err::<ValueBoxMemoryAddress, bool>(false) && t@ == without_spaces(s),
            ParseValueBoxMemoryAddressError::InvalidPointerAddress(t) =>
                ValueBoxMemoryAddress::parsed(s) == Err::<ValueBoxMemoryAddress, bool>(true)
                && t@ == without_spaces(s),
        }
    }
}

impl ValueBoxMemoryAddress {
    /// What `from_str` makes of `s`; `Err(true)` where brackets were seen.
    pub open spec fn parsed(s: Seq<char>) -> Result<ValueBoxMemoryAddress, bool> {
        let t = without_spaces(s);
        if t.len() > 0 && t[0] == '[' && t.last() == ']' {
            let inner = trim_spaces(trim_back(trim_front(t, Some('[')), Some(']')));
            match usize_numeral(inner) {
                Some(a) => Ok(ValueBoxMemoryAddress::PointerAddress(a)),
                None => Err(true),
            }
        } else {
            match usize_numeral(t) {
                Some(a) => Ok(ValueBoxMemoryAddress::Pointer(a)),
                None => Err(false),
            }
        }
    }

    /// Reads an address operand, spaces ignored: `n` is direct, `[n]` is indirect.
    pub fn from_str(s: &str) -> (r: Result<ValueBoxMemoryAddress, ParseValueBoxMemoryAddressError>)
        ensures
            match r {
                Ok(a) => ValueBoxMemoryAddress::parsed(s@) == Ok::<ValueBoxMemoryAddress, bool>(a),
                Err(e) => e.explains(s@),
            },
    {
        let chars = chars_of(s);
        let t = remove_spaces(&chars);
        let n = t.len();
        assert(t@.subrange(0, n as int) =~= t@);
        if n > 0 && t[0] == '[' && t[n - 1] == ']' {
            let (a, b) = trimmed_bounds(&t, 0, n, Some('['), Some(']'));
            let (c, d) = trimmed_bounds(&t, a, b, None, None);
            let inner = slice_of(&t, c, d);
            match parse_usize(&inner) {
                Some(v) => Ok(ValueBoxMemoryAddress::PointerAddress(v)),
                None => Err(ParseValueBoxMemoryAddressError::InvalidPointerAddress(string_of(&t, 0, n))),
            }
        } else {
            match parse_usize(&t) {
                Some(v) => Ok(ValueBoxMemoryAddress::Pointer(v)),
                None => Err(ParseValueBoxMemoryAddressError::InvalidPointer(string_of(&t, 0, n))),
            }
        }
    }
}

/// A copy of `v[from..to]`.
pub fn slice_of(v: &Vec<char>, from: usize, to: usize) -> (r: Vec<char>)
    requires
        from <= to <= v@.len(),
    ensures
        r@ == v@.subrange(from as int, to as int),
{
    let mut r: Vec<char> = Vec::new();
    let mut i: usize = from;
    while i < to
        invariant
            from <= i <= to <= v@.len(),
            r@ == v@.subrange(from as int, i as int),
        decreases to - i,
    {
        r.push(v[i]);
        i = i + 1;
        assert(r@ =~= v@.subrange(from as int, i as int));
    }
    r
}

} // verus!
