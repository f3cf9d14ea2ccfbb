//! The tiles on the floor: a sparse map from address to value, bounded by a maximum address.
use vstd::prelude::*;
use std::collections::HashMap;
use crate::script_object::value_box::{ValueBox, ValueBoxMemoryAddress};

verus! {

broadcast use vstd::std_specs::hash::group_hash_axioms;

/// The memory holds the values placed on the floor's tiles.
/// In the game, the number of tiles can be (very) limited.
#[derive(Debug)]
pub struct Memory {
    data: HashMap<usize, ValueBox>,
    max_address: usize,
}

/// The contents of a memory: the occupied tiles and the largest valid address.
pub struct MemoryView {
    pub cells: Map<usize, ValueBox>,
    pub max_address: usize,
}

/// Error that can occur when reading a value and assuming it is there.
#[derive(Debug)]
pub enum GetMemoryError {
    /// The tile at the address (given by the operand) is empty.
    NoValueAtAddress(usize, ValueBoxMemoryAddress),
    /// The operand does not resolve to an address.
    InvalidValueBoxMemoryAddress(ReadValueBoxMemoryAddressError),
}

/// Error that can occur when setting a value.
#[derive(Debug)]
pub enum SetMemoryError {
    /// The address is beyond the largest valid address.
    OutOfBounds { address: usize, max_address: usize },
    /// The operand does not resolve to an address.
    InvalidValueBoxMemoryAddress(ReadValueBoxMemoryAddressError),
}

/// Error that can occur when resolving an address operand.
#[derive(Debug)]
pub enum ReadValueBoxMemoryAddressError {
    /// The pointer tile holds a negative number.
    NegativePointerAddress { value_tested: i32, pointer_address: usize },
    /// The pointer tile is empty or holds a character (the pointer address, the operand).
    NoValueAtAddress(usize, ValueBoxMemoryAddress),
    /// The final address is beyond the largest valid address.
    OutOfBounds { final_address: usize, vbma: ValueBoxMemoryAddress, max_address: usize },
}

impl MemoryView {
    /// The value at `address`, if any.
    pub open spec fn cell(self, address: usize) -> Option<ValueBox> {
        if self.cells.contains_key(address) {
            Some(self.cells[address])
        } else {
            None
        }
    }

    /// The address that an operand designates.
    pub open spec fn resolve(self, vbma: ValueBoxMemoryAddress) -> Result<usize, ReadValueBoxMemoryAddressError> {
        let found = match vbma {
            ValueBoxMemoryAddress::Pointer(a) => Ok(a),
            ValueBoxMemoryAddress::PointerAddress(p) => match self.cell(p) {
                Some(ValueBox::Number(n)) => if n < 0 {
                    Err(ReadValueBoxMemoryAddressError::NegativePointerAddress { value_tested: n, pointer_address: p })
                } else {
                    Ok(n as usize)
                },
                _ => Err(ReadValueBoxMemoryAddressError::NoValueAtAddress(p, vbma)),
            },
        };
        match found {
            Ok(a) => if a <= self.max_address {
                Ok(a)
            } else {
                Err(ReadValueBoxMemoryAddressError::OutOfBounds { final_address: a, vbma, max_address: self.max_address })
            },
            Err(e) => Err(e),
        }
    }

    /// The value at the address that an operand designates.
    pub open spec fn read(self, vbma: ValueBoxMemoryAddress) -> Result<ValueBox, GetMemoryError> {
        match self.resolve(vbma) {
            Ok(a) => match self.cell(a) {
                Some(v) => Ok(v),
                None => Err(GetMemoryError::NoValueAtAddress(a, vbma)),
            },
            Err(e) => Err(GetMemoryError::InvalidValueBoxMemoryAddress(e)),
        }
    }

    /// The memory after `value` is written at `address` (`None` empties the tile).
    pub open spec fn write(self, address: usize, value: Option<ValueBox>) -> MemoryView {
        MemoryView {
            cells: match value {
                Some(v) => self.cells.insert(address, v),
                None => self.cells.remove(address),
            },
            max_address: self.max_address,
        }
    }
}

/// Writing a value at a valid address and then reading that address gives the value
/// back; writing `None` leaves the tile empty.
pub proof fn lemma_write_then_read(m: MemoryView, address: usize, value: Option<ValueBox>)
    requires
        address <= m.max_address,
    ensures
        m.write(address, value).cell(address) == value,
        m.write(address, value).max_address == m.max_address,
{
}

/// Writing leaves every other tile as it was.
pub proof fn lemma_write_keeps_others(m: MemoryView, address: usize, value: Option<ValueBox>, other: usize)
    requires
        other != address,
    ensures
        m.write(address, value).cell(other) == m.cell(other),
{
}

/// Indirect resolution fails through a pointer tile that is empty, holds a character,
/// or holds a negative number.
pub proof fn lemma_indirect_through_non_address_fails(m: MemoryView, pointer: usize)
    requires
        match m.cell(pointer) {
            Some(ValueBox::Number(n)) => n < 0,
            _ => true,
        },
    ensures
        m.resolve(ValueBoxMemoryAddress::PointerAddress(pointer)) is Err,
        m.read(ValueBoxMemoryAddress::PointerAddress(pointer)) is Err,
{
}

impl View for Memory {
    type V = MemoryView;

    closed spec fn view(&self) -> MemoryView {
        MemoryView { cells: self.data@, max_address: self.max_address }
    }
}

impl Memory {
    #[verifier::type_invariant]
    spec fn addresses_in_bounds(&self) -> bool {
        forall|a: usize| #[trigger] self.data@.contains_key(a) ==> a <= self.max_address
    }

    /// A memory that holds `data`, with addresses up to `max_address`.
    pub fn with_data(data: HashMap<usize, ValueBox>, max_address: usize) -> (r: Memory)
        requires
            forall|a: usize| #[trigger] data@.contains_key(a) ==> a <= max_address,
        ensures
            r@.cells == data@,
            r@.max_address == max_address,
    {
        Memory { data, max_address }
    }

    /// The largest valid address.
    pub fn get_max_address(&self) -> (r: usize)
        ensures
            r == self@.max_address,
    {
        self.max_address
    }

    /// Whether `at_address` is a valid address.
    pub fn is_valid_memory_address(&self, at_address: &usize) -> (r: bool)
        ensures
            r == (*at_address <= self@.max_address),
    {
        *at_address <= self.max_address
    }

    /// The value at `address`, if any.
    pub fn get(&self, address: &usize) -> (r: Option<&ValueBox>)
        ensures
            match r {
                Some(v) => self@.cell(*address) == Some(*v),
                None => self@.cell(*address) is None,
            },
    {
        self.data.get(address)
    }

    /// The value at the address that an operand designates; an error where the
    /// operand does not resolve or the tile is empty.
    pub fn get_with_vbma(&self, vbma: &ValueBoxMemoryAddress) -> (r: Result<&ValueBox, GetMemoryError>)
        ensures
            match r {
                Ok(v) => self@.read(*vbma) == Ok::<ValueBox, GetMemoryError>(*v),
                Err(e) => self@.read(*vbma) == Err::<ValueBox, GetMemoryError>(e),
            },
    {
        let address = match self.translate_vbma_to_mem_address(vbma) {
            Ok(a) => a,
            Err(e) => return Err(GetMemoryError::InvalidValueBoxMemoryAddress(e)),
        };
        match self.get(&address) {
            Some(v) => Ok(v),
            None => Err(GetMemoryError::NoValueAtAddress(address, *vbma)),
        }
    }

    /// Writes `value` at `address` (`None` empties the tile); an error, and no change,
    /// where the address is beyond the largest valid one.
    pub fn set(&mut self, address: &usize, value: Option<ValueBox>) -> (r: Result<(), SetMemoryError>)
        ensures
            *address <= old(self)@.max_address ==> r is Ok && final(self)@ == old(self)@.write(*address, value),
            *address > old(self)@.max_address ==> final(self)@ == old(self)@ && r == Err::<(), SetMemoryError>(
                SetMemoryError::OutOfBounds { address: *address, max_address: old(self)@.max_address },
            ),
    {
        if !self.is_valid_memory_address(address) {
            return Err(SetMemoryError::OutOfBounds { address: *address, max_address: self.max_address });
        }
        proof {
            use_type_invariant(&*self);
        }
        let mut data = HashMap::new();
        std::mem::swap(&mut self.data, &mut data);
        match value {
            Some(v) => {
                data.insert(*address, v);
            },
            None => {
                data.remove(address);
            },
        }
        self.data = data;
        Ok(())
    }

    /// Writes `value` at the address that an operand designates; an error, and no
    /// change, where the operand does not resolve.
    pub fn set_with_vbma(&mut self, vbma: &ValueBoxMemoryAddress, value: Option<ValueBox>) -> (r: Result<(), SetMemoryError>)
        ensures
            match old(self)@.resolve(*vbma) {
                Ok(a) => r is Ok && final(self)@ == old(self)@.write(a, value),
                Err(e) => r == Err::<(), SetMemoryError>(SetMemoryError::InvalidValueBoxMemoryAddress(e))
                    && final(self)@ == old(self)@,
            },
    {
        let address = match self.translate_vbma_to_mem_address(vbma) {
            Ok(a) => a,
            Err(e) => return Err(SetMemoryError::InvalidValueBoxMemoryAddress(e)),
        };
        self.set(&address, value)
    }

    /// The address that an operand designates: a direct address as it is, an
    /// indirect one through the number held at its pointer tile. Either must be valid.
    pub fn translate_vbma_to_mem_address(&self, value_box_memory_address: &ValueBoxMemoryAddress) -> (r: Result<usize, ReadValueBoxMemoryAddressError>)
        ensures
            r == self@.resolve(*value_box_memory_address),
    {
        let final_address = match value_box_memory_address {
            ValueBoxMemoryAddress::Pointer(address) => *address,
            ValueBoxMemoryAddress::PointerAddress(pointer_address) => {
                match self.get(pointer_address) {
                    Some(ValueBox::Number(address)) => {
                        if *address < 0 {
                            return Err(ReadValueBoxMemoryAddressError::NegativePointerAddress {
                                value_tested: *address,
                                pointer_address: *pointer_address,
                            });
                        }
                        *address as usize
                    },
                    _ => {
                        return Err(ReadValueBoxMemoryAddressError::NoValueAtAddress(
                            *pointer_address,
                            *value_box_memory_address,
                        ));
                    },
                }
            },
        };
        if !self.is_valid_memory_address(&final_address) {
            return Err(ReadValueBoxMemoryAddressError::OutOfBounds {
                final_address,
                vbma: *value_box_memory_address,
                max_address: self.max_address,
            });
        }
        Ok(final_address)
    }

    /// The occupied tiles, each once, in no particular order.
    pub fn cells(&self) -> (r: Vec<(usize, ValueBox)>)
        ensures
            forall|i: int| 0 <= i < r@.len() ==> self@.cell((#[trigger] r@[i]).0) == Some(r@[i].1),
            forall|a: usize| #[trigger] self@.cells.contains_key(a) ==> exists|i: int| 0 <= i < r@.len() && (#[trigger] r@[i]).0 == a,
    {
        let mut r: Vec<(usize, ValueBox)> = Vec::new();
        for (k, v) in it: self.data.iter()
            invariant
                r@.len() == it.index(),
                it.seq().len() == self.data@.dom().len(),
                forall|i: int| 0 <= i < it.seq().len() ==> self.data@.contains_key(*(#[trigger] it.seq()[i]).0)
                    && self.data@[*it.seq()[i].0] == *it.seq()[i].1,
                forall|a: usize| #[trigger] self.data@.contains_key(a) ==> it.seq().contains((&a, &self.data@[a])),
                forall|i: int| 0 <= i < r@.len() ==> self@.cell((#[trigger] r@[i]).0) == Some(r@[i].1),
                forall|i: int| 0 <= i < r@.len() ==> (#[trigger] r@[i]).0 == *it.seq()[i].0,
                forall|a: usize| #[trigger] self.data@.contains_key(a) ==> (exists|i: int| 0 <= i < r@.len() && (#[trigger] r@[i]).0 == a)
                    || (exists|j: int| it.index() <= j < it.seq().len() && *(#[trigger] it.seq()[j]).0 == a),
        {
            let ghost before = r@;
            r.push((*k, *v));
            proof {
                assert forall|a: usize| #[trigger] self.data@.contains_key(a) implies (exists|i: int| 0 <= i < r@.len() && (#[trigger] r@[i]).0 == a)
                    || (exists|j: int| it.index() + 1 <= j < it.seq().len() && *(#[trigger] it.seq()[j]).0 == a) by {
                    if exists|i: int| 0 <= i < before.len() && (#[trigger] before[i]).0 == a {
                        let i = choose|i: int| 0 <= i < before.len() && (#[trigger] before[i]).0 == a;
                        assert(r@[i] == before[i]);
                    } else {
                        let j = choose|j: int| it.index() <= j < it.seq().len() && *(#[trigger] it.seq()[j]).0 == a;
                        if j == it.index() {
                            assert(r@[before.len() as int].0 == a);
                        }
                    }
                }
            }
        }
        r
    }

    /// A copy of this memory.
    pub fn duplicate(&self) -> (r: Memory)
        ensures
            r@ == self@,
    {
        proof {
            use_type_invariant(self);
        }
        Memory { data: self.data.clone(), max_address: self.max_address }
    }
}

impl Default for Memory {
    /// An empty memory with no practical bound on addresses.
    fn default() -> (r: Memory)
        ensures
            r@.cells == Map::<usize, ValueBox>::empty(),
            r@.max_address == usize::MAX,
    {
        Memory { data: HashMap::new(), max_address: usize::MAX }
    }
}

} // verus!
