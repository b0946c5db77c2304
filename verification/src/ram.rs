//! Bounds-checked byte-addressable memory.

use vstd::prelude::*;

use crate::error::EmulatorError;

verus! {

/// The number of bytes the emulated machine can address.
pub const RAM_SIZE: usize = 4096;

/// Memory for the emulator: a fixed array of `RAM_SIZE` bytes behind
/// bounds-checked accessors, so that no address computed from a ROM can
/// ever index out of range.
pub struct Ram {
    bytes: Vec<u8>,
}

impl View for Ram {
    type V = Seq<u8>;

    closed spec fn view(&self) -> Seq<u8> {
        self.bytes@
    }
}

impl Ram {
    /// Memory always holds exactly `RAM_SIZE` bytes.
    pub open spec fn wf(&self) -> bool {
        self@.len() == RAM_SIZE
    }

    /// Reads a byte at an address known to be in bounds.
    pub(crate) fn read(&self, address: usize) -> (r: u8)
        requires
            self.wf(),
            address < RAM_SIZE,
        ensures
            r == self@[address as int],
    {
        self.bytes[address]
    }

    /// Writes a byte at an address known to be in bounds.
    pub(crate) fn write(&mut self, address: usize, value: u8)
        requires
            old(self).wf(),
            address < RAM_SIZE,
        ensures
            final(self).wf(),
            final(self)@ == old(self)@.update(address as int, value),
    {
        self.bytes[address] = value;
    }

    /// Updates the value at an address; out-of-range addresses are rejected
    /// with `OutOfBounds` and leave memory unchanged.
    pub fn set(&mut self, address: usize, value: u8) -> (r: Result<(), EmulatorError>)
        requires
            old(self).wf(),
        ensures
            final(self).wf(),
            address < RAM_SIZE ==> r is Ok
                && final(self)@ == old(self)@.update(address as int, value),
            address >= RAM_SIZE ==> r == Err::<(), EmulatorError>(EmulatorError::OutOfBounds)
                && final(self)@ == old(self)@,
    {
        if address >= RAM_SIZE {
            return Err(EmulatorError::OutOfBounds);
        }
        self.write(address, value);
        Ok(())
    }

    /// Gets the value at an address; out-of-range addresses are rejected
    /// with `OutOfBounds`.
    pub fn get(&self, address: usize) -> (r: Result<u8, EmulatorError>)
        requires
            self.wf(),
        ensures
            address < RAM_SIZE ==> r == Ok::<u8, EmulatorError>(self@[address as int]),
            address >= RAM_SIZE ==> r == Err::<u8, EmulatorError>(EmulatorError::OutOfBounds),
    {
        if address >= RAM_SIZE {
            return Err(EmulatorError::OutOfBounds);
        }
        Ok(self.read(address))
    }

    /// A read-only view of `length` bytes starting at `address`; fails with
    /// `OutOfBounds` when the start or the end of the range is out of range.
    pub fn get_slice(&self, address: usize, length: usize) -> (r: Result<&[u8], EmulatorError>)
        requires
            self.wf(),
        ensures
            (address < RAM_SIZE && address + length < RAM_SIZE) ==> (r matches Ok(s)
                && s@ == self@.subrange(address as int, address + length)),
            !(address < RAM_SIZE && address + length < RAM_SIZE) ==> r == Err::<
                &[u8],
                EmulatorError,
            >(EmulatorError::OutOfBounds),
    {
        if address >= RAM_SIZE || length >= RAM_SIZE - address {
            return Err(EmulatorError::OutOfBounds);
        }
        Ok(vstd::slice::slice_subrange(self.bytes.as_slice(), address, address + length))
    }
}

impl Default for Ram {
    /// Fresh memory is zero-filled.
    fn default() -> (r: Self)
        ensures
            r.wf(),
            forall|a: int| 0 <= a < RAM_SIZE ==> r@[a] == 0u8,
    {
        Ram { bytes: vec![0u8; RAM_SIZE] }
    }
}

/// Checks whether an address is inside the memory: exactly the addresses
/// below `RAM_SIZE` are accepted.
pub fn is_valid_address(address: usize) -> (r: Result<(), EmulatorError>)
    ensures
        address < RAM_SIZE ==> r is Ok,
        address >= RAM_SIZE ==> r == Err::<(), EmulatorError>(EmulatorError::OutOfBounds),
{
    if address >= RAM_SIZE {
        Err(EmulatorError::OutOfBounds)
    } else {
        Ok(())
    }
}

} // verus!
