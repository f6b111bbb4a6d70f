//! The guest's linear memory, as the host sees it.
use vstd::prelude::*;
use crate::codec::slice_bytes;

verus! {

/// Why a guest memory access failed.
#[derive(Debug, Clone, Copy, PartialEq, Eq, Structural)]
pub enum MemoryError {
    /// The range `ptr .. ptr + len` lies outside the memory.
    OutOfBounds,
}

/// The guest's linear memory: a byte array addressed from zero.
#[derive(Debug, Clone)]
pub struct VmMemory {
    pub bytes: Vec<u8>,
}

/// Whether `ptr .. ptr + len` lies within a memory of `size` bytes.
pub open spec fn in_bounds(size: nat, ptr: u64, len: u64) -> bool {
    ptr + len <= size
}

/// Whether `len` bytes written at `ptr` fit a memory of `size` bytes.
pub open spec fn fits(size: nat, ptr: u64, len: nat) -> bool {
    ptr + len <= size
}

impl VmMemory {
    /// A zeroed memory of `size` bytes.
    pub fn new(size: usize) -> (r: VmMemory)
        ensures
            r.bytes@ == Seq::new(size as nat, |i: int| 0u8),
    {
        let mut bytes: Vec<u8> = Vec::new();
        let mut i: usize = 0;
        while i < size
            invariant
                0 <= i <= size,
                bytes@ == Seq::new(i as nat, |j: int| 0u8),
            decreases size - i,
        {
            bytes.push(0u8);
            assert(bytes@ =~= Seq::new((i + 1) as nat, |j: int| 0u8));
            i = i + 1;
        }
        VmMemory { bytes }
    }

    /// The bytes at `ptr .. ptr + len`.
    pub open spec fn slice(&self, ptr: u64, len: u64) -> Seq<u8> {
        self.bytes@.subrange(ptr as int, ptr + len)
    }

    /// Read `len` bytes at `ptr`, with the gas of the transfer.
    pub fn read_bytes(&self, ptr: u64, len: u64) -> (r: Result<(Vec<u8>, u64), MemoryError>)
        ensures
            r is Ok <==> in_bounds(self.bytes@.len(), ptr, len),
            r matches Ok((b, gas)) ==> b@ == self.slice(ptr, len) && gas == len,
            r is Err ==> r == Err::<(Vec<u8>, u64), MemoryError>(MemoryError::OutOfBounds),
    {
        let size = self.bytes.len() as u64;
        if ptr > size || len > size - ptr {
            return Err(MemoryError::OutOfBounds);
        }
        let b = slice_bytes(self.bytes.as_slice(), ptr as usize, (ptr + len) as usize);
        Ok((b, len))
    }

    /// Write `data` at `ptr`, with the gas of the transfer.
    pub fn write_bytes(&mut self, ptr: u64, data: &[u8]) -> (r: Result<u64, MemoryError>)
        ensures
            r is Ok <==> fits(old(self).bytes@.len(), ptr, data@.len()),
            r matches Ok(gas) ==> gas == data@.len() && final(self).bytes@
                == old(self).bytes@.subrange(0, ptr as int) + data@ + old(self).bytes@.subrange(
                ptr + data@.len(),
                old(self).bytes@.len() as int,
            ),
            r is Err ==> r == Err::<u64, MemoryError>(MemoryError::OutOfBounds) && *final(self)
                == *old(self),
    {
        let size = self.bytes.len() as u64;
        let len = data.len() as u64;
        if ptr > size || len > size - ptr {
            return Err(MemoryError::OutOfBounds);
        }
        let mut i: usize = 0;
        let p = ptr as usize;
        let n = self.bytes.len();
        while i < data.len()
            invariant
                0 <= i <= data@.len(),
                n == self.bytes@.len(),
                p == ptr,
                p + data@.len() <= self.bytes@.len(),
                self.bytes@.len() == old(self).bytes@.len(),
                self.bytes@ =~= old(self).bytes@.subrange(0, p as int) + data@.subrange(0, i as int)
                    + old(self).bytes@.subrange(p + i, old(self).bytes@.len() as int),
            decreases data@.len() - i,
        {
            self.bytes.set(p + i, data[i]);
            i = i + 1;
        }
        assert(data@.subrange(0, data@.len() as int) =~= data@);
        Ok(len)
    }
}

} // verus!
