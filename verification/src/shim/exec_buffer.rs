//! Firmware executable buffer: a fixed 64 KiB code area.
use vstd::prelude::*;

use super::MAX_JIT_BUFFER_SIZE;

verus! {

/// Fixed-size buffer holding JIT'd code.
pub struct ExecBuffer {
    buf: [u8; 65536],
    code_len: usize,
}

impl ExecBuffer {
    /// The code written last.
    pub closed spec fn code(&self) -> Seq<u8> {
        self.buf@.subrange(0, self.code_len as int)
    }

    pub closed spec fn well_formed(&self) -> bool {
        self.code_len <= MAX_JIT_BUFFER_SIZE
    }

    /// A zeroed buffer; the requested size is not needed in firmware.
    pub fn new(_size: usize) -> (r: Result<Self, &'static str>)
        ensures
            r matches Ok(b) && b.well_formed() && b.code() == Seq::<u8>::empty(),
    {
        Ok(ExecBuffer { buf: [0u8; 65536], code_len: 0 })
    }

    /// Copy `code` into the buffer; fails when it exceeds the capacity.
    pub fn write_code(&mut self, code: &[u8]) -> (r: Result<(), &'static str>)
        requires
            old(self).well_formed(),
        ensures
            final(self).well_formed(),
            code@.len() > MAX_JIT_BUFFER_SIZE <==> r is Err,
            r is Err ==> r == Err::<(), &'static str>("Code exceeds buffer capacity"),
            r is Ok ==> final(self).code() == code@,
            r is Err ==> final(self).code() == old(self).code(),
    {
        if code.len() > MAX_JIT_BUFFER_SIZE {
            return Err("Code exceeds buffer capacity");
        }
        let mut i: usize = 0;
        while i < code.len()
            invariant
                code@.len() <= MAX_JIT_BUFFER_SIZE,
                i <= code@.len(),
                self.buf@.len() == MAX_JIT_BUFFER_SIZE,
                forall|j: int| 0 <= j < i ==> self.buf@[j] == code@[j],
            decreases code@.len() - i,
        {
            self.buf.set(i, code[i]);
            i = i + 1;
        }
        self.code_len = code.len();
        assert(self.buf@.subrange(0, self.code_len as int) =~= code@);
        Ok(())
    }

    /// Length of the code written last.
    pub fn code_len(&self) -> (r: usize)
        requires
            self.well_formed(),
        ensures
            r == self.code().len(),
    {
        self.code_len
    }

    /// Capacity in bytes.
    pub fn capacity(&self) -> (r: usize)
        ensures
            r == MAX_JIT_BUFFER_SIZE,
    {
        MAX_JIT_BUFFER_SIZE
    }
}

} // verus!
