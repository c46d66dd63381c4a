use crate::error::ToolError;
use crate::memory::{byte_of, store_word, word_at, word_from_chunk, word_mapped, WORD_SIZE};
use crate::tracee::Tracee;
use vstd::prelude::*;
use vstd::slice::{slice_subrange, slice_to_vec};

verus! {

/// The memory of a single region of `bytes` mapped from `base` on.
pub open spec fn region_memory(base: int, bytes: Seq<u8>) -> Map<int, u8> {
    Map::new(|a: int| base <= a < base + bytes.len(), |a: int| bytes[a - base])
}

/// A stand-in process with one mapped region, for exercising callers of [`Tracee`].
pub struct SimulatedTracee {
    base: usize,
    bytes: Vec<u8>,
    traced: bool,
    stopped: bool,
}

impl SimulatedTracee {
    /// A running, untraced process whose region of `bytes` starts at `base`.
    pub fn new(base: usize, bytes: Vec<u8>) -> (r: SimulatedTracee)
        ensures
            r.memory() == region_memory(base as int, bytes@),
            !r.traced(),
            !r.stopped(),
    {
        SimulatedTracee { base, bytes, traced: false, stopped: false }
    }

    /// Whether this toolkit is currently the tracer.
    pub fn is_traced(&self) -> (r: bool)
        ensures
            r == self.traced(),
    {
        self.traced
    }

    /// Whether the process is currently stopped.
    pub fn is_stopped(&self) -> (r: bool)
        ensures
            r == self.stopped(),
    {
        self.stopped
    }

    /// The `len` bytes mapped from `addr` on, or `None` where some of them are not mapped.
    pub fn read_bytes(&self, addr: usize, len: usize) -> (r: Option<Vec<u8>>)
        ensures
            r is Some <==> (forall|k: int| 0 <= k < len ==> #[trigger] self.memory().dom().contains(
                addr + k,
            )),
            r matches Some(v) ==> v@ == Seq::new(len as nat, |k: int| self.memory()[addr + k]),
    {
        if len == 0 {
            let v: Vec<u8> = Vec::new();
            assert(v@ =~= Seq::new(len as nat, |k: int| self.memory()[addr + k]));
            return Some(v);
        }
        let n = self.bytes.len();
        if addr < self.base || addr - self.base > n || n - (addr - self.base) < len {
            proof {
                if addr < self.base || addr - self.base > n {
                    assert(!self.memory().dom().contains(addr + 0));
                } else {
                    let k = n - (addr - self.base);
                    assert(!self.memory().dom().contains(addr + k));
                }
            }
            return None;
        }
        let off = addr - self.base;
        let v = slice_to_vec(slice_subrange(self.bytes.as_slice(), off, off + len));
        assert(v@ =~= Seq::new(len as nat, |k: int| self.memory()[addr + k]));
        Some(v)
    }
}

impl SimulatedTracee {
    /// The offset in the region of the word at `addr`, where that word is mapped.
    fn word_offset(&self, addr: usize) -> (r: Option<usize>)
        ensures
            r is Some <==> word_mapped(self.memory(), addr as int),
            r matches Some(o) ==> o == addr - self.base && o + WORD_SIZE <= self.bytes@.len(),
    {
        let n = self.bytes.len();
        if addr < self.base || addr - self.base > n || n - (addr - self.base) < WORD_SIZE {
            proof {
                if addr < self.base || addr - self.base > n {
                    assert(!self.memory().dom().contains(addr + 0));
                } else {
                    let k = n - (addr - self.base);
                    assert(!self.memory().dom().contains(addr + k));
                }
            }
            return None;
        }
        assert forall|k: int| 0 <= k < 8 implies #[trigger] self.memory().dom().contains(
            addr + k,
        ) by {}
        Some(addr - self.base)
    }
}

impl Tracee for SimulatedTracee {
    closed spec fn memory(&self) -> Map<int, u8> {
        region_memory(self.base as int, self.bytes@)
    }

    closed spec fn traced(&self) -> bool {
        self.traced
    }

    closed spec fn stopped(&self) -> bool {
        self.stopped
    }

    fn attach(&mut self) -> (r: Result<(), ToolError>) {
        if self.traced {
            return Err(ToolError::AttachError);
        }
        self.traced = true;
        self.stopped = false;
        Ok(())
    }

    fn wait_for_stop(&mut self) -> (r: Result<(), ToolError>) {
        if !self.traced {
            return Err(ToolError::WaitError);
        }
        self.stopped = true;
        Ok(())
    }

    fn detach(&mut self) -> (r: Result<(), ToolError>) {
        if !self.traced {
            return Err(ToolError::DetachError);
        }
        self.traced = false;
        self.stopped = false;
        Ok(())
    }

    fn read_word(&self, addr: usize) -> (r: Result<u64, ToolError>) {
        if !self.traced || !self.stopped {
            return Err(ToolError::WriteError);
        }
        let off = match self.word_offset(addr) {
            Some(o) => o,
            None => {
                return Err(ToolError::WriteError);
            },
        };
        let n = self.bytes.len();
        assert(off + WORD_SIZE <= n);
        let chunk = slice_subrange(self.bytes.as_slice(), off, off + WORD_SIZE);
        let w = word_from_chunk(chunk);
        proof {
            let mem = self.memory();
            assert(chunk@ =~= word_at(mem, addr as int));
        }
        Ok(w)
    }

    fn write_word(&mut self, addr: usize, w: u64) -> (r: Result<(), ToolError>) {
        if !self.traced || !self.stopped {
            return Err(ToolError::WriteError);
        }
        let n = self.bytes.len();
        let off = match self.word_offset(addr) {
            Some(o) => o,
            None => {
                return Err(ToolError::WriteError);
            },
        };
        let ghost old_bytes = self.bytes@;
        let mut k: usize = 0;
        while k < WORD_SIZE
            invariant
                k <= WORD_SIZE,
                off + WORD_SIZE <= n,
                off == addr - self.base,
                self.base == old(self).base,
                self.traced == old(self).traced,
                self.stopped == old(self).stopped,
                old_bytes == old(self).bytes@,
                self.bytes@.len() == n,
                n == old_bytes.len(),
                forall|j: int|
                    0 <= j < n ==> #[trigger] self.bytes@[j] == if off <= j < off + k {
                        byte_of(w, j - off)
                    } else {
                        old_bytes[j]
                    },
            decreases WORD_SIZE - k,
        {
            let byte: u8 = ((w >> (8 * k) as u64) & 0xff) as u8;
            self.bytes.set(off + k, byte);
            k = k + 1;
        }
        proof {
            let old_mem = region_memory(self.base as int, old_bytes);
            assert(old_mem == old(self).memory());
            assert(self.memory() =~= store_word(old_mem, addr as int, w));
        }
        Ok(())
    }
}

} // verus!
