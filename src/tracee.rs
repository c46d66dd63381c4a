use crate::error::ToolError;
use crate::memory::{store_word, word_at, word_bytes, word_mapped};
use vstd::prelude::*;

verus! {

/// A process that this toolkit can trace, stop, read and write one word at a time.
///
/// A write or a read is legal only while the process is traced and stopped.
pub trait Tracee {
    /// The target's memory: each mapped address with the byte stored there.
    ///
    /// A verified implementation defines this and the two functions below. The
    /// defaults exist so that a live process driven from unverified code can
    /// implement the trait; such an implementation is unchecked, and nothing is
    /// proved of it.
    closed spec fn memory(&self) -> Map<int, u8> {
        Map::empty()
    }

    /// Whether this toolkit is the target's tracer.
    closed spec fn traced(&self) -> bool {
        false
    }

    /// Whether the traced target has reached a stop.
    closed spec fn stopped(&self) -> bool {
        false
    }

    /// Becomes the target's tracer. A target that is already traced is refused.
    fn attach(&mut self) -> (r: Result<(), ToolError>)
        ensures
            final(self).memory() == old(self).memory(),
            old(self).traced() ==> r is Err,
            r is Ok ==> final(self).traced() && !final(self).stopped(),
            r is Err ==> r == Err::<(), ToolError>(ToolError::AttachError) && final(self).traced()
                == old(self).traced() && final(self).stopped() == old(self).stopped(),
    ;

    /// Blocks until the traced target stops. An untraced target is refused.
    fn wait_for_stop(&mut self) -> (r: Result<(), ToolError>)
        ensures
            final(self).memory() == old(self).memory(),
            !old(self).traced() ==> r is Err,
            r is Ok ==> final(self).traced() && final(self).stopped(),
            r is Err ==> r == Err::<(), ToolError>(ToolError::WaitError) && final(self).traced()
                == old(self).traced() && final(self).stopped() == old(self).stopped(),
    ;

    /// Gives up tracing and lets the target run on. An untraced target is refused.
    fn detach(&mut self) -> (r: Result<(), ToolError>)
        ensures
            final(self).memory() == old(self).memory(),
            !old(self).traced() ==> r is Err,
            r is Ok ==> !final(self).traced() && !final(self).stopped(),
            r is Err ==> r == Err::<(), ToolError>(ToolError::DetachError) && final(self).traced()
                == old(self).traced() && final(self).stopped() == old(self).stopped(),
    ;

    /// Reads the word stored at `addr`; owed on a traced, stopped target where the
    /// word is mapped, refused on a target that is not traced and stopped.
    fn read_word(&self, addr: usize) -> (r: Result<u64, ToolError>)
        ensures
            r matches Ok(w) ==> self.traced() && self.stopped() && word_mapped(
                self.memory(),
                addr as int,
            ) && word_bytes(w) == word_at(self.memory(), addr as int),
            self.traced() && self.stopped() && word_mapped(self.memory(), addr as int) ==> r is Ok,
            r is Err ==> r == Err::<u64, ToolError>(ToolError::WriteError),
    ;

    /// Stores the word `w` at `addr`; owed on a traced, stopped target where the
    /// word is mapped, refused on a target that is not traced and stopped.
    fn write_word(&mut self, addr: usize, w: u64) -> (r: Result<(), ToolError>)
        ensures
            final(self).traced() == old(self).traced(),
            final(self).stopped() == old(self).stopped(),
            r is Ok ==> old(self).traced() && old(self).stopped() && final(self).memory()
                == store_word(old(self).memory(), addr as int, w),
            old(self).traced() && old(self).stopped() && word_mapped(
                old(self).memory(),
                addr as int,
            ) ==> r is Ok,
            r is Err ==> r == Err::<(), ToolError>(ToolError::WriteError) && final(self).memory()
                == old(self).memory(),
    ;
}

} // verus!
