use crate::error::ToolError;
use crate::memory::{
    lemma_store_spliced_word, lemma_write_bytes_concat, splice_word, word_from_chunk, write_bytes,
    WORD_SIZE,
};
use crate::tracee::Tracee;
use vstd::prelude::*;
use vstd::slice::slice_subrange;

verus! {

/// `after` is `before` with some whole words from the start of `b` written at `addr`.
pub open spec fn wrote_whole_words(
    before: Map<int, u8>,
    after: Map<int, u8>,
    addr: int,
    b: Seq<u8>,
) -> bool {
    exists|n: int|
        0 <= n <= b.len() && n % 8 == 0 && after == write_bytes(before, addr, #[trigger] b.take(n))
}

/// `len` rounded up to a whole number of words.
pub open spec fn padded_len(len: int) -> int {
    if len % 8 == 0 {
        len
    } else {
        len + 8 - len % 8
    }
}

/// Whether every word that a write of `len` bytes at `addr` touches is mapped.
pub open spec fn span_mapped(mem: Map<int, u8>, addr: int, len: int) -> bool {
    forall|k: int| 0 <= k < padded_len(len) ==> #[trigger] mem.dom().contains(addr + k)
}

/// Writes `buffer` into the target from `addr` on, one word at a time.
///
/// Each full word of the buffer is stored as one word. A final piece shorter than a
/// word is merged into the word already stored there, whose trailing bytes are kept.
/// A failure leaves the words written before it in place. The write is owed on a
/// traced, stopped target where every word it touches is mapped; on a target that
/// is not traced and stopped nothing is written.
pub fn write_process_memory<T: Tracee>(target: &mut T, addr: usize, buffer: &[u8]) -> (r: Result<
    (),
    ToolError,
>)
    requires
        addr + buffer@.len() <= usize::MAX,
    ensures
        final(target).traced() == old(target).traced(),
        final(target).stopped() == old(target).stopped(),
        r is Ok ==> final(target).memory() == write_bytes(
            old(target).memory(),
            addr as int,
            buffer@,
        ),
        r is Err ==> r == Err::<(), ToolError>(ToolError::WriteError),
        r is Err ==> wrote_whole_words(
            old(target).memory(),
            final(target).memory(),
            addr as int,
            buffer@,
        ),
        buffer@.len() == 0 ==> r is Ok && final(target).memory() == old(target).memory(),
        buffer@.len() > 0 && !(old(target).traced() && old(target).stopped()) ==> r is Err
            && final(target).memory() == old(target).memory(),
        old(target).traced() && old(target).stopped() && span_mapped(
            old(target).memory(),
            addr as int,
            buffer@.len() as int,
        ) ==> r is Ok,
{
    let ghost mem0 = target.memory();
    let ghost ready = target.traced() && target.stopped();
    let ghost owed = ready && span_mapped(mem0, addr as int, buffer@.len() as int);
    let len = buffer.len();
    let mut i: usize = 0;
    proof {
        assert(write_bytes(mem0, addr as int, buffer@.take(0)) =~= mem0);
    }
    while i < len
        invariant
            i <= len,
            len == buffer@.len(),
            i % 8 == 0 || i == len,
            addr + len <= usize::MAX,
            target.traced() == old(target).traced(),
            target.stopped() == old(target).stopped(),
            mem0 == old(target).memory(),
            ready == (old(target).traced() && old(target).stopped()),
            owed == (ready && span_mapped(mem0, addr as int, len as int)),
            !ready ==> i == 0,
            forall|a: int| #[trigger] mem0.dom().contains(a) ==> target.memory().dom().contains(a),
            target.memory() == write_bytes(mem0, addr as int, buffer@.take(i as int)),
        decreases len - i,
    {
        let cur = addr + i;
        let ghost before = target.memory();
        let step: usize = if len - i >= WORD_SIZE {
            WORD_SIZE
        } else {
            len - i
        };
        proof {
            if owed {
                assert(i + 8 <= padded_len(len as int));
                assert forall|k: int| 0 <= k < 8 implies #[trigger] before.dom().contains(
                    cur + k,
                ) by {
                    assert(mem0.dom().contains(addr + (i + k)));
                }
            }
        }
        let chunk = slice_subrange(buffer, i, i + step);
        let word: u64 = if step == WORD_SIZE {
            word_from_chunk(chunk)
        } else {
            match target.read_word(cur) {
                Ok(current) => {
                    let merged = splice_word(current, chunk);
                    proof {
                        lemma_store_spliced_word(before, cur as int, chunk@, current, merged);
                    }
                    merged
                },
                Err(e) => {
                    assert(target.memory() == write_bytes(mem0, addr as int, buffer@.take(i as int)));
                    return Err(e);
                },
            }
        };
        match target.write_word(cur, word) {
            Ok(()) => {},
            Err(e) => {
                assert(target.memory() == write_bytes(mem0, addr as int, buffer@.take(i as int)));
                return Err(e);
            },
        }
        proof {
            assert(target.memory() == write_bytes(before, cur as int, chunk@));
            lemma_write_bytes_concat(mem0, addr as int, buffer@.take(i as int), chunk@);
            assert(buffer@.take(i as int) + chunk@ =~= buffer@.take((i + step) as int));
        }
        i = i + step;
    }
    assert(buffer@.take(i as int) =~= buffer@);
    Ok(())
}

} // verus!
