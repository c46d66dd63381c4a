use crate::error::ToolError;
use crate::memory::{write_bytes, WORD_SIZE};
use crate::symbols::{SymbolDescriptor, SymbolTable};
use crate::tracee::Tracee;
use crate::writer::{padded_len, span_mapped, write_process_memory, wrote_whole_words};
use vstd::prelude::*;

verus! {

/// Bytes to place at a symbol's address plus an offset inside the symbol.
#[derive(Debug)]
pub struct Patch {
    pub symbol: String,
    pub offset: usize,
    pub bytes: Vec<u8>,
}

/// Where a patch goes: module base, plus the symbol's module-relative value, plus the offset.
pub open spec fn patch_target(
    base: int,
    table: Map<Seq<char>, SymbolDescriptor>,
    p: Patch,
) -> int {
    base + table[p.symbol@].value + p.offset
}

/// `mem` after the patches are written in order.
pub open spec fn patched_memory(
    mem: Map<int, u8>,
    base: int,
    table: Map<Seq<char>, SymbolDescriptor>,
    ps: Seq<Patch>,
) -> Map<int, u8>
    decreases ps.len(),
{
    if ps.len() == 0 {
        mem
    } else {
        write_bytes(
            patched_memory(mem, base, table, ps.drop_last()),
            patch_target(base, table, ps.last()),
            ps.last().bytes@,
        )
    }
}

/// The absolute address `base + value + offset`, or `None` where it does not fit.
pub fn patch_address(base: usize, value: u64, offset: usize) -> (r: Option<usize>)
    ensures
        r is Some <==> base + value + offset <= usize::MAX,
        r matches Some(a) ==> a == base + value + offset,
{
    if value > (usize::MAX - base) as u64 {
        return None;
    }
    let v = value as usize;
    if offset > usize::MAX - base - v {
        return None;
    }
    Some(base + v + offset)
}

/// Whether the table has the symbol of every patch.
pub open spec fn all_present(table: Map<Seq<char>, SymbolDescriptor>, ps: Seq<Patch>) -> bool {
    forall|i: int| 0 <= i < ps.len() ==> table.contains_key(#[trigger] ps[i].symbol@)
}

/// Whether the patch's symbol is known and its bytes end within the address space.
pub open spec fn patch_fits(base: int, table: Map<Seq<char>, SymbolDescriptor>, p: Patch) -> bool {
    table.contains_key(p.symbol@) && patch_target(base, table, p) + p.bytes@.len() <= usize::MAX
}

/// Whether every patch fits.
pub open spec fn all_fit(base: int, table: Map<Seq<char>, SymbolDescriptor>, ps: Seq<Patch>) -> bool {
    forall|i: int| 0 <= i < ps.len() ==> patch_fits(base, table, #[trigger] ps[i])
}

/// Whether every word that some patch touches is mapped in `mem`.
pub open spec fn patches_mapped(
    mem: Map<int, u8>,
    base: int,
    table: Map<Seq<char>, SymbolDescriptor>,
    ps: Seq<Patch>,
) -> bool {
    forall|i: int|
        0 <= i < ps.len() ==> span_mapped(
            mem,
            patch_target(base, table, #[trigger] ps[i]),
            ps[i].bytes@.len() as int,
        )
}

/// Some patches before the one at `i` applied in full, then some whole words of that one.
pub open spec fn failed_at(
    before: Map<int, u8>,
    after: Map<int, u8>,
    base: int,
    table: Map<Seq<char>, SymbolDescriptor>,
    ps: Seq<Patch>,
) -> bool {
    exists|i: int|
        0 <= i < ps.len() && wrote_whole_words(
            patched_memory(before, base, table, #[trigger] ps.take(i)),
            after,
            patch_target(base, table, ps[i]),
            ps[i].bytes@,
        )
}

/// Writes each patch, in order, into the target.
///
/// Every symbol is looked up and every address computed before anything is written:
/// a symbol the table lacks gives `NotFound`, and then an address out of range gives
/// `WriteError`, both with memory untouched. A failed write gives `WriteError`, with
/// the patches before it applied.
pub fn write_patches<T: Tracee>(
    target: &mut T,
    base: usize,
    table: &SymbolTable,
    patches: &Vec<Patch>,
) -> (r: Result<(), ToolError>)
    ensures
        final(target).traced() == old(target).traced(),
        final(target).stopped() == old(target).stopped(),
        r is Err ==> r == Err::<(), ToolError>(ToolError::NotFound) || r == Err::<(), ToolError>(
            ToolError::WriteError,
        ),
        (r == Err::<(), ToolError>(ToolError::NotFound)) == !all_present(table@, patches@),
        !all_present(table@, patches@) ==> final(target).memory() == old(target).memory(),
        all_present(table@, patches@) && !all_fit(base as int, table@, patches@) ==> r == Err::<
            (),
            ToolError,
        >(ToolError::WriteError) && final(target).memory() == old(target).memory(),
        r is Ok ==> final(target).memory() == patched_memory(
            old(target).memory(),
            base as int,
            table@,
            patches@,
        ),
        r is Err && all_fit(base as int, table@, patches@) ==> failed_at(
            old(target).memory(),
            final(target).memory(),
            base as int,
            table@,
            patches@,
        ),
        patches@.len() == 0 ==> r is Ok && final(target).memory() == old(target).memory(),
        all_fit(base as int, table@, patches@) && old(target).traced() && old(target).stopped()
            && patches_mapped(old(target).memory(), base as int, table@, patches@) ==> r is Ok,
{
    let ghost mem0 = target.memory();
    let n = patches.len();
    let mut i: usize = 0;
    while i < n
        invariant
            i <= n,
            n == patches@.len(),
            forall|j: int| 0 <= j < i ==> table@.contains_key(#[trigger] patches@[j].symbol@),
        decreases n - i,
    {
        if table.get(patches[i].symbol.as_str()).is_none() {
            return Err(ToolError::NotFound);
        }
        i = i + 1;
    }
    let mut addrs: Vec<usize> = Vec::new();
    i = 0;
    while i < n
        invariant
            i <= n,
            n == patches@.len(),
            all_present(table@, patches@),
            addrs@.len() == i,
            forall|j: int|
                0 <= j < i ==> patch_fits(base as int, table@, #[trigger] patches@[j]) && addrs@[j]
                    == patch_target(base as int, table@, patches@[j]),
        decreases n - i,
    {
        let p = &patches[i];
        assert(table@.contains_key(patches@[i as int].symbol@));
        let value = match table.value_of(p.symbol.as_str()) {
            Ok(v) => v,
            Err(e) => {
                return Err(e);
            },
        };
        let addr = match patch_address(base, value, p.offset) {
            Some(a) => a,
            None => {
                assert(!patch_fits(base as int, table@, patches@[i as int]));
                return Err(ToolError::WriteError);
            },
        };
        if p.bytes.len() > usize::MAX - addr {
            assert(!patch_fits(base as int, table@, patches@[i as int]));
            return Err(ToolError::WriteError);
        }
        addrs.push(addr);
        i = i + 1;
    }
    assert(all_fit(base as int, table@, patches@));
    let ghost owed = target.traced() && target.stopped() && patches_mapped(
        mem0,
        base as int,
        table@,
        patches@,
    );
    i = 0;
    proof {
        assert(patches@.take(0) =~= Seq::<Patch>::empty());
    }
    while i < n
        invariant
            i <= n,
            n == patches@.len(),
            addrs@.len() == n,
            all_fit(base as int, table@, patches@),
            forall|j: int|
                0 <= j < n ==> #[trigger] addrs@[j] == patch_target(
                    base as int,
                    table@,
                    patches@[j],
                ),
            mem0 == old(target).memory(),
            target.traced() == old(target).traced(),
            target.stopped() == old(target).stopped(),
            owed == (old(target).traced() && old(target).stopped() && patches_mapped(
                mem0,
                base as int,
                table@,
                patches@,
            )),
            forall|a: int| #[trigger] mem0.dom().contains(a) ==> target.memory().dom().contains(a),
            target.memory() == patched_memory(mem0, base as int, table@, patches@.take(i as int)),
        decreases n - i,
    {
        let p = &patches[i];
        let addr = addrs[i];
        assert(patch_fits(base as int, table@, patches@[i as int]));
        proof {
            if owed {
                let t = patch_target(base as int, table@, patches@[i as int]);
                assert(span_mapped(mem0, t, p.bytes@.len() as int));
                assert forall|k: int| 0 <= k < padded_len(p.bytes@.len() as int) implies #[trigger] target.memory().dom().contains(
                    t + k,
                ) by {
                    assert(mem0.dom().contains(t + k));
                }
            }
        }
        match write_process_memory(target, addr, p.bytes.as_slice()) {
            Ok(()) => {},
            Err(e) => {
                assert(wrote_whole_words(
                    patched_memory(mem0, base as int, table@, patches@.take(i as int)),
                    target.memory(),
                    patch_target(base as int, table@, patches@[i as int]),
                    patches@[i as int].bytes@,
                ));
                assert(failed_at(mem0, target.memory(), base as int, table@, patches@));
                return Err(e);
            },
        }
        proof {
            assert(patches@.take(i + 1).drop_last() =~= patches@.take(i as int));
        }
        i = i + 1;
    }
    assert(patches@.take(i as int) =~= patches@);
    Ok(())
}

/// What a patching session reports: the outcome of attaching, waiting and patching,
/// and, where attaching succeeded, the outcome of detaching.
#[derive(Debug)]
pub struct SessionOutcome {
    pub patched: Result<(), ToolError>,
    pub detached: Option<Result<(), ToolError>>,
}

/// Attaches to the target, waits for it to stop, writes the patches and detaches.
///
/// Once attaching has succeeded, detaching is attempted whatever happened after it,
/// and both the earlier outcome and that of detaching are reported.
pub fn apply_patches<T: Tracee>(
    target: &mut T,
    base: usize,
    table: &SymbolTable,
    patches: &Vec<Patch>,
) -> (r: SessionOutcome)
    ensures
        (r.detached is None) == (r.patched == Err::<(), ToolError>(ToolError::AttachError)),
        old(target).traced() ==> r.detached is None,
        r.detached is None ==> final(target).memory() == old(target).memory() && final(target).traced() == old(target).traced() && final(target).stopped() == old(target).stopped(),
        r.detached matches Some(d) ==> (d is Ok ==> !final(target).traced() && !final(target).stopped()) && (d is Err ==> d == Err::<(), ToolError>(ToolError::DetachError)
            && final(target).traced()),
        r.patched is Err ==> r.patched == Err::<(), ToolError>(ToolError::AttachError)
            || r.patched == Err::<(), ToolError>(ToolError::WaitError) || r.patched == Err::<
            (),
            ToolError,
        >(ToolError::NotFound) || r.patched == Err::<(), ToolError>(ToolError::WriteError),
        r.patched == Err::<(), ToolError>(ToolError::WaitError) ==> final(target).memory() == old(target).memory(),
        r.patched == Err::<(), ToolError>(ToolError::NotFound) ==> !all_present(table@, patches@)
            && final(target).memory() == old(target).memory(),
        r.detached is Some && r.patched != Err::<(), ToolError>(ToolError::WaitError)
            && !all_present(table@, patches@) ==> r.patched == Err::<(), ToolError>(
            ToolError::NotFound,
        ),
        r.detached is Some && r.patched != Err::<(), ToolError>(ToolError::WaitError)
            && all_present(table@, patches@) && !all_fit(base as int, table@, patches@)
            ==> r.patched == Err::<(), ToolError>(ToolError::WriteError) && final(target).memory()
            == old(target).memory(),
        r.patched is Ok ==> final(target).memory() == patched_memory(
            old(target).memory(),
            base as int,
            table@,
            patches@,
        ),
        r.patched == Err::<(), ToolError>(ToolError::WriteError) && all_fit(
            base as int,
            table@,
            patches@,
        ) ==> failed_at(old(target).memory(), final(target).memory(), base as int, table@, patches@),
        r.detached is Some && r.patched != Err::<(), ToolError>(ToolError::WaitError) && all_fit(
            base as int,
            table@,
            patches@,
        ) && patches_mapped(old(target).memory(), base as int, table@, patches@)
            ==> r.patched is Ok,
{
    match target.attach() {
        Ok(()) => {},
        Err(e) => {
            return SessionOutcome { patched: Err(e), detached: None };
        },
    }
    let patched = match target.wait_for_stop() {
        Ok(()) => write_patches(target, base, table, patches),
        Err(e) => Err(e),
    };
    let detached = target.detach();
    SessionOutcome { patched, detached: Some(detached) }
}

} // verus!
