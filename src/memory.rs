use vstd::prelude::*;

verus! {

/// Width in bytes of one word of the target's address space.
pub const WORD_SIZE: usize = 8;

/// Byte `k` (counting from the least significant) of a word.
pub open spec fn byte_of(w: u64, k: int) -> u8 {
    ((w >> (8 * k) as u64) & 0xff) as u8
}

/// The bytes of a word in little-endian order.
pub open spec fn word_bytes(w: u64) -> Seq<u8> {
    Seq::new(8, |k: int| byte_of(w, k))
}

/// The word whose little-endian bytes are the first eight of `s`.
pub open spec fn le_word(s: Seq<u8>) -> u64
    recommends
        s.len() >= 8,
{
    (s[0] as u64) | ((s[1] as u64) << 8u64) | ((s[2] as u64) << 16u64) | ((s[3] as u64) << 24u64)
        | ((s[4] as u64) << 32u64) | ((s[5] as u64) << 40u64) | ((s[6] as u64) << 48u64) | ((
    s[7] as u64) << 56u64)
}

/// The eight bytes of `mem` starting at `addr`.
pub open spec fn word_at(mem: Map<int, u8>, addr: int) -> Seq<u8> {
    Seq::new(8, |k: int| mem[addr + k])
}

/// Whether all eight bytes starting at `addr` are mapped in `mem`.
pub open spec fn word_mapped(mem: Map<int, u8>, addr: int) -> bool {
    forall|k: int| 0 <= k < 8 ==> #[trigger] mem.dom().contains(addr + k)
}

/// `mem` with the bytes of `b` placed from `addr` on, everything else kept.
pub open spec fn write_bytes(mem: Map<int, u8>, addr: int, b: Seq<u8>) -> Map<int, u8> {
    Map::new(
        |a: int| mem.dom().contains(a) || (addr <= a < addr + b.len()),
        |a: int|
            if addr <= a < addr + b.len() {
                b[a - addr]
            } else {
                mem[a]
            },
    )
}

/// `mem` after one word `w` is stored at `addr`.
pub open spec fn store_word(mem: Map<int, u8>, addr: int, w: u64) -> Map<int, u8> {
    write_bytes(mem, addr, word_bytes(w))
}

/// The little-endian bytes of the word that `le_word` builds are the bytes it was built from.
pub proof fn lemma_word_bytes_of_le_word(s: Seq<u8>)
    requires
        s.len() == 8,
    ensures
        word_bytes(le_word(s)) == s,
{
    let (b0, b1, b2, b3, b4, b5, b6, b7) = (s[0], s[1], s[2], s[3], s[4], s[5], s[6], s[7]);
    let w = le_word(s);
    assert(w == (b0 as u64) | ((b1 as u64) << 8u64) | ((b2 as u64) << 16u64) | ((b3 as u64)
        << 24u64) | ((b4 as u64) << 32u64) | ((b5 as u64) << 40u64) | ((b6 as u64) << 48u64) | ((
    b7 as u64) << 56u64));
    assert(((w >> 0u64) & 0xff) as u8 == b0 && ((w >> 8u64) & 0xff) as u8 == b1 && ((w >> 16u64)
        & 0xff) as u8 == b2 && ((w >> 24u64) & 0xff) as u8 == b3 && ((w >> 32u64) & 0xff) as u8
        == b4 && ((w >> 40u64) & 0xff) as u8 == b5 && ((w >> 48u64) & 0xff) as u8 == b6 && ((w
        >> 56u64) & 0xff) as u8 == b7) by (bit_vector)
        requires
            w == (b0 as u64) | ((b1 as u64) << 8u64) | ((b2 as u64) << 16u64) | ((b3 as u64)
                << 24u64) | ((b4 as u64) << 32u64) | ((b5 as u64) << 40u64) | ((b6 as u64)
                << 48u64) | ((b7 as u64) << 56u64),
    ;
    assert(word_bytes(w) =~= s);
}

/// Two writes at adjacent places are one write of the joined bytes.
pub proof fn lemma_write_bytes_concat(mem: Map<int, u8>, addr: int, x: Seq<u8>, y: Seq<u8>)
    ensures
        write_bytes(write_bytes(mem, addr, x), addr + x.len(), y) == write_bytes(mem, addr, x + y),
{
    assert(write_bytes(write_bytes(mem, addr, x), addr + x.len(), y) =~= write_bytes(
        mem,
        addr,
        x + y,
    ));
}

/// Writing a one-word buffer and reading back the word at the same address gives the buffer.
pub proof fn lemma_word_write_round_trip(mem: Map<int, u8>, addr: int, b: Seq<u8>)
    requires
        b.len() == 8,
    ensures
        word_mapped(write_bytes(mem, addr, b), addr),
        word_at(write_bytes(mem, addr, b), addr) == b,
{
    assert(word_at(write_bytes(mem, addr, b), addr) =~= b);
}

/// Writing fewer bytes than a word changes only those leading bytes of the word.
pub proof fn lemma_short_write_keeps_tail(mem: Map<int, u8>, addr: int, b: Seq<u8>)
    requires
        b.len() < 8,
        word_mapped(mem, addr),
    ensures
        word_mapped(write_bytes(mem, addr, b), addr),
        word_at(write_bytes(mem, addr, b), addr) == b + word_at(mem, addr).skip(b.len() as int),
        forall|k: int|
            b.len() <= k < 8 ==> #[trigger] write_bytes(mem, addr, b)[addr + k] == mem[addr + k],
{
    assert(word_at(write_bytes(mem, addr, b), addr) =~= b + word_at(mem, addr).skip(
        b.len() as int,
    ));
}

/// Writing the same bytes twice at one address leaves what writing them once leaves.
pub proof fn lemma_write_idempotent(mem: Map<int, u8>, addr: int, b: Seq<u8>)
    ensures
        write_bytes(write_bytes(mem, addr, b), addr, b) == write_bytes(mem, addr, b),
{
    assert(write_bytes(write_bytes(mem, addr, b), addr, b) =~= write_bytes(mem, addr, b));
}

/// Storing a word that was spliced from a short piece and the word already at that
/// place writes just the piece.
pub proof fn lemma_store_spliced_word(
    mem: Map<int, u8>,
    addr: int,
    chunk: Seq<u8>,
    current: u64,
    merged: u64,
)
    requires
        chunk.len() < 8,
        word_mapped(mem, addr),
        word_bytes(current) == word_at(mem, addr),
        word_bytes(merged) == chunk + word_bytes(current).skip(chunk.len() as int),
    ensures
        store_word(mem, addr, merged) == write_bytes(mem, addr, chunk),
{
    let lhs = store_word(mem, addr, merged);
    let rhs = write_bytes(mem, addr, chunk);
    assert forall|a: int| #[trigger] lhs.dom().contains(a) == rhs.dom().contains(a) by {
        if addr <= a < addr + 8 {
            assert(mem.dom().contains(addr + (a - addr)));
        }
    }
    assert forall|a: int| #[trigger] lhs.dom().contains(a) implies lhs[a] == rhs[a] by {
        if addr + chunk.len() <= a < addr + 8 {
            let k = a - addr;
            assert(mem.dom().contains(addr + k));
            assert(word_at(mem, addr)[k] == mem[addr + k]);
            assert(word_bytes(merged)[k] == word_bytes(current).skip(chunk.len() as int)[k
                - chunk.len()]);
        }
    }
    assert(lhs =~= rhs);
}

/// Relies on byteorder's `LittleEndian::read_uint`: with `nbytes` equal to 8 it
/// returns the little-endian value of the first eight bytes of the buffer.
#[verifier::external_body]
fn read_le_word(buf: &[u8]) -> (r: u64)
    requires
        buf@.len() >= 8,
    ensures
        r == le_word(buf@),
{
    <byteorder::LittleEndian as byteorder::ByteOrder>::read_uint(buf, 8)
}

/// The word whose little-endian bytes are exactly `chunk`.
pub fn word_from_chunk(chunk: &[u8]) -> (r: u64)
    requires
        chunk@.len() == WORD_SIZE,
    ensures
        word_bytes(r) == chunk@,
{
    let r = read_le_word(chunk);
    proof {
        lemma_word_bytes_of_le_word(chunk@);
    }
    r
}

/// The word that holds `chunk` in its leading bytes and the trailing bytes of `current`.
pub fn splice_word(current: u64, chunk: &[u8]) -> (r: u64)
    requires
        chunk@.len() < WORD_SIZE,
    ensures
        word_bytes(r) == chunk@ + word_bytes(current).skip(chunk@.len() as int),
{
    let mut merged: Vec<u8> = Vec::new();
    let mut k: usize = 0;
    while k < WORD_SIZE
        invariant
            k <= WORD_SIZE,
            chunk@.len() < WORD_SIZE,
            merged@.len() == k,
            forall|j: int|
                0 <= j < k ==> #[trigger] merged@[j] == (if j < chunk@.len() {
                    chunk@[j]
                } else {
                    byte_of(current, j)
                }),
        decreases WORD_SIZE - k,
    {
        let byte: u8 = if k < chunk.len() {
            chunk[k]
        } else {
            ((current >> (8 * k) as u64) & 0xff) as u8
        };
        merged.push(byte);
        k = k + 1;
    }
    let r = read_le_word(merged.as_slice());
    proof {
        lemma_word_bytes_of_le_word(merged@);
        assert(merged@ =~= chunk@ + word_bytes(current).skip(chunk@.len() as int));
    }
    r
}

} // verus!
