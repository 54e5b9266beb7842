//! Little-endian fixed-width fields in a byte buffer.
use vstd::arithmetic::div_mod::*;
use vstd::prelude::*;

verus! {

/// Bytes of persistent state that the strategy keeps between calls.
pub const STORAGE_SIZE: usize = 1024;

/// Offsets of the state fields inside the storage buffer.
pub const TRADE_COUNT_AT: usize = 0;
pub const RETAIL_COUNT_AT: usize = 4;
pub const SIGMA_SQ_AT: usize = 8;
pub const SAMPLE_COUNT_AT: usize = 16;
pub const LAST_STEP_AT: usize = 24;
pub const FEE_AT: usize = 32;
pub const LOG_PRICE_AT: usize = 34;
pub const WINDOW_COUNT_AT: usize = 42;
pub const SKEW_AT: usize = 46;
pub const FLOW_SHARE_AT: usize = 48;
pub const BLEND_AT: usize = 56;

/// `256^w`.
pub open spec fn pow256(w: nat) -> nat
    decreases w,
{
    if w == 0 { 1 } else { 256 * pow256((w - 1) as nat) }
}

/// The number that `bytes` encode, least significant byte first.
pub open spec fn le_decode(bytes: Seq<u8>) -> nat
    decreases bytes.len(),
{
    if bytes.len() == 0 { 0 } else { bytes[0] as nat + 256 * le_decode(bytes.drop_first()) }
}

/// The `w` bytes that encode `v` modulo `256^w`, least significant first.
pub open spec fn le_bytes(v: nat, w: nat) -> Seq<u8> {
    Seq::new(w, |i: int| ((v / pow256(i as nat)) % 256) as u8)
}

/// The two's-complement reading of a 16-bit pattern.
pub open spec fn signed16(u: nat) -> int {
    if u < 0x8000 { u as int } else { u - 0x1_0000 }
}

/// The 16-bit pattern of a two's-complement value.
pub open spec fn unsigned16(v: int) -> nat {
    if v < 0 { (v + 0x1_0000) as nat } else { v as nat }
}

/// Whether a field of `w` bytes at `off` lies inside a buffer of `len` bytes.
pub open spec fn fits(len: nat, off: int, w: nat) -> bool {
    0 <= off && off + w <= len
}

/// The field of `w` bytes at `off`, or 0 where it does not fit.
pub open spec fn get_le(s: Seq<u8>, off: int, w: nat) -> nat {
    if fits(s.len(), off, w) { le_decode(s.subrange(off, off + w)) } else { 0 }
}

/// `s` with the field of `w` bytes at `off` set to `v`; unchanged where it does not fit.
pub open spec fn put_le(s: Seq<u8>, off: int, w: nat, v: nat) -> Seq<u8> {
    if fits(s.len(), off, w) {
        s.subrange(0, off) + le_bytes(v, w) + s.subrange(off + w, s.len() as int)
    } else {
        s
    }
}

pub proof fn lemma_pow256_pos(w: nat)
    ensures
        pow256(w) > 0,
    decreases w,
{
    if w > 0 {
        lemma_pow256_pos((w - 1) as nat);
    }
}

pub proof fn lemma_pow256_values()
    ensures
        pow256(1) == 256,
        pow256(2) == 0x1_0000,
        pow256(4) == 0x1_0000_0000,
        pow256(8) == 0x1_0000_0000_0000_0000,
{
    reveal_with_fuel(pow256, 9);
}

/// A decoded field is below `256^len`.
pub proof fn lemma_le_decode_bound(bytes: Seq<u8>)
    ensures
        le_decode(bytes) < pow256(bytes.len()),
    decreases bytes.len(),
{
    if bytes.len() > 0 {
        lemma_le_decode_bound(bytes.drop_first());
        let r = le_decode(bytes.drop_first());
        let p = pow256((bytes.len() - 1) as nat);
        assert(256 * r + 255 < 256 * p) by (nonlinear_arith)
            requires r < p;
    }
}

pub proof fn lemma_pow256_mono(a: nat, b: nat)
    requires
        a <= b,
    ensures
        pow256(a) <= pow256(b),
    decreases b,
{
    if a < b {
        lemma_pow256_mono(a, (b - 1) as nat);
    }
}

/// A field read is below `256^w`.
pub proof fn lemma_get_le_bound(s: Seq<u8>, off: int, w: nat)
    ensures
        get_le(s, off, w) < pow256(w),
{
    lemma_pow256_pos(w);
    if fits(s.len(), off, w) {
        lemma_le_decode_bound(s.subrange(off, off + w));
    }
}

/// Decoding the bytes of an encoding gives the value back, modulo `256^w`.
pub proof fn lemma_le_roundtrip(v: nat, w: nat)
    ensures
        le_decode(le_bytes(v, w)) == v % pow256(w),
    decreases w,
{
    assert(pow256(0) == 1);
    if w == 0 {
        assert(le_bytes(v, w).len() == 0);
    } else {
        lemma_div_basics(v as int);
        assert(le_bytes(v, w)[0] == v % 256);
        let rest = (w - 1) as nat;
        assert forall|i: int| 0 <= i < rest implies #[trigger] le_bytes(v, w).drop_first()[i]
            == le_bytes(v / 256, rest)[i] by {
            lemma_pow256_pos(i as nat);
            lemma_div_denominator(v as int, 256, pow256(i as nat) as int);
        }
        assert(le_bytes(v, w).drop_first() =~= le_bytes(v / 256, rest));
        lemma_le_roundtrip(v / 256, rest);
        lemma_pow256_pos(rest);
        lemma_mod_breakdown(v as int, 256, pow256(rest) as int);
        assert(pow256(0) == 1);
    }
}

/// A buffer of zero bytes.
pub open spec fn all_zero(s: Seq<u8>) -> bool {
    forall|i: int| 0 <= i < s.len() ==> s[i] == 0
}

/// Every field of a zeroed buffer reads 0.
pub proof fn lemma_get_le_zero(s: Seq<u8>, off: int, w: nat)
    requires
        all_zero(s),
    ensures
        get_le(s, off, w) == 0,
{
    if fits(s.len(), off, w) {
        lemma_le_decode_zero(s.subrange(off, off + w));
    }
}

proof fn lemma_le_decode_zero(bytes: Seq<u8>)
    requires
        all_zero(bytes),
    ensures
        le_decode(bytes) == 0,
    decreases bytes.len(),
{
    if bytes.len() > 0 {
        lemma_le_decode_zero(bytes.drop_first());
    }
}

/// A write keeps the length of the buffer.
pub proof fn lemma_put_le_len(s: Seq<u8>, off: int, w: nat, v: nat)
    ensures
        put_le(s, off, w, v).len() == s.len(),
{
}

/// A field read after a write gives back the written value (modulo `256^w`) where
/// the field fits, and reads what it read before wherever the two fields do not
/// overlap.
pub proof fn lemma_get_put(s: Seq<u8>, off: int, w: nat, v: nat)
    ensures
        fits(s.len(), off, w) ==> get_le(put_le(s, off, w, v), off, w) == v % pow256(w),
        forall|off2: int, w2: nat|
            off2 + w2 <= off || off + w <= off2 ==> #[trigger] get_le(put_le(s, off, w, v), off2, w2)
                == get_le(s, off2, w2),
{
    let t = put_le(s, off, w, v);
    if fits(s.len(), off, w) {
        assert(t.subrange(off, off + w) =~= le_bytes(v, w));
        lemma_le_roundtrip(v, w);
        assert forall|off2: int, w2: nat|
            off2 + w2 <= off || off + w <= off2 implies #[trigger] get_le(t, off2, w2) == get_le(
                s,
                off2,
                w2,
            ) by {
            if fits(s.len(), off2, w2) {
                assert(t.subrange(off2, off2 + w2) =~= s.subrange(off2, off2 + w2));
            }
        }
    }
}

/// Reads the `width`-byte field at `offset` of a buffer it fits in.
fn read_le(storage: &[u8], offset: usize, width: usize) -> (r: u64)
    requires
        width <= 8,
        offset + width <= storage@.len(),
    ensures
        r == le_decode(storage@.subrange(offset as int, offset + width)),
{
    let n = storage.len();
    let mut acc: u64 = 0;
    let mut k: usize = width;
    while k > 0
        invariant
            k <= width <= 8,
            n == storage@.len(),
            offset + width <= n,
            acc == le_decode(storage@.subrange(offset + k, offset + width)),
        decreases k,
    {
        k -= 1;
        proof {
            let tail = storage@.subrange(offset + k + 1, offset + width);
            lemma_le_decode_bound(tail);
            lemma_pow256_mono(tail.len(), 7);
            lemma_pow256_values();
            reveal_with_fuel(pow256, 8);
            assert(storage@.subrange(offset + k, offset + width).drop_first() =~= tail);
        }
        acc = acc * 256 + storage[offset + k] as u64;
    }
    acc
}

/// Writes `val` into the `width`-byte field at `offset` of a buffer it fits in.
fn write_le(storage: &mut [u8], offset: usize, width: usize, val: u64)
    requires
        width <= 8,
        offset + width <= old(storage)@.len(),
    ensures
        final(storage)@ == put_le(old(storage)@, offset as int, width as nat, val as nat),
{
    let ghost s0 = storage@;
    let n = storage.len();
    let mut v: u64 = val;
    let mut i: usize = 0;
    assert(pow256(0) == 1);
    while i < width
        invariant
            i <= width <= 8,
            n == s0.len(),
            offset + width <= s0.len(),
            storage@.len() == s0.len(),
            v == (val as nat) / pow256(i as nat),
            forall|j: int|
                0 <= j < s0.len() ==> #[trigger] storage@[j] == if offset <= j < offset + i {
                    le_bytes(val as nat, width as nat)[j - offset]
                } else {
                    s0[j]
                },
        decreases width - i,
    {
        proof {
            lemma_pow256_pos(i as nat);
            lemma_div_denominator(val as int, pow256(i as nat) as int, 256);
        }
        storage[offset + i] = (v % 256) as u8;
        v = v / 256;
        i += 1;
    }
    assert(storage@ =~= put_le(s0, offset as int, width as nat, val as nat));
}

/// The byte at `offset`, or 0 past the end.
pub fn read_u8(storage: &[u8], offset: usize) -> (r: u8)
    ensures
        r == get_le(storage@, offset as int, 1),
{
    if offset >= storage.len() {
        return 0;
    }
    proof {
        reveal_with_fuel(le_decode, 2);
        assert(storage@.subrange(offset as int, offset + 1).drop_first().len() == 0);
    }
    storage[offset]
}

/// The little-endian `u16` at `offset`, or 0 where it does not fit.
pub fn read_u16(storage: &[u8], offset: usize) -> (r: u16)
    requires
        offset + 2 <= usize::MAX,
    ensures
        r == get_le(storage@, offset as int, 2),
{
    if offset + 2 > storage.len() {
        return 0;
    }
    let v = read_le(storage, offset, 2);
    proof {
        lemma_le_decode_bound(storage@.subrange(offset as int, offset + 2));
        lemma_pow256_values();
    }
    v as u16
}

/// The little-endian two's-complement `i16` at `offset`, or 0 where it does not fit.
pub fn read_i16(storage: &[u8], offset: usize) -> (r: i16)
    requires
        offset + 2 <= usize::MAX,
    ensures
        r == signed16(get_le(storage@, offset as int, 2)),
{
    let u = read_u16(storage, offset);
    if u < 0x8000 {
        u as i16
    } else {
        (u as i32 - 0x1_0000) as i16
    }
}

/// The little-endian `u32` at `offset`, or 0 where it does not fit.
pub fn read_u32(storage: &[u8], offset: usize) -> (r: u32)
    requires
        offset + 4 <= usize::MAX,
    ensures
        r == get_le(storage@, offset as int, 4),
{
    if offset + 4 > storage.len() {
        return 0;
    }
    let v = read_le(storage, offset, 4);
    proof {
        lemma_le_decode_bound(storage@.subrange(offset as int, offset + 4));
        lemma_pow256_values();
    }
    v as u32
}

/// The little-endian `u64` at `offset`, or 0 where it does not fit.
pub fn read_u64(storage: &[u8], offset: usize) -> (r: u64)
    requires
        offset + 8 <= usize::MAX,
    ensures
        r == get_le(storage@, offset as int, 8),
{
    if offset + 8 > storage.len() {
        return 0;
    }
    read_le(storage, offset, 8)
}

/// Sets the byte at `offset`; does nothing past the end.
pub fn write_u8(storage: &mut [u8], offset: usize, val: u8)
    ensures
        final(storage)@ == put_le(old(storage)@, offset as int, 1, val as nat),
{
    if offset >= storage.len() {
        return;
    }
    write_le(storage, offset, 1, val as u64);
}

/// Stores `val` little-endian at `offset`; does nothing where it does not fit.
pub fn write_u16(storage: &mut [u8], offset: usize, val: u16)
    requires
        offset + 2 <= usize::MAX,
    ensures
        final(storage)@ == put_le(old(storage)@, offset as int, 2, val as nat),
{
    if offset + 2 > storage.len() {
        return;
    }
    write_le(storage, offset, 2, val as u64);
}

/// Stores `val` in two's complement, little-endian, at `offset`; does nothing where it
/// does not fit.
pub fn write_i16(storage: &mut [u8], offset: usize, val: i16)
    requires
        offset + 2 <= usize::MAX,
    ensures
        final(storage)@ == put_le(old(storage)@, offset as int, 2, unsigned16(val as int)),
{
    let u: u16 = if val < 0 {
        (val as i32 + 0x1_0000) as u16
    } else {
        val as u16
    };
    write_u16(storage, offset, u);
}

/// Stores `val` little-endian at `offset`; does nothing where it does not fit.
pub fn write_u32(storage: &mut [u8], offset: usize, val: u32)
    requires
        offset + 4 <= usize::MAX,
    ensures
        final(storage)@ == put_le(old(storage)@, offset as int, 4, val as nat),
{
    if offset + 4 > storage.len() {
        return;
    }
    write_le(storage, offset, 4, val as u64);
}

/// Stores `val` little-endian at `offset`; does nothing where it does not fit.
pub fn write_u64(storage: &mut [u8], offset: usize, val: u64)
    requires
        offset + 8 <= usize::MAX,
    ensures
        final(storage)@ == put_le(old(storage)@, offset as int, 8, val as nat),
{
    if offset + 8 > storage.len() {
        return;
    }
    write_le(storage, offset, 8, val as u64);
}

/// `val` limited to `[min, max]`: `min` below it, `max` above it.
pub fn clamp_u16(val: u16, min: u16, max: u16) -> (r: u16)
    ensures
        r == (if val < min { min } else if val > max { max } else { val }),
{
    if val < min {
        min
    } else if val > max {
        max
    } else {
        val
    }
}

} // verus!
