//! The bit-stream model shared by the serializer and the frame codecs.
//!
//! A byte buffer is read as a stream of bits: bit `k` of the stream is bit
//! `k % 8` of byte `k / 8`, counting from the least significant bit.
use vstd::prelude::*;

verus! {

/// Bit `i` of `v`, counting from the least significant bit.
pub open spec fn bit_of(v: u64, i: nat) -> bool {
    i < 64 && (v >> (i as u64)) & 1 == 1
}

/// Bit `i` of the byte `b`, counting from the least significant bit.
pub open spec fn byte_bit(b: u8, i: nat) -> bool {
    i < 8 && (b >> (i as u8)) & 1 == 1
}

/// The stream of bits that a byte buffer holds, least significant bit first.
pub open spec fn stream_bits(bytes: Seq<u8>) -> Seq<bool> {
    Seq::new(8 * bytes.len(), |k: int| byte_bit(bytes[k / 8], (k % 8) as nat))
}

/// The `w` low bits of `v`, least significant first.
pub open spec fn value_bits(v: u64, w: nat) -> Seq<bool> {
    Seq::new(w, |i: int| bit_of(v, i as nat))
}

/// A mask of the `w` low bits of a `u64`.
pub open spec fn low_mask(w: u64) -> u64 {
    if w >= 64 {
        0xffff_ffff_ffff_ffffu64
    } else {
        ((1u64 << w) - 1) as u64
    }
}


/// No bit of zero is set.
pub proof fn lemma_zero_bit(j: u64)
    by (bit_vector)
    ensures
        (0u64 >> j) & 1 == 0,
{
}

/// Setting bit `i` of a word changes that bit alone.
pub proof fn lemma_set_word_bit(r: u64, i: u64, j: u64)
    requires
        i < 64,
        j < 64,
    ensures
        ((r | (1u64 << i)) >> j) & 1 == if j == i { 1u64 } else { (r >> j) & 1 },
{
    assert(((r | (1u64 << i)) >> j) & 1 == if j == i { 1u64 } else { (r >> j) & 1 })
        by (bit_vector)
        requires
            i < 64,
            j < 64,
    ;
}

/// Setting bit `s` of a byte changes that bit alone.
pub proof fn lemma_set_byte_bit(b: u8, s: u8, t: u8)
    requires
        s < 8,
        t < 8,
    ensures
        ((b | (1u8 << s)) >> t) & 1 == if t == s { 1u8 } else { (b >> t) & 1 },
{
    assert(((b | (1u8 << s)) >> t) & 1 == if t == s { 1u8 } else { (b >> t) & 1 })
        by (bit_vector)
        requires
            s < 8,
            t < 8,
    ;
}

/// Reads bit `k` of the stream that `buf` holds.
pub fn read_bit(buf: &[u8], k: usize) -> (r: bool)
    requires
        k < 8 * buf@.len(),
    ensures
        r == stream_bits(buf@)[k as int],
{
    let byte = buf[k / 8];
    let s: u8 = (k % 8) as u8;
    byte >> s & 1 == 1
}

/// Reads `w` bits of the stream that `buf` holds, starting at bit `pos`,
/// into the low bits of a word; the other bits of the word are clear.
pub fn read_bits(buf: &[u8], pos: usize, w: usize) -> (r: u64)
    requires
        w <= 64,
        pos + w <= 8 * buf@.len(),
        pos + w <= usize::MAX,
    ensures
        value_bits(r, w as nat) == stream_bits(buf@).subrange(pos as int, pos + w),
        forall|j: nat| w <= j ==> !#[trigger] bit_of(r, j),
{
    let mut r: u64 = 0;
    let mut i: usize = 0;
    assert forall|j: nat| 0 <= j implies !#[trigger] bit_of(0u64, j) by {
        if j < 64 {
            let jj = j as u64;
            lemma_zero_bit(jj);
        }
    }
    while i < w
        invariant
            i <= w,
            w <= 64,
            pos + w <= 8 * buf@.len(),
            pos + w <= usize::MAX,
            forall|j: nat| j < i ==> #[trigger] bit_of(r, j) == stream_bits(buf@)[pos + j],
            forall|j: nat| i <= j ==> !#[trigger] bit_of(r, j),
        decreases w - i,
    {
        let b = read_bit(buf, pos + i);
        if b {
            let ghost old_r = r;
            r = r | (1u64 << i as u64);
            assert forall|j: nat| #[trigger] bit_of(r, j) == (if j == i {
                true
            } else {
                bit_of(old_r, j)
            }) by {
                if j < 64 {
                    lemma_set_word_bit(old_r, i as u64, j as u64);
                }
            }
        }
        i = i + 1;
    }
    assert(value_bits(r, w as nat) =~= stream_bits(buf@).subrange(pos as int, pos + w));
    r
}

/// The stream after writing `bits` at bit `pos` over the stream `s`.
pub open spec fn overwrite(s: Seq<bool>, pos: int, bits: Seq<bool>) -> Seq<bool> {
    Seq::new(s.len(), |k: int| if pos <= k < pos + bits.len() { bits[k - pos] } else { s[k] })
}

/// Sets bit `k` of the stream that `buf` holds.
pub fn set_bit(buf: &mut Vec<u8>, k: usize)
    requires
        k < 8 * old(buf)@.len(),
    ensures
        final(buf)@.len() == old(buf)@.len(),
        stream_bits(final(buf)@) == stream_bits(old(buf)@).update(k as int, true),
{
    let byte = buf[k / 8];
    let s: u8 = (k % 8) as u8;
    let nb = byte | (1u8 << s);
    buf.set(k / 8, nb);
    proof {
        assert forall|t: u8| t < 8 implies ((nb >> t) & 1 == 1) == (if t == s {
            true
        } else {
            (byte >> t) & 1 == 1
        }) by {
            lemma_set_byte_bit(byte, s, t);
        }
        let a = stream_bits(buf@);
        let b = stream_bits(old(buf)@).update(k as int, true);
        assert forall|q: int| 0 <= q < a.len() implies a[q] == b[q] by {
            let t = (q % 8) as u8;
            assert(t < 8);
            if q / 8 == k / 8 {
                assert(q == k <==> t == s);
            }
        }
        assert(a =~= b);
    }
}

/// Writes the `w` low bits of `v` into the stream that `buf` holds, at bit
/// `pos`, over bits that are clear.
pub fn write_bits(buf: &mut Vec<u8>, pos: usize, v: u64, w: usize)
    requires
        w <= 64,
        pos + w <= 8 * old(buf)@.len(),
        pos + w <= usize::MAX,
        forall|k: int| pos <= k < pos + w ==> !#[trigger] stream_bits(old(buf)@)[k],
    ensures
        final(buf)@.len() == old(buf)@.len(),
        stream_bits(final(buf)@) == overwrite(
            stream_bits(old(buf)@),
            pos as int,
            value_bits(v, w as nat),
        ),
{
    let ghost s0 = stream_bits(buf@);
    let mut i: usize = 0;
    while i < w
        invariant
            i <= w,
            w <= 64,
            buf@.len() == old(buf)@.len(),
            pos + w <= 8 * buf@.len(),
            pos + w <= usize::MAX,
            s0 == stream_bits(old(buf)@),
            stream_bits(buf@) == overwrite(s0, pos as int, value_bits(v, i as nat)),
            forall|k: int| pos + i <= k < pos + w ==> !#[trigger] s0[k],
        decreases w - i,
    {
        let bit = (v >> i as u64) & 1 == 1;
        assert(bit == bit_of(v, i as nat));
        if bit {
            set_bit(buf, pos + i);
        }
        proof {
            let next = overwrite(s0, pos as int, value_bits(v, (i + 1) as nat));
            assert(stream_bits(buf@) =~= next);
        }
        i = i + 1;
    }
}

/// The number that a sequence of bits spells, least significant first.
pub open spec fn bits_value(b: Seq<bool>) -> nat
    decreases b.len(),
{
    if b.len() == 0 {
        0
    } else {
        (if b[0] {
            1nat
        } else {
            0nat
        }) + 2 * bits_value(b.skip(1))
    }
}

/// A word whose bits from `w` on are clear is the number its `w` low bits
/// spell.
pub proof fn lemma_bits_value(r: u64, w: nat)
    requires
        w <= 64,
        forall|j: nat| w <= j ==> !#[trigger] bit_of(r, j),
    ensures
        r as nat == bits_value(value_bits(r, w)),
    decreases w,
{
    if w == 0 {
        lemma_clear_is_zero(r);
    } else {
        let h = r >> 1u64;
        assert forall|j: nat| (w - 1) as nat <= j implies !#[trigger] bit_of(h, j) by {
            if j < 64 {
                lemma_half_bits(r, j as u64);
                if j < 63 {
                    assert(!bit_of(r, j + 1));
                }
            }
        }
        lemma_bits_value(h, (w - 1) as nat);
        assert forall|i: int| 0 <= i < w - 1 implies value_bits(r, w).skip(1)[i] == value_bits(
            h,
            (w - 1) as nat,
        )[i] by {
            lemma_half_bits(r, i as u64);
        }
        assert(value_bits(r, w).skip(1) =~= value_bits(h, (w - 1) as nat));
        assert(r == 2 * (r >> 1u64) + (r & 1)) by (bit_vector);
        assert((r & 1 == 1) == ((r >> 0u64) & 1 == 1)) by (bit_vector);
        assert(r & 1 == 1 || r & 1 == 0) by (bit_vector);
    }
}

/// The bits of a word shifted right by one are its bits from bit 1 on.
proof fn lemma_half_bits(r: u64, j: u64)
    by (bit_vector)
    requires
        j < 64,
    ensures
        j < 63 ==> ((r >> 1u64) >> j) & 1 == (r >> (j + 1)) & 1,
        j == 63 ==> ((r >> 1u64) >> j) & 1 == 0,
{
}

proof fn lemma_clear_is_zero(r: u64)
    requires
        forall|j: nat| 0 <= j ==> !#[trigger] bit_of(r, j),
    ensures
        r == 0,
    decreases r,
{
    if r != 0 {
        let h = r >> 1u64;
        assert forall|j: nat| 0 <= j implies !#[trigger] bit_of(h, j) by {
            if j < 64 {
                lemma_half_bits(r, j as u64);
                if j < 63 {
                    assert(!bit_of(r, j + 1));
                }
            }
        }
        assert(r != 0 ==> r >> 1u64 < r) by (bit_vector);
        lemma_clear_is_zero(h);
        assert(!bit_of(r, 0));
        assert(((r >> 1u64) == 0 && (r >> 0u64) & 1 != 1) ==> r == 0) by (bit_vector);
    }
}

} // verus!
