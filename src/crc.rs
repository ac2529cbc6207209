//! The transport CRC: CRC-16-CCITT, polynomial 0x1021, initial value 0xFFFF,
//! no reflection and no final XOR.
use vstd::prelude::*;

verus! {

/// The value the CRC register starts from.
pub const CRC_INIT: u16 = 0xffff;

/// One step of the register: shift left by one bit, and where a set bit
/// falls out, add the polynomial.
pub open spec fn crc_shift(c: u16) -> u16 {
    if c & 0x8000 != 0 {
        ((c << 1u16) ^ 0x1021u16) as u16
    } else {
        (c << 1u16) as u16
    }
}

/// `n` steps of the register.
pub open spec fn crc_shift_n(c: u16, n: nat) -> u16
    decreases n,
{
    if n == 0 {
        c
    } else {
        crc_shift(crc_shift_n(c, (n - 1) as nat))
    }
}

/// The register after taking in the byte `b`, most significant bit first.
pub open spec fn crc_byte(c: u16, b: u8) -> u16 {
    crc_shift_n(c ^ ((b as u16) << 8u16), 8)
}

/// The register after taking in `data` from the value `c`.
pub open spec fn crc_from(c: u16, data: Seq<u8>) -> u16
    decreases data.len(),
{
    if data.len() == 0 {
        c
    } else {
        crc_byte(crc_from(c, data.drop_last()), data.last())
    }
}

/// The transport CRC of `data`.
pub open spec fn crc16(data: Seq<u8>) -> u16 {
    crc_from(CRC_INIT, data)
}

/// Computes the transport CRC of `data`.
pub fn crc_of(data: &[u8]) -> (r: u16)
    ensures
        r == crc16(data@),
{
    let mut c: u16 = CRC_INIT;
    let mut i: usize = 0;
    while i < data.len()
        invariant
            i <= data@.len(),
            c == crc_from(CRC_INIT, data@.take(i as int)),
        decreases data@.len() - i,
    {
        let ghost prev = c;
        c = c ^ ((data[i] as u16) << 8u16);
        let mut j: usize = 0;
        while j < 8
            invariant
                j <= 8,
                c == crc_shift_n(prev ^ ((data@[i as int] as u16) << 8u16), j as nat),
            decreases 8 - j,
        {
            if c & 0x8000 != 0 {
                c = (c << 1u16) ^ 0x1021u16;
            } else {
                c = c << 1u16;
            }
            j = j + 1;
        }
        assert(data@.take(i as int + 1).drop_last() =~= data@.take(i as int));
        i = i + 1;
    }
    assert(data@.take(i as int) =~= data@);
    c
}

/// The bytewise XOR of two sequences of one length.
pub open spec fn xor_seq(a: Seq<u8>, b: Seq<u8>) -> Seq<u8> {
    Seq::new(a.len(), |i: int| a[i] ^ b[i])
}

/// `data` with bit `k` flipped: bit `k % 8` of byte `k / 8`.
pub open spec fn flip_bit(data: Seq<u8>, k: nat) -> Seq<u8> {
    data.update((k / 8) as int, data[(k / 8) as int] ^ (1u8 << ((k % 8) as u8)))
}

proof fn lemma_shift_linear(a: u16, b: u16)
    ensures
        crc_shift(a ^ b) == crc_shift(a) ^ crc_shift(b),
{
    assert(crc_shift(a ^ b) == crc_shift(a) ^ crc_shift(b)) by (bit_vector);
}

proof fn lemma_shift_n_linear(a: u16, b: u16, n: nat)
    ensures
        crc_shift_n(a ^ b, n) == crc_shift_n(a, n) ^ crc_shift_n(b, n),
    decreases n,
{
    if n > 0 {
        lemma_shift_n_linear(a, b, (n - 1) as nat);
        lemma_shift_linear(crc_shift_n(a, (n - 1) as nat), crc_shift_n(b, (n - 1) as nat));
    }
}

proof fn lemma_byte_linear(a: u16, b: u16, x: u8, y: u8)
    ensures
        crc_byte(a, x) ^ crc_byte(b, y) == crc_byte(a ^ b, x ^ y),
{
    assert((a ^ ((x as u16) << 8u16)) ^ (b ^ ((y as u16) << 8u16)) == (a ^ b) ^ (((x ^ y) as u16)
        << 8u16)) by (bit_vector);
    lemma_shift_n_linear(a ^ ((x as u16) << 8u16), b ^ ((y as u16) << 8u16), 8);
}

/// The register is linear: running it on two inputs and adding the results
/// is running it on the sum of the inputs.
proof fn lemma_crc_linear(a: u16, b: u16, s: Seq<u8>, t: Seq<u8>)
    requires
        s.len() == t.len(),
    ensures
        crc_from(a, s) ^ crc_from(b, t) == crc_from(a ^ b, xor_seq(s, t)),
    decreases s.len(),
{
    if s.len() > 0 {
        lemma_crc_linear(a, b, s.drop_last(), t.drop_last());
        assert(xor_seq(s, t).drop_last() =~= xor_seq(s.drop_last(), t.drop_last()));
        lemma_byte_linear(crc_from(a, s.drop_last()), crc_from(b, t.drop_last()), s.last(), t.last());
    }
}

proof fn lemma_shift_n_nonzero(c: u16, n: nat)
    requires
        c != 0,
    ensures
        crc_shift_n(c, n) != 0,
    decreases n,
{
    if n > 0 {
        lemma_shift_n_nonzero(c, (n - 1) as nat);
        let d = crc_shift_n(c, (n - 1) as nat);
        assert(d != 0 ==> crc_shift(d) != 0) by (bit_vector);
    }
}

/// From a clear register, the CRC of bytes that are all zero but one, which
/// has a single bit set, is not zero.
proof fn lemma_single_bit_nonzero(e: Seq<u8>, pos: int, s: u8)
    requires
        0 <= pos < e.len(),
        s < 8,
        e[pos] == 1u8 << s,
        forall|i: int| 0 <= i < e.len() && i != pos ==> e[i] == 0u8,
    ensures
        crc_from(0, e) != 0,
    decreases e.len(),
{
    if pos == e.len() - 1 {
        lemma_zeros_crc(e.drop_last());
        assert(((0u16 ^ (((1u8 << s) as u16) << 8u16)) as u16) != 0) by (bit_vector)
            requires
                s < 8,
        ;
        lemma_shift_n_nonzero(0u16 ^ (((1u8 << s) as u16) << 8u16), 8);
    } else {
        lemma_single_bit_nonzero(e.drop_last(), pos, s);
        let c = crc_from(0, e.drop_last());
        assert(c ^ ((0u8 as u16) << 8u16) == c) by (bit_vector);
        lemma_shift_n_nonzero(c, 8);
    }
}

proof fn lemma_zeros_crc(e: Seq<u8>)
    requires
        forall|i: int| 0 <= i < e.len() ==> e[i] == 0u8,
    ensures
        crc_from(0, e) == 0,
    decreases e.len(),
{
    if e.len() > 0 {
        lemma_zeros_crc(e.drop_last());
        lemma_shift_n_linear(0, 0, 8);
        assert(0u16 ^ ((0u8 as u16) << 8u16) == 0u16) by (bit_vector);
        assert(0u16 ^ 0u16 == 0u16) by (bit_vector);
        let x = crc_shift_n(0, 8);
        assert(x ^ x == 0u16) by (bit_vector);
    }
}

/// Flipping any single bit of the data changes its transport CRC.
pub proof fn lemma_crc_detects_single_bit_flip(data: Seq<u8>, k: nat)
    requires
        k < 8 * data.len(),
    ensures
        crc16(flip_bit(data, k)) != crc16(data),
{
    let flipped = flip_bit(data, k);
    let pos = (k / 8) as int;
    let s = (k % 8) as u8;
    let e = xor_seq(data, flipped);
    assert forall|i: int| 0 <= i < e.len() && i != pos implies e[i] == 0u8 by {
        let x = data[i];
        assert(x ^ x == 0u8) by (bit_vector);
    }
    let x = data[pos];
    assert(x ^ (x ^ (1u8 << s)) == 1u8 << s) by (bit_vector);
    lemma_single_bit_nonzero(e, pos, s);
    lemma_crc_linear(CRC_INIT, CRC_INIT, data, flipped);
    assert(CRC_INIT ^ CRC_INIT == 0u16) by (bit_vector);
    let a = crc16(data);
    let b = crc16(flipped);
    assert(a == b ==> a ^ b == 0u16) by (bit_vector);
}

} // verus!
