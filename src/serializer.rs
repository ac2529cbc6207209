//! The bit serializer: a structure's fields, in order and least significant
//! bit first, packed into bytes; and the inverse.
use vstd::prelude::*;
use crate::bits::{bit_of, bits_value, byte_bit, lemma_bits_value, read_bits, stream_bits, value_bits, write_bits};
use crate::structure::{
    all_well_formed,
    flat_bits,
    lemma_field_bits,
    lemma_flat_len,
    lemma_flat_step,
    lemma_prefix_width,
    same_shapes,
    total_width,
    Primitive,
    Structure,
    all_extended,
    all_shaped_like,
    expand,
    field_compatible,
    field_wf,
    fields_compatible,
    fields_wf,
    DynamicArray,
    Field,
    MAX_BITS,
};
use crate::types::{UavcanPrimitiveType, UintX};

verus! {

/// The bytes needed to hold `bits` bits.
pub open spec fn bytes_for(bits: nat) -> nat {
    (bits + 7) / 8
}

/// `bits`, followed by clear bits up to `8 * n` bits.
pub open spec fn padded(bits: Seq<bool>, n: nat) -> Seq<bool> {
    Seq::new(8 * n, |k: int| k < bits.len() && bits[k])
}

/// Bytes are told apart by their bits: two buffers holding one stream of
/// bits are equal.
pub proof fn lemma_stream_bits_injective(a: Seq<u8>, b: Seq<u8>)
    requires
        a.len() == b.len(),
        stream_bits(a) == stream_bits(b),
    ensures
        a == b,
{
    assert forall|i: int| 0 <= i < a.len() implies a[i] == b[i] by {
        let x = a[i];
        let y = b[i];
        assert forall|t: u8| t < 8 implies (x >> t) & 1 == (y >> t) & 1 by {
            let k = 8 * i + t;
            assert(k / 8 == i && k % 8 == t as int && 0 <= k < 8 * a.len()) by (nonlinear_arith)
                requires
                    k == 8 * i + t,
                    0 <= t < 8,
                    0 <= i < a.len(),
            ;
            assert(stream_bits(a)[k] == byte_bit(a[k / 8], (k % 8) as nat));
            assert(stream_bits(b)[k] == byte_bit(b[k / 8], (k % 8) as nat));
            assert(stream_bits(a)[k] == stream_bits(b)[k]);
            assert(byte_bit(x, t as nat) == byte_bit(y, t as nat));
            assert((x >> t) & 1 == 1 || (x >> t) & 1 == 0) by (bit_vector);
            assert((y >> t) & 1 == 1 || (y >> t) & 1 == 0) by (bit_vector);
        }
        assert(x == y) by (bit_vector)
            requires
                (x >> 0u8) & 1 == (y >> 0u8) & 1,
                (x >> 1u8) & 1 == (y >> 1u8) & 1,
                (x >> 2u8) & 1 == (y >> 2u8) & 1,
                (x >> 3u8) & 1 == (y >> 3u8) & 1,
                (x >> 4u8) & 1 == (y >> 4u8) & 1,
                (x >> 5u8) & 1 == (y >> 5u8) & 1,
                (x >> 6u8) & 1 == (y >> 6u8) & 1,
                (x >> 7u8) & 1 == (y >> 7u8) & 1,
        ;
    }
    assert(a =~= b);
}

/// Whether `b` is the wire form of the fields `ps`: their bits in order,
/// then clear bits to the end of the last byte.
pub open spec fn is_encoding(ps: Seq<Primitive>, b: Seq<u8>) -> bool {
    &&& b.len() == bytes_for(total_width(ps))
    &&& stream_bits(b) == padded(flat_bits(ps), b.len())
}

/// The wire form of the fields `ps`.
pub open spec fn encoding(ps: Seq<Primitive>) -> Seq<u8> {
    choose|b: Seq<u8>| is_encoding(ps, b)
}

/// The wire form is the one buffer that holds the fields' bits.
pub proof fn lemma_encoding_unique(ps: Seq<Primitive>, b: Seq<u8>)
    requires
        is_encoding(ps, b),
    ensures
        encoding(ps) == b,
        is_encoding(ps, encoding(ps)),
{
    let e = encoding(ps);
    assert(is_encoding(ps, e));
    lemma_stream_bits_injective(e, b);
}

/// Where field `i` of a list starts in the flattened bits.
pub open spec fn field_offset(ps: Seq<Primitive>, i: int) -> nat {
    total_width(ps.take(i))
}

/// Every primitive of `e` but padding holds the slice of `stream` at its
/// offset in `e`.
pub open spec fn holds_stream(e: Seq<Primitive>, stream: Seq<bool>) -> bool {
    forall|q: int|
        0 <= q < e.len() && !(#[trigger] e[q]).is_padding() ==> e[q].bits() == stream.subrange(
            field_offset(e, q) as int,
            (field_offset(e, q) + e[q].width()) as int,
        )
}

/// Why a structure could not be read.
#[derive(Clone, Copy, Debug, PartialEq, Eq, Structural)]
pub enum DecodeError {
    /// The buffer holds fewer bits than the structure takes.
    BitError,
    /// An array's length prefix is larger than its bound.
    LengthError,
}

/// Reading the fields of `t` from field `i` on, starting at bit `pos` of
/// `s`: where the read ends, or why it fails. A primitive takes its width;
/// an array takes its length prefix, which must not exceed its bound, and
/// then that many elements.
pub open spec fn decode_from(t: Seq<Field>, s: Seq<bool>, i: nat, pos: nat) -> Result<
    nat,
    DecodeError,
>
    decreases t.len() - i,
{
    if i >= t.len() {
        Ok(pos)
    } else {
        match t[i as int] {
            Field::Primitive(p) => {
                if pos + p.width() <= s.len() {
                    decode_from(t, s, i + 1, pos + p.width())
                } else {
                    Err(DecodeError::BitError)
                }
            },
            Field::DynamicArray(a) => {
                let lw = a.spec_length().x as nat;
                if pos + lw > s.len() {
                    Err(DecodeError::BitError)
                } else {
                    let n = bits_value(s.subrange(pos as int, (pos + lw) as int));
                    if n > a.spec_max() {
                        Err(DecodeError::LengthError)
                    } else if pos + lw + n * a.spec_element().width() > s.len() {
                        Err(DecodeError::BitError)
                    } else {
                        decode_from(t, s, i + 1, pos + lw + n * a.spec_element().width())
                    }
                }
            },
        }
    }
}

/// A primitive that holds its slice, put after primitives that hold
/// theirs.
proof fn lemma_holds_push(e: Seq<Primitive>, p: Primitive, stream: Seq<bool>)
    requires
        holds_stream(e, stream),
        !p.is_padding() ==> p.bits() == stream.subrange(
            total_width(e) as int,
            (total_width(e) + p.width()) as int,
        ),
    ensures
        holds_stream(e.push(p), stream),
        total_width(e.push(p)) == total_width(e) + p.width(),
{
    let f = e.push(p);
    assert(f.drop_last() =~= e);
    assert forall|q: int| 0 <= q < f.len() && !(#[trigger] f[q]).is_padding() implies f[q].bits()
        == stream.subrange(
        field_offset(f, q) as int,
        (field_offset(f, q) + f[q].width()) as int,
    ) by {
        if q < e.len() {
            assert(f.take(q) =~= e.take(q));
        } else {
            assert(f.take(q) =~= e);
        }
    }
}

/// A buffer of `n` zero bytes.
fn zeroed(n: usize) -> (r: Vec<u8>)
    ensures
        r@.len() == n,
        forall|k: int| 0 <= k < 8 * n ==> !#[trigger] stream_bits(r@)[k],
{
    let mut v: Vec<u8> = Vec::new();
    let mut i: usize = 0;
    while i < n
        invariant
            i <= n,
            v@.len() == i,
            forall|j: int| 0 <= j < i ==> v@[j] == 0u8,
        decreases n - i,
    {
        v.push(0u8);
        i = i + 1;
    }
    assert forall|k: int| 0 <= k < 8 * n implies !#[trigger] stream_bits(v@)[k] by {
        let t = (k % 8) as u8;
        assert(v@[k / 8] == 0u8);
        assert(!byte_bit(0u8, t as nat)) by {
            assert((0u8 >> t) & 1 == 0) by (bit_vector);
        }
    }
    v
}

/// Packs the fields of `s` into bytes: the structure's bits, then clear
/// bits up to the end of the last byte.
pub fn serialize(s: &Structure) -> (r: Vec<u8>)
    requires
        s.wf(),
    ensures
        r@.len() == bytes_for(total_width(s.prims())),
        stream_bits(r@) == padded(s.bits(), r@.len()),
        r@ == encoding(s.prims()),
{
    let ps = s.primitives();
    proof {
        crate::structure::lemma_expand_wf(s@);
    }
    serialize_primitives(&ps)
}

/// Packs primitives into bytes: their bits in order, then clear bits up to
/// the end of the last byte.
pub fn serialize_primitives(s: &Vec<Primitive>) -> (r: Vec<u8>)
    requires
        all_well_formed(s@),
        total_width(s@) <= MAX_BITS,
    ensures
        r@.len() == bytes_for(total_width(s@)),
        stream_bits(r@) == padded(flat_bits(s@), r@.len()),
        r@ == encoding(s@),
{
    let total = crate::structure::width_of(s);
    let n = (total + 7) / 8;
    let mut buf = zeroed(n);
    let mut pos: usize = 0;
    let mut i: usize = 0;
    proof {
        assert(stream_bits(buf@) =~= padded(flat_bits(s@.take(0)), n as nat));
    }
    while i < s.len()
        invariant
            i <= s@.len(),
            all_well_formed(s@),
            total_width(s@) <= MAX_BITS,
            total == total_width(s@),
            n == bytes_for(total as nat),
            buf@.len() == n,
            pos == total_width(s@.take(i as int)),
            flat_bits(s@.take(i as int)).len() == pos,
            stream_bits(buf@) == padded(flat_bits(s@.take(i as int)), n as nat),
        decreases s@.len() - i,
    {
        let p = s[i];
        let w = p.bitlength();
        let raw = p.to_bits();
        proof {
            lemma_flat_step(s@, i as int);
            lemma_prefix_width(s@, i as int + 1);
            lemma_flat_len(s@.take(i as int + 1));
        }
        write_bits(&mut buf, pos, raw, w);
        proof {
            assert(stream_bits(buf@) =~= padded(flat_bits(s@.take(i as int + 1)), n as nat));
        }
        pos = pos + w;
        i = i + 1;
    }
    assert(s@.take(i as int) =~= s@);
    proof {
        lemma_encoding_unique(s@, buf@);
    }
    buf
}

/// Reads the fields of `s` from `buffer`, in order, as `decode_from`
/// says. On success the result is the number of bits read; the fields keep
/// their shapes, arrays take as many elements as their prefixes say, and
/// every primitive but padding takes its slice of the buffer's bits. On
/// failure the structure is left as it was.
pub fn deserialize(s: &mut Structure, buffer: &[u8]) -> (r: Result<usize, DecodeError>)
    requires
        old(s).wf(),
        8 * buffer@.len() <= MAX_BITS,
    ensures
        r matches Ok(n) ==> decode_from(old(s)@, stream_bits(buffer@), 0, 0) == Ok::<
            nat,
            DecodeError,
        >(n as nat),
        r matches Err(e) ==> decode_from(old(s)@, stream_bits(buffer@), 0, 0) == Err::<
            nat,
            DecodeError,
        >(e),
        r is Err ==> final(s)@ == old(s)@,
        final(s).wf(),
        r is Ok ==> fields_compatible(final(s)@, old(s)@),
        r is Ok ==> r->Ok_0 == total_width(final(s).prims()),
        r is Ok ==> holds_stream(final(s).prims(), stream_bits(buffer@)),
        r is Ok ==> all_extended(final(s).prims()),
{
    let ghost st = stream_bits(buffer@);
    let ghost t = s@;
    let limit: usize = 8 * buffer.len();
    let mut out: Vec<Field> = Vec::new();
    let mut pos: usize = 0;
    let mut i: usize = 0;
    proof {
        assert(t.take(0) =~= Seq::<Field>::empty());
        assert(holds_stream(expand(out@), st));
    }
    while i < s.fields.len()
        invariant
            i <= t.len(),
            s@ == t,
            s@ == old(s)@,
            old(s).wf(),
            limit == 8 * buffer@.len(),
            limit <= MAX_BITS,
            st == stream_bits(buffer@),
            out@.len() == i,
            fields_compatible(out@, t.take(i as int)),
            fields_wf(out@),
            pos == total_width(expand(out@)),
            pos <= limit,
            holds_stream(expand(out@), st),
            all_extended(expand(out@)),
            decode_from(t, st, 0, 0) == decode_from(t, st, i as nat, pos as nat),
        decreases t.len() - i,
    {
        let ghost e = expand(out@);
        assert(field_wf(t[i as int]));
        match &s.fields[i] {
            Field::Primitive(p0) => {
                let mut p = *p0;
                let w = p.bitlength();
                if w > limit - pos {
                    return Err(DecodeError::BitError);
                }
                let raw = read_bits(buffer, pos, w);
                p.set_bits(raw);
                proof {
                    lemma_holds_push(e, p, st);
                }
                let ghost before = out@;
                out.push(Field::Primitive(p));
                proof {
                    assert(out@.drop_last() =~= before);
                    assert(seq![p] =~= Seq::<Primitive>::empty().push(p));
                    assert(expand(out@) =~= e.push(p));
                    assert forall|k: int| 0 <= k < expand(out@).len() implies #[trigger] expand(
                        out@,
                    )[k].extended() by {
                        if k < e.len() {
                            assert(expand(out@)[k] == e[k]);
                        }
                    }
                    assert forall|k: int| 0 <= k < out@.len() implies #[trigger] field_compatible(
                        out@[k],
                        t.take(i as int + 1)[k],
                    ) by {
                        if k < i {
                            assert(out@[k] == before[k]);
                            assert(t.take(i as int + 1)[k] == t.take(i as int)[k]);
                        }
                    }
                    assert forall|k: int| 0 <= k < out@.len() implies #[trigger] field_wf(out@[k]) by {
                        if k < i {
                            assert(out@[k] == before[k]);
                        }
                    }
                }
                pos = pos + w;
            },
            Field::DynamicArray(a) => {
                let lw = a.length.x;
                if lw > limit - pos {
                    return Err(DecodeError::BitError);
                }
                let raw = read_bits(buffer, pos, lw);
                proof {
                    lemma_bits_value(raw, lw as nat);
                }
                if raw > a.max as u64 {
                    return Err(DecodeError::LengthError);
                }
                let n = raw as usize;
                let ew = a.element.bitlength();
                let start = pos + lw;
                if n > (limit - start) / ew {
                    proof {
                        assert(n * ew > limit - start) by (nonlinear_arith)
                            requires
                                n as int > (limit - start) as int / ew as int,
                                ew > 0,
                        ;
                    }
                    return Err(DecodeError::BitError);
                }
                proof {
                    assert(n * ew <= limit - start) by (nonlinear_arith)
                        requires
                            n as int <= (limit - start) as int / ew as int,
                            ew > 0,
                    ;
                }
                let length = UintX::new(lw, raw);
                let ghost e0 = e.push(Primitive::Uint(length));
                proof {
                    lemma_holds_push(e, Primitive::Uint(length), st);
                    assert(Primitive::Uint(length).extended());
                    assert forall|k: int| 0 <= k < e0.len() implies #[trigger] e0[k].extended() by {
                        if k < e.len() {
                            assert(e0[k] == e[k]);
                        }
                    }
                }
                let mut elements: Vec<Primitive> = Vec::new();
                let mut q: usize = start;
                let mut j: usize = 0;
                assert(e0 + elements@ =~= e0);
                while j < n
                    invariant
                        j <= n,
                        ew == a.element.width(),
                        a.element.well_formed(),
                        1 <= ew <= 64,
                        start + n * ew <= limit,
                        st == stream_bits(buffer@),
                        limit == 8 * buffer@.len(),
                        limit <= MAX_BITS,
                        q == start + j * ew,
                        elements@.len() == j,
                        all_shaped_like(elements@, a.element),
                        holds_stream(e0 + elements@, st),
                        all_extended(e0 + elements@),
                        total_width(e0 + elements@) == q,
                    decreases n - j,
                {
                    proof {
                        assert(q + ew <= start + n * ew) by (nonlinear_arith)
                            requires
                                q == start + j * ew,
                                j < n,
                        ;
                    }
                    let mut p = a.element;
                    let raw_e = read_bits(buffer, q, ew);
                    p.set_bits(raw_e);
                    proof {
                        lemma_holds_push(e0 + elements@, p, st);
                    }
                    let ghost before = elements@;
                    elements.push(p);
                    assert(e0 + elements@ =~= (e0 + before).push(p));
                    assert forall|k: int| 0 <= k < (e0 + elements@).len() implies #[trigger] (e0
                        + elements@)[k].extended() by {
                        if k < (e0 + before).len() {
                            assert((e0 + elements@)[k] == (e0 + before)[k]);
                        }
                    }
                    q = q + ew;
                    proof {
                        assert(q == start + (j + 1) * ew) by (nonlinear_arith)
                            requires
                                q == start + j * ew + ew,
                        ;
                    }
                    j = j + 1;
                }
                let arr = DynamicArray { length, max: a.max, element: a.element, elements };
                let ghost before = out@;
                out.push(Field::DynamicArray(arr));
                proof {
                    assert(out@.drop_last() =~= before);
                    assert(expand(out@) =~= e0 + arr.elements@);
                    assert forall|k: int| 0 <= k < out@.len() implies #[trigger] field_compatible(
                        out@[k],
                        t.take(i as int + 1)[k],
                    ) by {
                        if k < i {
                            assert(out@[k] == before[k]);
                            assert(t.take(i as int + 1)[k] == t.take(i as int)[k]);
                        }
                    }
                    assert forall|k: int| 0 <= k < out@.len() implies #[trigger] field_wf(out@[k]) by {
                        if k < i {
                            assert(out@[k] == before[k]);
                        }
                    }
                    assert(q == start + n * ew) by (nonlinear_arith)
                        requires
                            q == start + j * ew,
                            j == n,
                    ;
                }
                pos = q;
            },
        }
        i = i + 1;
    }
    proof {
        assert(t.take(i as int) =~= t);
    }
    s.fields = out;
    Ok(pos)
}

/// Lists whose fields have pairwise equal bits have equal flattened bits.
pub proof fn lemma_flat_bits_eq(a: Seq<Primitive>, b: Seq<Primitive>)
    requires
        a.len() == b.len(),
        forall|i: int| 0 <= i < a.len() ==> (#[trigger] a[i]).bits() == b[i].bits(),
    ensures
        flat_bits(a) == flat_bits(b),
    decreases a.len(),
{
    if a.len() > 0 {
        lemma_flat_bits_eq(a.drop_last(), b.drop_last());
        assert(a.last().bits() == b.last().bits());
    }
}

/// Lists of one shape place each field at one offset.
pub proof fn lemma_same_offsets(a: Seq<Primitive>, b: Seq<Primitive>, i: int)
    requires
        same_shapes(a, b),
        0 <= i <= a.len(),
    ensures
        field_offset(a, i) == field_offset(b, i),
{
    assert(same_shapes(a.take(i), b.take(i)));
    crate::structure::lemma_same_shapes_width(a.take(i), b.take(i));
}

/// Primitives read from the bytes that `serialize` wrote for primitives
/// of their shape hold the same bits: the wire form gives its bits back.
pub proof fn lemma_bit_round_trip(sent: Seq<Primitive>, decoded: Seq<Primitive>, bytes: Seq<u8>)
    requires
        same_shapes(decoded, sent),
        stream_bits(bytes) == padded(flat_bits(sent), bytes.len()),
        total_width(sent) <= 8 * bytes.len(),
        holds_stream(decoded, stream_bits(bytes)),
    ensures
        flat_bits(decoded) == flat_bits(sent),
        forall|i: int| 0 <= i < decoded.len() ==> (#[trigger] decoded[i]).bits() == sent[i].bits(),
{
    lemma_flat_len(sent);
    assert forall|i: int| 0 <= i < decoded.len() implies (#[trigger] decoded[i]).bits()
        == sent[i].bits() by {
        lemma_field_bits(sent, i);
        lemma_same_offsets(decoded, sent, i);
        assert(decoded[i].same_shape(sent[i]));
        if decoded[i].is_padding() {
            assert(decoded[i].bits() =~= sent[i].bits());
        } else {
            let off = field_offset(sent, i);
            assert(stream_bits(bytes).subrange(off as int, (off + sent[i].width()) as int)
                =~= flat_bits(sent).subrange(off as int, (off + sent[i].width()) as int));
        }
    }
    lemma_flat_bits_eq(decoded, sent);
}

} // verus!
