//! What a deframer makes of a whole sequence of frames, and the laws that
//! tie the framer and the deframer together.
use vstd::prelude::*;
use crate::crc::{crc16, flip_bit, lemma_crc_detects_single_bit_flip};
use crate::frame_generator::{crc_bytes, frame_count, frame_data, transfer_frames, MAX_PAYLOAD};
use crate::serializer::{
    bytes_for,
    decode_from,
    encoding,
    field_offset,
    holds_stream,
    is_encoding,
    lemma_bit_round_trip,
    DecodeError,
};
use crate::session::{
    crc_matches,
    deframe_step,
    find_session,
    idle,
    manager_step,
    DeframerState,
    RxError,
    SessionKey,
    SessionsModel,
    StepResult,
};
use crate::structure::{
    all_extended,
    all_shaped_like,
    all_well_formed,
    expand,
    field_compatible,
    field_prims,
    field_wf,
    fields_compatible,
    fields_wf,
    flat_bits,
    lemma_concat,
    lemma_expand_concat,
    lemma_expand_step,
    lemma_expand_wf,
    lemma_same_shapes_width,
    lemma_value_determined,
    same_shapes,
    total_width,
    Field,
    Primitive,
};
use crate::types::UavcanPrimitiveType;
use crate::transfer::{eot_of, lemma_tail_fields, sot_of, tail_value, toggle_of};
use crate::bits::{bit_of, bits_value, lemma_bits_value, stream_bits, value_bits};

verus! {

/// The state of a deframer after the frames `frames`, from `s`, and what
/// the last of them gave.
pub open spec fn run_frames(s: DeframerState, frames: Seq<Seq<u8>>) -> (DeframerState, StepResult)
    decreases frames.len(),
{
    if frames.len() == 0 {
        (s, Ok(None))
    } else {
        deframe_step(run_frames(s, frames.drop_last()).0, frames.last())
    }
}

/// The frames that carry the payload stream `s` of a multi-frame transfer:
/// seven bytes each, the last taking what is left.
pub open spec fn stream_frames(s: Seq<u8>, tid: u8) -> Seq<Seq<u8>> {
    let count = (s.len() + 6) / 7;
    Seq::new(
        count,
        |k: int|
            {
                let end = if 7 * k + 7 <= s.len() {
                    7 * k + 7
                } else {
                    s.len() as int
                };
                s.subrange(7 * k, end).push(tail_value(k == 0, k + 1 == count, k % 2 == 1, tid))
            },
    )
}

proof fn lemma_crc_bytes_match(body: Seq<u8>)
    ensures
        crc_matches(crc_bytes(body) + body),
        (crc_bytes(body) + body).skip(2) == body,
{
    let c = crc16(body);
    let s = crc_bytes(body) + body;
    assert((((c & 0xff) as u8) as u16 | ((((c >> 8u16) as u8) as u16) << 8u16)) == c)
        by (bit_vector);
    assert(s.skip(2) =~= body);
}

/// Deframing the frames of a multi-frame payload stream: every frame but
/// the last gives nothing, and the last gives the body after the CRC where
/// the CRC matches, a CRC error where it does not.
pub proof fn lemma_deframe_stream(s: Seq<u8>, tid: u8)
    requires
        s.len() > MAX_PAYLOAD,
        tid < 32,
    ensures
        forall|j: int|
            1 <= j < stream_frames(s, tid).len() ==> (#[trigger] run_frames(
                idle(),
                stream_frames(s, tid).take(j),
            )).1 == Ok::<Option<Seq<u8>>, RxError>(None),
        run_frames(idle(), stream_frames(s, tid)).1 == if crc_matches(s) {
            Ok::<Option<Seq<u8>>, RxError>(Some(s.skip(2)))
        } else {
            Err(RxError::CRCError)
        },
{
    let fr = stream_frames(s, tid);
    let count = fr.len();
    assert(count >= 2);
    assert forall|j: int| 1 <= j < count implies #[trigger] run_frames(idle(), fr.take(j)) == (
        (true, j % 2 == 1, s.take(7 * j)),
        Ok::<Option<Seq<u8>>, RxError>(None),
    ) by {
        lemma_deframe_prefix(s, tid, j);
    }
    let j = count - 1;
    lemma_deframe_prefix(s, tid, j);
    assert(fr.take(count as int) =~= fr);
    assert(fr.take(count as int).drop_last() =~= fr.take(j));
    let end = s.len() as int;
    assert(7 * j + 7 >= s.len());
    lemma_tail_fields(false, true, j % 2 == 1, tid);
    let data = fr[j];
    assert(data.drop_last() =~= s.subrange(7 * j, end));
    assert(s.take(7 * j) + s.subrange(7 * j, end) =~= s);
}

proof fn lemma_deframe_prefix(s: Seq<u8>, tid: u8, j: int)
    requires
        s.len() > MAX_PAYLOAD,
        tid < 32,
        1 <= j < stream_frames(s, tid).len(),
    ensures
        run_frames(idle(), stream_frames(s, tid).take(j)) == (
            (true, j % 2 == 1, s.take(7 * j)),
            Ok::<Option<Seq<u8>>, RxError>(None),
        ),
    decreases j,
{
    let fr = stream_frames(s, tid);
    let count = fr.len();
    assert(7 * j + 1 <= s.len()) by (nonlinear_arith)
        requires
            j < (s.len() + 6) / 7,
    ;
    assert(fr.take(j).drop_last() =~= fr.take(j - 1));
    let k = j - 1;
    let data = fr[k];
    assert(7 * k + 7 <= s.len());
    assert(data.drop_last() =~= s.subrange(7 * k, 7 * k + 7));
    lemma_tail_fields(k == 0, false, k % 2 == 1, tid);
    if j == 1 {
        assert(fr.take(0) =~= Seq::<Seq<u8>>::empty());
        assert(s.subrange(0, 7) =~= s.take(7));
    } else {
        lemma_deframe_prefix(s, tid, j - 1);
        assert(s.take(7 * k) + s.subrange(7 * k, 7 * k + 7) =~= s.take(7 * j));
    }
}

/// The frames of a multi-frame transfer are those of its payload stream.
proof fn lemma_transfer_frames_are_stream_frames(body: Seq<u8>, tid: u8)
    requires
        body.len() > MAX_PAYLOAD,
    ensures
        transfer_frames(body, tid) == stream_frames(crc_bytes(body) + body, tid),
{
    let a = transfer_frames(body, tid);
    let b = stream_frames(crc_bytes(body) + body, tid);
    assert(a.len() == b.len());
    assert forall|k: int| 0 <= k < a.len() implies a[k] == b[k] by {
        assert(frame_data(body, tid, k as nat) =~= b[k]);
    }
    assert(a =~= b);
}

/// Deframing the frames that carry a body gives back the body: every frame
/// but the last gives nothing, and the last gives the body.
pub proof fn lemma_transport_round_trip(body: Seq<u8>, tid: u8)
    requires
        tid < 32,
    ensures
        forall|j: int|
            1 <= j < transfer_frames(body, tid).len() ==> (#[trigger] run_frames(
                idle(),
                transfer_frames(body, tid).take(j),
            )).1 == Ok::<Option<Seq<u8>>, RxError>(None),
        run_frames(idle(), transfer_frames(body, tid)).1 == Ok::<Option<Seq<u8>>, RxError>(
            Some(body),
        ),
{
    let fr = transfer_frames(body, tid);
    if body.len() <= MAX_PAYLOAD {
        assert(fr.len() == 1);
        lemma_tail_fields(true, true, false, tid);
        assert(fr.drop_last() =~= Seq::<Seq<u8>>::empty());
        assert(fr[0].drop_last() =~= body);
    } else {
        lemma_transfer_frames_are_stream_frames(body, tid);
        lemma_crc_bytes_match(body);
        lemma_deframe_stream(crc_bytes(body) + body, tid);
    }
}

/// The byte whose bits are `b0` to `b7`, least significant first.
pub open spec fn byte_of(b: Seq<bool>) -> u8 {
    ((if b[0] { 1u8 } else { 0u8 }) | (if b[1] { 2u8 } else { 0u8 }) | (if b[2] { 4u8 } else {
        0u8
    }) | (if b[3] { 8u8 } else { 0u8 }) | (if b[4] { 16u8 } else { 0u8 }) | (if b[5] {
        32u8
    } else {
        0u8
    }) | (if b[6] { 64u8 } else { 0u8 }) | (if b[7] { 128u8 } else { 0u8 })) as u8
}

/// Bytes that hold `bits`, then clear bits, in `n` bytes.
pub open spec fn padded_bytes(bits: Seq<bool>, n: nat) -> Seq<u8> {
    Seq::new(
        n,
        |i: int|
            byte_of(
                Seq::new(
                    8,
                    |t: int| 8 * i + t < bits.len() && bits[8 * i + t],
                ),
            ),
    )
}

proof fn lemma_padded_bytes(bits: Seq<bool>, n: nat)
    requires
        bits.len() <= 8 * n,
    ensures
        stream_bits(padded_bytes(bits, n)) == crate::serializer::padded(bits, n),
{
    let a = stream_bits(padded_bytes(bits, n));
    let b = crate::serializer::padded(bits, n);
    assert forall|k: int| 0 <= k < a.len() implies a[k] == b[k] by {
        let i = k / 8;
        let t = k % 8;
        let bs = Seq::new(8, |q: int| 8 * i + q < bits.len() && bits[8 * i + q]);
        assert(8 * i + t == k);
        let (c0, c1, c2, c3, c4, c5, c6, c7) = (bs[0], bs[1], bs[2], bs[3], bs[4], bs[5], bs[6], bs[7]);
        let v = byte_of(bs);
        let tt = t as u8;
        assert(((v >> tt) & 1 == 1) == bs[t]) by {
            assert(((((if c0 { 1u8 } else { 0u8 }) | (if c1 { 2u8 } else { 0u8 }) | (if c2 { 4u8 } else { 0u8 }) | (if c3 { 8u8 } else { 0u8 }) | (if c4 { 16u8 } else { 0u8 }) | (if c5 { 32u8 } else { 0u8 }) | (if c6 { 64u8 } else { 0u8 }) | (if c7 { 128u8 } else { 0u8 })) >> tt) & 1 == 1) == (if tt == 0 { c0 } else if tt == 1 { c1 } else if tt == 2 { c2 } else if tt == 3 { c3 } else if tt == 4 { c4 } else if tt == 5 { c5 } else if tt == 6 { c6 } else { c7 })) by (bit_vector)
                requires
                    tt < 8,
            ;
        }
    }
    assert(a =~= b);
}

/// An encoding exists for every list of primitives.
proof fn lemma_encoding_exists(ps: Seq<Primitive>)
    ensures
        is_encoding(ps, encoding(ps)),
        total_width(ps) <= 8 * encoding(ps).len(),
{
    crate::structure::lemma_flat_len(ps);
    let n = bytes_for(total_width(ps));
    assert(exists|b: Seq<u8>| is_encoding(ps, b)) by {
        let b = padded_bytes(flat_bits(ps), n);
        lemma_padded_bytes(flat_bits(ps), n);
        assert(is_encoding(ps, b));
    }
    let e = encoding(ps);
    assert(e.len() == n);
    assert(total_width(ps) <= 8 * e.len()) by (nonlinear_arith)
        requires
            e.len() == (total_width(ps) + 7) / 8,
    ;
}

/// Elements all of one shape take that shape's width each.
proof fn lemma_elements_width(ps: Seq<Primitive>, e: Primitive)
    requires
        all_shaped_like(ps, e),
    ensures
        total_width(ps) == ps.len() * e.width(),
    decreases ps.len(),
{
    if ps.len() > 0 {
        assert forall|i: int| 0 <= i < ps.drop_last().len() implies #[trigger] ps.drop_last()[i].same_shape(e)
            && ps.drop_last()[i].well_formed() by {
            assert(ps.drop_last()[i] == ps[i]);
            assert(ps[i].same_shape(e));
        }
        lemma_elements_width(ps.drop_last(), e);
        assert(ps[ps.len() - 1].same_shape(e));
        assert((ps.len() - 1) * e.width() + e.width() == ps.len() * e.width()) by (nonlinear_arith);
    }
}

/// A number no larger than a bound that fits in `w` bits has no bit set
/// from bit `w` on.
proof fn lemma_high_clear(v: u64, m: u64, w: nat)
    requires
        v <= m,
        1 <= w <= 64,
        w == 64 || m >> (w as u64) == 0,
    ensures
        forall|j: nat| w <= j ==> !#[trigger] bit_of(v, j),
{
    assert forall|j: nat| w <= j implies !#[trigger] bit_of(v, j) by {
        if j < 64 {
            let ww = w as u64;
            let jj = j as u64;
            assert((v <= m && m >> ww == 0 && ww <= jj && jj < 64) ==> (v >> jj) & 1 == 0)
                by (bit_vector);
        }
    }
}

/// Where field `i` of a list of fields starts on the wire.
pub open spec fn field_start(fs: Seq<Field>, i: int) -> nat {
    total_width(expand(fs.take(i)))
}

/// Field `i` takes its own bits, right after the fields before it.
proof fn lemma_field_slice(fs: Seq<Field>, i: int)
    requires
        0 <= i < fs.len(),
    ensures
        field_start(fs, i + 1) == field_start(fs, i) + total_width(field_prims(fs[i])),
        field_start(fs, i + 1) <= total_width(expand(fs)),
        flat_bits(expand(fs)).subrange(field_start(fs, i) as int, field_start(fs, i + 1) as int)
            == flat_bits(field_prims(fs[i])),
        expand(fs).take(expand(fs.take(i)).len() as int) == expand(fs.take(i)),
        expand(fs.take(i + 1)).len() == expand(fs.take(i)).len() + field_prims(fs[i]).len(),
        expand(fs.take(i + 1)).len() <= expand(fs).len(),
        expand(fs).subrange(
            expand(fs.take(i)).len() as int,
            expand(fs.take(i + 1)).len() as int,
        ) == field_prims(fs[i]),
{
    let a = expand(fs.take(i));
    let f = field_prims(fs[i]);
    let c = expand(fs.skip(i + 1));
    lemma_expand_step(fs, i);
    lemma_concat(a, f);
    assert(fs.take(i + 1) + fs.skip(i + 1) =~= fs);
    lemma_expand_concat(fs.take(i + 1), fs.skip(i + 1));
    lemma_concat(a + f, c);
    crate::structure::lemma_flat_len(a);
    crate::structure::lemma_flat_len(f);
    crate::structure::lemma_flat_len(a + f);
    assert(expand(fs) == a + f + c);
    assert(flat_bits(expand(fs)) == flat_bits(a) + flat_bits(f) + flat_bits(c));
    assert(flat_bits(expand(fs)).subrange(field_start(fs, i) as int, field_start(fs, i + 1) as int)
        =~= flat_bits(f));
    assert(expand(fs).take(a.len() as int) =~= a);
    assert(expand(fs).subrange(a.len() as int, (a.len() + f.len()) as int) =~= f);
}

/// The bits of an array's field begin with its length prefix.
proof fn lemma_array_prefix(f: Field)
    requires
        f is DynamicArray,
    ensures
        flat_bits(field_prims(f)).take(f->DynamicArray_0.spec_length().x as int) == value_bits(
            f->DynamicArray_0.spec_length().value,
            f->DynamicArray_0.spec_length().x as nat,
        ),
        total_width(field_prims(f)) == f->DynamicArray_0.spec_length().x + total_width(
            f->DynamicArray_0.spec_elements(),
        ),
{
    let a = f->DynamicArray_0;
    let head = seq![Primitive::Uint(a.spec_length())];
    lemma_concat(head, a.spec_elements());
    crate::structure::lemma_single(Primitive::Uint(a.spec_length()));
    crate::structure::lemma_flat_len(head);
    assert(flat_bits(field_prims(f)).take(a.spec_length().x as int) =~= flat_bits(head));
}

/// Reading fields of the sent structure's shapes from its wire form succeeds,
/// field by field, and ends where the wire form's bits end.
proof fn lemma_decode_encoding(sent: Seq<Field>, template: Seq<Field>, bytes: Seq<u8>, i: int)
    requires
        fields_wf(sent),
        fields_compatible(template, sent),
        is_encoding(expand(sent), bytes),
        total_width(expand(sent)) <= 8 * bytes.len(),
        0 <= i <= sent.len(),
    ensures
        decode_from(template, stream_bits(bytes), i as nat, field_start(sent, i)) == Ok::<
            nat,
            DecodeError,
        >(total_width(expand(sent))),
    decreases sent.len() - i,
{
    let st = stream_bits(bytes);
    let fl = flat_bits(expand(sent));
    crate::structure::lemma_flat_len(expand(sent));
    if i == sent.len() {
        assert(sent.take(i) =~= sent);
    } else {
        lemma_field_slice(sent, i);
        lemma_decode_encoding(sent, template, bytes, i + 1);
        let p0 = field_start(sent, i);
        let p1 = field_start(sent, i + 1);
        assert(field_compatible(template[i], sent[i]));
        assert(field_wf(sent[i]));
        assert forall|k: int| p0 <= k < p1 implies st[k] == fl[k] by {
            assert(k < fl.len());
        }
        match template[i] {
            Field::Primitive(p) => {
                let q = sent[i]->Primitive_0;
                assert(field_prims(sent[i]) =~= seq![q]);
                crate::structure::lemma_single(q);
            },
            Field::DynamicArray(a) => {
                let b = sent[i]->DynamicArray_0;
                let lw = b.spec_length().x as nat;
                lemma_array_prefix(sent[i]);
                lemma_elements_width(b.spec_elements(), b.spec_element());
                assert(st.subrange(p0 as int, (p0 + lw) as int) =~= value_bits(
                    b.spec_length().value,
                    lw,
                )) by {
                    assert forall|k: int| 0 <= k < lw implies st[p0 + k] == flat_bits(
                        field_prims(sent[i]),
                    )[k] by {
                        assert(fl.subrange(p0 as int, p1 as int)[k] == fl[p0 + k]);
                    }
                }
                lemma_high_clear(b.spec_length().value, b.spec_max() as u64, lw);
                lemma_bits_value(b.spec_length().value, lw);
                assert(bits_value(st.subrange(p0 as int, (p0 + lw) as int)) == b.spec_elements().len());
            },
        }
    }
}

/// Fields read from the wire form of the sent structure, in its shapes, have the
/// sent structure's shapes too: each array gets its element count.
proof fn lemma_decoded_shapes(
    sent: Seq<Field>,
    template: Seq<Field>,
    decoded: Seq<Field>,
    bytes: Seq<u8>,
    i: int,
)
    requires
        fields_wf(sent),
        fields_wf(decoded),
        fields_compatible(template, sent),
        fields_compatible(decoded, template),
        is_encoding(expand(sent), bytes),
        total_width(expand(sent)) <= 8 * bytes.len(),
        holds_stream(expand(decoded), stream_bits(bytes)),
        0 <= i <= sent.len(),
    ensures
        same_shapes(expand(decoded.take(i)), expand(sent.take(i))),
    decreases i,
{
    if i == 0 {
        assert(decoded.take(0) =~= Seq::<Field>::empty());
        assert(sent.take(0) =~= Seq::<Field>::empty());
    } else {
        let k = i - 1;
        lemma_decoded_shapes(sent, template, decoded, bytes, k);
        lemma_expand_step(decoded, k);
        lemma_expand_step(sent, k);
        let da = expand(decoded.take(k));
        let oa = expand(sent.take(k));
        lemma_same_shapes_width(da, oa);
        assert(field_compatible(decoded[k], template[k]));
        assert(field_compatible(template[k], sent[k]));
        assert(field_wf(decoded[k]));
        assert(field_wf(sent[k]));
        let df = field_prims(decoded[k]);
        let of = field_prims(sent[k]);
        assert(same_shapes(df, of)) by {
            match decoded[k] {
                Field::Primitive(p) => {
                    assert(df =~= seq![p]);
                },
                Field::DynamicArray(d) => {
                    let b = sent[k]->DynamicArray_0;
                    let lw = b.spec_length().x as nat;
                    let st = stream_bits(bytes);
                    let fl = flat_bits(expand(sent));
                    let e = expand(decoded);
                    lemma_field_slice(decoded, k);
                    lemma_field_slice(sent, k);
                    lemma_array_prefix(sent[k]);
                    crate::structure::lemma_flat_len(expand(sent));
                    let m = da.len() as int;
                    let m2 = expand(decoded.take(k + 1)).len() as int;
                    assert(df[0] == Primitive::Uint(d.spec_length()));
                    assert(e.subrange(m, m2) == df);
                    assert(m2 == m + df.len());
                    assert(m2 <= e.len());
                    assert(e.subrange(m, m2)[0] == e[m]);
                    assert(e[m] == Primitive::Uint(d.spec_length()));
                    assert(!e[m].is_padding());
                    assert(e.take(m) == da);
                    assert(field_offset(e, m) == total_width(da));
                    let p0 = field_start(sent, k);
                    assert(total_width(da) == p0);
                    assert(d.spec_length().bits() == st.subrange(p0 as int, (p0 + lw) as int));
                    assert(st.subrange(p0 as int, (p0 + lw) as int) =~= value_bits(
                        b.spec_length().value,
                        lw,
                    )) by {
                        assert forall|q: int| 0 <= q < lw implies st[p0 + q] == flat_bits(of)[q] by {
                            assert(fl.subrange(p0 as int, field_start(sent, k + 1) as int)[q]
                                == fl[p0 + q]);
                            assert(p0 + q < fl.len());
                        }
                    }
                    lemma_high_clear(b.spec_length().value, b.spec_max() as u64, lw);
                    lemma_high_clear(d.spec_length().value, d.spec_max() as u64, lw);
                    lemma_bits_value(b.spec_length().value, lw);
                    lemma_bits_value(d.spec_length().value, lw);
                    assert(d.spec_elements().len() == b.spec_elements().len());
                    assert forall|q: int| 0 <= q < df.len() implies #[trigger] df[q].same_shape(
                        of[q],
                    ) by {
                        if q > 0 {
                            assert(df[q] == d.spec_elements()[q - 1]);
                            assert(of[q] == b.spec_elements()[q - 1]);
                            assert(d.spec_elements()[q - 1].same_shape(d.spec_element()));
                            assert(b.spec_elements()[q - 1].same_shape(b.spec_element()));
                        }
                    }
                },
            }
        }
        assert forall|q: int| 0 <= q < (da + df).len() implies #[trigger] (da + df)[q].same_shape(
            (oa + of)[q],
        ) by {
            if q < da.len() {
                assert((da + df)[q] == da[q]);
                assert((oa + of)[q] == oa[q]);
            } else {
                assert((da + df)[q] == df[q - da.len()]);
                assert((oa + of)[q] == of[q - oa.len()]);
            }
        }
    }
}

/// A structure framed and deframed, then read into any structure of its
/// shape, comes back bit for bit: the frames give back its wire form,
/// reading that wire form succeeds and takes all of it, and the fields
/// read hold the sent structure's bits, each array with its length; where
/// the sent values are those their bits spell, the values read are equal to
/// them.
pub proof fn lemma_round_trip(
    sent: Seq<Field>,
    template: Seq<Field>,
    decoded: Seq<Field>,
    tid: u8,
)
    requires
        fields_wf(sent),
        fields_compatible(template, sent),
        tid < 32,
    ensures
        run_frames(idle(), transfer_frames(encoding(expand(sent)), tid)).1 == Ok::<
            Option<Seq<u8>>,
            RxError,
        >(Some(encoding(expand(sent)))),
        decode_from(template, stream_bits(encoding(expand(sent))), 0, 0) == Ok::<
            nat,
            DecodeError,
        >(total_width(expand(sent))),
        fields_wf(decoded) && fields_compatible(decoded, template) && holds_stream(
            expand(decoded),
            stream_bits(encoding(expand(sent))),
        ) ==> flat_bits(expand(decoded)) == flat_bits(expand(sent)),
        fields_wf(decoded) && fields_compatible(decoded, template) && holds_stream(
            expand(decoded),
            stream_bits(encoding(expand(sent))),
        ) && all_extended(expand(decoded)) && all_extended(expand(sent)) ==> expand(decoded)
            == expand(sent),
{
    let ps = expand(sent);
    lemma_transport_round_trip(encoding(ps), tid);
    lemma_encoding_exists(ps);
    let bytes = encoding(ps);
    lemma_decode_encoding(sent, template, bytes, 0);
    assert(sent.take(0) =~= Seq::<Field>::empty());
    if fields_wf(decoded) && fields_compatible(decoded, template) && holds_stream(
        expand(decoded),
        stream_bits(bytes),
    ) {
        lemma_decoded_shapes(sent, template, decoded, bytes, sent.len() as int);
        assert(decoded.take(sent.len() as int) =~= decoded);
        assert(sent.take(sent.len() as int) =~= sent);
        lemma_bit_round_trip(ps, expand(decoded), bytes);
        if all_extended(expand(decoded)) && all_extended(ps) {
            let ds = expand(decoded);
            lemma_expand_wf(decoded);
            lemma_expand_wf(sent);
            assert forall|k: int| 0 <= k < ds.len() implies ds[k] == ps[k] by {
                assert(ds[k].same_shape(ps[k]));
                assert(ds[k].bits() == ps[k].bits());
                assert(ds[k].extended() && ps[k].extended());
                lemma_value_determined(ds[k], ps[k]);
            }
            assert(ds =~= ps);
        }
    }
}

/// Flipping one bit of a CRC byte breaks the CRC check.
proof fn lemma_flip_crc_byte(c: u16, t: u8)
    by (bit_vector)
    requires
        t < 8,
    ensures
        ((((c & 0xff) as u8) ^ (1u8 << t)) as u16 | ((((c >> 8u16) as u8) as u16) << 8u16)) != c,
        (((c & 0xff) as u8) as u16 | (((((c >> 8u16) as u8) ^ (1u8 << t)) as u16) << 8u16)) != c,
{
}

/// Flipping any one bit of the payload of a multi-frame transfer, in a CRC
/// byte or in the body, in the frames as received, makes the deframer
/// report a CRC error at the last frame, and nothing before it.
pub proof fn lemma_corrupted_frame_fails_crc(body: Seq<u8>, tid: u8, k: nat)
    requires
        body.len() > MAX_PAYLOAD,
        tid < 32,
        k < 8 * (body.len() + 2),
    ensures
        forall|j: int|
            1 <= j < stream_frames(flip_bit(crc_bytes(body) + body, k), tid).len() ==> (
            #[trigger] run_frames(
                idle(),
                stream_frames(flip_bit(crc_bytes(body) + body, k), tid).take(j),
            )).1 == Ok::<Option<Seq<u8>>, RxError>(None),
        run_frames(idle(), stream_frames(flip_bit(crc_bytes(body) + body, k), tid)).1 == Err::<
            Option<Seq<u8>>,
            RxError,
        >(RxError::CRCError),
{
    let s = crc_bytes(body) + body;
    let f = flip_bit(s, k);
    lemma_deframe_stream(f, tid);
    let c = crc16(body);
    if k >= 16 {
        let kb = (k - 16) as nat;
        assert(kb / 8 == k / 8 - 2 && kb % 8 == k % 8);
        assert(f =~= crc_bytes(body) + flip_bit(body, kb));
        lemma_crc_detects_single_bit_flip(body, kb);
        assert(f.skip(2) =~= flip_bit(body, kb));
        assert((((c & 0xff) as u8) as u16 | ((((c >> 8u16) as u8) as u16) << 8u16)) == c)
            by (bit_vector);
    } else {
        assert(f.skip(2) =~= body);
        let t = (k % 8) as u8;
        lemma_flip_crc_byte(c, t);
    }
}

/// The state of a session table after frames with their keys, and what the
/// last of them gave.
pub open spec fn run_table(ss: SessionsModel, cap: nat, frames: Seq<(SessionKey, Seq<u8>)>) -> (
    SessionsModel,
    StepResult,
)
    decreases frames.len(),
{
    if frames.len() == 0 {
        (ss, Ok(None))
    } else {
        manager_step(run_table(ss, cap, frames.drop_last()).0, cap, frames.last().0, frames.last().1)
    }
}

/// The frames of one transfer, each with the transfer's key.
pub open spec fn keyed(key: SessionKey, frames: Seq<Seq<u8>>) -> Seq<(SessionKey, Seq<u8>)> {
    frames.map_values(|d: Seq<u8>| (key, d))
}

/// A multi-frame transfer, alone on an empty session table, goes through
/// one session exactly as through a lone deframer: every frame gives what
/// the deframer gives, the session holds the deframer's state, and it is
/// released when the transfer ends.
pub proof fn lemma_one_session(key: SessionKey, frames: Seq<Seq<u8>>, cap: nat, j: int)
    requires
        cap >= 1,
        frames.len() >= 2,
        forall|q: int| 0 <= q < frames.len() ==> #[trigger] frames[q].len() > 0,
        sot_of(frames[0].last()) && !eot_of(frames[0].last()),
        forall|q: int| 1 <= q < frames.len() ==> !sot_of(#[trigger] frames[q].last()),
        forall|q: int|
            1 <= q < frames.len() ==> (#[trigger] run_frames(idle(), frames.take(q))).1 == Ok::<
                Option<Seq<u8>>,
                RxError,
            >(None),
        run_frames(idle(), frames).1 != Ok::<Option<Seq<u8>>, RxError>(None),
        1 <= j <= frames.len(),
    ensures
        j < frames.len() ==> run_table(SessionsModel::empty(), cap, keyed(key, frames).take(j))
            == (seq![(key, run_frames(idle(), frames.take(j)).0)], Ok::<
            Option<Seq<u8>>,
            RxError,
        >(None)),
        j == frames.len() ==> run_table(SessionsModel::empty(), cap, keyed(key, frames).take(j)).1
            == run_frames(idle(), frames).1,
        j == frames.len() ==> run_table(SessionsModel::empty(), cap, keyed(key, frames).take(
            j,
        )).0 == SessionsModel::empty(),
    decreases j,
{
    let kf = keyed(key, frames);
    assert(kf.take(j).drop_last() =~= kf.take(j - 1));
    assert(frames.take(j).drop_last() =~= frames.take(j - 1));
    assert(kf.take(j).last() == (key, frames[j - 1]));
    assert(run_table(SessionsModel::empty(), cap, kf.take(j)) == manager_step(
        run_table(SessionsModel::empty(), cap, kf.take(j - 1)).0,
        cap,
        key,
        frames[j - 1],
    ));
    if j == 1 {
        assert(kf.take(0) =~= Seq::<(SessionKey, Seq<u8>)>::empty());
        assert(frames.take(0) =~= Seq::<Seq<u8>>::empty());
        assert(run_table(SessionsModel::empty(), cap, kf.take(0)).0 == SessionsModel::empty());
        assert(run_frames(idle(), frames.take(0)).0 == idle());
        assert(frames.take(1).last() == frames[0]);
        assert(find_session(SessionsModel::empty(), key) == -1);
        assert(run_frames(idle(), frames.take(1)).1 == Ok::<Option<Seq<u8>>, RxError>(None));
        assert(run_frames(idle(), frames.take(1)) == deframe_step(idle(), frames[0]));
        assert(SessionsModel::empty().push((key, run_frames(idle(), frames.take(1)).0)) =~= seq![
            (key, run_frames(idle(), frames.take(1)).0),
        ]);
    } else {
        lemma_one_session(key, frames, cap, j - 1);
        let ss = seq![(key, run_frames(idle(), frames.take(j - 1)).0)];
        assert(ss.drop_last() =~= SessionsModel::empty());
        assert(find_session(ss, key) == 0);
        assert(frames.take(j).last() == frames[j - 1]);
        let st = deframe_step(ss[0].1, frames[j - 1]);
        assert(st == run_frames(idle(), frames.take(j)));
        if j < frames.len() {
            assert(st.1 == Ok::<Option<Seq<u8>>, RxError>(None));
            assert(ss.update(0, (key, st.0)) =~= seq![(key, st.0)]);
        } else {
            assert(frames.take(j) =~= frames);
            assert(ss.remove(0) =~= SessionsModel::empty());
        }
    }
}

/// At a node, the frames of a transfer, fed to an empty session table, give
/// nothing until the last, which gives the body; no session is left.
pub proof fn lemma_node_round_trip(key: SessionKey, body: Seq<u8>, tid: u8, cap: nat)
    requires
        cap >= 1,
        tid < 32,
    ensures
        run_table(SessionsModel::empty(), cap, keyed(key, transfer_frames(body, tid))) == (
            SessionsModel::empty(),
            Ok::<Option<Seq<u8>>, RxError>(Some(body)),
        ),
        forall|j: int|
            1 <= j < transfer_frames(body, tid).len() ==> (#[trigger] run_table(
                SessionsModel::empty(),
                cap,
                keyed(key, transfer_frames(body, tid)).take(j),
            )).1 == Ok::<Option<Seq<u8>>, RxError>(None),
{
    let fr = transfer_frames(body, tid);
    lemma_transport_round_trip(body, tid);
    lemma_toggle_alternation(body, tid);
    if body.len() <= MAX_PAYLOAD {
        let kf = keyed(key, fr);
        assert(fr.len() == 1);
        assert(kf.drop_last() =~= Seq::<(SessionKey, Seq<u8>)>::empty());
        assert(fr.drop_last() =~= Seq::<Seq<u8>>::empty());
        assert(kf.last() == (key, fr[0]));
        assert(fr[0].len() > 0);
        assert(toggle_of(fr[0].last()) == false);
        assert(sot_of(fr[0].last()) && eot_of(fr[0].last()));
        assert(run_table(SessionsModel::empty(), cap, kf.drop_last()).0 == SessionsModel::empty());
        assert(run_frames(idle(), fr).1 == deframe_step(idle(), fr[0]).1);
    } else {
        lemma_transfer_frames_are_stream_frames(body, tid);
        assert(fr.len() >= 2);
        assert forall|q: int| 0 <= q < fr.len() implies #[trigger] fr[q].len() > 0 by {}
        assert forall|j: int| 1 <= j < fr.len() implies (#[trigger] run_table(
            SessionsModel::empty(),
            cap,
            keyed(key, fr).take(j),
        )).1 == Ok::<Option<Seq<u8>>, RxError>(None) by {
            lemma_one_session(key, fr, cap, j);
        }
        lemma_one_session(key, fr, cap, fr.len() as int);
        assert(keyed(key, fr).take(fr.len() as int) =~= keyed(key, fr));
    }
}

/// At a node, a multi-frame transfer with one bit of its payload flipped, in
/// a CRC byte or in the body, fed to an empty session table, gives nothing
/// until the last frame, which gives a CRC error; no session is left.
pub proof fn lemma_node_detects_corruption(
    key: SessionKey,
    body: Seq<u8>,
    tid: u8,
    cap: nat,
    k: nat,
)
    requires
        cap >= 1,
        tid < 32,
        body.len() > MAX_PAYLOAD,
        k < 8 * (body.len() + 2),
    ensures
        run_table(
            SessionsModel::empty(),
            cap,
            keyed(key, stream_frames(flip_bit(crc_bytes(body) + body, k), tid)),
        ) == (SessionsModel::empty(), Err::<Option<Seq<u8>>, RxError>(RxError::CRCError)),
{
    let s = flip_bit(crc_bytes(body) + body, k);
    let g = stream_frames(s, tid);
    lemma_corrupted_frame_fails_crc(body, tid, k);
    assert(g.len() >= 2);
    assert forall|q: int| 1 <= q < g.len() implies !sot_of(#[trigger] g[q].last()) by {
        lemma_tail_fields(q == 0, q + 1 == g.len(), q % 2 == 1, tid);
    }
    assert forall|q: int| 0 <= q < g.len() implies #[trigger] g[q].len() > 0 by {}
    lemma_tail_fields(true, false, false, tid);
    lemma_one_session(key, g, cap, g.len() as int);
    assert(keyed(key, g).take(g.len() as int) =~= keyed(key, g));
}

/// When the table is full, a start frame of a transfer it does not hold
/// evicts the oldest session, silently, keeps the others in order, and
/// opens the new transfer's session last.
pub proof fn lemma_eviction(ss: SessionsModel, cap: nat, key: SessionKey, data: Seq<u8>)
    requires
        cap >= 1,
        ss.len() >= cap,
        find_session(ss, key) < 0,
        data.len() > 0,
        sot_of(data.last()),
        !eot_of(data.last()),
        !toggle_of(data.last()),
    ensures
        manager_step(ss, cap, key, data) == (
            ss.skip(1).push((key, (true, true, data.drop_last()))),
            Ok::<Option<Seq<u8>>, RxError>(None),
        ),
{
}

/// A frame that is not a start frame changes at most the session of its own
/// transfer: the table is left as it was, or that one session is updated in
/// place or released, every other session staying as it was and in order.
pub proof fn lemma_frame_touches_own_session(
    ss: SessionsModel,
    cap: nat,
    key: SessionKey,
    data: Seq<u8>,
)
    requires
        data.len() > 0,
        !sot_of(data.last()),
    ensures
        manager_step(ss, cap, key, data).0 == ss || {
            let i = find_session(ss, key);
            &&& 0 <= i < ss.len()
            &&& ss[i].0 == key
            &&& (manager_step(ss, cap, key, data).0 == ss.update(
                i,
                (key, deframe_step(ss[i].1, data).0),
            ) || manager_step(ss, cap, key, data).0 == ss.remove(i))
        },
{
    crate::session::lemma_find_session(ss, key);
}

/// The number of frames for a body of `bits` bits, with eight-byte frames:
/// `max(1, ceil((bits + 16) / 56))`. This holds for every body but those of
/// 41 to 56 bits, which fit in one frame where the count says two.
pub proof fn lemma_frame_count(bits: nat)
    requires
        bits <= 40 || bits > 56,
    ensures
        frame_count(bytes_for(bits)) == if (bits + 16 + 55) / 56 >= 1 {
            (bits + 16 + 55) / 56
        } else {
            1
        },
{
    let n = bytes_for(bits);
    if bits <= 40 {
        assert(n <= 5);
        assert((bits + 16 + 55) / 56 == 1);
    } else {
        assert(n >= 8);
        let q = n;
        assert((q + 8) / 7 == (bits + 71) / 56) by (nonlinear_arith)
            requires
                q == (bits + 7) / 8,
                bits > 56,
        {
            let r = 8 * q - bits;
            assert(0 <= r <= 7);
            let m = (q + 8) / 7;
            let sr = (q + 8) % 7;
            assert(q + 8 == 7 * m + sr);
            assert(bits + 71 == 56 * m + 8 * sr + 7 - r);
            assert(0 <= 8 * sr + 7 - r < 56);
        }
    }
}

/// Across the frames of a transfer the toggle bit reads 0, 1, 0, 1, ...;
/// only the first frame starts the transfer and only the last ends it.
pub proof fn lemma_toggle_alternation(body: Seq<u8>, tid: u8)
    requires
        tid < 32,
    ensures
        forall|k: int|
            0 <= k < transfer_frames(body, tid).len() ==> {
                &&& toggle_of(#[trigger] transfer_frames(body, tid)[k].last()) == (k % 2 == 1)
                &&& sot_of(transfer_frames(body, tid)[k].last()) == (k == 0)
                &&& eot_of(transfer_frames(body, tid)[k].last()) == (k + 1
                    == transfer_frames(body, tid).len())
            },
{
    assert forall|k: int| 0 <= k < transfer_frames(body, tid).len() implies {
        &&& toggle_of(#[trigger] transfer_frames(body, tid)[k].last()) == (k % 2 == 1)
        &&& sot_of(transfer_frames(body, tid)[k].last()) == (k == 0)
        &&& eot_of(transfer_frames(body, tid)[k].last()) == (k + 1 == transfer_frames(
            body,
            tid,
        ).len())
    } by {
        lemma_tail_fields(k == 0, k + 1 == frame_count(body.len()), k % 2 == 1, tid);
    }
}

} // verus!
