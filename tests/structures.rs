use uavcan::serializer::{deserialize, serialize, DecodeError};
use uavcan::structure::{DynamicArray, Field, Primitive, Structure, UavcanIndexable, UavcanPrimitiveField};
use uavcan::types::{Bool, Float16, Float32, Float64, IntX, UavcanPrimitiveType, UintX, VoidX, F16};

fn node_status() -> Structure {
    let mut s = Structure::new();
    s.push(Primitive::Uint(UintX::new(32, 0)));
    s.push(Primitive::Uint(UintX::new(2, 0)));
    s.push(Primitive::Uint(UintX::new(3, 0)));
    s.push(Primitive::Uint(UintX::new(3, 0)));
    s.push(Primitive::Uint(UintX::new(16, 0)));
    s
}

fn uint_field(s: &Structure, i: usize) -> UintX {
    match s.primitive_field(i) {
        Some(Field::Primitive(Primitive::Uint(u))) => *u,
        other => panic!("field {} is not an unsigned integer: {:?}", i, other),
    }
}

#[test]
fn uavcan_sized_length_derivation() {
    let ns = node_status();
    let mut composite = Structure::new();
    composite.append(&node_status());
    composite.append(&node_status());
    let mut composite2 = Structure::new();
    composite2.append(&node_status());
    composite2.append(&composite);
    composite2.append(&node_status());

    assert_eq!(ns.number_of_primitive_fields(), 5);
    assert_eq!(composite.number_of_primitive_fields(), 10);
    assert_eq!(composite2.number_of_primitive_fields(), 20);
}

#[test]
fn uavcan_index_primitive_field() {
    let mut node_status = node_status();

    assert!(node_status.set_field_from_bytes(0, &[1, 0, 0, 0]));
    assert!(node_status.set_field_from_bytes(1, &[2]));
    assert!(node_status.set_field_from_bytes(2, &[3]));
    assert!(node_status.set_field_from_bytes(3, &[4]));
    assert!(node_status.set_field_from_bytes(4, &[5, 0]));

    assert!(node_status.set_field_from_bytes(1, &[2, 0, 0, 0]));

    assert_eq!(uint_field(&node_status, 0), UintX::new(32, 1));
    assert_eq!(uint_field(&node_status, 1), UintX::new(2, 2));
    assert_eq!(uint_field(&node_status, 2), UintX::new(3, 3));
    assert_eq!(uint_field(&node_status, 3), UintX::new(3, 4));
    assert_eq!(uint_field(&node_status, 4), UintX::new(16, 5));
}

#[test]
fn uavcan_parse_test_byte_aligned() {
    let mut message = Structure::new();
    message.push(Primitive::Uint(UintX::new(8, 0)));
    message.push(Primitive::Uint(UintX::new(32, 0)));
    message.push(Primitive::Uint(UintX::new(16, 0)));
    message.push(Primitive::Uint(UintX::new(8, 0)));

    let read = deserialize(&mut message, &[17, 19, 0, 0, 0, 21, 0, 23]);
    assert_eq!(read, Ok(64));

    assert_eq!(uint_field(&message, 0), UintX::new(8, 17));
    assert_eq!(uint_field(&message, 1), UintX::new(32, 19));
    assert_eq!(uint_field(&message, 2), UintX::new(16, 21));
    assert_eq!(uint_field(&message, 3), UintX::new(8, 23));
}

#[test]
fn uavcan_parse_test_misaligned() {
    let mut node_status_message = node_status();

    let read = deserialize(&mut node_status_message, &[1, 0, 0, 0, 0b10001110, 5, 0]);
    assert_eq!(read, Ok(56));

    assert_eq!(uint_field(&node_status_message, 0), UintX::new(32, 1));
    assert_eq!(uint_field(&node_status_message, 1), UintX::new(2, 2));
    assert_eq!(uint_field(&node_status_message, 2), UintX::new(3, 3));
    assert_eq!(uint_field(&node_status_message, 3), UintX::new(3, 4));
    assert_eq!(uint_field(&node_status_message, 4), UintX::new(16, 5));
}

#[test]
fn serialize_node_status_body() {
    let mut s = Structure::new();
    s.push(Primitive::Uint(UintX::new(32, 1)));
    s.push(Primitive::Uint(UintX::new(2, 2)));
    s.push(Primitive::Uint(UintX::new(3, 3)));
    s.push(Primitive::Uint(UintX::new(3, 4)));
    s.push(Primitive::Uint(UintX::new(16, 5)));
    assert_eq!(s.bit_length(), 56);
    assert_eq!(serialize(&s), vec![0x01, 0x00, 0x00, 0x00, 0x8E, 0x05, 0x00]);
}

#[test]
fn serialize_pads_last_byte_with_zeros() {
    let mut s = Structure::new();
    s.push(Primitive::Bool(Bool::new(true)));
    s.push(Primitive::Void(VoidX::new(3)));
    s.push(Primitive::Uint(UintX::new(5, 0b10101)));
    assert_eq!(serialize(&s), vec![0b0101_0001, 0b0000_0001]);
}

#[test]
fn serialize_empty_structure() {
    let s = Structure::new();
    assert_eq!(s.bit_length(), 0);
    assert_eq!(serialize(&s), Vec::<u8>::new());
}

#[test]
fn deserialize_short_buffer_is_bit_error() {
    let mut s = node_status();
    let before = uint_field(&s, 0);
    assert_eq!(deserialize(&mut s, &[1, 0, 0, 0, 0, 0]), Err(DecodeError::BitError));
    assert_eq!(uint_field(&s, 0), before);
}

#[test]
fn signed_integers_are_sign_extended() {
    let mut i = IntX::new(4, 0);
    i.set_from_bytes(&[0b0000_1110]);
    assert_eq!(i.value(), -2);
    i.set_from_bytes(&[0b0000_0110]);
    assert_eq!(i.value(), 6);
    let mut wide = IntX::new(64, 0);
    wide.set_from_bytes(&[0xff; 8]);
    assert_eq!(wide.value(), -1);
}

#[test]
fn unsigned_integers_keep_only_their_width() {
    let mut u = UintX::new(3, 0);
    u.set_from_bytes(&[0xff]);
    assert_eq!(u.value(), 7);
    let mut full = UintX::new(64, 0);
    full.set_from_bytes(&[0x01, 0x23, 0x45, 0x67, 0x89, 0xab, 0xcd, 0xef]);
    assert_eq!(full.value(), 0xefcd_ab89_6745_2301);
}

#[test]
fn bool_reads_lowest_bit() {
    let mut b = Bool::new(true);
    b.set_from_bytes(&[0b10]);
    assert!(!b.value());
    b.set_from_bytes(&[0b01]);
    assert!(b.value());
}

#[test]
fn floats_keep_their_bit_patterns() {
    let mut h = Float16::new(F16::from_bitmap(0));
    h.set_from_bytes(&[0x01, 0x7e]);
    assert_eq!(h.value().to_bitmap(), 0x7e01);
    let nan = f32::from_bits(0x7fc0_0001);
    let mut f = Float32::from_bits(0);
    f.set_from_bytes(&nan.to_bits().to_le_bytes());
    assert_eq!(f.value_bits(), nan.to_bits());
    let d = -1.5f64;
    let mut g = Float64::from_bits(0);
    g.set_from_bytes(&d.to_bits().to_le_bytes());
    assert_eq!(f64::from_bits(g.value_bits()), d);
}

#[test]
fn void_ignores_received_bits() {
    let mut v = VoidX::new(5);
    v.set_from_bytes(&[0xff]);
    assert_eq!(v, VoidX::new(5));
    assert_eq!(v.bitlength(), 5);
}

#[test]
fn primitive_field_of_one_element() {
    let p = Primitive::Uint(UintX::new(7, 9));
    assert!(p.is_constant_size());
    assert_eq!(p.get_size(), 1);
    assert_eq!(p.primitive_type(0), Some(p));
    assert_eq!(p.primitive_type(1), None);
    let s = node_status();
    assert!(s.primitive_field(5).is_none());
}

#[test]
fn bit_round_trip_through_bytes() {
    let mut sent = Structure::new();
    sent.push(Primitive::Int(IntX::new(7, -33)));
    sent.push(Primitive::Bool(Bool::new(true)));
    sent.push(Primitive::Void(VoidX::new(2)));
    sent.push(Primitive::Float16(Float16::new(F16::from_bitmap(0xabcd))));
    sent.push(Primitive::Uint(UintX::new(13, 0x1234 & 0x1fff)));
    let bytes = serialize(&sent);
    let mut template = Structure::new();
    template.push(Primitive::Int(IntX::new(7, 0)));
    template.push(Primitive::Bool(Bool::new(false)));
    template.push(Primitive::Void(VoidX::new(2)));
    template.push(Primitive::Float16(Float16::new(F16::from_bitmap(0))));
    template.push(Primitive::Uint(UintX::new(13, 0)));
    assert_eq!(deserialize(&mut template, &bytes), Ok(sent.bit_length()));
    for i in 0..5 {
        assert_eq!(template.primitive_field(i), sent.primitive_field(i));
    }
}

#[test]
fn conversions_of_primitives() {
    assert!(bool::from(Bool::new(true)));
    assert_eq!(i64::from(IntX::new(12, -7)), -7);
    assert_eq!(u64::from(UintX::new(12, 4000)), 4000);
    assert_eq!(F16::from(Float16::new(F16::from_bitmap(0x3c00))), F16::from_bitmap(0x3c00));
}

fn u8_array(max: usize, values: &[u64]) -> DynamicArray {
    let mut a = DynamicArray::new(max, Primitive::Uint(UintX::new(8, 0)));
    for v in values {
        assert!(a.push(Primitive::Uint(UintX::new(8, *v))));
    }
    a
}

#[test]
fn array_prefix_takes_fewest_bits_for_bound() {
    for (max, bits) in [(1usize, 1usize), (2, 2), (3, 2), (4, 3), (15, 4), (16, 5), (255, 8)] {
        let mut s = Structure::new();
        s.push_array(DynamicArray::new(max, Primitive::Bool(Bool::new(false))));
        assert_eq!(s.bit_length(), bits, "bound {}", max);
    }
}

#[test]
fn array_push_respects_bound_and_shape() {
    let mut a = DynamicArray::new(2, Primitive::Uint(UintX::new(8, 0)));
    assert!(!a.push(Primitive::Uint(UintX::new(7, 1))));
    assert!(!a.push(Primitive::Bool(Bool::new(true))));
    assert!(a.push(Primitive::Uint(UintX::new(8, 1))));
    assert!(a.push(Primitive::Uint(UintX::new(8, 2))));
    assert!(!a.push(Primitive::Uint(UintX::new(8, 3))));
    assert_eq!(a.len(), 2);
    assert_eq!(a.get(1), Some(Primitive::Uint(UintX::new(8, 2))));
    assert_eq!(a.get(2), None);
}

#[test]
fn array_serializes_prefix_then_elements() {
    let mut s = Structure::new();
    s.push(Primitive::Uint(UintX::new(4, 0xA)));
    s.push_array(u8_array(5, &[0x11, 0x22]));
    assert_eq!(s.bit_length(), 4 + 3 + 16);
    // bits: 0xA in bits 0..4, length 2 in bits 4..7, 0x11 in 7..15, 0x22 in 15..23
    assert_eq!(serialize(&s), vec![0xAA, 0x08, 0x11]);
}

#[test]
fn array_round_trip_takes_length_from_prefix() {
    let mut sent = Structure::new();
    sent.push(Primitive::Bool(Bool::new(true)));
    sent.push_array(u8_array(6, &[9, 8, 7]));
    sent.push(Primitive::Int(IntX::new(5, -3)));
    let bytes = serialize(&sent);

    let mut template = Structure::new();
    template.push(Primitive::Bool(Bool::new(false)));
    template.push_array(u8_array(6, &[1]));
    template.push(Primitive::Int(IntX::new(5, 0)));
    assert_eq!(deserialize(&mut template, &bytes), Ok(sent.bit_length()));
    for i in 0..3 {
        assert_eq!(template.primitive_field(i), sent.primitive_field(i));
    }
    let field = template.primitive_field(1).unwrap();
    assert!(!field.is_constant_size());
    assert_eq!(field.get_size(), 4);
    assert_eq!(field.primitive_type(0), Some(Primitive::Uint(UintX::new(3, 3))));
    assert_eq!(field.primitive_type(3), Some(Primitive::Uint(UintX::new(8, 7))));
    assert_eq!(field.primitive_type(4), None);
}

#[test]
fn array_length_beyond_bound_is_length_error() {
    let mut template = Structure::new();
    template.push_array(u8_array(4, &[]));
    // a 3-bit prefix of 7, above the bound of 4
    let before = template.primitive_field(0).cloned();
    assert_eq!(deserialize(&mut template, &[0x07, 0, 0, 0, 0]), Err(DecodeError::LengthError));
    assert_eq!(template.primitive_field(0).cloned(), before);
}

#[test]
fn array_elements_beyond_buffer_is_bit_error() {
    let mut template = Structure::new();
    template.push_array(u8_array(4, &[]));
    // prefix 3 asks for 24 bits of elements, only 13 follow
    assert_eq!(deserialize(&mut template, &[0x03, 0x00]), Err(DecodeError::BitError));
}

#[test]
fn signed_integers_of_several_widths() {
    let mut a = IntX::new(3, 0);
    a.set_from_bytes(&[0x07]);
    assert_eq!(a, IntX::new(3, -1));
    let mut b = IntX::new(8, 0);
    b.set_from_bytes(&[0x80]);
    assert_eq!(b, IntX::new(8, -128));
    let mut c = IntX::new(16, 0);
    c.set_from_bytes(&[0xFE, 0xFF]);
    assert_eq!(c, IntX::new(16, -2));
    let mut d = IntX::new(8, 0);
    d.set_from_bytes(&[0x7F]);
    assert_eq!(d, IntX::new(8, 127));
}

#[test]
fn padding_reads_an_empty_buffer() {
    let mut v = VoidX::new(12);
    v.set_from_bytes(&[]);
    assert_eq!(v, VoidX::new(12));
    let mut p = Primitive::Void(VoidX::new(3));
    p.set_from_bytes(&[]);
    assert_eq!(p, Primitive::Void(VoidX::new(3)));
}
