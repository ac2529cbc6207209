//! The primitive types of the wire format. Each one is seen through the
//! sequence of its bits, least significant first, which is exactly what it
//! puts on the wire.
use vstd::prelude::*;
use crate::bits::{bit_of, low_mask, read_bits, stream_bits, value_bits};
use bit::BitIndex;

verus! {

/// Relies on `bit::BitIndex::bit_range` for `u64`: the bits `start..end` of
/// `v`, moved down to bit 0 (it panics unless `start < end <= 64`).
#[verifier::external_body]
fn bit_range_u64(v: u64, start: usize, end: usize) -> (r: u64)
    requires
        start < end <= 64,
    ensures
        r == (v >> start as u64) & low_mask((end - start) as u64),
{
    v.bit_range(start..end)
}

/// Masking a word to its `x` low bits keeps those bits and clears the rest.
proof fn lemma_low_mask(raw: u64, x: u64, j: u64)
    by (bit_vector)
    requires
        1 <= x <= 64,
        j < 64,
    ensures
        j < x ==> (((raw >> 0u64) & low_mask(x)) >> j) & 1 == (raw >> j) & 1,
        x <= j ==> (((raw >> 0u64) & low_mask(x)) >> j) & 1 == 0,
{
}

/// The low `x` bits of `raw`, with all higher bits clear.
fn low_bits(raw: u64, x: usize) -> (r: u64)
    requires
        1 <= x <= 64,
    ensures
        value_bits(r, x as nat) == value_bits(raw, x as nat),
        forall|j: nat| x <= j ==> !#[trigger] bit_of(r, j),
        r == (raw >> 0u64) & low_mask(x as u64),
{
    let r = bit_range_u64(raw, 0, x);
    proof {
        let xx = x as u64;
        assert forall|j: nat| j < 64 implies (j < x ==> bit_of(r, j) == bit_of(raw, j)) && (x <= j
            ==> !bit_of(r, j)) by {
            lemma_low_mask(raw, xx, j as u64);
        }
        assert(value_bits(r, x as nat) =~= value_bits(raw, x as nat));
    }
    r
}

/// `low`, a word of `x` significant bits, sign-extended to 64 bits.
pub open spec fn sign_extend(low: u64, x: u64) -> u64 {
    if (low >> ((x - 1) as u64)) & 1 == 1 && x < 64 {
        low | (0xffff_ffff_ffff_ffffu64 << x)
    } else {
        low
    }
}

/// Sign extension keeps the `x` low bits and copies bit `x - 1` into all
/// higher bits.
proof fn lemma_sign_extend(raw: u64, x: u64, j: u64)
    by (bit_vector)
    requires
        2 <= x <= 64,
        j < 64,
    ensures
        j < x ==> (sign_extend((raw >> 0u64) & low_mask(x), x) >> j) & 1 == (raw >> j) & 1,
        x <= j ==> (sign_extend((raw >> 0u64) & low_mask(x), x) >> j) & 1 == (sign_extend(
            (raw >> 0u64) & low_mask(x),
            x,
        ) >> ((x - 1) as u64)) & 1,
{
}

/// A 16-bit pattern widened to 64 bits: its bits, then clear bits.
pub(crate) proof fn lemma_widen16(raw: u64, b: u16, j: u64)
    by (bit_vector)
    requires
        j < 64,
    ensures
        j < 16 ==> ((((raw & 0xffff) as u16) as u64) >> j) & 1 == (raw >> j) & 1,
        16 <= j ==> ((b as u64) >> j) & 1 == 0,
{
}

/// A 32-bit pattern widened to 64 bits: its bits, then clear bits.
pub(crate) proof fn lemma_widen32(raw: u64, b: u32, j: u64)
    by (bit_vector)
    requires
        j < 64,
    ensures
        j < 32 ==> ((((raw & 0xffff_ffff) as u32) as u64) >> j) & 1 == (raw >> j) & 1,
        32 <= j ==> ((b as u64) >> j) & 1 == 0,
{
}

/// Two signed words with one bit pattern are equal.
pub(crate) proof fn lemma_i64_pattern(a: i64, b: i64)
    by (bit_vector)
    ensures
        a as u64 == b as u64 ==> a == b,
{
}

/// A primitive type of the wire format: a fixed number of bits.
pub trait UavcanPrimitiveType {
    /// The number of bits the value takes on the wire.
    spec fn width(&self) -> nat;

    /// The bits of the value, least significant first.
    spec fn bits(&self) -> Seq<bool>;

    /// Padding is sent as zeros and ignored on receipt.
    spec fn is_padding(&self) -> bool;

    /// The declared width is one that the type admits.
    spec fn well_formed(&self) -> bool;

    /// The value is what its bits spell: an unsigned integer has no bit set
    /// above its width, a signed one repeats its sign bit there.
    spec fn extended(&self) -> bool;

    fn bitlength(&self) -> (r: usize)
        requires
            self.well_formed(),
        ensures
            r == self.width(),
            1 <= r <= 64,
    ;

    /// The bits of the value in the low bits of a word.
    fn to_bits(&self) -> (r: u64)
        requires
            self.well_formed(),
        ensures
            value_bits(r, self.width()) == self.bits(),
    ;

    /// Takes the value from the low `width` bits of `raw`.
    fn set_from_bits(&mut self, raw: u64)
        requires
            old(self).well_formed(),
        ensures
            final(self).well_formed(),
            final(self).extended(),
            final(self).width() == old(self).width(),
            final(self).is_padding() == old(self).is_padding(),
            final(self).bits() == if old(self).is_padding() {
                old(self).bits()
            } else {
                value_bits(raw, old(self).width())
            },
    ;

    /// Takes the value from the first `width` bits of `buffer`.
    fn set_from_bytes(&mut self, buffer: &[u8])
        requires
            old(self).well_formed(),
            !old(self).is_padding() ==> old(self).width() <= 8 * buffer@.len(),
        ensures
            final(self).well_formed(),
            final(self).extended(),
            final(self).width() == old(self).width(),
            final(self).is_padding() == old(self).is_padding(),
            final(self).bits() == if old(self).is_padding() {
                old(self).bits()
            } else {
                stream_bits(buffer@).take(old(self).width() as int)
            },
    ;
}

/// The raw bit pattern of an IEEE half-precision number.
#[derive(Clone, Copy, Debug, PartialEq, Eq, Structural)]
pub struct F16 {
    pub bitfield: u16,
}

impl F16 {
    pub fn from_bitmap(bm: u16) -> (r: F16)
        ensures
            r.bitfield == bm,
    {
        F16 { bitfield: bm }
    }

    pub fn to_bitmap(&self) -> (r: u16)
        ensures
            r == self.bitfield,
    {
        self.bitfield
    }
}

/// A one-bit boolean.
#[derive(Clone, Copy, Debug, PartialEq, Eq, Structural)]
pub struct Bool {
    pub value: bool,
}

/// A signed integer of `x` bits, sign-extended on receipt.
#[derive(Clone, Copy, Debug, PartialEq, Eq, Structural)]
pub struct IntX {
    pub x: usize,
    pub value: i64,
}

/// An unsigned integer of `x` bits.
#[derive(Clone, Copy, Debug, PartialEq, Eq, Structural)]
pub struct UintX {
    pub x: usize,
    pub value: u64,
}

/// An IEEE half-precision number, carried as its bit pattern.
#[derive(Clone, Copy, Debug, PartialEq, Eq, Structural)]
pub struct Float16 {
    pub value: F16,
}

/// An IEEE single-precision number, carried as its bit pattern.
#[derive(Clone, Copy, Debug, PartialEq, Eq, Structural)]
pub struct Float32 {
    pub bitfield: u32,
}

/// An IEEE double-precision number, carried as its bit pattern.
#[derive(Clone, Copy, Debug, PartialEq, Eq, Structural)]
pub struct Float64 {
    pub bitfield: u64,
}

/// `x` bits of padding.
#[derive(Clone, Copy, Debug, PartialEq, Eq, Structural)]
pub struct VoidX {
    pub x: usize,
}

impl Bool {
    pub fn new(value: bool) -> (r: Bool)
        ensures
            r.value == value,
            r.well_formed(),
    {
        Bool { value: value }
    }

    pub fn value(&self) -> (r: bool)
        ensures
            r == self.value,
    {
        self.value
    }
}

impl IntX {
    pub fn new(x: usize, value: i64) -> (r: IntX)
        requires
            2 <= x <= 64,
        ensures
            r.x == x,
            r.value == value,
            r.well_formed(),
    {
        IntX { x: x, value: value }
    }

    pub fn value(&self) -> (r: i64)
        ensures
            r == self.value,
    {
        self.value
    }
}

impl UintX {
    pub fn new(x: usize, value: u64) -> (r: UintX)
        requires
            1 <= x <= 64,
        ensures
            r.x == x,
            r.value == value,
            r.well_formed(),
    {
        UintX { x: x, value: value }
    }

    pub fn value(&self) -> (r: u64)
        ensures
            r == self.value,
    {
        self.value
    }
}

impl Float16 {
    pub fn new(value: F16) -> (r: Float16)
        ensures
            r.value == value,
    {
        Float16 { value: value }
    }

    pub fn value(&self) -> (r: F16)
        ensures
            r == self.value,
    {
        self.value
    }
}

impl Float32 {
    pub fn from_bits(bits: u32) -> (r: Float32)
        ensures
            r.bitfield == bits,
    {
        Float32 { bitfield: bits }
    }

    pub fn value_bits(&self) -> (r: u32)
        ensures
            r == self.bitfield,
    {
        self.bitfield
    }
}

impl Float64 {
    pub fn from_bits(bits: u64) -> (r: Float64)
        ensures
            r.bitfield == bits,
    {
        Float64 { bitfield: bits }
    }

    pub fn value_bits(&self) -> (r: u64)
        ensures
            r == self.bitfield,
    {
        self.bitfield
    }
}

impl VoidX {
    pub fn new(x: usize) -> (r: VoidX)
        requires
            1 <= x <= 64,
        ensures
            r.x == x,
            r.well_formed(),
    {
        VoidX { x: x }
    }
}

/// The low `w` bits of a narrower word, widened to 64 bits, are its own.
proof fn lemma_widen_bits(v: u64, raw: u64, w: u64)
    requires
        w <= 64,
        forall|j: u64| j < w ==> #[trigger] ((v >> j) & 1) == ((raw >> j) & 1),
    ensures
        value_bits(v, w as nat) == value_bits(raw, w as nat),
{
    assert forall|j: int| 0 <= j < w implies value_bits(v, w as nat)[j] == value_bits(
        raw,
        w as nat,
    )[j] by {
        let jj = j as u64;
        assert((v >> jj) & 1 == (raw >> jj) & 1);
    }
    assert(value_bits(v, w as nat) =~= value_bits(raw, w as nat));
}

impl UavcanPrimitiveType for Bool {
    open spec fn width(&self) -> nat {
        1
    }

    open spec fn bits(&self) -> Seq<bool> {
        seq![self.value]
    }

    open spec fn is_padding(&self) -> bool {
        false
    }

    open spec fn well_formed(&self) -> bool {
        true
    }

    open spec fn extended(&self) -> bool {
        true
    }

    fn bitlength(&self) -> (r: usize) {
        1
    }

    fn to_bits(&self) -> (r: u64) {
        let r: u64 = if self.value { 1 } else { 0 };
        assert((1u64 >> 0u64) & 1 == 1 && (0u64 >> 0u64) & 1 == 0) by (bit_vector);
        assert(value_bits(r, 1) =~= seq![self.value]);
        r
    }

    fn set_from_bits(&mut self, raw: u64) {
        self.value = raw & 1 == 1;
        assert((raw & 1 == 1) == ((raw >> 0u64) & 1 == 1)) by (bit_vector);
        assert(value_bits(raw, 1) =~= seq![self.value]);
    }

    fn set_from_bytes(&mut self, buffer: &[u8]) {
        let raw = read_bits(buffer, 0, 1);
        self.set_from_bits(raw);
    }
}

impl UavcanPrimitiveType for IntX {
    open spec fn width(&self) -> nat {
        self.x as nat
    }

    open spec fn bits(&self) -> Seq<bool> {
        value_bits(self.value as u64, self.x as nat)
    }

    open spec fn is_padding(&self) -> bool {
        false
    }

    open spec fn well_formed(&self) -> bool {
        2 <= self.x <= 64
    }

    open spec fn extended(&self) -> bool {
        forall|j: nat|
            self.x <= j < 64 ==> #[trigger] bit_of(self.value as u64, j) == bit_of(
                self.value as u64,
                (self.x - 1) as nat,
            )
    }

    fn bitlength(&self) -> (r: usize) {
        self.x
    }

    fn to_bits(&self) -> (r: u64) {
        self.value as u64
    }

    fn set_from_bits(&mut self, raw: u64) {
        let x = self.x;
        let low = low_bits(raw, x);
        let sign = (low >> (x - 1) as u64) & 1 == 1;
        let ext: u64 = if sign && x < 64 {
            low | (0xffff_ffff_ffff_ffffu64 << x as u64)
        } else {
            low
        };
        proof {
            let xx = x as u64;
            assert(low == (raw >> 0u64) & low_mask(xx));
            assert(ext == sign_extend(low, xx));
            assert forall|j: nat| j < 64 implies (j < x ==> bit_of(ext, j) == bit_of(raw, j)) && (x
                <= j ==> bit_of(ext, j) == bit_of(ext, (x - 1) as nat)) by {
                lemma_sign_extend(raw, xx, j as u64);
            }
            assert(value_bits(ext, x as nat) =~= value_bits(raw, x as nat));
            assert(#[verifier::truncate] ((#[verifier::truncate] (ext as i64)) as u64) == ext) by (bit_vector);
        }
        self.value = #[verifier::truncate] (ext as i64);
        proof {
            assert(self.value as u64 == ext);
            assert forall|j: nat| self.x <= j < 64 implies #[trigger] bit_of(self.value as u64, j)
                == bit_of(self.value as u64, (self.x - 1) as nat) by {
                lemma_sign_extend(raw, x as u64, j as u64);
            }
        }
    }

    fn set_from_bytes(&mut self, buffer: &[u8]) {
        let raw = read_bits(buffer, 0, self.x);
        self.set_from_bits(raw);
    }
}

impl UavcanPrimitiveType for UintX {
    open spec fn width(&self) -> nat {
        self.x as nat
    }

    open spec fn bits(&self) -> Seq<bool> {
        value_bits(self.value, self.x as nat)
    }

    open spec fn is_padding(&self) -> bool {
        false
    }

    open spec fn well_formed(&self) -> bool {
        1 <= self.x <= 64
    }

    open spec fn extended(&self) -> bool {
        forall|j: nat| self.x <= j ==> !#[trigger] bit_of(self.value, j)
    }

    fn bitlength(&self) -> (r: usize) {
        self.x
    }

    fn to_bits(&self) -> (r: u64) {
        self.value
    }

    fn set_from_bits(&mut self, raw: u64) {
        self.value = low_bits(raw, self.x);
    }

    fn set_from_bytes(&mut self, buffer: &[u8]) {
        let raw = read_bits(buffer, 0, self.x);
        self.set_from_bits(raw);
    }
}

impl UavcanPrimitiveType for Float16 {
    open spec fn width(&self) -> nat {
        16
    }

    open spec fn bits(&self) -> Seq<bool> {
        value_bits(self.value.bitfield as u64, 16)
    }

    open spec fn is_padding(&self) -> bool {
        false
    }

    open spec fn well_formed(&self) -> bool {
        true
    }

    open spec fn extended(&self) -> bool {
        true
    }

    fn bitlength(&self) -> (r: usize) {
        16
    }

    fn to_bits(&self) -> (r: u64) {
        self.value.bitfield as u64
    }

    fn set_from_bits(&mut self, raw: u64) {
        let b = (raw & 0xffff) as u16;
        proof {
            assert forall|j: u64| j < 16 implies #[trigger] (((b as u64) >> j) & 1) == ((raw >> j)
                & 1) by {
                lemma_widen16(raw, b, j);
            }
            lemma_widen_bits(b as u64, raw, 16);
        }
        self.value = F16::from_bitmap(b);
    }

    fn set_from_bytes(&mut self, buffer: &[u8]) {
        let raw = read_bits(buffer, 0, 16);
        self.set_from_bits(raw);
    }
}

impl UavcanPrimitiveType for Float32 {
    open spec fn width(&self) -> nat {
        32
    }

    open spec fn bits(&self) -> Seq<bool> {
        value_bits(self.bitfield as u64, 32)
    }

    open spec fn is_padding(&self) -> bool {
        false
    }

    open spec fn well_formed(&self) -> bool {
        true
    }

    open spec fn extended(&self) -> bool {
        true
    }

    fn bitlength(&self) -> (r: usize) {
        32
    }

    fn to_bits(&self) -> (r: u64) {
        self.bitfield as u64
    }

    fn set_from_bits(&mut self, raw: u64) {
        let b = (raw & 0xffff_ffff) as u32;
        proof {
            assert forall|j: u64| j < 32 implies #[trigger] (((b as u64) >> j) & 1) == ((raw >> j)
                & 1) by {
                lemma_widen32(raw, b, j);
            }
            lemma_widen_bits(b as u64, raw, 32);
        }
        self.bitfield = b;
    }

    fn set_from_bytes(&mut self, buffer: &[u8]) {
        let raw = read_bits(buffer, 0, 32);
        self.set_from_bits(raw);
    }
}

impl UavcanPrimitiveType for Float64 {
    open spec fn width(&self) -> nat {
        64
    }

    open spec fn bits(&self) -> Seq<bool> {
        value_bits(self.bitfield, 64)
    }

    open spec fn is_padding(&self) -> bool {
        false
    }

    open spec fn well_formed(&self) -> bool {
        true
    }

    open spec fn extended(&self) -> bool {
        true
    }

    fn bitlength(&self) -> (r: usize) {
        64
    }

    fn to_bits(&self) -> (r: u64) {
        self.bitfield
    }

    fn set_from_bits(&mut self, raw: u64) {
        self.bitfield = raw;
    }

    fn set_from_bytes(&mut self, buffer: &[u8]) {
        let raw = read_bits(buffer, 0, 64);
        self.set_from_bits(raw);
    }
}

impl UavcanPrimitiveType for VoidX {
    open spec fn width(&self) -> nat {
        self.x as nat
    }

    open spec fn bits(&self) -> Seq<bool> {
        Seq::new(self.x as nat, |i: int| false)
    }

    open spec fn is_padding(&self) -> bool {
        true
    }

    open spec fn well_formed(&self) -> bool {
        1 <= self.x <= 64
    }

    open spec fn extended(&self) -> bool {
        true
    }

    fn bitlength(&self) -> (r: usize) {
        self.x
    }

    fn to_bits(&self) -> (r: u64) {
        proof {
            assert forall|j: u64| j < 64 implies #[trigger] ((0u64 >> j) & 1) == 0 by {
                crate::bits::lemma_zero_bit(j);
            }
            assert(value_bits(0, self.x as nat) =~= self.bits());
        }
        0
    }

    fn set_from_bits(&mut self, raw: u64) {
    }

    fn set_from_bytes(&mut self, buffer: &[u8]) {
    }
}

impl From<Bool> for bool {
    fn from(t: Bool) -> (r: bool)
        ensures
            r == t.value,
    {
        t.value
    }
}

impl vstd::std_specs::convert::FromSpecImpl<Bool> for bool {
    open spec fn obeys_from_spec() -> bool {
        true
    }

    open spec fn from_spec(t: Bool) -> bool {
        t.value
    }
}

impl From<IntX> for i64 {
    fn from(t: IntX) -> (r: i64)
        ensures
            r == t.value,
    {
        t.value
    }
}

impl vstd::std_specs::convert::FromSpecImpl<IntX> for i64 {
    open spec fn obeys_from_spec() -> bool {
        true
    }

    open spec fn from_spec(t: IntX) -> i64 {
        t.value
    }
}

impl From<UintX> for u64 {
    fn from(t: UintX) -> (r: u64)
        ensures
            r == t.value,
    {
        t.value
    }
}

impl vstd::std_specs::convert::FromSpecImpl<UintX> for u64 {
    open spec fn obeys_from_spec() -> bool {
        true
    }

    open spec fn from_spec(t: UintX) -> u64 {
        t.value
    }
}

impl From<Float16> for F16 {
    fn from(t: Float16) -> (r: F16)
        ensures
            r == t.value,
    {
        t.value
    }
}

impl vstd::std_specs::convert::FromSpecImpl<Float16> for F16 {
    open spec fn obeys_from_spec() -> bool {
        true
    }

    open spec fn from_spec(t: Float16) -> F16 {
        t.value
    }
}

} // verus!
