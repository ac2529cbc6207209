//! Structures: ordered lists of fields, each a primitive or a
//! variable-length array of primitives, and the flattened view of a
//! structure as the primitives it puts on the wire, one after the other.
use vstd::prelude::*;
use crate::bits::{bit_of, lemma_bits_value, stream_bits, value_bits};
use crate::types::{Bool, Float16, Float32, Float64, IntX, UavcanPrimitiveType, UintX, VoidX};

verus! {

/// The largest number of bits a structure may take on the wire.
pub const MAX_BITS: usize = 0x0100_0000;

/// A primitive value of the wire format.
#[derive(Clone, Copy, Debug, PartialEq, Eq, Structural)]
pub enum Primitive {
    Bool(Bool),
    Int(IntX),
    Uint(UintX),
    Float16(Float16),
    Float32(Float32),
    Float64(Float64),
    Void(VoidX),
}

impl Primitive {
    /// Two primitives have the same shape when they are of one type and
    /// width, whatever their values.
    pub open spec fn same_shape(&self, other: Primitive) -> bool {
        &&& self.width() == other.width()
        &&& match (*self, other) {
            (Primitive::Bool(_), Primitive::Bool(_)) => true,
            (Primitive::Int(_), Primitive::Int(_)) => true,
            (Primitive::Uint(_), Primitive::Uint(_)) => true,
            (Primitive::Float16(_), Primitive::Float16(_)) => true,
            (Primitive::Float32(_), Primitive::Float32(_)) => true,
            (Primitive::Float64(_), Primitive::Float64(_)) => true,
            (Primitive::Void(_), Primitive::Void(_)) => true,
            _ => false,
        }
    }

    /// Takes the value from the low bits of `raw`, keeping the shape.
    pub fn set_bits(&mut self, raw: u64)
        requires
            old(self).well_formed(),
        ensures
            final(self).well_formed(),
            final(self).extended(),
            final(self).same_shape(*old(self)),
            final(self).bits() == if old(self).is_padding() {
                old(self).bits()
            } else {
                value_bits(raw, old(self).width())
            },
    {
        match self {
            Primitive::Bool(p) => p.set_from_bits(raw),
            Primitive::Int(p) => p.set_from_bits(raw),
            Primitive::Uint(p) => p.set_from_bits(raw),
            Primitive::Float16(p) => p.set_from_bits(raw),
            Primitive::Float32(p) => p.set_from_bits(raw),
            Primitive::Float64(p) => p.set_from_bits(raw),
            Primitive::Void(p) => p.set_from_bits(raw),
        }
    }
}

impl UavcanPrimitiveType for Primitive {
    open spec fn width(&self) -> nat {
        match self {
            Primitive::Bool(p) => p.width(),
            Primitive::Int(p) => p.width(),
            Primitive::Uint(p) => p.width(),
            Primitive::Float16(p) => p.width(),
            Primitive::Float32(p) => p.width(),
            Primitive::Float64(p) => p.width(),
            Primitive::Void(p) => p.width(),
        }
    }

    open spec fn bits(&self) -> Seq<bool> {
        match self {
            Primitive::Bool(p) => p.bits(),
            Primitive::Int(p) => p.bits(),
            Primitive::Uint(p) => p.bits(),
            Primitive::Float16(p) => p.bits(),
            Primitive::Float32(p) => p.bits(),
            Primitive::Float64(p) => p.bits(),
            Primitive::Void(p) => p.bits(),
        }
    }

    open spec fn is_padding(&self) -> bool {
        self is Void
    }

    open spec fn extended(&self) -> bool {
        match self {
            Primitive::Bool(p) => p.extended(),
            Primitive::Int(p) => p.extended(),
            Primitive::Uint(p) => p.extended(),
            Primitive::Float16(p) => p.extended(),
            Primitive::Float32(p) => p.extended(),
            Primitive::Float64(p) => p.extended(),
            Primitive::Void(p) => p.extended(),
        }
    }

    open spec fn well_formed(&self) -> bool {
        match self {
            Primitive::Bool(p) => p.well_formed(),
            Primitive::Int(p) => p.well_formed(),
            Primitive::Uint(p) => p.well_formed(),
            Primitive::Float16(p) => p.well_formed(),
            Primitive::Float32(p) => p.well_formed(),
            Primitive::Float64(p) => p.well_formed(),
            Primitive::Void(p) => p.well_formed(),
        }
    }

    fn bitlength(&self) -> (r: usize) {
        match self {
            Primitive::Bool(p) => p.bitlength(),
            Primitive::Int(p) => p.bitlength(),
            Primitive::Uint(p) => p.bitlength(),
            Primitive::Float16(p) => p.bitlength(),
            Primitive::Float32(p) => p.bitlength(),
            Primitive::Float64(p) => p.bitlength(),
            Primitive::Void(p) => p.bitlength(),
        }
    }

    fn to_bits(&self) -> (r: u64) {
        match self {
            Primitive::Bool(p) => p.to_bits(),
            Primitive::Int(p) => p.to_bits(),
            Primitive::Uint(p) => p.to_bits(),
            Primitive::Float16(p) => p.to_bits(),
            Primitive::Float32(p) => p.to_bits(),
            Primitive::Float64(p) => p.to_bits(),
            Primitive::Void(p) => p.to_bits(),
        }
    }

    fn set_from_bits(&mut self, raw: u64) {
        self.set_bits(raw);
    }

    fn set_from_bytes(&mut self, buffer: &[u8]) {
        if let Primitive::Void(v) = self {
            v.set_from_bytes(buffer);
            return;
        }
        let raw = crate::bits::read_bits(buffer, 0, self.bitlength());
        self.set_bits(raw);
    }
}

/// The total width of a list of primitives.
pub open spec fn total_width(ps: Seq<Primitive>) -> nat
    decreases ps.len(),
{
    if ps.len() == 0 {
        0
    } else {
        total_width(ps.drop_last()) + ps.last().width()
    }
}

/// The bits of a list of primitives, one after the other in order.
pub open spec fn flat_bits(ps: Seq<Primitive>) -> Seq<bool>
    decreases ps.len(),
{
    if ps.len() == 0 {
        Seq::empty()
    } else {
        flat_bits(ps.drop_last()) + ps.last().bits()
    }
}

/// Every primitive of the list holds the value its bits spell.
pub open spec fn all_extended(ps: Seq<Primitive>) -> bool {
    forall|i: int| 0 <= i < ps.len() ==> #[trigger] ps[i].extended()
}

/// A primitive's value is fixed by its shape and its bits: two primitives
/// of one shape with the same bits, each holding the value its bits spell,
/// are equal.
pub proof fn lemma_value_determined(p: Primitive, q: Primitive)
    requires
        p.well_formed(),
        q.well_formed(),
        p.same_shape(q),
        p.bits() == q.bits(),
        p.extended(),
        q.extended(),
    ensures
        p == q,
{
    match (p, q) {
        (Primitive::Bool(a), Primitive::Bool(b)) => {
            assert(p.bits()[0] == q.bits()[0]);
            assert(p.bits() == seq![a.value]);
            assert(q.bits() == seq![b.value]);
            assert(seq![a.value][0] == a.value);
            assert(seq![b.value][0] == b.value);
            assert(a.value == b.value);
        },
        (Primitive::Uint(a), Primitive::Uint(b)) => {
            assert(a.x == b.x);
            assert(a.extended() && b.extended());
            lemma_bits_value(a.value, a.x as nat);
            lemma_bits_value(b.value, b.x as nat);
        },
        (Primitive::Int(a), Primitive::Int(b)) => {
            let ua = a.value as u64;
            let ub = b.value as u64;
            assert(a.x == b.x);
            assert(a.extended() && b.extended());
            assert forall|j: int| 0 <= j < 64 implies value_bits(ua, 64)[j] == value_bits(ub, 64)[j] by {
                if j < a.x {
                    assert(p.bits()[j] == q.bits()[j]);
                    assert(p.bits()[j] == bit_of(ua, j as nat));
                    assert(q.bits()[j] == bit_of(ub, j as nat));
                } else {
                    assert(p.bits()[a.x - 1] == bit_of(ua, (a.x - 1) as nat));
                    assert(q.bits()[a.x - 1] == bit_of(ub, (a.x - 1) as nat));
                    assert(bit_of(ua, j as nat) == bit_of(ua, (a.x - 1) as nat));
                    assert(bit_of(ub, j as nat) == bit_of(ub, (b.x - 1) as nat));
                    assert(p.bits()[a.x - 1] == q.bits()[a.x - 1]);
                }
            }
            assert(value_bits(ua, 64) =~= value_bits(ub, 64));
            lemma_bits_value(ua, 64);
            lemma_bits_value(ub, 64);
            assert(ua == ub);
            crate::types::lemma_i64_pattern(a.value, b.value);
            assert(a.value == b.value);
        },
        (Primitive::Float16(a), Primitive::Float16(b)) => {
            let ua = a.value.bitfield;
            let ub = b.value.bitfield;
            assert forall|j: nat| 16 <= j implies !#[trigger] bit_of(ua as u64, j) by {
                if j < 64 {
                    crate::types::lemma_widen16(0, ua, j as u64);
                }
            }
            assert forall|j: nat| 16 <= j implies !#[trigger] bit_of(ub as u64, j) by {
                if j < 64 {
                    crate::types::lemma_widen16(0, ub, j as u64);
                }
            }
            lemma_bits_value(ua as u64, 16);
            lemma_bits_value(ub as u64, 16);
            assert(a.value == b.value);
        },
        (Primitive::Float32(a), Primitive::Float32(b)) => {
            let ua = a.bitfield;
            let ub = b.bitfield;
            assert forall|j: nat| 32 <= j implies !#[trigger] bit_of(ua as u64, j) by {
                if j < 64 {
                    crate::types::lemma_widen32(0, ua, j as u64);
                }
            }
            assert forall|j: nat| 32 <= j implies !#[trigger] bit_of(ub as u64, j) by {
                if j < 64 {
                    crate::types::lemma_widen32(0, ub, j as u64);
                }
            }
            lemma_bits_value(ua as u64, 32);
            lemma_bits_value(ub as u64, 32);
        },
        (Primitive::Float64(a), Primitive::Float64(b)) => {
            lemma_bits_value(a.bitfield, 64);
            lemma_bits_value(b.bitfield, 64);
        },
        (Primitive::Void(a), Primitive::Void(b)) => {
            assert(a.x == b.x);
        },
        _ => {},
    }
}

/// Every primitive of the list is well formed.
pub open spec fn all_well_formed(ps: Seq<Primitive>) -> bool {
    forall|i: int| 0 <= i < ps.len() ==> #[trigger] ps[i].well_formed()
}

/// Two lists of primitives have the same shape, element by element.
pub open spec fn same_shapes(a: Seq<Primitive>, b: Seq<Primitive>) -> bool {
    &&& a.len() == b.len()
    &&& forall|i: int| 0 <= i < a.len() ==> #[trigger] a[i].same_shape(b[i])
}

/// A primitive's bits are as many as its width.
pub proof fn lemma_bits_len(p: Primitive)
    ensures
        p.bits().len() == p.width(),
{
}

/// The flattened bits are as many as the total width.
pub proof fn lemma_flat_len(ps: Seq<Primitive>)
    ensures
        flat_bits(ps).len() == total_width(ps),
    decreases ps.len(),
{
    if ps.len() > 0 {
        lemma_flat_len(ps.drop_last());
        lemma_bits_len(ps.last());
    }
}

/// Lists of one shape have one total width.
pub proof fn lemma_same_shapes_width(a: Seq<Primitive>, b: Seq<Primitive>)
    requires
        same_shapes(a, b),
    ensures
        total_width(a) == total_width(b),
    decreases a.len(),
{
    if a.len() > 0 {
        assert(same_shapes(a.drop_last(), b.drop_last()));
        lemma_same_shapes_width(a.drop_last(), b.drop_last());
        assert(a.last().same_shape(b.last()));
    }
}

/// The width of a prefix is at most the total width.
pub proof fn lemma_prefix_width(ps: Seq<Primitive>, i: int)
    requires
        0 <= i <= ps.len(),
    ensures
        total_width(ps.take(i)) <= total_width(ps),
    decreases ps.len(),
{
    if i < ps.len() {
        assert(ps.take(i) =~= ps.drop_last().take(i));
        lemma_prefix_width(ps.drop_last(), i);
    } else {
        assert(ps.take(i) =~= ps);
    }
}

/// The bits of field `i` stand in the flattened bits at the offset of the
/// fields before it.
pub proof fn lemma_field_bits(ps: Seq<Primitive>, i: int)
    requires
        0 <= i < ps.len(),
    ensures
        total_width(ps.take(i)) + ps[i].width() <= total_width(ps),
        flat_bits(ps).subrange(
            total_width(ps.take(i)) as int,
            (total_width(ps.take(i)) + ps[i].width()) as int,
        ) == ps[i].bits(),
    decreases ps.len(),
{
    lemma_flat_len(ps);
    lemma_flat_len(ps.drop_last());
    lemma_bits_len(ps.last());
    if i == ps.len() - 1 {
        assert(ps.take(i) =~= ps.drop_last());
        assert(flat_bits(ps).subrange(total_width(ps.take(i)) as int, total_width(ps) as int)
            =~= ps[i].bits());
    } else {
        assert(ps.take(i) =~= ps.drop_last().take(i));
        lemma_field_bits(ps.drop_last(), i);
        assert(flat_bits(ps).subrange(
            total_width(ps.take(i)) as int,
            (total_width(ps.take(i)) + ps[i].width()) as int,
        ) =~= flat_bits(ps.drop_last()).subrange(
            total_width(ps.take(i)) as int,
            (total_width(ps.take(i)) + ps[i].width()) as int,
        ));
    }
}

/// The flattened bits of a prefix one longer add the bits of one field.
pub proof fn lemma_flat_step(ps: Seq<Primitive>, i: int)
    requires
        0 <= i < ps.len(),
    ensures
        flat_bits(ps.take(i + 1)) == flat_bits(ps.take(i)) + ps[i].bits(),
        total_width(ps.take(i + 1)) == total_width(ps.take(i)) + ps[i].width(),
{
    assert(ps.take(i + 1).drop_last() =~= ps.take(i));
}

/// A list of one primitive has its width and its bits.
pub proof fn lemma_single(p: Primitive)
    ensures
        total_width(seq![p]) == p.width(),
        flat_bits(seq![p]) == p.bits(),
{
    assert(seq![p].drop_last() =~= Seq::<Primitive>::empty());
    assert(total_width(Seq::<Primitive>::empty()) == 0);
    assert(flat_bits(Seq::<Primitive>::empty()) == Seq::<bool>::empty());
    assert(seq![p].last() == p);
    assert(Seq::<bool>::empty() + p.bits() =~= p.bits());
}

/// The widths and the bits of two lists, one after the other, add up.
pub proof fn lemma_concat(a: Seq<Primitive>, b: Seq<Primitive>)
    ensures
        total_width(a + b) == total_width(a) + total_width(b),
        flat_bits(a + b) == flat_bits(a) + flat_bits(b),
    decreases b.len(),
{
    if b.len() == 0 {
        assert(a + b =~= a);
        assert(flat_bits(a) + flat_bits(b) =~= flat_bits(a));
    } else {
        lemma_concat(a, b.drop_last());
        assert((a + b).drop_last() =~= a + b.drop_last());
        assert(flat_bits(a) + flat_bits(b) =~= (flat_bits(a) + flat_bits(b.drop_last()))
            + b.last().bits());
    }
}

impl Primitive {
    /// Whether two primitives have the same shape.
    pub fn has_shape_of(&self, other: &Primitive) -> (r: bool)
        requires
            self.well_formed(),
            other.well_formed(),
        ensures
            r == self.same_shape(*other),
    {
        let same_kind = match (self, other) {
            (Primitive::Bool(_), Primitive::Bool(_)) => true,
            (Primitive::Int(_), Primitive::Int(_)) => true,
            (Primitive::Uint(_), Primitive::Uint(_)) => true,
            (Primitive::Float16(_), Primitive::Float16(_)) => true,
            (Primitive::Float32(_), Primitive::Float32(_)) => true,
            (Primitive::Float64(_), Primitive::Float64(_)) => true,
            (Primitive::Void(_), Primitive::Void(_)) => true,
            _ => false,
        };
        same_kind && self.bitlength() == other.bitlength()
    }
}

/// Every primitive of the list is well formed and shaped like `element`.
pub open spec fn all_shaped_like(ps: Seq<Primitive>, element: Primitive) -> bool {
    forall|i: int| 0 <= i < ps.len() ==> #[trigger] ps[i].same_shape(element) && ps[i].well_formed()
}

/// A variable-length array of at most `max` elements of one shape. On the
/// wire it is a length prefix of the fewest bits that hold `max`, then the
/// elements.
#[derive(Clone, Debug, PartialEq, Eq)]
pub struct DynamicArray {
    pub(crate) length: UintX,
    pub(crate) max: usize,
    pub(crate) element: Primitive,
    pub(crate) elements: Vec<Primitive>,
}

impl DynamicArray {
    /// The length prefix.
    pub open(crate) spec fn spec_length(&self) -> UintX {
        self.length
    }

    /// The largest number of elements.
    pub open(crate) spec fn spec_max(&self) -> usize {
        self.max
    }

    /// The shape of every element.
    pub open(crate) spec fn spec_element(&self) -> Primitive {
        self.element
    }

    /// The elements.
    pub open(crate) spec fn spec_elements(&self) -> Seq<Primitive> {
        self.elements@
    }

    /// The prefix takes the fewest bits that hold `max` and holds the
    /// number of elements; there are at most `max`, each shaped like the
    /// element.
    pub open spec fn wf(&self) -> bool {
        let w = self.spec_length().x;
        &&& self.spec_length().well_formed()
        &&& (w == 64 || (self.spec_max() as u64) >> (w as u64) == 0)
        &&& (w == 1 || (self.spec_max() as u64) >> ((w - 1) as u64) != 0)
        &&& 1 <= self.spec_max() <= MAX_BITS
        &&& self.spec_element().well_formed()
        &&& self.spec_elements().len() <= self.spec_max()
        &&& self.spec_length().value == self.spec_elements().len()
        &&& all_shaped_like(self.spec_elements(), self.spec_element())
    }

    /// An empty array of at most `max` elements shaped like `element`.
    pub fn new(max: usize, element: Primitive) -> (r: Self)
        requires
            1 <= max <= MAX_BITS,
            element.well_formed(),
        ensures
            r.wf(),
            r.spec_max() == max,
            r.spec_element() == element,
            r.spec_elements() == Seq::<Primitive>::empty(),
    {
        let m = max as u64;
        let mut w: usize = 1;
        while w < 64 && (m >> w as u64) != 0
            invariant
                1 <= w <= 64,
                m == max as u64,
                w == 1 || (m >> ((w - 1) as u64)) != 0,
            decreases 64 - w,
        {
            w = w + 1;
        }
        DynamicArray { length: UintX::new(w, 0), max, element, elements: Vec::new() }
    }

    /// The number of elements.
    pub fn len(&self) -> (r: usize)
        ensures
            r == self.spec_elements().len(),
    {
        self.elements.len()
    }

    /// Element `i`, where there is one.
    pub fn get(&self, i: usize) -> (r: Option<Primitive>)
        ensures
            i < self.spec_elements().len() ==> r == Some(self.spec_elements()[i as int]),
            i >= self.spec_elements().len() ==> r is None,
    {
        if i < self.elements.len() {
            Some(self.elements[i])
        } else {
            None
        }
    }

    /// Appends an element where it has the element shape and there is room;
    /// says whether it did.
    pub fn push(&mut self, item: Primitive) -> (r: bool)
        requires
            old(self).wf(),
            item.well_formed(),
        ensures
            final(self).wf(),
            r == (item.same_shape(old(self).spec_element()) && old(self).spec_elements().len()
                < old(self).spec_max()),
            r ==> final(self).spec_elements() == old(self).spec_elements().push(item),
            !r ==> final(self).spec_elements() == old(self).spec_elements(),
            final(self).spec_max() == old(self).spec_max(),
            final(self).spec_element() == old(self).spec_element(),
            final(self).spec_length().x == old(self).spec_length().x,
    {
        if !item.has_shape_of(&self.element) || self.elements.len() >= self.max {
            return false;
        }
        self.elements.push(item);
        self.length = UintX::new(self.length.x, self.length.value + 1);
        true
    }
}

/// A field of a structure: a primitive, or a variable-length array.
#[derive(Clone, Debug, PartialEq, Eq)]
pub enum Field {
    Primitive(Primitive),
    DynamicArray(DynamicArray),
}

/// The primitives a field puts on the wire, in order: for an array, the
/// length prefix and then the elements.
pub open spec fn field_prims(f: Field) -> Seq<Primitive> {
    match f {
        Field::Primitive(p) => seq![p],
        Field::DynamicArray(a) => seq![Primitive::Uint(a.spec_length())] + a.spec_elements(),
    }
}

pub open spec fn field_wf(f: Field) -> bool {
    match f {
        Field::Primitive(p) => p.well_formed(),
        Field::DynamicArray(a) => a.wf(),
    }
}

/// Every field of the list is well formed.
pub open spec fn fields_wf(fs: Seq<Field>) -> bool {
    forall|i: int| 0 <= i < fs.len() ==> #[trigger] field_wf(fs[i])
}

/// The primitives a list of fields puts on the wire, in order.
pub open spec fn expand(fs: Seq<Field>) -> Seq<Primitive>
    decreases fs.len(),
{
    if fs.len() == 0 {
        Seq::empty()
    } else {
        expand(fs.drop_last()) + field_prims(fs.last())
    }
}

/// Two fields have one shape: primitives of one shape, or arrays of one
/// bound and element shape, whatever they hold.
pub open spec fn field_compatible(f: Field, g: Field) -> bool {
    match (f, g) {
        (Field::Primitive(p), Field::Primitive(q)) => p.same_shape(q),
        (Field::DynamicArray(a), Field::DynamicArray(b)) => {
            &&& a.spec_max() == b.spec_max()
            &&& a.spec_element() == b.spec_element()
            &&& a.spec_length().x == b.spec_length().x
        },
        _ => false,
    }
}

/// Two lists of fields have one shape, field by field.
pub open spec fn fields_compatible(a: Seq<Field>, b: Seq<Field>) -> bool {
    &&& a.len() == b.len()
    &&& forall|i: int| 0 <= i < a.len() ==> #[trigger] field_compatible(a[i], b[i])
}

/// The primitives of well-formed fields are well formed.
pub proof fn lemma_expand_wf(fs: Seq<Field>)
    requires
        fields_wf(fs),
    ensures
        all_well_formed(expand(fs)),
    decreases fs.len(),
{
    if fs.len() > 0 {
        assert(fields_wf(fs.drop_last()));
        lemma_expand_wf(fs.drop_last());
        assert(field_wf(fs.last()));
        let e = expand(fs);
        let a = expand(fs.drop_last());
        let f = field_prims(fs.last());
        assert forall|i: int| 0 <= i < e.len() implies #[trigger] e[i].well_formed() by {
            if i >= a.len() {
                assert(e[i] == f[i - a.len()]);
                match fs.last() {
                    Field::Primitive(p) => {},
                    Field::DynamicArray(arr) => {
                        let k = i - a.len();
                        if k > 0 {
                            assert(f[k] == arr.spec_elements()[k - 1]);
                            assert(arr.wf());
                            assert(arr.spec_elements()[k - 1].same_shape(arr.spec_element()));
                        }
                    },
                }
            }
        }
    }
}

/// The primitives of a prefix one field longer.
pub proof fn lemma_expand_step(fs: Seq<Field>, i: int)
    requires
        0 <= i < fs.len(),
    ensures
        expand(fs.take(i + 1)) == expand(fs.take(i)) + field_prims(fs[i]),
{
    assert(fs.take(i + 1).drop_last() =~= fs.take(i));
}

/// Replacing a primitive field with one of its shape keeps the shape of
/// the whole.
pub proof fn lemma_expand_update(fs: Seq<Field>, i: int, p: Primitive)
    requires
        0 <= i < fs.len(),
        fs[i] matches Field::Primitive(q) && p.same_shape(q),
    ensures
        same_shapes(expand(fs.update(i, Field::Primitive(p))), expand(fs)),
    decreases fs.len(),
{
    let g = fs.update(i, Field::Primitive(p));
    if i == fs.len() - 1 {
        assert(g.drop_last() =~= fs.drop_last());
    } else {
        assert(g.drop_last() =~= fs.drop_last().update(i, Field::Primitive(p)));
        lemma_expand_update(fs.drop_last(), i, p);
    }
    let a = expand(g);
    let b = expand(fs);
    assert forall|k: int| 0 <= k < a.len() implies #[trigger] a[k].same_shape(b[k]) by {
        if k < expand(g.drop_last()).len() {
            assert(a[k] == expand(g.drop_last())[k]);
            assert(b[k] == expand(fs.drop_last())[k]);
        }
    }
}

/// A structure: an ordered list of fields. Nested structures are flattened
/// into it in declaration order.
#[derive(Clone, Debug)]
pub struct Structure {
    pub(crate) fields: Vec<Field>,
}

impl Structure {
    /// The fields of the structure, in order.
    pub open(crate) spec fn view(&self) -> Seq<Field> {
        self.fields@
    }

    /// The primitives the structure puts on the wire, in order.
    pub open spec fn prims(&self) -> Seq<Primitive> {
        expand(self@)
    }

    /// Every field is well formed and the whole fits on the wire.
    pub open spec fn wf(&self) -> bool {
        &&& fields_wf(self@)
        &&& total_width(self.prims()) <= MAX_BITS
    }

    /// The bits of the structure on the wire.
    pub open spec fn bits(&self) -> Seq<bool> {
        flat_bits(self.prims())
    }

    /// An empty structure.
    pub fn new() -> (r: Structure)
        ensures
            r@ == Seq::<Field>::empty(),
            r.wf(),
    {
        Structure { fields: Vec::new() }
    }

    /// Appends a primitive field.
    pub fn push(&mut self, field: Primitive)
        requires
            old(self).wf(),
            field.well_formed(),
            total_width(old(self).prims()) + field.width() <= MAX_BITS,
        ensures
            final(self)@ == old(self)@.push(Field::Primitive(field)),
            final(self).prims() == old(self).prims().push(field),
            final(self).wf(),
    {
        self.fields.push(Field::Primitive(field));
        assert(self@.drop_last() =~= old(self)@);
        assert forall|k: int| 0 <= k < self@.len() implies #[trigger] field_wf(self@[k]) by {
            if k < old(self)@.len() {
                assert(self@[k] == old(self)@[k]);
            }
        }
        assert(old(self).prims() + seq![field] =~= old(self).prims().push(field));
        assert(self.prims() == old(self).prims() + field_prims(Field::Primitive(field)));
        assert(seq![field].drop_last() =~= Seq::<Primitive>::empty());
        assert(total_width(Seq::<Primitive>::empty()) == 0);
        assert(seq![field].last() == field);
        assert(total_width(seq![field]) == field.width());
        proof {
            lemma_concat(old(self).prims(), seq![field]);
        }
    }

    /// Appends a variable-length array.
    pub fn push_array(&mut self, array: DynamicArray)
        requires
            old(self).wf(),
            array.wf(),
            total_width(old(self).prims()) + total_width(field_prims(Field::DynamicArray(array)))
                <= MAX_BITS,
        ensures
            final(self)@ == old(self)@.push(Field::DynamicArray(array)),
            final(self).wf(),
    {
        let ghost f = Field::DynamicArray(array);
        self.fields.push(Field::DynamicArray(array));
        assert(self@.drop_last() =~= old(self)@);
        assert forall|k: int| 0 <= k < self@.len() implies #[trigger] field_wf(self@[k]) by {
            if k < old(self)@.len() {
                assert(self@[k] == old(self)@[k]);
            }
        }
        proof {
            lemma_concat(old(self).prims(), field_prims(f));
        }
    }

    /// A field with the same wire form as field `i`.
    fn copy_field(&self, i: usize) -> (r: Field)
        requires
            i < self@.len(),
            field_wf(self@[i as int]),
        ensures
            field_prims(r) == field_prims(self@[i as int]),
            field_wf(r),
    {
        match &self.fields[i] {
            Field::Primitive(p) => Field::Primitive(*p),
            Field::DynamicArray(a) => {
                let mut elements: Vec<Primitive> = Vec::new();
                let mut j: usize = 0;
                while j < a.elements.len()
                    invariant
                        j <= a.elements@.len(),
                        elements@ == a.elements@.take(j as int),
                    decreases a.elements@.len() - j,
                {
                    elements.push(a.elements[j]);
                    assert(elements@ =~= a.elements@.take(j + 1));
                    j = j + 1;
                }
                assert(elements@ =~= a.elements@);
                Field::DynamicArray(
                    DynamicArray { length: a.length, max: a.max, element: a.element, elements },
                )
            },
        }
    }

    /// Appends the fields of a nested structure.
    pub fn append(&mut self, other: &Structure)
        requires
            old(self).wf(),
            other.wf(),
            total_width(old(self).prims()) + total_width(other.prims()) <= MAX_BITS,
        ensures
            final(self)@.len() == old(self)@.len() + other@.len(),
            final(self).prims() == old(self).prims() + other.prims(),
            final(self).wf(),
    {
        let mut i: usize = 0;
        assert(old(self).prims() + expand(other@.take(0)) =~= old(self).prims());
        while i < other.fields.len()
            invariant
                i <= other@.len(),
                other.wf(),
                total_width(old(self).prims()) + total_width(other.prims()) <= MAX_BITS,
                self@.len() == old(self)@.len() + i,
                self.prims() == old(self).prims() + expand(other@.take(i as int)),
                fields_wf(self@),
            decreases other@.len() - i,
        {
            let f = other.copy_field(i);
            proof {
                lemma_expand_step(other@, i as int);
                assert(other@.take(i as int + 1) + other@.skip(i as int + 1) =~= other@);
                lemma_expand_concat(other@.take(i as int + 1), other@.skip(i as int + 1));
                lemma_concat(expand(other@.take(i as int + 1)), expand(other@.skip(i as int + 1)));
                lemma_concat(old(self).prims(), expand(other@.take(i as int + 1)));
            }
            let ghost before = self@;
            self.fields.push(f);
            assert(self@.drop_last() =~= before);
            assert(self.prims() =~= old(self).prims() + expand(other@.take(i as int + 1)));
            i = i + 1;
        }
        assert(other@.take(i as int) =~= other@);
        proof {
            lemma_concat(old(self).prims(), other.prims());
        }
    }

    /// The primitives the structure puts on the wire.
    pub fn primitives(&self) -> (r: Vec<Primitive>)
        requires
            self.wf(),
        ensures
            r@ == self.prims(),
    {
        let mut out: Vec<Primitive> = Vec::new();
        let mut i: usize = 0;
        assert(expand(self@.take(0)) =~= Seq::<Primitive>::empty());
        while i < self.fields.len()
            invariant
                i <= self@.len(),
                out@ == expand(self@.take(i as int)),
            decreases self@.len() - i,
        {
            proof {
                lemma_expand_step(self@, i as int);
            }
            match &self.fields[i] {
                Field::Primitive(p) => {
                    out.push(*p);
                },
                Field::DynamicArray(a) => {
                    let ghost base = out@;
                    out.push(Primitive::Uint(a.length));
                    let mut j: usize = 0;
                    while j < a.elements.len()
                        invariant
                            j <= a.elements@.len(),
                            out@ == base + seq![Primitive::Uint(a.length)] + a.elements@.take(
                                j as int,
                            ),
                        decreases a.elements@.len() - j,
                    {
                        out.push(a.elements[j]);
                        assert(out@ =~= base + seq![Primitive::Uint(a.length)] + a.elements@.take(
                            j + 1,
                        ));
                        j = j + 1;
                    }
                    assert(a.elements@.take(j as int) =~= a.elements@);
                    assert(out@ =~= base + field_prims(self@[i as int]));
                },
            }
            assert(out@ =~= expand(self@.take(i as int + 1)));
            i = i + 1;
        }
        assert(self@.take(i as int) =~= self@);
        out
    }

    /// The number of bits the structure takes on the wire.
    pub fn bit_length(&self) -> (r: usize)
        requires
            self.wf(),
        ensures
            r == total_width(self.prims()),
    {
        let ps = self.primitives();
        proof {
            lemma_expand_wf(self@);
        }
        width_of(&ps)
    }

    /// Takes the value of field `i` from the first bits of `buffer`, where
    /// it is a primitive field and the buffer holds enough bits; says
    /// whether it did.
    pub fn set_field_from_bytes(&mut self, i: usize, buffer: &[u8]) -> (r: bool)
        requires
            old(self).wf(),
        ensures
            r == (i < old(self)@.len() && old(self)@[i as int] is Primitive && old(
                self,
            )@[i as int]->Primitive_0.width() <= 8 * buffer@.len()),
            final(self).wf(),
            !r ==> final(self)@ == old(self)@,
            r ==> final(self)@.len() == old(self)@.len(),
            r ==> forall|j: int|
                0 <= j < old(self)@.len() && j != i ==> final(self)@[j] == old(self)@[j],
            r ==> final(self)@[i as int] is Primitive,
            r ==> final(self)@[i as int]->Primitive_0.same_shape(old(self)@[i as int]->Primitive_0),
            r ==> final(self)@[i as int]->Primitive_0.extended(),
            r ==> final(self)@[i as int]->Primitive_0.bits() == if old(
                self,
            )@[i as int]->Primitive_0.is_padding() {
                old(self)@[i as int]->Primitive_0.bits()
            } else {
                stream_bits(buffer@).take(old(self)@[i as int]->Primitive_0.width() as int)
            },
    {
        if i >= self.fields.len() {
            return false;
        }
        assert(field_wf(self@[i as int]));
        let mut p = match &self.fields[i] {
            Field::Primitive(p) => *p,
            Field::DynamicArray(_) => {
                return false;
            },
        };
        let w = p.bitlength();
        if (w + 7) / 8 > buffer.len() {
            return false;
        }
        let raw = crate::bits::read_bits(buffer, 0, w);
        let ghost q = p;
        p.set_bits(raw);
        proof {
            lemma_expand_update(self@, i as int, p);
            lemma_same_shapes_width(expand(self@.update(i as int, Field::Primitive(p))), self.prims());
            assert forall|j: int| 0 <= j < self@.len() implies #[trigger] field_wf(
                self@.update(i as int, Field::Primitive(p))[j],
            ) by {
                assert(field_wf(self@[j]));
            }
        }
        self.fields.set(i, Field::Primitive(p));
        true
    }
}

/// The primitives of two lists of fields, one after the other.
pub proof fn lemma_expand_concat(a: Seq<Field>, b: Seq<Field>)
    ensures
        expand(a + b) == expand(a) + expand(b),
    decreases b.len(),
{
    if b.len() == 0 {
        assert(a + b =~= a);
        assert(expand(a) + expand(b) =~= expand(a));
    } else {
        lemma_expand_concat(a, b.drop_last());
        assert((a + b).drop_last() =~= a + b.drop_last());
        assert(expand(a) + expand(b) =~= (expand(a) + expand(b.drop_last())) + field_prims(
            b.last(),
        ));
    }
}

/// The total width of a list of primitives.
pub fn width_of(ps: &Vec<Primitive>) -> (r: usize)
    requires
        all_well_formed(ps@),
        total_width(ps@) <= MAX_BITS,
    ensures
        r == total_width(ps@),
{
    let mut total: usize = 0;
    let mut i: usize = 0;
    while i < ps.len()
        invariant
            i <= ps@.len(),
            all_well_formed(ps@),
            total_width(ps@) <= MAX_BITS,
            total == total_width(ps@.take(i as int)),
        decreases ps@.len() - i,
    {
        proof {
            lemma_flat_step(ps@, i as int);
            lemma_prefix_width(ps@, i as int + 1);
        }
        total = total + ps[i].bitlength();
        i = i + 1;
    }
    assert(ps@.take(i as int) =~= ps@);
    total
}

/// A value that can be read as a list of fields.
pub trait UavcanIndexable {
    spec fn field_list(&self) -> Seq<Field>;

    /// The number of fields, which the type alone decides.
    fn number_of_primitive_fields(&self) -> (r: usize)
        ensures
            r == self.field_list().len(),
    ;

    /// Field `field_number`, where there is one.
    fn primitive_field(&self, field_number: usize) -> (r: Option<&Field>)
        ensures
            field_number < self.field_list().len() ==> r == Some(
                &self.field_list()[field_number as int],
            ),
            field_number >= self.field_list().len() ==> r is None,
    ;
}

impl UavcanIndexable for Structure {
    open spec fn field_list(&self) -> Seq<Field> {
        self@
    }

    fn number_of_primitive_fields(&self) -> (r: usize) {
        self.fields.len()
    }

    fn primitive_field(&self, field_number: usize) -> (r: Option<&Field>) {
        if field_number < self.fields.len() {
            Some(&self.fields[field_number])
        } else {
            None
        }
    }
}

/// A field seen as the primitives it puts on the wire.
pub trait UavcanPrimitiveField {
    spec fn elements(&self) -> Seq<Primitive>;

    /// The number of primitives is fixed by the type.
    spec fn constant_size(&self) -> bool;

    /// Whether the number of primitives is fixed by the type.
    fn is_constant_size(&self) -> (r: bool)
        ensures
            r == self.constant_size(),
    ;

    /// The number of primitives in the field.
    fn get_size(&self) -> (r: usize)
        requires
            self.elements().len() <= usize::MAX,
        ensures
            r == self.elements().len(),
    ;

    /// Primitive `index` of the field, where there is one.
    fn primitive_type(&self, index: usize) -> (r: Option<Primitive>)
        ensures
            index < self.elements().len() ==> r == Some(self.elements()[index as int]),
            index >= self.elements().len() ==> r is None,
    ;
}

impl UavcanPrimitiveField for Primitive {
    open spec fn elements(&self) -> Seq<Primitive> {
        seq![*self]
    }

    open spec fn constant_size(&self) -> bool {
        true
    }

    fn is_constant_size(&self) -> (r: bool) {
        true
    }

    fn get_size(&self) -> (r: usize) {
        1
    }

    fn primitive_type(&self, index: usize) -> (r: Option<Primitive>) {
        if index == 0 {
            Some(*self)
        } else {
            None
        }
    }
}

impl UavcanPrimitiveField for Field {
    open spec fn elements(&self) -> Seq<Primitive> {
        field_prims(*self)
    }

    open spec fn constant_size(&self) -> bool {
        *self is Primitive
    }

    fn is_constant_size(&self) -> (r: bool) {
        match self {
            Field::Primitive(_) => true,
            Field::DynamicArray(_) => false,
        }
    }

    fn get_size(&self) -> (r: usize) {
        match self {
            Field::Primitive(_) => 1,
            Field::DynamicArray(a) => a.elements.len() + 1,
        }
    }

    fn primitive_type(&self, index: usize) -> (r: Option<Primitive>) {
        match self {
            Field::Primitive(p) => {
                if index == 0 {
                    Some(*p)
                } else {
                    None
                }
            },
            Field::DynamicArray(a) => {
                if index == 0 {
                    Some(Primitive::Uint(a.length))
                } else if index - 1 < a.elements.len() {
                    Some(a.elements[index - 1])
                } else {
                    None
                }
            },
        }
    }
}

} // verus!
