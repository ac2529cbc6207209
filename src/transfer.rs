//! Transfer identification: the 29-bit frame identifier, the 5-bit transfer
//! id, the pair of both that names an in-flight transfer, identifier
//! filters, arbitration priority and the tail byte that ends every frame.
use vstd::prelude::*;
use vstd::std_specs::cmp::PartialOrdSpec;

verus! {

/// The largest value a 29-bit frame identifier can hold, plus one.
pub const FRAME_ID_LIMIT: u32 = 0x2000_0000;

/// The 29-bit identifier of a transfer frame.
///
/// A lower identifier wins bus arbitration.
#[derive(Clone, Copy, Debug, PartialEq, Eq, Structural, Hash, PartialOrd, Ord)]
pub struct TransferFrameID(pub(crate) u32);

impl TransferFrameID {
    /// The numeric value of the identifier.
    pub open(crate) spec fn spec_value(&self) -> u32 {
        self.0
    }

    /// A well-formed identifier fits in 29 bits.
    pub open spec fn wf(&self) -> bool {
        self.spec_value() < FRAME_ID_LIMIT
    }

    /// Makes an identifier from a value that fits in 29 bits.
    pub fn new(value: u32) -> (r: TransferFrameID)
        requires
            value < FRAME_ID_LIMIT,
        ensures
            r.spec_value() == value,
            r.wf(),
    {
        TransferFrameID(value)
    }

    /// The numeric value of the identifier.
    pub fn value(&self) -> (r: u32)
        ensures
            r == self.spec_value(),
    {
        self.0
    }

    /// Clears every bit that is clear in `mask`.
    pub fn mask(self, mask: Self) -> (r: Self)
        ensures
            r.spec_value() == self.spec_value() & mask.spec_value(),
    {
        TransferFrameID(self.0 & mask.0)
    }
}

/// The 5-bit id that tells consecutive transfers of one kind apart.
#[derive(Clone, Copy, Debug, PartialEq, Eq, Structural, Hash)]
pub struct TransferID(pub(crate) u8);

impl TransferID {
    /// The numeric value of the transfer id.
    pub open(crate) spec fn spec_value(&self) -> u8 {
        self.0
    }

    /// A well-formed transfer id fits in 5 bits.
    pub open spec fn wf(&self) -> bool {
        self.spec_value() < 32
    }

    /// Makes a transfer id from a value that fits in 5 bits.
    pub fn new(value: u8) -> (r: TransferID)
        requires
            value < 32,
        ensures
            r.spec_value() == value,
            r.wf(),
    {
        TransferID(value)
    }

    /// The numeric value of the transfer id.
    pub fn value(&self) -> (r: u8)
        ensures
            r == self.spec_value(),
    {
        self.0
    }

    /// Clears every bit that is clear in `mask`.
    pub fn mask(self, mask: Self) -> (r: Self)
        ensures
            r.spec_value() == self.spec_value() & mask.spec_value(),
    {
        TransferID(self.0 & mask.0)
    }

    /// The transfer id that follows this one, modulo 32.
    pub fn next(self) -> (r: Self)
        requires
            self.wf(),
        ensures
            r.wf(),
            r.spec_value() == (self.spec_value() + 1) % 32,
    {
        TransferID((self.0 + 1) % 32)
    }
}

/// A frame identifier together with a transfer id: the name of one
/// in-flight transfer.
#[derive(Clone, Copy, Debug, PartialEq, Eq, Structural, Hash)]
pub struct FullTransferID {
    pub frame_id: TransferFrameID,
    pub transfer_id: TransferID,
}

impl FullTransferID {
    /// Clears, in both parts, every bit that is clear in `mask`.
    pub fn mask(self, mask: Self) -> (r: Self)
        ensures
            r.frame_id.spec_value() == self.frame_id.spec_value() & mask.frame_id.spec_value(),
            r.transfer_id.spec_value() == self.transfer_id.spec_value()
                & mask.transfer_id.spec_value(),
    {
        FullTransferID {
            frame_id: self.frame_id.mask(mask.frame_id),
            transfer_id: self.transfer_id.mask(mask.transfer_id),
        }
    }
}

/// A filter on frame identifiers: an identifier matches where it agrees with
/// `value` on every bit set in `mask`.
#[derive(Clone, Copy, Debug, PartialEq, Eq, Structural, Hash)]
pub struct TransferFrameIDFilter {
    pub(crate) value: u32,
    pub(crate) mask: u32,
}

impl TransferFrameIDFilter {
    /// The value that matching identifiers agree with.
    pub open(crate) spec fn spec_value(&self) -> u32 {
        self.value
    }

    /// The bits on which matching identifiers agree with the value.
    pub open(crate) spec fn spec_mask(&self) -> u32 {
        self.mask
    }

    /// Whether the filter lets the identifier `id` through.
    pub open spec fn matches(&self, id: u32) -> bool {
        self.spec_mask() & id == self.spec_mask() & self.spec_value()
    }

    pub fn new(value: u32, mask: u32) -> (r: Self)
        ensures
            r.spec_value() == value,
            r.spec_mask() == mask,
    {
        TransferFrameIDFilter { value, mask }
    }

    pub fn is_match(&self, value: TransferFrameID) -> (r: bool)
        ensures
            r == self.matches(value.spec_value()),
    {
        self.mask & value.0 == self.mask & self.value
    }
}

/// Orders frame identifiers by bus priority: the lower identifier has the
/// higher priority.
#[derive(Clone, Copy, Debug)]
pub struct Priority<T>(pub T);

impl PartialEq for Priority<TransferFrameID> {
    fn eq(&self, other: &Self) -> (r: bool)
        ensures
            r == (self.0.spec_value() == other.0.spec_value()),
    {
        self.0.0 == other.0.0
    }
}

impl vstd::std_specs::cmp::PartialEqSpecImpl for Priority<TransferFrameID> {
    open spec fn obeys_eq_spec() -> bool {
        true
    }

    open spec fn eq_spec(&self, other: &Self) -> bool {
        self.0.spec_value() == other.0.spec_value()
    }
}

/// How two priorities compare: the one of the lower identifier is greater.
pub open spec fn priority_order(a: u32, b: u32) -> core::cmp::Ordering {
    if a < b {
        core::cmp::Ordering::Greater
    } else if a == b {
        core::cmp::Ordering::Equal
    } else {
        core::cmp::Ordering::Less
    }
}

impl PartialOrd for Priority<TransferFrameID> {
    fn partial_cmp(&self, other: &Self) -> (r: Option<core::cmp::Ordering>)
        ensures
            r == Some(priority_order(self.0.spec_value(), other.0.spec_value())),
    {
        if self.0.0 < other.0.0 {
            Some(core::cmp::Ordering::Greater)
        } else if self.0.0 == other.0.0 {
            Some(core::cmp::Ordering::Equal)
        } else {
            Some(core::cmp::Ordering::Less)
        }
    }
}

impl vstd::std_specs::cmp::PartialOrdSpecImpl for Priority<TransferFrameID> {
    open spec fn obeys_partial_cmp_spec() -> bool {
        true
    }

    open spec fn partial_cmp_spec(&self, other: &Self) -> Option<core::cmp::Ordering> {
        Some(priority_order(self.0.spec_value(), other.0.spec_value()))
    }
}

/// A priority is lower exactly when its identifier is higher: the lower
/// identifier wins arbitration.
pub proof fn lemma_priority_order(a: TransferFrameID, b: TransferFrameID)
    ensures
        (Priority(a).partial_cmp_spec(&Priority(b)) == Some(core::cmp::Ordering::Less)) <==> (
        a.spec_value() > b.spec_value()),
        (Priority(a).partial_cmp_spec(&Priority(b)) == Some(core::cmp::Ordering::Greater)) <==> (
        a.spec_value() < b.spec_value()),
        (Priority(a).partial_cmp_spec(&Priority(b)) == Some(core::cmp::Ordering::Equal)) <==> (
        a.spec_value() == b.spec_value()),
{
}

/// The tail byte that a frame's value `sot`, `eot`, `toggle` and `tid`
/// give: `[SOT:1][EOT:1][Toggle:1][TransferID:5]`, most significant first.
pub open spec fn tail_value(sot: bool, eot: bool, toggle: bool, tid: u8) -> u8 {
    ((if sot { 0x80u8 } else { 0u8 }) | (if eot { 0x40u8 } else { 0u8 }) | (if toggle {
        0x20u8
    } else {
        0u8
    }) | (tid & 0x1f)) as u8
}

/// The start-of-transfer bit of a tail byte.
pub open spec fn sot_of(v: u8) -> bool {
    (v >> 7u8) & 1 == 1
}

/// The end-of-transfer bit of a tail byte.
pub open spec fn eot_of(v: u8) -> bool {
    (v >> 6u8) & 1 == 1
}

/// The toggle bit of a tail byte.
pub open spec fn toggle_of(v: u8) -> bool {
    (v >> 5u8) & 1 == 1
}

/// The transfer id in a tail byte.
pub open spec fn tid_of(v: u8) -> u8 {
    v & 0x1f
}

/// Reading the fields of a tail byte gives back the values it was built from.
pub proof fn lemma_tail_fields(sot: bool, eot: bool, toggle: bool, tid: u8)
    by (bit_vector)
    requires
        tid < 32,
    ensures
        sot_of(tail_value(sot, eot, toggle, tid)) == sot,
        eot_of(tail_value(sot, eot, toggle, tid)) == eot,
        toggle_of(tail_value(sot, eot, toggle, tid)) == toggle,
        tid_of(tail_value(sot, eot, toggle, tid)) == tid,
{
}

/// The tail byte's fields as masks of its bits.
proof fn lemma_tail_masks(v: u8)
    by (bit_vector)
    ensures
        (v & 0x80 != 0) == sot_of(v),
        (v & 0x40 != 0) == eot_of(v),
        (v & 0x20 != 0) == toggle_of(v),
        v & 0x1f < 32,
{
}

/// The last byte of a frame's data, which carries the transport fields.
#[derive(Clone, Copy, Debug, PartialEq, Eq, Structural)]
pub struct TailByte(pub(crate) u8);

impl TailByte {
    /// The byte as it stands in the frame.
    pub open(crate) spec fn spec_value(&self) -> u8 {
        self.0
    }

    pub fn new(start_of_transfer: bool, end_of_transfer: bool, toggle: bool, transfer_id: TransferID) -> (r: Self)
        requires
            transfer_id.wf(),
        ensures
            r.spec_value() == tail_value(
                start_of_transfer,
                end_of_transfer,
                toggle,
                transfer_id.spec_value(),
            ),
            r.start_of_transfer_spec() == start_of_transfer,
            r.end_of_transfer_spec() == end_of_transfer,
            r.toggle_spec() == toggle,
            r.transfer_id_spec() == transfer_id.spec_value(),
    {
        proof {
            lemma_tail_fields(start_of_transfer, end_of_transfer, toggle, transfer_id.0);
        }
        let sot: u8 = if start_of_transfer { 0x80 } else { 0 };
        let eot: u8 = if end_of_transfer { 0x40 } else { 0 };
        let tog: u8 = if toggle { 0x20 } else { 0 };
        TailByte(sot | eot | tog | (transfer_id.0 & 0x1f))
    }

    /// Wraps a byte read from a frame.
    pub fn from_byte(value: u8) -> (r: Self)
        ensures
            r.spec_value() == value,
    {
        TailByte(value)
    }

    /// The byte as it stands in the frame.
    pub fn value(&self) -> (r: u8)
        ensures
            r == self.spec_value(),
    {
        self.0
    }

    pub open spec fn start_of_transfer_spec(&self) -> bool {
        sot_of(self.spec_value())
    }

    pub open spec fn end_of_transfer_spec(&self) -> bool {
        eot_of(self.spec_value())
    }

    pub open spec fn toggle_spec(&self) -> bool {
        toggle_of(self.spec_value())
    }

    pub open spec fn transfer_id_spec(&self) -> u8 {
        tid_of(self.spec_value())
    }

    /// Whether the start-of-transfer bit (bit 7) is set.
    pub fn start_of_transfer(&self) -> (r: bool)
        ensures
            r == self.start_of_transfer_spec(),
    {
        let v = self.0;
        proof {
            lemma_tail_masks(v);
        }
        v & 0x80 != 0
    }

    /// Whether the end-of-transfer bit (bit 6) is set.
    pub fn end_of_transfer(&self) -> (r: bool)
        ensures
            r == self.end_of_transfer_spec(),
    {
        let v = self.0;
        proof {
            lemma_tail_masks(v);
        }
        v & 0x40 != 0
    }

    /// Whether the toggle bit (bit 5) is set.
    pub fn toggle(&self) -> (r: bool)
        ensures
            r == self.toggle_spec(),
    {
        let v = self.0;
        proof {
            lemma_tail_masks(v);
        }
        v & 0x20 != 0
    }

    /// The transfer id in the five low bits.
    pub fn transfer_id(&self) -> (r: TransferID)
        ensures
            r.spec_value() == self.transfer_id_spec(),
            r.wf(),
    {
        let v = self.0;
        proof {
            lemma_tail_masks(v);
        }
        TransferID::new(v & 0x1f)
    }
}

impl From<TailByte> for u8 {
    fn from(tb: TailByte) -> (r: u8)
        ensures
            r == tb.spec_value(),
    {
        tb.0
    }
}

impl vstd::std_specs::convert::FromSpecImpl<TailByte> for u8 {
    open spec fn obeys_from_spec() -> bool {
        true
    }

    open spec fn from_spec(tb: TailByte) -> u8 {
        tb.spec_value()
    }
}

impl From<TransferID> for u8 {
    fn from(tid: TransferID) -> (r: u8)
        ensures
            r == tid.spec_value(),
    {
        tid.0
    }
}

impl vstd::std_specs::convert::FromSpecImpl<TransferID> for u8 {
    open spec fn obeys_from_spec() -> bool {
        true
    }

    open spec fn from_spec(tid: TransferID) -> u8 {
        tid.spec_value()
    }
}

impl From<TransferFrameID> for u32 {
    fn from(id: TransferFrameID) -> (r: u32)
        ensures
            r == id.spec_value(),
    {
        id.0
    }
}

impl vstd::std_specs::convert::FromSpecImpl<TransferFrameID> for u32 {
    open spec fn obeys_from_spec() -> bool {
        true
    }

    open spec fn from_spec(id: TransferFrameID) -> u32 {
        id.spec_value()
    }
}

} // verus!
