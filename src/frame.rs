//! The transport frame: a 29-bit identifier and up to eight data bytes, the
//! last of which is the tail byte.
use vstd::prelude::*;
use vstd::std_specs::cmp::PartialOrdSpec;
use crate::transfer::{
    priority_order,
    Priority,tid_of, eot_of, sot_of, FullTransferID, TailByte, TransferFrameID};

verus! {

/// The data bytes a classic CAN frame holds.
pub const MAX_DATA_LENGTH: usize = 8;

/// A frame of a CAN-like bus, as the transport layer sees it.
pub trait TransferFrame: Sized {
    /// The numeric identifier of the frame.
    spec fn spec_id(&self) -> u32;

    /// The data bytes of the frame, tail byte last.
    spec fn spec_data(&self) -> Seq<u8>;

    /// The identifier fits in 29 bits and the data in the frame.
    spec fn frame_wf(&self) -> bool;

    /// The largest number of data bytes a frame holds.
    fn max_data_length() -> (r: usize)
        ensures
            r == MAX_DATA_LENGTH,
    ;

    /// A frame with identifier `id` and no data.
    fn new(id: TransferFrameID) -> (r: Self)
        requires
            id.wf(),
        ensures
            r.spec_id() == id.spec_value(),
            r.spec_data() == Seq::<u8>::empty(),
            r.frame_wf(),
    ;

    fn id(&self) -> (r: TransferFrameID)
        ensures
            r.spec_value() == self.spec_id(),
    ;

    fn data(&self) -> (r: &[u8])
        requires
            self.frame_wf(),
        ensures
            r@ == self.spec_data(),
    ;

    /// Replaces the data bytes of the frame.
    fn set_data(&mut self, data: &[u8])
        requires
            old(self).frame_wf(),
            data@.len() <= MAX_DATA_LENGTH,
        ensures
            final(self).frame_wf(),
            final(self).spec_id() == old(self).spec_id(),
            final(self).spec_data() == data@,
    ;

    /// The last data byte.
    fn tail_byte(&self) -> (r: TailByte)
        requires
            self.frame_wf(),
            self.spec_data().len() > 0,
        ensures
            r.spec_value() == self.spec_data().last(),
    ;

    fn is_start_frame(&self) -> (r: bool)
        requires
            self.frame_wf(),
            self.spec_data().len() > 0,
        ensures
            r == sot_of(self.spec_data().last()),
    ;

    fn is_end_frame(&self) -> (r: bool)
        requires
            self.frame_wf(),
            self.spec_data().len() > 0,
        ensures
            r == eot_of(self.spec_data().last()),
    ;

    fn is_single_frame(&self) -> (r: bool)
        requires
            self.frame_wf(),
            self.spec_data().len() > 0,
        ensures
            r == (sot_of(self.spec_data().last()) && eot_of(self.spec_data().last())),
    ;

    /// The frame identifier together with the transfer id of the tail byte.
    fn full_id(&self) -> (r: FullTransferID)
        requires
            self.frame_wf(),
            self.spec_data().len() > 0,
        ensures
            r.frame_id.spec_value() == self.spec_id(),
            r.transfer_id.spec_value() == tid_of(self.spec_data().last()),
    ;
}

/// A CAN 2.0B data frame with an extended identifier.
#[derive(Clone, Copy, Debug, PartialEq, Eq)]
pub struct CanFrame {
    pub id: TransferFrameID,
    pub dlc: usize,
    pub data: [u8; 8],
}

impl TransferFrame for CanFrame {
    open spec fn spec_id(&self) -> u32 {
        self.id.spec_value()
    }

    open spec fn spec_data(&self) -> Seq<u8> {
        self.data@.take(self.dlc as int)
    }

    open spec fn frame_wf(&self) -> bool {
        self.id.wf() && self.dlc <= MAX_DATA_LENGTH
    }

    fn max_data_length() -> (r: usize) {
        MAX_DATA_LENGTH
    }

    fn new(id: TransferFrameID) -> (r: Self) {
        let r = CanFrame { id: id, dlc: 0, data: [0u8; 8] };
        assert(r.spec_data() =~= Seq::<u8>::empty());
        r
    }

    fn id(&self) -> (r: TransferFrameID) {
        self.id
    }

    fn data(&self) -> (r: &[u8]) {
        let all = vstd::array::array_as_slice(&self.data);
        vstd::slice::slice_subrange(all, 0, self.dlc)
    }

    fn set_data(&mut self, data: &[u8]) {
        let mut d: [u8; 8] = [0u8; 8];
        let mut i: usize = 0;
        while i < data.len()
            invariant
                i <= data@.len(),
                data@.len() <= 8,
                forall|j: int| 0 <= j < i ==> d@[j] == data@[j],
            decreases data@.len() - i,
        {
            d[i] = data[i];
            i = i + 1;
        }
        self.data = d;
        self.dlc = data.len();
        assert(self.spec_data() =~= data@);
    }

    fn tail_byte(&self) -> (r: TailByte) {
        TailByte::from_byte(self.data[self.dlc - 1])
    }

    fn is_start_frame(&self) -> (r: bool) {
        self.tail_byte().start_of_transfer()
    }

    fn is_end_frame(&self) -> (r: bool) {
        self.tail_byte().end_of_transfer()
    }

    fn is_single_frame(&self) -> (r: bool) {
        self.is_end_frame() && self.is_start_frame()
    }

    fn full_id(&self) -> (r: FullTransferID) {
        FullTransferID { frame_id: self.id, transfer_id: self.tail_byte().transfer_id() }
    }
}

impl CanFrame {
    /// A frame with identifier `id` and the given data bytes.
    pub fn with_data(id: TransferFrameID, data: &[u8]) -> (r: CanFrame)
        requires
            id.wf(),
            data@.len() <= MAX_DATA_LENGTH,
        ensures
            r.frame_wf(),
            r.spec_id() == id.spec_value(),
            r.spec_data() == data@,
    {
        let mut f = CanFrame::new(id);
        f.set_data(data);
        f
    }
}

impl PartialEq for Priority<CanFrame> {
    fn eq(&self, other: &Self) -> (r: bool)
        ensures
            r == (self.0.spec_id() == other.0.spec_id()),
    {
        self.0.id.value() == other.0.id.value()
    }
}

impl vstd::std_specs::cmp::PartialEqSpecImpl for Priority<CanFrame> {
    open spec fn obeys_eq_spec() -> bool {
        true
    }

    open spec fn eq_spec(&self, other: &Self) -> bool {
        self.0.spec_id() == other.0.spec_id()
    }
}

impl PartialOrd for Priority<CanFrame> {
    fn partial_cmp(&self, other: &Self) -> (r: Option<core::cmp::Ordering>)
        ensures
            r == Some(priority_order(self.0.spec_id(), other.0.spec_id())),
    {
        let a = self.0.id.value();
        let b = other.0.id.value();
        if a < b {
            Some(core::cmp::Ordering::Greater)
        } else if a == b {
            Some(core::cmp::Ordering::Equal)
        } else {
            Some(core::cmp::Ordering::Less)
        }
    }
}

impl vstd::std_specs::cmp::PartialOrdSpecImpl for Priority<CanFrame> {
    open spec fn obeys_partial_cmp_spec() -> bool {
        true
    }

    open spec fn partial_cmp_spec(&self, other: &Self) -> Option<core::cmp::Ordering> {
        Some(priority_order(self.0.spec_id(), other.0.spec_id()))
    }
}

/// Frames are ordered by bus priority as their identifiers are: a frame has
/// the lower priority exactly when its identifier is higher.
pub proof fn lemma_frame_priority_order(a: CanFrame, b: CanFrame)
    ensures
        (Priority(a).partial_cmp_spec(&Priority(b)) == Some(core::cmp::Ordering::Less)) <==> (
        a.spec_id() > b.spec_id()),
        (Priority(a).partial_cmp_spec(&Priority(b)) == Some(core::cmp::Ordering::Greater)) <==> (
        a.spec_id() < b.spec_id()),
        (Priority(a).partial_cmp_spec(&Priority(b)) == Some(core::cmp::Ordering::Equal)) <==> (
        a.spec_id() == b.spec_id()),
{
}

} // verus!
