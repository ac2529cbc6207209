//! The framer: the frames that carry one transfer, produced one at a time.
use vstd::prelude::*;
use crate::bits::stream_bits;
use crate::crc::{crc16, crc_of};
use crate::frame::{CanFrame, TransferFrame};
use crate::header::TransportFrameHeader;
use crate::serializer::{bytes_for, encoding, padded, serialize};
use crate::structure::{total_width, Structure};
use crate::transfer::{tail_value, TailByte, TransferFrameID, TransferID};

verus! {

/// The payload bytes a frame carries besides its tail byte.
pub const MAX_PAYLOAD: usize = 7;

/// The largest body, in bytes, that a transfer carries.
pub const MAX_BODY_BYTES: usize = 0x0020_0000;

/// The transport CRC of a body, least significant byte first.
pub open spec fn crc_bytes(body: Seq<u8>) -> Seq<u8> {
    seq![(crc16(body) & 0xff) as u8, (crc16(body) >> 8u16) as u8]
}

/// The number of frames that carry a body of `n` bytes: one where the body
/// fits in a single frame, else enough for the CRC and the body together.
pub open spec fn frame_count(n: nat) -> nat {
    if n <= MAX_PAYLOAD {
        1
    } else {
        (n + 2 + 6) / 7
    }
}

/// The bytes the frames carry before their tail bytes, one after the
/// other: the body, preceded by its CRC where it takes more than one frame.
pub open spec fn payload_stream(body: Seq<u8>) -> Seq<u8> {
    if body.len() <= MAX_PAYLOAD {
        body
    } else {
        crc_bytes(body) + body
    }
}

/// The payload of frame `k`: the next seven bytes of the stream, or those
/// that are left.
pub open spec fn frame_payload(body: Seq<u8>, k: nat) -> Seq<u8> {
    let s = payload_stream(body);
    let end = if 7 * k + 7 <= s.len() { 7 * k + 7 } else { s.len() };
    s.subrange(7 * k as int, end as int)
}

/// The tail byte of frame `k` of a transfer: start on the first frame, end
/// on the last, the toggle bit set on odd frames.
pub open spec fn frame_tail(body: Seq<u8>, tid: u8, k: nat) -> u8 {
    tail_value(k == 0, k + 1 == frame_count(body.len()), k % 2 == 1, tid)
}

/// The data of frame `k` of a transfer.
pub open spec fn frame_data(body: Seq<u8>, tid: u8, k: nat) -> Seq<u8> {
    frame_payload(body, k).push(frame_tail(body, tid, k))
}

/// The data of all the frames that carry `body` with transfer id `tid`.
pub open spec fn transfer_frames(body: Seq<u8>, tid: u8) -> Seq<Seq<u8>> {
    Seq::new(frame_count(body.len()), |k: int| frame_data(body, tid, k as nat))
}

/// A transfer: a header and the structure it carries.
#[derive(Clone, Debug)]
pub struct UavcanFrame<H> {
    pub header: H,
    pub body: Structure,
}

impl<H: TransportFrameHeader> UavcanFrame<H> {
    pub fn new(header: H, body: Structure) -> (r: Self)
        ensures
            r.header == header,
            r.body == body,
    {
        UavcanFrame { header, body }
    }

    pub fn to_parts(self) -> (r: (H, Structure))
        ensures
            r.0 == self.header,
            r.1 == self.body,
    {
        (self.header, self.body)
    }
}

/// A transfer whose header can be read.
pub trait UavcanTransmitable {
    type Header: TransportFrameHeader;

    spec fn spec_header(&self) -> Self::Header;

    fn get_header(&self) -> (r: &Self::Header)
        ensures
            *r == self.spec_header(),
    ;
}

impl<H: TransportFrameHeader> UavcanTransmitable for UavcanFrame<H> {
    type Header = H;

    open spec fn spec_header(&self) -> H {
        self.header
    }

    fn get_header(&self) -> (r: &H) {
        &self.header
    }
}

/// Produces, one at a time, the frames that carry one transfer.
pub struct FrameGenerator {
    id: TransferFrameID,
    transfer_id: TransferID,
    body: Vec<u8>,
    crc: u16,
    next: usize,
}

impl FrameGenerator {
    pub closed spec fn spec_id(&self) -> u32 {
        self.id.spec_value()
    }

    pub closed spec fn spec_tid(&self) -> u8 {
        self.transfer_id.spec_value()
    }

    /// The body bytes the transfer carries.
    pub closed spec fn spec_body(&self) -> Seq<u8> {
        self.body@
    }

    /// How many frames have been produced.
    pub closed spec fn spec_next(&self) -> nat {
        self.next as nat
    }

    /// The frames that carry the transfer, in order.
    pub open spec fn frames(&self) -> Seq<Seq<u8>> {
        transfer_frames(self.spec_body(), self.spec_tid())
    }

    pub closed spec fn wf(&self) -> bool {
        &&& self.id.wf()
        &&& self.transfer_id.wf()
        &&& self.body@.len() <= MAX_BODY_BYTES
        &&& self.crc == crc16(self.body@)
        &&& self.next <= frame_count(self.body@.len())
    }

    /// A generator for the frames of `body`, sent with identifier `id` and
    /// transfer id `transfer_id`.
    pub fn from_bytes(id: TransferFrameID, transfer_id: TransferID, body: Vec<u8>) -> (r: Self)
        requires
            id.wf(),
            transfer_id.wf(),
            body@.len() <= MAX_BODY_BYTES,
        ensures
            r.wf(),
            r.spec_id() == id.spec_value(),
            r.spec_tid() == transfer_id.spec_value(),
            r.spec_body() == body@,
            r.spec_next() == 0,
    {
        let crc = crc_of(body.as_slice());
        FrameGenerator { id, transfer_id, body, crc, next: 0 }
    }

    /// A generator for the frames of a transfer: its body serialized, sent
    /// with the identifier its header gives.
    pub fn from_uavcan_frame<H: TransportFrameHeader>(frame: UavcanFrame<H>, transfer_id: TransferID) -> (r: Self)
        requires
            frame.body.wf(),
            transfer_id.wf(),
        ensures
            r.wf(),
            r.spec_id() == frame.header.spec_id(),
            r.spec_tid() == transfer_id.spec_value(),
            r.spec_body().len() == bytes_for(total_width(frame.body.prims())),
            stream_bits(r.spec_body()) == padded(frame.body.bits(), r.spec_body().len()),
            r.spec_body() == encoding(frame.body.prims()),
            r.spec_next() == 0,
    {
        let (header, body) = frame.to_parts();
        let bytes = serialize(&body);
        let id = TransferFrameID::new(header.to_id());
        FrameGenerator::from_bytes(id, transfer_id, bytes)
    }

    /// The number of frames the transfer takes.
    pub fn frame_count(&self) -> (r: usize)
        requires
            self.wf(),
        ensures
            r == self.frames().len(),
    {
        let n = self.body.len();
        if n <= MAX_PAYLOAD {
            1
        } else {
            (n + 8) / 7
        }
    }

    /// Byte `j` of the payload stream.
    fn stream_byte(&self, j: usize) -> (r: u8)
        requires
            self.wf(),
            j < payload_stream(self.body@).len(),
        ensures
            r == payload_stream(self.body@)[j as int],
    {
        if self.body.len() <= MAX_PAYLOAD {
            self.body[j]
        } else if j == 0 {
            (self.crc & 0xff) as u8
        } else if j == 1 {
            (self.crc >> 8u16) as u8
        } else {
            self.body[j - 2]
        }
    }

    /// The next frame of the transfer, or `None` once all were produced.
    pub fn next_transport_frame(&mut self) -> (r: Option<CanFrame>)
        requires
            old(self).wf(),
        ensures
            final(self).wf(),
            final(self).spec_id() == old(self).spec_id(),
            final(self).spec_tid() == old(self).spec_tid(),
            final(self).spec_body() == old(self).spec_body(),
            old(self).spec_next() < old(self).frames().len() ==> {
                &&& r is Some
                &&& r->Some_0.frame_wf()
                &&& r->Some_0.spec_id() == old(self).spec_id()
                &&& r->Some_0.spec_data() == old(self).frames()[old(self).spec_next() as int]
                &&& final(self).spec_next() == old(self).spec_next() + 1
            },
            old(self).spec_next() >= old(self).frames().len() ==> {
                &&& r is None
                &&& final(self).spec_next() == old(self).spec_next()
            },
    {
        let n = self.body.len();
        let count: usize = if n <= MAX_PAYLOAD { 1 } else { (n + 8) / 7 };
        if self.next >= count {
            return None;
        }
        let k = self.next;
        let stream_len: usize = if n <= MAX_PAYLOAD { n } else { n + 2 };
        let start = 7 * k;
        proof {
            if n > MAX_PAYLOAD {
                assert(7 * k + 1 <= n + 2) by (nonlinear_arith)
                    requires
                        k < (n + 8) / 7,
                ;
            }
        }
        let end: usize = if start + 7 <= stream_len { start + 7 } else { stream_len };
        let mut d: [u8; 8] = [0u8; 8];
        let mut j: usize = start;
        while j < end
            invariant
                self.wf(),
                start <= j <= end,
                end <= start + 7,
                end <= stream_len,
                stream_len == payload_stream(self.body@).len(),
                forall|q: int| 0 <= q < j - start ==> d@[q] == payload_stream(self.body@)[start + q],
            decreases end - j,
        {
            d[j - start] = self.stream_byte(j);
            j = j + 1;
        }
        let ghost body = self.body@;
        let tail = TailByte::new(k == 0, k + 1 == count, k % 2 == 1, self.transfer_id);
        d[end - start] = tail.value();
        let f = CanFrame { id: self.id, dlc: end - start + 1, data: d };
        proof {
            assert(f.spec_data() =~= frame_data(body, self.transfer_id.spec_value(), k as nat));
        }
        self.next = self.next + 1;
        Some(f)
    }
}

} // verus!
