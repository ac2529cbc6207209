//! The three forms of the 29-bit frame identifier: message, anonymous
//! message and service.
use vstd::prelude::*;
use crate::transfer::{TransferFrameIDFilter, FRAME_ID_LIMIT};

verus! {

/// The identifier of a message frame: priority in bits 28..24, data type id
/// in bits 23..8, bit 7 clear, source node in bits 6..0.
pub open spec fn message_id(priority: u8, type_id: u16, source_node: u8) -> u32 {
    (((priority as u32) & 0x1f) << 24u32) | ((type_id as u32) << 8u32) | ((source_node as u32)
        & 0x7f)
}

/// The identifier of an anonymous message frame: priority in bits 28..24,
/// discriminator in bits 23..10, the two low bits of the data type id in
/// bits 9..8, bits 7..0 clear.
pub open spec fn anonymous_id(priority: u8, discriminator: u16, type_id: u8) -> u32 {
    (((priority as u32) & 0x1f) << 24u32) | (((discriminator as u32) & 0x3fff) << 10u32) | (((
    type_id as u32) & 0x3) << 8u32)
}

/// The identifier of a service frame: priority in bits 28..24, data type id
/// in bits 23..16, request flag in bit 15, destination node in bits 14..8,
/// bit 7 set, source node in bits 6..0.
pub open spec fn service_id(
    priority: u8,
    type_id: u8,
    request_not_response: bool,
    destination_node: u8,
    source_node: u8,
) -> u32 {
    (((priority as u32) & 0x1f) << 24u32) | ((type_id as u32) << 16u32) | ((if request_not_response {
        1u32
    } else {
        0u32
    }) << 15u32) | (((destination_node as u32) & 0x7f) << 8u32) | 0x80u32 | ((source_node as u32)
        & 0x7f)
}

/// Every identifier form fits in 29 bits.
proof fn lemma_ids_fit(p: u8, t16: u16, t8: u8, d: u16, q: bool, dn: u8, s: u8)
    by (bit_vector)
    ensures
        message_id(p, t16, s) < FRAME_ID_LIMIT,
        anonymous_id(p, d, t8) < FRAME_ID_LIMIT,
        service_id(p, t8, q, dn, s) < FRAME_ID_LIMIT,
{
}

/// The header of a transfer: what its frame identifier is made of.
pub trait TransportFrameHeader {
    /// The frame identifier the header gives.
    spec fn spec_id(&self) -> u32;

    /// The priority, five bits.
    spec fn spec_priority(&self) -> u8;

    fn to_id(&self) -> (r: u32)
        ensures
            r == self.spec_id(),
            r < FRAME_ID_LIMIT,
    ;

    fn set_priority(&mut self, priority: u8)
        requires
            priority < 32,
        ensures
            final(self).spec_priority() == priority,
    ;

    fn get_priority(&self) -> (r: u8)
        ensures
            r == self.spec_priority() & 0x1f,
    ;
}

/// The header of a message sent by a node with an id.
#[derive(Clone, Copy, Debug, PartialEq, Eq, Structural)]
pub struct MessageFrameHeader {
    pub priority: u8,
    pub type_id: u16,
    pub source_node: u8,
}

/// The header of a message sent by a node without an id.
#[derive(Clone, Copy, Debug, PartialEq, Eq, Structural)]
pub struct AnonymousFrameHeader {
    pub priority: u8,
    pub discriminator: u16,
    pub type_id: u8,
}

/// The header of a service request or response.
#[derive(Clone, Copy, Debug, PartialEq, Eq, Structural)]
pub struct ServiceFrameHeader {
    pub priority: u8,
    pub type_id: u8,
    pub request_not_response: bool,
    pub destination_node: u8,
    pub source_node: u8,
}

impl MessageFrameHeader {
    pub fn new(priority: u8, type_id: u16, source_node: u8) -> (r: Self)
        ensures
            r == (MessageFrameHeader { priority, type_id, source_node }),
    {
        MessageFrameHeader { priority, type_id, source_node }
    }
}

impl AnonymousFrameHeader {
    pub fn new(priority: u8, discriminator: u16, type_id: u8) -> (r: Self)
        ensures
            r == (AnonymousFrameHeader { priority, discriminator, type_id }),
    {
        AnonymousFrameHeader { priority, discriminator, type_id }
    }
}

impl ServiceFrameHeader {
    pub fn new(
        priority: u8,
        type_id: u8,
        request_not_response: bool,
        destination_node: u8,
        source_node: u8,
    ) -> (r: Self)
        ensures
            r == (ServiceFrameHeader {
                priority,
                type_id,
                request_not_response,
                destination_node,
                source_node,
            }),
    {
        ServiceFrameHeader { priority, type_id, request_not_response, destination_node, source_node }
    }
}

impl TransportFrameHeader for MessageFrameHeader {
    open spec fn spec_id(&self) -> u32 {
        message_id(self.priority, self.type_id, self.source_node)
    }

    open spec fn spec_priority(&self) -> u8 {
        self.priority
    }

    fn to_id(&self) -> (r: u32) {
        let (p, t, s) = (self.priority, self.type_id, self.source_node);
        proof {
            lemma_ids_fit(p, t, 0, 0, false, 0, s);
        }
        (((p as u32) & 0x1f) << 24u32) | ((t as u32) << 8u32) | ((s as u32) & 0x7f)
    }

    fn set_priority(&mut self, priority: u8) {
        self.priority = priority;
    }

    fn get_priority(&self) -> (r: u8) {
        self.priority & 0x1f
    }
}

impl TransportFrameHeader for AnonymousFrameHeader {
    open spec fn spec_id(&self) -> u32 {
        anonymous_id(self.priority, self.discriminator, self.type_id)
    }

    open spec fn spec_priority(&self) -> u8 {
        self.priority
    }

    fn to_id(&self) -> (r: u32) {
        let (p, d, t) = (self.priority, self.discriminator, self.type_id);
        proof {
            lemma_ids_fit(p, 0, t, d, false, 0, 0);
        }
        (((p as u32) & 0x1f) << 24u32) | (((d as u32) & 0x3fff) << 10u32) | (((t as u32) & 0x3)
            << 8u32)
    }

    fn set_priority(&mut self, priority: u8) {
        self.priority = priority;
    }

    fn get_priority(&self) -> (r: u8) {
        self.priority & 0x1f
    }
}

impl TransportFrameHeader for ServiceFrameHeader {
    open spec fn spec_id(&self) -> u32 {
        service_id(
            self.priority,
            self.type_id,
            self.request_not_response,
            self.destination_node,
            self.source_node,
        )
    }

    open spec fn spec_priority(&self) -> u8 {
        self.priority
    }

    fn to_id(&self) -> (r: u32) {
        let (p, t, q, d, s) = (
            self.priority,
            self.type_id,
            self.request_not_response,
            self.destination_node,
            self.source_node,
        );
        proof {
            lemma_ids_fit(p, 0, t, 0, q, d, s);
        }
        let req: u32 = if q { 1 } else { 0 };
        (((p as u32) & 0x1f) << 24u32) | ((t as u32) << 16u32) | (req << 15u32) | (((d as u32)
            & 0x7f) << 8u32) | 0x80u32 | ((s as u32) & 0x7f)
    }

    fn set_priority(&mut self, priority: u8) {
        self.priority = priority;
    }

    fn get_priority(&self) -> (r: u8) {
        self.priority & 0x1f
    }
}

/// The filter a subscriber to messages of data type `type_id` registers:
/// an identifier matches exactly when it is that of a message frame (bit 7
/// clear) of that data type, whatever its priority and source.
pub fn message_filter(type_id: u16) -> (r: TransferFrameIDFilter)
    ensures
        forall|id: u32|
            #[trigger] r.matches(id) <==> (((id >> 8u32) & 0xffff) == type_id as u32 && id & 0x80
                == 0),
{
    let value: u32 = (type_id as u32) << 8u32;
    let mask: u32 = 0x00ff_ff80;
    let r = TransferFrameIDFilter::new(value, mask);
    assert forall|id: u32| #[trigger] r.matches(id) <==> (((id >> 8u32) & 0xffff) == type_id as u32
        && id & 0x80 == 0) by {
        let t = type_id;
        assert(((0x00ff_ff80u32 & id) == (0x00ff_ff80u32 & ((t as u32) << 8u32))) <==> (((id
            >> 8u32) & 0xffff) == t as u32 && id & 0x80 == 0)) by (bit_vector);
    }
    r
}

} // verus!
