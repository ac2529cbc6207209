//! The node: its id and its table of receive sessions. It turns a message
//! into the frames that send it, and received frames into transfers.
use vstd::prelude::*;
use crate::frame::{CanFrame, TransferFrame};
use crate::frame_generator::{transfer_frames, FrameGenerator, UavcanFrame};
use crate::header::{message_id, MessageFrameHeader, TransportFrameHeader};
use crate::serializer::encoding;
use crate::session::{manager_step, transfer_view, RxError, SessionManager, Transfer};
use crate::structure::Structure;
use crate::transfer::{tid_of, TransferID};

verus! {

/// A frame as the bus sees it: identifier and data bytes.
pub type FrameModel = (u32, Seq<u8>);

/// The frames that carry `body` with transfer id `tid` under identifier `id`.
pub open spec fn sent_frames(id: u32, body: Seq<u8>, tid: u8) -> Seq<FrameModel> {
    transfer_frames(body, tid).map_values(|d: Seq<u8>| (id, d))
}

/// A frame and what the bus sees of it.
pub open spec fn frame_model(f: CanFrame) -> FrameModel {
    (f.spec_id(), f.spec_data())
}

/// Why a broadcast failed.
#[derive(Clone, Copy, Debug, PartialEq, Eq, Structural)]
pub enum TxError {
    /// The node has no id, and a message needs a source node.
    AnonymousRequired,
}

/// A node of the bus.
pub struct Node {
    /// The node's id; none for an anonymous node.
    pub id: Option<u8>,
    /// The table of transfers being received.
    pub sessions: SessionManager,
}

impl Node {
    pub open spec fn spec_node_id(&self) -> Option<u8> {
        self.id
    }

    pub open spec fn wf(&self) -> bool {
        &&& self.sessions.wf()
        &&& self.spec_node_id() matches Some(n) ==> 1 <= n <= 127
    }

    /// A node with the given id (none for an anonymous node).
    pub fn new(id: Option<u8>, session_manager: SessionManager) -> (r: Self)
        requires
            session_manager.wf(),
            id matches Some(n) ==> 1 <= n <= 127,
        ensures
            r.wf(),
            r.spec_node_id() == id,
            r.sessions == session_manager,
    {
        Node { id, sessions: session_manager }
    }

    pub fn node_id(&self) -> (r: Option<u8>)
        ensures
            r == self.spec_node_id(),
    {
        self.id
    }

    /// Takes in a received frame. Yields a transfer at the end of one, an
    /// error when the frame breaks one, and nothing otherwise.
    pub fn try_receive_frame(&mut self, frame: CanFrame) -> (r: Result<Option<Transfer>, RxError>)
        requires
            old(self).wf(),
            frame.frame_wf(),
        ensures
            final(self).wf(),
            final(self).spec_node_id() == old(self).spec_node_id(),
            final(self).sessions.spec_capacity() == old(self).sessions.spec_capacity(),
            frame.spec_data().len() > 0 ==> (final(self).sessions@, transfer_view(r))
                == manager_step(
                old(self).sessions@,
                old(self).sessions.spec_capacity(),
                (frame.spec_id(), tid_of(frame.spec_data().last())),
                frame.spec_data(),
            ),
            frame.spec_data().len() == 0 ==> final(self).sessions@ == old(self).sessions@
                && r == Ok::<Option<Transfer>, RxError>(None),
            r matches Ok(Some(t)) ==> t.frame_id == frame.id && t.transfer_id.spec_value()
                == tid_of(frame.spec_data().last()),
    {
        self.sessions.ingest(&frame)
    }

    /// The frames that send a message from this node: the body serialized
    /// under a message header with this node as source, split into frames,
    /// in the order they are to be handed to the bus.
    pub fn broadcast(&self, priority: u8, type_id: u16, body: Structure, transfer_id: TransferID) -> (r: Result<Vec<CanFrame>, TxError>)
        requires
            self.wf(),
            body.wf(),
            transfer_id.wf(),
        ensures
            self.spec_node_id() is None <==> r == Err::<Vec<CanFrame>, TxError>(
                TxError::AnonymousRequired,
            ),
            r matches Ok(frames) ==> {
                &&& frames@.map_values(|f: CanFrame| frame_model(f)) == sent_frames(
                    message_id(priority, type_id, self.spec_node_id()->Some_0),
                    encoding(body.prims()),
                    transfer_id.spec_value(),
                )
                &&& forall|k: int| 0 <= k < frames@.len() ==> (#[trigger] frames@[k]).frame_wf()
            },
    {
        let source = match self.id {
            Some(n) => n,
            None => {
                return Err(TxError::AnonymousRequired);
            },
        };
        let header = MessageFrameHeader::new(priority, type_id, source);
        let mut generator = FrameGenerator::from_uavcan_frame(UavcanFrame::new(header, body), transfer_id);
        let ghost frames = sent_frames(
            message_id(priority, type_id, source),
            generator.spec_body(),
            transfer_id.spec_value(),
        );
        let count = generator.frame_count();
        let mut out: Vec<CanFrame> = Vec::new();
        let mut k: usize = 0;
        while k < count
            invariant
                generator.wf(),
                count == generator.frames().len(),
                count == frames.len(),
                generator.spec_id() == message_id(priority, type_id, source),
                generator.spec_tid() == transfer_id.spec_value(),
                frames == sent_frames(
                    message_id(priority, type_id, source),
                    generator.spec_body(),
                    transfer_id.spec_value(),
                ),
                generator.spec_next() == k,
                k <= count,
                out@.len() == k,
                forall|q: int| 0 <= q < k ==> (#[trigger] out@[q]).frame_wf() && frame_model(out@[q]) == frames[q],
            decreases count - k,
        {
            match generator.next_transport_frame() {
                Some(f) => {
                    out.push(f);
                },
                None => {
                    return Ok(out);
                },
            }
            k = k + 1;
        }
        assert(out@.map_values(|f: CanFrame| frame_model(f)) =~= frames);
        Ok(out)
    }
}

} // verus!
