use uavcan::frame::CanFrame;
use uavcan::frame_generator::FrameGenerator;
use uavcan::node::{Node, TxError};
use uavcan::session::{RxError, SessionManager};
use uavcan::serializer::deserialize;
use uavcan::structure::{Field, Primitive, Structure, UavcanIndexable};
use uavcan::transfer::{TransferFrameID, TransferID};
use uavcan::types::UintX;

fn frames_of(id: u32, tid: u8, body: &[u8]) -> Vec<CanFrame> {
    let mut g = FrameGenerator::from_bytes(TransferFrameID::new(id), TransferID::new(tid), body.to_vec());
    let mut out = Vec::new();
    while let Some(f) = g.next_transport_frame() {
        out.push(f);
    }
    out
}

#[test]
fn single_frame_completes_at_once() {
    let mut m = SessionManager::new(2);
    let f = frames_of(0x1234, 1, &[1, 2, 3]);
    let t = m.ingest(&f[0]).unwrap().unwrap();
    assert_eq!(t.payload, vec![1, 2, 3]);
    assert_eq!(t.frame_id, TransferFrameID::new(0x1234));
    assert_eq!(t.transfer_id, TransferID::new(1));
    assert_eq!(m.len(), 0);
}

#[test]
fn interleaved_transfers_complete_in_final_frame_order() {
    let a_body: Vec<u8> = (0..16).collect();
    let b_body: Vec<u8> = (100..112).collect();
    let a = frames_of(0x100, 3, &a_body);
    let b = frames_of(0x200, 3, &b_body);
    assert_eq!(a.len(), 3);
    assert_eq!(b.len(), 2);
    let mut m = SessionManager::new(4);
    let mut done = Vec::new();
    for f in [&a[0], &b[0], &a[1], &b[1], &a[2]] {
        if let Some(t) = m.ingest(f).unwrap() {
            done.push(t);
        }
    }
    assert_eq!(done.len(), 2);
    assert_eq!(done[0].frame_id, TransferFrameID::new(0x200));
    assert_eq!(done[0].payload, b_body);
    assert_eq!(done[1].frame_id, TransferFrameID::new(0x100));
    assert_eq!(done[1].payload, a_body);
    assert_eq!(m.len(), 0);
}

#[test]
fn oldest_session_is_evicted_when_full() {
    let body: Vec<u8> = (0..16).collect();
    let a = frames_of(0x100, 1, &body);
    let b = frames_of(0x200, 1, &body);
    let c = frames_of(0x300, 1, &body);
    let mut m = SessionManager::new(2);
    assert_eq!(m.ingest(&a[0]), Ok(None));
    assert_eq!(m.ingest(&b[0]), Ok(None));
    assert_eq!(m.len(), 2);
    assert_eq!(m.ingest(&c[0]), Ok(None));
    assert_eq!(m.len(), 2);
    let mut done = Vec::new();
    for f in [&a[1], &b[1], &c[1], &a[2], &b[2], &c[2]] {
        if let Some(t) = m.ingest(f).unwrap() {
            done.push(t.frame_id.value());
        }
    }
    assert_eq!(done, vec![0x200, 0x300]);
    assert_eq!(m.len(), 0);
}

#[test]
fn orphan_frames_leave_sessions_alone() {
    let body: Vec<u8> = (0..16).collect();
    let a = frames_of(0x100, 1, &body);
    let other = frames_of(0x500, 9, &body);
    let mut m = SessionManager::new(2);
    assert_eq!(m.ingest(&a[0]), Ok(None));
    assert_eq!(m.ingest(&other[1]), Ok(None));
    assert_eq!(m.ingest(&other[2]), Ok(None));
    assert_eq!(m.len(), 1);
    assert_eq!(m.ingest(&a[1]), Ok(None));
    assert_eq!(m.ingest(&a[2]).unwrap().unwrap().payload, body);
}

#[test]
fn session_errors_are_surfaced_and_dropped() {
    let body: Vec<u8> = (0..16).collect();
    let a = frames_of(0x100, 1, &body);
    let mut m = SessionManager::new(2);
    assert_eq!(m.ingest(&a[0]), Ok(None));
    assert_eq!(m.ingest(&a[2]), Err(RxError::ToggleError));
    assert_eq!(m.len(), 0);
    let mut bad = a[1];
    bad.data[3] ^= 0x40;
    assert_eq!(m.ingest(&a[0]), Ok(None));
    assert_eq!(m.ingest(&bad), Ok(None));
    assert_eq!(m.ingest(&a[2]), Err(RxError::CRCError));
    assert_eq!(m.len(), 0);
}

fn body16() -> Structure {
    let mut s = Structure::new();
    for i in 0..16u64 {
        s.push(Primitive::Uint(UintX::new(8, i)));
    }
    s
}

#[test]
fn broadcast_frames_round_trip() {
    let node = Node::new(Some(32), SessionManager::new(2));
    let sent = node.broadcast(0, 341, body16(), TransferID::new(3)).unwrap();
    assert_eq!(sent.len(), 3);
    assert_eq!(sent[0].id.value(), (341 << 8) | 32);
    assert_eq!(sent[0].data[7], 0x83);
    assert_eq!(sent[1].data[7], 0x23);
    assert_eq!(sent[2].data[4], 0x43);

    let mut receiver = Node::new(Some(5), SessionManager::new(2));
    let mut got = None;
    for f in sent {
        if let Some(t) = receiver.try_receive_frame(f).unwrap() {
            got = Some(t);
        }
    }
    assert_eq!(got.unwrap().payload, (0u8..16).collect::<Vec<u8>>());
}

#[test]
fn anonymous_node_cannot_broadcast() {
    let node = Node::new(None, SessionManager::new(1));
    assert_eq!(node.broadcast(0, 341, body16(), TransferID::new(0)), Err(TxError::AnonymousRequired));
    assert_eq!(node.node_id(), None);
}

#[test]
fn node_receives_frames_in_order() {
    let body: Vec<u8> = (0..10).collect();
    let mut node = Node::new(Some(1), SessionManager::new(1));
    let mut got = None;
    for f in frames_of(0x42, 4, &body) {
        if let Some(t) = node.try_receive_frame(f).unwrap() {
            got = Some(t);
        }
    }
    let t = got.unwrap();
    assert_eq!(t.payload, body);
    assert_eq!(t.transfer_id, TransferID::new(4));
}

#[test]
fn flipped_crc_byte_is_crc_error_at_node() {
    let body: Vec<u8> = (0..16).collect();
    for bit in 0..16 {
        let mut frames = frames_of(0x100, 2, &body);
        frames[0].data[bit / 8] ^= 1 << (bit % 8);
        let mut node = Node::new(Some(9), SessionManager::new(2));
        assert_eq!(node.try_receive_frame(frames[0]), Ok(None));
        assert_eq!(node.try_receive_frame(frames[1]), Ok(None));
        assert_eq!(node.try_receive_frame(frames[2]), Err(RxError::CRCError));
        assert_eq!(node.sessions.len(), 0);
    }
}

#[test]
fn received_node_status_decodes_to_field_values() {
    let id = (341 << 8) | 32;
    let frame = uavcan::frame::CanFrame::with_data(
        TransferFrameID::new(id),
        &[1, 0, 0, 0, 0x8E, 5, 0, 0xC0],
    );
    let mut node = Node::new(Some(1), SessionManager::new(1));
    let t = node.try_receive_frame(frame).unwrap().unwrap();
    assert_eq!(t.payload, vec![1, 0, 0, 0, 0x8E, 5, 0]);
    assert_eq!(node.sessions.len(), 0);
    let mut s = Structure::new();
    for w in [32usize, 2, 3, 3, 16] {
        s.push(Primitive::Uint(UintX::new(w, 0)));
    }
    assert_eq!(deserialize(&mut s, &t.payload), Ok(56));
    let expected = [(32, 1), (2, 2), (3, 3), (3, 4), (16, 5)];
    for (i, (w, v)) in expected.iter().enumerate() {
        assert_eq!(s.primitive_field(i), Some(&Field::Primitive(Primitive::Uint(UintX::new(*w, *v)))));
    }
}
