use uavcan::crc::crc_of;
use uavcan::frame::{CanFrame, TransferFrame};
use uavcan::frame_generator::{FrameGenerator, UavcanFrame, UavcanTransmitable};
use uavcan::header::{MessageFrameHeader, TransportFrameHeader};
use uavcan::session::{Deframer, RxError};
use uavcan::structure::{Primitive, Structure};
use uavcan::transfer::{TailByte, TransferFrameID, TransferID};
use uavcan::types::UintX;

fn node_status_body() -> Structure {
    let mut s = Structure::new();
    s.push(Primitive::Uint(UintX::new(32, 1)));
    s.push(Primitive::Uint(UintX::new(2, 2)));
    s.push(Primitive::Uint(UintX::new(3, 3)));
    s.push(Primitive::Uint(UintX::new(3, 4)));
    s.push(Primitive::Uint(UintX::new(16, 5)));
    s
}

fn monotone_body(n: u64) -> Structure {
    let mut s = Structure::new();
    for i in 0..n {
        s.push(Primitive::Uint(UintX::new(8, i)));
    }
    s
}

fn all_frames(mut g: FrameGenerator) -> Vec<CanFrame> {
    let mut out = Vec::new();
    while let Some(f) = g.next_transport_frame() {
        out.push(f);
    }
    out
}

fn monotone_frames(tid: u8) -> Vec<CanFrame> {
    let header = MessageFrameHeader::new(0, 341, 32);
    all_frames(FrameGenerator::from_uavcan_frame(UavcanFrame::new(header, monotone_body(16)), TransferID::new(tid)))
}

#[test]
fn serialize_node_status_frame() {
    let header = MessageFrameHeader::new(0, 341, 32);
    let can_frame = CanFrame {
        id: TransferFrameID::new(header.to_id()),
        dlc: 8,
        data: [1, 0, 0, 0, 0b10001110, 5, 0, TailByte::new(true, true, false, TransferID::new(0)).value()],
    };
    let uavcan_frame = UavcanFrame::new(header, node_status_body());
    let mut frame_generator = FrameGenerator::from_uavcan_frame(uavcan_frame, TransferID::new(0));

    assert_eq!(frame_generator.next_transport_frame(), Some(can_frame));
    assert_eq!(frame_generator.next_transport_frame(), None);
}

#[test]
fn node_status_single_frame_bytes() {
    let header = MessageFrameHeader::new(0, 341, 32);
    let frames = all_frames(FrameGenerator::from_uavcan_frame(UavcanFrame::new(header, node_status_body()), TransferID::new(0)));
    assert_eq!(frames.len(), 1);
    assert_eq!(frames[0].id.value(), (341 << 8) | 32);
    assert_eq!(frames[0].data(), &[0x01, 0x00, 0x00, 0x00, 0x8E, 0x05, 0x00, 0xC0][..]);
    let mut d = Deframer::new();
    assert_eq!(d.receive(frames[0].data()), Ok(Some(vec![0x01, 0x00, 0x00, 0x00, 0x8E, 0x05, 0x00])));
}

#[test]
fn crc_check_value() {
    assert_eq!(crc_of(b"123456789"), 0x29B1);
    assert_eq!(crc_of(&[]), 0xFFFF);
}

#[test]
fn multi_frame_layout() {
    let body: Vec<u8> = (0u8..16).collect();
    let crc = crc_of(&body);
    let frames = monotone_frames(3);
    assert_eq!(frames.len(), 3);
    assert_eq!(frames[0].data().len(), 8);
    assert_eq!(frames[0].data()[0], (crc & 0xff) as u8);
    assert_eq!(frames[0].data()[1], (crc >> 8) as u8);
    assert_eq!(&frames[0].data()[2..7], &body[0..5]);
    assert_eq!(frames[0].data()[7], 0x83);
    assert_eq!(&frames[1].data()[0..7], &body[5..12]);
    assert_eq!(frames[1].data()[7], 0x23);
    assert_eq!(frames[2].data(), &[12, 13, 14, 15, 0x43][..]);
}

#[test]
fn multi_frame_round_trip() {
    let frames = monotone_frames(3);
    let mut d = Deframer::new();
    assert_eq!(d.receive(frames[0].data()), Ok(None));
    assert_eq!(d.receive(frames[1].data()), Ok(None));
    assert_eq!(d.receive(frames[2].data()), Ok(Some((0u8..16).collect::<Vec<u8>>())));
}

#[test]
fn skipped_frame_is_toggle_error() {
    let frames = monotone_frames(3);
    let mut d = Deframer::new();
    assert_eq!(d.receive(frames[0].data()), Ok(None));
    assert_eq!(d.receive(frames[2].data()), Err(RxError::ToggleError));
}

#[test]
fn corrupted_payload_is_crc_error() {
    let frames = monotone_frames(3);
    let mut corrupted = frames[1];
    corrupted.data[0] ^= 0x01;
    let mut d = Deframer::new();
    assert_eq!(d.receive(frames[0].data()), Ok(None));
    assert_eq!(d.receive(corrupted.data()), Ok(None));
    assert_eq!(d.receive(frames[2].data()), Err(RxError::CRCError));
}

#[test]
fn single_bit_flips_all_fail_crc() {
    let frames = monotone_frames(7);
    for f in 0..3 {
        let payload_len = frames[f].data().len() - 1;
        let first = if f == 0 { 2 } else { 0 };
        for byte in first..payload_len {
            for bit in 0..8 {
                let mut copy = frames.clone();
                copy[f].data[byte] ^= 1 << bit;
                let mut d = Deframer::new();
                assert_eq!(d.receive(copy[0].data()), Ok(None));
                assert_eq!(d.receive(copy[1].data()), Ok(None));
                assert_eq!(d.receive(copy[2].data()), Err(RxError::CRCError));
            }
        }
    }
}

#[test]
fn start_frame_with_toggle_set_is_rejected() {
    let mut d = Deframer::new();
    assert_eq!(d.receive(&[1, 2, 0xA0]), Err(RxError::ToggleError));
}

#[test]
fn frame_without_start_is_ignored_when_idle() {
    let frames = monotone_frames(3);
    let mut d = Deframer::new();
    assert_eq!(d.receive(frames[1].data()), Ok(None));
    assert_eq!(d.receive(&[]), Ok(None));
    assert_eq!(d.receive(frames[0].data()), Ok(None));
    assert_eq!(d.receive(frames[1].data()), Ok(None));
    assert_eq!(d.receive(frames[2].data()), Ok(Some((0u8..16).collect::<Vec<u8>>())));
}

#[test]
fn new_start_restarts_transfer() {
    let frames = monotone_frames(3);
    let mut d = Deframer::new();
    assert_eq!(d.receive(frames[0].data()), Ok(None));
    assert_eq!(d.receive(frames[0].data()), Ok(None));
    assert_eq!(d.receive(frames[1].data()), Ok(None));
    assert_eq!(d.receive(frames[2].data()), Ok(Some((0u8..16).collect::<Vec<u8>>())));
}

#[test]
fn frame_counts_follow_body_size() {
    let id = TransferFrameID::new(0x100);
    for (n, expected) in [(0usize, 1usize), (5, 1), (7, 1), (8, 2), (12, 2), (19, 3), (20, 4), (40, 6)] {
        let body: Vec<u8> = (0..n as u8).collect();
        let g = FrameGenerator::from_bytes(id, TransferID::new(0), body.clone());
        assert_eq!(g.frame_count(), expected);
        let frames = all_frames(g);
        assert_eq!(frames.len(), expected);
        let bits = 8 * n;
        if bits <= 40 || bits > 56 {
            assert_eq!(frames.len(), std::cmp::max(1, (bits + 16 + 55) / 56));
        }
    }
}

#[test]
fn toggle_bits_alternate() {
    let body: Vec<u8> = (0..40u8).collect();
    let frames = all_frames(FrameGenerator::from_bytes(TransferFrameID::new(5), TransferID::new(17), body));
    assert_eq!(frames.len(), 6);
    for (k, f) in frames.iter().enumerate() {
        let t = f.tail_byte();
        assert_eq!(t.toggle(), k % 2 == 1);
        assert_eq!(t.start_of_transfer(), k == 0);
        assert_eq!(t.end_of_transfer(), k == 5);
        assert_eq!(t.transfer_id(), TransferID::new(17));
        assert_eq!(f.full_id().transfer_id, TransferID::new(17));
        assert_eq!(f.is_single_frame(), false);
    }
}

#[test]
fn empty_body_is_one_frame() {
    let mut g = FrameGenerator::from_bytes(TransferFrameID::new(1), TransferID::new(2), Vec::new());
    let f = g.next_transport_frame().unwrap();
    assert_eq!(f.data(), &[0xC2][..]);
    assert!(f.is_start_frame() && f.is_end_frame());
    assert_eq!(g.next_transport_frame(), None);
}

#[test]
fn can_frame_accessors() {
    let mut f = <CanFrame as TransferFrame>::new(TransferFrameID::new(77));
    assert_eq!(f.data().len(), 0);
    assert_eq!(CanFrame::max_data_length(), 8);
    f.set_data(&[9, 8, 0xC1]);
    assert_eq!(f.data(), &[9, 8, 0xC1][..]);
    assert_eq!(f.id(), TransferFrameID::new(77));
    assert!(f.is_single_frame());
    assert_eq!(CanFrame::with_data(TransferFrameID::new(77), &[9, 8, 0xC1]), f);
}

#[test]
fn transfer_header_is_kept() {
    let header = MessageFrameHeader::new(3, 341, 32);
    let frame = UavcanFrame::new(header, node_status_body());
    assert_eq!(*frame.get_header(), header);
    assert_eq!(frame.get_header().get_priority(), 3);
}
