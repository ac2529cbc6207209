use uavcan::frame::{CanFrame, TransferFrame};
use uavcan::header::{
    message_filter,
    AnonymousFrameHeader,
    MessageFrameHeader,
    ServiceFrameHeader,
    TransportFrameHeader,
};
use uavcan::transfer::{
    FullTransferID,
    Priority,
    TailByte,
    TransferFrameID,
    TransferFrameIDFilter,
    TransferID,
};

#[test]
fn tail_byte_layout() {
    let t = TailByte::new(true, false, false, TransferID::new(3));
    assert_eq!(t.value(), 0x83);
    assert_eq!(TailByte::new(false, false, true, TransferID::new(3)).value(), 0x23);
    assert_eq!(TailByte::new(false, true, false, TransferID::new(3)).value(), 0x43);
    assert_eq!(TailByte::new(true, true, false, TransferID::new(0)).value(), 0xC0);
}

#[test]
fn tail_byte_fields() {
    let t = TailByte::from_byte(0b1011_0110);
    assert!(t.start_of_transfer());
    assert!(!t.end_of_transfer());
    assert!(t.toggle());
    assert_eq!(t.transfer_id(), TransferID::new(0b10110));
    let e = TailByte::from_byte(0b0100_0001);
    assert!(!e.start_of_transfer());
    assert!(e.end_of_transfer());
    assert!(!e.toggle());
    assert_eq!(e.transfer_id().value(), 1);
}

#[test]
fn transfer_ids_mask_and_wrap() {
    assert_eq!(TransferID::new(0b10110).mask(TransferID::new(0b00111)), TransferID::new(0b00110));
    assert_eq!(TransferID::new(31).next(), TransferID::new(0));
    assert_eq!(TransferID::new(4).next(), TransferID::new(5));
    let id = TransferFrameID::new(0x1fff_ffff).mask(TransferFrameID::new(0x0000_ff80));
    assert_eq!(id.value(), 0x0000_ff80);
    let full = FullTransferID { frame_id: TransferFrameID::new(0x1234), transfer_id: TransferID::new(9) };
    let masked = full.mask(FullTransferID { frame_id: TransferFrameID::new(0xff00), transfer_id: TransferID::new(0x1f) });
    assert_eq!(masked.frame_id, TransferFrameID::new(0x1200));
    assert_eq!(masked.transfer_id, TransferID::new(9));
}

#[test]
fn filter_matches_masked_bits() {
    let f = TransferFrameIDFilter::new(341 << 8, 0xffff << 8);
    assert!(f.is_match(TransferFrameID::new((341 << 8) | 32)));
    assert!(f.is_match(TransferFrameID::new((3 << 24) | (341 << 8) | 7)));
    assert!(!f.is_match(TransferFrameID::new((342 << 8) | 32)));
}

#[test]
fn priority_is_reverse_of_identifier() {
    assert!(Priority(TransferFrameID::new(0)) > Priority(TransferFrameID::new(1)));
    assert!(Priority(TransferFrameID::new(500)) < Priority(TransferFrameID::new(20)));
    assert!(Priority(TransferFrameID::new(7)) == Priority(TransferFrameID::new(7)));
    assert_eq!(
        Priority(TransferFrameID::new(9)).partial_cmp(&Priority(TransferFrameID::new(9))),
        Some(core::cmp::Ordering::Equal)
    );
}

#[test]
fn message_header_identifier() {
    let h = MessageFrameHeader::new(0, 341, 32);
    assert_eq!(h.to_id(), 0x0001_5520);
    let mut p = MessageFrameHeader::new(31, 0xffff, 127);
    assert_eq!(p.to_id(), 0x1fff_ff7f);
    p.set_priority(4);
    assert_eq!(p.get_priority(), 4);
    assert_eq!(p.to_id(), 0x04ff_ff7f);
}

#[test]
fn anonymous_header_identifier() {
    let h = AnonymousFrameHeader::new(2, 0x3fff, 0b11);
    assert_eq!(h.to_id(), 0x02ff_ff00);
    assert_eq!(h.to_id() & 0xff, 0);
    assert_eq!(AnonymousFrameHeader::new(0, 1, 2).to_id(), 0x0000_0600);
}

#[test]
fn service_header_identifier() {
    let h = ServiceFrameHeader::new(1, 0xAB, true, 0x55, 0x11);
    assert_eq!(h.to_id(), 0x01ab_d591);
    let r = ServiceFrameHeader::new(1, 0xAB, false, 0x55, 0x11);
    assert_eq!(r.to_id(), 0x01ab_5591);
    assert_eq!(r.get_priority(), 1);
}

#[test]
fn conversions_to_plain_values() {
    assert_eq!(u8::from(TailByte::new(true, false, true, TransferID::new(7))), 0xA7);
    assert_eq!(u8::from(TransferID::new(21)), 21);
    assert_eq!(u32::from(TransferFrameID::new(0x1abc_def0)), 0x1abc_def0);
}

#[test]
fn message_filter_selects_one_data_type() {
    let f = message_filter(341);
    assert!(f.is_match(TransferFrameID::new(MessageFrameHeader::new(0, 341, 32).to_id())));
    assert!(f.is_match(TransferFrameID::new(MessageFrameHeader::new(31, 341, 1).to_id())));
    assert!(!f.is_match(TransferFrameID::new(MessageFrameHeader::new(0, 342, 32).to_id())));
    assert!(!f.is_match(TransferFrameID::new(ServiceFrameHeader::new(0, 0x01, false, 0x55, 32).to_id())));
}

#[test]
fn priority_of_frames_follows_identifiers() {
    let c = Priority(<CanFrame as TransferFrame>::new(TransferFrameID::new(0)));
    let d = Priority(<CanFrame as TransferFrame>::new(TransferFrameID::new(1)));
    assert!(c > d);
    assert!(d < c);
    assert_eq!(c.partial_cmp(&d), Some(core::cmp::Ordering::Greater));
    assert!(c == Priority(CanFrame::with_data(TransferFrameID::new(0), &[1, 2])));
}
