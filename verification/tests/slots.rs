use trust_tee::runtime::channel::{record_offsets, MAX_RECORDS, PAYLOAD_OFFSET};
use trust_tee::runtime::serialization::{encode_record, SlotWriter};
use trust_tee::runtime::slots::header::{count, next_boundary_offset, pack_ready_count, ready};
use trust_tee::runtime::slots::{
    Aligned, ChannelPair, FatClosurePtr, PropertyPtr, RequestRecordHeader, HEADER_BYTES,
    RECORD_HEADER_BYTES, SLOT_BYTES,
};

#[test]
fn pack_ready_count_layout() {
    assert_eq!(pack_ready_count(false, 0), 0);
    assert_eq!(pack_ready_count(true, 0), 1);
    assert_eq!(pack_ready_count(true, 3), 7);
    assert_eq!(pack_ready_count(false, 5), 10);
    // A count above 31 bits loses its top bit.
    assert_eq!(pack_ready_count(false, 0x8000_0001), 2);
}

#[test]
fn ready_and_count_read_back_packed_fields() {
    for &r in &[false, true] {
        for &c in &[0u32, 1, 2, 28, 1000, 0x7FFF_FFFF] {
            let w = pack_ready_count(r, c);
            assert_eq!(ready(w), r);
            assert_eq!(count(w), c);
        }
    }
    assert_eq!(count(0xFFFF_FFFF), 0x7FFF_FFFF);
    assert!(ready(0xFFFF_FFFF));
}

#[test]
fn next_boundary_aligns_at_or_after_cursor() {
    assert_eq!(next_boundary_offset(4, 40, 8), 8);
    assert_eq!(next_boundary_offset(8, 40, 8), 8);
    assert_eq!(next_boundary_offset(5, 3, 0), 5);
    assert_eq!(next_boundary_offset(5, 3, 1), 5);
    assert_eq!(next_boundary_offset(9, 4, 4), 12);
    // Regions go at the next boundary, even across the end of the primary block.
    assert_eq!(next_boundary_offset(100, 40, 8), 104);
    assert_eq!(next_boundary_offset(120, 16, 1), 120);
    assert_eq!(next_boundary_offset(88, 40, 8), 88);
    assert_eq!(next_boundary_offset(130, 10, 16), 144);
}

#[test]
fn record_header_roundtrip() {
    let h = RequestRecordHeader {
        closure: FatClosurePtr { data: 0x1122_3344_5566_7788, vtable: 42 },
        property_ptr: PropertyPtr::CallMutArgsOutPtr,
        captured_len: 16,
        args_len: 8,
        args_offset: 72,
        repeat_count: 3,
    };
    let b = h.to_bytes();
    assert_eq!(b.len(), RECORD_HEADER_BYTES);
    assert_eq!(&b[0..8], &[0x88, 0x77, 0x66, 0x55, 0x44, 0x33, 0x22, 0x11]);
    assert_eq!(&b[16..24], &[2, 0, 0, 0, 0, 0, 0, 0]);
    assert_eq!(RequestRecordHeader::from_bytes(&b), Some(h));
    let t = RequestRecordHeader::terminate();
    let tb = t.to_bytes();
    assert_eq!(&tb[16..24], &[0xFF; 8]);
    assert_eq!(RequestRecordHeader::from_bytes(&tb), Some(t));
}

#[test]
fn record_header_rejects_unknown_code_and_short_input() {
    let mut b = RequestRecordHeader::terminate().to_bytes();
    b[16] = 9;
    b[17] = 0;
    assert_eq!(RequestRecordHeader::from_bytes(&b), None);
    assert_eq!(RequestRecordHeader::from_bytes(&b[0..39]), None);
}

#[test]
fn property_codes() {
    assert_eq!(PropertyPtr::CallMutRetUnit.code(), 0);
    assert_eq!(PropertyPtr::IntoInner.code(), 3);
    assert_eq!(PropertyPtr::Launch.code(), 4);
    assert_eq!(PropertyPtr::Terminate.code(), u64::MAX);
    assert_eq!(PropertyPtr::from_code(2), Some(PropertyPtr::CallMutArgsOutPtr));
    assert_eq!(PropertyPtr::from_code(5), None);
}

#[test]
fn record_offsets_step_by_header_size() {
    let offs = record_offsets(4);
    assert_eq!(offs, vec![8, 48, 88, 128]);
    assert_eq!(record_offsets(MAX_RECORDS).last(), Some(&(8 + 40 * 27)));
    assert!(record_offsets(0).is_empty());
}

#[test]
fn slot_writer_reserves_and_copies() {
    let mut storage = Aligned::new([0u8; SLOT_BYTES]);
    {
        let mut writer = SlotWriter::new(&mut storage);
        assert_eq!(writer.cursor, 0);
        assert_eq!(writer.len, SLOT_BYTES);
        let p = writer.write_bytes(&[1, 2, 3]);
        assert_eq!(p, 0);
        assert_eq!(writer.cursor, 3);
        let q = writer.alloc_aligned(8, 8);
        assert_eq!(q, 8);
        assert_eq!(writer.cursor, 16);
    }
    assert_eq!(&storage.0[0..4], &[1, 2, 3, 0]);
}

#[test]
fn encode_record_lays_out_env_then_args() {
    let mut storage = Aligned::new([0u8; SLOT_BYTES]);
    let hdr = {
        let mut out = SlotWriter::new(&mut storage);
        out.cursor = 48;
        let hdr = encode_record(&mut out, PropertyPtr::CallMutArgsOutPtr, 12, 8, 77, &[5, 6, 7, 8]);
        assert_eq!(out.cursor, 64);
        hdr
    };
    assert_eq!(hdr.closure, FatClosurePtr { data: 48, vtable: 77 });
    assert_eq!(hdr.captured_len, 12);
    assert_eq!(hdr.args_len, 4);
    assert_eq!(hdr.args_offset, 60);
    assert_eq!(hdr.repeat_count, 1);
    assert_eq!(&storage.0[60..64], &[5, 6, 7, 8]);
}

#[test]
fn channel_handshake() {
    let mut chan = ChannelPair::default();
    assert!(!chan.request_pending());
    let h = RequestRecordHeader::terminate();
    let req_ready = chan.post_record(&h);
    assert!(req_ready);
    assert!(chan.request_pending());
    assert!(!chan.response_arrived(req_ready));
    assert_eq!(chan.request.primary.header.flags, pack_ready_count(true, 1));
    let recs = chan.pending_records().unwrap();
    assert_eq!(recs, vec![h]);
    chan.write_response(&[9, 8, 7]);
    chan.respond(req_ready, 1);
    assert!(!chan.request_pending());
    assert!(chan.response_arrived(req_ready));
    assert_eq!(chan.read_response(3), vec![9, 8, 7]);
    // The next post flips the ready bit the other way.
    let again = chan.post_record(&h);
    assert!(!again);
    assert!(chan.request_pending());
}

#[test]
fn pending_records_rejects_oversized_count() {
    let mut chan = ChannelPair::default();
    chan.request.primary.header.flags = pack_ready_count(true, 29);
    assert_eq!(chan.pending_records(), None);
}

#[test]
fn request_slot_bytes_span_primary_and_trailing() {
    let mut chan = ChannelPair::default();
    chan.request.write_at(126, &[1, 2, 3, 4]);
    assert_eq!(chan.request.primary.data[122], 1);
    assert_eq!(chan.request.primary.data[123], 2);
    assert_eq!(chan.request.trailing[0], 3);
    assert_eq!(chan.request.trailing[1], 4);
    assert_eq!(chan.request.read_at(125, 6), vec![0, 1, 2, 3, 4, 0]);
    assert_eq!(HEADER_BYTES, 4);
}

#[test]
fn post_call_copies_payload_then_posts() {
    let mut staging = Aligned::new([0u8; SLOT_BYTES]);
    let end = {
        let mut out = SlotWriter::new(&mut staging);
        out.cursor = PAYLOAD_OFFSET;
        encode_record(&mut out, PropertyPtr::CallMutArgsOutPtr, 8, 8, 1, &[4, 5, 6]);
        out.cursor
    };
    staging.0[48] = 0xAB;
    let hdr = RequestRecordHeader {
        closure: FatClosurePtr { data: 48, vtable: 1 },
        property_ptr: PropertyPtr::CallMutArgsOutPtr,
        captured_len: 8,
        args_len: 3,
        args_offset: 56,
        repeat_count: 1,
    };
    let mut chan = ChannelPair::default();
    let rr = chan.post_call(&staging, end, &hdr);
    assert!(rr);
    assert!(chan.request_pending());
    assert_eq!(chan.request.read_at(48, 11), vec![0xAB, 0, 0, 0, 0, 0, 0, 0, 4, 5, 6]);
    assert_eq!(chan.pending_records().unwrap(), vec![hdr]);
}

#[test]
fn encode_record_keeps_environment_at_the_cursor() {
    let mut storage = Aligned::new([0u8; SLOT_BYTES]);
    let mut out = SlotWriter::new(&mut storage);
    out.cursor = PAYLOAD_OFFSET;
    let hdr = encode_record(&mut out, PropertyPtr::CallMutOutPtr, 100, 8, 0, &[1, 2]);
    assert_eq!(hdr.closure.data, 48);
    assert_eq!(hdr.args_offset, 148);
    assert_eq!(out.cursor, 150);
    out.cursor = 100;
    assert_eq!(out.write_bytes(&[0; 16]), 100);
    assert_eq!(out.alloc_aligned(1030, 8), 120);
    assert_eq!(out.cursor, 1150);
}
