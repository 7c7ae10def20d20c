use kryoflux_to_flashfloppy::decode_stream;
use kryoflux_to_flashfloppy::DecodeError;

#[test]
fn one_byte_intervals() {
    let bytes: Vec<u8> = vec![0x10, 0xff];
    let revs = decode_stream(&bytes).unwrap();
    assert_eq!(revs, vec![vec![0x10u16, 0xff]]);
}

#[test]
fn two_byte_interval_high_bits_in_tag() {
    let bytes: Vec<u8> = vec![0x05, 0x34];
    let revs = decode_stream(&bytes).unwrap();
    assert_eq!(revs, vec![vec![0x0534u16]]);
}

#[test]
fn three_byte_interval_high_then_low() {
    let bytes: Vec<u8> = vec![0x0c, 0x12, 0x34];
    let revs = decode_stream(&bytes).unwrap();
    assert_eq!(revs, vec![vec![0x1234u16]]);
}

#[test]
fn nops_are_skipped() {
    // 0x08 consumes nothing, 0x09 one byte, 0x0a two bytes; none emits.
    let bytes: Vec<u8> = vec![0x08, 0x10, 0x09, 0xaa, 0x0a, 0x01, 0x02, 0x20];
    let revs = decode_stream(&bytes).unwrap();
    assert_eq!(revs, vec![vec![0x10u16, 0x20]]);
}

#[test]
fn index_marker_seals_revolution() {
    // An out-of-band index record (type 0x2) with a two-byte payload seals
    // the current revolution; later intervals open a fresh one.
    let bytes: Vec<u8> = vec![0x10, 0x0d, 0x02, 0x02, 0x00, 0xaa, 0xbb, 0x20];
    let revs = decode_stream(&bytes).unwrap();
    assert_eq!(revs, vec![vec![0x10u16], vec![0x20u16]]);
}

#[test]
fn info_records_are_discarded() {
    let bytes: Vec<u8> = vec![
        0x0d, 0x01, 0x03, 0x00, 0x01, 0x02, 0x03, // stream info, 3-byte payload
        0x0d, 0x04, 0x01, 0x00, 0xff, // device info, 1-byte payload
        0x10,
    ];
    let revs = decode_stream(&bytes).unwrap();
    assert_eq!(revs, vec![vec![0x10u16]]);
}

#[test]
fn oob_size_is_little_endian() {
    // size bytes 0x01, 0x01 mean a 257-byte payload, low byte first.
    let mut bytes: Vec<u8> = vec![0x0d, 0x01, 0x01, 0x01];
    bytes.extend(vec![0u8; 257]);
    bytes.push(0x10);
    let revs = decode_stream(&bytes).unwrap();
    assert_eq!(revs, vec![vec![0x10u16]]);
}

#[test]
fn stream_end_stops_decoding_immediately() {
    // Bytes after the stream-end record are never looked at, not even the
    // otherwise-fatal overflow marker; a non-zero declared size is ignored.
    let bytes: Vec<u8> = vec![0x10, 0x0d, 0x03, 0x05, 0x00, 0x0b];
    let revs = decode_stream(&bytes).unwrap();
    assert_eq!(revs, vec![vec![0x10u16]]);
}

#[test]
fn stream_end_only_gives_one_empty_revolution() {
    let bytes: Vec<u8> = vec![0x0d, 0x03, 0x00, 0x00];
    let revs = decode_stream(&bytes).unwrap();
    assert_eq!(revs.len(), 1);
    assert!(revs[0].is_empty());
}

#[test]
fn missing_end_marker_still_yields_final_revolution() {
    let bytes: Vec<u8> = vec![0x10, 0x11];
    let revs = decode_stream(&bytes).unwrap();
    assert_eq!(revs, vec![vec![0x10u16, 0x11]]);
}

#[test]
fn empty_stream_yields_one_empty_revolution() {
    let bytes: Vec<u8> = Vec::new();
    let revs = decode_stream(&bytes).unwrap();
    assert_eq!(revs, vec![Vec::<u16>::new()]);
}

#[test]
fn intervals_are_neither_lost_nor_reordered() {
    let bytes: Vec<u8> = vec![0x10, 0x0d, 0x02, 0x00, 0x00, 0x20, 0x0c, 0x00, 0x30];
    let revs = decode_stream(&bytes).unwrap();
    assert_eq!(revs, vec![vec![0x10u16], vec![0x20u16, 0x30]]);
    let flat: Vec<u16> = revs.into_iter().flatten().collect();
    assert_eq!(flat, vec![0x10u16, 0x20, 0x30]);
}

#[test]
fn eof_during_flux2() {
    let bytes: Vec<u8> = vec![0x03];
    assert_eq!(decode_stream(&bytes), Err(DecodeError::EofFlux2));
}

#[test]
fn eof_during_nop2() {
    let bytes: Vec<u8> = vec![0x09];
    assert_eq!(decode_stream(&bytes), Err(DecodeError::EofNop2));
}

#[test]
fn eof_during_nop3() {
    let bytes: Vec<u8> = vec![0x0a, 0x00];
    assert_eq!(decode_stream(&bytes), Err(DecodeError::EofNop3));
}

#[test]
fn eof_during_flux3() {
    let bytes: Vec<u8> = vec![0x0c, 0x01];
    assert_eq!(decode_stream(&bytes), Err(DecodeError::EofFlux3));
}

#[test]
fn eof_during_oob_header() {
    let bytes: Vec<u8> = vec![0x0d, 0x01];
    assert_eq!(decode_stream(&bytes), Err(DecodeError::EofOob));
}

#[test]
fn eof_during_oob_payload() {
    let bytes: Vec<u8> = vec![0x0d, 0x01, 0x05, 0x00, 0x01, 0x02];
    assert_eq!(decode_stream(&bytes), Err(DecodeError::EofOob));
}

#[test]
fn overflow_marker_fails() {
    let bytes: Vec<u8> = vec![0x10, 0x0b, 0x11];
    assert_eq!(decode_stream(&bytes), Err(DecodeError::Ovl16Unsupported));
}

#[test]
fn invalid_oob_type_zero_fails() {
    let bytes: Vec<u8> = vec![0x0d, 0x00, 0x02, 0x00, 0xff, 0xff];
    assert_eq!(decode_stream(&bytes), Err(DecodeError::InvalidOob));
}

#[test]
fn invalid_oob_type_other_fails() {
    let bytes: Vec<u8> = vec![0x0d, 0x05, 0x00, 0x00];
    assert_eq!(decode_stream(&bytes), Err(DecodeError::InvalidOob));
}

#[test]
fn invalid_oob_after_intervals_fails() {
    let bytes: Vec<u8> = vec![0x10, 0x0d, 0x00, 0x00, 0x00];
    assert_eq!(decode_stream(&bytes), Err(DecodeError::InvalidOob));
}

#[test]
fn decode_error_messages_name_the_code() {
    assert_eq!(DecodeError::EofFlux2.message(), "EOF during Flux2");
    assert_eq!(DecodeError::InvalidOob.message(), "Invalid OOB");
}
