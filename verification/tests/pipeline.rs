use kryoflux_to_flashfloppy::apply_precomp;
use kryoflux_to_flashfloppy::counter_stream_bytes;
use kryoflux_to_flashfloppy::decode_stream;
use kryoflux_to_flashfloppy::encode_revolution;

#[test]
fn decode_adjust_encode_end_to_end() {
    // One one-byte interval of 48 source ticks, no end marker. With no
    // precompensation it stays 48 ticks, rescales to 143 target ticks, and
    // the counter sample 0x4321 + 143 == 17328 lands low byte first.
    let bytes: Vec<u8> = vec![0x30];
    let revs = decode_stream(&bytes).unwrap();
    assert_eq!(revs, vec![vec![48u16]]);

    let adjusted = apply_precomp(&revs[0], 0);
    let samples = encode_revolution(&adjusted);
    assert_eq!(samples, vec![17328u16]);
    assert_eq!(counter_stream_bytes(&samples), vec![0xb0u8, 0x43]);
}

#[test]
fn precompensation_survives_the_whole_pipeline() {
    // Two revolutions separated by an index record; the second holds a
    // short-then-long boundary that precompensation redistributes before
    // encoding.
    let bytes: Vec<u8> = vec![0x30, 0x0d, 0x02, 0x00, 0x00, 0x30, 0x30, 0x78];
    let revs = decode_stream(&bytes).unwrap();
    assert_eq!(revs, vec![vec![48u16], vec![48u16, 48, 120]]);

    let adjusted = apply_precomp(&revs[1], 10);
    assert_eq!(adjusted, vec![48u16, 38, 130]);
    let samples = encode_revolution(&adjusted);
    // 0x4321 + 143 , + floor(38*875/292) == +113, + floor(130*875/292) == +389
    assert_eq!(samples, vec![17328u16, 17441, 17830]);
}
