use kryoflux_to_flashfloppy::counter_stream_bytes;
use kryoflux_to_flashfloppy::encode_revolution;
use kryoflux_to_flashfloppy::ff_ticks;

#[test]
fn ff_ticks_exact_values() {
    assert_eq!(ff_ticks(0), 0);
    assert_eq!(ff_ticks(1), 2); // floor(875 / 292)
    assert_eq!(ff_ticks(4), 11); // floor(3500 / 292), truncation bites
    assert_eq!(ff_ticks(48), 143);
    assert_eq!(ff_ticks(292), 875);
    assert_eq!(ff_ticks(65535), 196_380);
}

#[test]
fn counter_starts_from_seed() {
    // One interval of exactly 292 source ticks is 875 target ticks:
    // 0x4321 + 875 == 18060.
    let samples = encode_revolution(&vec![292u16]);
    assert_eq!(samples, vec![18060u16]);
}

#[test]
fn counter_accumulates_truncated_ticks() {
    let samples = encode_revolution(&vec![1u16, 1]);
    assert_eq!(samples, vec![17187u16, 17189]);
}

#[test]
fn counter_wraps_and_round_trips() {
    // Each 65535-tick interval is 196380 target ticks, which wraps the
    // 16-bit counter. Wrapping subtraction of consecutive samples (the first
    // against the seed) still recovers 196380 mod 65536 == 65308.
    let samples = encode_revolution(&vec![65535u16, 65535]);
    assert_eq!(samples, vec![16957u16, 16729]);
    assert_eq!(samples[0].wrapping_sub(0x4321), 65308);
    assert_eq!(samples[1].wrapping_sub(samples[0]), 65308);
}

#[test]
fn empty_revolution_encodes_to_nothing() {
    let samples = encode_revolution(&Vec::new());
    assert!(samples.is_empty());
}

#[test]
fn samples_serialise_little_endian() {
    let bytes = counter_stream_bytes(&vec![0x1234u16, 0xabcd]);
    assert_eq!(bytes, vec![0x34u8, 0x12, 0xcd, 0xab]);
}
