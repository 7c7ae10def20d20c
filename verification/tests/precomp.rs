use kryoflux_to_flashfloppy::apply_precomp;
use kryoflux_to_flashfloppy::round_us;

#[test]
fn round_us_exact_values() {
    assert_eq!(round_us(0), 0);
    assert_eq!(round_us(24), 1);
    assert_eq!(round_us(25), 1);
    assert_eq!(round_us(48), 2);
    assert_eq!(round_us(73), 3);
    assert_eq!(round_us(120), 5);
    assert_eq!(round_us(65535), 2728);
}

#[test]
fn short_then_long_boundary_shifts_ticks_forward() {
    // 48, 48 and 120 source ticks round to 2, 2 and 5 microseconds, so the
    // window passes through [0,2] -> [2,2] -> [2,5]; only the last step
    // matches the short-then-long rule, moving 10 ticks from index 1 to
    // index 2. The total tick mass is unchanged.
    let raw: Vec<u16> = vec![48, 48, 120];
    let adj = apply_precomp(&raw, 10);
    assert_eq!(adj, vec![48u16, 38, 130]);
    let raw_sum: u64 = raw.iter().map(|v| *v as u64).sum();
    let adj_sum: u64 = adj.iter().map(|v| *v as u64).sum();
    assert_eq!(raw_sum, adj_sum);
}

#[test]
fn long_then_short_boundary_shifts_ticks_backward() {
    // 120 then 48 ticks round to 5 then 2 microseconds: the long-then-short
    // rule moves 7 ticks from index 1 back to index 0.
    let raw: Vec<u16> = vec![120, 48];
    let adj = apply_precomp(&raw, 7);
    assert_eq!(adj, vec![127u16, 41]);
    let raw_sum: u64 = raw.iter().map(|v| *v as u64).sum();
    let adj_sum: u64 = adj.iter().map(|v| *v as u64).sum();
    assert_eq!(raw_sum, adj_sum);
}

#[test]
fn corrections_on_one_index_accumulate() {
    // Rounded durations 2, 5, 2: the short-then-long rule fires at step 1
    // (index 0 loses, index 1 gains) and the long-then-short rule at step 2
    // (index 1 gains again, index 2 loses). Index 1 collects both.
    let raw: Vec<u16> = vec![48, 120, 48];
    let adj = apply_precomp(&raw, 10);
    assert_eq!(adj, vec![38u16, 140, 38]);
    let raw_sum: u64 = raw.iter().map(|v| *v as u64).sum();
    let adj_sum: u64 = adj.iter().map(|v| *v as u64).sum();
    assert_eq!(raw_sum, adj_sum);
}

#[test]
fn no_boundary_no_change() {
    let raw: Vec<u16> = vec![48, 48, 48];
    let adj = apply_precomp(&raw, 10);
    assert_eq!(adj, raw);
}

#[test]
fn zero_magnitude_is_identity() {
    let raw: Vec<u16> = vec![48, 120, 48, 73, 24, 0, 65535];
    let adj = apply_precomp(&raw, 0);
    assert_eq!(adj, raw);
}

#[test]
fn empty_revolution_stays_empty() {
    let raw: Vec<u16> = Vec::new();
    let adj = apply_precomp(&raw, 10);
    assert!(adj.is_empty());
}
