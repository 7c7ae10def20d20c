use kryoflux_to_flashfloppy::trace_events;
use kryoflux_to_flashfloppy::TraceEvent;

#[test]
fn pulse_rises_six_ticks_before_each_transition() {
    let events = trace_events(&vec![100u16, 4]);
    assert_eq!(
        events,
        vec![
            TraceEvent { time: 94, high: true },
            TraceEvent { time: 100, high: false },
            // a four-tick interval is shorter than the pulse width, so the
            // rise is clipped to the interval's start
            TraceEvent { time: 100, high: true },
            TraceEvent { time: 104, high: false },
        ]
    );
}

#[test]
fn trace_times_accumulate() {
    let events = trace_events(&vec![10u16, 10, 10]);
    assert_eq!(events.len(), 6);
    assert_eq!(events[2], TraceEvent { time: 14, high: true });
    assert_eq!(events[3], TraceEvent { time: 20, high: false });
    assert_eq!(events[5], TraceEvent { time: 30, high: false });
}

#[test]
fn empty_revolution_has_no_edges() {
    let events = trace_events(&Vec::new());
    assert!(events.is_empty());
}
