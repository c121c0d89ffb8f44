use ferrite_blocks::event_store::{EventStore, EventStoreParams};
use ferrite_blocks::events_sink::{EventsSink, EventsSinkParams};

fn feed(sink: &mut EventsSink, bytes: &[u8]) {
    let consumed = sink.process(bytes);
    assert_eq!(consumed, bytes.len());
}

#[test]
fn collects_complete_lines() {
    let mut s = EventsSink::new(EventsSinkParams::default());
    feed(&mut s, b"{\"a\":1}\n{\"b\":2}\n");
    let got = s.drain_events();
    assert_eq!(got.len(), 2);
    assert_eq!(got[0], b"{\"a\":1}");
    assert_eq!(got[1], b"{\"b\":2}");
}

#[test]
fn reassembles_split_across_calls() {
    let mut s = EventsSink::new(EventsSinkParams::default());
    feed(&mut s, b"{\"a\"");
    assert_eq!(s.pending_count(), 0);
    feed(&mut s, b":1}\n");
    let got = s.drain_events();
    assert_eq!(got.len(), 1);
    assert_eq!(got[0], b"{\"a\":1}");
}

#[test]
fn capacity_zero_is_unbounded() {
    let mut s = EventsSink::new(EventsSinkParams { capacity: 0 });
    let payload = b"{}\n".repeat(10_000);
    feed(&mut s, &payload);
    assert_eq!(s.pending_count(), 10_000);
    assert_eq!(s.dropped(), 0);
}

#[test]
fn capacity_drops_oldest() {
    let mut s = EventsSink::new(EventsSinkParams { capacity: 3 });
    feed(
        &mut s,
        b"{\"n\":1}\n{\"n\":2}\n{\"n\":3}\n{\"n\":4}\n{\"n\":5}\n",
    );
    let got = s.drain_events();
    assert_eq!(got.len(), 3);
    assert_eq!(got[0], b"{\"n\":3}");
    assert_eq!(got[2], b"{\"n\":5}");
    assert_eq!(s.dropped(), 2);
}

#[test]
fn empty_lines_dont_produce_events() {
    let mut s = EventsSink::new(EventsSinkParams::default());
    feed(&mut s, b"\n\n\n");
    assert_eq!(s.pending_count(), 0);
}

#[test]
fn default_capacity_is_1024() {
    assert_eq!(EventsSinkParams::default().capacity, 1024);
}

#[test]
fn chunking_does_not_change_the_result() {
    let stream = b"{\"a\":1}\n\n{\"b\":22}\n{\"c\"".to_vec();
    let mut whole = EventsSink::new(EventsSinkParams { capacity: 2 });
    feed(&mut whole, &stream);
    for cut in 0..=stream.len() {
        let mut split = EventsSink::new(EventsSinkParams { capacity: 2 });
        feed(&mut split, &stream[..cut]);
        feed(&mut split, &stream[cut..]);
        assert_eq!(split.pending_count(), whole.pending_count());
        assert_eq!(split.dropped(), whole.dropped());
        let mut w2 = EventsSink::new(EventsSinkParams { capacity: 2 });
        feed(&mut w2, &stream);
        assert_eq!(split.drain_events(), w2.drain_events());
    }
    // The unterminated tail completes on the next call.
    feed(&mut whole, b":3}\n");
    let got = whole.drain_events();
    assert_eq!(got, vec![b"{\"b\":22}".to_vec(), b"{\"c\":3}".to_vec()]);
    assert_eq!(whole.dropped(), 1);
}

fn store(kind: &str, reset_on_init: bool) -> EventStore {
    EventStore::new(EventStoreParams {
        kind: kind.to_string(),
        reset_on_init,
    })
}

#[test]
fn attach_resets_then_emits_parsed_json() {
    let mut b = store("adsb", true);
    assert!(b.attach_store(), "reset fired on attach (fresh session)");
    assert_eq!(b.kind(), "adsb");
    let forward = b.process(b"{\"icao\":\"abc123\",\"alt\":1000}\n");
    assert_eq!(forward, vec![b"{\"icao\":\"abc123\",\"alt\":1000}".to_vec()]);
}

#[test]
fn no_reset_when_disabled() {
    let mut b = store("ft8", false);
    assert!(!b.attach_store());
}

#[test]
fn partial_line_carries_across_ticks() {
    let mut b = store("aprs", false);
    b.attach_store();
    assert!(b.process(b"{\"call\":\"N0").is_empty(), "no newline yet");
    let forward = b.process(b"CALL\"}\n");
    assert_eq!(forward, vec![b"{\"call\":\"N0CALL\"}".to_vec()]);
}

#[test]
fn non_json_line_wraps_as_string_not_dropped() {
    let mut b = store("packet", false);
    b.attach_store();
    let forward = b.process(b"AFSK1200: raw frame\n");
    assert_eq!(forward, vec![b"AFSK1200: raw frame".to_vec()]);
}

#[test]
fn without_sink_lines_buffer_for_drain() {
    let mut b = store("adsb", true);
    assert!(b.process(b"{\"a\":1}\n{\"b\":2}\n").is_empty());
    let drained = b.drain_events();
    assert_eq!(drained.len(), 2);
    assert_eq!(drained[0], b"{\"a\":1}");
    assert!(b.drain_events().is_empty(), "drained once");
}

#[test]
fn event_store_defaults() {
    let p = EventStoreParams::default();
    assert_eq!(p.kind, "");
    assert!(p.reset_on_init);
}

#[test]
fn pending_after_drain_counts_new_lines_capped() {
    let mut s = EventsSink::new(EventsSinkParams { capacity: 2 });
    feed(&mut s, b"{\"a\":1}\n{\"b");
    assert_eq!(s.drain_events(), vec![b"{\"a\":1}".to_vec()]);
    feed(&mut s, b"\":2}\n\n{\"c\":3}\n{\"d\":4}\n");
    assert_eq!(s.pending_count(), 2);
    assert_eq!(s.dropped(), 1);
    assert_eq!(s.drain_events(), vec![b"{\"c\":3}".to_vec(), b"{\"d\":4}".to_vec()]);
}

#[test]
fn any_chunking_gives_the_same_events() {
    let stream = b"{\"a\":1}\n\n{\"bb\":2}\n{\"c\":33}\n{\"d\"".to_vec();
    let mut whole = EventsSink::new(EventsSinkParams { capacity: 0 });
    feed(&mut whole, &stream);
    let want = whole.drain_events();
    for step in 1..=5 {
        let mut s = EventsSink::new(EventsSinkParams { capacity: 0 });
        for chunk in stream.chunks(step) {
            feed(&mut s, chunk);
        }
        assert_eq!(s.drain_events(), want);
    }
}
