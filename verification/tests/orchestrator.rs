use rsi_service::history::MAX_HISTORY;
use rsi_service::indicator::RSI_FULL;
use rsi_service::orchestrator::{Event, IndicatorResult, Note, Orchestrator, Phase, Reaction};

const UNIT: i64 = 1_000_000_000_000;

fn trade(token: &str, price: &str) -> String {
    format!(r#"{{"token_address":"{}","price":{}}}"#, token, price)
}

fn feed(o: &mut Orchestrator, token: &str, price: &str, now: u128) -> Reaction {
    let payload = trade(token, price);
    o.react(Event::Message(Some(payload.as_bytes())), now)
}

fn quiet(commit: bool, note: Note) -> Reaction {
    Reaction { emission: None, commit, note }
}

#[test]
fn a_new_loop_is_running() {
    let o = Orchestrator::new(14);
    assert_eq!(o.phase(), Phase::Running);
    assert_eq!(o.period(), 14);
    assert!(o.history("tok").is_none());
}

#[test]
fn fifteen_rising_prices_give_one_hundred_at_the_last() {
    let mut o = Orchestrator::new(14);
    for i in 1..=14 {
        let r = feed(&mut o, "tok", &i.to_string(), 1000 + i as u128);
        assert_eq!(r, quiet(true, Note::Processed), "event {}", i);
    }
    let r = feed(&mut o, "tok", "15", 2000);
    assert_eq!(
        r,
        Reaction {
            emission: Some(IndicatorResult {
                token_id: "tok".to_string(),
                value: RSI_FULL,
                price: 15 * UNIT,
                timestamp_ms: 2000,
            }),
            commit: true,
            note: Note::Processed,
        }
    );
    assert_eq!(r.emission.map(|e| e.value as f64 / UNIT as f64), Some(100.0));
}

#[test]
fn fifteen_alternating_prices_give_fifty_at_the_last() {
    let mut o = Orchestrator::new(14);
    for i in 0..14 {
        let r = feed(&mut o, "tok", if i % 2 == 0 { "10" } else { "9" }, 0);
        assert_eq!(r.emission, None);
        assert!(r.commit);
    }
    let r = feed(&mut o, "tok", "10", 7);
    let e = r.emission.expect("the fifteenth price completes the window");
    assert_eq!(e.value, RSI_FULL / 2);
    assert_eq!(e.value as f64 / UNIT as f64, 50.0);
    assert_eq!(e.price, 10 * UNIT);
    assert_eq!(e.token_id, "tok");
    assert_eq!(e.timestamp_ms, 7);
}

#[test]
fn every_price_after_the_window_is_full_gives_a_result() {
    let mut o = Orchestrator::new(2);
    assert_eq!(feed(&mut o, "t", "1", 0).emission, None);
    assert_eq!(feed(&mut o, "t", "2", 0).emission, None);
    assert_eq!(feed(&mut o, "t", "3", 0).emission.map(|e| e.value), Some(RSI_FULL));
    assert_eq!(feed(&mut o, "t", "2", 0).emission.map(|e| e.value), Some(RSI_FULL / 2));
    assert_eq!(feed(&mut o, "t", "1", 0).emission.map(|e| e.value), Some(0));
    assert_eq!(feed(&mut o, "t", "1", 0).emission.map(|e| e.value), Some(0));
    assert_eq!(feed(&mut o, "t", "1", 0).emission.map(|e| e.value), Some(RSI_FULL));
}

#[test]
fn tokens_do_not_mix() {
    let mut o = Orchestrator::new(1);
    assert_eq!(feed(&mut o, "a", "1", 0).emission, None);
    assert_eq!(feed(&mut o, "b", "9", 0).emission, None);
    assert_eq!(feed(&mut o, "a", "2", 0).emission.map(|e| (e.token_id, e.value)), Some(("a".to_string(), RSI_FULL)));
    assert_eq!(feed(&mut o, "b", "8", 0).emission.map(|e| (e.token_id, e.value)), Some(("b".to_string(), 0)));
    assert_eq!(o.history("a").map(|s| s.to_vec()), Some(vec![UNIT, 2 * UNIT]));
    assert_eq!(o.history("b").map(|s| s.to_vec()), Some(vec![9 * UNIT, 8 * UNIT]));
}

#[test]
fn observe_records_and_computes() {
    let mut o = Orchestrator::new(1);
    assert_eq!(o.observe("t", 5, 1), quiet(true, Note::Processed));
    assert_eq!(
        o.observe("t", 3, 2),
        Reaction {
            emission: Some(IndicatorResult {
                token_id: "t".to_string(),
                value: 0,
                price: 3,
                timestamp_ms: 2,
            }),
            commit: true,
            note: Note::Processed,
        }
    );
    assert_eq!(o.history("t").map(|s| s.to_vec()), Some(vec![5, 3]));
}

#[test]
fn observe_is_passed_over_once_the_loop_is_stopped() {
    let mut o = Orchestrator::new(1);
    o.observe("t", 5, 1);
    o.react(Event::Shutdown, 0);
    assert_eq!(o.observe("t", 3, 2), quiet(false, Note::Ignored));
    assert_eq!(o.history("t").map(|s| s.to_vec()), Some(vec![5]));
}

#[test]
fn histories_in_the_loop_stay_bounded() {
    let mut o = Orchestrator::new(14);
    for i in 0..(MAX_HISTORY as i64 + 50) {
        o.observe("t", i, 0);
    }
    let h = o.history("t").map(|s| s.to_vec()).unwrap();
    assert_eq!(h.len(), MAX_HISTORY);
    assert_eq!(h[0], 50);
    assert_eq!(h[MAX_HISTORY - 1], MAX_HISTORY as i64 + 49);
}

#[test]
fn an_unparsable_payload_is_committed_and_dropped() {
    let mut o = Orchestrator::new(14);
    let r = o.react(Event::Message(Some(b"not json")), 0);
    assert_eq!(r, quiet(true, Note::Unparsable));
    let r = o.react(Event::Message(Some(br#"{"price":1}"#)), 0);
    assert_eq!(r, quiet(true, Note::Unparsable));
    let r = o.react(Event::Message(Some(br#"{"token_address":"t","price":"x"}"#)), 0);
    assert_eq!(r, quiet(true, Note::Unparsable));
    assert!(o.history("t").is_none());
    assert_eq!(o.phase(), Phase::Running);
}

#[test]
fn a_payload_that_is_not_utf8_is_committed_and_dropped() {
    let mut o = Orchestrator::new(14);
    let r = o.react(Event::Message(Some(&[0xff, 0xfe, 0x7b])), 0);
    assert_eq!(r, quiet(true, Note::NotUtf8));
    let r = o.react(Event::Message(Some(&[0xc3])), 0);
    assert_eq!(r, quiet(true, Note::NotUtf8));
    let r = o.react(Event::Message(Some(&[0xed, 0xa0, 0x80])), 0);
    assert_eq!(r, quiet(true, Note::NotUtf8));
    assert_eq!(o.phase(), Phase::Running);
}

#[test]
fn a_payload_with_characters_beyond_ascii_is_read() {
    let mut o = Orchestrator::new(1);
    let payload = "{\"token_address\":\"tök€n\u{1F600}\",\"price\":1}";
    assert_eq!(o.react(Event::Message(Some(payload.as_bytes())), 0), quiet(true, Note::Processed));
    assert_eq!(o.history("tök€n\u{1F600}").map(|s| s.to_vec()), Some(vec![UNIT]));
}

#[test]
fn a_message_without_payload_is_committed() {
    let mut o = Orchestrator::new(14);
    assert_eq!(o.react(Event::Message(None), 0), quiet(true, Note::NoPayload));
    assert_eq!(o.react(Event::Message(Some(b"")), 0), quiet(true, Note::Unparsable));
    assert_eq!(o.phase(), Phase::Running);
}

#[test]
fn a_transport_error_is_passed_over_without_commit() {
    let mut o = Orchestrator::new(1);
    feed(&mut o, "t", "1", 0);
    assert_eq!(o.react(Event::TransportError, 0), quiet(false, Note::TransportError));
    assert_eq!(o.phase(), Phase::Running);
    assert_eq!(feed(&mut o, "t", "2", 0).emission.map(|e| e.value), Some(RSI_FULL));
}

#[test]
fn the_shutdown_signal_stops_processing_at_once() {
    let mut o = Orchestrator::new(1);
    feed(&mut o, "t", "1", 0);
    assert_eq!(o.react(Event::Shutdown, 0), quiet(false, Note::ShutdownRequested));
    assert_eq!(o.phase(), Phase::ShuttingDown);
    assert_eq!(feed(&mut o, "t", "2", 0), quiet(false, Note::Ignored));
    assert_eq!(o.react(Event::Message(None), 0), quiet(false, Note::Ignored));
    assert_eq!(o.react(Event::TransportError, 0), quiet(false, Note::Ignored));
    assert_eq!(o.react(Event::StreamEnded, 0), quiet(false, Note::Ignored));
    assert_eq!(o.react(Event::Shutdown, 0), quiet(false, Note::Ignored));
    assert_eq!(o.phase(), Phase::ShuttingDown);
    assert_eq!(o.history("t").map(|s| s.to_vec()), Some(vec![UNIT]));
}

#[test]
fn the_end_of_the_stream_stops_the_loop() {
    let mut o = Orchestrator::new(1);
    assert_eq!(o.react(Event::StreamEnded, 0), quiet(false, Note::StreamEnded));
    assert_eq!(o.phase(), Phase::ShuttingDown);
    assert_eq!(feed(&mut o, "t", "2", 0), quiet(false, Note::Ignored));
    assert!(o.history("t").is_none());
}

#[test]
fn finish_terminates_a_stopped_loop_only() {
    let mut o = Orchestrator::new(1);
    o.finish();
    assert_eq!(o.phase(), Phase::Running);
    o.react(Event::Shutdown, 0);
    o.finish();
    assert_eq!(o.phase(), Phase::Terminated);
    assert_eq!(feed(&mut o, "t", "2", 0), quiet(false, Note::Ignored));
    o.finish();
    assert_eq!(o.phase(), Phase::Terminated);
}

#[test]
fn step_stamps_the_emission_with_the_clock() {
    let mut o = Orchestrator::new(1);
    let first = trade("t", "1");
    let second = trade("t", "2");
    assert_eq!(o.step(Event::Message(Some(first.as_bytes()))), quiet(true, Note::Processed));
    let r = o.step(Event::Message(Some(second.as_bytes())));
    assert!(r.commit);
    assert_eq!(r.note, Note::Processed);
    let e = r.emission.expect("two prices complete a window of one step");
    assert_eq!(e.token_id, "t");
    assert_eq!(e.value, RSI_FULL);
    assert_eq!(e.price, 2 * UNIT);
    assert!(e.timestamp_ms > 1_600_000_000_000);
    assert_eq!(o.step(Event::Shutdown), quiet(false, Note::ShutdownRequested));
    assert_eq!(o.step(Event::Message(Some(second.as_bytes()))), quiet(false, Note::Ignored));
}
