use simulator::device::TestBox;
use simulator::framing::FrameDecoder;
use simulator::pipeline::{engine_step, handle_chunk, EngineEvent, LineOutcome};
use simulator::protocol::{Request, RequestNoun, Response};

fn value_of(resp: &Response) -> i64 {
    match resp {
        Response::Value(v) => *v,
        other => panic!("expected a value response, got {:?}", other),
    }
}

fn self_test_of(resp: &Response) -> (bool, i64) {
    match resp {
        Response::SelfTest(a, p) => (*a, *p),
        other => panic!("expected a self-test response, got {:?}", other),
    }
}

#[test]
fn framer_splits_lines() {
    let mut dec = FrameDecoder::new(256);
    let lines = dec.feed(b"GET SERVO\r\nID\r\nGET RE");
    assert_eq!(lines, vec![b"GET SERVO\r\n".to_vec(), b"ID\r\n".to_vec()]);
    let lines = dec.feed(b"D_LED\r\n");
    assert_eq!(lines, vec![b"GET RED_LED\r\n".to_vec()]);
}

#[test]
fn framer_flushes_at_capacity() {
    // a line longer than the buffer is flushed unterminated and the
    // buffer restarts cleanly at the boundary
    let mut dec = FrameDecoder::new(8);
    let lines = dec.feed(b"ABCDEFGHIJ");
    assert_eq!(lines, vec![b"ABCDEFGH".to_vec()]);
    let lines = dec.feed(b"\nID\n");
    assert_eq!(lines, vec![b"IJ\n".to_vec(), b"ID\n".to_vec()]);
}

#[test]
fn framer_reset_discards_partial_line() {
    let mut dec = FrameDecoder::new(256);
    assert_eq!(dec.feed(b"GET SER"), Vec::<Vec<u8>>::new());
    dec.reset();
    let lines = dec.feed(b"ID\r\n");
    assert_eq!(lines, vec![b"ID\r\n".to_vec()]);
}

#[test]
fn set_clamps_and_get_reads_back() {
    let mut tbox = TestBox::new(0);
    let r = tbox.apply(Request::SetValue(RequestNoun::Servo, 200), 0);
    assert_eq!(value_of(&r), 180);
    let r = tbox.apply(Request::Get(RequestNoun::Servo), 0);
    assert_eq!(value_of(&r), 180);
    let r = tbox.apply(Request::SetValue(RequestNoun::RedLed, -5), 0);
    assert_eq!(value_of(&r), 0);
    let r = tbox.apply(Request::SetValue(RequestNoun::YellowLed, 512), 0);
    assert_eq!(value_of(&r), 512);
    let r = tbox.apply(Request::Get(RequestNoun::YellowLed), 0);
    assert_eq!(value_of(&r), 512);
    // setting the already-clamped value changes nothing
    let r = tbox.apply(Request::SetValue(RequestNoun::Servo, 180), 0);
    assert_eq!(value_of(&r), 180);
}

#[test]
fn id_is_fixed() {
    let mut tbox = TestBox::new(0);
    match tbox.apply(Request::Id, 0) {
        Response::Id(s) => assert_eq!(s, "ESP8266_WEMOS_D1MINI"),
        other => panic!("expected an identity response, got {:?}", other),
    }
}

#[test]
fn temp_and_hum_reads_but_rejects_set() {
    let mut tbox = TestBox::new(0);
    match tbox.apply(Request::Get(RequestNoun::TempAndHum), 0) {
        Response::TempAndHum(status, t, h) => {
            assert_eq!(status, "OK");
            assert_eq!(t, 2000);
            assert_eq!(h, 5000);
        },
        other => panic!("expected a sensor response, got {:?}", other),
    }
    match tbox.apply(Request::SetValue(RequestNoun::TempAndHum, 5), 0) {
        Response::Error(e) => assert_eq!(e.code(), "BAD_NOUN"),
        other => panic!("expected an error, got {:?}", other),
    }
}

#[test]
fn sensor_refreshes_after_two_seconds() {
    let mut tbox = TestBox::new(0);
    assert!(!tbox.tick(1999));
    assert!(tbox.tick(2000));
    match tbox.apply(Request::Get(RequestNoun::TempAndHum), 2000) {
        Response::TempAndHum(status, t, h) => {
            assert_eq!(status, "OK");
            assert!((2000..3000).contains(&t));
            assert!((3000..7000).contains(&h));
        },
        other => panic!("expected a sensor response, got {:?}", other),
    }
    // not due again until two more seconds have passed
    assert!(!tbox.tick(2100));
}

#[test]
fn self_test_arms_and_reports_zero_progress() {
    let mut tbox = TestBox::new(0);
    let r = tbox.apply(Request::SetValue(RequestNoun::SelfTest, 1), 0);
    assert_eq!(self_test_of(&r), (true, 0));
    let r = tbox.apply(Request::Get(RequestNoun::SelfTest), 0);
    assert_eq!(self_test_of(&r), (true, 0));
}

#[test]
fn self_test_bad_value() {
    let mut tbox = TestBox::new(0);
    match tbox.apply(Request::SetValue(RequestNoun::SelfTest, 2), 0) {
        Response::Error(e) => assert_eq!(e.code(), "BAD_VALUE"),
        other => panic!("expected an error, got {:?}", other),
    }
}

#[test]
fn self_test_steps_drive_positioners() {
    let mut tbox = TestBox::new(0);
    tbox.apply(Request::SetValue(RequestNoun::SelfTest, 1), 0);
    // first step (all defaults) becomes due after 500 ms
    assert!(tbox.tick(501));
    let r = tbox.apply(Request::Get(RequestNoun::SelfTest), 501);
    assert_eq!(self_test_of(&r), (true, 20));
    // second step: red to max, the others to min
    assert!(tbox.tick(1002));
    assert_eq!(value_of(&tbox.apply(Request::Get(RequestNoun::RedLed), 1002)), 1023);
    assert_eq!(value_of(&tbox.apply(Request::Get(RequestNoun::YellowLed), 1002)), 0);
    assert_eq!(value_of(&tbox.apply(Request::Get(RequestNoun::GreenLed), 1002)), 0);
    assert_eq!(value_of(&tbox.apply(Request::Get(RequestNoun::Servo), 1002)), 0);
    let r = tbox.apply(Request::Get(RequestNoun::SelfTest), 1002);
    assert_eq!(self_test_of(&r), (true, 40));
}

#[test]
fn self_test_rearm_while_active_is_noop() {
    let mut tbox = TestBox::new(0);
    tbox.apply(Request::SetValue(RequestNoun::SelfTest, 1), 0);
    assert!(tbox.tick(501));
    // re-arming does not restart; it just reports current progress
    let r = tbox.apply(Request::SetValue(RequestNoun::SelfTest, 1), 501);
    assert_eq!(self_test_of(&r), (true, 20));
}

#[test]
fn self_test_stop_resets_immediately() {
    let mut tbox = TestBox::new(0);
    tbox.apply(Request::SetValue(RequestNoun::SelfTest, 1), 0);
    assert!(tbox.tick(501));
    let r = tbox.apply(Request::SetValue(RequestNoun::SelfTest, 0), 501);
    assert_eq!(self_test_of(&r), (false, 0));
    let r = tbox.apply(Request::Get(RequestNoun::SelfTest), 501);
    assert_eq!(self_test_of(&r), (false, 0));
}

#[test]
fn self_test_runs_to_completion() {
    let mut tbox = TestBox::new(0);
    tbox.apply(Request::SetValue(RequestNoun::SelfTest, 1), 0);
    assert!(tbox.tick(501));
    assert!(tbox.tick(1002));
    assert!(tbox.tick(1503));
    assert!(tbox.tick(2004));
    assert!(tbox.tick(2505));
    let r = tbox.apply(Request::Get(RequestNoun::SelfTest), 2505);
    assert_eq!(self_test_of(&r), (false, 0));
    // the final step returns every positioner to its default
    assert_eq!(value_of(&tbox.apply(Request::Get(RequestNoun::RedLed), 2505)), 0);
    assert_eq!(value_of(&tbox.apply(Request::Get(RequestNoun::Servo), 2505)), 90);
}

#[test]
fn end_to_end_session() {
    // connect, then: ID / SET SERVO 200 / GET SERVO, each answered in
    // order with the exact wire bytes
    let mut dec = FrameDecoder::new(256);
    let mut tbox = TestBox::new(0);
    let mut replies: Vec<Vec<u8>> = Vec::new();
    for chunk in [&b"ID\r\n"[..], &b"SET SERVO 200\r\n"[..], &b"GET SERVO\r\n"[..]] {
        for out in handle_chunk(&mut dec, chunk) {
            match out {
                LineOutcome::Forward(req) => {
                    let o = engine_step(&mut tbox, EngineEvent::ClientRequest(req), 0);
                    assert!(o.snapshot.is_some());
                    replies.push(o.response.expect("a request always gets a response").encode());
                },
                LineOutcome::Reply(bytes) => replies.push(bytes),
            }
        }
    }
    assert_eq!(
        replies,
        vec![
            b"OK ESP8266_WEMOS_D1MINI\r\n".to_vec(),
            b"OK 180\r\n".to_vec(),
            b"OK 180\r\n".to_vec(),
        ]
    );
}

#[test]
fn pipeline_replies_to_malformed_lines() {
    let mut dec = FrameDecoder::new(256);
    let outs = handle_chunk(&mut dec, b"FOO\r\nGET SERVO\r\n");
    assert_eq!(outs.len(), 2);
    match &outs[0] {
        LineOutcome::Reply(bytes) => assert_eq!(bytes, &b"ERR BAD_VERB\r\n".to_vec()),
        LineOutcome::Forward(req) => panic!("expected an error reply, got {:?}", req),
    }
    assert!(matches!(outs[1], LineOutcome::Forward(Request::Get(RequestNoun::Servo))));
}

#[test]
fn timer_tick_publishes_only_on_change() {
    let mut tbox = TestBox::new(0);
    let o = engine_step(&mut tbox, EngineEvent::TimerTick, 100);
    assert!(o.response.is_none());
    assert!(o.snapshot.is_none());
    let o = engine_step(&mut tbox, EngineEvent::TimerTick, 2100);
    assert!(o.response.is_none());
    let snap = o.snapshot.expect("the sensor refresh publishes a snapshot");
    assert!((2000..3000).contains(&snap.sensor.temperature));
    assert!((3000..7000).contains(&snap.sensor.humidity));
    assert_eq!(snap.servo.value, 90);
    assert!(!snap.self_test.active);
}
