use u2f_touch_detector::command::{Command, CommandKind, Status};
use u2f_touch_detector::device::{is_fido_device, ReadEvent, Reader, ReaderError, TouchEvent};
use u2f_touch_detector::message::Message;
use u2f_touch_detector::packet::{encode_message, Channel};
use u2f_touch_detector::touch::{TouchState, HYSTERESIS_MS};

const A: Channel = Channel([0, 0, 0, 1]);
const B: Channel = Channel([0, 0, 0, 2]);

fn keepalive(channel: Channel, status: Status) -> Message {
    Message { channel, command: Command::KeepAlive(status) }
}

fn cbor(channel: Channel) -> Message {
    Message { channel, command: Command::Other { kind: CommandKind::Cbor, payload: vec![0] } }
}

fn report(channel: Channel, command: u8, payload: &[u8]) -> ReadEvent {
    let reports = encode_message(channel, command, &payload.to_vec());
    assert_eq!(reports.len(), 1);
    ReadEvent::Report(reports[0])
}

#[test]
fn hysteresis_open() {
    let mut s = TouchState::new();
    assert_eq!(s.on_message(&keepalive(A, Status::UserPresenceNeeded), 0), Some(true));
    assert!(s.is_needed());
    assert_eq!(s.deadline, Some(HYSTERESIS_MS));
}

#[test]
fn hysteresis_extension() {
    let mut s = TouchState::new();
    assert_eq!(s.on_message(&keepalive(A, Status::UserPresenceNeeded), 0), Some(true));
    assert_eq!(s.on_message(&keepalive(A, Status::Processing), 200), None);
    assert_eq!(s.on_silence(400), None);
    assert_eq!(s.on_silence(599), None);
    assert_eq!(s.on_silence(600), Some(false));
    assert!(!s.is_needed());
}

#[test]
fn processing_on_other_channel_does_not_extend() {
    let mut s = TouchState::new();
    s.on_message(&keepalive(A, Status::UserPresenceNeeded), 0);
    assert_eq!(s.on_message(&keepalive(B, Status::Processing), 200), None);
    assert_eq!(s.on_silence(400), Some(false));
}

#[test]
fn processing_while_idle_is_ignored() {
    let mut s = TouchState::new();
    assert_eq!(s.on_message(&keepalive(A, Status::Processing), 10), None);
    assert_eq!(s.deadline, None);
    assert_eq!(s.on_message(&keepalive(A, Status::Unknown(7)), 10), None);
    assert_eq!(s.on_message(&cbor(A), 10), None);
}

#[test]
fn hysteresis_idempotence() {
    let mut s = TouchState::new();
    assert_eq!(s.on_message(&keepalive(A, Status::UserPresenceNeeded), 0), Some(true));
    for t in 1..10u64 {
        assert_eq!(s.on_message(&keepalive(A, Status::UserPresenceNeeded), t * 100), None);
    }
    assert_eq!(s.deadline, Some(900 + HYSTERESIS_MS));
}

#[test]
fn immediate_clear_on_response() {
    let mut s = TouchState::new();
    assert_eq!(s.on_message(&keepalive(A, Status::UserPresenceNeeded), 0), Some(true));
    assert_eq!(s.on_message(&cbor(B), 1), Some(false));
    assert_eq!(s.deadline, None);
    assert_eq!(s.on_silence(1000), None);
}

#[test]
fn deadline_saturates() {
    let mut s = TouchState::new();
    s.on_message(&keepalive(A, Status::UserPresenceNeeded), u64::MAX - 1);
    assert_eq!(s.deadline, Some(u64::MAX));
}

#[test]
fn edges_alternate() {
    let mut s = TouchState::new();
    let mut edges = Vec::new();
    let steps: Vec<(u64, Option<Message>)> = vec![
        (0, Some(keepalive(A, Status::UserPresenceNeeded))),
        (100, Some(keepalive(A, Status::UserPresenceNeeded))),
        (600, None),
        (700, Some(cbor(A))),
        (800, Some(keepalive(A, Status::UserPresenceNeeded))),
        (900, Some(cbor(A))),
        (1000, None),
    ];
    for (now, m) in steps {
        let e = match m {
            Some(m) => s.on_message(&m, now),
            None => s.on_silence(now),
        };
        edges.extend(e);
    }
    assert_eq!(edges, vec![true, false, true, false]);
}

fn event(r: Result<Option<TouchEvent>, ReaderError>) -> Option<(String, bool)> {
    match r {
        Ok(e) => e.map(|e| (e.serial, e.needed)),
        Err(e) => panic!("reader stopped: {e:?}"),
    }
}

#[test]
fn reader_publishes_edges() {
    let mut reader = Reader::new("KEY1".to_string());
    assert_eq!(reader.read_timeout(0), None);
    let r = reader.handle(report(A, 0xbb, &[2]), 0);
    assert_eq!(event(r), Some(("KEY1".to_string(), true)));
    assert_eq!(reader.read_timeout(100), Some(300));
    assert_eq!(event(reader.handle(ReadEvent::Timeout, 300)), None);
    assert_eq!(event(reader.handle(ReadEvent::Timeout, 400)), Some(("KEY1".to_string(), false)));
    assert_eq!(reader.read_timeout(500), None);
}

#[test]
fn reader_stops_on_protocol_error() {
    let mut reader = Reader::new("KEY1".to_string());
    let payload: Vec<u8> = (0..100u8).collect();
    let reports = encode_message(A, 0x90, &payload);
    assert!(matches!(reader.handle(ReadEvent::Report(reports[0]), 0), Ok(None)));
    let mut bad = reports[1];
    bad[4] = 3;
    assert!(matches!(reader.handle(ReadEvent::Report(bad), 0), Err(ReaderError::Assembly(_))));
}

#[test]
fn device_isolation() {
    let mut a = Reader::new("A".to_string());
    let mut b = Reader::new("B".to_string());
    assert_eq!(event(a.handle(report(A, 0xbb, &[2]), 0)), Some(("A".to_string(), true)));
    assert_eq!(event(b.handle(report(B, 0xbb, &[2]), 0)), Some(("B".to_string(), true)));
    assert!(matches!(a.handle(ReadEvent::Failed, 10), Err(ReaderError::Io)));
    assert_eq!(event(b.handle(report(B, 0xbb, &[1]), 100)), None);
    assert_eq!(event(b.handle(report(B, 0x90, &[0]), 200)), Some(("B".to_string(), false)));
    assert_eq!(event(b.handle(report(B, 0xbb, &[2]), 300)), Some(("B".to_string(), true)));
}

#[test]
fn read_results_become_events() {
    let buffer = [7u8; 64];
    assert!(matches!(ReadEvent::from_read(0, buffer), ReadEvent::Timeout));
    assert!(matches!(ReadEvent::from_read(64, buffer), ReadEvent::Report(r) if r == buffer));
    assert!(matches!(ReadEvent::from_read(12, buffer), ReadEvent::Failed));
}

#[test]
fn fido_usage_filter() {
    assert!(is_fido_device(0xf1d0, 0x01));
    assert!(!is_fido_device(0xf1d0, 0x02));
    assert!(!is_fido_device(0x0001, 0x01));
}
