use u2f_touch_detector::command::{Command, CommandKind, DecodeError, Status};
use u2f_touch_detector::message::{Assembler, AssemblyError, Message, ProtocolError};
use u2f_touch_detector::packet::{encode_message, Channel, Packet, MAX_MESSAGE_SIZE};

const CHANNEL: Channel = Channel([0x01, 0x02, 0x03, 0x04]);

fn payload_of(len: usize) -> Vec<u8> {
    (0..len).map(|i| (i * 7 + 3) as u8).collect()
}

fn init_report(channel: [u8; 4], command: u8, length: u16, payload: &[u8]) -> [u8; 64] {
    let mut r = [0u8; 64];
    r[..4].copy_from_slice(&channel);
    r[4] = command;
    r[5] = (length >> 8) as u8;
    r[6] = (length & 0xff) as u8;
    r[7..7 + payload.len()].copy_from_slice(payload);
    r
}

fn cont_report(channel: [u8; 4], sequence: u8, payload: &[u8]) -> [u8; 64] {
    let mut r = [0u8; 64];
    r[..4].copy_from_slice(&channel);
    r[4] = sequence;
    r[5..5 + payload.len()].copy_from_slice(payload);
    r
}

/// Feeds all reports; every one but the last must leave the message pending.
fn assemble(reports: &[[u8; 64]]) -> Result<Option<Message>, AssemblyError> {
    let mut assembler = Assembler::new();
    for (i, report) in reports.iter().enumerate() {
        let r = assembler.push(report);
        if i + 1 == reports.len() {
            return r;
        }
        assert!(matches!(r, Ok(None)), "report {i} ended the message early");
    }
    Ok(None)
}

fn round_trip(len: usize) {
    let payload = payload_of(len);
    let reports = encode_message(CHANNEL, 0x90, &payload);
    let expected_reports = if len <= 57 { 1 } else { 1 + (len - 57 + 58) / 59 };
    assert_eq!(reports.len(), expected_reports);
    match assemble(&reports) {
        Ok(Some(Message { channel, command: Command::Other { kind, payload: got } })) => {
            assert!(channel == CHANNEL);
            assert_eq!(kind, CommandKind::Cbor);
            assert_eq!(got.len(), len);
            assert_eq!(got, payload);
        }
        _ => panic!("no message for a payload of {len} bytes"),
    }
}

#[test]
fn round_trip_empty() {
    round_trip(0);
}

#[test]
fn round_trip_one_byte() {
    round_trip(1);
}

#[test]
fn round_trip_full_init() {
    round_trip(57);
}

#[test]
fn round_trip_one_continuation() {
    round_trip(58);
}

#[test]
fn round_trip_largest() {
    round_trip(127 * 57);
    assert_eq!(MAX_MESSAGE_SIZE, 7239);
}

#[test]
fn classify_init() {
    let r = init_report([9, 8, 7, 6], 0xbb, 0x0102, &[5, 4]);
    match Packet::classify(&r) {
        Packet::Init(init) => {
            assert!(init.channel == Channel([9, 8, 7, 6]));
            assert_eq!(init.command, 0xbb);
            assert_eq!(init.length, 258);
            assert_eq!(init.payload.len(), 57);
            assert_eq!(&init.payload[..3], &[5, 4, 0]);
        }
        Packet::Continuation(_) => panic!("top bit set must give an Init"),
    }
}

#[test]
fn classify_continuation() {
    let r = cont_report([9, 8, 7, 6], 0x7f, &[1, 2, 3]);
    match Packet::classify(&r) {
        Packet::Continuation(c) => {
            assert!(c.channel == Channel([9, 8, 7, 6]));
            assert_eq!(c.sequence, 0x7f);
            assert_eq!(c.payload.len(), 59);
            assert_eq!(&c.payload[..4], &[1, 2, 3, 0]);
        }
        Packet::Init(_) => panic!("top bit clear must give a Continuation"),
    }
}

#[test]
fn encode_sets_header_and_sequence() {
    let payload = payload_of(200);
    let reports = encode_message(CHANNEL, 0x83, &payload);
    assert_eq!(reports.len(), 4);
    assert_eq!(&reports[0][..7], &[1, 2, 3, 4, 0x83, 0, 200]);
    assert_eq!(&reports[0][7..], &payload[..57]);
    assert_eq!(reports[1][4], 0);
    assert_eq!(reports[2][4], 1);
    assert_eq!(reports[3][4], 2);
    assert_eq!(&reports[3][5..5 + 25], &payload[175..]);
    assert!(reports[3][30..].iter().all(|b| *b == 0));
}

#[test]
fn channel_mismatch_is_rejected() {
    let payload = payload_of(100);
    let mut reports = encode_message(CHANNEL, 0x90, &payload);
    reports[1][0] = 0xff;
    match assemble(&reports) {
        Err(AssemblyError::Protocol(ProtocolError::WrongChannel { expected, received })) => {
            assert!(expected == CHANNEL);
            assert!(received == Channel([0xff, 2, 3, 4]));
        }
        _ => panic!("a continuation on another channel must be refused"),
    }
}

#[test]
fn sequence_mismatch_is_rejected() {
    let payload = payload_of(200);
    let mut reports = encode_message(CHANNEL, 0x90, &payload);
    reports[2][4] = 5;
    match assemble(&reports[..3]) {
        Err(AssemblyError::Protocol(ProtocolError::WrongSequence { expected, received })) => {
            assert_eq!(expected, 1);
            assert_eq!(received, 5);
        }
        _ => panic!("a continuation out of sequence must be refused"),
    }
}

#[test]
fn oversized_length_is_rejected_at_once() {
    let mut assembler = Assembler::new();
    let r = init_report([1, 2, 3, 4], 0x90, 127 * 57 + 1, &[]);
    match assembler.push(&r) {
        Err(AssemblyError::Protocol(ProtocolError::LengthTooLarge { length })) => {
            assert_eq!(length, 7240)
        }
        _ => panic!("an oversized init must be refused"),
    }
    // Nothing is in progress afterwards: a continuation is noise.
    assert!(matches!(assembler.push(&cont_report([1, 2, 3, 4], 0, &[])), Ok(None)));
}

#[test]
fn init_before_complete_is_rejected() {
    let mut assembler = Assembler::new();
    assert!(matches!(assembler.push(&init_report([1, 2, 3, 4], 0x90, 100, &[])), Ok(None)));
    match assembler.push(&init_report([1, 2, 3, 4], 0x90, 1, &[1])) {
        Err(AssemblyError::Protocol(ProtocolError::InitBeforeComplete)) => {}
        _ => panic!("an init in the middle of a message must be refused"),
    }
}

#[test]
fn stray_continuation_is_skipped() {
    let mut assembler = Assembler::new();
    assert!(matches!(assembler.push(&cont_report([1, 2, 3, 4], 3, &[9])), Ok(None)));
    match assembler.push(&init_report([5, 6, 7, 8], 0xbb, 1, &[2])) {
        Ok(Some(Message { channel, command: Command::KeepAlive(Status::UserPresenceNeeded) })) => {
            assert!(channel == Channel([5, 6, 7, 8]))
        }
        _ => panic!("the init after the noise must give its message"),
    }
}

#[test]
fn keepalive_without_status_fails_to_decode() {
    let mut assembler = Assembler::new();
    match assembler.push(&init_report([1, 2, 3, 4], 0xbb, 0, &[])) {
        Err(AssemblyError::Decode(DecodeError::MissingStatus)) => {}
        _ => panic!("a keep-alive needs its status byte"),
    }
}

#[test]
fn abandon_drops_message_in_progress() {
    let mut assembler = Assembler::new();
    assert!(matches!(assembler.push(&init_report([1, 2, 3, 4], 0x90, 100, &[])), Ok(None)));
    assembler.abandon();
    // The continuation that would have completed it is now noise.
    assert!(matches!(assembler.push(&cont_report([1, 2, 3, 4], 0, &[])), Ok(None)));
}

#[test]
fn command_kinds_from_bytes() {
    let known = [
        (0xbb, CommandKind::KeepAlive),
        (0x83, CommandKind::Msg),
        (0x90, CommandKind::Cbor),
        (0x86, CommandKind::Init),
        (0x81, CommandKind::Ping),
        (0x91, CommandKind::Cancel),
        (0xbf, CommandKind::Error),
        (0x88, CommandKind::Wink),
        (0x84, CommandKind::Lock),
        (0xc0, CommandKind::Unknown(0xc0)),
    ];
    for (b, kind) in known {
        assert_eq!(CommandKind::from(b), kind);
    }
}

#[test]
fn statuses_from_bytes() {
    assert_eq!(Status::from(1), Status::Processing);
    assert_eq!(Status::from(2), Status::UserPresenceNeeded);
    assert_eq!(Status::from(0), Status::Unknown(0));
    assert_eq!(Status::from(3), Status::Unknown(3));
}

#[test]
fn decode_keeps_other_payloads() {
    match Command::decode(CommandKind::Msg, vec![1, 2, 3]) {
        Ok(Command::Other { kind, payload }) => {
            assert_eq!(kind, CommandKind::Msg);
            assert_eq!(payload, vec![1, 2, 3]);
        }
        _ => panic!("other kinds pass their payload through"),
    }
    assert!(matches!(
        Command::decode(CommandKind::KeepAlive, vec![1, 9]),
        Ok(Command::KeepAlive(Status::Processing))
    ));
    assert!(matches!(
        Command::decode(CommandKind::KeepAlive, vec![]),
        Err(DecodeError::MissingStatus)
    ));
}

#[test]
fn channel_hex() {
    assert_eq!(Channel([0x01, 0xab, 0x00, 0xff]).to_hex(), "01ab00ff");
}
