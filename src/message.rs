//! Reassembly of one message from an Init packet and its Continuations.
use vstd::prelude::*;

use crate::command::{decodable, kind_of, Command, CommandKind, DecodeError};
use crate::packet::{
    cont_count, cont_payload, cont_report, declared_length, fragment, fragment_start, init_payload,
    init_report, is_init_report, message_reports, padded, report_channel, Channel, Packet,
    MAX_MESSAGE_SIZE,
};

verus! {

/// A complete message.
pub struct Message {
    pub channel: Channel,
    pub command: Command,
}

impl Message {
    /// Decodes the command of a reassembled message.
    pub fn decode(channel: Channel, kind: CommandKind, payload: Vec<u8>) -> (r: Result<
        Message,
        DecodeError,
    >)
        ensures
            r is Ok <==> decodable(kind, payload@),
            r matches Ok(m) ==> m.channel@ == channel@ && m.command.decodes_from(kind, payload@),
            r matches Err(e) ==> e == DecodeError::MissingStatus,
    {
        match Command::decode(kind, payload) {
            Ok(command) => Ok(Message { channel, command }),
            Err(e) => Err(e),
        }
    }
}

/// A report that breaks the framing rules.
#[derive(Clone, Copy, Debug)]
pub enum ProtocolError {
    /// An Init declared more than the largest message size.
    LengthTooLarge { length: u16 },
    /// An Init arrived before the message in progress was complete.
    InitBeforeComplete,
    /// A Continuation came on another channel than its Init.
    WrongChannel { expected: Channel, received: Channel },
    /// A Continuation came out of sequence.
    WrongSequence { expected: u8, received: u8 },
}

/// Why no message could be assembled.
#[derive(Clone, Copy, Debug)]
pub enum AssemblyError {
    Protocol(ProtocolError),
    Decode(DecodeError),
}

/// A message in progress: what its Init declared and the payload bytes
/// received so far.
pub struct Progress {
    pub channel: Seq<u8>,
    pub command: u8,
    pub length: nat,
    pub received: Seq<u8>,
    /// Number of Continuations consumed so far.
    pub sequence: nat,
}

/// What one report does to the message in progress.
pub enum Outcome {
    /// The message needs more reports.
    Pending,
    /// The message is complete.
    Complete { channel: Seq<u8>, command: u8, payload: Seq<u8> },
    LengthTooLarge { length: nat },
    InitBeforeComplete,
    WrongChannel { expected: Seq<u8>, received: Seq<u8> },
    WrongSequence { expected: nat, received: u8 },
}

impl ProtocolError {
    /// The outcome that this error reports.
    pub open spec fn outcome(self) -> Outcome {
        match self {
            ProtocolError::LengthTooLarge { length } => Outcome::LengthTooLarge {
                length: length as nat,
            },
            ProtocolError::InitBeforeComplete => Outcome::InitBeforeComplete,
            ProtocolError::WrongChannel { expected, received } => Outcome::WrongChannel {
                expected: expected@,
                received: received@,
            },
            ProtocolError::WrongSequence { expected, received } => Outcome::WrongSequence {
                expected: expected as nat,
                received,
            },
        }
    }
}

/// Feeds one report to the message in progress, if any: the next state and
/// the outcome.
pub open spec fn step(s: Option<Progress>, r: Seq<u8>) -> (Option<Progress>, Outcome) {
    match s {
        None => {
            if !is_init_report(r) {
                (None, Outcome::Pending)
            } else if declared_length(r) > MAX_MESSAGE_SIZE {
                (None, Outcome::LengthTooLarge { length: declared_length(r) })
            } else if declared_length(r) <= 57 {
                (
                    None,
                    Outcome::Complete {
                        channel: report_channel(r),
                        command: r[4],
                        payload: init_payload(r).take(declared_length(r) as int),
                    },
                )
            } else {
                (
                    Some(
                        Progress {
                            channel: report_channel(r),
                            command: r[4],
                            length: declared_length(r),
                            received: init_payload(r),
                            sequence: 0,
                        },
                    ),
                    Outcome::Pending,
                )
            }
        },
        Some(p) => {
            if is_init_report(r) {
                (None, Outcome::InitBeforeComplete)
            } else if report_channel(r) != p.channel {
                (None, Outcome::WrongChannel { expected: p.channel, received: report_channel(r) })
            } else if r[4] as nat != p.sequence {
                (None, Outcome::WrongSequence { expected: p.sequence, received: r[4] })
            } else {
                let received = p.received + cont_payload(r);
                if received.len() >= p.length {
                    (
                        None,
                        Outcome::Complete {
                            channel: p.channel,
                            command: p.command,
                            payload: received.take(p.length as int),
                        },
                    )
                } else {
                    (
                        Some(
                            Progress {
                                channel: p.channel,
                                command: p.command,
                                length: p.length,
                                received,
                                sequence: p.sequence + 1,
                            },
                        ),
                        Outcome::Pending,
                    )
                }
            }
        },
    }
}

/// `r` is what an assembler returns for the outcome `o`: nothing yet, the
/// decoded message, or the error.
pub open spec fn delivers(r: Result<Option<Message>, AssemblyError>, o: Outcome) -> bool {
    match o {
        Outcome::Pending => r matches Ok(None),
        Outcome::Complete { channel, command, payload } => if decodable(kind_of(command), payload) {
            r matches Ok(Some(m)) && m.channel@ == channel && m.command.decodes_from(
                kind_of(command),
                payload,
            )
        } else {
            r matches Err(AssemblyError::Decode(e)) && e == DecodeError::MissingStatus
        },
        _ => r matches Err(AssemblyError::Protocol(e)) && e.outcome() == o,
    }
}

struct Partial {
    channel: Channel,
    command: u8,
    length: usize,
    received: Vec<u8>,
    sequence: u8,
}

/// Reassembles messages from the reports of one device, one report at a
/// time.
pub struct Assembler {
    partial: Option<Partial>,
}

impl View for Assembler {
    type V = Option<Progress>;

    closed spec fn view(&self) -> Option<Progress> {
        match self.partial {
            None => None,
            Some(p) => Some(
                Progress {
                    channel: p.channel@,
                    command: p.command,
                    length: p.length as nat,
                    received: p.received@,
                    sequence: p.sequence as nat,
                },
            ),
        }
    }
}

impl Assembler {
    /// The message in progress keeps within the largest message size, and
    /// holds one full Init payload plus one full payload per Continuation.
    pub closed spec fn wf(&self) -> bool {
        match self.partial {
            None => true,
            Some(p) => {
                &&& p.length <= MAX_MESSAGE_SIZE
                &&& p.received@.len() == 57 + 59 * p.sequence
                &&& p.received@.len() < p.length
            },
        }
    }

    /// An assembler with no message in progress.
    pub fn new() -> (r: Assembler)
        ensures
            r.wf(),
            r@ is None,
    {
        Assembler { partial: None }
    }

    /// Drops the message in progress: the device fell silent before it was
    /// complete.
    pub fn abandon(&mut self)
        ensures
            final(self).wf(),
            final(self)@ is None,
    {
        self.partial = None;
    }

    /// Feeds one report: `Ok(None)` while the message needs more reports,
    /// the message once it is complete, or the error that ends it.
    pub fn push(&mut self, report: &[u8; 64]) -> (r: Result<Option<Message>, AssemblyError>)
        requires
            old(self).wf(),
        ensures
            final(self).wf(),
            final(self)@ == step(old(self)@, report@).0,
            delivers(r, step(old(self)@, report@).1),
    {
        let packet = Packet::classify(report);
        match self.partial.take() {
            None => match packet {
                Packet::Continuation(_) => Ok(None),
                Packet::Init(init) => {
                    let length = init.length as usize;
                    if length > MAX_MESSAGE_SIZE {
                        Err(AssemblyError::Protocol(ProtocolError::LengthTooLarge { length: init.length }))
                    } else if length <= 57 {
                        let mut payload = init.payload;
                        payload.truncate(length);
                        finish(init.channel, init.command, payload)
                    } else {
                        self.partial = Some(
                            Partial {
                                channel: init.channel,
                                command: init.command,
                                length,
                                received: init.payload,
                                sequence: 0,
                            },
                        );
                        Ok(None)
                    }
                },
            },
            Some(p) => match packet {
                Packet::Init(_) => Err(AssemblyError::Protocol(ProtocolError::InitBeforeComplete)),
                Packet::Continuation(c) => {
                    if !(c.channel == p.channel) {
                        Err(
                            AssemblyError::Protocol(
                                ProtocolError::WrongChannel {
                                    expected: p.channel,
                                    received: c.channel,
                                },
                            ),
                        )
                    } else if c.sequence != p.sequence {
                        Err(
                            AssemblyError::Protocol(
                                ProtocolError::WrongSequence {
                                    expected: p.sequence,
                                    received: c.sequence,
                                },
                            ),
                        )
                    } else {
                        let mut received = p.received;
                        let mut more = c.payload;
                        received.append(&mut more);
                        if received.len() >= p.length {
                            received.truncate(p.length);
                            finish(p.channel, p.command, received)
                        } else {
                            assert(p.sequence < 122) by (nonlinear_arith)
                                requires
                                    57 + 59 * (p.sequence as int) < p.length,
                                    p.length <= 127 * 57,
                            ;
                            self.partial = Some(
                                Partial {
                                    channel: p.channel,
                                    command: p.command,
                                    length: p.length,
                                    received,
                                    sequence: p.sequence + 1,
                                },
                            );
                            Ok(None)
                        }
                    }
                },
            },
        }
    }
}

/// Decodes a complete message.
fn finish(channel: Channel, command: u8, payload: Vec<u8>) -> (r: Result<
    Option<Message>,
    AssemblyError,
>)
    ensures
        delivers(r, Outcome::Complete { channel: channel@, command, payload: payload@ }),
{
    match Message::decode(channel, CommandKind::from(command), payload) {
        Ok(m) => Ok(Some(m)),
        Err(e) => Err(AssemblyError::Decode(e)),
    }
}

/// Feeds reports in order until one completes or ends the message: the
/// state and the outcome of the last report fed.
pub open spec fn feed(s: Option<Progress>, reports: Seq<Seq<u8>>) -> (Option<Progress>, Outcome)
    decreases reports.len(),
{
    if reports.len() == 0 {
        (s, Outcome::Pending)
    } else {
        let (next, o) = step(s, reports[0]);
        if o is Pending {
            feed(next, reports.drop_first())
        } else {
            (next, o)
        }
    }
}

proof fn lemma_cont_count(len: nat)
    requires
        57 < len <= MAX_MESSAGE_SIZE,
    ensures
        59 * cont_count(len) <= len - 57 + 58,
        59 * cont_count(len) >= len - 57,
        cont_count(len) <= 122,
{
    let m: int = len - 57 + 58;
    vstd::arithmetic::div_mod::lemma_fundamental_div_mod(m, 59);
    assert(0 <= m % 59 < 59);
}

proof fn lemma_init_report(channel: Seq<u8>, command: u8, payload: Seq<u8>)
    requires
        channel.len() == 4,
        command >= 0x80,
        payload.len() <= MAX_MESSAGE_SIZE,
    ensures
        ({
            let r = init_report(channel, command, payload);
            &&& r.len() == 64
            &&& is_init_report(r)
            &&& report_channel(r) == channel
            &&& r[4] == command
            &&& declared_length(r) == payload.len()
            &&& payload.len() <= 57 ==> init_payload(r).take(payload.len() as int) == payload
            &&& payload.len() > 57 ==> init_payload(r) == payload.take(57)
        }),
{
    let r = init_report(channel, command, payload);
    let len = payload.len() as int;
    vstd::arithmetic::div_mod::lemma_fundamental_div_mod(len, 256);
    assert(len / 256 < 256);
    assert(r[5] as int == len / 256);
    assert(r[6] as int == len % 256);
    assert(report_channel(r) =~= channel);
    if len <= 57 {
        assert(init_payload(r).take(len) =~= payload);
    } else {
        assert(init_payload(r) =~= payload.take(57));
    }
}

/// The message in progress after its Init and `k` Continuations.
pub open spec fn progress_after(channel: Seq<u8>, command: u8, payload: Seq<u8>, k: nat) -> Progress {
    Progress {
        channel,
        command,
        length: payload.len(),
        received: payload.take(fragment_start(k) as int),
        sequence: k,
    }
}

proof fn lemma_continuations(channel: Seq<u8>, command: u8, payload: Seq<u8>, k: nat)
    requires
        channel.len() == 4,
        57 < payload.len() <= MAX_MESSAGE_SIZE,
        k < cont_count(payload.len()),
    ensures
        feed(
            Some(progress_after(channel, command, payload, k)),
            message_reports(channel, command, payload).subrange(
                k + 1 as int,
                cont_count(payload.len()) + 1 as int,
            ),
        ) == (None::<Progress>, Outcome::Complete { channel, command, payload }),
    decreases cont_count(payload.len()) - k,
{
    let len = payload.len();
    let n = cont_count(len);
    let all = message_reports(channel, command, payload);
    let rest = all.subrange(k + 1 as int, n + 1 as int);
    lemma_cont_count(len);
    assert(57 + 59 * k < len) by (nonlinear_arith)
        requires
            k < n,
            59 * n <= len - 57 + 58,
    ;
    let r = rest[0];
    assert(r == cont_report(channel, k as u8, fragment(payload, k)));
    let start = fragment_start(k);
    let frag = fragment(payload, k);
    assert(r.len() == 64);
    assert(r[4] == k as u8);
    assert(report_channel(r) =~= channel);
    assert(cont_payload(r) =~= padded(frag, 59));
    let p = progress_after(channel, command, payload, k);
    let received = p.received + cont_payload(r);
    assert(received.len() == start + 59);
    if start + 59 >= len {
        assert(received.take(len as int) =~= payload);
    } else {
        assert(received =~= payload.take(fragment_start(k + 1) as int));
        assert(k + 1 < n) by (nonlinear_arith)
            requires
                57 + 59 * (k + 1) < len,
                59 * n >= len - 57,
        ;
        assert(rest.drop_first() =~= all.subrange(k + 2 as int, n + 1 as int));
        lemma_continuations(channel, command, payload, k + 1);
    }
}

/// Round trip: the reports that carry a message, fed in order to an
/// assembler with no message in progress, give back that message, its
/// payload byte for byte.
pub proof fn lemma_round_trip(channel: Seq<u8>, command: u8, payload: Seq<u8>)
    requires
        channel.len() == 4,
        command >= 0x80,
        payload.len() <= MAX_MESSAGE_SIZE,
    ensures
        feed(None, message_reports(channel, command, payload)) == (
            None::<Progress>,
            Outcome::Complete { channel, command, payload },
        ),
{
    let all = message_reports(channel, command, payload);
    let len = payload.len();
    lemma_init_report(channel, command, payload);
    assert(all[0] == init_report(channel, command, payload));
    if len > 57 {
        lemma_cont_count(len);
        assert(cont_count(len) > 0);
        assert(all.drop_first() =~= all.subrange(1, cont_count(len) + 1 as int));
        assert(payload.take(57) =~= payload.take(fragment_start(0) as int));
        lemma_continuations(channel, command, payload, 0);
    }
}

/// A Continuation on another channel than the message in progress ends the
/// message with a protocol error, and no message is returned.
pub proof fn lemma_channel_mismatch(p: Progress, r: Seq<u8>)
    requires
        r.len() == 64,
        !is_init_report(r),
        report_channel(r) != p.channel,
    ensures
        step(Some(p), r) == (
            None::<Progress>,
            Outcome::WrongChannel { expected: p.channel, received: report_channel(r) },
        ),
{
}

/// A Continuation on the right channel whose sequence number is not the
/// number of Continuations consumed so far ends the message with a protocol
/// error.
pub proof fn lemma_sequence_mismatch(p: Progress, r: Seq<u8>)
    requires
        r.len() == 64,
        !is_init_report(r),
        report_channel(r) == p.channel,
        r[4] as nat != p.sequence,
    ensures
        step(Some(p), r) == (
            None::<Progress>,
            Outcome::WrongSequence { expected: p.sequence, received: r[4] },
        ),
{
}

/// An Init that declares more than the largest message size is refused at
/// once: no Continuation is read after it.
pub proof fn lemma_length_too_large(r: Seq<u8>, rest: Seq<Seq<u8>>)
    requires
        r.len() == 64,
        is_init_report(r),
        declared_length(r) > MAX_MESSAGE_SIZE,
    ensures
        step(None, r) == (None::<Progress>, Outcome::LengthTooLarge { length: declared_length(r) }),
        feed(None, seq![r] + rest) == (
            None::<Progress>,
            Outcome::LengthTooLarge { length: declared_length(r) },
        ),
{
    assert((seq![r] + rest)[0] == r);
}

} // verus!
