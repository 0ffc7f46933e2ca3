//! Framing of fixed-size HID reports into Init and Continuation packets.
use vstd::prelude::*;

verus! {

/// Size of one HID report.
pub const REPORT_SIZE: usize = 64;

/// Bytes of payload that an Init packet carries.
pub const INIT_PAYLOAD_SIZE: usize = 57;

/// Bytes of payload that a Continuation packet carries.
pub const CONT_PAYLOAD_SIZE: usize = 59;

/// Largest payload that one message may declare.
pub const MAX_MESSAGE_SIZE: usize = 127 * 57;

/// Four-byte channel identifier, compared for equality only.
#[derive(Clone, Copy, Debug)]
pub struct Channel(pub [u8; 4]);

impl View for Channel {
    type V = Seq<u8>;

    open spec fn view(&self) -> Seq<u8> {
        self.0@
    }
}

/// The lowercase hexadecimal digit of a value below 16.
pub open spec fn hex_digit(n: u8) -> char {
    if n < 10 {
        (n + 48) as char
    } else {
        (n + 87) as char
    }
}

/// Two lowercase hexadecimal digits per byte, high half first.
pub open spec fn hex_of(bytes: Seq<u8>) -> Seq<char>
    decreases bytes.len(),
{
    if bytes.len() == 0 {
        Seq::empty()
    } else {
        seq![hex_digit(bytes[0] / 16), hex_digit(bytes[0] % 16)] + hex_of(bytes.drop_first())
    }
}

/// Relies on hex::encode: it writes two lowercase hexadecimal digits per
/// byte, high half first.
#[verifier::external_body]
fn encode_hex(bytes: &[u8]) -> (r: String)
    ensures
        r@ == hex_of(bytes@),
{
    hex::encode(bytes)
}

impl Channel {
    /// The channel as eight hexadecimal digits, for logs.
    pub fn to_hex(&self) -> (r: String)
        ensures
            r@ == hex_of(self@),
    {
        encode_hex(self.0.as_slice())
    }
}

impl PartialEq for Channel {
    fn eq(&self, o: &Channel) -> (r: bool) {
        let r = self.0[0] == o.0[0] && self.0[1] == o.0[1] && self.0[2] == o.0[2] && self.0[3]
            == o.0[3];
        proof {
            if r {
                assert(self.0@ =~= o.0@);
            }
        }
        r
    }
}

impl vstd::std_specs::cmp::PartialEqSpecImpl for Channel {
    open spec fn obeys_eq_spec() -> bool {
        true
    }

    open spec fn eq_spec(&self, o: &Channel) -> bool {
        self@ == o@
    }
}

/// Packet that opens a message.
pub struct Init {
    pub channel: Channel,
    /// Command byte, top bit set.
    pub command: u8,
    /// Declared length of the whole message payload.
    pub length: u16,
    pub payload: Vec<u8>,
}

/// Packet that carries the next part of a message.
pub struct Continuation {
    pub channel: Channel,
    /// Sequence number, top bit clear.
    pub sequence: u8,
    pub payload: Vec<u8>,
}

/// One HID report, classified.
pub enum Packet {
    Init(Init),
    Continuation(Continuation),
}

/// Whether the report opens a message: the top bit of byte 4 is set.
pub open spec fn is_init_report(r: Seq<u8>) -> bool {
    r[4] >= 0x80
}

/// The channel bytes of a report.
pub open spec fn report_channel(r: Seq<u8>) -> Seq<u8> {
    r.subrange(0, 4)
}

/// A big-endian 16-bit value.
pub open spec fn be_u16(hi: u8, lo: u8) -> nat {
    hi as nat * 256 + lo as nat
}

/// The length that an Init report declares.
pub open spec fn declared_length(r: Seq<u8>) -> nat {
    be_u16(r[5], r[6])
}

/// The payload bytes of an Init report.
pub open spec fn init_payload(r: Seq<u8>) -> Seq<u8> {
    r.subrange(7, 64)
}

/// The payload bytes of a Continuation report.
pub open spec fn cont_payload(r: Seq<u8>) -> Seq<u8> {
    r.subrange(5, 64)
}

impl Packet {
    /// The packet reads exactly the fields of the report `r`.
    pub open spec fn decodes(self, r: Seq<u8>) -> bool {
        match self {
            Packet::Init(i) => {
                &&& is_init_report(r)
                &&& i.channel@ == report_channel(r)
                &&& i.command == r[4]
                &&& i.length as nat == declared_length(r)
                &&& i.payload@ == init_payload(r)
            },
            Packet::Continuation(c) => {
                &&& !is_init_report(r)
                &&& c.channel@ == report_channel(r)
                &&& c.sequence == r[4]
                &&& c.payload@ == cont_payload(r)
            },
        }
    }

    /// Classifies a report by the top bit of its command-or-sequence byte.
    pub fn classify(report: &[u8; 64]) -> (p: Packet)
        ensures
            p.decodes(report@),
    {
        let channel = Channel([report[0], report[1], report[2], report[3]]);
        assert(channel@ =~= report_channel(report@));
        if report[4] < 0x80 {
            Packet::Continuation(
                Continuation { channel, sequence: report[4], payload: copy_range(report, 5, 64) },
            )
        } else {
            let length = (report[5] as u16) * 256 + report[6] as u16;
            Packet::Init(
                Init {
                    channel,
                    command: report[4],
                    length,
                    payload: copy_range(report, 7, 64),
                },
            )
        }
    }
}

fn copy_range(report: &[u8; 64], start: usize, end: usize) -> (v: Vec<u8>)
    requires
        start <= end <= 64,
    ensures
        v@ == report@.subrange(start as int, end as int),
{
    let mut v: Vec<u8> = Vec::new();
    let mut i: usize = start;
    while i < end
        invariant
            start <= i <= end <= 64,
            v@ == report@.subrange(start as int, i as int),
        decreases end - i,
    {
        v.push(report[i]);
        assert(v@ =~= report@.subrange(start as int, i + 1));
        i += 1;
    }
    v
}

/// Number of Continuation packets that a payload of `len` bytes needs.
pub open spec fn cont_count(len: nat) -> nat {
    if len <= 57 {
        0
    } else {
        ((len - 57) as nat + 58) / 59
    }
}

/// `s` followed by zeros up to `n` bytes.
pub open spec fn padded(s: Seq<u8>, n: nat) -> Seq<u8> {
    s + Seq::new((n - s.len()) as nat, |_i: int| 0u8)
}

/// Where the part of a payload that Continuation `i` carries starts.
pub open spec fn fragment_start(i: nat) -> nat {
    57 + 59 * i
}

/// The part of `payload` that Continuation `i` carries.
pub open spec fn fragment(payload: Seq<u8>, i: nat) -> Seq<u8> {
    let start = fragment_start(i);
    let end = if start + 59 < payload.len() {
        start + 59
    } else {
        payload.len()
    };
    payload.subrange(start as int, end as int)
}

/// The Init report of a message.
pub open spec fn init_report(channel: Seq<u8>, command: u8, payload: Seq<u8>) -> Seq<u8> {
    let first = if payload.len() < 57 {
        payload
    } else {
        payload.take(57)
    };
    channel + seq![command, (payload.len() / 256) as u8, (payload.len() % 256) as u8] + padded(
        first,
        57,
    )
}

/// A Continuation report.
pub open spec fn cont_report(channel: Seq<u8>, sequence: u8, chunk: Seq<u8>) -> Seq<u8> {
    channel + seq![sequence] + padded(chunk, 59)
}

/// The reports that carry a message: one Init, then Continuations
/// numbered from 0.
pub open spec fn message_reports(channel: Seq<u8>, command: u8, payload: Seq<u8>) -> Seq<
    Seq<u8>,
> {
    seq![init_report(channel, command, payload)] + Seq::new(
        cont_count(payload.len()),
        |i: int| cont_report(channel, i as u8, fragment(payload, i as nat)),
    )
}

proof fn lemma_fragment_bounds(len: nat, k: nat)
    requires
        k < cont_count(len),
    ensures
        fragment_start(k) < len,
        57 + 59 * k < len,
{
    let n = cont_count(len);
    assert(len > 57);
    assert(59 * (k + 1) <= 59 * n) by (nonlinear_arith)
        requires
            k + 1 <= n,
    ;
    assert(59 * n <= (len - 57) as nat + 58) by (nonlinear_arith)
        requires
            n == ((len - 57) as nat + 58) / 59,
    ;
}

/// Writes `payload[start..end]` into `a` at `at`, keeping the other bytes.
fn write_chunk(a: &mut [u8; 64], at: usize, payload: &Vec<u8>, start: usize, end: usize)
    requires
        start <= end <= payload@.len(),
        at + (end - start) <= 64,
    ensures
        final(a)@ == old(a)@.subrange(0, at as int) + payload@.subrange(start as int, end as int)
            + old(a)@.subrange(at + (end - start), 64),
{
    let ghost a0 = a@;
    let mut j: usize = start;
    while j < end
        invariant
            start <= j <= end <= payload@.len(),
            at + (end - start) <= 64,
            a@.len() == 64,
            a0.len() == 64,
            a@ =~= a0.subrange(0, at as int) + payload@.subrange(start as int, j as int)
                + a0.subrange(at + (j - start), 64),
        decreases end - j,
    {
        a[at + (j - start)] = payload[j];
        assert(a@ =~= a0.subrange(0, at as int) + payload@.subrange(start as int, j + 1)
            + a0.subrange(at + (j + 1 - start), 64));
        j += 1;
    }
}

/// Splits a message into the reports that carry it.
pub fn encode_message(channel: Channel, command: u8, payload: &Vec<u8>) -> (r: Vec<[u8; 64]>)
    requires
        command >= 0x80,
        payload@.len() <= MAX_MESSAGE_SIZE,
    ensures
        r@.len() == message_reports(channel@, command, payload@).len(),
        forall|i: int|
            0 <= i < r@.len() ==> #[trigger] r@[i]@ == message_reports(
                channel@,
                command,
                payload@,
            )[i],
{
    let ghost reports = message_reports(channel@, command, payload@);
    let len = payload.len();
    let mut a: [u8; 64] = [0u8; 64];
    a[0] = channel.0[0];
    a[1] = channel.0[1];
    a[2] = channel.0[2];
    a[3] = channel.0[3];
    a[4] = command;
    a[5] = (len / 256) as u8;
    a[6] = (len % 256) as u8;
    let first = if len < 57 {
        len
    } else {
        57
    };
    write_chunk(&mut a, 7, payload, 0, first);
    assert(a@ =~= reports[0]);
    let mut r: Vec<[u8; 64]> = Vec::new();
    r.push(a);
    let n: usize = if len <= 57 {
        0
    } else {
        (len - 57 + 58) / 59
    };
    assert(n == cont_count(len as nat));
    let mut k: usize = 0;
    while k < n
        invariant
            n == cont_count(len as nat),
            len == payload@.len(),
            len <= MAX_MESSAGE_SIZE,
            reports == message_reports(channel@, command, payload@),
            k <= n,
            r@.len() == k + 1,
            forall|i: int| 0 <= i < r@.len() ==> #[trigger] r@[i]@ == reports[i],
        decreases n - k,
    {
        proof {
            lemma_fragment_bounds(len as nat, k as nat);
        }
        let start = 57 + 59 * k;
        let end = if start + 59 < len {
            start + 59
        } else {
            len
        };
        let mut c: [u8; 64] = [0u8; 64];
        c[0] = channel.0[0];
        c[1] = channel.0[1];
        c[2] = channel.0[2];
        c[3] = channel.0[3];
        c[4] = k as u8;
        write_chunk(&mut c, 5, payload, start, end);
        assert(c@ =~= reports[k + 1]);
        r.push(c);
        k += 1;
    }
    r
}

} // verus!
