//! The decisions of the reader that serves one device: what each read
//! result does to the message in progress and to the touch state, and which
//! edge it publishes.
use vstd::prelude::*;

use crate::command::{decodable, decoded_of, kind_of};
use crate::message::{step, Assembler, AssemblyError, Message, Outcome};
use crate::touch::{message_transition, silence_transition, TouchState};

verus! {

/// What one read of the device gave.
pub enum ReadEvent {
    /// One full report.
    Report([u8; 64]),
    /// No report before the timeout.
    Timeout,
    /// The read failed: the device is gone or misbehaves.
    Failed,
}

/// HID usage page of FIDO authenticators.
pub const FIDO_USAGE_PAGE: u16 = 0xf1d0;

/// HID usage of the CTAPHID interface.
pub const FIDO_USAGE_CTAPHID: u16 = 0x01;

/// Whether a HID interface with this usage page and usage is a FIDO
/// authenticator.
pub fn is_fido_device(usage_page: u16, usage: u16) -> (r: bool)
    ensures
        r == (usage_page == FIDO_USAGE_PAGE && usage == FIDO_USAGE_CTAPHID),
{
    usage_page == FIDO_USAGE_PAGE && usage == FIDO_USAGE_CTAPHID
}

impl ReadEvent {
    /// The event for a read that filled `len` bytes of `buffer`: no bytes
    /// means the timeout passed, a full report is a report, and a short one
    /// fails the read.
    pub fn from_read(len: usize, buffer: [u8; 64]) -> (r: ReadEvent)
        ensures
            len == 0 ==> r is Timeout,
            len == 64 ==> r == ReadEvent::Report(buffer),
            len != 0 && len != 64 ==> r is Failed,
    {
        if len == 0 {
            ReadEvent::Timeout
        } else if len == 64 {
            ReadEvent::Report(buffer)
        } else {
            ReadEvent::Failed
        }
    }
}

/// Why a reader stops.
#[derive(Clone, Copy, Debug)]
pub enum ReaderError {
    /// A read of the device failed.
    Io,
    /// The device broke the framing rules or sent an undecodable message.
    Assembly(AssemblyError),
}

/// A change of the touch state of one device.
pub struct TouchEvent {
    /// Serial number of the device.
    pub serial: String,
    /// Whether a touch is now needed.
    pub needed: bool,
}

/// `r` publishes the edge `e` of the device `serial`, if there is one.
pub open spec fn publishes(r: Result<Option<TouchEvent>, ReaderError>, serial: String, e: Option<
    bool,
>) -> bool {
    match e {
        None => r matches Ok(None),
        Some(needed) => r matches Ok(Some(t)) && t.serial@ == serial@ && t.needed == needed,
    }
}

/// The reader of one device: the message in progress and the touch state.
pub struct Reader {
    pub serial: String,
    pub assembler: Assembler,
    pub touch: TouchState,
}

impl Reader {
    pub open spec fn wf(&self) -> bool {
        self.assembler.wf()
    }

    /// A reader with no message in progress and no touch needed.
    pub fn new(serial: String) -> (r: Reader)
        ensures
            r.wf(),
            r.serial == serial,
            r.assembler@ is None,
            r.touch@.deadline is None,
    {
        Reader { serial, assembler: Assembler::new(), touch: TouchState::new() }
    }

    /// How long the next read at `now` may wait, in milliseconds: until the
    /// touch deadline while a touch is needed, else without limit (`None`).
    pub fn read_timeout(&self, now: u64) -> (r: Option<u64>)
        ensures
            r == match self.touch@.deadline {
                None => None,
                Some(d) => Some(
                    if d > now {
                        (d - now) as u64
                    } else {
                        0
                    },
                ),
            },
    {
        match self.touch.deadline {
            None => None,
            Some(d) => Some(
                if d > now {
                    d - now
                } else {
                    0
                },
            ),
        }
    }

    /// `new` is `old` after the report `report` at `now`, and `r` is what it
    /// returns: the report goes to the message in progress; a complete
    /// message goes to the touch state.
    pub open spec fn after_report(
        old: Reader,
        new: Reader,
        report: Seq<u8>,
        now: u64,
        r: Result<Option<TouchEvent>, ReaderError>,
    ) -> bool {
        let (progress, outcome) = step(old.assembler@, report);
        &&& new.assembler@ == progress
        &&& match outcome {
            Outcome::Pending => new.touch@ == old.touch@ && r matches Ok(None),
            Outcome::Complete { channel, command, payload } => if decodable(
                kind_of(command),
                payload,
            ) {
                let (t, e) = message_transition(
                    old.touch@,
                    channel,
                    decoded_of(kind_of(command), payload),
                    now,
                );
                new.touch@ == t && publishes(r, old.serial, e)
            } else {
                r matches Err(ReaderError::Assembly(AssemblyError::Decode(_)))
            },
            _ => r matches Err(ReaderError::Assembly(AssemblyError::Protocol(e))) && e.outcome()
                == outcome,
        }
    }

    /// Handles one read result at `now`. A report goes to the message in
    /// progress; a timeout drops it and checks the touch deadline; a failed
    /// read, a protocol error or an undecodable message stops the reader.
    /// Returns the edge to publish, if any.
    pub fn handle(&mut self, event: ReadEvent, now: u64) -> (r: Result<Option<TouchEvent>, ReaderError>)
        requires
            old(self).wf(),
        ensures
            final(self).wf(),
            final(self).serial == old(self).serial,
            match event {
                ReadEvent::Failed => {
                    &&& r matches Err(ReaderError::Io)
                    &&& final(self).assembler@ == old(self).assembler@
                    &&& final(self).touch@ == old(self).touch@
                },
                ReadEvent::Timeout => {
                    let (t, e) = silence_transition(old(self).touch@, now);
                    &&& final(self).assembler@ is None
                    &&& final(self).touch@ == t
                    &&& publishes(r, old(self).serial, e)
                },
                ReadEvent::Report(report) => Reader::after_report(
                    *old(self),
                    *final(self),
                    report@,
                    now,
                    r,
                ),
            },
    {
        match event {
            ReadEvent::Failed => Err(ReaderError::Io),
            ReadEvent::Timeout => {
                self.assembler.abandon();
                let e = self.touch.on_silence(now);
                Ok(self.edge(e))
            },
            ReadEvent::Report(report) => match self.assembler.push(&report) {
                Ok(None) => Ok(None),
                Ok(Some(message)) => {
                    let e = self.touch.on_message(&message, now);
                    Ok(self.edge(e))
                },
                Err(e) => Err(ReaderError::Assembly(e)),
            },
        }
    }

    fn edge(&self, e: Option<bool>) -> (r: Option<TouchEvent>)
        ensures
            publishes(Ok(r), self.serial, e),
    {
        match e {
            None => None,
            Some(needed) => Some(TouchEvent { serial: self.serial.clone(), needed }),
        }
    }
}

} // verus!
