//! The text of the desktop notification shown while a device needs a touch.
use vstd::prelude::*;

use crate::config::{lookup, ConfigMap};

verus! {

/// Notification settings for one device, each overriding the general one.
pub struct DeviceConfig {
    pub heading: Option<String>,
    pub message: Option<String>,
    pub image: Option<String>,
}

/// Notification settings.
pub struct Config {
    /// Whether notifications are shown.
    pub enable: bool,
    pub heading: String,
    /// The message; without one, the message names the device.
    pub message: Option<String>,
    /// Path of the image shown.
    pub image: Option<String>,
    /// Settings per device serial number.
    pub devices: ConfigMap<DeviceConfig>,
}

/// What a notification shows.
pub struct Notice {
    pub summary: String,
    pub body: String,
    pub image: Option<String>,
}

/// The characters of an optional string.
pub open spec fn chars_of(s: Option<String>) -> Option<Seq<char>> {
    match s {
        Some(t) => Some(t@),
        None => None,
    }
}

/// `first` if it is there, else `second`.
pub open spec fn either(first: Option<Seq<char>>, second: Option<Seq<char>>) -> Option<Seq<char>> {
    if first is Some {
        first
    } else {
        second
    }
}

impl Config {
    /// The settings of the device `serial`, if it has any.
    pub open spec fn device(self, serial: Seq<char>) -> Option<DeviceConfig> {
        lookup(self.devices.inner@, serial)
    }

    /// The device's heading, else the general one.
    pub open spec fn summary_for(self, serial: Seq<char>) -> Seq<char> {
        match self.device(serial) {
            Some(d) if d.heading is Some => d.heading.unwrap()@,
            _ => self.heading@,
        }
    }

    /// The device's message, else the general one, else one that names the
    /// device.
    pub open spec fn body_for(self, serial: Seq<char>) -> Seq<char> {
        let own = match self.device(serial) {
            Some(d) => chars_of(d.message),
            None => None,
        };
        match either(own, chars_of(self.message)) {
            Some(m) => m,
            None => "Device "@ + serial,
        }
    }

    /// The device's image, else the general one, if any.
    pub open spec fn image_for(self, serial: Seq<char>) -> Option<Seq<char>> {
        let own = match self.device(serial) {
            Some(d) => chars_of(d.image),
            None => None,
        };
        either(own, chars_of(self.image))
    }

    /// What the notification for the device `serial` shows.
    pub fn notice(&self, serial: &String) -> (r: Notice)
        ensures
            r.summary@ == self.summary_for(serial@),
            r.body@ == self.body_for(serial@),
            chars_of(r.image) == self.image_for(serial@),
    {
        let device = self.devices.get(serial);
        let summary = match device {
            Some(d) => match &d.heading {
                Some(h) => h.clone(),
                None => self.heading.clone(),
            },
            None => self.heading.clone(),
        };
        let own_message = match device {
            Some(d) => copy_text(&d.message),
            None => None,
        };
        let body = match own_message {
            Some(m) => m,
            None => match &self.message {
                Some(m) => m.clone(),
                None => {
                    let mut b = String::from_str("Device ");
                    b.append(serial.as_str());
                    b
                },
            },
        };
        let own_image = match device {
            Some(d) => copy_text(&d.image),
            None => None,
        };
        let image = match own_image {
            Some(i) => Some(i),
            None => copy_text(&self.image),
        };
        Notice { summary, body, image }
    }
}

fn copy_text(s: &Option<String>) -> (r: Option<String>)
    ensures
        chars_of(r) == chars_of(*s),
{
    match s {
        Some(t) => Some(t.clone()),
        None => None,
    }
}

} // verus!
