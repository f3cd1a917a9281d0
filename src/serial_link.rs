//! Serial link settings: `device:baud` and the port configuration it asks for.
use vstd::prelude::*;
use vstd::string::StrSliceExecFns;
use serial::{BaudRate, CharSize, FlowControl, Parity, PortSettings, StopBits};
use crate::address::{decimal_value, field_end, field_len, is_usize_decimal, parse_decimal, AddressError};

verus! {

#[verifier::external_type_specification]
pub struct ExBaudRate(serial::BaudRate);

#[verifier::external_type_specification]
pub struct ExCharSize(serial::CharSize);

#[verifier::external_type_specification]
pub struct ExParity(serial::Parity);

#[verifier::external_type_specification]
pub struct ExStopBits(serial::StopBits);

#[verifier::external_type_specification]
pub struct ExFlowControl(serial::FlowControl);

#[verifier::external_type_specification]
pub struct ExPortSettings(serial::PortSettings);

/// The baud rate value that stands for `speed` bits per second: a named
/// standard rate where there is one, else `BaudOther(speed)`.
pub open spec fn baud_rate_of(speed: usize) -> BaudRate {
    if speed == 110 { BaudRate::Baud110 }
    else if speed == 300 { BaudRate::Baud300 }
    else if speed == 600 { BaudRate::Baud600 }
    else if speed == 1200 { BaudRate::Baud1200 }
    else if speed == 2400 { BaudRate::Baud2400 }
    else if speed == 4800 { BaudRate::Baud4800 }
    else if speed == 9600 { BaudRate::Baud9600 }
    else if speed == 19200 { BaudRate::Baud19200 }
    else if speed == 38400 { BaudRate::Baud38400 }
    else if speed == 57600 { BaudRate::Baud57600 }
    else if speed == 115200 { BaudRate::Baud115200 }
    else { BaudRate::BaudOther(speed) }
}

/// Relies on serial_core's `BaudRate::from_speed`: a match from the eleven
/// standard speeds to their variants, and `BaudOther` for any other.
pub assume_specification[ serial::BaudRate::from_speed ](speed: usize) -> (r: BaudRate)
    ensures
        r == baud_rate_of(speed),
;

/// The port configuration for `speed`: eight data bits, no parity, one stop
/// bit, no flow control.
pub open spec fn settings_for(speed: usize) -> PortSettings {
    PortSettings {
        baud_rate: baud_rate_of(speed),
        char_size: CharSize::Bits8,
        parity: Parity::ParityNone,
        stop_bits: StopBits::Stop1,
        flow_control: FlowControl::FlowNone,
    }
}

/// A serial link's device path and port configuration.
pub struct Serial {
    pub device: String,
    pub settings: PortSettings,
}

/// The device path of a `device:baud` setting.
pub open spec fn device_of(s: Seq<char>) -> Seq<char> {
    s.subrange(0, field_len(s) as int)
}

/// The baud field of a `device:baud` setting: up to the next `:`, if any.
pub open spec fn baud_text_of(s: Seq<char>) -> Seq<char> {
    let rest = s.subrange(field_len(s) as int + 1, s.len() as int);
    rest.subrange(0, field_len(rest) as int)
}

/// A number's text without its optional leading `+`, which `usize`'s
/// `FromStr` accepts.
pub open spec fn strip_plus(t: Seq<char>) -> Seq<char> {
    if t.len() > 0 && t[0] == '+' {
        t.drop_first()
    } else {
        t
    }
}

/// The digits of the baud field.
pub open spec fn baud_digits_of(s: Seq<char>) -> Seq<char> {
    strip_plus(baud_text_of(s))
}

impl Serial {
    /// Parses `device:baud` and gives the configuration to open the device
    /// with. The baud rate is decimal digits, optionally after one `+`.
    /// Fields after the baud rate are ignored.
    pub fn open(settings: &str) -> (r: Result<Serial, AddressError>)
        ensures
            field_len(settings@) == settings@.len() ==> r == Err::<Serial, _>(AddressError::MissingBaudRate),
            field_len(settings@) < settings@.len() && !is_usize_decimal(baud_digits_of(settings@))
                ==> r == Err::<Serial, _>(AddressError::InvalidBaudRate),
            r matches Ok(p) ==> field_len(settings@) < settings@.len()
                && is_usize_decimal(baud_digits_of(settings@))
                && p.device@ == device_of(settings@)
                && p.settings == settings_for(decimal_value(baud_digits_of(settings@)) as usize),
            field_len(settings@) < settings@.len() && is_usize_decimal(baud_digits_of(settings@)) ==> r is Ok,
    {
        let n = settings.unicode_len();
        let colon = field_end(settings, 0);
        assert(settings@.subrange(0, n as int) =~= settings@);
        if colon == n {
            return Err(AddressError::MissingBaudRate);
        }
        let baud_end = field_end(settings, colon + 1);
        let ghost rest = settings@.subrange(colon + 1, n as int);
        assert(rest.subrange(0, field_len(rest) as int) =~= settings@.subrange(colon + 1, baud_end as int));
        let mut digits_start = colon + 1;
        if digits_start < baud_end && settings.get_char(digits_start) == '+' {
            digits_start = digits_start + 1;
        }
        assert(settings@.subrange(digits_start as int, baud_end as int) =~= baud_digits_of(settings@));
        let speed = match parse_decimal(settings, digits_start, baud_end) {
            Some(v) => v,
            None => {
                return Err(AddressError::InvalidBaudRate);
            },
        };
        let device = settings.substring_char(0, colon).to_owned();
        let port_settings = PortSettings {
            baud_rate: BaudRate::from_speed(speed),
            char_size: CharSize::Bits8,
            parity: Parity::ParityNone,
            stop_bits: StopBits::Stop1,
            flow_control: FlowControl::FlowNone,
        };
        Ok(Serial { device, settings: port_settings })
    }
}

} // verus!
