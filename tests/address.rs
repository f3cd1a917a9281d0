use mavlink_link::address::{connect, AddressError, TransportKind};
use mavlink_link::custom_entries::get_custom_entries;
use mavlink_link::serial_link::Serial;
use serial::{BaudRate, CharSize, FlowControl, Parity, StopBits};

#[test]
fn connect_known_prefixes() {
    let a = connect("tcp:127.0.0.1:5760").unwrap();
    assert_eq!(a.kind, TransportKind::Tcp);
    assert_eq!(a.target, "127.0.0.1:5760");
    let a = connect("udpin:0.0.0.0:14550").unwrap();
    assert_eq!(a.kind, TransportKind::UdpIn);
    assert_eq!(a.target, "0.0.0.0:14550");
    let a = connect("udpout:10.0.0.1:14550").unwrap();
    assert_eq!(a.kind, TransportKind::UdpOut);
    assert_eq!(a.target, "10.0.0.1:14550");
    let a = connect("serial:/dev/ttyUSB0:57600").unwrap();
    assert_eq!(a.kind, TransportKind::Serial);
    assert_eq!(a.target, "/dev/ttyUSB0:57600");
}

#[test]
fn connect_unknown_prefix() {
    assert_eq!(connect("ftp:host:21"), Err(AddressError::UnknownPrefix));
    assert_eq!(connect(""), Err(AddressError::UnknownPrefix));
    assert_eq!(connect("tcp"), Err(AddressError::UnknownPrefix));
    assert_eq!(connect("udp:host:1"), Err(AddressError::UnknownPrefix));
}

#[test]
fn serial_open_standard_rate() {
    let s = Serial::open("/dev/ttyUSB0:57600").unwrap();
    assert_eq!(s.device, "/dev/ttyUSB0");
    assert_eq!(s.settings.baud_rate, BaudRate::Baud57600);
    assert_eq!(s.settings.char_size, CharSize::Bits8);
    assert_eq!(s.settings.parity, Parity::ParityNone);
    assert_eq!(s.settings.stop_bits, StopBits::Stop1);
    assert_eq!(s.settings.flow_control, FlowControl::FlowNone);
}

#[test]
fn serial_open_other_rate_and_extra_field() {
    let s = Serial::open("COM3:4000000:x").unwrap();
    assert_eq!(s.device, "COM3");
    assert_eq!(s.settings.baud_rate, BaudRate::BaudOther(4000000));
}

#[test]
fn serial_open_errors() {
    assert!(matches!(Serial::open("/dev/ttyS0"), Err(AddressError::MissingBaudRate)));
    assert!(matches!(Serial::open("/dev/ttyS0:"), Err(AddressError::InvalidBaudRate)));
    assert!(matches!(Serial::open("/dev/ttyS0:96k"), Err(AddressError::InvalidBaudRate)));
    assert!(matches!(Serial::open("/dev/ttyS0:99999999999999999999999"), Err(AddressError::InvalidBaudRate)));
}

#[test]
fn custom_entries_contents() {
    let e = get_custom_entries();
    assert_eq!(e.len(), 4);
    assert_eq!(e[0].value, Some(218));
    assert_eq!(e[0].name, "GURZUF_ARM_DISARM");
    assert_eq!(e[0].params, Some(vec!["action_type".to_string(), "enable/disable".to_string()]));
    assert_eq!(e[1].value, Some(31100));
    assert_eq!(e[1].description.as_deref(), Some("Send posistoin to starlink"));
    assert_eq!(e[2].name, "CUSTOM_AUTERION_FLAP_CHECK");
    assert_eq!(e[2].params, None);
    assert_eq!(e[3].value, Some(43003));
    assert_eq!(e[3].params.as_ref().map(|p| p.len()), Some(7));
    assert_eq!(e[3].params.as_ref().unwrap()[6], "altitude");
}

#[test]
fn serial_open_baud_with_leading_plus() {
    let s = Serial::open("a:+9").unwrap();
    assert_eq!(s.device, "a");
    assert_eq!(s.settings.baud_rate, BaudRate::BaudOther(9));
    let s = Serial::open("/dev/ttyUSB0:+9600").unwrap();
    assert_eq!(s.settings.baud_rate, BaudRate::Baud9600);
    assert_eq!("+9600".parse::<usize>(), Ok(9600));
}

#[test]
fn serial_open_plus_without_digits() {
    assert!(matches!(Serial::open("a:+"), Err(AddressError::InvalidBaudRate)));
    assert!(matches!(Serial::open("a:++9"), Err(AddressError::InvalidBaudRate)));
    assert!(matches!(Serial::open("a:-9"), Err(AddressError::InvalidBaudRate)));
    assert!("+".parse::<usize>().is_err());
    assert!("++9".parse::<usize>().is_err());
}
