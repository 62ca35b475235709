use rat::port::{parse_port_arg, PortSpec, DEFAULT_BAUD, MAX_PORTS};

fn reference(arg: &str, default_baud: u32) -> (String, u32) {
    let mut parts = arg.splitn(2, ',');
    let port = parts.next().unwrap().to_string();
    let baud = parts
        .next()
        .map(|b| b.parse().unwrap_or(default_baud))
        .unwrap_or(default_baud);
    (port, baud)
}

#[test]
fn port_without_baud_takes_the_default() {
    assert_eq!(parse_port_arg("/dev/ttyUSB0", 19200), ("/dev/ttyUSB0".to_string(), 19200));
    assert_eq!(parse_port_arg("B", 57600), ("B".to_string(), 57600));
}

#[test]
fn port_with_baud_takes_its_own() {
    assert_eq!(parse_port_arg("/dev/ttyUSB0,9600", 19200), ("/dev/ttyUSB0".to_string(), 9600));
    assert_eq!(parse_port_arg("A,9600", 19200), ("A".to_string(), 9600));
    assert_eq!(parse_port_arg("COM3,+115200", 19200), ("COM3".to_string(), 115200));
}

#[test]
fn port_with_a_bad_baud_falls_back_to_the_default() {
    assert_eq!(parse_port_arg("A,fast", 19200), ("A".to_string(), 19200));
    assert_eq!(parse_port_arg("A,", 19200), ("A".to_string(), 19200));
    assert_eq!(parse_port_arg("A,-9600", 19200), ("A".to_string(), 19200));
    assert_eq!(parse_port_arg("A,9600 ", 19200), ("A".to_string(), 19200));
    assert_eq!(parse_port_arg("A,4294967296", 19200), ("A".to_string(), 19200));
}

#[test]
fn port_argument_is_cut_at_its_first_comma_only() {
    assert_eq!(parse_port_arg("A,9600,8", 19200), ("A".to_string(), 19200));
    assert_eq!(parse_port_arg("A,,9600", 19200), ("A".to_string(), 19200));
    assert_eq!(parse_port_arg(",9600", 19200), (String::new(), 9600));
    assert_eq!(parse_port_arg(",", 19200), (String::new(), 19200));
    assert_eq!(parse_port_arg("", 19200), (String::new(), 19200));
}

#[test]
fn port_identifier_keeps_text_that_is_not_ascii() {
    assert_eq!(parse_port_arg("порт,300", 19200), ("порт".to_string(), 300));
    assert_eq!(parse_port_arg("ポート", 1200), ("ポート".to_string(), 1200));
}

#[test]
fn port_arguments_are_read_as_the_standard_split_reads_them() {
    let samples = [
        "", ",", ",,", "A", "A,", "A,1", "A,+1", "A,01", "A,1,", "A,1,2", "/dev/ttyS0,115200",
        "/dev/ttyS0,115200x", "x,4294967295", "x,4294967296", "ü,9", "a b,9", "a, 9",
    ];
    for sample in samples {
        for default_baud in [0u32, 19200, u32::MAX] {
            assert_eq!(parse_port_arg(sample, default_baud), reference(sample, default_baud));
        }
    }
}

#[test]
fn port_spec_is_made_from_an_argument() {
    let spec = PortSpec::from_arg("A,9600", 19200);
    assert_eq!(spec, PortSpec { identifier: "A".to_string(), baud_rate: 9600 });
    let spec = PortSpec::from_arg("B", 19200);
    assert_eq!(spec, PortSpec { identifier: "B".to_string(), baud_rate: 19200 });
}

#[test]
fn builder_is_the_transport_s_own_for_the_port() {
    let spec = PortSpec { identifier: "/dev/ttyUSB0".to_string(), baud_rate: 9600 };
    assert_eq!(spec.builder(), serialport::new("/dev/ttyUSB0", 9600));
    assert_ne!(spec.builder(), serialport::new("/dev/ttyUSB0", 19200));
    assert_ne!(spec.builder(), serialport::new("/dev/ttyUSB1", 9600));
    let other = PortSpec { identifier: "B".to_string(), baud_rate: 19200 };
    assert_eq!(other.builder(), serialport::new("B", 19200));
}

#[test]
fn limits_are_those_of_the_command_line() {
    assert_eq!(MAX_PORTS, 8);
    assert_eq!(DEFAULT_BAUD, 19200);
}
