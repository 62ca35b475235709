use rat::config::{parse_args, resolve_ports, Args, Invocation};
use rat::error::{ConfigurationError, Flag};
use rat::port::PortSpec;

fn command(words: &[&str]) -> Vec<String> {
    let mut line = vec!["rat".to_string()];
    for word in words {
        line.push(word.to_string());
    }
    line
}

fn run_of(words: &[&str]) -> Args {
    match parse_args(&command(words)) {
        Ok(Invocation::Run(args)) => args,
        other => panic!("expected settings, got {:?}", other),
    }
}

#[test]
fn directory_and_one_port_are_enough() {
    let args = run_of(&["-d", "out", "-p", "/dev/ttyUSB0"]);
    assert_eq!(
        args,
        Args {
            directory: "out".to_string(),
            default_baud: 19200,
            ports: vec!["/dev/ttyUSB0".to_string()],
        }
    );
}

#[test]
fn long_options_mean_the_same_as_short_ones() {
    let short = run_of(&["-d", "logs", "-b", "9600", "-p", "A", "-p", "B,300"]);
    let long = run_of(&[
        "--directory",
        "logs",
        "--default-baud",
        "9600",
        "--port",
        "A",
        "--port",
        "B,300",
    ]);
    assert_eq!(short, long);
    assert_eq!(short.directory, "logs");
    assert_eq!(short.default_baud, 9600);
    assert_eq!(short.ports, vec!["A".to_string(), "B,300".to_string()]);
}

#[test]
fn ports_keep_the_order_in_which_they_were_given() {
    let args = run_of(&["-p", "C", "-d", "out", "-p", "A", "-p", "B"]);
    assert_eq!(args.ports, vec!["C".to_string(), "A".to_string(), "B".to_string()]);
}

#[test]
fn a_later_directory_or_baud_replaces_an_earlier_one() {
    let args = run_of(&["-d", "first", "-b", "300", "-p", "A", "-d", "second", "-b", "1200"]);
    assert_eq!(args.directory, "second");
    assert_eq!(args.default_baud, 1200);
}

#[test]
fn the_program_name_is_not_read() {
    let line = vec![
        "--help".to_string(),
        "-d".to_string(),
        "out".to_string(),
        "-p".to_string(),
        "A".to_string(),
    ];
    match parse_args(&line) {
        Ok(Invocation::Run(args)) => assert_eq!(args.directory, "out"),
        other => panic!("expected settings, got {:?}", other),
    }
}

#[test]
fn help_is_asked_for_with_either_name() {
    assert_eq!(parse_args(&command(&["-h"])), Ok(Invocation::Help));
    assert_eq!(parse_args(&command(&["--help"])), Ok(Invocation::Help));
    assert_eq!(parse_args(&command(&["-d", "out", "-p", "A", "--help"])), Ok(Invocation::Help));
}

#[test]
fn help_wins_over_what_stands_behind_it_but_not_over_what_stands_before() {
    assert_eq!(parse_args(&command(&["-h", "--bogus"])), Ok(Invocation::Help));
    assert_eq!(parse_args(&command(&["-h", "-d"])), Ok(Invocation::Help));
    assert_eq!(
        parse_args(&command(&["--bogus", "-h"])),
        Err(ConfigurationError::UnknownArgument("--bogus".to_string()))
    );
    assert_eq!(
        parse_args(&command(&["-b", "fast", "-h"])),
        Err(ConfigurationError::InvalidBaud("fast".to_string()))
    );
}

#[test]
fn a_value_is_taken_as_it_stands_even_if_it_looks_like_an_option() {
    let args = run_of(&["-d", "-h", "-p", "--port"]);
    assert_eq!(args.directory, "-h");
    assert_eq!(args.ports, vec!["--port".to_string()]);
}

#[test]
fn an_empty_command_line_lacks_the_directory() {
    assert_eq!(parse_args(&command(&[])), Err(ConfigurationError::MissingDirectory));
    assert_eq!(parse_args(&Vec::new()), Err(ConfigurationError::MissingDirectory));
}

#[test]
fn the_directory_is_required() {
    assert_eq!(parse_args(&command(&["-p", "A"])), Err(ConfigurationError::MissingDirectory));
    assert_eq!(
        parse_args(&command(&["-d", "", "-p", "A"])),
        Err(ConfigurationError::MissingDirectory)
    );
}

#[test]
fn at_least_one_port_is_required() {
    assert_eq!(parse_args(&command(&["-d", "out"])), Err(ConfigurationError::NoPorts));
    assert_eq!(
        parse_args(&command(&["-d", "out", "-b", "9600"])),
        Err(ConfigurationError::NoPorts)
    );
}

#[test]
fn eight_ports_are_taken_and_nine_are_refused() {
    let mut words = vec!["-d", "out"];
    for port in ["A", "B", "C", "D", "E", "F", "G", "H"] {
        words.push("-p");
        words.push(port);
    }
    assert_eq!(run_of(&words).ports.len(), 8);
    words.push("-p");
    words.push("I");
    assert_eq!(parse_args(&command(&words)), Err(ConfigurationError::TooManyPorts));
}

#[test]
fn the_missing_directory_is_reported_before_the_number_of_ports() {
    let mut words = Vec::new();
    for _ in 0..9 {
        words.push("-p");
        words.push("A");
    }
    assert_eq!(parse_args(&command(&words)), Err(ConfigurationError::MissingDirectory));
}

#[test]
fn an_option_without_its_value_is_refused() {
    assert_eq!(
        parse_args(&command(&["-d"])),
        Err(ConfigurationError::MissingValue(Flag::Directory))
    );
    assert_eq!(
        parse_args(&command(&["-d", "out", "--default-baud"])),
        Err(ConfigurationError::MissingValue(Flag::DefaultBaud))
    );
    assert_eq!(
        parse_args(&command(&["-d", "out", "-p", "A", "-p"])),
        Err(ConfigurationError::MissingValue(Flag::Port))
    );
}

#[test]
fn a_default_baud_that_is_no_number_is_refused() {
    assert_eq!(
        parse_args(&command(&["-d", "out", "-b", "fast", "-p", "A"])),
        Err(ConfigurationError::InvalidBaud("fast".to_string()))
    );
    assert_eq!(
        parse_args(&command(&["-b", "-1"])),
        Err(ConfigurationError::InvalidBaud("-1".to_string()))
    );
    assert_eq!(
        parse_args(&command(&["-b", "4294967296"])),
        Err(ConfigurationError::InvalidBaud("4294967296".to_string()))
    );
    assert_eq!(run_of(&["-d", "out", "-b", "+57600", "-p", "A"]).default_baud, 57600);
}

#[test]
fn an_unknown_argument_is_refused() {
    assert_eq!(
        parse_args(&command(&["out"])),
        Err(ConfigurationError::UnknownArgument("out".to_string()))
    );
    assert_eq!(
        parse_args(&command(&["-d", "out", "-x", "1"])),
        Err(ConfigurationError::UnknownArgument("-x".to_string()))
    );
    assert_eq!(
        parse_args(&command(&["-D", "out"])),
        Err(ConfigurationError::UnknownArgument("-D".to_string()))
    );
    assert_eq!(
        parse_args(&command(&[""])),
        Err(ConfigurationError::UnknownArgument(String::new()))
    );
}

#[test]
fn the_first_fault_from_the_left_is_the_one_reported() {
    assert_eq!(
        parse_args(&command(&["-b", "x", "--bogus"])),
        Err(ConfigurationError::InvalidBaud("x".to_string()))
    );
    assert_eq!(
        parse_args(&command(&["--bogus", "-b", "x"])),
        Err(ConfigurationError::UnknownArgument("--bogus".to_string()))
    );
    assert_eq!(
        parse_args(&command(&["-p", "A", "-d"])),
        Err(ConfigurationError::MissingValue(Flag::Directory))
    );
}

#[test]
fn a_bad_baud_in_a_port_argument_is_no_fault() {
    let args = run_of(&["-d", "out", "-p", "A,fast"]);
    assert_eq!(args.ports, vec!["A,fast".to_string()]);
    assert_eq!(
        resolve_ports(&args),
        vec![PortSpec { identifier: "A".to_string(), baud_rate: 19200 }]
    );
}

#[test]
fn ports_are_resolved_with_the_default_that_was_given_last() {
    let args = run_of(&["-p", "A,9600", "-b", "300", "-p", "B", "-d", "out", "-b", "1200"]);
    assert_eq!(
        resolve_ports(&args),
        vec![
            PortSpec { identifier: "A".to_string(), baud_rate: 9600 },
            PortSpec { identifier: "B".to_string(), baud_rate: 1200 },
        ]
    );
}

#[test]
fn every_configuration_error_has_its_sentence() {
    assert_eq!(
        ConfigurationError::MissingValue(Flag::Directory).message(),
        "--directory requires an argument"
    );
    assert_eq!(
        ConfigurationError::MissingValue(Flag::DefaultBaud).message(),
        "--default-baud requires an argument"
    );
    assert_eq!(
        ConfigurationError::MissingValue(Flag::Port).message(),
        "--port requires an argument"
    );
    assert_eq!(
        ConfigurationError::InvalidBaud("fast".to_string()).message(),
        "Invalid baud rate: fast"
    );
    assert_eq!(
        ConfigurationError::UnknownArgument("--bogus".to_string()).message(),
        "Unknown argument: --bogus"
    );
    assert_eq!(ConfigurationError::MissingDirectory.message(), "--directory is required");
    assert_eq!(
        ConfigurationError::NoPorts.message(),
        "At least one --port argument is required"
    );
    assert_eq!(ConfigurationError::TooManyPorts.message(), "Maximum 8 ports supported");
}
