use md_reader::cli::{help_requested, parse_port_number, usage, Config, ConfigError, Mode, PortError};

#[test]
fn cli_parses_required_file_and_defaults() {
    let config = Config::parse(&["md-reader", "notes.md"]).unwrap();

    assert_eq!(std::path::PathBuf::from(&config.file), std::path::PathBuf::from("notes.md"));
    assert_eq!(config.host, "127.0.0.1");
    assert_eq!(config.port, 0);
    assert!(config.open_browser);
    assert_eq!(config.mode, Mode::Preview);
    assert!(!config.host_set);
    assert!(!config.port_set);
}

#[test]
fn cli_parses_options() {
    let config = Config::parse(&[
        "md-reader",
        "--host",
        "localhost",
        "--port=4000",
        "--no-open",
        "--serve",
        "notes.md",
    ])
    .unwrap();

    assert_eq!(config.host, "localhost");
    assert_eq!(config.port, 4000);
    assert!(!config.open_browser);
    assert_eq!(config.mode, Mode::Serve);
    assert!(config.host_set);
    assert!(config.port_set);
}

#[test]
fn main_parses_required_file_and_defaults() {
    let config = Config::parse(&["md-reader", "notes.md"]).unwrap();

    assert_eq!(std::path::PathBuf::from(&config.file), std::path::PathBuf::from("notes.md"));
    assert_eq!(config.host, "127.0.0.1");
    assert_eq!(config.port, 0);
    assert!(config.open_browser);
    assert_eq!(config.mode, Mode::Preview);
}

#[test]
fn main_parses_options() {
    let config = Config::parse(&[
        "md-reader",
        "--host",
        "localhost",
        "--port=4000",
        "--no-open",
        "--serve",
        "notes.md",
    ])
    .unwrap();

    assert_eq!(config.host, "localhost");
    assert_eq!(config.port, 4000);
    assert!(!config.open_browser);
    assert_eq!(config.mode, Mode::Serve);
}

#[test]
fn later_options_override_earlier_ones() {
    let config =
        Config::parse(&["md-reader", "--host=a", "--port", "1", "notes.md", "--host", "b", "--port=2"])
            .unwrap();

    assert_eq!(config.host, "b");
    assert_eq!(config.port, 2);
    assert_eq!(config.file, "notes.md");
}

#[test]
fn missing_option_values_are_refused() {
    assert_eq!(Config::parse(&["md-reader", "notes.md", "--host"]), Err(ConfigError::MissingHostValue));
    assert_eq!(Config::parse(&["md-reader", "notes.md", "--port"]), Err(ConfigError::MissingPortValue));
    assert_eq!(
        Config::parse(&["md-reader", "notes.md", "--host"]).unwrap_err().message(),
        "--host requires a value"
    );
    assert_eq!(
        Config::parse(&["md-reader", "notes.md", "--port"]).unwrap_err().message(),
        "--port requires a value"
    );
}

#[test]
fn bad_ports_are_refused_with_the_integer_parse_message() {
    let err = Config::parse(&["md-reader", "--port=70000", "notes.md"]).unwrap_err();
    assert_eq!(err, ConfigError::InvalidPort(PortError::PosOverflow));
    assert_eq!(err.message(), "number too large to fit in target type");

    let err = Config::parse(&["md-reader", "--port", "80a", "notes.md"]).unwrap_err();
    assert_eq!(err, ConfigError::InvalidPort(PortError::InvalidDigit));
    assert_eq!(err.message(), "invalid digit found in string");

    let err = Config::parse(&["md-reader", "--port=", "notes.md"]).unwrap_err();
    assert_eq!(err, ConfigError::InvalidPort(PortError::Empty));
    assert_eq!(err.message(), "cannot parse integer from empty string");
}

#[test]
fn ports_parse_like_u16_from_str() {
    for text in [
        "0", "65535", "+80", "007", "65536", "", "+", "-", "-1", "8 0", "99999999999", "9999a",
        "99999a", "+-1", "٣",
    ] {
        let expected = text.parse::<u16>().map_err(|e| match e.kind() {
            std::num::IntErrorKind::Empty => PortError::Empty,
            std::num::IntErrorKind::InvalidDigit => PortError::InvalidDigit,
            _ => PortError::PosOverflow,
        });
        assert_eq!(parse_port_number(text), expected, "{text:?}");
    }
    assert_eq!(parse_port_number("+"), Err(PortError::InvalidDigit));
    assert_eq!(parse_port_number("9999a"), Err(PortError::InvalidDigit));
    assert_eq!(parse_port_number("99999a"), Err(PortError::PosOverflow));
}

#[test]
fn unknown_options_and_extra_files_are_refused() {
    let err = Config::parse(&["md-reader", "--bogus", "notes.md"]).unwrap_err();
    assert_eq!(err, ConfigError::UnknownOption("--bogus".to_string()));
    assert_eq!(err.message(), format!("unknown option: --bogus\n\n{}", usage()));

    let err = Config::parse(&["md-reader", "a.md", "b.md"]).unwrap_err();
    assert_eq!(err, ConfigError::MultipleFiles);
    assert_eq!(err.message(), format!("only one markdown file can be opened\n\n{}", usage()));
}

#[test]
fn a_file_is_required() {
    let err = Config::parse(&["md-reader", "--serve"]).unwrap_err();
    assert_eq!(err, ConfigError::MissingFile);
    assert_eq!(err.message(), usage());
    assert_eq!(Config::parse(&[]).unwrap_err(), ConfigError::MissingFile);
}

#[test]
fn usage_lists_the_options() {
    let text = usage();
    assert!(!text.contains("--version"));
    assert!(text.starts_with("Usage: md-reader [OPTIONS] <file.md>\n\nOptions:\n"));
    for option in ["--serve", "--host <host>", "--port <port>", "--no-open", "-h, --help"] {
        assert!(text.contains(option), "{option}");
    }
}

#[test]
fn help_is_recognised_after_the_program_name() {
    assert!(help_requested(&["md-reader", "notes.md", "-h"]));
    assert!(help_requested(&["md-reader", "--help"]));
    assert!(!help_requested(&["-h", "notes.md"]));
    assert!(!help_requested(&["md-reader", "notes.md"]));
}

#[test]
fn every_kind_of_option_can_be_overridden() {
    let config = Config::parse(&[
        "md-reader", "--host", "a", "notes.md", "--host=b", "--port=1", "--port", "2", "--serve",
        "--no-open",
    ])
    .unwrap();
    assert_eq!(config.host, "b");
    assert_eq!(config.port, 2);
    assert!(config.host_set && config.port_set);
    assert_eq!(config.mode, Mode::Serve);
    assert!(!config.open_browser);
    assert_eq!(config.file, "notes.md");
}
