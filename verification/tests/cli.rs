use mnic_cli::cli::{parse_args, ArgsError, RuntimeOptions};

#[test]
fn defaults_range_split_to_off() {
    let options = parse_args(&[]).unwrap();
    assert!(!options.range_split_enabled);
}

#[test]
fn enables_range_split_when_requested() {
    let options = parse_args(&["--range-split"]).unwrap();
    assert!(options.range_split_enabled);
}

#[test]
fn disables_range_split_when_requested() {
    let options = parse_args(&["--range-split", "--no-range-split"]).unwrap();
    assert!(!options.range_split_enabled);
}

#[test]
fn rejects_unknown_arguments() {
    let error = parse_args(&["--csv"]).unwrap_err();
    assert!(error.to_string().contains("unknown argument"));
}

#[test]
fn options_default_to_no_split() {
    assert_eq!(
        RuntimeOptions::default(),
        RuntimeOptions { range_split_enabled: false }
    );
}

#[test]
fn last_switch_wins() {
    let options = parse_args(&["--no-range-split", "--range-split"]).unwrap();
    assert!(options.range_split_enabled);
}

#[test]
fn names_the_unknown_argument() {
    let error = parse_args(&["--range-split", "--csv", "--help"]).unwrap_err();
    assert!(matches!(&error, ArgsError::Unknown { argument } if argument == "--csv"));
    assert_eq!(error.to_string(), "unknown argument: --csv");
}

#[test]
fn explains_its_usage() {
    for flag in ["--help", "-h"] {
        let error = parse_args(&["--range-split", flag, "--csv"]).unwrap_err();
        assert!(matches!(error, ArgsError::Help));
        assert_eq!(
            error.to_string(),
            "usage: mnic-cli [--range-split|--no-range-split]\ndefault: range split is OFF"
        );
    }
}
