use nomad_env::destination::{parse_ssh_args, ParseError};

fn args(v: &[&str]) -> Vec<String> {
    v.iter().map(|s| s.to_string()).collect()
}

#[test]
fn plain_host() {
    let dest = parse_ssh_args(&args(&["host"])).unwrap();
    assert_eq!(dest.host, "host");
    assert!(dest.ssh_args.is_empty());
    assert!(!dest.use_waypipe);
}

#[test]
fn waypipe_flag_sets_flag_and_is_not_forwarded() {
    let dest = parse_ssh_args(&args(&["--waypipe", "host"])).unwrap();
    assert!(dest.use_waypipe);
    assert!(dest.ssh_args.is_empty());

    let dest = parse_ssh_args(&args(&["-wp", "host"])).unwrap();
    assert!(dest.use_waypipe);
}

#[test]
fn value_flag_consumes_next_arg() {
    let dest = parse_ssh_args(&args(&["-p", "2222", "host"])).unwrap();
    assert_eq!(dest.ssh_args, vec!["-p".to_string(), "2222".to_string()]);
    assert_eq!(dest.host, "host");
}

#[test]
fn boolean_flag_is_forwarded_alone() {
    let dest = parse_ssh_args(&args(&["-4", "-A", "host"])).unwrap();
    assert_eq!(dest.ssh_args, vec!["-4".to_string(), "-A".to_string()]);
}

#[test]
fn value_flag_without_trailing_host_is_missing_host() {
    assert_eq!(
        parse_ssh_args(&args(&["-p", "22"])),
        Err(ParseError::MissingHost)
    );
}

#[test]
fn value_flag_missing_its_value_is_an_error() {
    assert_eq!(
        parse_ssh_args(&args(&["-p"])),
        Err(ParseError::MissingValueFor("-p".into()))
    );
}

#[test]
fn no_args_is_missing_host() {
    assert_eq!(parse_ssh_args(&args(&[])), Err(ParseError::MissingHost));
}

#[test]
fn double_dash_rejected() {
    assert_eq!(
        parse_ssh_args(&args(&["--", "host"])),
        Err(ParseError::RemoteCommandsUnsupported)
    );
}

#[test]
fn trailing_command_after_host_rejected() {
    assert_eq!(
        parse_ssh_args(&args(&["host", "echo", "hi"])),
        Err(ParseError::RemoteCommandsUnsupported)
    );
}

#[test]
fn waypipe_flag_as_a_value_is_forwarded() {
    let dest = parse_ssh_args(&args(&["-o", "-wp", "-wp", "-v", "host"])).unwrap();
    assert_eq!(dest.ssh_args, args(&["-o", "-wp", "-v"]));
    assert!(dest.use_waypipe);
    assert_eq!(dest.host, "host");
}

#[test]
fn what_a_destination_forwards_names_it_again() {
    let dest = parse_ssh_args(&args(&["-wp", "-p", "22", "-A", "host"])).unwrap();
    let mut again = dest.ssh_args.clone();
    again.push(dest.host.clone());
    let second = parse_ssh_args(&again).unwrap();
    assert_eq!(second.ssh_args, dest.ssh_args);
    assert_eq!(second.host, dest.host);
    assert!(!second.use_waypipe);
}

#[test]
fn double_dash_after_options_rejected() {
    assert_eq!(
        parse_ssh_args(&args(&["-p", "22", "--", "echo"])),
        Err(ParseError::RemoteCommandsUnsupported)
    );
}

#[test]
fn an_empty_argument_is_a_host() {
    let dest = parse_ssh_args(&args(&["-x", ""])).unwrap();
    assert_eq!(dest.host, "");
    assert_eq!(dest.ssh_args, args(&["-x"]));
}

#[test]
fn parse_errors_have_messages() {
    assert_eq!(
        ParseError::MissingHost.message(),
        "usage: nomad [--waypipe|-wp] [ssh options] host"
    );
    assert_eq!(
        ParseError::RemoteCommandsUnsupported.message(),
        "remote commands are not supported; this always launches your dotfiles shell"
    );
    assert_eq!(
        ParseError::MissingValueFor("-J".into()).message(),
        "missing value for -J"
    );
}
