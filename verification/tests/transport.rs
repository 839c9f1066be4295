use nomad_env::transport::{shell_quote, CommandLine, TransportError};
use nomad_env::OpenSshTransport;

fn args(v: &[&str]) -> Vec<String> {
    v.iter().map(|s| s.to_string()).collect()
}

fn words(line: &CommandLine) -> Vec<&str> {
    let mut all = vec![line.program.as_str()];
    all.extend(line.args.iter().map(|a| a.as_str()));
    all
}

#[test]
fn shell_quote_wraps_plain_values() {
    assert_eq!(shell_quote("/tmp/foo"), "'/tmp/foo'");
}

#[test]
fn shell_quote_escapes_embedded_quotes() {
    assert_eq!(shell_quote("it's"), "'it'\\''s'");
}

#[test]
fn shell_quote_of_nothing_is_a_word() {
    assert_eq!(shell_quote(""), "''");
    assert_eq!(shell_quote("'"), "''\\'''");
}

#[test]
fn connection_is_opened_in_the_background() {
    let line = OpenSshTransport.control_open("host", &args(&["-p", "22"]), "/tmp/s");
    assert_eq!(
        words(&line),
        vec![
            "ssh", "-MNf", "-o", "ControlMaster=yes", "-o", "ControlPersist=yes", "-o",
            "ControlPath=/tmp/s", "-p", "22", "host",
        ]
    );
}

#[test]
fn connection_is_closed_over_its_socket() {
    let line = OpenSshTransport.control_close("host", &args(&["-4"]), "/tmp/s");
    assert_eq!(
        words(&line),
        vec!["ssh", "-S", "/tmp/s", "-o", "ControlPath=/tmp/s", "-4", "host", "-O", "exit"]
    );
}

#[test]
fn commands_share_the_connection() {
    let status = OpenSshTransport.remote_status("host", &[], "/tmp/s", "true");
    let capture = OpenSshTransport.remote_capture("host", &[], "/tmp/s", "true");
    let expected = vec!["ssh", "-S", "/tmp/s", "-o", "ControlPath=/tmp/s", "host", "true"];
    assert_eq!(words(&status), expected);
    assert_eq!(words(&capture), expected);
}

#[test]
fn files_are_written_through_a_quoted_path() {
    let plain = OpenSshTransport.remote_write_file("host", &[], "/tmp/s", "/tmp/it's", false);
    assert_eq!(plain.args.last().unwrap(), "cat > '/tmp/it'\\''s'");
    let script = OpenSshTransport.remote_write_file("host", &[], "/tmp/s", "/tmp/x", true);
    assert_eq!(script.args.last().unwrap(), "cat > '/tmp/x' && chmod +x '/tmp/x'");
}

#[test]
fn payload_is_packed_and_unpacked() {
    let pipeline = OpenSshTransport.stream_tar(
        "host",
        &args(&["-A"]),
        "/tmp/s",
        "/repo",
        &args(&[".zshrc", "a b"]),
        "/tmp/nomad.x",
    );
    assert_eq!(words(&pipeline.source), vec!["tar", "-C", "/repo", "-cf", "-", ".zshrc", "a b"]);
    assert_eq!(
        words(&pipeline.sink),
        vec![
            "ssh", "-S", "/tmp/s", "-o", "ControlPath=/tmp/s", "-A", "host",
            "tar -C '/tmp/nomad.x' -xf -",
        ]
    );
}

#[test]
fn session_runs_on_a_terminal() {
    let line = OpenSshTransport.interactive("host", &args(&["-p", "1"]), "/tmp/s", "cmd", false);
    assert_eq!(
        words(&line),
        vec!["ssh", "-tt", "-S", "/tmp/s", "-o", "ControlPath=/tmp/s", "-p", "1", "host", "cmd"]
    );
    let line = OpenSshTransport.interactive("host", &[], "/tmp/s", "cmd", true);
    assert_eq!(
        words(&line),
        vec![
            "waypipe", "ssh", "-tt", "-S", "/tmp/s", "-o", "ControlPath=/tmp/s", "host", "cmd",
        ]
    );
}

#[test]
fn options_stand_before_the_destination_in_every_line() {
    let options = args(&["-p", "2222", "-A"]);
    let lines = vec![
        OpenSshTransport.control_open("host", &options, "/tmp/s"),
        OpenSshTransport.control_close("host", &options, "/tmp/s"),
        OpenSshTransport.remote_status("host", &options, "/tmp/s", "true"),
        OpenSshTransport.interactive("host", &options, "/tmp/s", "cmd", false),
        OpenSshTransport.interactive("host", &options, "/tmp/s", "cmd", true),
    ];
    for line in lines {
        assert!(line.args.windows(4).any(|w| w == ["-p", "2222", "-A", "host"]));
    }
}

#[test]
fn failed_steps_say_what_failed() {
    assert_eq!(OpenSshTransport.opened("host", true), Ok(()));
    let err = OpenSshTransport.opened("host", false).unwrap_err();
    assert_eq!(err, TransportError::Connection("host".to_string()));
    assert_eq!(err.message(), "ssh control connection to host failed");
    assert_eq!(OpenSshTransport.written("/x", true), Ok(()));
    let err = OpenSshTransport.written("/x", false).unwrap_err();
    assert_eq!(err.message(), "failed to write remote file /x");
    assert_eq!(OpenSshTransport.streamed(true, true), Ok(()));
    let err = OpenSshTransport.streamed(false, false).unwrap_err();
    assert_eq!(err.message(), "tar failed while packaging payload");
    let err = OpenSshTransport.streamed(true, false).unwrap_err();
    assert_eq!(err.message(), "failed to extract payload on remote host");
}

#[test]
fn captured_output_loses_the_white_space_at_its_end() {
    assert_eq!(
        OpenSshTransport.captured(true, b"  /tmp/nomad.x \r\n\n", b""),
        Ok("  /tmp/nomad.x".to_string())
    );
    let err = OpenSshTransport.captured(false, b"out", b"no such host\n").unwrap_err();
    assert_eq!(err.message(), "remote command failed: no such host\n");
}

#[test]
fn captured_bytes_are_decoded_leniently() {
    assert_eq!(
        OpenSshTransport.captured(true, &[b'a', 0xff, b'b'], b""),
        Ok("a\u{fffd}b".to_string())
    );
    assert_eq!(
        OpenSshTransport.captured(true, "h\u{e9}\n".as_bytes(), b""),
        Ok("h\u{e9}".to_string())
    );
}
