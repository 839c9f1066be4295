use nomad_env::fake_ssh::{
    dispatch, dispatch_plain_command, env_i32, stdin_preview, FakeSettings, Shape,
};

fn settings() -> FakeSettings {
    FakeSettings {
        control_open_exit: None,
        interactive_exit: Some("7".to_string()),
        test_d_exit: None,
        rm_exit: Some("x".to_string()),
        mktemp_output: Some("/tmp/nomad.x".to_string()),
        remote_shell: None,
        marker_content: Some("m".to_string()),
    }
}

fn args(v: &[&str]) -> Vec<String> {
    v.iter().map(|s| s.to_string()).collect()
}

#[test]
fn numbers_are_read_like_the_standard_library_reads_them() {
    for text in [
        "0", "3", "-1", "+5", "007", "", "-", "+", "--1", "+-1", " 1", "1 ", "1a", "2147483647",
        "2147483648", "-2147483648", "-2147483649", "99999999999999999999", "0x1",
    ] {
        let expected: i32 = text.parse().unwrap_or(42);
        assert_eq!(env_i32(&Some(text.to_string()), 42), expected);
    }
    assert_eq!(env_i32(&None, 42), 42);
}

#[test]
fn commands_are_told_by_their_text() {
    let shape = |cmd: &str| dispatch_plain_command(cmd, &settings()).shape;
    assert_eq!(shape("mktemp -d x"), Shape::Mktemp);
    assert_eq!(shape("command -v zsh 2>/dev/null"), Shape::ShellResolve);
    assert_eq!(shape("test -d '/x' && test -f '/y'"), Shape::TestD);
    assert_eq!(shape("tar -C '/x' -xf -"), Shape::TarExtract);
    assert_eq!(shape("cat > '/x'"), Shape::WriteFile);
    assert_eq!(shape("cat '/x' 2>/dev/null || true \n"), Shape::ReadMarker);
    assert_eq!(shape("cat '/x'"), Shape::Unknown);
    assert_eq!(shape("rm -rf -- '/x'"), Shape::RmRf);
    assert_eq!(shape("ls"), Shape::Unknown);
    assert_eq!(shape(""), Shape::Unknown);
}

#[test]
fn answers_follow_the_settings() {
    let reply = dispatch_plain_command("mktemp -d x", &settings());
    assert_eq!(reply.stdout, Some("/tmp/nomad.x".to_string()));
    assert_eq!(reply.exit_code, 0);
    let reply = dispatch_plain_command("command -v zsh", &settings());
    assert_eq!(reply.stdout, Some(String::new()));
    let reply = dispatch_plain_command("test -d '/x'", &settings());
    assert_eq!(reply.exit_code, 1);
    assert_eq!(reply.stdout, None);
    let reply = dispatch_plain_command("rm -rf -- '/x'", &settings());
    assert_eq!(reply.exit_code, 0);
    let reply = dispatch_plain_command("cat '/x' || true", &settings());
    assert_eq!(reply.stdout, Some("m".to_string()));
    let reply = dispatch_plain_command("tar -C '/x' -xf -", &settings());
    assert!(reply.drain_stdin);
    assert_eq!(dispatch_plain_command("ls", &settings()).exit_code, 1);
}

#[test]
fn flags_come_before_commands() {
    let reply = dispatch("ssh", &args(&["-MNf", "-o", "ControlMaster=yes", "host"]), &settings());
    assert_eq!(reply.shape, Shape::ControlOpen);
    let reply = dispatch("ssh", &args(&["-S", "s", "host", "-O", "exit"]), &settings());
    assert_eq!(reply.shape, Shape::ControlClose);
    let reply = dispatch("ssh", &args(&["-tt", "host", "mktemp"]), &settings());
    assert_eq!((reply.shape, reply.exit_code), (Shape::Interactive, 7));
    let reply = dispatch("waypipe", &args(&["ssh", "-tt", "host", "cmd"]), &settings());
    assert_eq!(reply.shape, Shape::WaypipeInteractive);
    let reply = dispatch("ssh", &args(&["host", "mktemp -d"]), &settings());
    assert_eq!(reply.shape, Shape::Mktemp);
    assert_eq!(dispatch("ssh", &[], &settings()).shape, Shape::Unknown);
    assert_eq!(dispatch("waypipe", &args(&["ssh"]), &settings()).shape, Shape::Unknown);
}

#[test]
fn shapes_have_their_names() {
    let names: Vec<String> = [
        Shape::ControlOpen, Shape::ControlClose, Shape::Interactive, Shape::WaypipeInteractive,
        Shape::Mktemp, Shape::ShellResolve, Shape::TestD, Shape::TarExtract, Shape::WriteFile,
        Shape::ReadMarker, Shape::RmRf, Shape::Unknown,
    ]
    .iter()
    .map(|s| s.name())
    .collect();
    assert_eq!(
        names,
        args(&[
            "control_open", "control_close", "interactive", "waypipe_interactive", "mktemp",
            "shell_resolve", "test_d", "tar_extract", "write_file", "read_marker", "rm_rf",
            "unknown",
        ])
    );
}

#[test]
fn input_is_previewed_up_to_a_cap() {
    assert_eq!(stdin_preview(b"abc"), (3, "abc".to_string()));
    let long = vec![b'x'; 300];
    let (len, preview) = stdin_preview(&long);
    assert_eq!(len, 300);
    assert_eq!(preview.len(), 256);
    assert_eq!(stdin_preview(&[0xff]).1, "\u{fffd}");
}
