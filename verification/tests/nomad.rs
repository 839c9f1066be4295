use nomad_env::nomad::{
    render_launcher, validate_deletion_target, validate_removal, ControlGuard, DeletionError, NomadError,
};
use nomad_env::profile::{Directories, Launchers, Payload, ProfileError, RootSpec, Validate};
use nomad_env::protocol::{Answer, RemoteStep, Request, SaveOutcome};
use nomad_env::text_map::TextMap;
use nomad_env::{Destination, Nomad, Profile};

fn test_profile() -> Profile {
    let mut environment = TextMap::new();
    environment.insert("DOTS".to_string(), "{remote_root}".to_string());
    Profile {
        name: "test".into(),
        root: RootSpec::Path("/tmp".into()),
        validate: Validate::default(),
        payload: Payload { manifest: None, extra: vec![] },
        environment,
        directories: Directories { required: vec![] },
        launchers: Launchers {
            zsh: vec!["{shell} -il".to_string()],
            bash: vec!["{shell} -i".to_string()],
        },
    }
}

fn host() -> Destination {
    Destination { host: "host".to_string(), ssh_args: vec![], use_waypipe: false }
}

/// Carries requests out against a recorded transport whose remote shell is
/// `shell`, and records what was called.
fn recorded(request: &Request, shell: &str, calls: &mut Vec<String>) -> Answer {
    match request {
        Request::DrawSeed => Answer::Seed(1, Some(2)),
        Request::FindHomes => Answer::Homes(Some("/state".to_string()), None),
        Request::MakeDir(_) => Answer::Done(true),
        Request::LoadRecord(_) => Answer::Record(None),
        Request::Payload(_) => panic!("no manifest"),
        Request::ReadFile(_) => Answer::Contents(None),
        Request::SaveRecord(_, _) => Answer::Saved(SaveOutcome::Written),
        Request::RemoveRecord(_) => Answer::Done(true),
        Request::Remote(_, step) => match step {
            RemoteStep::Open => {
                calls.push("control_open".to_string());
                Answer::Done(true)
            }
            RemoteStep::Close => {
                calls.push("control_close".to_string());
                Answer::Done(true)
            }
            RemoteStep::Status(command) => {
                calls.push(format!("remote_status:{command}"));
                Answer::Status(Some(false))
            }
            RemoteStep::Capture(command) => {
                calls.push(format!("remote_capture:{command}"));
                if command.starts_with("mktemp") {
                    Answer::Output(Some("/tmp/nomad.fake".to_string()))
                } else if command.starts_with("command -v zsh") {
                    Answer::Output(Some(shell.to_string()))
                } else {
                    Answer::Output(Some(String::new()))
                }
            }
            RemoteStep::WriteFile { path, .. } => {
                calls.push(format!("remote_write_file:{path}"));
                Answer::Done(true)
            }
            RemoteStep::Stream { .. } => {
                calls.push("stream_tar".to_string());
                Answer::Done(true)
            }
            RemoteStep::Interactive { .. } => panic!("not entered"),
        },
    }
}

#[test]
fn control_guard_closes_on_drop_unless_disarmed() {
    let dest = host();
    let guard = ControlGuard::new(&dest, "/tmp/sock".to_string());
    let owed = guard.release().unwrap();
    assert_eq!(owed.dest, "host");
    assert_eq!(owed.socket, "/tmp/sock");
    assert!(owed.ssh_args.is_empty());
}

#[test]
fn control_guard_stays_open_when_disarmed() {
    let dest = host();
    let mut guard = ControlGuard::new(&dest, "/tmp/sock".to_string());
    guard.disarm();
    assert_eq!(guard.connection().socket, "/tmp/sock");
    assert!(guard.release().is_none());
}

#[test]
fn prepare_closes_control_connection_when_shell_resolution_fails() {
    let profile = test_profile();
    let nomad = Nomad::new(&profile);
    let dest = host();
    let mut calls = Vec::new();
    let mut preparation = nomad.prepare(&dest, "/tmp", "/tmp");
    while let Some(request) = preparation.request() {
        let answer = recorded(&request, "", &mut calls);
        preparation = preparation.answer(answer);
    }
    assert_eq!(preparation.outcome(), Some(Err(NomadError::NoShell)));
    assert!(calls.contains(&"control_close".to_string()));
    assert_eq!(calls.last().unwrap(), "control_close");
}

#[test]
fn prepare_leaves_the_connection_open_for_the_session() {
    let profile = test_profile();
    let nomad = Nomad::new(&profile);
    let dest = host();
    let mut calls = Vec::new();
    let mut preparation = nomad.prepare(&dest, "/tmp", "/tmp");
    while let Some(request) = preparation.request() {
        let answer = recorded(&request, "/usr/bin/bash", &mut calls);
        preparation = preparation.answer(answer);
    }
    let session = preparation.outcome().unwrap().unwrap();
    assert_eq!(session.remote_root, "/tmp/nomad.fake");
    assert_eq!(session.remote_shell_name, "bash");
    assert!(!calls.contains(&"control_close".to_string()));
    assert_eq!(
        calls,
        vec![
            "control_open".to_string(),
            "remote_capture:mktemp -d \"${TMPDIR:-/tmp}/nomad.XXXXXXXX\"".to_string(),
            "stream_tar".to_string(),
            "remote_write_file:/tmp/nomad.fake/.nomad-marker".to_string(),
            "remote_capture:command -v zsh 2>/dev/null || command -v bash 2>/dev/null".to_string(),
            "remote_write_file:/tmp/nomad.fake/.nomad-shell".to_string(),
        ]
    );
}

#[test]
fn unsupported_shell_is_refused() {
    let profile = test_profile();
    let nomad = Nomad::new(&profile);
    let dest = host();
    let mut calls = Vec::new();
    let mut preparation = nomad.prepare(&dest, "/tmp", "/tmp");
    while let Some(request) = preparation.request() {
        let answer = recorded(&request, "/bin/fish", &mut calls);
        preparation = preparation.answer(answer);
    }
    let err = preparation.outcome().unwrap().unwrap_err();
    assert_eq!(err, NomadError::UnsupportedShell("/bin/fish".to_string()));
    assert_eq!(calls.last().unwrap(), "control_close");
}

#[test]
fn answers_that_do_not_fit_change_nothing() {
    let profile = test_profile();
    let nomad = Nomad::new(&profile);
    let dest = host();
    let preparation = nomad.prepare(&dest, "/tmp", "/tmp");
    let preparation = preparation.answer(Answer::Done(true)).answer(Answer::Record(None));
    assert_eq!(preparation.request(), Some(Request::DrawSeed));
    assert!(preparation.outcome().is_none());
}

#[test]
fn launcher_substitutes_placeholders() {
    let profile = test_profile();
    let script = render_launcher(&profile, "/tmp/nomad.abc", "/usr/bin/zsh", "zsh");
    assert!(script.contains("export DOTS='/tmp/nomad.abc'"));
    assert!(script.contains("'/usr/bin/zsh' -il"));
}

#[test]
fn launcher_leaves_literal_shell_syntax_around_placeholders_unquoted() {
    let mut profile = test_profile();
    profile.environment.insert(
        "PATH".to_string(),
        "{remote_root}/.local/bin:$PATH".to_string(),
    );
    let script = render_launcher(&profile, "/tmp/nomad.abc", "/usr/bin/zsh", "zsh");
    assert!(script.contains("export PATH='/tmp/nomad.abc'/.local/bin:$PATH\n"));
}

#[test]
fn launcher_quotes_a_directory_that_reads_like_a_token() {
    let profile = test_profile();
    let script = render_launcher(&profile, "/tmp/{shell}", "/bin/zsh", "zsh");
    assert!(script.contains("export DOTS='/tmp/{shell}'\n"));
}

#[test]
fn launcher_is_written_in_order() {
    let mut profile = test_profile();
    profile.directories.required = vec!["{remote_root}/.codex".to_string()];
    profile.launchers.bash = vec!["unset ZDOTDIR".to_string(), "exec {shell} -i".to_string()];
    let script = render_launcher(&profile, "/tmp/nomad.abc", "/bin/bash", "bash");
    assert_eq!(
        script,
        "#!/usr/bin/env sh\n\
         export DOTS='/tmp/nomad.abc'\n\
         mkdir -p '/tmp/nomad.abc'/.codex || exit 1\n\
         unset ZDOTDIR\n\
         exec '/bin/bash' -i\n\
         nomad_status=$?\n\
         exit $nomad_status\n"
    );
}

#[test]
fn validate_deletion_target_rejects_unsafe_paths() {
    assert!(validate_deletion_target("").is_err());
    assert!(validate_deletion_target("relative/path").is_err());
    assert!(validate_deletion_target("/").is_err());
    assert!(validate_deletion_target("/home/user").is_err());
    assert!(validate_deletion_target("/tmp/nomad.abc123").is_ok());
}

#[test]
fn deletion_errors_say_why() {
    let message = |path: &str| validate_deletion_target(path).unwrap_err().message();
    assert_eq!(validate_deletion_target(" \t"), Err(DeletionError::Empty));
    assert_eq!(message(""), "refusing to clean an empty remote path");
    assert_eq!(message("nomad.x"), "refusing to clean a relative remote path: nomad.x");
    assert_eq!(message("/"), "refusing to clean the remote root filesystem");
    assert_eq!(
        message("/home/user"),
        "refusing to clean a path that doesn't look like a nomad temp dir: /home/user"
    );
}

#[test]
fn home_directory_is_never_removed() {
    let home = Some("/home/nomad/".to_string());
    assert_eq!(
        validate_removal("/home/nomad", &home).unwrap_err().message(),
        "refusing to clean the home directory: /home/nomad"
    );
    assert_eq!(validate_removal("/home/nomad/nomad.x", &home), Ok(()));
    assert_eq!(validate_removal("/home/nomad", &None), Ok(()));
    assert_eq!(
        validate_removal("/", &home),
        Err(DeletionError::RootFilesystem)
    );
}

#[test]
fn launcher_fills_in_next_to_stray_braces() {
    let mut profile = test_profile();
    profile.launchers.zsh =
        vec!["{{shell} ${HOME} { echo {remote_root}; } {shell".to_string(), "}".to_string()];
    let script = render_launcher(&profile, "/tmp/nomad.abc", "/bin/zsh", "zsh");
    assert!(script.contains("\n{'/bin/zsh' ${HOME} { echo '/tmp/nomad.abc'; } {shell\n}\n"));
}

#[test]
fn errors_have_their_messages() {
    let text = |err: NomadError| err.message();
    assert_eq!(text(NomadError::Open), "failed to open control connection");
    assert_eq!(text(NomadError::NoHome), "cannot determine home directory");
    assert_eq!(text(NomadError::StateDir("/s".into())), "failed to create state directory /s");
    assert_eq!(
        text(NomadError::Profile(ProfileError::NotTracked("x".into()))),
        "payload manifest entry is not tracked: x"
    );
    assert_eq!(
        text(NomadError::PayloadUnreadable("/r/x".into())),
        "failed to read payload file /r/x"
    );
    assert_eq!(text(NomadError::Create), "failed to create remote temp directory");
    assert_eq!(text(NomadError::Stream), "failed to stream dotfiles payload");
    assert_eq!(text(NomadError::WriteMarker), "failed to write session marker");
    assert_eq!(text(NomadError::SerializeState), "failed to serialize session state");
    assert_eq!(text(NomadError::WriteState("/s/x".into())), "failed to write session state /s/x");
    assert_eq!(text(NomadError::ResolveShell), "failed to resolve remote shell");
    assert_eq!(text(NomadError::NoShell), "neither zsh nor bash is installed on the remote host");
    assert_eq!(
        text(NomadError::UnsupportedShell("/bin/fish".into())),
        "unsupported remote shell resolved: /bin/fish"
    );
    assert_eq!(text(NomadError::WriteLauncher), "failed to write remote launcher");
    assert_eq!(text(NomadError::Interactive), "failed to launch interactive ssh session");
    assert_eq!(
        text(NomadError::NoSession),
        "no active nomad session found for this destination"
    );
    assert_eq!(
        text(NomadError::Deletion(DeletionError::Empty)),
        "refusing to clean an empty remote path"
    );
    assert_eq!(
        text(NomadError::MarkerMismatch("/tmp/nomad.x".into())),
        "refusing to remove /tmp/nomad.x: session marker mismatch"
    );
    assert_eq!(text(NomadError::Remove), "failed to remove remote temp directory");
    assert_eq!(
        text(NomadError::NotRemoved("/tmp/nomad.x".into())),
        "failed to remove remote directory /tmp/nomad.x"
    );
}
