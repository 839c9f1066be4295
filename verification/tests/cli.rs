use std::collections::BTreeMap;

use nomad_env::cli::{
    action, exit_code, opening_connection, plan, say, starting_shell, usage, using_root, which,
    Action, Plan,
};
use nomad_env::destination::ParseError;
use nomad_env::fake_ssh::{dispatch, FakeReply, FakeSettings, Shape};
use nomad_env::payload::{PayloadAnswer, PayloadRequest};
use nomad_env::profile::{Directories, Launchers, Payload, RootSpec, Validate};
use nomad_env::protocol::{Answer, Connection, Ending, RemoteStep, Request, SaveOutcome};
use nomad_env::root::{RootAnswer, RootRequest};
use nomad_env::session::{fingerprint_payload, settings_text, PayloadFile, StateRecord};
use nomad_env::text_map::TextMap;
use nomad_env::transport::CommandLine;
use nomad_env::{state_file_path, Destination, Nomad, OpenSshTransport, Profile};

const ROOT: &str = "/repo";
const STATE_DIR: &str = "/state/nomad";

/// The tool on a machine that is not there: its files, its session records, and
/// a stand-in for `ssh` and `waypipe` whose calls are logged.
struct Fixture {
    profile: Profile,
    files: BTreeMap<String, Vec<u8>>,
    records: BTreeMap<String, StateRecord>,
    settings: FakeSettings,
    log: Vec<(Shape, Vec<String>)>,
    draws: u128,
    home: String,
}

fn setup_fixture() -> Fixture {
    let mut environment = TextMap::new();
    environment.insert("DOTS".to_string(), "{remote_root}".to_string());
    let mut files = BTreeMap::new();
    files.insert("/repo/.zshrc".to_string(), Vec::new());
    files.insert("/repo/manifest.links".to_string(), b".zshrc\n".to_vec());
    Fixture {
        profile: Profile {
            name: "test".into(),
            root: RootSpec::Path(ROOT.into()),
            validate: Validate { git: true, files: vec![".zshrc".into()], dirs: vec![] },
            payload: Payload { manifest: Some("manifest.links".into()), extra: vec![] },
            environment,
            directories: Directories::default(),
            launchers: Launchers {
                zsh: vec!["exec {shell} -il".into()],
                bash: vec!["exec {shell} -i".into()],
            },
        },
        files,
        records: BTreeMap::new(),
        settings: FakeSettings {
            control_open_exit: None,
            interactive_exit: None,
            test_d_exit: None,
            rm_exit: None,
            mktemp_output: None,
            remote_shell: None,
            marker_content: None,
        },
        log: Vec::new(),
        draws: 0,
        home: "/home/me".to_string(),
    }
}

/// What a call of the tool came to.
struct Outcome {
    code: u8,
    stderr: String,
}

impl Fixture {
    fn call(&mut self, line: &CommandLine) -> FakeReply {
        let reply = dispatch(&line.program, &line.args, &self.settings);
        let mut argv = vec![line.program.clone()];
        argv.extend(line.args.iter().cloned());
        self.log.push((reply.shape, argv));
        reply
    }

    fn remote(&mut self, conn: &Connection, step: &RemoteStep) -> Answer {
        let ssh = OpenSshTransport;
        let (dest, args, socket) = (&conn.dest, &conn.ssh_args, &conn.socket);
        match step {
            RemoteStep::Open => {
                let reply = self.call(&ssh.control_open(dest, args, socket));
                Answer::Done(ssh.opened(dest, reply.exit_code == 0).is_ok())
            }
            RemoteStep::Close => {
                self.call(&ssh.control_close(dest, args, socket));
                Answer::Done(true)
            }
            RemoteStep::Status(command) => {
                let reply = self.call(&ssh.remote_status(dest, args, socket, command));
                Answer::Status(Some(reply.exit_code == 0))
            }
            RemoteStep::Capture(command) => {
                let reply = self.call(&ssh.remote_capture(dest, args, socket, command));
                let stdout = match &reply.stdout {
                    Some(text) => format!("{text}\n"),
                    None => String::new(),
                };
                Answer::Output(ssh.captured(reply.exit_code == 0, stdout.as_bytes(), b"").ok())
            }
            RemoteStep::WriteFile { path, executable, .. } => {
                let line = ssh.remote_write_file(dest, args, socket, path, *executable);
                let reply = self.call(&line);
                assert!(reply.drain_stdin);
                Answer::Done(ssh.written(path, reply.exit_code == 0).is_ok())
            }
            RemoteStep::Stream { local_root, paths, remote_dir } => {
                let pipe = ssh.stream_tar(dest, args, socket, local_root, paths, remote_dir);
                let reply = self.call(&pipe.sink);
                assert!(reply.drain_stdin);
                Answer::Done(ssh.streamed(true, reply.exit_code == 0).is_ok())
            }
            RemoteStep::Interactive { command, use_waypipe } => {
                let line = ssh.interactive(dest, args, socket, command, *use_waypipe);
                let reply = self.call(&line);
                Answer::Ended(Ending::Exited(Some(reply.exit_code)))
            }
        }
    }

    fn perform(&mut self, request: &Request) -> Answer {
        match request {
            Request::DrawSeed => {
                self.draws += 1;
                Answer::Seed(4242, Some(self.draws))
            }
            Request::FindHomes => {
                Answer::Homes(Some("/state".to_string()), Some(self.home.clone()))
            }
            Request::MakeDir(dir) => {
                assert_eq!(dir, STATE_DIR);
                Answer::Done(true)
            }
            Request::LoadRecord(path) => Answer::Record(self.records.get(path).cloned()),
            Request::Payload(PayloadRequest::ReadManifest(path)) => {
                let bytes = self.files.get(path).cloned();
                Answer::Payload(PayloadAnswer::Manifest(
                    bytes.map(|b| String::from_utf8(b).unwrap()),
                ))
            }
            Request::Payload(PayloadRequest::ListTracked(item)) => {
                Answer::Payload(PayloadAnswer::Listing(Some(format!("{item}\n").into_bytes())))
            }
            Request::ReadFile(path) => Answer::Contents(self.files.get(path).cloned()),
            Request::SaveRecord(path, record) => {
                self.records.insert(path.clone(), record.clone());
                Answer::Saved(SaveOutcome::Written)
            }
            Request::RemoveRecord(path) => Answer::Done(self.records.remove(path).is_some()),
            Request::Remote(conn, step) => self.remote(conn, step),
        }
    }

    fn resolved_root(&self) -> String {
        let mut check = self.profile.resolve_root();
        while let Some(request) = check.request() {
            let answer = match request {
                RootRequest::ReadEnv(_) => RootAnswer::Text(None),
                RootRequest::Canonicalize(path) => RootAnswer::Text(Some(path)),
                RootRequest::FindHome => RootAnswer::Text(Some(self.home.clone())),
                RootRequest::IsFile(path) => RootAnswer::Holds(self.files.contains_key(&path)),
                RootRequest::IsDir(_) => RootAnswer::Holds(false),
                RootRequest::IsWorkTree(_) => RootAnswer::Holds(true),
            };
            check = check.answer(answer);
        }
        check.outcome().unwrap().unwrap()
    }

    fn nomad(&mut self, args: &[&str]) -> Outcome {
        let mut all = vec!["--config".to_string(), "/config.toml".to_string()];
        all.extend(args.iter().map(|s| s.to_string()));
        let planned = plan(all);
        let complaint = planned.complaint();
        if let Some(code) = planned.early_exit() {
            return Outcome { code, stderr: complaint.join("\n") };
        }
        let (config, clean, dest) = match planned {
            Plan::Run { config, clean, dest } => (config, clean, dest),
            _ => unreachable!(),
        };
        assert_eq!(config.as_deref(), Some("/config.toml"));
        let root = self.resolved_root();
        let profile = self.profile.clone();
        let nomad = Nomad::new(&profile);
        match action(clean, dest.use_waypipe, true) {
            Action::RefuseWaypipe => panic!("waypipe is there"),
            Action::Clean => self.clean(&nomad, &dest, &root),
            Action::Connect => self.connect(&nomad, &dest, &root),
        }
    }

    fn clean(&mut self, nomad: &Nomad<'_>, dest: &Destination, root: &str) -> Outcome {
        let mut cleaning = nomad.clean(dest, root, "/tmp");
        while let Some(request) = cleaning.request() {
            let answer = self.perform(&request);
            cleaning = cleaning.answer(answer);
        }
        match cleaning.outcome().unwrap() {
            Ok(()) => Outcome { code: 0, stderr: say("remote temp directory removed") },
            Err(err) => Outcome { code: 1, stderr: say(&err.message()) },
        }
    }

    fn connect(&mut self, nomad: &Nomad<'_>, dest: &Destination, root: &str) -> Outcome {
        let mut preparation = nomad.prepare(dest, root, "/tmp");
        while let Some(request) = preparation.request() {
            let answer = self.perform(&request);
            preparation = preparation.answer(answer);
        }
        let session = match preparation.outcome().unwrap() {
            Ok(session) => session,
            Err(err) => return Outcome { code: 1, stderr: say(&err.message()) },
        };
        let mut entering = nomad.enter(dest, &session, dest.use_waypipe);
        while let Some(request) = entering.request() {
            let answer = self.perform(&request);
            entering = entering.answer(answer);
        }
        match entering.outcome().unwrap() {
            Ok(code) => Outcome { code: exit_code(code), stderr: String::new() },
            Err(err) => Outcome { code: 1, stderr: say(&err.message()) },
        }
    }

    fn state_path_for(&self, host: &str) -> String {
        state_file_path(STATE_DIR, ROOT, host, &[])
    }

    fn seed_state(&mut self, host: &str, remote_root: &str, marker: &str, matching: bool) {
        let fingerprint = if matching {
            let files = vec![PayloadFile { path: ".zshrc".to_string(), contents: vec![] }];
            fingerprint_payload(&files, &settings_text(&self.profile.environment))
        } else {
            "stale-fingerprint".to_string()
        };
        let record = StateRecord {
            remote_root: remote_root.to_string(),
            marker: marker.to_string(),
            fingerprint,
        };
        self.records.insert(self.state_path_for(host), record);
    }

    fn logged(&self, shape: Shape) -> bool {
        self.log.iter().any(|entry| entry.0 == shape)
    }
}

#[test]
fn fresh_connect_happy_path() {
    let mut fx = setup_fixture();
    fx.settings.mktemp_output = Some("/tmp/nomad.fake123".to_string());
    fx.settings.remote_shell = Some("/bin/zsh".to_string());

    let outcome = fx.nomad(&["-p", "2222", "host"]);
    assert_eq!(outcome.code, 0);

    let control_open = fx.log.iter().find(|e| e.0 == Shape::ControlOpen).unwrap();
    assert!(control_open.1.windows(2).any(|w| w == ["-p", "2222"]));
    assert!(fx.logged(Shape::TarExtract));
    assert_eq!(fx.records.len(), 1, "a session state file should be created");
    let shapes: Vec<Shape> = fx.log.iter().map(|e| e.0).collect();
    assert_eq!(
        shapes,
        vec![
            Shape::ControlOpen,
            Shape::Mktemp,
            Shape::TarExtract,
            Shape::WriteFile,
            Shape::ShellResolve,
            Shape::WriteFile,
            Shape::Interactive,
            Shape::ControlClose,
        ]
    );
}

#[test]
fn reconnect_reuses_remote_root_without_restreaming_payload() {
    let mut fx = setup_fixture();
    fx.seed_state("host", "/tmp/nomad.cached", "cached-marker", true);
    fx.settings.test_d_exit = Some("0".to_string());
    fx.settings.remote_shell = Some("/bin/zsh".to_string());

    let outcome = fx.nomad(&["host"]);
    assert_eq!(outcome.code, 0);
    assert!(
        !fx.logged(Shape::TarExtract),
        "payload should not be re-streamed for an unchanged, still-present remote root"
    );
}

#[test]
fn interactive_exit_code_propagates() {
    let mut fx = setup_fixture();
    fx.settings.mktemp_output = Some("/tmp/nomad.fake".to_string());
    fx.settings.remote_shell = Some("/bin/zsh".to_string());
    fx.settings.interactive_exit = Some("3".to_string());

    assert_eq!(fx.nomad(&["host"]).code, 3);
}

#[test]
fn clean_removes_matching_remote_root_and_local_state() {
    let mut fx = setup_fixture();
    fx.seed_state("host", "/tmp/nomad.cleanme", "marker-xyz", true);
    let state_path = fx.state_path_for("host");
    assert!(fx.records.contains_key(&state_path));
    fx.settings.marker_content = Some("marker-xyz".to_string());

    assert_eq!(fx.nomad(&["clean", "host"]).code, 0);
    assert!(
        !fx.records.contains_key(&state_path),
        "local session record should be cleared"
    );
    assert!(fx.logged(Shape::RmRf));
}

#[test]
fn clean_refuses_on_marker_mismatch() {
    let mut fx = setup_fixture();
    fx.seed_state("host", "/tmp/nomad.mismatched", "expected-marker", true);
    let state_path = fx.state_path_for("host");
    fx.settings.marker_content = Some("different-marker".to_string());

    let outcome = fx.nomad(&["clean", "host"]);
    assert_ne!(outcome.code, 0);
    assert!(outcome.stderr.contains("marker mismatch"));
    assert!(
        !fx.logged(Shape::RmRf),
        "must not delete the remote directory on a marker mismatch"
    );
    assert!(
        fx.records.contains_key(&state_path),
        "local state must be left alone on failure"
    );
}

#[test]
fn bad_usage_missing_host_exits_nonzero_with_usage() {
    let mut fx = setup_fixture();
    let outcome = fx.nomad(&[]);
    assert_ne!(outcome.code, 0);
    assert!(outcome.stderr.contains("usage: nomad"));
}

#[test]
fn control_connection_closes_when_remote_shell_resolution_fails() {
    let mut fx = setup_fixture();
    fx.settings.mktemp_output = Some("/tmp/nomad.fake".to_string());
    fx.settings.remote_shell = Some("".to_string());

    let outcome = fx.nomad(&["host"]);
    assert_ne!(outcome.code, 0);
    assert!(outcome.stderr.contains("neither zsh nor bash"));
    assert!(fx.logged(Shape::ControlOpen));
    assert!(
        fx.logged(Shape::ControlClose),
        "the control connection must be closed even when prepare() fails mid-setup"
    );
}

#[test]
fn waypipe_mode_invokes_waypipe_then_ssh() {
    let mut fx = setup_fixture();
    fx.settings.mktemp_output = Some("/tmp/nomad.fake".to_string());
    fx.settings.remote_shell = Some("/bin/zsh".to_string());

    assert_eq!(fx.nomad(&["--waypipe", "host"]).code, 0);
    let entry = fx.log.iter().find(|e| e.0 == Shape::WaypipeInteractive).unwrap();
    assert_eq!(entry.1[0], "waypipe");
    assert_eq!(entry.1[1], "ssh");
}

#[test]
fn changed_payload_is_streamed_into_the_same_directory() {
    let mut fx = setup_fixture();
    fx.seed_state("host", "/tmp/nomad.cached", "cached-marker", false);
    fx.settings.test_d_exit = Some("0".to_string());
    fx.settings.remote_shell = Some("/bin/zsh".to_string());

    assert_eq!(fx.nomad(&["host"]).code, 0);
    assert!(fx.logged(Shape::TarExtract));
    assert!(!fx.logged(Shape::Mktemp));
    let record = &fx.records[&fx.state_path_for("host")];
    assert_eq!(record.remote_root, "/tmp/nomad.cached");
    assert_eq!(record.marker, "cached-marker");
    assert_ne!(record.fingerprint, "stale-fingerprint");
}

#[test]
fn directory_that_is_gone_is_made_anew() {
    let mut fx = setup_fixture();
    fx.seed_state("host", "/tmp/nomad.cached", "cached-marker", true);
    fx.settings.mktemp_output = Some("/tmp/nomad.fresh".to_string());
    fx.settings.remote_shell = Some("/bin/bash".to_string());

    assert_eq!(fx.nomad(&["host"]).code, 0);
    assert!(fx.logged(Shape::TestD));
    assert!(fx.logged(Shape::TarExtract));
    let record = &fx.records[&fx.state_path_for("host")];
    assert_eq!(record.remote_root, "/tmp/nomad.fresh");
    assert_eq!(record.marker.len(), 32);
    assert_ne!(record.marker, "cached-marker");
}

#[test]
fn second_connection_uses_the_directory_again_and_clean_removes_it() {
    let mut fx = setup_fixture();
    fx.settings.mktemp_output = Some("/tmp/nomad.first".to_string());
    fx.settings.remote_shell = Some("/bin/zsh".to_string());
    assert_eq!(fx.nomad(&["host"]).code, 0);

    fx.log.clear();
    fx.settings.test_d_exit = Some("0".to_string());
    assert_eq!(fx.nomad(&["host"]).code, 0);
    assert!(!fx.logged(Shape::TarExtract));
    assert!(!fx.logged(Shape::Mktemp));

    fx.log.clear();
    let marker = fx.records[&fx.state_path_for("host")].marker.clone();
    fx.settings.marker_content = Some(marker);
    assert_eq!(fx.nomad(&["clean", "host"]).code, 0);
    let removal = fx.log.iter().find(|e| e.0 == Shape::RmRf).unwrap();
    assert_eq!(removal.1.last().unwrap(), "rm -rf -- '/tmp/nomad.first'");
    assert!(fx.records.is_empty());
    assert_eq!(fx.log.last().unwrap().0, Shape::ControlClose);
}

#[test]
fn clean_without_a_session_says_so() {
    let mut fx = setup_fixture();
    let outcome = fx.nomad(&["clean", "host"]);
    assert_eq!(outcome.code, 1);
    assert_eq!(outcome.stderr, "nomad: no active nomad session found for this destination");
    assert!(fx.log.is_empty());
}

#[test]
fn clean_refuses_an_unsafe_target_before_it_connects() {
    let mut fx = setup_fixture();
    fx.seed_state("host", "/home/user", "marker-xyz", true);
    fx.settings.marker_content = Some("marker-xyz".to_string());
    let outcome = fx.nomad(&["clean", "host"]);
    assert_eq!(outcome.code, 1);
    assert!(outcome.stderr.contains("doesn't look like a nomad temp dir"));
    assert!(fx.log.is_empty());
    assert_eq!(fx.records.len(), 1);
}

#[test]
fn clean_refuses_the_home_directory() {
    let mut fx = setup_fixture();
    fx.home = "/home/nomad".to_string();
    fx.seed_state("host", "/home/nomad", "marker-xyz", true);
    fx.settings.marker_content = Some("marker-xyz".to_string());
    let outcome = fx.nomad(&["clean", "host"]);
    assert_eq!(outcome.code, 1);
    assert!(outcome.stderr.contains("home directory"));
    assert!(fx.log.is_empty());
    assert_eq!(fx.records.len(), 1);
}

#[test]
fn failed_removal_keeps_the_record() {
    let mut fx = setup_fixture();
    fx.seed_state("host", "/tmp/nomad.cleanme", "marker-xyz", true);
    fx.settings.marker_content = Some("marker-xyz".to_string());
    fx.settings.rm_exit = Some("1".to_string());
    let outcome = fx.nomad(&["clean", "host"]);
    assert_eq!(outcome.stderr, "nomad: failed to remove remote directory /tmp/nomad.cleanme");
    assert_eq!(fx.records.len(), 1);
    assert_eq!(fx.log.last().unwrap().0, Shape::ControlClose);
}

#[test]
fn connection_that_does_not_open_ends_the_session() {
    let mut fx = setup_fixture();
    fx.settings.control_open_exit = Some("255".to_string());
    let outcome = fx.nomad(&["host"]);
    assert_eq!(outcome.code, 1);
    assert_eq!(outcome.stderr, "nomad: failed to open control connection");
    assert_eq!(fx.log.len(), 1);
}

#[test]
fn unreadable_payload_closes_the_connection() {
    let mut fx = setup_fixture();
    fx.profile.payload.extra = vec!["gone".to_string()];
    let outcome = fx.nomad(&["host"]);
    assert_eq!(outcome.stderr, "nomad: failed to read payload file /repo/gone");
    assert_eq!(fx.log.last().unwrap().0, Shape::ControlClose);
}

fn planned(args: &[&str]) -> Plan {
    plan(args.iter().map(|s| s.to_string()).collect())
}

#[test]
fn help_needs_no_configuration() {
    assert_eq!(planned(&["--help"]), Plan::Help);
    assert_eq!(planned(&["-h"]), Plan::Help);
    assert_eq!(planned(&["-p", "22", "-h", "host"]), Plan::Help);
    assert_eq!(planned(&["clean", "--help"]), Plan::Help);
    assert_eq!(planned(&["--config", "/gone.toml", "--help"]), Plan::Help);
    assert_eq!(
        usage(),
        "usage: nomad [--waypipe|-wp] [ssh options] host\n       nomad clean [ssh options] host"
    );
}

#[test]
fn help_flag_elsewhere_is_no_help() {
    assert_eq!(planned(&["host", "-h"]), Plan::Rejected(ParseError::RemoteCommandsUnsupported));
    assert_eq!(planned(&["--", "-h"]), Plan::Rejected(ParseError::RemoteCommandsUnsupported));
    assert_eq!(planned(&["-p", "-h"]), Plan::Rejected(ParseError::MissingHost));
}

#[test]
fn config_is_taken_out_wherever_it_stands() {
    let dest =
        Destination { host: "host".to_string(), ssh_args: vec!["-4".to_string()], use_waypipe: false };
    let expected = Plan::Run { config: Some("/c".to_string()), clean: true, dest };
    assert_eq!(planned(&["--config", "/c", "clean", "-4", "host"]), expected);
    assert_eq!(planned(&["clean", "-4", "--config", "/c", "host"]), expected);
    assert_eq!(planned(&["clean", "-4", "host", "--config", "/c"]), expected);
    assert_eq!(planned(&["host", "--config"]), Plan::BadUsage);
}

#[test]
fn nothing_to_do_is_bad_usage() {
    assert_eq!(planned(&[]), Plan::BadUsage);
    assert_eq!(planned(&["clean"]), Plan::BadUsage);
    assert_eq!(planned(&["--config", "/c"]), Plan::BadUsage);
    assert_eq!(planned(&[]).complaint(), vec![usage()]);
}

#[test]
fn plans_that_run_nothing_have_their_exit_codes() {
    assert_eq!(planned(&["--help"]).early_exit(), Some(0));
    assert_eq!(planned(&[]).early_exit(), Some(1));
    assert_eq!(planned(&["host", "ls"]).early_exit(), Some(1));
    assert_eq!(planned(&["host"]).early_exit(), None);
}

#[test]
fn complaints_name_the_error() {
    assert_eq!(
        planned(&["-4"]).complaint(),
        vec!["nomad: usage: nomad [--waypipe|-wp] [ssh options] host".to_string(), usage()]
    );
    assert_eq!(
        planned(&["host", "ls"]).complaint(),
        vec![
            "nomad: remote commands are not supported; this always launches your dotfiles shell"
                .to_string()
        ]
    );
    assert_eq!(planned(&["-p"]).complaint(), vec!["nomad: missing value for -p".to_string()]);
    assert!(planned(&["host"]).complaint().is_empty());
}

#[test]
fn waypipe_is_needed_for_whatever_is_done() {
    assert_eq!(action(false, true, false), Action::RefuseWaypipe);
    assert_eq!(action(true, true, false), Action::RefuseWaypipe);
    assert_eq!(action(true, false, false), Action::Clean);
    assert_eq!(action(false, true, true), Action::Connect);
}

#[test]
fn exit_codes_keep_their_lowest_bits() {
    assert_eq!(exit_code(Some(0)), 0);
    assert_eq!(exit_code(Some(255)), 255);
    assert_eq!(exit_code(Some(256)), 0);
    assert_eq!(exit_code(Some(-1)), 255);
    assert_eq!(exit_code(None), 1);
}

#[test]
fn programs_are_looked_for_along_the_path() {
    assert_eq!(
        which("/usr/bin:/bin/::~/x", "waypipe"),
        vec![
            "/usr/bin/waypipe".to_string(),
            "/bin/waypipe".to_string(),
            "waypipe".to_string(),
            "~/x/waypipe".to_string(),
        ]
    );
}

#[test]
fn progress_is_told() {
    assert_eq!(using_root("/repo"), "nomad: using profile root /repo");
    assert_eq!(opening_connection("host"), "nomad: opening control connection to host");
    assert_eq!(starting_shell("zsh"), "nomad: starting remote zsh with temporary dotfiles");
}
