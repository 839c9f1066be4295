//! The protocol that removes the remote directory of a session and forgets the
//! session.

use vstd::prelude::*;

use crate::destination::Destination;
use crate::destination::DestinationView;
use crate::nomad::{validate_removal, ControlGuard, Nomad, NomadError};
use crate::nomad::{marker_path, removal_verdict, ControlGuardView, NomadErrorView};
use crate::paths::path_under;
use crate::prepare::drawn_marker;
use crate::protocol::{Answer, Connection, RemoteStep, Request};
use crate::protocol::{request_view, AnswerView, ConnectionView, RemoteStepView, RequestView};
use crate::session::{generate_marker, socket_path, state_dir, state_file_path, StateRecord};
use crate::session::{optional_text, socket_in, state_dir_in, state_name, StateRecordView};
use crate::text::{joined, same, trim};
use crate::text::trimmed;
use crate::transport::shell_quote;
use crate::transport::quoted;

verus! {

/// What a clean-up starts from.
pub struct CleanSetup {
    pub dest: DestinationView,
    pub root: Seq<char>,
    pub temp_dir: Seq<char>,
}

/// The command that reads the marker of a remote directory, if it has one.
pub open spec fn marker_command(remote_root: Seq<char>) -> Seq<char> {
    "cat "@ + quoted(marker_path(remote_root)) + " 2>/dev/null || true"@
}

/// The command that removes a remote directory.
pub open spec fn remove_command(remote_root: Seq<char>) -> Seq<char> {
    "rm -rf -- "@ + quoted(remote_root)
}

/// The file that remembers the session.
pub open spec fn record_path(setup: CleanSetup, dir: Seq<char>) -> Seq<char> {
    path_under(dir, state_name(setup.root, setup.dest.host, setup.dest.ssh_args))
}

/// The connection of a clean-up over a socket.
pub open spec fn clean_connection(setup: CleanSetup, socket: Seq<char>) -> ConnectionView {
    ConnectionView { dest: setup.dest.host, ssh_args: setup.dest.ssh_args, socket }
}

/// How far a clean-up has come.
pub enum CleanStage<'a> {
    FindingHome,
    MakingDir { dir: String, home: Option<String> },
    Loading { state_path: String, home: Option<String> },
    Seeding { state_path: String, record: StateRecord },
    Opening { state_path: String, record: StateRecord, socket: String },
    Checking { guard: ControlGuard<'a>, state_path: String, record: StateRecord },
    Removing { guard: ControlGuard<'a>, state_path: String, record: StateRecord },
    Forgetting { guard: ControlGuard<'a>, state_path: String },
    Closing { conn: Connection, outcome: Result<(), NomadError> },
    Finished(Result<(), NomadError>),
}

/// What a [`CleanStage`] holds.
pub enum CleanStageView {
    FindingHome,
    MakingDir { dir: Seq<char>, home: Option<Seq<char>> },
    Loading { state_path: Seq<char>, home: Option<Seq<char>> },
    Seeding { state_path: Seq<char>, record: StateRecordView },
    Opening { state_path: Seq<char>, record: StateRecordView, socket: Seq<char> },
    Checking { guard: ControlGuardView, state_path: Seq<char>, record: StateRecordView },
    Removing { guard: ControlGuardView, state_path: Seq<char>, record: StateRecordView },
    Forgetting { guard: ControlGuardView, state_path: Seq<char> },
    Closing { conn: ConnectionView, outcome: Result<(), NomadErrorView> },
    Finished(Result<(), NomadErrorView>),
}

/// The outcome of a clean-up, seen through the views.
pub open spec fn clean_outcome(r: Result<(), NomadError>) -> Result<(), NomadErrorView> {
    match r {
        Ok(_) => Ok(()),
        Err(err) => Err(err@),
    }
}

impl<'a> View for CleanStage<'a> {
    type V = CleanStageView;

    open spec fn view(&self) -> CleanStageView {
        match self {
            CleanStage::FindingHome => CleanStageView::FindingHome,
            CleanStage::MakingDir { dir, home } => CleanStageView::MakingDir {
                dir: dir@,
                home: optional_text(*home),
            },
            CleanStage::Loading { state_path, home } => CleanStageView::Loading {
                state_path: state_path@,
                home: optional_text(*home),
            },
            CleanStage::Seeding { state_path, record } => CleanStageView::Seeding {
                state_path: state_path@,
                record: record@,
            },
            CleanStage::Opening { state_path, record, socket } => CleanStageView::Opening {
                state_path: state_path@,
                record: record@,
                socket: socket@,
            },
            CleanStage::Checking { guard, state_path, record } => CleanStageView::Checking {
                guard: guard@,
                state_path: state_path@,
                record: record@,
            },
            CleanStage::Removing { guard, state_path, record } => CleanStageView::Removing {
                guard: guard@,
                state_path: state_path@,
                record: record@,
            },
            CleanStage::Forgetting { guard, state_path } => CleanStageView::Forgetting {
                guard: guard@,
                state_path: state_path@,
            },
            CleanStage::Closing { conn, outcome } => CleanStageView::Closing {
                conn: conn@,
                outcome: clean_outcome(*outcome),
            },
            CleanStage::Finished(outcome) => CleanStageView::Finished(clean_outcome(*outcome)),
        }
    }
}

/// What a stage asks for.
pub open spec fn clean_request(setup: CleanSetup, stage: CleanStageView) -> Option<RequestView> {
    match stage {
        CleanStageView::FindingHome => Some(RequestView::FindHomes),
        CleanStageView::MakingDir { dir, .. } => Some(RequestView::MakeDir(dir)),
        CleanStageView::Loading { state_path, .. } => Some(RequestView::LoadRecord(state_path)),
        CleanStageView::Seeding { .. } => Some(RequestView::DrawSeed),
        CleanStageView::Opening { socket, .. } => Some(
            RequestView::Remote(clean_connection(setup, socket), RemoteStepView::Open),
        ),
        CleanStageView::Checking { guard, record, .. } => Some(
            RequestView::Remote(
                guard.conn,
                RemoteStepView::Capture(marker_command(record.remote_root)),
            ),
        ),
        CleanStageView::Removing { guard, record, .. } => Some(
            RequestView::Remote(
                guard.conn,
                RemoteStepView::Status(remove_command(record.remote_root)),
            ),
        ),
        CleanStageView::Forgetting { state_path, .. } => Some(
            RequestView::RemoveRecord(state_path),
        ),
        CleanStageView::Closing { conn, .. } => Some(
            RequestView::Remote(conn, RemoteStepView::Close),
        ),
        CleanStageView::Finished(_) => None,
    }
}

/// The stage that ends in an outcome, once the connection is closed where that
/// is owed.
pub open spec fn ending_clean(
    guard: ControlGuardView,
    outcome: Result<(), NomadErrorView>,
) -> CleanStageView {
    if guard.disarmed {
        CleanStageView::Finished(outcome)
    } else {
        CleanStageView::Closing { conn: guard.conn, outcome }
    }
}

/// Whether what was read of a marker file is the marker of a session.
pub open spec fn marker_matches(output: Option<Seq<char>>, marker: Seq<char>) -> bool {
    trimmed(
        match output {
            Some(text) => text,
            None => seq![],
        },
    ) == marker
}

/// The stage that follows an answer. An answer that does not fit the question
/// changes nothing.
pub open spec fn next_clean_stage(
    setup: CleanSetup,
    stage: CleanStageView,
    answer: AnswerView,
) -> CleanStageView {
    match (stage, answer) {
        (CleanStageView::FindingHome, AnswerView::Homes(state_home, home)) => match state_dir_in(
            state_home,
            home,
        ) {
            Some(dir) => CleanStageView::MakingDir { dir, home },
            None => CleanStageView::Finished(Err(NomadErrorView::NoHome)),
        },
        (CleanStageView::MakingDir { dir, home }, AnswerView::Done(done)) => if done {
            CleanStageView::Loading { state_path: record_path(setup, dir), home }
        } else {
            CleanStageView::Finished(Err(NomadErrorView::StateDir(dir)))
        },
        (CleanStageView::Loading { state_path, home }, AnswerView::Record(found)) => match found {
            None => CleanStageView::Finished(Err(NomadErrorView::NoSession)),
            Some(record) => match removal_verdict(record.remote_root, home) {
                Err(err) => CleanStageView::Finished(Err(NomadErrorView::Deletion(err))),
                Ok(_) => CleanStageView::Seeding { state_path, record },
            },
        },
        (
            CleanStageView::Seeding { state_path, record },
            AnswerView::Seed(process, nanos),
        ) => CleanStageView::Opening {
            state_path,
            record,
            socket: socket_in(setup.temp_dir, "nomad-clean."@, drawn_marker(process, nanos)),
        },
        (
            CleanStageView::Opening { state_path, record, socket },
            AnswerView::Done(done),
        ) => if done {
            CleanStageView::Checking {
                guard: ControlGuardView { conn: clean_connection(setup, socket), disarmed: false },
                state_path,
                record,
            }
        } else {
            CleanStageView::Finished(Err(NomadErrorView::Open))
        },
        (
            CleanStageView::Checking { guard, state_path, record },
            AnswerView::Output(output),
        ) => if marker_matches(output, record.marker) {
            CleanStageView::Removing { guard, state_path, record }
        } else {
            ending_clean(guard, Err(NomadErrorView::MarkerMismatch(record.remote_root)))
        },
        (
            CleanStageView::Removing { guard, state_path, record },
            AnswerView::Status(status),
        ) => match status {
            None => ending_clean(guard, Err(NomadErrorView::Remove)),
            Some(removed) => if removed {
                CleanStageView::Forgetting { guard, state_path }
            } else {
                ending_clean(guard, Err(NomadErrorView::NotRemoved(record.remote_root)))
            },
        },
        (CleanStageView::Forgetting { guard, .. }, AnswerView::Done(_)) => ending_clean(
            guard,
            Ok(()),
        ),
        (CleanStageView::Closing { outcome, .. }, AnswerView::Done(_)) => CleanStageView::Finished(
            outcome,
        ),
        _ => stage,
    }
}

/// Ends in an outcome, once the connection is closed where that is owed.
fn end<'a>(guard: ControlGuard<'a>, outcome: Result<(), NomadError>) -> (r: CleanStage<'a>)
    ensures
        r@ == ending_clean(guard@, clean_outcome(outcome)),
{
    match guard.release() {
        Some(conn) => CleanStage::Closing { conn, outcome },
        None => CleanStage::Finished(outcome),
    }
}

/// A clean-up that is under way.
pub struct Cleaning<'a> {
    dest: &'a Destination,
    root: String,
    temp_dir: String,
    stage: CleanStage<'a>,
}

impl<'a> Cleaning<'a> {
    /// What the clean-up started from.
    pub closed spec fn setup(&self) -> CleanSetup {
        CleanSetup { dest: self.dest@, root: self.root@, temp_dir: self.temp_dir@ }
    }

    /// How far the clean-up has come.
    pub closed spec fn stage(&self) -> CleanStageView {
        self.stage@
    }

    /// What the clean-up asks for next, if it goes on.
    pub fn request(&self) -> (r: Option<Request>)
        ensures
            request_view(r) == clean_request(self.setup(), self.stage()),
    {
        match &self.stage {
            CleanStage::FindingHome => Some(Request::FindHomes),
            CleanStage::MakingDir { dir, .. } => Some(Request::MakeDir(dir.clone())),
            CleanStage::Loading { state_path, .. } => Some(Request::LoadRecord(state_path.clone())),
            CleanStage::Seeding { .. } => Some(Request::DrawSeed),
            CleanStage::Opening { socket, .. } => Some(
                Request::Remote(Connection::to(self.dest, socket.as_str()), RemoteStep::Open),
            ),
            CleanStage::Checking { guard, record, .. } => {
                let marker = joined(record.remote_root.as_str(), "/.nomad-marker");
                let mut command = joined("cat ", shell_quote(marker.as_str()).as_str());
                command.append(" 2>/dev/null || true");
                Some(Request::Remote(guard.connection(), RemoteStep::Capture(command)))
            },
            CleanStage::Removing { guard, record, .. } => {
                let command = joined(
                    "rm -rf -- ",
                    shell_quote(record.remote_root.as_str()).as_str(),
                );
                Some(Request::Remote(guard.connection(), RemoteStep::Status(command)))
            },
            CleanStage::Forgetting { state_path, .. } => Some(
                Request::RemoveRecord(state_path.clone()),
            ),
            CleanStage::Closing { conn, .. } => Some(
                Request::Remote(conn.duplicate(), RemoteStep::Close),
            ),
            CleanStage::Finished(_) => None,
        }
    }

    /// The clean-up after an answer to its request.
    pub fn answer(self, answer: Answer) -> (r: Cleaning<'a>)
        ensures
            r.setup() == self.setup(),
            r.stage() == next_clean_stage(self.setup(), self.stage(), answer@),
    {
        let dest = self.dest;
        let root = self.root;
        let temp_dir = self.temp_dir;
        let stage = match (self.stage, answer) {
            (CleanStage::FindingHome, Answer::Homes(state_home, home)) => match state_dir(
                &state_home,
                &home,
            ) {
                Some(dir) => CleanStage::MakingDir { dir, home },
                None => CleanStage::Finished(Err(NomadError::NoHome)),
            },
            (CleanStage::MakingDir { dir, home }, Answer::Done(done)) => if done {
                CleanStage::Loading {
                    state_path: state_file_path(
                        dir.as_str(),
                        root.as_str(),
                        dest.host.as_str(),
                        dest.ssh_args.as_slice(),
                    ),
                    home,
                }
            } else {
                CleanStage::Finished(Err(NomadError::StateDir(dir)))
            },
            (CleanStage::Loading { state_path, home }, Answer::Record(found)) => match found {
                None => CleanStage::Finished(Err(NomadError::NoSession)),
                Some(record) => match validate_removal(record.remote_root.as_str(), &home) {
                    Err(err) => CleanStage::Finished(Err(NomadError::Deletion(err))),
                    Ok(_) => CleanStage::Seeding { state_path, record },
                },
            },
            (CleanStage::Seeding { state_path, record }, Answer::Seed(process, nanos)) => {
                let marker = generate_marker(process, nanos);
                CleanStage::Opening {
                    state_path,
                    record,
                    socket: socket_path(temp_dir.as_str(), "nomad-clean.", marker.as_str()),
                }
            },
            (CleanStage::Opening { state_path, record, socket }, Answer::Done(done)) => if done {
                CleanStage::Checking {
                    guard: ControlGuard::new(dest, socket),
                    state_path,
                    record,
                }
            } else {
                CleanStage::Finished(Err(NomadError::Open))
            },
            (CleanStage::Checking { guard, state_path, record }, Answer::Output(output)) => {
                let read = match output {
                    Some(text) => text,
                    None => {
                        let none = String::new();
                        proof {
                            assert(none@ =~= seq![]);
                        }
                        none
                    },
                };
                let marker = trim(read.as_str());
                if same(marker.as_str(), record.marker.as_str()) {
                    CleanStage::Removing { guard, state_path, record }
                } else {
                    end(guard, Err(NomadError::MarkerMismatch(record.remote_root)))
                }
            },
            (CleanStage::Removing { guard, state_path, record }, Answer::Status(status)) => match status {
                None => end(guard, Err(NomadError::Remove)),
                Some(removed) => if removed {
                    CleanStage::Forgetting { guard, state_path }
                } else {
                    end(guard, Err(NomadError::NotRemoved(record.remote_root)))
                },
            },
            (CleanStage::Forgetting { guard, .. }, Answer::Done(_)) => end(guard, Ok(())),
            (CleanStage::Closing { outcome, .. }, Answer::Done(_)) => CleanStage::Finished(outcome),
            (stage, _) => stage,
        };
        Cleaning { dest, root, temp_dir, stage }
    }

    /// Whether the session is gone or why it is not, once the clean-up is
    /// through.
    pub fn outcome(self) -> (r: Option<Result<(), NomadError>>)
        ensures
            match r {
                Some(outcome) => self.stage() == CleanStageView::Finished(clean_outcome(outcome)),
                None => !(self.stage() is Finished),
            },
    {
        match self.stage {
            CleanStage::Finished(outcome) => Some(outcome),
            _ => None,
        }
    }
}

impl<'a> Nomad<'a> {
    /// Begins to remove the remote directory that is remembered for `dest` and
    /// the profile root at `root`.
    pub fn clean(&self, dest: &'a Destination, root: &str, temp_dir: &str) -> (r: Cleaning<'a>)
        ensures
            r.setup() == (CleanSetup { dest: dest@, root: root@, temp_dir: temp_dir@ }),
            r.stage() == CleanStageView::FindingHome,
    {
        Cleaning {
            dest,
            root: root.to_owned(),
            temp_dir: temp_dir.to_owned(),
            stage: CleanStage::FindingHome,
        }
    }
}

} // verus!
