//! The protocol that prepares a session.
//!
//! It opens the control connection, finds or makes the remote directory, ships
//! the payload where that is needed, and writes the launcher. Whatever fails
//! once the connection is open, the connection is closed again.

use vstd::prelude::*;

use crate::destination::Destination;
use crate::destination::DestinationView;
use crate::nomad::{render_launcher, ControlGuard, Nomad, NomadError, PreparedSession};
use crate::nomad::{
    launcher_path, launcher_text, marker_path, ControlGuardView, NomadErrorView,
    PreparedSessionView,
};
use crate::paths::{in_path_order, own_path, path_under};
use crate::paths::{join_path, sort_paths};
use crate::payload::{first_payload_stage, next_payload_stage, payload_request, PayloadStageView};
use crate::payload::PayloadListing;
use crate::profile::{Profile, ProfileView};
use crate::protocol::{Answer, Connection, RemoteStep, Request, SaveOutcome};
use crate::protocol::{
    request_view, record_view, AnswerView, ConnectionView, RemoteStepView, RequestView,
};
use crate::session::{
    fingerprint_payload, generate_marker, settings_text, socket_path, state_dir, state_file_path,
    PayloadFile, StateRecord,
};
use crate::session::{
    debug_pairs, file_views, fingerprint, marker_seed, marker_text, settings_of, sha256, socket_in,
    state_dir_in, state_name, PayloadFileView, StateRecordView,
};
use crate::text::{after_last, copied, joined, same};
use crate::text::{last_part, texts};
use crate::transport::shell_quote;
use crate::transport::quoted;

verus! {

/// What a preparation starts from.
pub struct Setup {
    pub profile: ProfileView,
    pub dest: DestinationView,
    pub root: Seq<char>,
    pub temp_dir: Seq<char>,
}

/// The command that makes a remote directory.
pub open spec fn create_command() -> Seq<char> {
    "mktemp -d \"${TMPDIR:-/tmp}/nomad.XXXXXXXX\""@
}

/// The command that finds the remote shell.
pub open spec fn shell_command() -> Seq<char> {
    "command -v zsh 2>/dev/null || command -v bash 2>/dev/null"@
}

/// The command that tells whether a remote directory and its marker are there.
pub open spec fn probe_command(remote_root: Seq<char>) -> Seq<char> {
    "test -d "@ + quoted(remote_root) + " && test -f "@ + quoted(marker_path(remote_root))
}

/// The settings of a profile that a fingerprint covers.
pub open spec fn profile_settings(profile: ProfileView) -> Seq<char> {
    settings_of(debug_pairs(profile.environment))
}

/// The marker that is drawn from a process number and the time.
pub open spec fn drawn_marker(process: u32, nanos: Option<u128>) -> Seq<char> {
    marker_text(sha256(marker_seed(process, nanos)))
}

/// The connection of a preparation over a socket.
pub open spec fn connection_of(setup: Setup, socket: Seq<char>) -> ConnectionView {
    ConnectionView { dest: setup.dest.host, ssh_args: setup.dest.ssh_args, socket }
}

/// The file that remembers the session.
pub open spec fn state_path_in(setup: Setup, dir: Seq<char>) -> Seq<char> {
    path_under(dir, state_name(setup.root, setup.dest.host, setup.dest.ssh_args))
}

/// What a session that is open rests on: its connection, and the file that
/// remembers it.
pub struct Base<'a> {
    pub guard: ControlGuard<'a>,
    pub state_path: String,
}

/// What a [`Base`] holds.
pub struct BaseView {
    pub guard: ControlGuardView,
    pub state_path: Seq<char>,
}

impl<'a> View for Base<'a> {
    type V = BaseView;

    open spec fn view(&self) -> BaseView {
        BaseView { guard: self.guard@, state_path: self.state_path@ }
    }
}

/// How far a preparation has come.
pub enum PrepareStage<'a> {
    Seeding,
    Opening { socket: String },
    FindingHome { guard: ControlGuard<'a> },
    MakingDir { guard: ControlGuard<'a>, dir: String },
    Loading { base: Base<'a> },
    Listing { base: Base<'a>, found: Option<StateRecord>, listing: PayloadListing<'a> },
    Reading {
        base: Base<'a>,
        found: Option<StateRecord>,
        paths: Vec<String>,
        sorted: Vec<String>,
        files: Vec<PayloadFile>,
    },
    Probing { base: Base<'a>, record: StateRecord, paths: Vec<String>, fingerprint: String },
    Creating { base: Base<'a>, paths: Vec<String>, fingerprint: String },
    Drawing { base: Base<'a>, paths: Vec<String>, fingerprint: String, remote_root: String },
    Streaming { base: Base<'a>, paths: Vec<String>, record: StateRecord },
    Marking { base: Base<'a>, record: StateRecord },
    Saving { base: Base<'a>, record: StateRecord },
    FindingShell { base: Base<'a>, remote_root: String },
    Launching { base: Base<'a>, remote_root: String, shell: String, shell_name: String },
    Closing { conn: Connection, error: NomadError },
    Finished(Result<PreparedSession, NomadError>),
}

/// What a [`PrepareStage`] holds.
pub enum PrepareStageView {
    Seeding,
    Opening { socket: Seq<char> },
    FindingHome { guard: ControlGuardView },
    MakingDir { guard: ControlGuardView, dir: Seq<char> },
    Loading { base: BaseView },
    Listing { base: BaseView, found: Option<StateRecordView>, listing: PayloadStageView },
    Reading {
        base: BaseView,
        found: Option<StateRecordView>,
        paths: Seq<Seq<char>>,
        sorted: Seq<Seq<char>>,
        files: Seq<PayloadFileView>,
    },
    Probing {
        base: BaseView,
        record: StateRecordView,
        paths: Seq<Seq<char>>,
        fingerprint: Seq<char>,
    },
    Creating { base: BaseView, paths: Seq<Seq<char>>, fingerprint: Seq<char> },
    Drawing {
        base: BaseView,
        paths: Seq<Seq<char>>,
        fingerprint: Seq<char>,
        remote_root: Seq<char>,
    },
    Streaming { base: BaseView, paths: Seq<Seq<char>>, record: StateRecordView },
    Marking { base: BaseView, record: StateRecordView },
    Saving { base: BaseView, record: StateRecordView },
    FindingShell { base: BaseView, remote_root: Seq<char> },
    Launching {
        base: BaseView,
        remote_root: Seq<char>,
        shell: Seq<char>,
        shell_name: Seq<char>,
    },
    Closing { conn: ConnectionView, error: NomadErrorView },
    Finished(Result<PreparedSessionView, NomadErrorView>),
}

/// A session or the reason why there is none, seen through the views.
pub open spec fn session_outcome(r: Result<PreparedSession, NomadError>) -> Result<
    PreparedSessionView,
    NomadErrorView,
> {
    match r {
        Ok(session) => Ok(session@),
        Err(err) => Err(err@),
    }
}

impl<'a> View for PrepareStage<'a> {
    type V = PrepareStageView;

    open spec fn view(&self) -> PrepareStageView {
        match self {
            PrepareStage::Seeding => PrepareStageView::Seeding,
            PrepareStage::Opening { socket } => PrepareStageView::Opening { socket: socket@ },
            PrepareStage::FindingHome { guard } => PrepareStageView::FindingHome { guard: guard@ },
            PrepareStage::MakingDir { guard, dir } => PrepareStageView::MakingDir {
                guard: guard@,
                dir: dir@,
            },
            PrepareStage::Loading { base } => PrepareStageView::Loading { base: base@ },
            PrepareStage::Listing { base, found, listing } => PrepareStageView::Listing {
                base: base@,
                found: record_view(*found),
                listing: listing.stage(),
            },
            PrepareStage::Reading { base, found, paths, sorted, files } =>
                PrepareStageView::Reading {
                base: base@,
                found: record_view(*found),
                paths: texts(paths@),
                sorted: texts(sorted@),
                files: file_views(files@),
            },
            PrepareStage::Probing { base, record, paths, fingerprint } =>
                PrepareStageView::Probing {
                base: base@,
                record: record@,
                paths: texts(paths@),
                fingerprint: fingerprint@,
            },
            PrepareStage::Creating { base, paths, fingerprint } => PrepareStageView::Creating {
                base: base@,
                paths: texts(paths@),
                fingerprint: fingerprint@,
            },
            PrepareStage::Drawing { base, paths, fingerprint, remote_root } =>
                PrepareStageView::Drawing {
                base: base@,
                paths: texts(paths@),
                fingerprint: fingerprint@,
                remote_root: remote_root@,
            },
            PrepareStage::Streaming { base, paths, record } => PrepareStageView::Streaming {
                base: base@,
                paths: texts(paths@),
                record: record@,
            },
            PrepareStage::Marking { base, record } => PrepareStageView::Marking {
                base: base@,
                record: record@,
            },
            PrepareStage::Saving { base, record } => PrepareStageView::Saving {
                base: base@,
                record: record@,
            },
            PrepareStage::FindingShell { base, remote_root } => PrepareStageView::FindingShell {
                base: base@,
                remote_root: remote_root@,
            },
            PrepareStage::Launching { base, remote_root, shell, shell_name } =>
                PrepareStageView::Launching {
                base: base@,
                remote_root: remote_root@,
                shell: shell@,
                shell_name: shell_name@,
            },
            PrepareStage::Closing { conn, error } => PrepareStageView::Closing {
                conn: conn@,
                error: error@,
            },
            PrepareStage::Finished(r) => PrepareStageView::Finished(session_outcome(*r)),
        }
    }
}

/// What a stage asks for.
pub open spec fn prepare_request(setup: Setup, stage: PrepareStageView) -> Option<RequestView> {
    match stage {
        PrepareStageView::Seeding => Some(RequestView::DrawSeed),
        PrepareStageView::Opening { socket } => Some(
            RequestView::Remote(connection_of(setup, socket), RemoteStepView::Open),
        ),
        PrepareStageView::FindingHome { .. } => Some(RequestView::FindHomes),
        PrepareStageView::MakingDir { dir, .. } => Some(RequestView::MakeDir(dir)),
        PrepareStageView::Loading { base } => Some(RequestView::LoadRecord(base.state_path)),
        PrepareStageView::Listing { listing, .. } => match payload_request(listing) {
            Some(request) => Some(RequestView::Payload(request)),
            None => None,
        },
        PrepareStageView::Reading { sorted, files, .. } => Some(
            RequestView::ReadFile(path_under(setup.root, sorted[files.len() as int])),
        ),
        PrepareStageView::Probing { base, record, .. } => Some(
            RequestView::Remote(
                base.guard.conn,
                RemoteStepView::Status(probe_command(record.remote_root)),
            ),
        ),
        PrepareStageView::Creating { base, .. } => Some(
            RequestView::Remote(base.guard.conn, RemoteStepView::Capture(create_command())),
        ),
        PrepareStageView::Drawing { .. } => Some(RequestView::DrawSeed),
        PrepareStageView::Streaming { base, paths, record } => Some(
            RequestView::Remote(
                base.guard.conn,
                RemoteStepView::Stream {
                    local_root: setup.root,
                    paths,
                    remote_dir: record.remote_root,
                },
            ),
        ),
        PrepareStageView::Marking { base, record } => Some(
            RequestView::Remote(
                base.guard.conn,
                RemoteStepView::WriteFile {
                    path: marker_path(record.remote_root),
                    contents: record.marker,
                    executable: false,
                },
            ),
        ),
        PrepareStageView::Saving { base, record } => Some(
            RequestView::SaveRecord(base.state_path, record),
        ),
        PrepareStageView::FindingShell { base, .. } => Some(
            RequestView::Remote(base.guard.conn, RemoteStepView::Capture(shell_command())),
        ),
        PrepareStageView::Launching { base, remote_root, shell, shell_name } => Some(
            RequestView::Remote(
                base.guard.conn,
                RemoteStepView::WriteFile {
                    path: launcher_path(remote_root),
                    contents: launcher_text(setup.profile, remote_root, shell, shell_name),
                    executable: true,
                },
            ),
        ),
        PrepareStageView::Closing { conn, .. } => Some(
            RequestView::Remote(conn, RemoteStepView::Close),
        ),
        PrepareStageView::Finished(_) => None,
    }
}

/// The stage that ends in an error, once the connection is closed where that is
/// owed.
pub open spec fn failing(guard: ControlGuardView, error: NomadErrorView) -> PrepareStageView {
    if guard.disarmed {
        PrepareStageView::Finished(Err(error))
    } else {
        PrepareStageView::Closing { conn: guard.conn, error }
    }
}

/// The stage that has a fingerprint and looks for the remote directory.
pub open spec fn known_stage(
    base: BaseView,
    found: Option<StateRecordView>,
    paths: Seq<Seq<char>>,
    fingerprint: Seq<char>,
) -> PrepareStageView {
    match found {
        Some(record) => PrepareStageView::Probing { base, record, paths, fingerprint },
        None => PrepareStageView::Creating { base, paths, fingerprint },
    }
}

/// The stage that has read `files` of the paths `sorted`.
pub open spec fn reading_stage(
    profile: ProfileView,
    base: BaseView,
    found: Option<StateRecordView>,
    paths: Seq<Seq<char>>,
    sorted: Seq<Seq<char>>,
    files: Seq<PayloadFileView>,
) -> PrepareStageView {
    if files.len() < sorted.len() {
        PrepareStageView::Reading { base, found, paths, sorted, files }
    } else {
        known_stage(base, found, paths, fingerprint(files, profile_settings(profile)))
    }
}

/// The stage that lists the payload, or goes on once it is listed.
pub open spec fn listing_stage(
    profile: ProfileView,
    base: BaseView,
    found: Option<StateRecordView>,
    listing: PayloadStageView,
) -> PrepareStageView {
    match listing {
        PayloadStageView::Finished(Ok(paths)) => reading_stage(
            profile,
            base,
            found,
            paths,
            in_path_order(paths, own_path()),
            seq![],
        ),
        PayloadStageView::Finished(Err(err)) => failing(base.guard, NomadErrorView::Profile(err)),
        _ => PrepareStageView::Listing { base, found, listing },
    }
}

/// The stage that follows the answer to which shell the remote host has.
pub open spec fn shell_stage(base: BaseView, remote_root: Seq<char>, shell: Seq<char>) -> PrepareStageView {
    let shell_name = last_part(shell, '/');
    if shell.len() == 0 {
        failing(base.guard, NomadErrorView::NoShell)
    } else if shell_name != "zsh"@ && shell_name != "bash"@ {
        failing(base.guard, NomadErrorView::UnsupportedShell(shell))
    } else {
        PrepareStageView::Launching { base, remote_root, shell, shell_name }
    }
}

/// The session that is ready once its launcher is written.
pub open spec fn ready_session(
    base: BaseView,
    remote_root: Seq<char>,
    shell_name: Seq<char>,
) -> PreparedSessionView {
    PreparedSessionView {
        socket: base.guard.conn.socket,
        remote_root,
        remote_shell_name: shell_name,
        state_path: base.state_path,
    }
}

/// The stage that follows an answer. An answer that does not fit the question
/// changes nothing.
pub open spec fn next_prepare_stage(
    setup: Setup,
    stage: PrepareStageView,
    answer: AnswerView,
) -> PrepareStageView {
    match (stage, answer) {
        (PrepareStageView::Seeding, AnswerView::Seed(process, nanos)) => PrepareStageView::Opening {
            socket: socket_in(setup.temp_dir, "nomad-socket."@, drawn_marker(process, nanos)),
        },
        (PrepareStageView::Opening { socket }, AnswerView::Done(done)) => if done {
            PrepareStageView::FindingHome {
                guard: ControlGuardView { conn: connection_of(setup, socket), disarmed: false },
            }
        } else {
            PrepareStageView::Finished(Err(NomadErrorView::Open))
        },
        (
            PrepareStageView::FindingHome { guard },
            AnswerView::Homes(state_home, home),
        ) => match state_dir_in(state_home, home) {
            Some(dir) => PrepareStageView::MakingDir { guard, dir },
            None => failing(guard, NomadErrorView::NoHome),
        },
        (PrepareStageView::MakingDir { guard, dir }, AnswerView::Done(done)) => if done {
            PrepareStageView::Loading {
                base: BaseView { guard, state_path: state_path_in(setup, dir) },
            }
        } else {
            failing(guard, NomadErrorView::StateDir(dir))
        },
        (PrepareStageView::Loading { base }, AnswerView::Record(found)) => listing_stage(
            setup.profile,
            base,
            found,
            first_payload_stage(setup.profile, setup.root),
        ),
        (
            PrepareStageView::Listing { base, found, listing },
            AnswerView::Payload(answer),
        ) => listing_stage(
            setup.profile,
            base,
            found,
            next_payload_stage(setup.profile, listing, answer),
        ),
        (
            PrepareStageView::Reading { base, found, paths, sorted, files },
            AnswerView::Contents(contents),
        ) => {
            let path = sorted[files.len() as int];
            match contents {
                Some(contents) => reading_stage(
                    setup.profile,
                    base,
                    found,
                    paths,
                    sorted,
                    files.push(PayloadFileView { path, contents }),
                ),
                None => failing(
                    base.guard,
                    NomadErrorView::PayloadUnreadable(path_under(setup.root, path)),
                ),
            }
        },
        (
            PrepareStageView::Probing { base, record, paths, fingerprint },
            AnswerView::Status(status),
        ) => if status != Some(true) {
            PrepareStageView::Creating { base, paths, fingerprint }
        } else if record.fingerprint == fingerprint {
            PrepareStageView::FindingShell { base, remote_root: record.remote_root }
        } else {
            PrepareStageView::Streaming {
                base,
                paths,
                record: StateRecordView {
                    remote_root: record.remote_root,
                    marker: record.marker,
                    fingerprint,
                },
            }
        },
        (
            PrepareStageView::Creating { base, paths, fingerprint },
            AnswerView::Output(output),
        ) => match output {
            Some(remote_root) => PrepareStageView::Drawing {
                base,
                paths,
                fingerprint,
                remote_root,
            },
            None => failing(base.guard, NomadErrorView::Create),
        },
        (
            PrepareStageView::Drawing { base, paths, fingerprint, remote_root },
            AnswerView::Seed(process, nanos),
        ) => PrepareStageView::Streaming {
            base,
            paths,
            record: StateRecordView {
                remote_root,
                marker: drawn_marker(process, nanos),
                fingerprint,
            },
        },
        (PrepareStageView::Streaming { base, record, .. }, AnswerView::Done(done)) => if done {
            PrepareStageView::Marking { base, record }
        } else {
            failing(base.guard, NomadErrorView::Stream)
        },
        (PrepareStageView::Marking { base, record }, AnswerView::Done(done)) => if done {
            PrepareStageView::Saving { base, record }
        } else {
            failing(base.guard, NomadErrorView::WriteMarker)
        },
        (PrepareStageView::Saving { base, record }, AnswerView::Saved(saved)) => match saved {
            SaveOutcome::Written => PrepareStageView::FindingShell {
                base,
                remote_root: record.remote_root,
            },
            SaveOutcome::NotSerialized => failing(base.guard, NomadErrorView::SerializeState),
            SaveOutcome::NotWritten => failing(
                base.guard,
                NomadErrorView::WriteState(base.state_path),
            ),
        },
        (
            PrepareStageView::FindingShell { base, remote_root },
            AnswerView::Output(output),
        ) => match output {
            Some(shell) => shell_stage(base, remote_root, shell),
            None => failing(base.guard, NomadErrorView::ResolveShell),
        },
        (
            PrepareStageView::Launching { base, remote_root, shell_name, .. },
            AnswerView::Done(done),
        ) => if done {
            PrepareStageView::Finished(Ok(ready_session(base, remote_root, shell_name)))
        } else {
            failing(base.guard, NomadErrorView::WriteLauncher)
        },
        (PrepareStageView::Closing { error, .. }, AnswerView::Done(_)) =>
            PrepareStageView::Finished(Err(error)),
        _ => stage,
    }
}

/// Ends in an error, once the connection is closed where that is owed.
fn fail<'a>(guard: ControlGuard<'a>, error: NomadError) -> (r: PrepareStage<'a>)
    ensures
        r@ == failing(guard@, error@),
        !(r is Listing),
        !(r is Reading),
{
    match guard.release() {
        Some(conn) => PrepareStage::Closing { conn, error },
        None => PrepareStage::Finished(Err(error)),
    }
}

/// Goes on with the files that were read of the paths `sorted`.
fn read_from<'a>(
    profile: &Profile,
    base: Base<'a>,
    found: Option<StateRecord>,
    paths: Vec<String>,
    sorted: Vec<String>,
    files: Vec<PayloadFile>,
) -> (r: PrepareStage<'a>)
    ensures
        r@ == reading_stage(
            profile@,
            base@,
            record_view(found),
            texts(paths@),
            texts(sorted@),
            file_views(files@),
        ),
        !(r is Listing),
        r matches PrepareStage::Reading { sorted: s, files: f, .. } ==> f.len() < s.len(),
{
    if files.len() < sorted.len() {
        PrepareStage::Reading { base, found, paths, sorted, files }
    } else {
        let settings = settings_text(&profile.environment);
        let fingerprint = fingerprint_payload(&files, settings.as_str());
        match found {
            Some(record) => PrepareStage::Probing { base, record, paths, fingerprint },
            None => PrepareStage::Creating { base, paths, fingerprint },
        }
    }
}

/// Goes on with the listing of the payload.
fn list_from<'a>(
    profile: &Profile,
    base: Base<'a>,
    found: Option<StateRecord>,
    listing: PayloadListing<'a>,
) -> (r: PrepareStage<'a>)
    requires
        listing.profile() == profile@,
    ensures
        r@ == listing_stage(profile@, base@, record_view(found), listing.stage()),
        r matches PrepareStage::Listing { listing: l, .. } ==> l.profile() == profile@,
        r matches PrepareStage::Reading { sorted: s, files: f, .. } ==> f.len() < s.len(),
{
    match listing.finish() {
        Ok(Ok(paths)) => {
            let sorted = sort_paths(&paths);
            let files: Vec<PayloadFile> = Vec::new();
            proof {
                assert(file_views(files@) =~= seq![]);
            }
            read_from(profile, base, found, paths, sorted, files)
        },
        Ok(Err(err)) => fail(base.guard, NomadError::Profile(err)),
        Err(listing) => PrepareStage::Listing { base, found, listing },
    }
}

/// Goes on with the shell that the remote host has.
fn shell_from<'a>(base: Base<'a>, remote_root: String, shell: String) -> (r: PrepareStage<'a>)
    ensures
        r@ == shell_stage(base@, remote_root@, shell@),
        !(r is Listing),
        !(r is Reading),
{
    if shell.as_str().is_empty() {
        return fail(base.guard, NomadError::NoShell);
    }
    let shell_name = after_last(shell.as_str(), '/');
    if !same(shell_name.as_str(), "zsh") && !same(shell_name.as_str(), "bash") {
        fail(base.guard, NomadError::UnsupportedShell(shell))
    } else {
        PrepareStage::Launching { base, remote_root, shell, shell_name }
    }
}

/// A preparation that is under way.
pub struct Preparation<'a> {
    profile: &'a Profile,
    dest: &'a Destination,
    root: String,
    temp_dir: String,
    stage: PrepareStage<'a>,
}

impl<'a> Preparation<'a> {
    /// What the preparation started from.
    pub closed spec fn setup(&self) -> Setup {
        Setup {
            profile: self.profile@,
            dest: self.dest@,
            root: self.root@,
            temp_dir: self.temp_dir@,
        }
    }

    /// How far the preparation has come.
    pub closed spec fn stage(&self) -> PrepareStageView {
        self.stage@
    }

    #[verifier::type_invariant]
    spec fn consistent(&self) -> bool {
        match self.stage {
            PrepareStage::Listing { listing, .. } => listing.profile() == self.profile@,
            PrepareStage::Reading { sorted, files, .. } => files.len() < sorted.len(),
            _ => true,
        }
    }

    /// What the preparation asks for next, if it goes on.
    pub fn request(&self) -> (r: Option<Request>)
        ensures
            request_view(r) == prepare_request(self.setup(), self.stage()),
    {
        proof {
            use_type_invariant(self);
        }
        match &self.stage {
            PrepareStage::Seeding => Some(Request::DrawSeed),
            PrepareStage::Opening { socket } => Some(
                Request::Remote(Connection::to(self.dest, socket.as_str()), RemoteStep::Open),
            ),
            PrepareStage::FindingHome { .. } => Some(Request::FindHomes),
            PrepareStage::MakingDir { dir, .. } => Some(Request::MakeDir(dir.clone())),
            PrepareStage::Loading { base } => Some(Request::LoadRecord(base.state_path.clone())),
            PrepareStage::Listing { listing, .. } => match listing.request() {
                Some(request) => Some(Request::Payload(request)),
                None => None,
            },
            PrepareStage::Reading { sorted, files, .. } => Some(
                Request::ReadFile(join_path(self.root.as_str(), sorted[files.len()].as_str())),
            ),
            PrepareStage::Probing { base, record, .. } => {
                let marker = joined(record.remote_root.as_str(), "/.nomad-marker");
                let mut command = "test -d ".to_owned();
                command.append(shell_quote(record.remote_root.as_str()).as_str());
                command.append(" && test -f ");
                command.append(shell_quote(marker.as_str()).as_str());
                Some(Request::Remote(base.guard.connection(), RemoteStep::Status(command)))
            },
            PrepareStage::Creating { base, .. } => Some(
                Request::Remote(
                    base.guard.connection(),
                    RemoteStep::Capture("mktemp -d \"${TMPDIR:-/tmp}/nomad.XXXXXXXX\"".to_owned()),
                ),
            ),
            PrepareStage::Drawing { .. } => Some(Request::DrawSeed),
            PrepareStage::Streaming { base, paths, record } => Some(
                Request::Remote(
                    base.guard.connection(),
                    RemoteStep::Stream {
                        local_root: self.root.clone(),
                        paths: copied(paths),
                        remote_dir: record.remote_root.clone(),
                    },
                ),
            ),
            PrepareStage::Marking { base, record } => Some(
                Request::Remote(
                    base.guard.connection(),
                    RemoteStep::WriteFile {
                        path: joined(record.remote_root.as_str(), "/.nomad-marker"),
                        contents: record.marker.clone(),
                        executable: false,
                    },
                ),
            ),
            PrepareStage::Saving { base, record } => Some(
                Request::SaveRecord(
                    base.state_path.clone(),
                    StateRecord {
                        remote_root: record.remote_root.clone(),
                        marker: record.marker.clone(),
                        fingerprint: record.fingerprint.clone(),
                    },
                ),
            ),
            PrepareStage::FindingShell { base, .. } => Some(
                Request::Remote(
                    base.guard.connection(),
                    RemoteStep::Capture(
                        "command -v zsh 2>/dev/null || command -v bash 2>/dev/null".to_owned(),
                    ),
                ),
            ),
            PrepareStage::Launching { base, remote_root, shell, shell_name } => Some(
                Request::Remote(
                    base.guard.connection(),
                    RemoteStep::WriteFile {
                        path: joined(remote_root.as_str(), "/.nomad-shell"),
                        contents: render_launcher(
                            self.profile,
                            remote_root.as_str(),
                            shell.as_str(),
                            shell_name.as_str(),
                        ),
                        executable: true,
                    },
                ),
            ),
            PrepareStage::Closing { conn, .. } => Some(
                Request::Remote(conn.duplicate(), RemoteStep::Close),
            ),
            PrepareStage::Finished(_) => None,
        }
    }

    /// The preparation after an answer to its request.
    pub fn answer(self, answer: Answer) -> (r: Preparation<'a>)
        ensures
            r.setup() == self.setup(),
            r.stage() == next_prepare_stage(self.setup(), self.stage(), answer@),
    {
        proof {
            use_type_invariant(&self);
        }
        let profile = self.profile;
        let dest = self.dest;
        let root = self.root;
        let temp_dir = self.temp_dir;
        let stage = match (self.stage, answer) {
            (PrepareStage::Seeding, Answer::Seed(process, nanos)) => {
                let marker = generate_marker(process, nanos);
                PrepareStage::Opening {
                    socket: socket_path(temp_dir.as_str(), "nomad-socket.", marker.as_str()),
                }
            },
            (PrepareStage::Opening { socket }, Answer::Done(done)) => if done {
                PrepareStage::FindingHome { guard: ControlGuard::new(dest, socket) }
            } else {
                PrepareStage::Finished(Err(NomadError::Open))
            },
            (PrepareStage::FindingHome { guard }, Answer::Homes(state_home, home)) => match state_dir(
                &state_home,
                &home,
            ) {
                Some(dir) => PrepareStage::MakingDir { guard, dir },
                None => fail(guard, NomadError::NoHome),
            },
            (PrepareStage::MakingDir { guard, dir }, Answer::Done(done)) => if done {
                let state_path = state_file_path(
                    dir.as_str(),
                    root.as_str(),
                    dest.host.as_str(),
                    dest.ssh_args.as_slice(),
                );
                PrepareStage::Loading { base: Base { guard, state_path } }
            } else {
                fail(guard, NomadError::StateDir(dir))
            },
            (PrepareStage::Loading { base }, Answer::Record(found)) => list_from(
                profile,
                base,
                found,
                profile.payload_paths(root.as_str()),
            ),
            (PrepareStage::Listing { base, found, listing }, Answer::Payload(answer)) => list_from(
                profile,
                base,
                found,
                listing.answer(answer),
            ),
            (
                PrepareStage::Reading { base, found, paths, sorted, files },
                Answer::Contents(contents),
            ) => {
                let path = sorted[files.len()].clone();
                match contents {
                    Some(contents) => {
                        let ghost before = files@;
                        let mut files = files;
                        files.push(PayloadFile { path, contents });
                        proof {
                            assert(file_views(files@) =~= file_views(before).push(files@.last()@));
                        }
                        read_from(profile, base, found, paths, sorted, files)
                    },
                    None => fail(
                        base.guard,
                        NomadError::PayloadUnreadable(join_path(root.as_str(), path.as_str())),
                    ),
                }
            },
            (
                PrepareStage::Probing { base, record, paths, fingerprint },
                Answer::Status(status),
            ) => match status {
                Some(true) => if same(record.fingerprint.as_str(), fingerprint.as_str()) {
                    PrepareStage::FindingShell { base, remote_root: record.remote_root }
                } else {
                    PrepareStage::Streaming {
                        base,
                        paths,
                        record: StateRecord {
                            remote_root: record.remote_root,
                            marker: record.marker,
                            fingerprint,
                        },
                    }
                },
                _ => PrepareStage::Creating { base, paths, fingerprint },
            },
            (PrepareStage::Creating { base, paths, fingerprint }, Answer::Output(output)) => match output {
                Some(remote_root) => PrepareStage::Drawing {
                    base,
                    paths,
                    fingerprint,
                    remote_root,
                },
                None => fail(base.guard, NomadError::Create),
            },
            (
                PrepareStage::Drawing { base, paths, fingerprint, remote_root },
                Answer::Seed(process, nanos),
            ) => PrepareStage::Streaming {
                base,
                paths,
                record: StateRecord {
                    remote_root,
                    marker: generate_marker(process, nanos),
                    fingerprint,
                },
            },
            (PrepareStage::Streaming { base, record, .. }, Answer::Done(done)) => if done {
                PrepareStage::Marking { base, record }
            } else {
                fail(base.guard, NomadError::Stream)
            },
            (PrepareStage::Marking { base, record }, Answer::Done(done)) => if done {
                PrepareStage::Saving { base, record }
            } else {
                fail(base.guard, NomadError::WriteMarker)
            },
            (PrepareStage::Saving { base, record }, Answer::Saved(saved)) => match saved {
                SaveOutcome::Written => PrepareStage::FindingShell {
                    base,
                    remote_root: record.remote_root,
                },
                SaveOutcome::NotSerialized => fail(base.guard, NomadError::SerializeState),
                SaveOutcome::NotWritten => fail(base.guard, NomadError::WriteState(base.state_path)),
            },
            (PrepareStage::FindingShell { base, remote_root }, Answer::Output(output)) => match output {
                Some(shell) => shell_from(base, remote_root, shell),
                None => fail(base.guard, NomadError::ResolveShell),
            },
            (
                PrepareStage::Launching { base, remote_root, shell_name, .. },
                Answer::Done(done),
            ) => if done {
                // The connection stays open for the session that is entered.
                let mut guard = base.guard;
                guard.disarm();
                let socket = guard.connection().socket;
                PrepareStage::Finished(
                    Ok(
                        PreparedSession {
                            socket,
                            remote_root,
                            remote_shell_name: shell_name,
                            state_path: base.state_path,
                        },
                    ),
                )
            } else {
                fail(base.guard, NomadError::WriteLauncher)
            },
            (PrepareStage::Closing { error, .. }, Answer::Done(_)) => PrepareStage::Finished(
                Err(error),
            ),
            (stage, _) => stage,
        };
        Preparation { profile, dest, root, temp_dir, stage }
    }

    /// The session or the reason why there is none, once the preparation is
    /// through.
    pub fn outcome(self) -> (r: Option<Result<PreparedSession, NomadError>>)
        ensures
            match r {
                Some(outcome) => self.stage() == PrepareStageView::Finished(
                    session_outcome(outcome),
                ),
                None => !(self.stage() is Finished),
            },
    {
        match self.stage {
            PrepareStage::Finished(outcome) => Some(outcome),
            _ => None,
        }
    }
}

impl<'a> Nomad<'a> {
    /// Begins to prepare a session on `dest` with the profile root at `root`.
    pub fn prepare(&self, dest: &'a Destination, root: &str, temp_dir: &str) -> (r: Preparation<'a>)
        ensures
            r.setup() == (Setup {
                profile: self.profile@,
                dest: dest@,
                root: root@,
                temp_dir: temp_dir@,
            }),
            r.stage() == PrepareStageView::Seeding,
    {
        Preparation {
            profile: self.profile,
            dest,
            root: root.to_owned(),
            temp_dir: temp_dir.to_owned(),
            stage: PrepareStage::Seeding,
        }
    }
}

} // verus!
