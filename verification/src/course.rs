//! What the preparation and the clean-up of a session come to: every request
//! that they make and how they end, where the outside world answers in a fixed
//! way.

use vstd::prelude::*;

use crate::clean::{
    clean_connection, clean_request, ending_clean, marker_command, marker_matches,
    next_clean_stage, record_path, remove_command, CleanSetup, CleanStageView,
};
use crate::nomad::{
    launcher_path, launcher_text, marker_path, removal_verdict, ControlGuardView, NomadErrorView,
    PreparedSessionView,
};
use crate::paths::{in_path_order, own_path, path_under};
use crate::payload::{
    first_payload_stage, items_of, items_stage, payload_of, tracked_from, tracked_paths,
    PayloadAnswerView, PayloadRequestView, PayloadStageView,
};
use crate::prepare::{
    connection_of, create_command, drawn_marker, failing, known_stage, listing_stage,
    next_prepare_stage, prepare_request, probe_command, profile_settings, reading_stage,
    ready_session, shell_command, state_path_in, BaseView, PrepareStageView, Setup,
};
use crate::profile::ProfileErrorView;
use crate::protocol::SaveOutcome;
use crate::protocol::{AnswerView, ConnectionView, Ending, RemoteStepView, RequestView};
use crate::session::{fingerprint, socket_in, state_dir_in, PayloadFileView, StateRecordView};
use crate::text::{last_part, lossy_text};

verus! {

/// An outside world that answers in a fixed way.
pub struct World {
    /// The process number and the time at the first draw.
    pub first_seed: (u32, Option<u128>),
    /// The process number and the time at a later draw.
    pub later_seed: (u32, Option<u128>),
    pub state_home: Option<Seq<char>>,
    pub home: Option<Seq<char>>,
    /// Whether a directory can be made.
    pub makes_dir: spec_fn(Seq<char>) -> bool,
    /// What the file at a path remembers.
    pub record: spec_fn(Seq<char>) -> Option<StateRecordView>,
    /// The text of the manifest.
    pub manifest: Option<Seq<char>>,
    /// What Git writes of a manifest entry.
    pub listing: spec_fn(Seq<char>) -> Option<Seq<u8>>,
    /// The contents of the file at a path.
    pub contents: spec_fn(Seq<char>) -> Option<Seq<u8>>,
    /// How the attempt to remember a session goes.
    pub saves: SaveOutcome,
    /// Whether a control connection can be opened.
    pub opens: bool,
    /// Whether a remote command exits with success, if it can be run.
    pub status: spec_fn(Seq<char>) -> Option<bool>,
    /// What a remote command writes, if it exits with success.
    pub output: spec_fn(Seq<char>) -> Option<Seq<char>>,
    /// Whether a remote file can be written.
    pub writes: spec_fn(Seq<char>) -> bool,
    /// Whether the payload can be streamed.
    pub streams: bool,
    /// How an interactive session goes.
    pub ending: Ending,
}

impl World {
    /// How the world answers a request, the first draw of a seed apart.
    pub open spec fn reply(self, request: RequestView) -> AnswerView {
        match request {
            RequestView::DrawSeed => AnswerView::Seed(self.later_seed.0, self.later_seed.1),
            RequestView::FindHomes => AnswerView::Homes(self.state_home, self.home),
            RequestView::MakeDir(dir) => AnswerView::Done((self.makes_dir)(dir)),
            RequestView::LoadRecord(path) => AnswerView::Record((self.record)(path)),
            RequestView::Payload(PayloadRequestView::ReadManifest(_)) => AnswerView::Payload(
                PayloadAnswerView::Manifest(self.manifest),
            ),
            RequestView::Payload(PayloadRequestView::ListTracked(item)) => AnswerView::Payload(
                PayloadAnswerView::Listing((self.listing)(item)),
            ),
            RequestView::ReadFile(path) => AnswerView::Contents((self.contents)(path)),
            RequestView::SaveRecord(_, _) => AnswerView::Saved(self.saves),
            RequestView::RemoveRecord(_) => AnswerView::Done(true),
            RequestView::Remote(_, step) => match step {
                RemoteStepView::Open => AnswerView::Done(self.opens),
                RemoteStepView::Close => AnswerView::Done(true),
                RemoteStepView::Status(command) => AnswerView::Status((self.status)(command)),
                RemoteStepView::Capture(command) => AnswerView::Output((self.output)(command)),
                RemoteStepView::WriteFile { path, .. } => AnswerView::Done((self.writes)(path)),
                RemoteStepView::Stream { .. } => AnswerView::Done(self.streams),
                RemoteStepView::Interactive { .. } => AnswerView::Ended(self.ending),
            },
        }
    }

    /// How the world answers a request of a preparation at a stage.
    pub open spec fn answer_at(self, stage: PrepareStageView, request: RequestView) -> AnswerView {
        if stage is Seeding {
            AnswerView::Seed(self.first_seed.0, self.first_seed.1)
        } else {
            self.reply(request)
        }
    }
}

/// The requests that were made and the stage that was reached after at most `n`
/// of them.
pub open spec fn prepare_run(setup: Setup, world: World, stage: PrepareStageView, n: nat) -> (
    Seq<RequestView>,
    PrepareStageView,
)
    decreases n,
{
    if n == 0 {
        (seq![], stage)
    } else {
        match prepare_request(setup, stage) {
            None => (seq![], stage),
            Some(request) => {
                let (log, end) = prepare_run(
                    setup,
                    world,
                    next_prepare_stage(setup, stage, world.answer_at(stage, request)),
                    (n - 1) as nat,
                );
                (seq![request] + log, end)
            },
        }
    }
}

/// The requests that are made, and how that ends.
pub type Course = (Seq<RequestView>, Result<PreparedSessionView, NomadErrorView>);

/// A request, and then the rest of a course.
pub open spec fn asking(request: RequestView, rest: Course) -> Course {
    (seq![request] + rest.0, rest.1)
}

/// The connection is closed, and the preparation fails.
pub open spec fn failed_course(conn: ConnectionView, error: NomadErrorView) -> Course {
    (seq![RequestView::Remote(conn, RemoteStepView::Close)], Err(error))
}

/// The shell is looked for, and its launcher is written.
pub open spec fn launch_course(
    setup: Setup,
    world: World,
    conn: ConnectionView,
    state_path: Seq<char>,
    remote_root: Seq<char>,
) -> Course {
    asking(
        RequestView::Remote(conn, RemoteStepView::Capture(shell_command())),
        match (world.output)(shell_command()) {
            None => failed_course(conn, NomadErrorView::ResolveShell),
            Some(shell) => {
                let shell_name = last_part(shell, '/');
                if shell.len() == 0 {
                    failed_course(conn, NomadErrorView::NoShell)
                } else if shell_name != "zsh"@ && shell_name != "bash"@ {
                    failed_course(conn, NomadErrorView::UnsupportedShell(shell))
                } else {
                    asking(
                        RequestView::Remote(
                            conn,
                            RemoteStepView::WriteFile {
                                path: launcher_path(remote_root),
                                contents: launcher_text(
                                    setup.profile,
                                    remote_root,
                                    shell,
                                    shell_name,
                                ),
                                executable: true,
                            },
                        ),
                        if (world.writes)(launcher_path(remote_root)) {
                            (
                                seq![],
                                Ok(
                                    PreparedSessionView {
                                        socket: conn.socket,
                                        remote_root,
                                        remote_shell_name: shell_name,
                                        state_path,
                                    },
                                ),
                            )
                        } else {
                            failed_course(conn, NomadErrorView::WriteLauncher)
                        },
                    )
                }
            },
        },
    )
}

/// The payload is streamed, the marker written and the session remembered.
pub open spec fn refresh_course(
    setup: Setup,
    world: World,
    conn: ConnectionView,
    state_path: Seq<char>,
    paths: Seq<Seq<char>>,
    record: StateRecordView,
) -> Course {
    asking(
        RequestView::Remote(
            conn,
            RemoteStepView::Stream {
                local_root: setup.root,
                paths,
                remote_dir: record.remote_root,
            },
        ),
        if !world.streams {
            failed_course(conn, NomadErrorView::Stream)
        } else {
            asking(
                RequestView::Remote(
                    conn,
                    RemoteStepView::WriteFile {
                        path: marker_path(record.remote_root),
                        contents: record.marker,
                        executable: false,
                    },
                ),
                if !(world.writes)(marker_path(record.remote_root)) {
                    failed_course(conn, NomadErrorView::WriteMarker)
                } else {
                    asking(
                        RequestView::SaveRecord(state_path, record),
                        match world.saves {
                            SaveOutcome::Written => launch_course(
                                setup,
                                world,
                                conn,
                                state_path,
                                record.remote_root,
                            ),
                            SaveOutcome::NotSerialized => failed_course(
                                conn,
                                NomadErrorView::SerializeState,
                            ),
                            SaveOutcome::NotWritten => failed_course(
                                conn,
                                NomadErrorView::WriteState(state_path),
                            ),
                        },
                    )
                },
            )
        },
    )
}

/// A remote directory is made, a marker drawn, and the directory filled.
pub open spec fn create_course(
    setup: Setup,
    world: World,
    conn: ConnectionView,
    state_path: Seq<char>,
    paths: Seq<Seq<char>>,
    fingerprint: Seq<char>,
) -> Course {
    asking(
        RequestView::Remote(conn, RemoteStepView::Capture(create_command())),
        match (world.output)(create_command()) {
            None => failed_course(conn, NomadErrorView::Create),
            Some(remote_root) => asking(
                RequestView::DrawSeed,
                refresh_course(
                    setup,
                    world,
                    conn,
                    state_path,
                    paths,
                    StateRecordView {
                        remote_root,
                        marker: drawn_marker(world.later_seed.0, world.later_seed.1),
                        fingerprint,
                    },
                ),
            ),
        },
    )
}

/// The directory that is remembered is used again where it is still there, and
/// filled again only if the fingerprint has changed.
pub open spec fn known_course(
    setup: Setup,
    world: World,
    conn: ConnectionView,
    state_path: Seq<char>,
    found: Option<StateRecordView>,
    paths: Seq<Seq<char>>,
    fingerprint: Seq<char>,
) -> Course {
    match found {
        None => create_course(setup, world, conn, state_path, paths, fingerprint),
        Some(record) => asking(
            RequestView::Remote(conn, RemoteStepView::Status(probe_command(record.remote_root))),
            if (world.status)(probe_command(record.remote_root)) != Some(true) {
                create_course(setup, world, conn, state_path, paths, fingerprint)
            } else if record.fingerprint == fingerprint {
                launch_course(setup, world, conn, state_path, record.remote_root)
            } else {
                refresh_course(
                    setup,
                    world,
                    conn,
                    state_path,
                    paths,
                    StateRecordView {
                        remote_root: record.remote_root,
                        marker: record.marker,
                        fingerprint,
                    },
                )
            },
        ),
    }
}

/// The requests that read the files at the paths `sorted`, from position `i` on.
pub open spec fn reading_log(root: Seq<char>, world: World, sorted: Seq<Seq<char>>, i: int) -> Seq<
    RequestView,
>
    decreases sorted.len() - i,
{
    if i < 0 || i >= sorted.len() {
        seq![]
    } else {
        let path = path_under(root, sorted[i]);
        seq![RequestView::ReadFile(path)] + match (world.contents)(path) {
            None => seq![],
            Some(_) => reading_log(root, world, sorted, i + 1),
        }
    }
}

/// The files at the paths `sorted`, from position `i` on.
pub open spec fn files_read(root: Seq<char>, world: World, sorted: Seq<Seq<char>>, i: int) -> Result<
    Seq<PayloadFileView>,
    NomadErrorView,
>
    decreases sorted.len() - i,
{
    if i < 0 || i >= sorted.len() {
        Ok(seq![])
    } else {
        let path = path_under(root, sorted[i]);
        match (world.contents)(path) {
            None => Err(NomadErrorView::PayloadUnreadable(path)),
            Some(contents) => match files_read(root, world, sorted, i + 1) {
                Err(err) => Err(err),
                Ok(rest) => Ok(seq![PayloadFileView { path: sorted[i], contents }] + rest),
            },
        }
    }
}

/// The requests that ask Git about the entries of a manifest, from position `i`
/// on.
pub open spec fn tracked_log(world: World, items: Seq<Seq<char>>, i: int) -> Seq<RequestView>
    decreases items.len() - i,
{
    if i < 0 || i >= items.len() {
        seq![]
    } else {
        seq![RequestView::Payload(PayloadRequestView::ListTracked(items[i]))] + match (
        world.listing)(items[i]) {
            None => seq![],
            Some(bytes) => match tracked_paths(items[i], lossy_text(bytes)) {
                Err(_) => seq![],
                Ok(_) => tracked_log(world, items, i + 1),
            },
        }
    }
}

/// The requests that list the payload.
pub open spec fn payload_log(setup: Setup, world: World) -> Seq<RequestView> {
    match setup.profile.payload.manifest {
        None => seq![],
        Some(manifest) => seq![
            RequestView::Payload(
                PayloadRequestView::ReadManifest(path_under(setup.root, manifest)),
            ),
        ] + match world.manifest {
            None => seq![],
            Some(text) => if setup.profile.validate.git {
                tracked_log(world, items_of(text), 0)
            } else {
                seq![]
            },
        },
    }
}

/// The paths of the payload.
pub open spec fn payload_in(setup: Setup, world: World) -> Result<
    Seq<Seq<char>>,
    ProfileErrorView,
> {
    payload_of(setup.profile, setup.root, world.manifest, world.listing)
}

/// Requests, and then the rest of a course.
pub open spec fn after_log(log: Seq<RequestView>, rest: Course) -> Course {
    (log + rest.0, rest.1)
}

/// The files of the payload are read and the remote directory is brought up to
/// date with them.
pub open spec fn read_course(
    setup: Setup,
    world: World,
    conn: ConnectionView,
    state_path: Seq<char>,
    found: Option<StateRecordView>,
    paths: Seq<Seq<char>>,
) -> Course {
    let sorted = in_path_order(paths, own_path());
    after_log(
        reading_log(setup.root, world, sorted, 0),
        match files_read(setup.root, world, sorted, 0) {
            Err(err) => failed_course(conn, err),
            Ok(files) => known_course(
                setup,
                world,
                conn,
                state_path,
                found,
                paths,
                fingerprint(files, profile_settings(setup.profile)),
            ),
        },
    )
}

/// The payload is listed, and then read.
pub open spec fn list_course(
    setup: Setup,
    world: World,
    conn: ConnectionView,
    state_path: Seq<char>,
    found: Option<StateRecordView>,
) -> Course {
    after_log(
        payload_log(setup, world),
        match payload_in(setup, world) {
            Err(err) => failed_course(conn, NomadErrorView::Profile(err)),
            Ok(paths) => read_course(setup, world, conn, state_path, found, paths),
        },
    )
}

/// The record of the session is looked for, and then the payload is listed.
pub open spec fn open_course(setup: Setup, world: World, conn: ConnectionView) -> Course {
    asking(
        RequestView::FindHomes,
        match state_dir_in(world.state_home, world.home) {
            None => failed_course(conn, NomadErrorView::NoHome),
            Some(dir) => asking(
                RequestView::MakeDir(dir),
                if !(world.makes_dir)(dir) {
                    failed_course(conn, NomadErrorView::StateDir(dir))
                } else {
                    let state_path = state_path_in(setup, dir);
                    asking(
                        RequestView::LoadRecord(state_path),
                        list_course(setup, world, conn, state_path, (world.record)(state_path)),
                    )
                },
            ),
        },
    )
}

/// The connection that a preparation opens.
pub open spec fn opened_connection(setup: Setup, world: World) -> ConnectionView {
    connection_of(
        setup,
        socket_in(
            setup.temp_dir,
            "nomad-socket."@,
            drawn_marker(world.first_seed.0, world.first_seed.1),
        ),
    )
}

/// The whole of a preparation: every request that it makes, and how it ends.
pub open spec fn prepare_course(setup: Setup, world: World) -> Course {
    let conn = opened_connection(setup, world);
    asking(
        RequestView::DrawSeed,
        asking(
            RequestView::Remote(conn, RemoteStepView::Open),
            if world.opens {
                open_course(setup, world, conn)
            } else {
                (seq![], Err(NomadErrorView::Open))
            },
        ),
    )
}

/// Whether a run of at most `n` requests from a stage follows a course to its
/// end.
pub open spec fn follows(
    setup: Setup,
    world: World,
    stage: PrepareStageView,
    course: Course,
) -> bool {
    forall|n: nat|
        n >= course.0.len() ==> #[trigger] prepare_run(setup, world, stage, n) == (
            course.0,
            PrepareStageView::Finished(course.1),
        )
}

/// A preparation comes to an end, and makes exactly the requests that
/// [`prepare_course`] gives, in that order, with that outcome.
pub proof fn law_preparation_takes_its_course(setup: Setup, world: World, n: nat)
    requires
        n >= prepare_course(setup, world).0.len(),
    ensures
        prepare_run(setup, world, PrepareStageView::Seeding, n) == (
            prepare_course(setup, world).0,
            PrepareStageView::Finished(prepare_course(setup, world).1),
        ),
{
    let socket = socket_in(
        setup.temp_dir,
        "nomad-socket."@,
        drawn_marker(world.first_seed.0, world.first_seed.1),
    );
    let conn = connection_of(setup, socket);
    let opening = PrepareStageView::Opening { socket };
    let rest = if world.opens {
        open_course(setup, world, conn)
    } else {
        (seq![], Err(NomadErrorView::Open))
    };
    if world.opens {
        let guard = ControlGuardView { conn, disarmed: false };
        lemma_open_course(setup, world, guard);
        lemma_step(setup, world, opening, rest);
    } else {
        lemma_finished(setup, world, Err(NomadErrorView::Open));
        lemma_step(setup, world, opening, rest);
    }
    lemma_step(
        setup,
        world,
        PrepareStageView::Seeding,
        asking(RequestView::Remote(conn, RemoteStepView::Open), rest),
    );
}

/// One request, and then the rest of the course.
proof fn lemma_step(setup: Setup, world: World, stage: PrepareStageView, rest: Course)
    requires
        prepare_request(setup, stage) is Some,
        follows(
            setup,
            world,
            next_prepare_stage(
                setup,
                stage,
                world.answer_at(stage, prepare_request(setup, stage)->0),
            ),
            rest,
        ),
    ensures
        follows(setup, world, stage, asking(prepare_request(setup, stage)->0, rest)),
{
    let course = asking(prepare_request(setup, stage)->0, rest);
    let next = next_prepare_stage(
        setup,
        stage,
        world.answer_at(stage, prepare_request(setup, stage)->0),
    );
    assert forall|n: nat| n >= course.0.len() implies #[trigger] prepare_run(setup, world, stage, n)
        == (course.0, PrepareStageView::Finished(course.1)) by {
        assert(prepare_run(setup, world, next, (n - 1) as nat) == (
            rest.0,
            PrepareStageView::Finished(rest.1),
        ));
    }
}

/// A stage that is finished makes no request.
proof fn lemma_finished(
    setup: Setup,
    world: World,
    outcome: Result<PreparedSessionView, NomadErrorView>,
)
    ensures
        follows(setup, world, PrepareStageView::Finished(outcome), (seq![], outcome)),
{
}

proof fn lemma_failed_course(
    setup: Setup,
    world: World,
    guard: ControlGuardView,
    error: NomadErrorView,
)
    requires
        !guard.disarmed,
    ensures
        follows(setup, world, failing(guard, error), failed_course(guard.conn, error)),
{
    lemma_finished(setup, world, Err(error));
    lemma_step(setup, world, failing(guard, error), (seq![], Err(error)));
    assert(seq![RequestView::Remote(guard.conn, RemoteStepView::Close)] + Seq::empty()
        =~= seq![RequestView::Remote(guard.conn, RemoteStepView::Close)]);
}

proof fn lemma_launch_course(setup: Setup, world: World, base: BaseView, remote_root: Seq<char>)
    requires
        !base.guard.disarmed,
    ensures
        follows(
            setup,
            world,
            PrepareStageView::FindingShell { base, remote_root },
            launch_course(setup, world, base.guard.conn, base.state_path, remote_root),
        ),
{
    let stage = PrepareStageView::FindingShell { base, remote_root };
    let conn = base.guard.conn;
    match (world.output)(shell_command()) {
        None => {
            lemma_failed_course(setup, world, base.guard, NomadErrorView::ResolveShell);
            lemma_step(setup, world, stage, failed_course(conn, NomadErrorView::ResolveShell));
        },
        Some(shell) => {
            let shell_name = last_part(shell, '/');
            if shell.len() == 0 {
                lemma_failed_course(setup, world, base.guard, NomadErrorView::NoShell);
                lemma_step(setup, world, stage, failed_course(conn, NomadErrorView::NoShell));
            } else if shell_name != "zsh"@ && shell_name != "bash"@ {
                let error = NomadErrorView::UnsupportedShell(shell);
                lemma_failed_course(setup, world, base.guard, error);
                lemma_step(setup, world, stage, failed_course(conn, error));
            } else {
                let launching = PrepareStageView::Launching {
                    base,
                    remote_root,
                    shell,
                    shell_name,
                };
                let rest = if (world.writes)(launcher_path(remote_root)) {
                    (seq![], Ok(ready_session(base, remote_root, shell_name)))
                } else {
                    failed_course(conn, NomadErrorView::WriteLauncher)
                };
                lemma_finished(setup, world, Ok(ready_session(base, remote_root, shell_name)));
                lemma_failed_course(setup, world, base.guard, NomadErrorView::WriteLauncher);
                lemma_step(setup, world, launching, rest);
                lemma_step(
                    setup,
                    world,
                    stage,
                    asking(prepare_request(setup, launching)->0, rest),
                );
            }
        },
    }
}

proof fn lemma_refresh_course(
    setup: Setup,
    world: World,
    base: BaseView,
    paths: Seq<Seq<char>>,
    record: StateRecordView,
)
    requires
        !base.guard.disarmed,
    ensures
        follows(
            setup,
            world,
            PrepareStageView::Streaming { base, paths, record },
            refresh_course(setup, world, base.guard.conn, base.state_path, paths, record),
        ),
{
    let conn = base.guard.conn;
    let streaming = PrepareStageView::Streaming { base, paths, record };
    let marking = PrepareStageView::Marking { base, record };
    let saving = PrepareStageView::Saving { base, record };
    lemma_failed_course(setup, world, base.guard, NomadErrorView::Stream);
    lemma_failed_course(setup, world, base.guard, NomadErrorView::WriteMarker);
    lemma_failed_course(setup, world, base.guard, NomadErrorView::SerializeState);
    lemma_failed_course(setup, world, base.guard, NomadErrorView::WriteState(base.state_path));
    lemma_launch_course(setup, world, base, record.remote_root);
    let saved = match world.saves {
        SaveOutcome::Written => launch_course(
            setup,
            world,
            conn,
            base.state_path,
            record.remote_root,
        ),
        SaveOutcome::NotSerialized => failed_course(conn, NomadErrorView::SerializeState),
        SaveOutcome::NotWritten => failed_course(
            conn,
            NomadErrorView::WriteState(base.state_path),
        ),
    };
    lemma_step(setup, world, saving, saved);
    let marked = if !(world.writes)(marker_path(record.remote_root)) {
        failed_course(conn, NomadErrorView::WriteMarker)
    } else {
        asking(prepare_request(setup, saving)->0, saved)
    };
    lemma_step(setup, world, marking, marked);
    let streamed = if !world.streams {
        failed_course(conn, NomadErrorView::Stream)
    } else {
        asking(prepare_request(setup, marking)->0, marked)
    };
    lemma_step(setup, world, streaming, streamed);
}

proof fn lemma_create_course(
    setup: Setup,
    world: World,
    base: BaseView,
    paths: Seq<Seq<char>>,
    fingerprint: Seq<char>,
)
    requires
        !base.guard.disarmed,
    ensures
        follows(
            setup,
            world,
            PrepareStageView::Creating { base, paths, fingerprint },
            create_course(setup, world, base.guard.conn, base.state_path, paths, fingerprint),
        ),
{
    let conn = base.guard.conn;
    let creating = PrepareStageView::Creating { base, paths, fingerprint };
    match (world.output)(create_command()) {
        None => {
            lemma_failed_course(setup, world, base.guard, NomadErrorView::Create);
            lemma_step(setup, world, creating, failed_course(conn, NomadErrorView::Create));
        },
        Some(remote_root) => {
            let drawing = PrepareStageView::Drawing { base, paths, fingerprint, remote_root };
            let record = StateRecordView {
                remote_root,
                marker: drawn_marker(world.later_seed.0, world.later_seed.1),
                fingerprint,
            };
            let rest = refresh_course(setup, world, conn, base.state_path, paths, record);
            lemma_refresh_course(setup, world, base, paths, record);
            lemma_step(setup, world, drawing, rest);
            lemma_step(setup, world, creating, asking(RequestView::DrawSeed, rest));
        },
    }
}

proof fn lemma_known_course(
    setup: Setup,
    world: World,
    base: BaseView,
    found: Option<StateRecordView>,
    paths: Seq<Seq<char>>,
    fingerprint: Seq<char>,
)
    requires
        !base.guard.disarmed,
    ensures
        follows(
            setup,
            world,
            known_stage(base, found, paths, fingerprint),
            known_course(
                setup,
                world,
                base.guard.conn,
                base.state_path,
                found,
                paths,
                fingerprint,
            ),
        ),
{
    let conn = base.guard.conn;
    lemma_create_course(setup, world, base, paths, fingerprint);
    if let Some(record) = found {
        let probing = PrepareStageView::Probing { base, record, paths, fingerprint };
        let renewed = StateRecordView {
            remote_root: record.remote_root,
            marker: record.marker,
            fingerprint,
        };
        lemma_launch_course(setup, world, base, record.remote_root);
        lemma_refresh_course(setup, world, base, paths, renewed);
        let rest = if (world.status)(probe_command(record.remote_root)) != Some(true) {
            create_course(setup, world, conn, base.state_path, paths, fingerprint)
        } else if record.fingerprint == fingerprint {
            launch_course(setup, world, conn, base.state_path, record.remote_root)
        } else {
            refresh_course(setup, world, conn, base.state_path, paths, renewed)
        };
        lemma_step(setup, world, probing, rest);
    }
}

/// The course from where `files` are read on.
proof fn lemma_reading(
    setup: Setup,
    world: World,
    base: BaseView,
    found: Option<StateRecordView>,
    paths: Seq<Seq<char>>,
    sorted: Seq<Seq<char>>,
    files: Seq<PayloadFileView>,
)
    requires
        !base.guard.disarmed,
        files.len() <= sorted.len(),
    ensures
        follows(
            setup,
            world,
            reading_stage(setup.profile, base, found, paths, sorted, files),
            after_log(
                reading_log(setup.root, world, sorted, files.len() as int),
                match files_read(setup.root, world, sorted, files.len() as int) {
                    Err(err) => failed_course(base.guard.conn, err),
                    Ok(rest) => known_course(
                        setup,
                        world,
                        base.guard.conn,
                        base.state_path,
                        found,
                        paths,
                        fingerprint(files + rest, profile_settings(setup.profile)),
                    ),
                },
            ),
        ),
    decreases sorted.len() - files.len(),
{
    let i = files.len() as int;
    let stage = reading_stage(setup.profile, base, found, paths, sorted, files);
    if i < sorted.len() {
        let path = path_under(setup.root, sorted[i]);
        match (world.contents)(path) {
            None => {
                let error = NomadErrorView::PayloadUnreadable(path);
                lemma_failed_course(setup, world, base.guard, error);
                lemma_step(setup, world, stage, failed_course(base.guard.conn, error));
                let ask = seq![RequestView::ReadFile(path)];
                assert(ask + Seq::<RequestView>::empty() =~= ask);
            },
            Some(contents) => {
                let file = PayloadFileView { path: sorted[i], contents };
                lemma_reading(setup, world, base, found, paths, sorted, files.push(file));
                let tail = match files_read(setup.root, world, sorted, i + 1) {
                    Err(err) => failed_course(base.guard.conn, err),
                    Ok(rest) => known_course(
                        setup,
                        world,
                        base.guard.conn,
                        base.state_path,
                        found,
                        paths,
                        fingerprint(files.push(file) + rest, profile_settings(setup.profile)),
                    ),
                };
                let rest = after_log(reading_log(setup.root, world, sorted, i + 1), tail);
                lemma_step(setup, world, stage, rest);
                if let Ok(more) = files_read(setup.root, world, sorted, i + 1) {
                    assert(files.push(file) + more =~= files + (seq![file] + more));
                }
                let ask = seq![RequestView::ReadFile(path)];
                assert(ask + (reading_log(setup.root, world, sorted, i + 1) + tail.0) =~= ask
                    + reading_log(setup.root, world, sorted, i + 1) + tail.0);
            },
        }
    } else {
        assert(files + Seq::<PayloadFileView>::empty() =~= files);
        let mark = fingerprint(files, profile_settings(setup.profile));
        lemma_known_course(setup, world, base, found, paths, mark);
        let course = known_course(
            setup,
            world,
            base.guard.conn,
            base.state_path,
            found,
            paths,
            mark,
        );
        assert(Seq::<RequestView>::empty() + course.0 =~= course.0);
    }
}

/// The course once the payload is listed.
proof fn lemma_listed(
    setup: Setup,
    world: World,
    base: BaseView,
    found: Option<StateRecordView>,
    outcome: Result<Seq<Seq<char>>, ProfileErrorView>,
)
    requires
        !base.guard.disarmed,
    ensures
        follows(
            setup,
            world,
            listing_stage(setup.profile, base, found, PayloadStageView::Finished(outcome)),
            listed_course(setup, world, base.guard.conn, base.state_path, found, outcome),
        ),
{
    match outcome {
        Err(err) => lemma_failed_course(setup, world, base.guard, NomadErrorView::Profile(err)),
        Ok(paths) => {
            let sorted = in_path_order(paths, own_path());
            lemma_reading(setup, world, base, found, paths, sorted, seq![]);
            if let Ok(files) = files_read(setup.root, world, sorted, 0) {
                assert(Seq::<PayloadFileView>::empty() + files =~= files);
            }
        },
    }
}

/// The course once the payload is listed.
spec fn listed_course(
    setup: Setup,
    world: World,
    conn: ConnectionView,
    state_path: Seq<char>,
    found: Option<StateRecordView>,
    outcome: Result<Seq<Seq<char>>, ProfileErrorView>,
) -> Course {
    match outcome {
        Err(err) => failed_course(conn, NomadErrorView::Profile(err)),
        Ok(paths) => read_course(setup, world, conn, state_path, found, paths),
    }
}

/// The course from where Git is asked about the entries from position `i` on.
proof fn lemma_listing(
    setup: Setup,
    world: World,
    base: BaseView,
    found: Option<StateRecordView>,
    items: Seq<Seq<char>>,
    i: int,
    paths: Seq<Seq<char>>,
)
    requires
        !base.guard.disarmed,
        0 <= i <= items.len(),
    ensures
        follows(
            setup,
            world,
            listing_stage(
                setup.profile,
                base,
                found,
                items_stage(setup.profile, items, i, paths),
            ),
            after_log(
                tracked_log(world, items, i),
                listed_course(
                    setup,
                    world,
                    base.guard.conn,
                    base.state_path,
                    found,
                    match tracked_from(items, world.listing, i) {
                        Err(err) => Err(err),
                        Ok(rest) => Ok(paths + rest + setup.profile.payload.extra),
                    },
                ),
            ),
        ),
    decreases items.len() - i,
{
    let conn = base.guard.conn;
    let stage = listing_stage(
        setup.profile,
        base,
        found,
        items_stage(setup.profile, items, i, paths),
    );
    if i < items.len() {
        let ask = seq![RequestView::Payload(PayloadRequestView::ListTracked(items[i]))];
        assert(ask + Seq::<RequestView>::empty() =~= ask);
        match (world.listing)(items[i]) {
            None => {
                let outcome = Err(ProfileErrorView::GitUnavailable);
                lemma_listed(setup, world, base, found, outcome);
                let rest = listed_course(setup, world, conn, base.state_path, found, outcome);
                lemma_step(setup, world, stage, rest);
            },
            Some(bytes) => match tracked_paths(items[i], lossy_text(bytes)) {
                Err(err) => {
                    lemma_listed(setup, world, base, found, Err(err));
                    let rest = listed_course(setup, world, conn, base.state_path, found, Err(err));
                    lemma_step(setup, world, stage, rest);
                },
                Ok(more) => {
                    lemma_listing(setup, world, base, found, items, i + 1, paths + more);
                    let tail = listed_course(
                        setup,
                        world,
                        conn,
                        base.state_path,
                        found,
                        match tracked_from(items, world.listing, i + 1) {
                            Err(err) => Err(err),
                            Ok(rest) => Ok(paths + more + rest + setup.profile.payload.extra),
                        },
                    );
                    lemma_step(
                        setup,
                        world,
                        stage,
                        after_log(tracked_log(world, items, i + 1), tail),
                    );
                    if let Ok(rest) = tracked_from(items, world.listing, i + 1) {
                        assert(paths + more + rest =~= paths + (more + rest));
                    }
                    assert(ask + (tracked_log(world, items, i + 1) + tail.0) =~= ask
                        + tracked_log(world, items, i + 1) + tail.0);
                },
            },
        }
    } else {
        assert(paths + Seq::<Seq<char>>::empty() =~= paths);
        let outcome = Ok(paths + setup.profile.payload.extra);
        lemma_listed(setup, world, base, found, outcome);
        let course = listed_course(setup, world, conn, base.state_path, found, outcome);
        assert(Seq::<RequestView>::empty() + course.0 =~= course.0);
    }
}

proof fn lemma_list_course(
    setup: Setup,
    world: World,
    base: BaseView,
    found: Option<StateRecordView>,
)
    requires
        !base.guard.disarmed,
    ensures
        follows(
            setup,
            world,
            listing_stage(
                setup.profile,
                base,
                found,
                first_payload_stage(setup.profile, setup.root),
            ),
            list_course(setup, world, base.guard.conn, base.state_path, found),
        ),
{
    let conn = base.guard.conn;
    let outcome = payload_in(setup, world);
    let rest = listed_course(setup, world, conn, base.state_path, found, outcome);
    let stage = listing_stage(
        setup.profile,
        base,
        found,
        first_payload_stage(setup.profile, setup.root),
    );
    match setup.profile.payload.manifest {
        None => {
            lemma_listed(setup, world, base, found, outcome);
            assert(Seq::<RequestView>::empty() + rest.0 =~= rest.0);
        },
        Some(manifest) => {
            let ask = seq![
                RequestView::Payload(
                    PayloadRequestView::ReadManifest(path_under(setup.root, manifest)),
                ),
            ];
            assert(ask + Seq::<RequestView>::empty() =~= ask);
            if world.manifest is Some && setup.profile.validate.git {
                let items = items_of(world.manifest->0);
                lemma_listing(setup, world, base, found, items, 0, seq![]);
                if let Ok(paths) = tracked_from(items, world.listing, 0) {
                    assert(Seq::<Seq<char>>::empty() + paths =~= paths);
                }
                lemma_step(setup, world, stage, after_log(tracked_log(world, items, 0), rest));
                assert(ask + (tracked_log(world, items, 0) + rest.0) =~= ask + tracked_log(
                    world,
                    items,
                    0,
                ) + rest.0);
            } else {
                lemma_listed(setup, world, base, found, outcome);
                lemma_step(setup, world, stage, rest);
            }
        },
    }
}

proof fn lemma_open_course(setup: Setup, world: World, guard: ControlGuardView)
    requires
        !guard.disarmed,
    ensures
        follows(
            setup,
            world,
            PrepareStageView::FindingHome { guard },
            open_course(setup, world, guard.conn),
        ),
{
    let finding = PrepareStageView::FindingHome { guard };
    match state_dir_in(world.state_home, world.home) {
        None => {
            lemma_failed_course(setup, world, guard, NomadErrorView::NoHome);
            lemma_step(setup, world, finding, failed_course(guard.conn, NomadErrorView::NoHome));
        },
        Some(dir) => {
            let making = PrepareStageView::MakingDir { guard, dir };
            if !(world.makes_dir)(dir) {
                let error = NomadErrorView::StateDir(dir);
                lemma_failed_course(setup, world, guard, error);
                lemma_step(setup, world, making, failed_course(guard.conn, error));
                lemma_step(
                    setup,
                    world,
                    finding,
                    asking(RequestView::MakeDir(dir), failed_course(guard.conn, error)),
                );
            } else {
                let base = BaseView { guard, state_path: state_path_in(setup, dir) };
                let found = (world.record)(base.state_path);
                let rest = list_course(setup, world, guard.conn, base.state_path, found);
                lemma_list_course(setup, world, base, found);
                lemma_step(setup, world, PrepareStageView::Loading { base }, rest);
                let loaded = asking(RequestView::LoadRecord(base.state_path), rest);
                lemma_step(setup, world, making, loaded);
                lemma_step(setup, world, finding, asking(RequestView::MakeDir(dir), loaded));
            }
        },
    }
}

/// The requests that were made and the stage that was reached after at most `n`
/// of them.
pub open spec fn clean_run(setup: CleanSetup, world: World, stage: CleanStageView, n: nat) -> (
    Seq<RequestView>,
    CleanStageView,
)
    decreases n,
{
    if n == 0 {
        (seq![], stage)
    } else {
        match clean_request(setup, stage) {
            None => (seq![], stage),
            Some(request) => {
                let (log, end) = clean_run(
                    setup,
                    world,
                    next_clean_stage(setup, stage, world.reply(request)),
                    (n - 1) as nat,
                );
                (seq![request] + log, end)
            },
        }
    }
}

/// The requests that a clean-up makes, and how that ends.
pub type CleanCourse = (Seq<RequestView>, Result<(), NomadErrorView>);

/// A request, and then the rest of a clean-up.
pub open spec fn cleaning(request: RequestView, rest: CleanCourse) -> CleanCourse {
    (seq![request] + rest.0, rest.1)
}

/// The connection is closed, and the clean-up ends.
pub open spec fn ended_clean(
    conn: ConnectionView,
    outcome: Result<(), NomadErrorView>,
) -> CleanCourse {
    (seq![RequestView::Remote(conn, RemoteStepView::Close)], outcome)
}

/// The marker is read, and where it is that of the record, the directory is
/// removed and the session is forgotten.
pub open spec fn removal_course(
    world: World,
    conn: ConnectionView,
    state_path: Seq<char>,
    record: StateRecordView,
) -> CleanCourse {
    let root = record.remote_root;
    cleaning(
        RequestView::Remote(conn, RemoteStepView::Capture(marker_command(root))),
        if !marker_matches((world.output)(marker_command(root)), record.marker) {
            ended_clean(conn, Err(NomadErrorView::MarkerMismatch(root)))
        } else {
            cleaning(
                RequestView::Remote(conn, RemoteStepView::Status(remove_command(root))),
                match (world.status)(remove_command(root)) {
                    None => ended_clean(conn, Err(NomadErrorView::Remove)),
                    Some(removed) => if removed {
                        cleaning(RequestView::RemoveRecord(state_path), ended_clean(conn, Ok(())))
                    } else {
                        ended_clean(conn, Err(NomadErrorView::NotRemoved(root)))
                    },
                },
            )
        },
    )
}

/// The connection that a clean-up opens.
pub open spec fn cleaning_connection(setup: CleanSetup, world: World) -> ConnectionView {
    clean_connection(
        setup,
        socket_in(
            setup.temp_dir,
            "nomad-clean."@,
            drawn_marker(world.later_seed.0, world.later_seed.1),
        ),
    )
}

/// The record is looked at, and where its directory may be deleted, the remote
/// host is asked.
pub open spec fn record_course(
    setup: CleanSetup,
    world: World,
    state_path: Seq<char>,
    found: Option<StateRecordView>,
) -> CleanCourse {
    let conn = cleaning_connection(setup, world);
    match found {
        None => (seq![], Err(NomadErrorView::NoSession)),
        Some(record) => match removal_verdict(record.remote_root, world.home) {
            Err(err) => (seq![], Err(NomadErrorView::Deletion(err))),
            Ok(_) => cleaning(
                RequestView::DrawSeed,
                cleaning(
                    RequestView::Remote(conn, RemoteStepView::Open),
                    if world.opens {
                        removal_course(world, conn, state_path, record)
                    } else {
                        (seq![], Err(NomadErrorView::Open))
                    },
                ),
            ),
        },
    }
}

/// The whole of a clean-up: every request that it makes, and how it ends.
pub open spec fn clean_course(setup: CleanSetup, world: World) -> CleanCourse {
    cleaning(
        RequestView::FindHomes,
        match state_dir_in(world.state_home, world.home) {
            None => (seq![], Err(NomadErrorView::NoHome)),
            Some(dir) => cleaning(
                RequestView::MakeDir(dir),
                if !(world.makes_dir)(dir) {
                    (seq![], Err(NomadErrorView::StateDir(dir)))
                } else {
                    let state_path = record_path(setup, dir);
                    cleaning(
                        RequestView::LoadRecord(state_path),
                        record_course(setup, world, state_path, (world.record)(state_path)),
                    )
                },
            ),
        },
    )
}

/// Whether a run from a stage of a clean-up follows a course to its end.
pub open spec fn clean_follows(
    setup: CleanSetup,
    world: World,
    stage: CleanStageView,
    course: CleanCourse,
) -> bool {
    forall|n: nat|
        n >= course.0.len() ==> #[trigger] clean_run(setup, world, stage, n) == (
            course.0,
            CleanStageView::Finished(course.1),
        )
}

/// A clean-up comes to an end, and makes exactly the requests that
/// [`clean_course`] gives, in that order, with that outcome.
pub proof fn law_clean_up_takes_its_course(setup: CleanSetup, world: World, n: nat)
    requires
        n >= clean_course(setup, world).0.len(),
    ensures
        clean_run(setup, world, CleanStageView::FindingHome, n) == (
            clean_course(setup, world).0,
            CleanStageView::Finished(clean_course(setup, world).1),
        ),
{
    match state_dir_in(world.state_home, world.home) {
        None => {
            lemma_cleaned(setup, world, Err(NomadErrorView::NoHome));
            lemma_clean_step(
                setup,
                world,
                CleanStageView::FindingHome,
                (seq![], Err(NomadErrorView::NoHome)),
            );
        },
        Some(dir) => {
            let state_path = record_path(setup, dir);
            let found = (world.record)(state_path);
            let loaded = record_course(setup, world, state_path, found);
            let made = if !(world.makes_dir)(dir) {
                (seq![], Err(NomadErrorView::StateDir(dir)))
            } else {
                cleaning(RequestView::LoadRecord(state_path), loaded)
            };
            lemma_record_course(setup, world, state_path, found);
            lemma_clean_step(setup, world, CleanStageView::Loading { state_path, home: world.home }, loaded);
            lemma_cleaned(setup, world, Err(NomadErrorView::StateDir(dir)));
            lemma_clean_step(setup, world, CleanStageView::MakingDir { dir, home: world.home }, made);
            lemma_clean_step(
                setup,
                world,
                CleanStageView::FindingHome,
                cleaning(RequestView::MakeDir(dir), made),
            );
        },
    }
}

/// One request, and then the rest of the clean-up.
proof fn lemma_clean_step(
    setup: CleanSetup,
    world: World,
    stage: CleanStageView,
    rest: CleanCourse,
)
    requires
        clean_request(setup, stage) is Some,
        clean_follows(
            setup,
            world,
            next_clean_stage(setup, stage, world.reply(clean_request(setup, stage)->0)),
            rest,
        ),
    ensures
        clean_follows(setup, world, stage, cleaning(clean_request(setup, stage)->0, rest)),
{
    let course = cleaning(clean_request(setup, stage)->0, rest);
    let next = next_clean_stage(setup, stage, world.reply(clean_request(setup, stage)->0));
    assert forall|n: nat| n >= course.0.len() implies #[trigger] clean_run(setup, world, stage, n)
        == (course.0, CleanStageView::Finished(course.1)) by {
        assert(clean_run(setup, world, next, (n - 1) as nat) == (
            rest.0,
            CleanStageView::Finished(rest.1),
        ));
    }
}

proof fn lemma_cleaned(setup: CleanSetup, world: World, outcome: Result<(), NomadErrorView>)
    ensures
        clean_follows(setup, world, CleanStageView::Finished(outcome), (seq![], outcome)),
{
}

proof fn lemma_ended_clean(
    setup: CleanSetup,
    world: World,
    guard: ControlGuardView,
    outcome: Result<(), NomadErrorView>,
)
    requires
        !guard.disarmed,
    ensures
        clean_follows(
            setup,
            world,
            ending_clean(guard, outcome),
            ended_clean(guard.conn, outcome),
        ),
{
    lemma_cleaned(setup, world, outcome);
    lemma_clean_step(setup, world, ending_clean(guard, outcome), (seq![], outcome));
    let close = seq![RequestView::Remote(guard.conn, RemoteStepView::Close)];
    assert(close + Seq::<RequestView>::empty() =~= close);
}

proof fn lemma_removal_course(
    setup: CleanSetup,
    world: World,
    guard: ControlGuardView,
    state_path: Seq<char>,
    record: StateRecordView,
)
    requires
        !guard.disarmed,
    ensures
        clean_follows(
            setup,
            world,
            CleanStageView::Checking { guard, state_path, record },
            removal_course(world, guard.conn, state_path, record),
        ),
{
    let root = record.remote_root;
    let conn = guard.conn;
    let checking = CleanStageView::Checking { guard, state_path, record };
    let removing = CleanStageView::Removing { guard, state_path, record };
    let forgetting = CleanStageView::Forgetting { guard, state_path };
    lemma_ended_clean(setup, world, guard, Ok(()));
    lemma_ended_clean(setup, world, guard, Err(NomadErrorView::MarkerMismatch(root)));
    lemma_ended_clean(setup, world, guard, Err(NomadErrorView::Remove));
    lemma_ended_clean(setup, world, guard, Err(NomadErrorView::NotRemoved(root)));
    lemma_clean_step(setup, world, forgetting, ended_clean(conn, Ok(())));
    let removed = match (world.status)(remove_command(root)) {
        None => ended_clean(conn, Err(NomadErrorView::Remove)),
        Some(removed) => if removed {
            cleaning(RequestView::RemoveRecord(state_path), ended_clean(conn, Ok(())))
        } else {
            ended_clean(conn, Err(NomadErrorView::NotRemoved(root)))
        },
    };
    lemma_clean_step(setup, world, removing, removed);
    let checked = if !marker_matches((world.output)(marker_command(root)), record.marker) {
        ended_clean(conn, Err(NomadErrorView::MarkerMismatch(root)))
    } else {
        cleaning(clean_request(setup, removing)->0, removed)
    };
    lemma_clean_step(setup, world, checking, checked);
}

proof fn lemma_record_course(
    setup: CleanSetup,
    world: World,
    state_path: Seq<char>,
    found: Option<StateRecordView>,
)
    ensures
        clean_follows(
            setup,
            world,
            next_clean_stage(
                setup,
                CleanStageView::Loading { state_path, home: world.home },
                AnswerView::Record(found),
            ),
            record_course(setup, world, state_path, found),
        ),
{
    match found {
        None => lemma_cleaned(setup, world, Err(NomadErrorView::NoSession)),
        Some(record) => match removal_verdict(record.remote_root, world.home) {
            Err(err) => lemma_cleaned(setup, world, Err(NomadErrorView::Deletion(err))),
            Ok(_) => {
                let conn = cleaning_connection(setup, world);
                let guard = ControlGuardView { conn, disarmed: false };
                let opening = CleanStageView::Opening {
                    state_path,
                    record,
                    socket: conn.socket,
                };
                let opened = if world.opens {
                    removal_course(world, conn, state_path, record)
                } else {
                    (seq![], Err(NomadErrorView::Open))
                };
                lemma_removal_course(setup, world, guard, state_path, record);
                lemma_cleaned(setup, world, Err(NomadErrorView::Open));
                lemma_clean_step(setup, world, opening, opened);
                lemma_clean_step(
                    setup,
                    world,
                    CleanStageView::Seeding { state_path, record },
                    cleaning(RequestView::Remote(conn, RemoteStepView::Open), opened),
                );
            },
        },
    }
}

} // verus!
