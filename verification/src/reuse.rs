//! What a preparation does with the remote directory of an earlier one.

use vstd::prelude::*;

use crate::clean::{marker_command, marker_matches, remove_command, CleanSetup};
use crate::course::{
    after_log, asking, clean_course, cleaning_connection, create_course, failed_course, files_read,
    known_course, launch_course, list_course, open_course, opened_connection, payload_in,
    payload_log, prepare_course, read_course, reading_log, refresh_course, removal_course,
    tracked_log, World,
};
use crate::nomad::{marker_path, removal_verdict, NomadErrorView};
use crate::paths::{in_path_order, own_path};
use crate::payload::items_of;
use crate::prepare::{
    create_command, drawn_marker, probe_command, profile_settings, shell_command, state_path_in,
    Setup,
};
use crate::protocol::{ConnectionView, RemoteStepView, RequestView};
use crate::session::{fingerprint, state_dir_in, StateRecordView};

verus! {

/// Whether a request makes or fills a remote directory, or remembers one.
pub open spec fn refreshes(request: RequestView) -> bool {
    match request {
        RequestView::SaveRecord(_, _) => true,
        RequestView::Remote(_, RemoteStepView::Stream { .. }) => true,
        RequestView::Remote(_, RemoteStepView::Capture(command)) => command == create_command(),
        _ => false,
    }
}

/// Whether no request of a list makes, fills or remembers a remote directory.
pub open spec fn leaves_alone(log: Seq<RequestView>) -> bool {
    forall|i: int| 0 <= i < log.len() ==> !refreshes(#[trigger] log[i])
}

/// The file that remembers the session, where it can be told.
pub open spec fn record_file(setup: Setup, world: World) -> Option<Seq<char>> {
    match state_dir_in(world.state_home, world.home) {
        Some(dir) => Some(state_path_in(setup, dir)),
        None => None,
    }
}

/// The fingerprint of the payload as a world has it, where it can be taken.
pub open spec fn current_fingerprint(setup: Setup, world: World) -> Option<Seq<char>> {
    match payload_in(setup, world) {
        Err(_) => None,
        Ok(paths) => match files_read(setup.root, world, in_path_order(paths, own_path()), 0) {
            Err(_) => None,
            Ok(files) => Some(fingerprint(files, profile_settings(setup.profile))),
        },
    }
}

/// What a file remembers after requests, where it remembered `before` before
/// them.
pub open spec fn remembered(
    log: Seq<RequestView>,
    path: Seq<char>,
    before: Option<StateRecordView>,
) -> Option<StateRecordView>
    decreases log.len(),
{
    if log.len() == 0 {
        before
    } else {
        match log.last() {
            RequestView::SaveRecord(file, record) => if file == path {
                Some(record)
            } else {
                remembered(log.drop_last(), path, before)
            },
            _ => remembered(log.drop_last(), path, before),
        }
    }
}

/// A directory that is remembered and still there is used as it is, where the
/// payload and the settings have not changed: nothing is made, streamed or
/// remembered anew, and the session that is prepared has that directory.
pub proof fn law_unchanged_payload_is_not_streamed(
    setup: Setup,
    world: World,
    path: Seq<char>,
    record: StateRecordView,
)
    requires
        record_file(setup, world) == Some(path),
        (world.record)(path) == Some(record),
        current_fingerprint(setup, world) == Some(record.fingerprint),
        (world.status)(probe_command(record.remote_root)) == Some(true),
    ensures
        leaves_alone(prepare_course(setup, world).0),
        prepare_course(setup, world).1 matches Ok(session) ==> session.remote_root
            == record.remote_root,
{
    let conn = opened_connection(setup, world);
    let dir = state_dir_in(world.state_home, world.home)->0;
    let paths = payload_in(setup, world)->Ok_0;
    let sorted = in_path_order(paths, own_path());
    let files = files_read(setup.root, world, sorted, 0)->Ok_0;
    lemma_launch_leaves_alone(setup, world, conn, path, record.remote_root);
    let launch = launch_course(setup, world, conn, path, record.remote_root);
    let known = known_course(
        setup,
        world,
        conn,
        path,
        Some(record),
        paths,
        record.fingerprint,
    );
    assert(leaves_alone(known.0));
    lemma_reading_leaves_alone(setup.root, world, sorted, 0);
    lemma_listing_leaves_alone(setup, world);
    let read = read_course(setup, world, conn, path, Some(record), paths);
    assert(read == after_log(reading_log(setup.root, world, sorted, 0), known));
    assert(leaves_alone(read.0));
    let list = list_course(setup, world, conn, path, Some(record));
    assert(leaves_alone(list.0));
    let load = asking(RequestView::LoadRecord(path), list);
    assert(leaves_alone(load.0));
    assert(leaves_alone(failed_course(conn, NomadErrorView::StateDir(dir)).0));
    assert(leaves_alone(open_course(setup, world, conn).0));
}

/// A session that is prepared can be found again: what the file remembers
/// afterwards is the directory of the session and the fingerprint of the payload
/// as it was.
pub proof fn law_prepared_session_is_remembered(setup: Setup, world: World, path: Seq<char>)
    requires
        record_file(setup, world) == Some(path),
        prepare_course(setup, world).1 is Ok,
    ensures
        remembered(prepare_course(setup, world).0, path, (world.record)(path)) matches Some(
            record,
        ) && record.remote_root == prepare_course(setup, world).1->Ok_0.remote_root
            && current_fingerprint(setup, world) == Some(record.fingerprint),
{
    let conn = opened_connection(setup, world);
    let dir = state_dir_in(world.state_home, world.home)->0;
    let found = (world.record)(path);
    let paths = payload_in(setup, world)->Ok_0;
    let sorted = in_path_order(paths, own_path());
    let files = files_read(setup.root, world, sorted, 0)->Ok_0;
    let mark = fingerprint(files, profile_settings(setup.profile));
    lemma_known_remembers(setup, world, conn, path, found, paths, mark);
    lemma_reading_leaves_alone(setup.root, world, sorted, 0);
    lemma_listing_leaves_alone(setup, world);
    let known = known_course(setup, world, conn, path, found, paths, mark);
    let reading = reading_log(setup.root, world, sorted, 0);
    lemma_remembered_split(reading, known.0, path, found);
    lemma_left_alone(reading, path, found);
    let read = read_course(setup, world, conn, path, found, paths);
    lemma_remembered_split(payload_log(setup, world), read.0, path, found);
    lemma_left_alone(payload_log(setup, world), path, found);
    let list = list_course(setup, world, conn, path, found);
    let head = seq![
        RequestView::DrawSeed,
        RequestView::Remote(conn, RemoteStepView::Open),
        RequestView::FindHomes,
        RequestView::MakeDir(dir),
        RequestView::LoadRecord(path),
    ];
    assert(leaves_alone(head));
    lemma_remembered_split(head, list.0, path, found);
    lemma_left_alone(head, path, found);
    assert(prepare_course(setup, world).0 =~= head + list.0);
}

/// A second connection uses the directory of the first again: where the first
/// was prepared, what it left is remembered and still there, and the payload has
/// the same fingerprint, nothing is made or streamed, and the session that is
/// prepared has the same directory.
pub proof fn law_reconnecting_uses_the_directory_again(
    setup: Setup,
    first: World,
    second: World,
    path: Seq<char>,
)
    requires
        record_file(setup, first) == Some(path),
        record_file(setup, second) == Some(path),
        prepare_course(setup, first).1 is Ok,
        (second.record)(path) == remembered(
            prepare_course(setup, first).0,
            path,
            (first.record)(path),
        ),
        current_fingerprint(setup, second) == current_fingerprint(setup, first),
        (second.status)(probe_command(prepare_course(setup, first).1->Ok_0.remote_root)) == Some(
            true,
        ),
    ensures
        leaves_alone(prepare_course(setup, second).0),
        prepare_course(setup, second).1 matches Ok(session) ==> session.remote_root
            == prepare_course(setup, first).1->Ok_0.remote_root,
{
    law_prepared_session_is_remembered(setup, first, path);
    law_unchanged_payload_is_not_streamed(setup, second, path, (second.record)(path)->0);
}

/// Where nothing is remembered, what is remembered is gone, or the fingerprint
/// is another, the payload is streamed before a session is ready, into the
/// directory of that session.
pub proof fn law_stale_payload_is_streamed(setup: Setup, world: World, path: Seq<char>)
    requires
        record_file(setup, world) == Some(path),
        (world.record)(path) matches Some(record) ==> current_fingerprint(setup, world) != Some(
            record.fingerprint,
        ) || (world.status)(probe_command(record.remote_root)) != Some(true),
        prepare_course(setup, world).1 is Ok,
    ensures
        prepare_course(setup, world).0.contains(
            RequestView::Remote(
                opened_connection(setup, world),
                RemoteStepView::Stream {
                    local_root: setup.root,
                    paths: payload_in(setup, world)->Ok_0,
                    remote_dir: prepare_course(setup, world).1->Ok_0.remote_root,
                },
            ),
        ),
{
    let conn = opened_connection(setup, world);
    let dir = state_dir_in(world.state_home, world.home)->0;
    let found = (world.record)(path);
    let paths = payload_in(setup, world)->Ok_0;
    let sorted = in_path_order(paths, own_path());
    let files = files_read(setup.root, world, sorted, 0)->Ok_0;
    let mark = fingerprint(files, profile_settings(setup.profile));
    let known = known_course(setup, world, conn, path, found, paths, mark);
    let stream = RequestView::Remote(
        conn,
        RemoteStepView::Stream {
            local_root: setup.root,
            paths,
            remote_dir: known.1->Ok_0.remote_root,
        },
    );
    assert(known.0.contains(stream)) by {
        lemma_known_streams(setup, world, conn, path, found, paths, mark);
    }
    let i = known.0.index_of(stream);
    let reading = reading_log(setup.root, world, sorted, 0);
    let listing = payload_log(setup, world);
    let head = seq![
        RequestView::DrawSeed,
        RequestView::Remote(conn, RemoteStepView::Open),
        RequestView::FindHomes,
        RequestView::MakeDir(dir),
        RequestView::LoadRecord(path),
    ];
    let log = prepare_course(setup, world).0;
    assert(log =~= head + (listing + (reading + known.0)));
    assert(log[head.len() + listing.len() + reading.len() + i] == stream);
}

/// A clean-up removes what was prepared: where a session was prepared and the
/// file remembers what the preparation left, the marker of the record is read
/// back from a directory that may be deleted, and its removal succeeds, the
/// clean-up succeeds, has the directory of the session removed, and has the
/// record removed.
pub proof fn law_clean_up_removes_what_was_prepared(
    setup: Setup,
    first: World,
    second: World,
    path: Seq<char>,
)
    requires
        record_file(setup, first) == Some(path),
        record_file(setup, second) == Some(path),
        prepare_course(setup, first).1 is Ok,
        (second.record)(path) == remembered(
            prepare_course(setup, first).0,
            path,
            (first.record)(path),
        ),
        (second.makes_dir)(state_dir_in(second.state_home, second.home)->0),
        second.opens,
        ({
            let record = (second.record)(path)->0;
            &&& removal_verdict(record.remote_root, second.home) is Ok
            &&& marker_matches(
                (second.output)(marker_command(record.remote_root)),
                record.marker,
            )
            &&& (second.status)(remove_command(record.remote_root)) == Some(true)
        }),
    ensures
        ({
            let (log, outcome) = clean_course(clean_setup(setup), second);
            let root = prepare_course(setup, first).1->Ok_0.remote_root;
            &&& outcome is Ok
            &&& log.contains(
                RequestView::Remote(
                    cleaning_connection(clean_setup(setup), second),
                    RemoteStepView::Status(remove_command(root)),
                ),
            )
            &&& log.contains(RequestView::RemoveRecord(path))
        }),
{
    law_prepared_session_is_remembered(setup, first, path);
    let log = clean_course(clean_setup(setup), second).0;
    let record = (second.record)(path)->0;
    let conn = cleaning_connection(clean_setup(setup), second);
    let removal = removal_course(second, conn, path, record);
    assert(removal.0[1] == RequestView::Remote(
        conn,
        RemoteStepView::Status(remove_command(record.remote_root)),
    ));
    assert(removal.0[2] == RequestView::RemoveRecord(path));
    assert(log[6] == removal.0[1]);
    assert(log[7] == removal.0[2]);
}

/// A clean-up of what a preparation starts from.
pub open spec fn clean_setup(setup: Setup) -> CleanSetup {
    CleanSetup { dest: setup.dest, root: setup.root, temp_dir: setup.temp_dir }
}

pub proof fn lemma_launch_leaves_alone(
    setup: Setup,
    world: World,
    conn: ConnectionView,
    state_path: Seq<char>,
    remote_root: Seq<char>,
)
    ensures
        leaves_alone(launch_course(setup, world, conn, state_path, remote_root).0),
        launch_course(setup, world, conn, state_path, remote_root).1 matches Ok(session)
            ==> session.remote_root == remote_root,
{
    reveal_strlit("mktemp -d \"${TMPDIR:-/tmp}/nomad.XXXXXXXX\"");
    reveal_strlit("command -v zsh 2>/dev/null || command -v bash 2>/dev/null");
    assert(create_command()[0] == 'm');
    assert(shell_command()[0] == 'c');
}

pub proof fn lemma_reading_leaves_alone(
    root: Seq<char>,
    world: World,
    sorted: Seq<Seq<char>>,
    i: int,
)
    ensures
        leaves_alone(reading_log(root, world, sorted, i)),
    decreases sorted.len() - i,
{
    if 0 <= i < sorted.len() {
        lemma_reading_leaves_alone(root, world, sorted, i + 1);
    }
}

proof fn lemma_tracked_leaves_alone(world: World, items: Seq<Seq<char>>, i: int)
    ensures
        leaves_alone(tracked_log(world, items, i)),
    decreases items.len() - i,
{
    if 0 <= i < items.len() {
        lemma_tracked_leaves_alone(world, items, i + 1);
    }
}

pub proof fn lemma_listing_leaves_alone(setup: Setup, world: World)
    ensures
        leaves_alone(payload_log(setup, world)),
{
    if let Some(text) = world.manifest {
        lemma_tracked_leaves_alone(world, items_of(text), 0);
    }
}

pub proof fn lemma_remembered_split(
    a: Seq<RequestView>,
    b: Seq<RequestView>,
    path: Seq<char>,
    before: Option<StateRecordView>,
)
    ensures
        remembered(a + b, path, before) == remembered(b, path, remembered(a, path, before)),
    decreases b.len(),
{
    if b.len() == 0 {
        assert(a + b =~= a);
    } else {
        assert((a + b).drop_last() =~= a + b.drop_last());
        lemma_remembered_split(a, b.drop_last(), path, before);
    }
}

pub proof fn lemma_left_alone(
    log: Seq<RequestView>,
    path: Seq<char>,
    before: Option<StateRecordView>,
)
    requires
        leaves_alone(log),
    ensures
        remembered(log, path, before) == before,
    decreases log.len(),
{
    if log.len() > 0 {
        assert(!refreshes(log[log.len() - 1]));
        assert(leaves_alone(log.drop_last()));
        lemma_left_alone(log.drop_last(), path, before);
    }
}

pub proof fn lemma_refresh_remembers(
    setup: Setup,
    world: World,
    conn: ConnectionView,
    path: Seq<char>,
    before: Option<StateRecordView>,
    paths: Seq<Seq<char>>,
    record: StateRecordView,
)
    requires
        refresh_course(setup, world, conn, path, paths, record).1 is Ok,
    ensures
        remembered(refresh_course(setup, world, conn, path, paths, record).0, path, before) == Some(
            record,
        ),
        refresh_course(setup, world, conn, path, paths, record).1->Ok_0.remote_root
            == record.remote_root,
{
    let course = refresh_course(setup, world, conn, path, paths, record);
    let launch = launch_course(setup, world, conn, path, record.remote_root);
    let head = seq![
        RequestView::Remote(
            conn,
            RemoteStepView::Stream {
                local_root: setup.root,
                paths,
                remote_dir: record.remote_root,
            },
        ),
        RequestView::Remote(
            conn,
            RemoteStepView::WriteFile {
                path: marker_path(record.remote_root),
                contents: record.marker,
                executable: false,
            },
        ),
        RequestView::SaveRecord(path, record),
    ];
    assert(course.0 =~= head + launch.0);
    lemma_remembered_split(head, launch.0, path, before);
    lemma_launch_leaves_alone(setup, world, conn, path, record.remote_root);
    lemma_left_alone(launch.0, path, Some(record));
    assert(head.last() == RequestView::SaveRecord(path, record));
}

proof fn lemma_create_remembers(
    setup: Setup,
    world: World,
    conn: ConnectionView,
    path: Seq<char>,
    before: Option<StateRecordView>,
    paths: Seq<Seq<char>>,
    mark: Seq<char>,
)
    requires
        create_course(setup, world, conn, path, paths, mark).1 is Ok,
    ensures
        remembered(create_course(setup, world, conn, path, paths, mark).0, path, before) matches Some(
            record,
        ) && record.fingerprint == mark && record.remote_root == create_course(
            setup,
            world,
            conn,
            path,
            paths,
            mark,
        ).1->Ok_0.remote_root,
{
    let remote_root = (world.output)(create_command())->0;
    let record = StateRecordView {
        remote_root,
        marker: drawn_marker(world.later_seed.0, world.later_seed.1),
        fingerprint: mark,
    };
    lemma_refresh_remembers(setup, world, conn, path, before, paths, record);
    let head = seq![
        RequestView::Remote(conn, RemoteStepView::Capture(create_command())),
        RequestView::DrawSeed,
    ];
    let rest = refresh_course(setup, world, conn, path, paths, record);
    assert(create_course(setup, world, conn, path, paths, mark).0 =~= head + rest.0);
    lemma_remembered_split(head, rest.0, path, before);
    let one = head.drop_last();
    assert(one.last() == head[0]);
    assert(remembered(one.drop_last(), path, before) == before);
    assert(remembered(one, path, before) == before);
}

proof fn lemma_known_remembers(
    setup: Setup,
    world: World,
    conn: ConnectionView,
    path: Seq<char>,
    found: Option<StateRecordView>,
    paths: Seq<Seq<char>>,
    mark: Seq<char>,
)
    requires
        known_course(setup, world, conn, path, found, paths, mark).1 is Ok,
    ensures
        remembered(known_course(setup, world, conn, path, found, paths, mark).0, path, found) matches Some(
            record,
        ) && record.fingerprint == mark && record.remote_root == known_course(
            setup,
            world,
            conn,
            path,
            found,
            paths,
            mark,
        ).1->Ok_0.remote_root,
{
    match found {
        None => lemma_create_remembers(setup, world, conn, path, found, paths, mark),
        Some(record) => {
            let head = seq![
                RequestView::Remote(
                    conn,
                    RemoteStepView::Status(probe_command(record.remote_root)),
                ),
            ];
            assert(leaves_alone(head));
            lemma_left_alone(head, path, found);
            if (world.status)(probe_command(record.remote_root)) != Some(true) {
                lemma_create_remembers(setup, world, conn, path, found, paths, mark);
                let rest = create_course(setup, world, conn, path, paths, mark);
                lemma_remembered_split(head, rest.0, path, found);
            } else if record.fingerprint == mark {
                let rest = launch_course(setup, world, conn, path, record.remote_root);
                lemma_launch_leaves_alone(setup, world, conn, path, record.remote_root);
                lemma_remembered_split(head, rest.0, path, found);
                lemma_left_alone(rest.0, path, found);
            } else {
                let renewed = StateRecordView {
                    remote_root: record.remote_root,
                    marker: record.marker,
                    fingerprint: mark,
                };
                lemma_refresh_remembers(setup, world, conn, path, found, paths, renewed);
                let rest = refresh_course(setup, world, conn, path, paths, renewed);
                lemma_remembered_split(head, rest.0, path, found);
            }
        },
    }
}

/// A refresh that ends well begins with the stream.
proof fn lemma_refresh_streams(
    setup: Setup,
    world: World,
    conn: ConnectionView,
    path: Seq<char>,
    paths: Seq<Seq<char>>,
    record: StateRecordView,
)
    ensures
        refresh_course(setup, world, conn, path, paths, record).1 matches Ok(session) ==> {
            &&& session.remote_root == record.remote_root
            &&& refresh_course(setup, world, conn, path, paths, record).0[0] == RequestView::Remote(
                conn,
                RemoteStepView::Stream {
                    local_root: setup.root,
                    paths,
                    remote_dir: record.remote_root,
                },
            )
        },
        refresh_course(setup, world, conn, path, paths, record).0.len() > 0,
{
    lemma_launch_leaves_alone(setup, world, conn, path, record.remote_root);
}

proof fn lemma_known_streams(
    setup: Setup,
    world: World,
    conn: ConnectionView,
    path: Seq<char>,
    found: Option<StateRecordView>,
    paths: Seq<Seq<char>>,
    mark: Seq<char>,
)
    requires
        known_course(setup, world, conn, path, found, paths, mark).1 is Ok,
        found matches Some(record) ==> record.fingerprint != mark || (world.status)(
            probe_command(record.remote_root),
        ) != Some(true),
    ensures
        known_course(setup, world, conn, path, found, paths, mark).0.contains(
            RequestView::Remote(
                conn,
                RemoteStepView::Stream {
                    local_root: setup.root,
                    paths,
                    remote_dir: known_course(
                        setup,
                        world,
                        conn,
                        path,
                        found,
                        paths,
                        mark,
                    ).1->Ok_0.remote_root,
                },
            ),
        ),
{
    let log = known_course(setup, world, conn, path, found, paths, mark).0;
    let made = StateRecordView {
        remote_root: (world.output)(create_command())->0,
        marker: drawn_marker(world.later_seed.0, world.later_seed.1),
        fingerprint: mark,
    };
    lemma_refresh_streams(setup, world, conn, path, paths, made);
    match found {
        None => {
            assert(log[2] == refresh_course(setup, world, conn, path, paths, made).0[0]);
        },
        Some(record) => {
            let renewed = StateRecordView {
                remote_root: record.remote_root,
                marker: record.marker,
                fingerprint: mark,
            };
            lemma_refresh_streams(setup, world, conn, path, paths, renewed);
            if (world.status)(probe_command(record.remote_root)) != Some(true) {
                assert(log[3] == refresh_course(setup, world, conn, path, paths, made).0[0]);
            } else {
                assert(log[1] == refresh_course(setup, world, conn, path, paths, renewed).0[0]);
            }
        },
    }
}

} // verus!
