//! What sessions leave on the remote host, from the first preparation to the
//! clean-up.

use vstd::prelude::*;

use crate::clean::{marker_command, marker_matches, remove_command};
use crate::course::{
    clean_course, cleaning_connection, create_course, files_read, known_course, launch_course,
    opened_connection, payload_in, payload_log, prepare_course, reading_log, refresh_course,
    tracked_log, World,
};
use crate::enter::{enter_request, first_enter_stage, session_connection, EnterSetup};
use crate::nomad::{
    launcher_path, launcher_text, marker_path, removal_verdict, NomadErrorView,
};
use crate::paths::{in_path_order, own_path};
use crate::payload::items_of;
use crate::prepare::{
    create_command, drawn_marker, probe_command, profile_settings, shell_command, Setup,
};
use crate::protocol::{ConnectionView, RemoteStepView, RequestView};
use crate::reuse::{
    clean_setup, current_fingerprint, law_prepared_session_is_remembered, law_unchanged_payload_is_not_streamed, leaves_alone,
    lemma_launch_leaves_alone, lemma_left_alone, lemma_listing_leaves_alone,
    lemma_reading_leaves_alone, lemma_refresh_remembers, lemma_remembered_split, record_file,
    remembered,
};
use crate::session::{
    fingerprint, lemma_hex_text, marker_seed, sha256, state_dir_in, StateRecordView,
};
use crate::shell::{
    law_directory_is_made, law_file_is_written, law_marker_is_read_from_its_file,
    law_payload_is_unpacked, law_probe_tells_whether_a_session_is_there,
    law_removal_removes_the_directory, law_shell_is_found, no_input, obeyed, Input, Remote,
};
use crate::text::{last_part, trimmed, trimmed_end, white};
use crate::text_laws::law_trimming;
use crate::transport::{extract_command, write_command};

verus! {

/// The remote host after a command.
pub open spec fn after_command(remote: Remote, input: Input, command: Seq<char>) -> Remote {
    match obeyed(remote, input, command) {
        Some(effect) => effect.remote,
        None => remote,
    }
}

/// The remote host after a request: commands are run there, and the contents of
/// files and the paths of a payload are what they read.
pub open spec fn after_request(remote: Remote, request: RequestView) -> Remote {
    match request {
        RequestView::Remote(_, step) => match step {
            RemoteStepView::Status(command) => after_command(remote, no_input(), command),
            RemoteStepView::Capture(command) => after_command(remote, no_input(), command),
            RemoteStepView::WriteFile { path, contents, executable } => after_command(
                remote,
                Input { text: contents, archive: seq![] },
                write_command(path, executable),
            ),
            RemoteStepView::Stream { paths, remote_dir, .. } => after_command(
                remote,
                Input { text: seq![], archive: paths },
                extract_command(remote_dir),
            ),
            _ => remote,
        },
        _ => remote,
    }
}

/// The remote host after requests.
pub open spec fn host_after(remote: Remote, log: Seq<RequestView>) -> Remote
    decreases log.len(),
{
    if log.len() == 0 {
        remote
    } else {
        host_after(after_request(remote, log[0]), log.skip(1))
    }
}

/// Whether a world answers as a remote host does: a command succeeds where it
/// does there, and what it writes is captured without the white space at its
/// end.
pub open spec fn speaks_for(world: World, remote: Remote) -> bool {
    forall|command: Seq<char>|
        #![trigger (world.status)(command)]
        #![trigger (world.output)(command)]
        obeyed(remote, no_input(), command) matches Some(effect) ==> (world.status)(command)
            == Some(effect.success) && (world.output)(command) == (if effect.success {
            Some(trimmed_end(effect.output))
        } else {
            None
        })
}

/// Whether a text has neither white space at its ends nor is empty.
pub open spec fn clear(s: Seq<char>) -> bool {
    s.len() > 0 && !white(s[0]) && !white(s.last())
}

/// Whether the marker file of a remembered directory, where there is one, holds
/// the marker that is remembered.
pub open spec fn marked(remote: Remote, found: Option<StateRecordView>) -> bool {
    found matches Some(record) ==> (remote.files.contains_key(
        record.remote_root + "/.nomad-marker"@,
    ) ==> remote.files[record.remote_root + "/.nomad-marker"@] == record.marker)
}

/// Whether a session is on the remote host: its directory is there, its marker
/// file holds the marker that is remembered, and its launcher is executable.
pub open spec fn on_host(remote: Remote, record: StateRecordView) -> bool {
    &&& remote.dirs.contains(record.remote_root)
    &&& remote.files.contains_key(record.remote_root + "/.nomad-marker"@)
    &&& remote.files[record.remote_root + "/.nomad-marker"@] == record.marker
    &&& remote.files.contains_key(record.remote_root + "/.nomad-shell"@)
    &&& remote.executable.contains(record.remote_root + "/.nomad-shell"@)
}

/// After a preparation the session is on the remote host. Its launcher starts
/// zsh where that is installed, and bash otherwise, and it holds the launcher text
/// of that shell. Its payload was unpacked there, unless the directory was used
/// as it was.
pub proof fn law_prepared_session_is_on_the_host(
    setup: Setup,
    world: World,
    path: Seq<char>,
    remote: Remote,
)
    requires
        record_file(setup, world) == Some(path),
        prepare_course(setup, world).1 is Ok,
        speaks_for(world, remote),
        clear(remote.fresh),
        marked(remote, (world.record)(path)),
    ensures
        ({
            let (log, outcome) = prepare_course(setup, world);
            let after = host_after(remote, log);
            let root = outcome->Ok_0.remote_root;
            let record = remembered(log, path, (world.record)(path))->0;
            let shell = trimmed_end(
                (if remote.programs.contains_key("zsh"@) {
                    remote.programs["zsh"@]
                } else {
                    remote.programs["bash"@]
                }).push('\n'),
            );
            &&& record.remote_root == root
            &&& on_host(after, record)
            &&& after.files[root + "/.nomad-shell"@] == launcher_text(
                setup.profile,
                root,
                shell,
                outcome->Ok_0.remote_shell_name,
            )
            &&& outcome->Ok_0.remote_shell_name == last_part(shell, '/')
            &&& leaves_alone(log) || (after.unpacked.contains_key(root)
                && after.unpacked[root] == payload_in(setup, world)->Ok_0)
        }),
{
    let conn = opened_connection(setup, world);
    let dir = state_dir_in(world.state_home, world.home)->0;
    let found = (world.record)(path);
    let paths = payload_in(setup, world)->Ok_0;
    let sorted = in_path_order(paths, own_path());
    let files = files_read(setup.root, world, sorted, 0)->Ok_0;
    let mark = fingerprint(files, profile_settings(setup.profile));
    let known = known_course(setup, world, conn, path, found, paths, mark);
    let reading = reading_log(setup.root, world, sorted, 0);
    let listing = payload_log(setup, world);
    let head = seq![
        RequestView::DrawSeed,
        RequestView::Remote(conn, RemoteStepView::Open),
        RequestView::FindHomes,
        RequestView::MakeDir(dir),
        RequestView::LoadRecord(path),
    ];
    let log = prepare_course(setup, world).0;
    assert(log =~= head + listing + reading + known.0);
    assert(quiet(head));
    lemma_listing_is_quiet(setup, world);
    lemma_reading_is_quiet(setup.root, world, sorted, 0);
    lemma_host_split(remote, head + listing + reading, known.0);
    lemma_quiet(remote, head + listing + reading);
    lemma_known_host(setup, world, conn, path, found, paths, mark, remote);
    let first = head + listing + reading;
    assert(leaves_alone(head));
    lemma_listing_leaves_alone(setup, world);
    lemma_reading_leaves_alone(setup.root, world, sorted, 0);
    assert(leaves_alone(head + listing));
    assert(leaves_alone(first));
    lemma_remembered_split(first, known.0, path, found);
    lemma_left_alone(first, path, found);
    assert(leaves_alone(known.0) ==> leaves_alone(log));
}

/// A session that was prepared is entered over the connection that the
/// preparation opened, and what is run there is the launcher that the preparation
/// wrote.
pub proof fn law_prepared_session_is_entered(
    setup: Setup,
    world: World,
    path: Seq<char>,
    remote: Remote,
    use_waypipe: bool,
)
    requires
        record_file(setup, world) == Some(path),
        prepare_course(setup, world).1 is Ok,
        speaks_for(world, remote),
        clear(remote.fresh),
        marked(remote, (world.record)(path)),
    ensures
        ({
            let (log, outcome) = prepare_course(setup, world);
            let after = host_after(remote, log);
            let enter = EnterSetup { dest: setup.dest, session: outcome->Ok_0, use_waypipe };
            let launcher = outcome->Ok_0.remote_root + "/.nomad-shell"@;
            &&& enter_request(enter, first_enter_stage(enter)) == Some(
                RequestView::Remote(
                    opened_connection(setup, world),
                    RemoteStepView::Interactive { command: launcher, use_waypipe },
                ),
            )
            &&& after.files.contains_key(launcher)
            &&& after.executable.contains(launcher)
        }),
{
    law_prepared_session_is_on_the_host(setup, world, path, remote);
}

/// Whatever is entered, it is entered over the connection of the session.
pub proof fn law_session_connection_is_that_of_the_session(setup: EnterSetup)
    ensures
        session_connection(setup) == (ConnectionView {
            dest: setup.dest.host,
            ssh_args: setup.dest.ssh_args,
            socket: setup.session.socket,
        }),
{
}

/// A second connection finds the session on the remote host and uses its
/// directory again: where the first was prepared, the second is answered by the
/// host as the first left it, what the first left is remembered, and the payload
/// has the same fingerprint, nothing is made or streamed, and the session has the
/// same directory.
pub proof fn law_second_connection_finds_the_session(
    setup: Setup,
    first: World,
    second: World,
    path: Seq<char>,
    remote: Remote,
)
    requires
        record_file(setup, first) == Some(path),
        record_file(setup, second) == Some(path),
        prepare_course(setup, first).1 is Ok,
        speaks_for(first, remote),
        clear(remote.fresh),
        marked(remote, (first.record)(path)),
        speaks_for(second, host_after(remote, prepare_course(setup, first).0)),
        (second.record)(path) == remembered(
            prepare_course(setup, first).0,
            path,
            (first.record)(path),
        ),
        current_fingerprint(setup, second) == current_fingerprint(setup, first),
    ensures
        leaves_alone(prepare_course(setup, second).0),
        prepare_course(setup, second).1 matches Ok(session) ==> session.remote_root
            == prepare_course(setup, first).1->Ok_0.remote_root,
{
    law_prepared_session_is_on_the_host(setup, first, path, remote);
    law_prepared_session_is_remembered(setup, first, path);
    let record = (second.record)(path)->0;
    let after = host_after(remote, prepare_course(setup, first).0);
    law_probe_tells_whether_a_session_is_there(after, record.remote_root);
    assert((second.status)(probe_command(record.remote_root)) == Some(true));
    law_unchanged_payload_is_not_streamed(setup, second, path, record);
}

/// A clean-up after a preparation finds the marker that the preparation wrote,
/// and removes the directory of the session and all that lies below it, and
/// nothing else.
pub proof fn law_clean_up_finds_the_marker(
    setup: Setup,
    first: World,
    second: World,
    path: Seq<char>,
    remote: Remote,
)
    requires
        record_file(setup, first) == Some(path),
        record_file(setup, second) == Some(path),
        prepare_course(setup, first).1 is Ok,
        speaks_for(first, remote),
        clear(remote.fresh),
        marked(remote, (first.record)(path)),
        (first.record)(path) matches Some(found) ==> clear(found.marker),
        sha256(marker_seed(first.later_seed.0, first.later_seed.1)).len() == 32,
        speaks_for(second, host_after(remote, prepare_course(setup, first).0)),
        (second.record)(path) == remembered(
            prepare_course(setup, first).0,
            path,
            (first.record)(path),
        ),
        (second.makes_dir)(state_dir_in(second.state_home, second.home)->0),
        second.opens,
        removal_verdict(prepare_course(setup, first).1->Ok_0.remote_root, second.home) is Ok,
    ensures
        ({
            let after = host_after(remote, prepare_course(setup, first).0);
            let root = prepare_course(setup, first).1->Ok_0.remote_root;
            let (log, outcome) = clean_course(clean_setup(setup), second);
            &&& outcome is Ok
            &&& host_after(after, log) == after.without(root)
            &&& log.contains(RequestView::RemoveRecord(path))
        }),
{
    law_prepared_session_is_on_the_host(setup, first, path, remote);
    law_prepared_session_is_remembered(setup, first, path);
    let after = host_after(remote, prepare_course(setup, first).0);
    let record = (second.record)(path)->0;
    let root = record.remote_root;
    assert(root == prepare_course(setup, first).1->Ok_0.remote_root);
    law_marker_is_read_from_its_file(after, root);
    law_removal_removes_the_directory(after, root);
    assert(trimmed(trimmed_end(record.marker)) == record.marker) by {
        lemma_remembered_marker(setup, first, path);
        if record.marker == drawn_marker(first.later_seed.0, first.later_seed.1) {
            lemma_drawn_marker(first);
        }
        law_trimming(seq![], record.marker, seq![]);
        assert(record.marker + Seq::<char>::empty() =~= record.marker);
        assert(Seq::<char>::empty() + record.marker + Seq::<char>::empty() =~= record.marker);
    }
    assert(marker_matches((second.output)(marker_command(root)), record.marker));
    assert((second.status)(remove_command(root)) == Some(true));
    lemma_clean_host(setup, second, path, record, after);
}

/// What a clean-up that finds its marker does.
proof fn lemma_clean_host(
    setup: Setup,
    world: World,
    path: Seq<char>,
    record: StateRecordView,
    remote: Remote,
)
    requires
        record_file(setup, world) == Some(path),
        (world.record)(path) == Some(record),
        (world.makes_dir)(state_dir_in(world.state_home, world.home)->0),
        world.opens,
        removal_verdict(record.remote_root, world.home) is Ok,
        marker_matches((world.output)(marker_command(record.remote_root)), record.marker),
        (world.status)(remove_command(record.remote_root)) == Some(true),
    ensures
        clean_course(clean_setup(setup), world).1 is Ok,
        host_after(remote, clean_course(clean_setup(setup), world).0) == remote.without(
            record.remote_root,
        ),
        clean_course(clean_setup(setup), world).0.contains(RequestView::RemoveRecord(path)),
{
    let root = record.remote_root;
    law_marker_is_read_from_its_file(remote, root);
    law_removal_removes_the_directory(remote, root);
    let conn = cleaning_connection(clean_setup(setup), world);
    let log = clean_course(clean_setup(setup), world).0;
    let dir = state_dir_in(world.state_home, world.home)->0;
    let head = seq![
        RequestView::FindHomes,
        RequestView::MakeDir(dir),
        RequestView::LoadRecord(path),
        RequestView::DrawSeed,
        RequestView::Remote(conn, RemoteStepView::Open),
    ];
    let removal = seq![
        RequestView::Remote(conn, RemoteStepView::Capture(marker_command(root))),
        RequestView::Remote(conn, RemoteStepView::Status(remove_command(root))),
    ];
    let tail = seq![
        RequestView::RemoveRecord(path),
        RequestView::Remote(conn, RemoteStepView::Close),
    ];
    assert(log =~= head + removal + tail);
    assert(log[7] == RequestView::RemoveRecord(path));
    lemma_host_split(remote, head + removal, tail);
    lemma_host_split(remote, head, removal);
    lemma_quiet(remote, head);
    lemma_quiet(remote.without(root), tail);
    lemma_host_two(remote, removal[0], removal[1]);
}

/// A clean-up leaves the remote host as it is where the marker file of the
/// directory is missing or holds another marker, and says so.
pub proof fn law_clean_up_leaves_others_alone(
    setup: Setup,
    world: World,
    path: Seq<char>,
    record: StateRecordView,
    remote: Remote,
)
    requires
        record_file(setup, world) == Some(path),
        (world.record)(path) == Some(record),
        speaks_for(world, remote),
        (world.makes_dir)(state_dir_in(world.state_home, world.home)->0),
        world.opens,
        removal_verdict(record.remote_root, world.home) is Ok,
        remote.files.contains_key(record.remote_root + "/.nomad-marker"@) ==> trimmed(
            trimmed_end(remote.files[record.remote_root + "/.nomad-marker"@]),
        ) != record.marker,
        record.marker.len() > 0,
    ensures
        clean_course(clean_setup(setup), world).1 == Err::<(), NomadErrorView>(
            NomadErrorView::MarkerMismatch(record.remote_root),
        ),
        host_after(remote, clean_course(clean_setup(setup), world).0) == remote,
{
    let root = record.remote_root;
    law_marker_is_read_from_its_file(remote, root);
    let conn = cleaning_connection(clean_setup(setup), world);
    let dir = state_dir_in(world.state_home, world.home)->0;
    assert(trimmed(trimmed_end(Seq::<char>::empty())).len() == 0);
    assert(!marker_matches((world.output)(marker_command(root)), record.marker));
    let head = seq![
        RequestView::FindHomes,
        RequestView::MakeDir(dir),
        RequestView::LoadRecord(path),
        RequestView::DrawSeed,
        RequestView::Remote(conn, RemoteStepView::Open),
    ];
    let look = RequestView::Remote(conn, RemoteStepView::Capture(marker_command(root)));
    let tail = seq![RequestView::Remote(conn, RemoteStepView::Close)];
    let log = clean_course(clean_setup(setup), world).0;
    assert(log =~= head + (seq![look] + tail));
    lemma_host_split(remote, head, seq![look] + tail);
    lemma_quiet(remote, head);
    lemma_host_two(remote, look, tail[0]);
    assert(seq![look] + tail =~= seq![look, tail[0]]);
}

/// What is remembered has the marker that was remembered before, or the one that
/// was drawn.
proof fn lemma_remembered_marker(setup: Setup, world: World, path: Seq<char>)
    requires
        record_file(setup, world) == Some(path),
        prepare_course(setup, world).1 is Ok,
    ensures
        remembered(prepare_course(setup, world).0, path, (world.record)(path)) matches Some(
            record,
        ) && (record.marker == drawn_marker(world.later_seed.0, world.later_seed.1) || ((
        world.record)(path) matches Some(found) && record.marker == found.marker)),
{
    let conn = opened_connection(setup, world);
    let dir = state_dir_in(world.state_home, world.home)->0;
    let found = (world.record)(path);
    let paths = payload_in(setup, world)->Ok_0;
    let sorted = in_path_order(paths, own_path());
    let files = files_read(setup.root, world, sorted, 0)->Ok_0;
    let mark = fingerprint(files, profile_settings(setup.profile));
    let known = known_course(setup, world, conn, path, found, paths, mark);
    let first = seq![
        RequestView::DrawSeed,
        RequestView::Remote(conn, RemoteStepView::Open),
        RequestView::FindHomes,
        RequestView::MakeDir(dir),
        RequestView::LoadRecord(path),
    ] + payload_log(setup, world) + reading_log(setup.root, world, sorted, 0);
    lemma_listing_leaves_alone(setup, world);
    lemma_reading_leaves_alone(setup.root, world, sorted, 0);
    assert(leaves_alone(first));
    assert(prepare_course(setup, world).0 =~= first + known.0);
    lemma_remembered_split(first, known.0, path, found);
    lemma_left_alone(first, path, found);
    lemma_known_marker(setup, world, conn, path, found, paths, mark);
}

proof fn lemma_known_marker(
    setup: Setup,
    world: World,
    conn: ConnectionView,
    path: Seq<char>,
    found: Option<StateRecordView>,
    paths: Seq<Seq<char>>,
    mark: Seq<char>,
)
    requires
        known_course(setup, world, conn, path, found, paths, mark).1 is Ok,
    ensures
        remembered(known_course(setup, world, conn, path, found, paths, mark).0, path, found)
            matches Some(record) && (record.marker == drawn_marker(
            world.later_seed.0,
            world.later_seed.1,
        ) || (found matches Some(earlier) && record.marker == earlier.marker)),
{
    let log = known_course(setup, world, conn, path, found, paths, mark).0;
    let made = StateRecordView {
        remote_root: (world.output)(create_command())->0,
        marker: drawn_marker(world.later_seed.0, world.later_seed.1),
        fingerprint: mark,
    };
    let create = create_course(setup, world, conn, path, paths, mark);
    let filled = refresh_course(setup, world, conn, path, paths, made);
    let start = seq![
        RequestView::Remote(conn, RemoteStepView::Capture(create_command())),
        RequestView::DrawSeed,
    ];
    if create.1 is Ok {
        assert(create.0 =~= start + filled.0);
        let between = remembered(start, path, found);
        lemma_remembered_split(start, filled.0, path, found);
        lemma_refresh_remembers(setup, world, conn, path, between, paths, made);
    }
    if let Some(record) = found {
        let head = seq![
            RequestView::Remote(conn, RemoteStepView::Status(probe_command(record.remote_root))),
        ];
        assert(leaves_alone(head));
        lemma_left_alone(head, path, found);
        if (world.status)(probe_command(record.remote_root)) != Some(true) {
            lemma_remembered_split(head, create.0, path, found);
        } else if record.fingerprint == mark {
            lemma_launch_leaves_alone(setup, world, conn, path, record.remote_root);
            assert(leaves_alone(log));
            lemma_left_alone(log, path, found);
        } else {
            let renewed = StateRecordView {
                remote_root: record.remote_root,
                marker: record.marker,
                fingerprint: mark,
            };
            let rest = refresh_course(setup, world, conn, path, paths, renewed);
            lemma_remembered_split(head, rest.0, path, found);
            lemma_refresh_remembers(setup, world, conn, path, found, paths, renewed);
        }
    }
}

/// A marker that was drawn has no white space at its ends.
proof fn lemma_drawn_marker(world: World)
    requires
        sha256(marker_seed(world.later_seed.0, world.later_seed.1)).len() == 32,
    ensures
        clear(drawn_marker(world.later_seed.0, world.later_seed.1)),
{
    let digest = sha256(marker_seed(world.later_seed.0, world.later_seed.1));
    lemma_hex_text(digest);
    let marker = drawn_marker(world.later_seed.0, world.later_seed.1);
    assert(marker.len() == 32);
}

/// Whether a request asks more of the remote host than a connection.
spec fn reaches_host(request: RequestView) -> bool {
    match request {
        RequestView::Remote(_, RemoteStepView::Open) => false,
        RequestView::Remote(_, RemoteStepView::Close) => false,
        RequestView::Remote(_, _) => true,
        _ => false,
    }
}

/// Whether no request of a list reaches the remote host.
spec fn quiet(log: Seq<RequestView>) -> bool {
    forall|i: int| 0 <= i < log.len() ==> !reaches_host(#[trigger] log[i])
}

proof fn lemma_quiet(remote: Remote, log: Seq<RequestView>)
    requires
        quiet(log),
    ensures
        host_after(remote, log) == remote,
    decreases log.len(),
{
    if log.len() > 0 {
        assert(!reaches_host(log[0]));
        let rest = log.skip(1);
        assert forall|i: int| 0 <= i < rest.len() implies !reaches_host(#[trigger] rest[i]) by {
            assert(rest[i] == log[i + 1]);
        }
        lemma_quiet(remote, rest);
    }
}

proof fn lemma_reading_is_quiet(root: Seq<char>, world: World, sorted: Seq<Seq<char>>, i: int)
    ensures
        quiet(reading_log(root, world, sorted, i)),
    decreases sorted.len() - i,
{
    if 0 <= i < sorted.len() {
        lemma_reading_is_quiet(root, world, sorted, i + 1);
    }
}

proof fn lemma_tracked_is_quiet(world: World, items: Seq<Seq<char>>, i: int)
    ensures
        quiet(tracked_log(world, items, i)),
    decreases items.len() - i,
{
    if 0 <= i < items.len() {
        lemma_tracked_is_quiet(world, items, i + 1);
    }
}

proof fn lemma_listing_is_quiet(setup: Setup, world: World)
    ensures
        quiet(payload_log(setup, world)),
{
    if let Some(text) = world.manifest {
        lemma_tracked_is_quiet(world, items_of(text), 0);
    }
}

proof fn lemma_host_split(remote: Remote, a: Seq<RequestView>, b: Seq<RequestView>)
    ensures
        host_after(remote, a + b) == host_after(host_after(remote, a), b),
    decreases a.len(),
{
    let all = a + b;
    if a.len() == 0 {
        assert(all =~= b);
    } else {
        lemma_host_split(after_request(remote, a[0]), a.skip(1), b);
        assert(all.skip(1) =~= a.skip(1) + b);
        assert(all[0] == a[0]);
    }
}

proof fn lemma_host_one(remote: Remote, request: RequestView, rest: Seq<RequestView>)
    ensures
        host_after(remote, seq![request] + rest) == host_after(
            after_request(remote, request),
            rest,
        ),
{
    let all = seq![request] + rest;
    assert(all.skip(1) =~= rest);
    assert(all[0] == request);
}

proof fn lemma_host_two(remote: Remote, a: RequestView, b: RequestView)
    ensures
        host_after(remote, seq![a, b]) == after_request(after_request(remote, a), b),
{
    assert(seq![a, b] =~= seq![a] + seq![b]);
    lemma_host_one(remote, a, seq![b]);
    assert(seq![b] =~= seq![b] + Seq::<RequestView>::empty());
    lemma_host_one(after_request(remote, a), b, seq![]);
}

/// The remote host with a launcher in a directory.
spec fn with_launcher(remote: Remote, root: Seq<char>, text: Seq<char>) -> Remote {
    Remote {
        files: remote.files.insert(root + "/.nomad-shell"@, text),
        executable: remote.executable.insert(root + "/.nomad-shell"@),
        ..remote
    }
}

proof fn lemma_launch_host(
    setup: Setup,
    world: World,
    conn: ConnectionView,
    path: Seq<char>,
    root: Seq<char>,
    remote: Remote,
)
    requires
        launch_course(setup, world, conn, path, root).1 is Ok,
    ensures
        ({
            let (log, outcome) = launch_course(setup, world, conn, path, root);
            let shell = (world.output)(shell_command())->0;
            &&& (world.output)(shell_command()) is Some
            &&& outcome->Ok_0.remote_root == root
            &&& outcome->Ok_0.remote_shell_name == last_part(shell, '/')
            &&& host_after(remote, log) == with_launcher(
                remote,
                root,
                launcher_text(setup.profile, root, shell, last_part(shell, '/')),
            )
        }),
{
    let (log, outcome) = launch_course(setup, world, conn, path, root);
    let shell = (world.output)(shell_command())->0;
    let text = launcher_text(setup.profile, root, shell, last_part(shell, '/'));
    law_shell_is_found(remote);
    law_file_is_written(remote, launcher_path(root), text, true);
    lemma_host_two(remote, log[0], log[1]);
    assert(log =~= seq![log[0], log[1]]);
}

/// The remote host with a payload and a marker in a directory.
spec fn with_payload(
    remote: Remote,
    root: Seq<char>,
    paths: Seq<Seq<char>>,
    marker: Seq<char>,
) -> Remote {
    Remote {
        files: remote.files.insert(root + "/.nomad-marker"@, marker),
        unpacked: remote.unpacked.insert(root, paths),
        ..remote
    }
}

proof fn lemma_refresh_host(
    setup: Setup,
    world: World,
    conn: ConnectionView,
    path: Seq<char>,
    paths: Seq<Seq<char>>,
    record: StateRecordView,
    remote: Remote,
)
    requires
        refresh_course(setup, world, conn, path, paths, record).1 is Ok,
    ensures
        ({
            let (log, outcome) = refresh_course(setup, world, conn, path, paths, record);
            let root = record.remote_root;
            let shell = (world.output)(shell_command())->0;
            &&& (world.output)(shell_command()) is Some
            &&& outcome->Ok_0.remote_root == root
            &&& outcome->Ok_0.remote_shell_name == last_part(shell, '/')
            &&& host_after(remote, log) == with_launcher(
                with_payload(remote, root, paths, record.marker),
                root,
                launcher_text(setup.profile, root, shell, last_part(shell, '/')),
            )
        }),
{
    let (log, outcome) = refresh_course(setup, world, conn, path, paths, record);
    let root = record.remote_root;
    let launch = launch_course(setup, world, conn, path, root);
    assert(world.streams && (world.writes)(marker_path(root)) && world.saves is Written);
    let streaming = Remote { unpacked: remote.unpacked.insert(root, paths), ..remote };
    law_payload_is_unpacked(remote, root, paths);
    law_file_is_written(streaming, marker_path(root), record.marker, false);
    let filled = with_payload(remote, root, paths, record.marker);
    lemma_launch_host(setup, world, conn, path, root, filled);
    let head = seq![log[0], log[1], log[2]];
    assert(log =~= head + launch.0);
    lemma_host_split(remote, head, launch.0);
    assert(head =~= seq![log[0], log[1]] + seq![log[2]]);
    lemma_host_split(remote, seq![log[0], log[1]], seq![log[2]]);
    lemma_host_two(remote, log[0], log[1]);
    assert(quiet(seq![log[2]]));
    lemma_quiet(filled, seq![log[2]]);
}

proof fn lemma_create_host(
    setup: Setup,
    world: World,
    conn: ConnectionView,
    path: Seq<char>,
    before: Option<StateRecordView>,
    paths: Seq<Seq<char>>,
    mark: Seq<char>,
    remote: Remote,
)
    requires
        create_course(setup, world, conn, path, paths, mark).1 is Ok,
        speaks_for(world, remote),
        clear(remote.fresh),
    ensures
        ({
            let (log, outcome) = create_course(setup, world, conn, path, paths, mark);
            let root = remote.fresh;
            let shell = (world.output)(shell_command())->0;
            let record = StateRecordView {
                remote_root: root,
                marker: drawn_marker(world.later_seed.0, world.later_seed.1),
                fingerprint: mark,
            };
            &&& (world.output)(shell_command()) is Some
            &&& outcome->Ok_0.remote_root == root
            &&& outcome->Ok_0.remote_shell_name == last_part(shell, '/')
            &&& remembered(log, path, before) == Some(record)
            &&& host_after(remote, log) == with_launcher(
                with_payload(
                    Remote { dirs: remote.dirs.insert(root), ..remote },
                    root,
                    paths,
                    record.marker,
                ),
                root,
                launcher_text(setup.profile, root, shell, last_part(shell, '/')),
            )
        }),
{
    let (log, outcome) = create_course(setup, world, conn, path, paths, mark);
    law_directory_is_made(remote);
    let root = (world.output)(create_command())->0;
    assert(root == remote.fresh) by {
        law_trimming(seq![], remote.fresh, seq!['\n']);
        assert(remote.fresh.push('\n') =~= remote.fresh + seq!['\n']);
    }
    let record = StateRecordView {
        remote_root: root,
        marker: drawn_marker(world.later_seed.0, world.later_seed.1),
        fingerprint: mark,
    };
    let made = Remote { dirs: remote.dirs.insert(root), ..remote };
    let rest = refresh_course(setup, world, conn, path, paths, record);
    lemma_refresh_host(setup, world, conn, path, paths, record, made);
    let head = seq![log[0], log[1]];
    assert(log =~= head + rest.0);
    lemma_host_split(remote, head, rest.0);
    lemma_host_two(remote, log[0], log[1]);
    lemma_remembered_split(head, rest.0, path, before);
    lemma_refresh_remembers(
        setup,
        world,
        conn,
        path,
        remembered(head, path, before),
        paths,
        record,
    );
}

/// The marker and the launcher of a directory are two files.
proof fn lemma_files_differ(root: Seq<char>)
    ensures
        root + "/.nomad-marker"@ != root + "/.nomad-shell"@,
{
    reveal_strlit("/.nomad-marker");
    reveal_strlit("/.nomad-shell");
    assert((root + "/.nomad-marker"@).len() == root.len() + 14);
    assert((root + "/.nomad-shell"@).len() == root.len() + 13);
}

#[verifier::rlimit(40)]
proof fn lemma_known_host(
    setup: Setup,
    world: World,
    conn: ConnectionView,
    path: Seq<char>,
    found: Option<StateRecordView>,
    paths: Seq<Seq<char>>,
    mark: Seq<char>,
    remote: Remote,
)
    requires
        known_course(setup, world, conn, path, found, paths, mark).1 is Ok,
        speaks_for(world, remote),
        clear(remote.fresh),
        marked(remote, found),
    ensures
        ({
            let (log, outcome) = known_course(setup, world, conn, path, found, paths, mark);
            let after = host_after(remote, log);
            let root = outcome->Ok_0.remote_root;
            let record = remembered(log, path, found)->0;
            let shell = trimmed_end(
                (if remote.programs.contains_key("zsh"@) {
                    remote.programs["zsh"@]
                } else {
                    remote.programs["bash"@]
                }).push('\n'),
            );
            &&& remembered(log, path, found) is Some
            &&& record.remote_root == root
            &&& on_host(after, record)
            &&& after.files[root + "/.nomad-shell"@] == launcher_text(
                setup.profile,
                root,
                shell,
                outcome->Ok_0.remote_shell_name,
            )
            &&& outcome->Ok_0.remote_shell_name == last_part(shell, '/')
            &&& leaves_alone(log) || (after.unpacked.contains_key(root) && after.unpacked[root]
                == paths)
        }),
{
    let (log, outcome) = known_course(setup, world, conn, path, found, paths, mark);
    law_shell_is_found(remote);
    assert((world.output)(shell_command()) == (world.output)(shell_command()));
    lemma_files_differ(remote.fresh);
    match found {
        None => lemma_create_host(setup, world, conn, path, found, paths, mark, remote),
        Some(record) => {
            let probe = RequestView::Remote(
                conn,
                RemoteStepView::Status(probe_command(record.remote_root)),
            );
            let head = seq![probe];
            lemma_files_differ(record.remote_root);
            law_probe_tells_whether_a_session_is_there(remote, record.remote_root);
            assert(leaves_alone(head));
            lemma_left_alone(head, path, found);
            if (world.status)(probe_command(record.remote_root)) != Some(true) {
                let rest = create_course(setup, world, conn, path, paths, mark);
                lemma_create_host(setup, world, conn, path, found, paths, mark, remote);
                lemma_host_one(remote, probe, rest.0);
                lemma_remembered_split(head, rest.0, path, found);
            } else if record.fingerprint == mark {
                let rest = launch_course(setup, world, conn, path, record.remote_root);
                lemma_launch_host(setup, world, conn, path, record.remote_root, remote);
                lemma_host_one(remote, probe, rest.0);
                lemma_launch_leaves_alone(setup, world, conn, path, record.remote_root);
                assert(leaves_alone(log));
                lemma_left_alone(log, path, found);
            } else {
                let renewed = StateRecordView {
                    remote_root: record.remote_root,
                    marker: record.marker,
                    fingerprint: mark,
                };
                let rest = refresh_course(setup, world, conn, path, paths, renewed);
                lemma_refresh_host(setup, world, conn, path, paths, renewed, remote);
                lemma_host_one(remote, probe, rest.0);
                lemma_remembered_split(head, rest.0, path, found);
                lemma_refresh_remembers(setup, world, conn, path, found, paths, renewed);
            }
        },
    }
}

} // verus!
