//! When preparations and clean-ups succeed, and what they say where they fail.

use vstd::prelude::*;

use crate::clean::{
    clean_request, marker_command, next_clean_stage, remove_command, CleanSetup, CleanStageView,
};
use crate::config::{next_search_stage, SearchStageView};
use crate::course::{
    clean_course, files_read, known_course, opened_connection, payload_in, prepare_course, World,
};
use crate::enter::{enter_request, next_enter_stage, EnterSetup, EnterStageView};
use crate::guarantees::fits;
use crate::nomad::{removal_verdict, ControlGuardView, NomadErrorView, PreparedSessionView};
use crate::paths::{in_path_order, own_path, path_under};
use crate::payload::{next_payload_stage, PayloadAnswerView, PayloadStageView};
use crate::prepare::{
    create_command, next_prepare_stage, prepare_request, probe_command, profile_settings,
    shell_command, PrepareStageView, Setup,
};
use crate::profile::{free_of, ProfileView};
use crate::protocol::{AnswerView, ConnectionView};
use crate::reuse::{clean_setup, current_fingerprint, record_file};
use crate::root::{
    next_root_stage, root_request, RootAnswerView, RootRequestView, RootStageView,
};
use crate::session::{fingerprint, state_dir_in, PayloadFileView};
use crate::text::trimmed;
use crate::text_laws::law_last_part_is_read_back;

verus! {

/// The files of a payload are read, each below the root, in the order of the
/// paths. The first that cannot be read is named.
pub proof fn law_files_are_read_below_the_root(
    root: Seq<char>,
    world: World,
    paths: Seq<Seq<char>>,
    k: int,
)
    requires
        0 <= k <= paths.len(),
        forall|i: int|
            0 <= i < k ==> (world.contents)(path_under(root, #[trigger] paths[i])) is Some,
        k < paths.len() ==> (world.contents)(path_under(root, paths[k])) is None,
    ensures
        k < paths.len() ==> files_read(root, world, paths, 0) == Err::<
            Seq<PayloadFileView>,
            NomadErrorView,
        >(NomadErrorView::PayloadUnreadable(path_under(root, paths[k]))),
        k == paths.len() ==> files_read(root, world, paths, 0) == Ok::<
            Seq<PayloadFileView>,
            NomadErrorView,
        >(
            Seq::new(
                paths.len(),
                |i: int|
                    PayloadFileView {
                        path: paths[i],
                        contents: (world.contents)(path_under(root, paths[i]))->0,
                    },
            ),
        ),
{
    lemma_files_from(root, world, paths, k, 0);
    let all = Seq::new(
        paths.len(),
        |i: int|
            PayloadFileView {
                path: paths[i],
                contents: (world.contents)(path_under(root, paths[i]))->0,
            },
    );
    assert(all.skip(0) =~= all);
}

proof fn lemma_files_from(
    root: Seq<char>,
    world: World,
    paths: Seq<Seq<char>>,
    k: int,
    i: int,
)
    requires
        0 <= i <= k <= paths.len(),
        forall|i: int|
            0 <= i < k ==> (world.contents)(path_under(root, #[trigger] paths[i])) is Some,
        k < paths.len() ==> (world.contents)(path_under(root, paths[k])) is None,
    ensures
        k < paths.len() ==> files_read(root, world, paths, i) == Err::<
            Seq<PayloadFileView>,
            NomadErrorView,
        >(NomadErrorView::PayloadUnreadable(path_under(root, paths[k]))),
        k == paths.len() ==> files_read(root, world, paths, i) == Ok::<
            Seq<PayloadFileView>,
            NomadErrorView,
        >(
            Seq::new(
                paths.len(),
                |i: int|
                    PayloadFileView {
                        path: paths[i],
                        contents: (world.contents)(path_under(root, paths[i]))->0,
                    },
            ).skip(i),
        ),
    decreases k - i,
{
    let all = Seq::new(
        paths.len(),
        |i: int|
            PayloadFileView {
                path: paths[i],
                contents: (world.contents)(path_under(root, paths[i]))->0,
            },
    );
    if i < k {
        lemma_files_from(root, world, paths, k, i + 1);
        assert((world.contents)(path_under(root, paths[i])) is Some);
        assert(all.skip(i) =~= seq![all[i]] + all.skip(i + 1));
    } else if k == paths.len() {
        assert(all.skip(i) =~= seq![]);
    }
}

/// Before the remote host is asked for anything but a connection, a preparation
/// fails where no connection can be opened, no home is known, the directory of
/// the records cannot be made, the payload cannot be listed, or a file of it
/// cannot be read; the first in this order is said.
pub proof fn law_preparation_fails_early(setup: Setup, world: World)
    ensures
        ({
            let outcome = prepare_course(setup, world).1;
            let failed = |err: NomadErrorView|
                outcome == Err::<PreparedSessionView, NomadErrorView>(err);
            if !world.opens {
                failed(NomadErrorView::Open)
            } else if world.state_home is None && world.home is None {
                failed(NomadErrorView::NoHome)
            } else {
                let dir = state_dir_in(world.state_home, world.home)->0;
                if !(world.makes_dir)(dir) {
                    failed(NomadErrorView::StateDir(dir))
                } else {
                    match payload_in(setup, world) {
                        Err(err) => failed(NomadErrorView::Profile(err)),
                        Ok(paths) => match files_read(
                            setup.root,
                            world,
                            in_path_order(paths, own_path()),
                            0,
                        ) {
                            Err(err) => failed(err),
                            Ok(_) => true,
                        },
                    }
                }
            }
        }),
{
}

/// Whether a remembered directory is used again: it is still there.
pub open spec fn used_again(setup: Setup, world: World, path: Seq<char>) -> bool {
    (world.record)(path) matches Some(record) && (world.status)(probe_command(record.remote_root))
        == Some(true)
}

/// Whether the payload is streamed: nothing is used again, or what is has another
/// fingerprint.
pub open spec fn streamed_anew(setup: Setup, world: World, path: Seq<char>) -> bool {
    !used_again(setup, world, path) || current_fingerprint(setup, world) != Some(
        (world.record)(path)->0.fingerprint,
    )
}

/// The remote directory of a session: the one that is used again, or the one
/// that was made.
pub open spec fn session_root(setup: Setup, world: World, path: Seq<char>) -> Seq<char> {
    if used_again(setup, world, path) {
        (world.record)(path)->0.remote_root
    } else {
        (world.output)(create_command())->0
    }
}

/// Once the payload is read, a preparation succeeds exactly where every remote
/// step that it needs succeeds: the directory is made where none is used again;
/// the payload streamed, the marker written and the session remembered where that
/// has to be done anew; a shell found that is zsh or bash by its name; and the
/// launcher written. The first that fails is said.
pub proof fn law_preparation_succeeds_where_every_step_does(
    setup: Setup,
    world: World,
    path: Seq<char>,
    dir: Seq<char>,
    name: Seq<char>,
)
    requires
        world.opens,
        record_file(setup, world) == Some(path),
        (world.makes_dir)(state_dir_in(world.state_home, world.home)->0),
        current_fingerprint(setup, world) is Some,
        free_of(name, '/'),
        (world.output)(shell_command()) matches Some(shell) ==> shell == dir + seq!['/'] + name
            || shell == name,
    ensures
        ({
            let outcome = prepare_course(setup, world).1;
            let root = session_root(setup, world, path);
            let anew = streamed_anew(setup, world, path);
            let failed = |err: NomadErrorView|
                outcome == Err::<PreparedSessionView, NomadErrorView>(err);
            if !used_again(setup, world, path) && (world.output)(create_command()) is None {
                failed(NomadErrorView::Create)
            } else if anew && !world.streams {
                failed(NomadErrorView::Stream)
            } else if anew && !(world.writes)(root + "/.nomad-marker"@) {
                failed(NomadErrorView::WriteMarker)
            } else if anew && world.saves is NotSerialized {
                failed(NomadErrorView::SerializeState)
            } else if anew && world.saves is NotWritten {
                failed(NomadErrorView::WriteState(path))
            } else {
                match (world.output)(shell_command()) {
                    None => failed(NomadErrorView::ResolveShell),
                    Some(shell) => if shell.len() == 0 {
                        failed(NomadErrorView::NoShell)
                    } else if name != "zsh"@ && name != "bash"@ {
                        failed(NomadErrorView::UnsupportedShell(shell))
                    } else if !(world.writes)(root + "/.nomad-shell"@) {
                        failed(NomadErrorView::WriteLauncher)
                    } else {
                        outcome == Ok::<PreparedSessionView, NomadErrorView>(
                            PreparedSessionView {
                                socket: opened_connection(setup, world).socket,
                                remote_root: root,
                                remote_shell_name: name,
                                state_path: path,
                            },
                        )
                    },
                }
            }
        }),
{
    law_last_part_is_read_back(dir, '/', name);
    let conn = opened_connection(setup, world);
    let found = (world.record)(path);
    let paths = payload_in(setup, world)->Ok_0;
    let sorted = in_path_order(paths, own_path());
    let files = files_read(setup.root, world, sorted, 0)->Ok_0;
    let mark = fingerprint(files, profile_settings(setup.profile));
    assert(current_fingerprint(setup, world) == Some(mark));
    assert(prepare_course(setup, world).1 == known_course(
        setup,
        world,
        conn,
        path,
        found,
        paths,
        mark,
    ).1);
}

/// A clean-up succeeds exactly where the session is remembered, its directory may
/// be deleted, a connection can be opened, the marker file holds the marker of
/// the record, and the directory is removed. The first that fails is said.
pub proof fn law_clean_up_succeeds_where_every_step_does(
    setup: Setup,
    world: World,
)
    ensures
        ({
            let outcome = clean_course(clean_setup(setup), world).1;
            let failed = |err: NomadErrorView| outcome == Err::<(), NomadErrorView>(err);
            if world.state_home is None && world.home is None {
                failed(NomadErrorView::NoHome)
            } else {
                let dir = state_dir_in(world.state_home, world.home)->0;
                if !(world.makes_dir)(dir) {
                    failed(NomadErrorView::StateDir(dir))
                } else {
                    match (world.record)(record_file(setup, world)->0) {
                        None => failed(NomadErrorView::NoSession),
                        Some(record) => {
                            let root = record.remote_root;
                            let marker = match (world.output)(marker_command(root)) {
                                Some(text) => trimmed(text),
                                None => trimmed(Seq::empty()),
                            };
                            match removal_verdict(root, world.home) {
                                Err(err) => failed(NomadErrorView::Deletion(err)),
                                Ok(_) => if !world.opens {
                                    failed(NomadErrorView::Open)
                                } else if marker != record.marker {
                                    failed(NomadErrorView::MarkerMismatch(root))
                                } else {
                                    match (world.status)(remove_command(root)) {
                                        None => failed(NomadErrorView::Remove),
                                        Some(false) => failed(NomadErrorView::NotRemoved(root)),
                                        Some(true) => outcome is Ok,
                                    }
                                },
                            }
                        },
                    }
                }
            }
        }),
{
}

/// An answer that does not fit the question changes nothing, and neither does
/// any answer once all is over.
pub proof fn law_unfit_answers_change_nothing(
    setup: Setup,
    stage: PrepareStageView,
    clean: CleanSetup,
    clean_stage: CleanStageView,
    enter: EnterSetup,
    enter_stage: EnterStageView,
    answer: AnswerView,
)
    ensures
        prepare_request(setup, stage) matches Some(request) ==> !fits(request, answer)
            ==> next_prepare_stage(setup, stage, answer) == stage,
        stage is Finished ==> next_prepare_stage(setup, stage, answer) == stage,
        clean_request(clean, clean_stage) matches Some(request) ==> !fits(request, answer)
            ==> next_clean_stage(clean, clean_stage, answer) == clean_stage,
        clean_stage is Finished ==> next_clean_stage(clean, clean_stage, answer) == clean_stage,
        enter_request(enter, enter_stage) matches Some(request) ==> !fits(request, answer)
            ==> next_enter_stage(enter_stage, answer) == enter_stage,
        enter_stage is Finished ==> next_enter_stage(enter_stage, answer) == enter_stage,
{
}

/// The same holds of what is asked of the profile root and of its payload.
pub proof fn law_unfit_root_and_payload_answers_change_nothing(
    profile: ProfileView,
    root_stage: RootStageView,
    root_answer: RootAnswerView,
    payload_stage: PayloadStageView,
    payload_answer: PayloadAnswerView,
    search: SearchStageView,
    is_file: bool,
)
    ensures
        root_request(profile.validate, root_stage) matches Some(request) ==> !(match request {
            RootRequestView::ReadEnv(_) => root_answer is Text,
            RootRequestView::Canonicalize(_) => root_answer is Text,
            RootRequestView::FindHome => root_answer is Text,
            RootRequestView::IsFile(_) => root_answer is Holds,
            RootRequestView::IsDir(_) => root_answer is Holds,
            RootRequestView::IsWorkTree(_) => root_answer is Holds || root_answer is NoGit,
        }) ==> next_root_stage(profile.validate, root_stage, root_answer) == root_stage,
        root_stage is Finished ==> next_root_stage(profile.validate, root_stage, root_answer)
            == root_stage,
        payload_stage is Manifest && payload_answer is Listing ==> next_payload_stage(
            profile,
            payload_stage,
            payload_answer,
        ) == payload_stage,
        payload_stage is Items && payload_answer is Manifest ==> next_payload_stage(
            profile,
            payload_stage,
            payload_answer,
        ) == payload_stage,
        payload_stage is Finished ==> next_payload_stage(profile, payload_stage, payload_answer)
            == payload_stage,
        search is Finished ==> next_search_stage(search, is_file) == search,
{
}

/// Whether a connection could be closed or a record removed makes no difference:
/// what a preparation or a clean-up ends in was decided before.
pub proof fn law_closing_decides_nothing(
    setup: Setup,
    clean: CleanSetup,
    conn: ConnectionView,
    path: Seq<char>,
    error: NomadErrorView,
    outcome: Result<(), NomadErrorView>,
    done: bool,
)
    ensures
        next_prepare_stage(
            setup,
            PrepareStageView::Closing { conn, error },
            AnswerView::Done(done),
        ) == PrepareStageView::Finished(Err(error)),
        next_clean_stage(
            clean,
            CleanStageView::Closing { conn, outcome },
            AnswerView::Done(done),
        ) == CleanStageView::Finished(outcome),
        next_clean_stage(
            clean,
            CleanStageView::Forgetting {
                guard: ControlGuardView { conn, disarmed: false },
                state_path: path,
            },
            AnswerView::Done(done),
        ) == (CleanStageView::Closing { conn, outcome: Ok(()) }),
{
}

} // verus!
