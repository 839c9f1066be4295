//! What is refused and why, and what is said then.

use vstd::prelude::*;

use crate::config::{comma_list, ConfigErrorView};
use crate::destination::ParseErrorView;
use crate::naming::lemma_joined_last;
use crate::nomad::{deletion_verdict, removal_verdict, DeletionErrorView, NomadErrorView};
use crate::paths::{components, path_under};
use crate::profile::{ProfileErrorView, ProfileView, RootSpecView};
use crate::root::{first_missing, root_on, Machine};
use crate::text::white;
use crate::text_laws::{all_white, joined_by, law_blank_text, law_pattern_is_found};

verus! {

/// A path may be deleted exactly where it begins at the root, is not the root
/// itself, and has `nomad` somewhere in it. Of any other it is said which of
/// these it lacks, the first in this order.
pub proof fn law_only_session_directories_are_deleted(path: Seq<char>)
    ensures
        deletion_verdict(path) is Ok <==> path.len() > 1 && path[0] == '/' && exists|
            a: Seq<char>,
            b: Seq<char>,
        |
            path == #[trigger] (a + "nomad"@ + b),
        all_white(path) ==> deletion_verdict(path) == Err::<(), DeletionErrorView>(
            DeletionErrorView::Empty,
        ),
        !all_white(path) && path[0] != '/' ==> deletion_verdict(path) == Err::<
            (),
            DeletionErrorView,
        >(DeletionErrorView::Relative(path)),
        deletion_verdict("/"@) == Err::<(), DeletionErrorView>(DeletionErrorView::RootFilesystem),
        path.len() > 1 && path[0] == '/' && deletion_verdict(path) is Err ==> deletion_verdict(path)
            == Err::<(), DeletionErrorView>(DeletionErrorView::Unfamiliar(path)),
{
    reveal_strlit("/");
    assert("/"@.len() == 1 && "/"@[0] == '/');
    law_blank_text(path);
    law_blank_text("/"@);
    law_pattern_is_found(path, "nomad"@);
    if path.len() > 0 && path[0] == '/' {
        assert(!all_white(path)) by {
            assert(!white(path[0]));
        }
        if path.len() == 1 {
            assert(path =~= "/"@);
        }
    }
    assert(!all_white("/"@)) by {
        assert(!white("/"@[0]));
    }
    if path == "/"@ {
        assert(deletion_verdict(path) is Err);
    }
}

/// The home directory is not deleted, however its path is written, and any
/// other directory is judged by its path alone.
pub proof fn law_home_is_not_deleted(path: Seq<char>, home: Seq<char>)
    ensures
        components(path) == components(home) && deletion_verdict(path) is Ok ==> removal_verdict(
            path,
            Some(home),
        ) == Err::<(), DeletionErrorView>(DeletionErrorView::Home(path)),
        components(path) != components(home) ==> removal_verdict(path, Some(home))
            == deletion_verdict(path),
        removal_verdict(path, None) == deletion_verdict(path),
        deletion_verdict(path) is Err ==> removal_verdict(path, Some(home)) == deletion_verdict(
            path,
        ),
{
}

/// Why a root is refused: the first reason in this order decides. Where there is
/// none, the canonical form of the path is the root.
pub proof fn law_root_is_refused_for_the_first_reason(
    profile: ProfileView,
    path: Seq<char>,
    machine: Machine,
    k: int,
)
    requires
        profile.root == RootSpecView::Path(path) || (profile.root matches RootSpecView::Env(name)
            && (machine.env)(name) == Some(path)),
    ensures
        ({
            let rules = profile.validate;
            let outcome = root_on(profile, machine);
            let at_home = |root: Seq<char>|
                machine.home matches Some(home) && components(root) == components(home);
            let files_until = |root: Seq<char>, n: int|
                forall|i: int|
                    0 <= i < n ==> (machine.is_file)(path_under(root, #[trigger] rules.files[i]));
            let dirs_until = |root: Seq<char>, n: int|
                forall|i: int|
                    0 <= i < n ==> (machine.is_dir)(path_under(root, #[trigger] rules.dirs[i]));
            match (machine.canonical)(path) {
                None => outcome == Err::<Seq<char>, ProfileErrorView>(
                    ProfileErrorView::RootMissing(path),
                ),
                Some(root) => {
                    &&& at_home(root) ==> outcome == Err::<Seq<char>, ProfileErrorView>(
                        ProfileErrorView::RootIsHome(machine.home->0),
                    )
                    &&& !at_home(root) && 0 <= k < rules.files.len() && files_until(root, k) && !(
                    machine.is_file)(path_under(root, rules.files[k])) ==> outcome == Err::<
                        Seq<char>,
                        ProfileErrorView,
                    >(ProfileErrorView::MissingFile(root, rules.files[k]))
                    &&& !at_home(root) && files_until(root, rules.files.len() as int) && 0 <= k
                        < rules.dirs.len() && dirs_until(root, k) && !(machine.is_dir)(
                        path_under(root, rules.dirs[k]),
                    ) ==> outcome == Err::<Seq<char>, ProfileErrorView>(
                        ProfileErrorView::MissingDir(root, rules.dirs[k]),
                    )
                    &&& !at_home(root) && files_until(root, rules.files.len() as int) && dirs_until(
                        root,
                        rules.dirs.len() as int,
                    ) ==> outcome == (if !rules.git || (machine.work_tree)(root) == Some(true) {
                        Ok::<Seq<char>, ProfileErrorView>(root)
                    } else if (machine.work_tree)(root) == Some(false) {
                        Err(ProfileErrorView::NotWorkTree(root))
                    } else {
                        Err(ProfileErrorView::GitUnavailable)
                    })
                },
            }
        }),
{
    let rules = profile.validate;
    if let Some(root) = (machine.canonical)(path) {
        if 0 <= k < rules.files.len() {
            lemma_first_missing(rules.files, machine.is_file, root, 0, k);
        }
        if 0 <= k < rules.dirs.len() {
            lemma_first_missing(rules.dirs, machine.is_dir, root, 0, k);
        }
        lemma_first_missing(rules.files, machine.is_file, root, 0, rules.files.len() as int);
        lemma_first_missing(rules.dirs, machine.is_dir, root, 0, rules.dirs.len() as int);
    }
}

/// An environment variable that is not set is named.
pub proof fn law_unset_variable_is_named(profile: ProfileView, machine: Machine, name: Seq<char>)
    requires
        profile.root == RootSpecView::Env(name),
        (machine.env)(name) is None,
    ensures
        root_on(profile, machine) == Err::<Seq<char>, ProfileErrorView>(
            ProfileErrorView::EnvUnset(name),
        ),
{
}

proof fn lemma_first_missing(
    paths: Seq<Seq<char>>,
    present: spec_fn(Seq<char>) -> bool,
    root: Seq<char>,
    i: int,
    k: int,
)
    requires
        0 <= i <= k <= paths.len(),
    ensures
        (forall|j: int| i <= j < k ==> present(path_under(root, #[trigger] paths[j]))) ==> (if k
            < paths.len() {
            !present(path_under(root, paths[k])) ==> first_missing(paths, present, root, i) == Some(
                paths[k],
            )
        } else {
            first_missing(paths, present, root, i) is None
        }),
    decreases k - i,
{
    if i < k {
        lemma_first_missing(paths, present, root, i + 1, k);
        if forall|j: int| i <= j < k ==> present(path_under(root, #[trigger] paths[j])) {
            assert(present(path_under(root, paths[i])));
        }
    }
}

/// What is said of a profile that cannot be used.
pub proof fn law_profile_errors_say(a: Seq<char>, b: Seq<char>)
    ensures
        ProfileErrorView::EnvUnset(a).message() == "environment variable "@ + a + " is not set"@,
        ProfileErrorView::RootMissing(a).message() == "profile root does not exist: "@ + a,
        ProfileErrorView::RootIsHome(a).message() == "refusing to use "@ + a
            + " as the profile root"@,
        ProfileErrorView::MissingFile(a, b).message() == "profile root does not look valid: "@ + a
            + " (missing file "@ + b + ")"@,
        ProfileErrorView::MissingDir(a, b).message() == "profile root does not look valid: "@ + a
            + " (missing directory "@ + b + ")"@,
        ProfileErrorView::GitUnavailable.message() == "git must be installed locally"@,
        ProfileErrorView::NotWorkTree(a).message() == "profile root must be a Git working tree: "@
            + a,
        ProfileErrorView::ManifestUnreadable(a).message() == "failed to read payload manifest "@
            + a,
        ProfileErrorView::NotTracked(a).message() == "payload manifest entry is not tracked: "@ + a,
{
}

/// What is said of a path that is not deleted.
pub proof fn law_deletion_errors_say(a: Seq<char>)
    ensures
        DeletionErrorView::Empty.message() == "refusing to clean an empty remote path"@,
        DeletionErrorView::Relative(a).message() == "refusing to clean a relative remote path: "@
            + a,
        DeletionErrorView::RootFilesystem.message()
            == "refusing to clean the remote root filesystem"@,
        DeletionErrorView::Unfamiliar(a).message()
            == "refusing to clean a path that doesn't look like a nomad temp dir: "@ + a,
        DeletionErrorView::Home(a).message() == "refusing to clean the home directory: "@ + a,
{
}

/// What is said of a session that is not prepared, entered or cleaned.
pub proof fn law_session_errors_say(
    a: Seq<char>,
    profile: ProfileErrorView,
    deletion: DeletionErrorView,
)
    ensures
        NomadErrorView::Open.message() == "failed to open control connection"@,
        NomadErrorView::NoHome.message() == "cannot determine home directory"@,
        NomadErrorView::StateDir(a).message() == "failed to create state directory "@ + a,
        NomadErrorView::Profile(profile).message() == profile.message(),
        NomadErrorView::PayloadUnreadable(a).message() == "failed to read payload file "@ + a,
        NomadErrorView::Create.message() == "failed to create remote temp directory"@,
        NomadErrorView::Stream.message() == "failed to stream dotfiles payload"@,
        NomadErrorView::WriteMarker.message() == "failed to write session marker"@,
        NomadErrorView::SerializeState.message() == "failed to serialize session state"@,
        NomadErrorView::WriteState(a).message() == "failed to write session state "@ + a,
        NomadErrorView::ResolveShell.message() == "failed to resolve remote shell"@,
        NomadErrorView::NoShell.message()
            == "neither zsh nor bash is installed on the remote host"@,
        NomadErrorView::UnsupportedShell(a).message() == "unsupported remote shell resolved: "@ + a,
        NomadErrorView::WriteLauncher.message() == "failed to write remote launcher"@,
        NomadErrorView::Interactive.message() == "failed to launch interactive ssh session"@,
        NomadErrorView::NoSession.message() == "no active nomad session found for this destination"@,
        NomadErrorView::Deletion(deletion).message() == deletion.message(),
        NomadErrorView::MarkerMismatch(a).message() == "refusing to remove "@ + a
            + ": session marker mismatch"@,
        NomadErrorView::Remove.message() == "failed to remove remote temp directory"@,
        NomadErrorView::NotRemoved(a).message() == "failed to remove remote directory "@ + a,
{
}

/// What is said of a command line that cannot be made out.
pub proof fn law_parse_errors_say(flag: Seq<char>)
    ensures
        ParseErrorView::MissingHost.message() == "usage: nomad [--waypipe|-wp] [ssh options] host"@,
        ParseErrorView::RemoteCommandsUnsupported.message()
            == "remote commands are not supported; this always launches your dotfiles shell"@,
        ParseErrorView::MissingValueFor(flag).message() == "missing value for "@ + flag,
{
}

/// What is said of a configuration that is not found, read or understood. Every
/// file that was looked for is named, in its order.
pub proof fn law_config_errors_say(tried: Seq<Seq<char>>, path: Seq<char>, source: Seq<char>)
    ensures
        (ConfigErrorView::NotFound { tried }).message() == "no config file found, tried: "@
            + joined_by(tried, ", "@),
        (ConfigErrorView::Read { path, source }).message() == "failed to read "@ + path + ": "@
            + source,
        (ConfigErrorView::Parse { path, source }).message() == "failed to parse "@ + path + ": "@
            + source,
{
    lemma_comma_list(tried);
}

proof fn lemma_comma_list(items: Seq<Seq<char>>)
    ensures
        comma_list(items) == joined_by(items, ", "@),
    decreases items.len(),
{
    if items.len() > 1 {
        lemma_comma_list(items.drop_last());
        lemma_joined_last(items.drop_last(), items.last(), ", "@);
        assert(items =~= items.drop_last().push(items.last()));
    }
}

} // verus!
