//! Sessions on a remote host: what guards them, what they are called, and the
//! script that starts their shell.

use vstd::prelude::*;

use crate::destination::Destination;
use crate::paths::rooted;
use crate::paths::same_path;
use crate::profile::{Profile, ProfileError};
use crate::profile::{
    filled_text, fragments_of, key_is_plain, law_rendering_is_by_fragment, rendered,
    ProfileErrorView, ProfileView,
};
use crate::protocol::Connection;
use crate::protocol::ConnectionView;
use crate::root::is_home;
use crate::session::optional_text;
use crate::text::{contains, joined, same, starts_with, trim};
use crate::text::{has_text, occurs_at, texts, trimmed};
use crate::text_map::TextMap;
use crate::text_map::{inserted, precedes, Pair};

verus! {

/// Why a remote path is not deleted.
#[derive(Debug, Clone, PartialEq, Eq)]
pub enum DeletionError {
    Empty,
    Relative(String),
    RootFilesystem,
    Unfamiliar(String),
    Home(String),
}

/// What a [`DeletionError`] holds.
pub enum DeletionErrorView {
    Empty,
    Relative(Seq<char>),
    RootFilesystem,
    Unfamiliar(Seq<char>),
    Home(Seq<char>),
}

impl View for DeletionError {
    type V = DeletionErrorView;

    open spec fn view(&self) -> DeletionErrorView {
        match self {
            DeletionError::Empty => DeletionErrorView::Empty,
            DeletionError::Relative(path) => DeletionErrorView::Relative(path@),
            DeletionError::RootFilesystem => DeletionErrorView::RootFilesystem,
            DeletionError::Unfamiliar(path) => DeletionErrorView::Unfamiliar(path@),
            DeletionError::Home(path) => DeletionErrorView::Home(path@),
        }
    }
}

impl DeletionErrorView {
    /// The text shown to the user.
    pub open spec fn message(self) -> Seq<char> {
        match self {
            DeletionErrorView::Empty => "refusing to clean an empty remote path"@,
            DeletionErrorView::Relative(path) => "refusing to clean a relative remote path: "@
                + path,
            DeletionErrorView::RootFilesystem => "refusing to clean the remote root filesystem"@,
            DeletionErrorView::Unfamiliar(path) =>
                "refusing to clean a path that doesn't look like a nomad temp dir: "@ + path,
            DeletionErrorView::Home(path) => "refusing to clean the home directory: "@ + path,
        }
    }
}

impl DeletionError {
    /// The text shown to the user.
    pub fn message(&self) -> (r: String)
        ensures
            r@ == self@.message(),
    {
        match self {
            DeletionError::Empty => "refusing to clean an empty remote path".to_owned(),
            DeletionError::Relative(path) => joined(
                "refusing to clean a relative remote path: ",
                path.as_str(),
            ),
            DeletionError::RootFilesystem =>
                "refusing to clean the remote root filesystem".to_owned(),
            DeletionError::Unfamiliar(path) => joined(
                "refusing to clean a path that doesn't look like a nomad temp dir: ",
                path.as_str(),
            ),
            DeletionError::Home(path) => joined(
                "refusing to clean the home directory: ",
                path.as_str(),
            ),
        }
    }
}

/// Why a session is not prepared, entered or cleaned.
#[derive(Debug, Clone, PartialEq, Eq)]
pub enum NomadError {
    Open,
    NoHome,
    StateDir(String),
    Profile(ProfileError),
    PayloadUnreadable(String),
    Create,
    Stream,
    WriteMarker,
    SerializeState,
    WriteState(String),
    ResolveShell,
    NoShell,
    UnsupportedShell(String),
    WriteLauncher,
    Interactive,
    NoSession,
    Deletion(DeletionError),
    MarkerMismatch(String),
    Remove,
    NotRemoved(String),
}

/// What a [`NomadError`] holds.
pub enum NomadErrorView {
    Open,
    NoHome,
    StateDir(Seq<char>),
    Profile(ProfileErrorView),
    PayloadUnreadable(Seq<char>),
    Create,
    Stream,
    WriteMarker,
    SerializeState,
    WriteState(Seq<char>),
    ResolveShell,
    NoShell,
    UnsupportedShell(Seq<char>),
    WriteLauncher,
    Interactive,
    NoSession,
    Deletion(DeletionErrorView),
    MarkerMismatch(Seq<char>),
    Remove,
    NotRemoved(Seq<char>),
}

impl View for NomadError {
    type V = NomadErrorView;

    open spec fn view(&self) -> NomadErrorView {
        match self {
            NomadError::Open => NomadErrorView::Open,
            NomadError::NoHome => NomadErrorView::NoHome,
            NomadError::StateDir(dir) => NomadErrorView::StateDir(dir@),
            NomadError::Profile(err) => NomadErrorView::Profile(err@),
            NomadError::PayloadUnreadable(path) => NomadErrorView::PayloadUnreadable(path@),
            NomadError::Create => NomadErrorView::Create,
            NomadError::Stream => NomadErrorView::Stream,
            NomadError::WriteMarker => NomadErrorView::WriteMarker,
            NomadError::SerializeState => NomadErrorView::SerializeState,
            NomadError::WriteState(path) => NomadErrorView::WriteState(path@),
            NomadError::ResolveShell => NomadErrorView::ResolveShell,
            NomadError::NoShell => NomadErrorView::NoShell,
            NomadError::UnsupportedShell(shell) => NomadErrorView::UnsupportedShell(shell@),
            NomadError::WriteLauncher => NomadErrorView::WriteLauncher,
            NomadError::Interactive => NomadErrorView::Interactive,
            NomadError::NoSession => NomadErrorView::NoSession,
            NomadError::Deletion(err) => NomadErrorView::Deletion(err@),
            NomadError::MarkerMismatch(root) => NomadErrorView::MarkerMismatch(root@),
            NomadError::Remove => NomadErrorView::Remove,
            NomadError::NotRemoved(root) => NomadErrorView::NotRemoved(root@),
        }
    }
}

impl NomadErrorView {
    /// The text shown to the user.
    pub open spec fn message(self) -> Seq<char> {
        match self {
            NomadErrorView::Open => "failed to open control connection"@,
            NomadErrorView::NoHome => "cannot determine home directory"@,
            NomadErrorView::StateDir(dir) => "failed to create state directory "@ + dir,
            NomadErrorView::Profile(err) => err.message(),
            NomadErrorView::PayloadUnreadable(path) => "failed to read payload file "@ + path,
            NomadErrorView::Create => "failed to create remote temp directory"@,
            NomadErrorView::Stream => "failed to stream dotfiles payload"@,
            NomadErrorView::WriteMarker => "failed to write session marker"@,
            NomadErrorView::SerializeState => "failed to serialize session state"@,
            NomadErrorView::WriteState(path) => "failed to write session state "@ + path,
            NomadErrorView::ResolveShell => "failed to resolve remote shell"@,
            NomadErrorView::NoShell => "neither zsh nor bash is installed on the remote host"@,
            NomadErrorView::UnsupportedShell(shell) => "unsupported remote shell resolved: "@
                + shell,
            NomadErrorView::WriteLauncher => "failed to write remote launcher"@,
            NomadErrorView::Interactive => "failed to launch interactive ssh session"@,
            NomadErrorView::NoSession => "no active nomad session found for this destination"@,
            NomadErrorView::Deletion(err) => err.message(),
            NomadErrorView::MarkerMismatch(root) => "refusing to remove "@ + root
                + ": session marker mismatch"@,
            NomadErrorView::Remove => "failed to remove remote temp directory"@,
            NomadErrorView::NotRemoved(root) => "failed to remove remote directory "@ + root,
        }
    }
}

impl NomadError {
    /// The text shown to the user.
    pub fn message(&self) -> (r: String)
        ensures
            r@ == self@.message(),
    {
        match self {
            NomadError::Open => "failed to open control connection".to_owned(),
            NomadError::NoHome => "cannot determine home directory".to_owned(),
            NomadError::StateDir(dir) => joined("failed to create state directory ", dir.as_str()),
            NomadError::Profile(err) => err.message(),
            NomadError::PayloadUnreadable(path) => joined(
                "failed to read payload file ",
                path.as_str(),
            ),
            NomadError::Create => "failed to create remote temp directory".to_owned(),
            NomadError::Stream => "failed to stream dotfiles payload".to_owned(),
            NomadError::WriteMarker => "failed to write session marker".to_owned(),
            NomadError::SerializeState => "failed to serialize session state".to_owned(),
            NomadError::WriteState(path) => joined("failed to write session state ", path.as_str()),
            NomadError::ResolveShell => "failed to resolve remote shell".to_owned(),
            NomadError::NoShell =>
                "neither zsh nor bash is installed on the remote host".to_owned(),
            NomadError::UnsupportedShell(shell) => joined(
                "unsupported remote shell resolved: ",
                shell.as_str(),
            ),
            NomadError::WriteLauncher => "failed to write remote launcher".to_owned(),
            NomadError::Interactive => "failed to launch interactive ssh session".to_owned(),
            NomadError::NoSession =>
                "no active nomad session found for this destination".to_owned(),
            NomadError::Deletion(err) => err.message(),
            NomadError::MarkerMismatch(root) => {
                let mut r = joined("refusing to remove ", root.as_str());
                r.append(": session marker mismatch");
                r
            },
            NomadError::Remove => "failed to remove remote temp directory".to_owned(),
            NomadError::NotRemoved(root) => joined(
                "failed to remove remote directory ",
                root.as_str(),
            ),
        }
    }
}

/// Whether a remote path may be deleted: not one that is blank, relative or the
/// root of the filesystem, nor one whose text does not hold `nomad`.
pub open spec fn deletion_verdict(path: Seq<char>) -> Result<(), DeletionErrorView> {
    if trimmed(path).len() == 0 {
        Err(DeletionErrorView::Empty)
    } else if !rooted(path) {
        Err(DeletionErrorView::Relative(path))
    } else if path == "/"@ {
        Err(DeletionErrorView::RootFilesystem)
    } else if !has_text(path, "nomad"@) {
        Err(DeletionErrorView::Unfamiliar(path))
    } else {
        Ok(())
    }
}

/// A verdict, seen through the views.
pub open spec fn verdict_outcome(r: Result<(), DeletionError>) -> Result<(), DeletionErrorView> {
    match r {
        Ok(_) => Ok(()),
        Err(err) => Err(err@),
    }
}

/// Rejects a deletion target that is blank, relative, the root of the
/// filesystem or otherwise not one that a session has made.
pub fn validate_deletion_target(path: &str) -> (r: Result<(), DeletionError>)
    ensures
        verdict_outcome(r) == deletion_verdict(path@),
{
    proof {
        reveal_strlit("/");
        assert(occurs_at(path@, "/"@, 0) == rooted(path@)) by {
            if path@.len() > 0 {
                assert(path@.subrange(0, 1)[0] == path@[0]);
                assert("/"@[0] == '/');
                assert("/"@.len() == 1);
                if path@[0] == '/' {
                    assert(path@.subrange(0, 1) =~= "/"@);
                }
            }
        }
    }
    let kept = trim(path);
    if kept.as_str().is_empty() {
        Err(DeletionError::Empty)
    } else if !starts_with(path, "/") {
        Err(DeletionError::Relative(path.to_owned()))
    } else if same(path, "/") {
        Err(DeletionError::RootFilesystem)
    } else if !contains(path, "nomad") {
        Err(DeletionError::Unfamiliar(path.to_owned()))
    } else {
        Ok(())
    }
}

/// Whether the directory of a session may be deleted: it may be by its path, and
/// it is not the home directory.
pub open spec fn removal_verdict(path: Seq<char>, home: Option<Seq<char>>) -> Result<
    (),
    DeletionErrorView,
> {
    match deletion_verdict(path) {
        Err(err) => Err(err),
        Ok(_) => if is_home(path, home) {
            Err(DeletionErrorView::Home(path))
        } else {
            Ok(())
        },
    }
}

/// Rejects a deletion target that is not one that a session has made, or that is
/// the home directory.
pub fn validate_removal(path: &str, home: &Option<String>) -> (r: Result<(), DeletionError>)
    ensures
        verdict_outcome(r) == removal_verdict(path@, optional_text(*home)),
{
    match validate_deletion_target(path) {
        Err(err) => Err(err),
        Ok(_) => match home {
            Some(dir) => if same_path(path, dir.as_str()) {
                Err(DeletionError::Home(path.to_owned()))
            } else {
                Ok(())
            },
            None => Ok(()),
        },
    }
}

/// The values that a launcher fills in.
pub open spec fn launcher_vars(remote_root: Seq<char>, shell: Seq<char>) -> Seq<Pair> {
    seq![("remote_root"@, remote_root), ("shell"@, shell)]
}

/// The lines that export the environment, each value rendered.
pub open spec fn export_lines(environment: Seq<Pair>, vars: Seq<Pair>) -> Seq<char>
    decreases environment.len(),
{
    if environment.len() == 0 {
        seq![]
    } else {
        let (key, template) = environment.last();
        export_lines(environment.drop_last(), vars) + "export "@ + key + "="@ + rendered(
            template,
            vars,
        ) + "\n"@
    }
}

/// The lines that make the required directories, each rendered.
pub open spec fn mkdir_lines(dirs: Seq<Seq<char>>, vars: Seq<Pair>) -> Seq<char>
    decreases dirs.len(),
{
    if dirs.len() == 0 {
        seq![]
    } else {
        mkdir_lines(dirs.drop_last(), vars) + "mkdir -p "@ + rendered(dirs.last(), vars)
            + " || exit 1\n"@
    }
}

/// The lines of a launcher, each rendered.
pub open spec fn rendered_lines(lines: Seq<Seq<char>>, vars: Seq<Pair>) -> Seq<char>
    decreases lines.len(),
{
    if lines.len() == 0 {
        seq![]
    } else {
        rendered_lines(lines.drop_last(), vars) + rendered(lines.last(), vars) + "\n"@
    }
}

/// The script that starts the remote shell: it exports the environment, makes
/// the required directories, runs the lines of the shell by its name, and exits
/// with their status.
pub open spec fn launcher_text(
    profile: ProfileView,
    remote_root: Seq<char>,
    shell: Seq<char>,
    shell_name: Seq<char>,
) -> Seq<char> {
    let vars = launcher_vars(remote_root, shell);
    "#!/usr/bin/env sh\n"@ + export_lines(profile.environment, vars) + mkdir_lines(
        profile.required_dirs,
        vars,
    ) + rendered_lines(
        if shell_name == "zsh"@ {
            profile.zsh
        } else {
            profile.bash
        },
        vars,
    ) + "nomad_status=$?\nexit $nomad_status\n"@
}

/// Where `remote_root` and `shell` stand in a map.
proof fn lemma_launcher_vars(remote_root: Seq<char>, shell: Seq<char>)
    ensures
        inserted(
            inserted(Seq::<Pair>::empty(), "remote_root"@, remote_root),
            "shell"@,
            shell,
        ) == launcher_vars(remote_root, shell),
{
    reveal_strlit("remote_root");
    reveal_strlit("shell");
    let first = seq![("remote_root"@, remote_root)];
    assert(precedes("remote_root"@, "shell"@)) by {
        assert("remote_root"@[0] == 'r');
        assert("shell"@[0] == 's');
    }
    assert(first.skip(1) =~= Seq::<Pair>::empty());
    assert(inserted(first.skip(1), "shell"@, shell) == seq![("shell"@, shell)]);
    assert(seq![first[0]] + seq![("shell"@, shell)] =~= launcher_vars(remote_root, shell));
}

/// What a launcher fills in, it fills in fragment by fragment: the directory and
/// the shell are quoted wherever a template names them, whatever they hold, and
/// all else is left for the remote shell to expand.
pub proof fn law_launcher_quotes_what_it_fills_in(
    template: Seq<char>,
    remote_root: Seq<char>,
    shell: Seq<char>,
)
    ensures
        rendered(template, launcher_vars(remote_root, shell)) == filled_text(
            fragments_of(template),
            launcher_vars(remote_root, shell),
        ),
{
    reveal_strlit("remote_root");
    reveal_strlit("shell");
    let vars = launcher_vars(remote_root, shell);
    assert("remote_root"@.len() == 11);
    assert("shell"@.len() == 5);
    assert(key_is_plain("remote_root"@));
    assert(key_is_plain("shell"@));
    law_rendering_is_by_fragment(template, vars);
}

/// Appends the rendered lines of a launcher.
fn append_lines(script: &mut String, lines: &Vec<String>, vars: &TextMap)
    ensures
        final(script)@ == old(script)@ + rendered_lines(texts(lines@), vars.pairs()),
{
    let ghost before = script@;
    let ghost all = texts(lines@);
    let mut i: usize = 0;
    proof {
        assert(before + rendered_lines(all.take(0), vars.pairs()) =~= before);
    }
    while i < lines.len()
        invariant
            i <= lines@.len(),
            all == texts(lines@),
            script@ == before + rendered_lines(all.take(i as int), vars.pairs()),
        decreases lines@.len() - i,
    {
        let line = Profile::render(lines[i].as_str(), vars);
        script.append(line.as_str());
        script.append("\n");
        proof {
            assert(all.take(i + 1).drop_last() =~= all.take(i as int));
            assert(script@ =~= before + rendered_lines(all.take(i + 1), vars.pairs()));
        }
        i = i + 1;
    }
    proof {
        assert(all.take(i as int) =~= all);
    }
}

/// The script that starts the remote shell.
pub fn render_launcher(
    profile: &Profile,
    remote_root: &str,
    remote_shell: &str,
    remote_shell_name: &str,
) -> (r: String)
    ensures
        r@ == launcher_text(profile@, remote_root@, remote_shell@, remote_shell_name@),
{
    let mut vars = TextMap::new();
    vars.insert("remote_root".to_owned(), remote_root.to_owned());
    vars.insert("shell".to_owned(), remote_shell.to_owned());
    let ghost pairs = launcher_vars(remote_root@, remote_shell@);
    proof {
        lemma_launcher_vars(remote_root@, remote_shell@);
    }
    let mut script = "#!/usr/bin/env sh\n".to_owned();
    let ghost head = script@;
    let ghost environment = profile@.environment;
    let mut i: usize = 0;
    proof {
        assert(head + export_lines(environment.take(0), pairs) =~= head);
    }
    while i < profile.environment.len()
        invariant
            environment == profile.environment.pairs(),
            pairs == vars.pairs(),
            i <= environment.len(),
            script@ == head + export_lines(environment.take(i as int), pairs),
        decreases environment.len() - i,
    {
        // Shell syntax around the placeholders, such as a trailing `:$PATH`,
        // stays unquoted so that it expands when the script runs.
        let value = Profile::render(profile.environment.value(i).as_str(), &vars);
        script.append("export ");
        script.append(profile.environment.key(i).as_str());
        script.append("=");
        script.append(value.as_str());
        script.append("\n");
        proof {
            assert(environment.take(i + 1).drop_last() =~= environment.take(i as int));
            assert(environment.take(i + 1).last() == environment[i as int]);
            assert(script@ =~= head + export_lines(environment.take(i + 1), pairs));
        }
        i = i + 1;
    }
    proof {
        assert(environment.take(i as int) =~= environment);
    }
    let ghost exported = script@;
    let ghost dirs = profile@.required_dirs;
    let mut j: usize = 0;
    proof {
        assert(exported + mkdir_lines(dirs.take(0), pairs) =~= exported);
    }
    while j < profile.directories.required.len()
        invariant
            dirs == texts(profile.directories.required@),
            pairs == vars.pairs(),
            j <= dirs.len(),
            script@ == exported + mkdir_lines(dirs.take(j as int), pairs),
        decreases dirs.len() - j,
    {
        let dir = Profile::render(profile.directories.required[j].as_str(), &vars);
        script.append("mkdir -p ");
        script.append(dir.as_str());
        script.append(" || exit 1\n");
        proof {
            assert(dirs.take(j + 1).drop_last() =~= dirs.take(j as int));
            assert(script@ =~= exported + mkdir_lines(dirs.take(j + 1), pairs));
        }
        j = j + 1;
    }
    proof {
        assert(dirs.take(j as int) =~= dirs);
    }
    if same(remote_shell_name, "zsh") {
        append_lines(&mut script, &profile.launchers.zsh, &vars);
    } else {
        append_lines(&mut script, &profile.launchers.bash, &vars);
    }
    script.append("nomad_status=$?\nexit $nomad_status\n");
    script
}

/// Sessions of a profile.
pub struct Nomad<'a> {
    pub profile: &'a Profile,
}

impl<'a> Nomad<'a> {
    /// Sessions of `profile`.
    pub fn new(profile: &'a Profile) -> (r: Nomad<'a>)
        ensures
            r.profile == profile,
    {
        Nomad { profile }
    }
}

/// The file in a remote directory that holds the marker of its session.
pub open spec fn marker_path(remote_root: Seq<char>) -> Seq<char> {
    remote_root + "/.nomad-marker"@
}

/// The file in a remote directory that starts its shell.
pub open spec fn launcher_path(remote_root: Seq<char>) -> Seq<char> {
    remote_root + "/.nomad-shell"@
}

/// A session that is ready to be entered.
#[derive(Debug, Clone, PartialEq, Eq)]
pub struct PreparedSession {
    pub socket: String,
    pub remote_root: String,
    pub remote_shell_name: String,
    pub state_path: String,
}

/// What a [`PreparedSession`] holds.
#[verifier::ext_equal]
pub struct PreparedSessionView {
    pub socket: Seq<char>,
    pub remote_root: Seq<char>,
    pub remote_shell_name: Seq<char>,
    pub state_path: Seq<char>,
}

impl View for PreparedSession {
    type V = PreparedSessionView;

    open spec fn view(&self) -> PreparedSessionView {
        PreparedSessionView {
            socket: self.socket@,
            remote_root: self.remote_root@,
            remote_shell_name: self.remote_shell_name@,
            state_path: self.state_path@,
        }
    }
}

/// Owes the close of a control connection, unless it is disarmed first. A
/// session that fails half-way through owes it still, so that no background
/// `ssh` is left behind.
pub struct ControlGuard<'g> {
    dest: &'g Destination,
    socket: String,
    disarmed: bool,
}

/// What a [`ControlGuard`] holds.
pub struct ControlGuardView {
    pub conn: ConnectionView,
    pub disarmed: bool,
}

impl<'g> View for ControlGuard<'g> {
    type V = ControlGuardView;

    closed spec fn view(&self) -> ControlGuardView {
        ControlGuardView {
            conn: ConnectionView {
                dest: self.dest@.host,
                ssh_args: self.dest@.ssh_args,
                socket: self.socket@,
            },
            disarmed: self.disarmed,
        }
    }
}

impl<'g> ControlGuard<'g> {
    /// A guard of the connection to `dest` over `socket`.
    pub fn new(dest: &'g Destination, socket: String) -> (r: ControlGuard<'g>)
        ensures
            r@ == (ControlGuardView {
                conn: ConnectionView {
                    dest: dest@.host,
                    ssh_args: dest@.ssh_args,
                    socket: socket@,
                },
                disarmed: false,
            }),
    {
        ControlGuard { dest, socket, disarmed: false }
    }

    /// The connection that is guarded.
    pub fn connection(&self) -> (r: Connection)
        ensures
            r@ == self@.conn,
    {
        Connection::to(self.dest, self.socket.as_str())
    }

    /// Hands the close of the connection over to the caller, whose session
    /// stays open.
    pub fn disarm(&mut self)
        ensures
            final(self)@ == (ControlGuardView { conn: old(self)@.conn, disarmed: true }),
    {
        self.disarmed = true;
    }

    /// The connection that has to be closed, unless the guard was disarmed.
    pub fn release(self) -> (r: Option<Connection>)
        ensures
            (match r {
                Some(conn) => Some(conn@),
                None => None,
            }) == (if self@.disarmed {
                None
            } else {
                Some(self@.conn)
            }),
    {
        if self.disarmed {
            None
        } else {
            Some(self.connection())
        }
    }
}

} // verus!
