//! The command lines of the system `ssh`, `tar` and `waypipe`, and what their
//! exit statuses mean.

use vstd::prelude::*;

use crate::text::{decode_lossy, joined, replace, trim_end};
use crate::text::{lossy_text, replaced, texts, trimmed_end};

verus! {

/// `value` between single quotes, with each single quote in it closed, escaped
/// and opened again.
pub open spec fn quoted(value: Seq<char>) -> Seq<char> {
    "'"@ + replaced(value, "'"@, "'\\''"@) + "'"@
}

/// POSIX shell single-quoting.
pub fn shell_quote(value: &str) -> (r: String)
    ensures
        r@ == quoted(value@),
{
    proof {
        reveal_strlit("'");
    }
    let mut r = "'".to_owned();
    let inner = replace(value, "'", "'\\''");
    r.append(inner.as_str());
    r.append("'");
    r
}

/// The word that a POSIX shell reads in `s`, which it enters inside single
/// quotes or outside of them. Only quoted and escaped characters are read:
/// anything else outside of quotes yields none.
pub open spec fn shell_word(s: Seq<char>, inside: bool) -> Option<Seq<char>>
    decreases s.len(),
{
    if s.len() == 0 {
        if inside {
            None
        } else {
            Some(seq![])
        }
    } else if s[0] == '\'' {
        shell_word(s.skip(1), !inside)
    } else if inside {
        match shell_word(s.skip(1), true) {
            Some(rest) => Some(seq![s[0]] + rest),
            None => None,
        }
    } else if s[0] == '\\' && s.len() > 1 && s[1] != '\n' {
        match shell_word(s.skip(2), false) {
            Some(rest) => Some(seq![s[1]] + rest),
            None => None,
        }
    } else {
        None
    }
}

/// A shell reads a quoted value back as that value, whatever it holds.
pub proof fn law_quoting_is_read_back(value: Seq<char>)
    ensures
        shell_word(quoted(value), false) == Some(value),
{
    reveal_strlit("'");
    lemma_quoted_body(value);
    assert(quoted(value).skip(1) =~= replaced(value, "'"@, "'\\''"@) + "'"@);
}

/// The body of a quoted value, read from inside the quotes.
proof fn lemma_quoted_body(value: Seq<char>)
    ensures
        shell_word(replaced(value, "'"@, "'\\''"@) + "'"@, true) == Some(value),
    decreases value.len(),
{
    reveal_strlit("'");
    reveal_strlit("'\\''");
    let body = replaced(value, "'"@, "'\\''"@);
    let all = body + "'"@;
    if value.len() == 0 {
        assert(all.skip(1) =~= Seq::<char>::empty());
        assert(all[0] == '\'');
        assert(shell_word(all.skip(1), false) == Some(Seq::<char>::empty()));
        assert(value =~= seq![]);
    } else {
        let rest = value.skip(1);
        let tail = replaced(rest, "'"@, "'\\''"@) + "'"@;
        lemma_quoted_body(rest);
        assert(value =~= seq![value[0]] + rest);
        assert(value.take(1) =~= "'"@ <==> value[0] == '\'') by {
            assert(value.take(1)[0] == value[0]);
            assert("'"@[0] == '\'');
        }
        if value[0] == '\'' {
            assert(all =~= "'\\''"@ + tail);
            let outside = all.skip(1);
            assert(outside[0] == '\\' && outside[1] == '\'');
            assert(outside.skip(2)[0] == '\'');
            assert(outside.skip(2).skip(1) =~= tail);
            assert(shell_word(outside.skip(2), false) == Some(rest));
            assert(shell_word(outside, false) == Some(seq!['\''] + rest));
            assert(all[0] == '\'');
        } else {
            assert(all =~= seq![value[0]] + tail);
            assert(all.skip(1) =~= tail);
            assert(all[0] == value[0]);
        }
    }
}

/// A program with its arguments.
#[derive(Debug, Clone, PartialEq, Eq)]
pub struct CommandLine {
    pub program: String,
    pub args: Vec<String>,
}

/// What a [`CommandLine`] holds.
#[verifier::ext_equal]
pub struct CommandLineView {
    pub program: Seq<char>,
    pub args: Seq<Seq<char>>,
}

impl View for CommandLine {
    type V = CommandLineView;

    open spec fn view(&self) -> CommandLineView {
        CommandLineView { program: self.program@, args: texts(self.args@) }
    }
}

impl CommandLineView {
    /// The command line with `arg` after it.
    pub open spec fn arg(self, arg: Seq<char>) -> CommandLineView {
        CommandLineView { program: self.program, args: self.args.push(arg) }
    }

    /// The command line with `args` after it.
    pub open spec fn args(self, args: Seq<Seq<char>>) -> CommandLineView {
        CommandLineView { program: self.program, args: self.args + args }
    }
}

/// A program without arguments.
pub open spec fn program(name: Seq<char>) -> CommandLineView {
    CommandLineView { program: name, args: seq![] }
}

impl CommandLine {
    /// A program without arguments.
    pub fn new(name: &str) -> (r: CommandLine)
        ensures
            r@ == program(name@),
    {
        let r = CommandLine { program: name.to_owned(), args: Vec::new() };
        proof {
            assert(r@.args =~= seq![]);
        }
        r
    }

    /// The command line with `arg` after it.
    pub fn arg(self, arg: &str) -> (r: CommandLine)
        ensures
            r@ == self@.arg(arg@),
    {
        let ghost before = self@;
        let mut args = self.args;
        args.push(arg.to_owned());
        let r = CommandLine { program: self.program, args };
        proof {
            assert(r@.args =~= before.args.push(arg@));
        }
        r
    }

    /// The command line with `args` after it.
    pub fn args(self, args: &[String]) -> (r: CommandLine)
        ensures
            r@ == self@.args(texts(args@)),
    {
        let ghost before = self@;
        let mut all = self.args;
        let mut i: usize = 0;
        let ghost more = texts(args@);
        proof {
            assert(texts(all@) =~= before.args + more.take(0));
        }
        while i < args.len()
            invariant
                i <= args@.len(),
                more == texts(args@),
                texts(all@) == before.args + more.take(i as int),
            decreases args@.len() - i,
        {
            let ghost done = all@;
            all.push(args[i].clone());
            proof {
                assert(texts(all@) =~= texts(done).push(more[i as int]));
                assert(texts(all@) =~= before.args + more.take(i + 1));
            }
            i = i + 1;
        }
        proof {
            assert(more.take(i as int) =~= more);
        }
        CommandLine { program: self.program, args: all }
    }
}

/// Two programs, of which the second reads what the first writes.
#[derive(Debug, Clone, PartialEq, Eq)]
pub struct Pipeline {
    pub source: CommandLine,
    pub sink: CommandLine,
}

/// Why a command on the remote host has not done its work.
#[derive(Debug, Clone, PartialEq, Eq)]
pub enum TransportError {
    Connection(String),
    Command(String),
    Write(String),
    Package,
    Extract,
}

/// What a [`TransportError`] holds.
pub enum TransportErrorView {
    Connection(Seq<char>),
    Command(Seq<char>),
    Write(Seq<char>),
    Package,
    Extract,
}

impl View for TransportError {
    type V = TransportErrorView;

    open spec fn view(&self) -> TransportErrorView {
        match self {
            TransportError::Connection(dest) => TransportErrorView::Connection(dest@),
            TransportError::Command(stderr) => TransportErrorView::Command(stderr@),
            TransportError::Write(path) => TransportErrorView::Write(path@),
            TransportError::Package => TransportErrorView::Package,
            TransportError::Extract => TransportErrorView::Extract,
        }
    }
}

impl TransportErrorView {
    /// The text shown to the user.
    pub open spec fn message(self) -> Seq<char> {
        match self {
            TransportErrorView::Connection(dest) => "ssh control connection to "@ + dest
                + " failed"@,
            TransportErrorView::Command(stderr) => "remote command failed: "@ + stderr,
            TransportErrorView::Write(path) => "failed to write remote file "@ + path,
            TransportErrorView::Package => "tar failed while packaging payload"@,
            TransportErrorView::Extract => "failed to extract payload on remote host"@,
        }
    }
}

impl TransportError {
    /// The text shown to the user.
    pub fn message(&self) -> (r: String)
        ensures
            r@ == self@.message(),
    {
        match self {
            TransportError::Connection(dest) => {
                let mut r = joined("ssh control connection to ", dest.as_str());
                r.append(" failed");
                r
            },
            TransportError::Command(stderr) => joined("remote command failed: ", stderr.as_str()),
            TransportError::Write(path) => joined("failed to write remote file ", path.as_str()),
            TransportError::Package => "tar failed while packaging payload".to_owned(),
            TransportError::Extract => "failed to extract payload on remote host".to_owned(),
        }
    }
}

/// The outcome of a remote step, seen through the views.
pub open spec fn step_outcome(r: Result<(), TransportError>) -> Result<(), TransportErrorView> {
    match r {
        Ok(_) => Ok(()),
        Err(err) => Err(err@),
    }
}

/// The outcome of a captured command, seen through the views.
pub open spec fn capture_outcome(r: Result<String, TransportError>) -> Result<
    Seq<char>,
    TransportErrorView,
> {
    match r {
        Ok(text) => Ok(text@),
        Err(err) => Err(err@),
    }
}

/// The command line that every command over the control socket begins with.
pub open spec fn ssh_line(socket: Seq<char>, dest: Seq<char>, ssh_args: Seq<Seq<char>>) -> CommandLineView {
    program("ssh"@).arg("-S"@).arg(socket).arg("-o"@).arg("ControlPath="@ + socket).args(
        ssh_args,
    ).arg(dest)
}

/// The command line that opens the control socket.
pub open spec fn open_line(dest: Seq<char>, ssh_args: Seq<Seq<char>>, socket: Seq<char>) -> CommandLineView {
    program("ssh"@).arg("-MNf"@).arg("-o"@).arg("ControlMaster=yes"@).arg("-o"@).arg(
        "ControlPersist=yes"@,
    ).arg("-o"@).arg("ControlPath="@ + socket).args(ssh_args).arg(dest)
}

/// The command line of the interactive session.
pub open spec fn interactive_line(
    dest: Seq<char>,
    ssh_args: Seq<Seq<char>>,
    socket: Seq<char>,
    remote_command: Seq<char>,
    use_waypipe: bool,
) -> CommandLineView {
    let first = if use_waypipe {
        program("waypipe"@).arg("ssh"@)
    } else {
        program("ssh"@)
    };
    first.arg("-tt"@).arg("-S"@).arg(socket).arg("-o"@).arg("ControlPath="@ + socket).args(
        ssh_args,
    ).arg(dest).arg(remote_command)
}

/// The remote command that writes its input to a file.
pub open spec fn write_command(path: Seq<char>, executable: bool) -> Seq<char> {
    if executable {
        "cat > "@ + quoted(path) + " && chmod +x "@ + quoted(path)
    } else {
        "cat > "@ + quoted(path)
    }
}

/// The remote command that unpacks its input in a directory.
pub open spec fn extract_command(dir: Seq<char>) -> Seq<char> {
    "tar -C "@ + quoted(dir) + " -xf -"@
}

/// The transport over the system `ssh`, sharing one control connection.
pub struct OpenSshTransport;

impl OpenSshTransport {
    /// The command line that every command over the control socket begins with.
    pub fn ssh_command(&self, socket: &str, dest: &str, ssh_args: &[String]) -> (r: CommandLine)
        ensures
            r@ == ssh_line(socket@, dest@, texts(ssh_args@)),
    {
        let path = joined("ControlPath=", socket);
        CommandLine::new("ssh").arg("-S").arg(socket).arg("-o").arg(path.as_str()).args(
            ssh_args,
        ).arg(dest)
    }

    /// The command line that opens the control socket in the background.
    pub fn control_open(&self, dest: &str, ssh_args: &[String], socket: &str) -> (r: CommandLine)
        ensures
            r@ == open_line(dest@, texts(ssh_args@), socket@),
    {
        let path = joined("ControlPath=", socket);
        CommandLine::new("ssh").arg("-MNf").arg("-o").arg("ControlMaster=yes").arg("-o").arg(
            "ControlPersist=yes",
        ).arg("-o").arg(path.as_str()).args(ssh_args).arg(dest)
    }

    /// Whether the control socket is open, by the exit status of `ssh`.
    pub fn opened(&self, dest: &str, success: bool) -> (r: Result<(), TransportError>)
        ensures
            step_outcome(r) == (if success {
                Ok::<(), TransportErrorView>(())
            } else {
                Err(TransportErrorView::Connection(dest@))
            }),
    {
        if success {
            Ok(())
        } else {
            Err(TransportError::Connection(dest.to_owned()))
        }
    }

    /// The command line that closes the control socket.
    pub fn control_close(&self, dest: &str, ssh_args: &[String], socket: &str) -> (r: CommandLine)
        ensures
            r@ == ssh_line(socket@, dest@, texts(ssh_args@)).arg("-O"@).arg("exit"@),
    {
        self.ssh_command(socket, dest, ssh_args).arg("-O").arg("exit")
    }

    /// The command line that runs `remote_cmd` for its exit status.
    pub fn remote_status(
        &self,
        dest: &str,
        ssh_args: &[String],
        socket: &str,
        remote_cmd: &str,
    ) -> (r: CommandLine)
        ensures
            r@ == ssh_line(socket@, dest@, texts(ssh_args@)).arg(remote_cmd@),
    {
        self.ssh_command(socket, dest, ssh_args).arg(remote_cmd)
    }

    /// The command line that runs `remote_cmd` for its output.
    pub fn remote_capture(
        &self,
        dest: &str,
        ssh_args: &[String],
        socket: &str,
        remote_cmd: &str,
    ) -> (r: CommandLine)
        ensures
            r@ == ssh_line(socket@, dest@, texts(ssh_args@)).arg(remote_cmd@),
    {
        self.ssh_command(socket, dest, ssh_args).arg(remote_cmd)
    }

    /// What a captured command yields: its output without the white space at
    /// the end, or its complaint.
    pub fn captured(&self, success: bool, stdout: &[u8], stderr: &[u8]) -> (r: Result<
        String,
        TransportError,
    >)
        ensures
            capture_outcome(r) == (if success {
                Ok::<Seq<char>, TransportErrorView>(trimmed_end(lossy_text(stdout@)))
            } else {
                Err(TransportErrorView::Command(lossy_text(stderr@)))
            }),
    {
        if success {
            let text = decode_lossy(stdout);
            Ok(trim_end(text.as_str()))
        } else {
            Err(TransportError::Command(decode_lossy(stderr)))
        }
    }

    /// The command line that writes its input to `remote_path`.
    pub fn remote_write_file(
        &self,
        dest: &str,
        ssh_args: &[String],
        socket: &str,
        remote_path: &str,
        executable: bool,
    ) -> (r: CommandLine)
        ensures
            r@ == ssh_line(socket@, dest@, texts(ssh_args@)).arg(
                write_command(remote_path@, executable),
            ),
    {
        let path = shell_quote(remote_path);
        let mut remote_cmd = joined("cat > ", path.as_str());
        if executable {
            remote_cmd.append(" && chmod +x ");
            remote_cmd.append(path.as_str());
        }
        self.ssh_command(socket, dest, ssh_args).arg(remote_cmd.as_str())
    }

    /// Whether a remote file was written, by the exit status of `ssh`.
    pub fn written(&self, remote_path: &str, success: bool) -> (r: Result<(), TransportError>)
        ensures
            step_outcome(r) == (if success {
                Ok::<(), TransportErrorView>(())
            } else {
                Err(TransportErrorView::Write(remote_path@))
            }),
    {
        if success {
            Ok(())
        } else {
            Err(TransportError::Write(remote_path.to_owned()))
        }
    }

    /// The pipeline that packs `paths` below `local_root` and unpacks them in
    /// `remote_dir`.
    pub fn stream_tar(
        &self,
        dest: &str,
        ssh_args: &[String],
        socket: &str,
        local_root: &str,
        paths: &[String],
        remote_dir: &str,
    ) -> (r: Pipeline)
        ensures
            r.source@ == program("tar"@).arg("-C"@).arg(local_root@).arg("-cf"@).arg("-"@).args(
                texts(paths@),
            ),
            r.sink@ == ssh_line(socket@, dest@, texts(ssh_args@)).arg(extract_command(remote_dir@)),
    {
        let dir = shell_quote(remote_dir);
        let mut remote_cmd = joined("tar -C ", dir.as_str());
        remote_cmd.append(" -xf -");
        Pipeline {
            source: CommandLine::new("tar").arg("-C").arg(local_root).arg("-cf").arg("-").args(paths),
            sink: self.ssh_command(socket, dest, ssh_args).arg(remote_cmd.as_str()),
        }
    }

    /// Whether a payload was packed and unpacked, by both exit statuses.
    pub fn streamed(&self, packed: bool, unpacked: bool) -> (r: Result<(), TransportError>)
        ensures
            step_outcome(r) == (if !packed {
                Err::<(), TransportErrorView>(TransportErrorView::Package)
            } else if !unpacked {
                Err(TransportErrorView::Extract)
            } else {
                Ok(())
            }),
    {
        if !packed {
            Err(TransportError::Package)
        } else if !unpacked {
            Err(TransportError::Extract)
        } else {
            Ok(())
        }
    }

    /// The command line of an interactive session that runs `remote_command`.
    pub fn interactive(
        &self,
        dest: &str,
        ssh_args: &[String],
        socket: &str,
        remote_command: &str,
        use_waypipe: bool,
    ) -> (r: CommandLine)
        ensures
            r@ == interactive_line(
                dest@,
                texts(ssh_args@),
                socket@,
                remote_command@,
                use_waypipe,
            ),
    {
        let path = joined("ControlPath=", socket);
        let first = if use_waypipe {
            CommandLine::new("waypipe").arg("ssh")
        } else {
            CommandLine::new("ssh")
        };
        first.arg("-tt").arg("-S").arg(socket).arg("-o").arg(path.as_str()).args(ssh_args).arg(
            dest,
        ).arg(remote_command)
    }
}

/// Whether a command line hands the options to `ssh` as they are: all of them,
/// in their order, right before the destination.
pub open spec fn forwards(line: CommandLineView, ssh_args: Seq<Seq<char>>, dest: Seq<char>) -> bool {
    exists|i: int|
        0 <= i && i + ssh_args.len() < line.args.len() && #[trigger] line.args.subrange(
            i,
            i + ssh_args.len(),
        ) == ssh_args && line.args[i + ssh_args.len()] == dest
}

/// The options reach `ssh` as they are, whatever it is called for.
pub proof fn law_options_reach_ssh(
    dest: Seq<char>,
    ssh_args: Seq<Seq<char>>,
    socket: Seq<char>,
    command: Seq<char>,
    use_waypipe: bool,
)
    ensures
        forwards(open_line(dest, ssh_args, socket), ssh_args, dest),
        forwards(
            ssh_line(socket, dest, ssh_args).arg("-O"@).arg("exit"@),
            ssh_args,
            dest,
        ),
        forwards(ssh_line(socket, dest, ssh_args).arg(command), ssh_args, dest),
        forwards(
            interactive_line(dest, ssh_args, socket, command, use_waypipe),
            ssh_args,
            dest,
        ),
{
    let n = ssh_args.len() as int;
    let open = open_line(dest, ssh_args, socket).args;
    assert(open.subrange(7, 7 + n) =~= ssh_args);
    let close = ssh_line(socket, dest, ssh_args).arg("-O"@).arg("exit"@).args;
    assert(close.subrange(4, 4 + n) =~= ssh_args);
    let plain = ssh_line(socket, dest, ssh_args).arg(command).args;
    assert(plain.subrange(4, 4 + n) =~= ssh_args);
    let terminal = interactive_line(dest, ssh_args, socket, command, use_waypipe).args;
    if use_waypipe {
        assert(terminal.subrange(6, 6 + n) =~= ssh_args);
    } else {
        assert(terminal.subrange(5, 5 + n) =~= ssh_args);
    }
}

} // verus!
