//! The command lines of the transport, word for word.

use vstd::prelude::*;

use crate::nomad::launcher_path;
use crate::transport::{
    interactive_line, open_line, program, ssh_line, CommandLineView, TransportErrorView,
};

verus! {

/// Every command line names the socket, hands on the options in their order, and
/// then names the destination. What is run there comes last, as one word.
pub proof fn law_command_lines_are_these(
    dest: Seq<char>,
    ssh_args: Seq<Seq<char>>,
    socket: Seq<char>,
    command: Seq<char>,
)
    ensures
        open_line(dest, ssh_args, socket) == (CommandLineView {
            program: "ssh"@,
            args: seq![
                "-MNf"@,
                "-o"@,
                "ControlMaster=yes"@,
                "-o"@,
                "ControlPersist=yes"@,
                "-o"@,
                "ControlPath="@ + socket,
            ] + ssh_args + seq![dest],
        }),
        ssh_line(socket, dest, ssh_args).arg(command) == (CommandLineView {
            program: "ssh"@,
            args: seq!["-S"@, socket, "-o"@, "ControlPath="@ + socket] + ssh_args + seq![
                dest,
                command,
            ],
        }),
        ssh_line(socket, dest, ssh_args).arg("-O"@).arg("exit"@) == (CommandLineView {
            program: "ssh"@,
            args: seq!["-S"@, socket, "-o"@, "ControlPath="@ + socket] + ssh_args + seq![
                dest,
                "-O"@,
                "exit"@,
            ],
        }),
        interactive_line(dest, ssh_args, socket, command, false) == (CommandLineView {
            program: "ssh"@,
            args: seq!["-tt"@, "-S"@, socket, "-o"@, "ControlPath="@ + socket] + ssh_args + seq![
                dest,
                command,
            ],
        }),
        interactive_line(dest, ssh_args, socket, command, true) == (CommandLineView {
            program: "waypipe"@,
            args: seq!["ssh"@, "-tt"@, "-S"@, socket, "-o"@, "ControlPath="@ + socket] + ssh_args
                + seq![dest, command],
        }),
{
    assert(open_line(dest, ssh_args, socket).args =~= seq![
        "-MNf"@,
        "-o"@,
        "ControlMaster=yes"@,
        "-o"@,
        "ControlPersist=yes"@,
        "-o"@,
        "ControlPath="@ + socket,
    ] + ssh_args + seq![dest]);
    let head = seq!["-S"@, socket, "-o"@, "ControlPath="@ + socket] + ssh_args;
    assert(ssh_line(socket, dest, ssh_args).arg(command).args =~= head + seq![dest, command]);
    assert(ssh_line(socket, dest, ssh_args).arg("-O"@).arg("exit"@).args =~= head + seq![
        dest,
        "-O"@,
        "exit"@,
    ]);
    assert(interactive_line(dest, ssh_args, socket, command, false).args =~= seq!["-tt"@] + head
        + seq![dest, command]);
    assert(interactive_line(dest, ssh_args, socket, command, false).args =~= seq![
        "-tt"@,
        "-S"@,
        socket,
        "-o"@,
        "ControlPath="@ + socket,
    ] + ssh_args + seq![dest, command]);
    assert(interactive_line(dest, ssh_args, socket, command, true).args =~= seq![
        "ssh"@,
        "-tt"@,
        "-S"@,
        socket,
        "-o"@,
        "ControlPath="@ + socket,
    ] + ssh_args + seq![dest, command]);
}

/// A payload is packed from below the local root, each path as a word of its own
/// and in its order.
pub proof fn law_payload_is_packed_path_by_path(local_root: Seq<char>, paths: Seq<Seq<char>>)
    ensures
        program("tar"@).arg("-C"@).arg(local_root).arg("-cf"@).arg("-"@).args(paths) == (
        CommandLineView {
            program: "tar"@,
            args: seq!["-C"@, local_root, "-cf"@, "-"@] + paths,
        }),
{
    assert(program("tar"@).arg("-C"@).arg(local_root).arg("-cf"@).arg("-"@).args(paths).args
        =~= seq!["-C"@, local_root, "-cf"@, "-"@] + paths);
}

/// What is said of a remote step that fails.
pub proof fn law_transport_errors_say(text: Seq<char>)
    ensures
        TransportErrorView::Connection(text).message() == "ssh control connection to "@ + text
            + " failed"@,
        TransportErrorView::Command(text).message() == "remote command failed: "@ + text,
        TransportErrorView::Write(text).message() == "failed to write remote file "@ + text,
        TransportErrorView::Package.message() == "tar failed while packaging payload"@,
        TransportErrorView::Extract.message() == "failed to extract payload on remote host"@,
{
}

/// The launcher that a session is entered by is the one that was written.
pub proof fn law_launcher_is_below_the_root(root: Seq<char>)
    ensures
        launcher_path(root) == root + "/.nomad-shell"@,
{
}

} // verus!
