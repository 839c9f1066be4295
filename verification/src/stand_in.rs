//! What the stand-in for `ssh` answers, told by command lines that are put
//! together from known parts.

use vstd::prelude::*;

use crate::fake_ssh::{
    all_digits, capped, configured, decides, decimal, digit, digits_value, dispatched, ends_in,
    fake_reply, law_command_lines_are_known, plain_reply, undecided, FakeReplyView, FakeSettingsView, Shape,
};
use crate::text::{has_text, occurs_at, trimmed_end};
use crate::text_laws::{all_white, law_pattern_is_found, law_trimming};
use crate::transport::{interactive_line, open_line, ssh_line};

verus! {

/// A numeral is read digit by digit, with or without a sign before it: one digit
/// is its place among the ten, and one more digit makes it ten times as large and
/// adds the digit.
pub proof fn law_numerals_are_read(s: Seq<char>, n: int, i: int)
    requires
        0 <= i < 10,
        s.len() > 0,
        forall|k: int| 0 <= k < s.len() ==> "0123456789"@.contains(#[trigger] s[k]),
        decimal(s) == Some(n),
    ensures
        decimal(seq!["0123456789"@[i]]) == Some(i),
        decimal(s.push("0123456789"@[i])) == Some(10 * n + i),
        decimal(seq!['-'] + s) == Some(-n),
        decimal(seq!['+'] + s) == Some(n),
{
    lemma_digits();
    let c = "0123456789"@[i];
    let one = seq![c];
    assert(one.drop_last() =~= seq![]);
    assert(digits_value(one.drop_last()) == 0);
    assert(digits_value(one) == i);
    assert forall|k: int| 0 <= k < s.len() implies digit(#[trigger] s[k]) by {
        assert("0123456789"@.contains(s[k]));
    }
    assert(digit(s[0]));
    assert(s[0] != '-' && s[0] != '+');
    let more = s.push(c);
    assert(more.drop_last() =~= s);
    assert(more[0] == s[0]);
    assert(all_digits(more));
    assert((seq!['-'] + s).skip(1) =~= s);
    assert((seq!['+'] + s).skip(1) =~= s);
}

/// What has anything but digits after its sign is no numeral, and neither is a
/// sign alone nor nothing at all.
pub proof fn law_other_text_is_no_numeral(s: Seq<char>, k: int)
    requires
        0 <= k < s.len(),
        !"0123456789"@.contains(s[k]),
    ensures
        k > 0 ==> decimal(s) is None,
        k == 0 && s[0] != '-' && s[0] != '+' ==> decimal(s) is None,
        decimal(seq!['-'] + s) is None,
        decimal(seq!['+'] + s) is None,
        decimal(seq![]) is None,
        decimal(seq!['-']) is None,
        decimal(seq!['+']) is None,
{
    lemma_digits();
    assert(!digit(s[k]));
    assert((seq!['-'] + s).skip(1) =~= s);
    assert((seq!['+'] + s).skip(1) =~= s);
    assert(seq!['-'].skip(1) =~= seq![]);
    assert(seq!['+'].skip(1) =~= seq![]);
    if k > 0 {
        assert(s.skip(1)[k - 1] == s[k]);
    }
}

proof fn lemma_digits()
    ensures
        "0123456789"@.len() == 10,
        forall|i: int| 0 <= i < 10 ==> #[trigger] "0123456789"@[i] as int == '0' as int + i,
        forall|c: char| #[trigger] "0123456789"@.contains(c) <==> digit(c),
{
    reveal_strlit("0123456789");
    let all = "0123456789"@;
    assert(all[0] == '0' && all[1] == '1' && all[2] == '2' && all[3] == '3' && all[4] == '4');
    assert(all[5] == '5' && all[6] == '6' && all[7] == '7' && all[8] == '8' && all[9] == '9');
    assert forall|c: char| #[trigger] all.contains(c) <==> digit(c) by {
        if digit(c) {
            assert(all[c as int - '0' as int] == c);
        }
    }
}

/// A setting gives its number where that fits in 32 bits with a sign. Where it
/// does not, is no numeral or is not set, the default stands.
pub proof fn law_settings_give_numbers(text: Seq<char>, default: int)
    ensures
        decimal(text) matches Some(n) ==> configured(Some(text), default) == (if -2147483648 <= n
            <= 2147483647 {
            n
        } else {
            default
        }),
        decimal(text) is None ==> configured(Some(text), default) == default,
        configured(None, default) == default,
{
}

/// Whether a command begins with a text.
pub open spec fn begins(command: Seq<char>, text: Seq<char>) -> bool {
    exists|rest: Seq<char>| command == #[trigger] (text + rest)
}

proof fn lemma_begins(command: Seq<char>, text: Seq<char>)
    ensures
        begins(command, text) <==> occurs_at(command, text, 0),
{
    if occurs_at(command, text, 0) {
        let rest = command.skip(text.len() as int);
        assert(command =~= text + rest) by {
            assert forall|i: int| 0 <= i < command.len() implies command[i] == (text + rest)[i] by {
                if i < text.len() {
                    assert(command.subrange(0, text.len() as int)[i] == command[i]);
                }
            }
        }
    }
    if begins(command, text) {
        let rest = choose|rest: Seq<char>| command == #[trigger] (text + rest);
        assert(command.subrange(0, text.len() as int) =~= text);
    }
}

proof fn lemma_ends(s: Seq<char>, text: Seq<char>)
    ensures
        ends_in(s, text) <==> exists|a: Seq<char>| s == #[trigger] (a + text),
{
    if ends_in(s, text) {
        let n = s.len() - text.len();
        let a = s.take(n);
        assert(s =~= a + text) by {
            assert forall|i: int| 0 <= i < s.len() implies s[i] == (a + text)[i] by {
                if i >= n {
                    assert(s.subrange(n, n + text.len())[i - n] == s[i]);
                }
            }
        }
    }
    if exists|a: Seq<char>| s == #[trigger] (a + text) {
        let a = choose|a: Seq<char>| s == #[trigger] (a + text);
        assert(s.subrange(a.len() as int, s.len() as int) =~= text);
    }
}

/// A remote command is answered by what it begins with, the first in this order:
/// the directory that is made, the shell that is found, and the marker are
/// written; the tests and removals exit as they are told; what is unpacked or
/// written to a file is read to its end; and what is not known fails.
pub proof fn law_remote_commands_are_answered(command: Seq<char>, settings: FakeSettingsView)
    ensures
        ({
            let reply = plain_reply(command, settings);
            let told = |text: Option<Seq<char>>|
                match text {
                    Some(t) => t,
                    None => Seq::<char>::empty(),
                };
            let unpacks = (exists|a: Seq<char>, b: Seq<char>|
                command == #[trigger] (a + "tar -C"@ + b)) && (exists|a: Seq<char>, b: Seq<char>|
                command == #[trigger] (a + "-xf"@ + b));
            let known = begins(command, "mktemp"@) || begins(command, "command -v zsh"@) || begins(
                command,
                "test -d"@,
            );
            &&& begins(command, "mktemp"@) ==> reply == (FakeReplyView {
                shape: Shape::Mktemp,
                exit_code: 0,
                stdout: Some(told(settings.mktemp_output)),
                drain_stdin: false,
            })
            &&& begins(command, "command -v zsh"@) ==> reply == (FakeReplyView {
                shape: Shape::ShellResolve,
                exit_code: 0,
                stdout: Some(told(settings.remote_shell)),
                drain_stdin: false,
            })
            &&& begins(command, "test -d"@) ==> reply == (FakeReplyView {
                shape: Shape::TestD,
                exit_code: configured(settings.test_d_exit, 1),
                stdout: None,
                drain_stdin: false,
            })
            &&& unpacks && !known ==> reply == (FakeReplyView {
                shape: Shape::TarExtract,
                exit_code: 0,
                stdout: None,
                drain_stdin: true,
            })
            &&& begins(command, "cat >"@) && !unpacks ==> reply == (FakeReplyView {
                shape: Shape::WriteFile,
                exit_code: 0,
                stdout: None,
                drain_stdin: true,
            })
            &&& begins(command, "cat "@) && !begins(command, "cat >"@) && !unpacks ==> reply == (
            if exists|a: Seq<char>| trimmed_end(command) == #[trigger] (a + "|| true"@) {
                FakeReplyView {
                    shape: Shape::ReadMarker,
                    exit_code: 0,
                    stdout: Some(told(settings.marker_content)),
                    drain_stdin: false,
                }
            } else {
                FakeReplyView {
                    shape: Shape::Unknown,
                    exit_code: 1,
                    stdout: None,
                    drain_stdin: false,
                }
            })
            &&& begins(command, "rm -rf"@) && !unpacks ==> reply == (FakeReplyView {
                shape: Shape::RmRf,
                exit_code: configured(settings.rm_exit, 0),
                stdout: None,
                drain_stdin: false,
            })
            &&& !unpacks && !known && !begins(command, "cat "@) && !begins(command, "rm -rf"@)
                ==> reply == (FakeReplyView {
                shape: Shape::Unknown,
                exit_code: 1,
                stdout: None,
                drain_stdin: false,
            })
        }),
{
    reveal_strlit("mktemp");
    reveal_strlit("command -v zsh");
    reveal_strlit("test -d");
    reveal_strlit("cat >");
    reveal_strlit("cat ");
    reveal_strlit("rm -rf");
    lemma_ends(trimmed_end(command), "|| true"@);
    lemma_begins(command, "mktemp"@);
    lemma_begins(command, "command -v zsh"@);
    lemma_begins(command, "test -d"@);
    lemma_begins(command, "cat >"@);
    lemma_begins(command, "cat "@);
    lemma_begins(command, "rm -rf"@);
    law_pattern_is_found(command, "tar -C"@);
    law_pattern_is_found(command, "-xf"@);
    assert("mktemp"@[0] == 'm' && "command -v zsh"@[0] == 'c' && "test -d"@[0] == 't');
    assert("cat >"@[0] == 'c' && "cat "@[0] == 'c' && "rm -rf"@[0] == 'r');
    assert("command -v zsh"@[1] == 'o' && "cat >"@[1] == 'a' && "cat "@[1] == 'a');
    lemma_start(command, "mktemp"@);
    lemma_start(command, "command -v zsh"@);
    lemma_start(command, "test -d"@);
    lemma_start(command, "cat >"@);
    lemma_start(command, "cat "@);
    lemma_start(command, "rm -rf"@);
    assert(begins(command, "cat >"@) ==> begins(command, "cat "@)) by {
        if begins(command, "cat >"@) {
            assert(command.subrange(0, 4) =~= "cat "@) by {
                assert(command.subrange(0, 5) == "cat >"@);
                assert forall|i: int| 0 <= i < 4 implies command[i] == "cat "@[i] by {
                    assert(command.subrange(0, 5)[i] == command[i]);
                }
            }
        }
    }
}

/// The first characters of a command are those of the text it begins with.
proof fn lemma_start(command: Seq<char>, text: Seq<char>)
    requires
        text.len() > 1,
    ensures
        occurs_at(command, text, 0) ==> command.len() >= text.len() && command[0] == text[0]
            && command[1] == text[1],
{
    if occurs_at(command, text, 0) {
        let part = command.subrange(0, text.len() as int);
        assert(part[0] == command[0]);
        assert(part[1] == command[1]);
    }
}

/// The command that reads a marker is answered with the marker that was set, even
/// where white space follows it.
pub proof fn law_marker_is_answered(
    path: Seq<char>,
    space: Seq<char>,
    settings: FakeSettingsView,
)
    requires
        !has_text("cat '"@ + path + "' 2>/dev/null || true"@ + space, "tar -C"@),
        all_white(space),
    ensures
        plain_reply("cat '"@ + path + "' 2>/dev/null || true"@ + space, settings) == (FakeReplyView {
            shape: Shape::ReadMarker,
            exit_code: 0,
            stdout: Some(
                match settings.marker_content {
                    Some(text) => text,
                    None => seq![],
                },
            ),
            drain_stdin: false,
        }),
{
    let body = "cat '"@ + path + "' 2>/dev/null || true"@;
    let command = body + space;
    reveal_strlit("cat '");
    reveal_strlit("' 2>/dev/null || true");
    reveal_strlit("mktemp");
    reveal_strlit("command -v zsh");
    reveal_strlit("test -d");
    reveal_strlit("cat >");
    reveal_strlit("cat ");
    reveal_strlit("|| true");
    assert("mktemp"@[0] == 'm' && "command -v zsh"@[0] == 'c' && "test -d"@[0] == 't');
    assert("command -v zsh"@[1] == 'o');
    assert(command[0] == 'c' && command[1] == 'a' && command[4] == '\'');
    lemma_start(command, "mktemp"@);
    lemma_start(command, "command -v zsh"@);
    lemma_start(command, "test -d"@);
    assert(!occurs_at(command, "cat >"@, 0)) by {
        assert("cat >"@[4] == '>');
        if occurs_at(command, "cat >"@, 0) {
            assert(command.subrange(0, 5)[4] == command[4]);
        }
    }
    assert(command.subrange(0, 4) =~= "cat "@);
    assert(body.last() == 'e');
    assert(body[0] == 'c');
    law_trimming(seq![], body, space);
    let end = body.len() - 7;
    assert(body.subrange(end, end + 7) =~= "|| true"@);
}

/// The command lines of the transport are answered by what they are for: opening
/// and entering exit as they are told, closing succeeds, and any other is
/// answered by its remote command.
pub proof fn law_command_lines_are_answered(
    dest: Seq<char>,
    ssh_args: Seq<Seq<char>>,
    socket: Seq<char>,
    command: Seq<char>,
    settings: FakeSettingsView,
)
    requires
        undecided(dest, ssh_args, socket),
        !decides(command),
    ensures
        fake_reply("ssh"@, open_line(dest, ssh_args, socket).args, settings) == (FakeReplyView {
            shape: Shape::ControlOpen,
            exit_code: configured(settings.control_open_exit, 0),
            stdout: None,
            drain_stdin: false,
        }),
        fake_reply(
            "ssh"@,
            ssh_line(socket, dest, ssh_args).arg("-O"@).arg("exit"@).args,
            settings,
        ) == (FakeReplyView {
            shape: Shape::ControlClose,
            exit_code: 0,
            stdout: None,
            drain_stdin: false,
        }),
        fake_reply(
            "ssh"@,
            interactive_line(dest, ssh_args, socket, command, false).args,
            settings,
        ) == (FakeReplyView {
            shape: Shape::Interactive,
            exit_code: configured(settings.interactive_exit, 0),
            stdout: None,
            drain_stdin: false,
        }),
        fake_reply(
            "waypipe"@,
            interactive_line(dest, ssh_args, socket, command, true).args,
            settings,
        ) == (FakeReplyView {
            shape: Shape::WaypipeInteractive,
            exit_code: configured(settings.interactive_exit, 0),
            stdout: None,
            drain_stdin: false,
        }),
        fake_reply("ssh"@, ssh_line(socket, dest, ssh_args).arg(command).args, settings)
            == plain_reply(command, settings),
{
    law_command_lines_are_known(dest, ssh_args, socket, command, settings);
}

/// An answer of `waypipe` in place of `ssh`: only what enters a connection goes by
/// another name.
pub open spec fn through(reply: FakeReplyView) -> FakeReplyView {
    if reply.shape == Shape::Interactive {
        FakeReplyView { shape: Shape::WaypipeInteractive, ..reply }
    } else {
        reply
    }
}

/// Flags are found wherever they stand: what opens a connection is told by two of
/// them, what closes one by two others, and what enters one by another, in this
/// order. A `waypipe` in front of `ssh` makes no difference but to the name.
pub proof fn law_flags_are_found_anywhere(
    program: Seq<char>,
    args: Seq<Seq<char>>,
    settings: FakeSettingsView,
)
    ensures
        ({
            let opens = args.contains("-MNf"@) && args.contains("ControlMaster=yes"@);
            let closes = args.contains("-O"@) && args.contains("exit"@);
            let plain = program != "waypipe"@;
            &&& plain && opens ==> fake_reply(program, args, settings) == (FakeReplyView {
                shape: Shape::ControlOpen,
                exit_code: configured(settings.control_open_exit, 0),
                stdout: None,
                drain_stdin: false,
            })
            &&& plain && !opens && closes ==> fake_reply(program, args, settings) == (
            FakeReplyView {
                shape: Shape::ControlClose,
                exit_code: 0,
                stdout: None,
                drain_stdin: false,
            })
            &&& plain && !opens && !closes && args.contains("-tt"@) ==> fake_reply(
                program,
                args,
                settings,
            ) == (FakeReplyView {
                shape: Shape::Interactive,
                exit_code: configured(settings.interactive_exit, 0),
                stdout: None,
                drain_stdin: false,
            })
            &&& plain && !opens && !closes && !args.contains("-tt"@) && args.len() > 0
                ==> fake_reply(program, args, settings) == plain_reply(args.last(), settings)
            &&& plain && args.len() == 0 ==> fake_reply(program, args, settings).shape
                == Shape::Unknown && fake_reply(program, args, settings).exit_code == 1
            &&& plain ==> fake_reply("waypipe"@, seq!["ssh"@] + args, settings) == through(
                fake_reply(program, args, settings),
            )
            &&& plain && (args.len() == 0 || args[0] != "ssh"@) ==> fake_reply(
                "waypipe"@,
                args,
                settings,
            ) == through(fake_reply(program, args, settings))
        }),
{
    assert((seq!["ssh"@] + args).skip(1) =~= args);
    assert(dispatched("waypipe"@, seq!["ssh"@] + args) == args) by {
        assert((seq!["ssh"@] + args)[0] == "ssh"@);
    }
    if args.len() == 0 {
        assert(!args.contains("-MNf"@) && !args.contains("-O"@) && !args.contains("-tt"@));
        lemma_nothing(settings);
    }
}

proof fn lemma_nothing(settings: FakeSettingsView)
    ensures
        plain_reply(seq![], settings).shape == Shape::Unknown,
        plain_reply(seq![], settings).exit_code == 1,
{
    reveal_strlit("mktemp");
    reveal_strlit("command -v zsh");
    reveal_strlit("test -d");
    reveal_strlit("cat >");
    reveal_strlit("cat ");
    reveal_strlit("rm -rf");
    reveal_strlit("tar -C");
}

/// No more than the first 256 bytes of an input are logged, and all of a shorter
/// one.
pub proof fn law_preview_is_capped(input: Seq<u8>)
    ensures
        input.len() <= 256 ==> capped(input) == input,
        input.len() > 256 ==> capped(input) == input.subrange(0, 256),
{
    if input.len() > 256 {
        assert(capped(input) =~= input.subrange(0, 256));
    }
}

/// The names that shapes are logged under.
pub proof fn law_shapes_are_named()
    ensures
        Shape::ControlOpen.text() == "control_open"@,
        Shape::ControlClose.text() == "control_close"@,
        Shape::Interactive.text() == "interactive"@,
        Shape::WaypipeInteractive.text() == "waypipe_interactive"@,
        Shape::Mktemp.text() == "mktemp"@,
        Shape::ShellResolve.text() == "shell_resolve"@,
        Shape::TestD.text() == "test_d"@,
        Shape::TarExtract.text() == "tar_extract"@,
        Shape::WriteFile.text() == "write_file"@,
        Shape::ReadMarker.text() == "read_marker"@,
        Shape::RmRf.text() == "rm_rf"@,
        Shape::Unknown.text() == "unknown"@,
{
}

} // verus!
