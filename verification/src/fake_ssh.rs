//! A stand-in for `ssh` and `waypipe` that answers by the shape of its arguments
//! and touches no network. Tests put it in place of both programs.

use vstd::prelude::*;

use crate::clean::{marker_command, remove_command};
use crate::prepare::{create_command, probe_command, shell_command};
use crate::session::optional_text;
use crate::text::{chars_of, contains, decode_lossy, same, starts_with, trim_end};
use crate::text::{has_text, lossy_text, occurs_at, texts, trimmed_end};
use crate::transport::{
    extract_command, interactive_line, open_line, ssh_line, write_command,
};

verus! {

/// What the stand-in is told to answer.
#[derive(Debug, Clone, PartialEq, Eq)]
pub struct FakeSettings {
    pub control_open_exit: Option<String>,
    pub interactive_exit: Option<String>,
    pub test_d_exit: Option<String>,
    pub rm_exit: Option<String>,
    pub mktemp_output: Option<String>,
    pub remote_shell: Option<String>,
    pub marker_content: Option<String>,
}

/// What [`FakeSettings`] hold.
pub struct FakeSettingsView {
    pub control_open_exit: Option<Seq<char>>,
    pub interactive_exit: Option<Seq<char>>,
    pub test_d_exit: Option<Seq<char>>,
    pub rm_exit: Option<Seq<char>>,
    pub mktemp_output: Option<Seq<char>>,
    pub remote_shell: Option<Seq<char>>,
    pub marker_content: Option<Seq<char>>,
}

impl View for FakeSettings {
    type V = FakeSettingsView;

    open spec fn view(&self) -> FakeSettingsView {
        FakeSettingsView {
            control_open_exit: optional_text(self.control_open_exit),
            interactive_exit: optional_text(self.interactive_exit),
            test_d_exit: optional_text(self.test_d_exit),
            rm_exit: optional_text(self.rm_exit),
            mktemp_output: optional_text(self.mktemp_output),
            remote_shell: optional_text(self.remote_shell),
            marker_content: optional_text(self.marker_content),
        }
    }
}

/// The shapes of a command line.
#[derive(Debug, Clone, Copy, PartialEq, Eq, Structural)]
pub enum Shape {
    ControlOpen,
    ControlClose,
    Interactive,
    WaypipeInteractive,
    Mktemp,
    ShellResolve,
    TestD,
    TarExtract,
    WriteFile,
    ReadMarker,
    RmRf,
    Unknown,
}

impl Shape {
    /// The name of a shape, as it is logged.
    pub open spec fn text(self) -> Seq<char> {
        match self {
            Shape::ControlOpen => "control_open"@,
            Shape::ControlClose => "control_close"@,
            Shape::Interactive => "interactive"@,
            Shape::WaypipeInteractive => "waypipe_interactive"@,
            Shape::Mktemp => "mktemp"@,
            Shape::ShellResolve => "shell_resolve"@,
            Shape::TestD => "test_d"@,
            Shape::TarExtract => "tar_extract"@,
            Shape::WriteFile => "write_file"@,
            Shape::ReadMarker => "read_marker"@,
            Shape::RmRf => "rm_rf"@,
            Shape::Unknown => "unknown"@,
        }
    }

    /// The name of a shape, as it is logged.
    pub fn name(&self) -> (r: String)
        ensures
            r@ == self.text(),
    {
        match self {
            Shape::ControlOpen => "control_open".to_owned(),
            Shape::ControlClose => "control_close".to_owned(),
            Shape::Interactive => "interactive".to_owned(),
            Shape::WaypipeInteractive => "waypipe_interactive".to_owned(),
            Shape::Mktemp => "mktemp".to_owned(),
            Shape::ShellResolve => "shell_resolve".to_owned(),
            Shape::TestD => "test_d".to_owned(),
            Shape::TarExtract => "tar_extract".to_owned(),
            Shape::WriteFile => "write_file".to_owned(),
            Shape::ReadMarker => "read_marker".to_owned(),
            Shape::RmRf => "rm_rf".to_owned(),
            Shape::Unknown => "unknown".to_owned(),
        }
    }
}

/// What the stand-in answers: its exit code, what it writes, and whether it
/// reads its input to the end before.
#[derive(Debug, Clone, PartialEq, Eq)]
pub struct FakeReply {
    pub shape: Shape,
    pub exit_code: i32,
    pub stdout: Option<String>,
    pub drain_stdin: bool,
}

/// What a [`FakeReply`] holds.
pub struct FakeReplyView {
    pub shape: Shape,
    pub exit_code: int,
    pub stdout: Option<Seq<char>>,
    pub drain_stdin: bool,
}

impl View for FakeReply {
    type V = FakeReplyView;

    open spec fn view(&self) -> FakeReplyView {
        FakeReplyView {
            shape: self.shape,
            exit_code: self.exit_code as int,
            stdout: optional_text(self.stdout),
            drain_stdin: self.drain_stdin,
        }
    }
}

/// Whether `c` is a decimal digit.
pub open spec fn digit(c: char) -> bool {
    '0' <= c <= '9'
}

/// Whether `s` holds nothing but decimal digits, and at least one.
pub open spec fn all_digits(s: Seq<char>) -> bool {
    s.len() > 0 && forall|i: int| 0 <= i < s.len() ==> digit(#[trigger] s[i])
}

/// The number that decimal digits stand for.
pub open spec fn digits_value(s: Seq<char>) -> int
    decreases s.len(),
{
    if s.len() == 0 {
        0
    } else {
        digits_value(s.drop_last()) * 10 + (s.last() as int - '0' as int)
    }
}

/// The number that a decimal numeral with at most one sign stands for.
pub open spec fn decimal(s: Seq<char>) -> Option<int> {
    if s.len() > 0 && s[0] == '-' {
        if all_digits(s.skip(1)) {
            Some(-digits_value(s.skip(1)))
        } else {
            None
        }
    } else {
        let digits = if s.len() > 0 && s[0] == '+' {
            s.skip(1)
        } else {
            s
        };
        if all_digits(digits) {
            Some(digits_value(digits))
        } else {
            None
        }
    }
}

/// The number that a setting gives, or `default` where it gives none that fits.
pub open spec fn configured(value: Option<Seq<char>>, default: int) -> int {
    match value {
        Some(text) => match decimal(text) {
            Some(n) => if -0x8000_0000 <= n <= 0x7fff_ffff {
                n
            } else {
                default
            },
            None => default,
        },
        None => default,
    }
}

/// More digits stand for no smaller a number.
proof fn lemma_digits_grow(s: Seq<char>, i: int)
    requires
        0 <= i <= s.len(),
        forall|k: int| 0 <= k < s.len() ==> digit(#[trigger] s[k]),
    ensures
        0 <= digits_value(s.take(i)) <= digits_value(s),
    decreases s.len(),
{
    if i == s.len() {
        assert(s.take(i) =~= s);
        if s.len() > 0 {
            lemma_digits_grow(s.drop_last(), i - 1);
            assert(digit(s[s.len() - 1]));
        }
    } else {
        assert(s.drop_last().take(i) =~= s.take(i));
        lemma_digits_grow(s.drop_last(), i);
        assert(digit(s[s.len() - 1]));
    }
}

/// The number that the digits from position `from` on stand for, where there is
/// one up to `0x8000_0000`.
fn digits_from(chars: &Vec<char>, from: usize) -> (r: Option<i64>)
    requires
        from <= chars@.len(),
    ensures
        ({
            let digits = chars@.skip(from as int);
            match r {
                Some(n) => all_digits(digits) && n == digits_value(digits) && 0 <= n <= 0x8000_0000,
                None => !all_digits(digits) || digits_value(digits) > 0x8000_0000,
            }
        }),
{
    let ghost digits = chars@.skip(from as int);
    if from >= chars.len() {
        return None;
    }
    let mut value: i64 = 0;
    let mut i: usize = from;
    while i < chars.len()
        invariant
            from <= i <= chars@.len(),
            digits == chars@.skip(from as int),
            forall|k: int| 0 <= k < i - from ==> digit(#[trigger] digits[k]),
            value == digits_value(digits.take(i - from)),
            0 <= value <= 0x8000_0000,
        decreases chars@.len() - i,
    {
        let c = chars[i];
        proof {
            assert(digits[i - from] == c);
        }
        if c < '0' || c > '9' {
            return None;
        }
        let low: i64 = (c as u32 - '0' as u32) as i64;
        value = value * 10 + low;
        proof {
            assert(digits.take(i + 1 - from).drop_last() =~= digits.take(i - from));
        }
        i = i + 1;
        if value > 0x8000_0000 {
            proof {
                if all_digits(digits) {
                    lemma_digits_grow(digits, i - from);
                }
            }
            return None;
        }
    }
    proof {
        assert(digits.take(i - from) =~= digits);
    }
    Some(value)
}

/// The number that a setting gives, or `default` where it gives none that fits.
pub fn env_i32(value: &Option<String>, default: i32) -> (r: i32)
    ensures
        r == configured(optional_text(*value), default as int),
{
    let text = match value {
        Some(text) => text,
        None => {
            return default;
        },
    };
    let chars = chars_of(text.as_str());
    if chars.len() > 0 && chars[0] == '-' {
        match digits_from(&chars, 1) {
            Some(n) => (-n) as i32,
            None => default,
        }
    } else {
        let from: usize = if chars.len() > 0 && chars[0] == '+' {
            1
        } else {
            0
        };
        proof {
            if from == 0 {
                assert(chars@.skip(0) =~= chars@);
            }
        }
        match digits_from(&chars, from) {
            Some(n) => if n <= 0x7fff_ffff {
                n as i32
            } else {
                default
            },
            None => default,
        }
    }
}

/// The text of a setting, which is empty where it is not set.
pub open spec fn setting(value: Option<Seq<char>>) -> Seq<char> {
    match value {
        Some(text) => text,
        None => seq![],
    }
}

/// The text of a setting.
fn setting_text(value: &Option<String>) -> (r: String)
    ensures
        r@ == setting(optional_text(*value)),
{
    match value {
        Some(text) => text.clone(),
        None => {
            let none = String::new();
            proof {
                assert(none@ =~= seq![]);
            }
            none
        },
    }
}

/// Whether `s` ends with `pat`.
pub open spec fn ends_in(s: Seq<char>, pat: Seq<char>) -> bool {
    occurs_at(s, pat, s.len() - pat.len())
}

/// Whether `s` ends with `pat`.
fn ends_with(s: &str, pat: &str) -> (r: bool)
    ensures
        r == ends_in(s@, pat@),
{
    let chars = chars_of(s);
    let wanted = chars_of(pat);
    if wanted.len() > chars.len() {
        return false;
    }
    crate::text::matches_at(&chars, &wanted, chars.len() - wanted.len())
}

/// An answer without output.
pub open spec fn quiet(shape: Shape, exit_code: int, drain_stdin: bool) -> FakeReplyView {
    FakeReplyView { shape, exit_code, stdout: None, drain_stdin }
}

/// An answer that writes `text`.
pub open spec fn writing(shape: Shape, text: Seq<char>) -> FakeReplyView {
    FakeReplyView { shape, exit_code: 0, stdout: Some(text), drain_stdin: false }
}

/// The answer to a remote command. One that is not known fails, so that a test
/// does not pass for the wrong reason.
pub open spec fn plain_reply(remote_cmd: Seq<char>, settings: FakeSettingsView) -> FakeReplyView {
    if occurs_at(remote_cmd, "mktemp"@, 0) {
        writing(Shape::Mktemp, setting(settings.mktemp_output))
    } else if occurs_at(remote_cmd, "command -v zsh"@, 0) {
        writing(Shape::ShellResolve, setting(settings.remote_shell))
    } else if occurs_at(remote_cmd, "test -d"@, 0) {
        quiet(Shape::TestD, configured(settings.test_d_exit, 1), false)
    } else if has_text(remote_cmd, "tar -C"@) && has_text(remote_cmd, "-xf"@) {
        quiet(Shape::TarExtract, 0, true)
    } else if occurs_at(remote_cmd, "cat >"@, 0) {
        quiet(Shape::WriteFile, 0, true)
    } else if occurs_at(remote_cmd, "cat "@, 0) && ends_in(trimmed_end(remote_cmd), "|| true"@) {
        writing(Shape::ReadMarker, setting(settings.marker_content))
    } else if occurs_at(remote_cmd, "rm -rf"@, 0) {
        quiet(Shape::RmRf, configured(settings.rm_exit, 0), false)
    } else {
        quiet(Shape::Unknown, 1, false)
    }
}

/// The answer to a remote command.
pub fn dispatch_plain_command(remote_cmd: &str, settings: &FakeSettings) -> (r: FakeReply)
    ensures
        r@ == plain_reply(remote_cmd@, settings@),
{
    if starts_with(remote_cmd, "mktemp") {
        FakeReply {
            shape: Shape::Mktemp,
            exit_code: 0,
            stdout: Some(setting_text(&settings.mktemp_output)),
            drain_stdin: false,
        }
    } else if starts_with(remote_cmd, "command -v zsh") {
        FakeReply {
            shape: Shape::ShellResolve,
            exit_code: 0,
            stdout: Some(setting_text(&settings.remote_shell)),
            drain_stdin: false,
        }
    } else if starts_with(remote_cmd, "test -d") {
        FakeReply {
            shape: Shape::TestD,
            exit_code: env_i32(&settings.test_d_exit, 1),
            stdout: None,
            drain_stdin: false,
        }
    } else if contains(remote_cmd, "tar -C") && contains(remote_cmd, "-xf") {
        // The writer at the other end of the pipe blocks unless its output is
        // read to the end.
        FakeReply { shape: Shape::TarExtract, exit_code: 0, stdout: None, drain_stdin: true }
    } else if starts_with(remote_cmd, "cat >") {
        FakeReply { shape: Shape::WriteFile, exit_code: 0, stdout: None, drain_stdin: true }
    } else if starts_with(remote_cmd, "cat ") && ends_with(
        trim_end(remote_cmd).as_str(),
        "|| true",
    ) {
        FakeReply {
            shape: Shape::ReadMarker,
            exit_code: 0,
            stdout: Some(setting_text(&settings.marker_content)),
            drain_stdin: false,
        }
    } else if starts_with(remote_cmd, "rm -rf") {
        FakeReply {
            shape: Shape::RmRf,
            exit_code: env_i32(&settings.rm_exit, 0),
            stdout: None,
            drain_stdin: false,
        }
    } else {
        FakeReply { shape: Shape::Unknown, exit_code: 1, stdout: None, drain_stdin: false }
    }
}

/// The arguments that decide the answer: `waypipe` is called with `ssh` before
/// those of `ssh`.
pub open spec fn dispatched(program: Seq<char>, args: Seq<Seq<char>>) -> Seq<Seq<char>> {
    if program == "waypipe"@ && args.len() > 0 && args[0] == "ssh"@ {
        args.skip(1)
    } else {
        args
    }
}

/// The answer to a command line of `program`.
pub open spec fn fake_reply(
    program: Seq<char>,
    args: Seq<Seq<char>>,
    settings: FakeSettingsView,
) -> FakeReplyView {
    let args = dispatched(program, args);
    if args.contains("-MNf"@) && args.contains("ControlMaster=yes"@) {
        quiet(Shape::ControlOpen, configured(settings.control_open_exit, 0), false)
    } else if args.contains("-O"@) && args.contains("exit"@) {
        quiet(Shape::ControlClose, 0, false)
    } else if args.contains("-tt"@) {
        quiet(
            if program == "waypipe"@ {
                Shape::WaypipeInteractive
            } else {
                Shape::Interactive
            },
            configured(settings.interactive_exit, 0),
            false,
        )
    } else {
        plain_reply(
            if args.len() > 0 {
                args.last()
            } else {
                seq![]
            },
            settings,
        )
    }
}

/// Whether `flag` stands among the arguments from position `from` on.
fn has_flag(args: &[String], from: usize, flag: &str) -> (r: bool)
    requires
        from <= args@.len(),
    ensures
        r == texts(args@).skip(from as int).contains(flag@),
{
    let ghost rest = texts(args@).skip(from as int);
    let mut i: usize = from;
    while i < args.len()
        invariant
            from <= i <= args@.len(),
            rest == texts(args@).skip(from as int),
            forall|k: int| 0 <= k < i - from ==> #[trigger] rest[k] != flag@,
        decreases args@.len() - i,
    {
        if same(args[i].as_str(), flag) {
            proof {
                assert(rest[i - from] == flag@);
            }
            return true;
        }
        i = i + 1;
    }
    false
}

/// The answer to a command line of `program`.
pub fn dispatch(program: &str, args: &[String], settings: &FakeSettings) -> (r: FakeReply)
    ensures
        r@ == fake_reply(program@, texts(args@), settings@),
{
    let waypipe = same(program, "waypipe");
    let from: usize = if waypipe && args.len() > 0 && same(args[0].as_str(), "ssh") {
        1
    } else {
        0
    };
    let ghost rest = texts(args@).skip(from as int);
    proof {
        assert(texts(args@).skip(0) =~= texts(args@));
        assert(rest == dispatched(program@, texts(args@)));
    }
    if has_flag(args, from, "-MNf") && has_flag(args, from, "ControlMaster=yes") {
        FakeReply {
            shape: Shape::ControlOpen,
            exit_code: env_i32(&settings.control_open_exit, 0),
            stdout: None,
            drain_stdin: false,
        }
    } else if has_flag(args, from, "-O") && has_flag(args, from, "exit") {
        FakeReply { shape: Shape::ControlClose, exit_code: 0, stdout: None, drain_stdin: false }
    } else if has_flag(args, from, "-tt") {
        FakeReply {
            shape: if waypipe {
                Shape::WaypipeInteractive
            } else {
                Shape::Interactive
            },
            exit_code: env_i32(&settings.interactive_exit, 0),
            stdout: None,
            drain_stdin: false,
        }
    } else if args.len() > from {
        dispatch_plain_command(args[args.len() - 1].as_str(), settings)
    } else {
        proof {
            reveal_strlit("");
            assert(""@ =~= seq![]);
        }
        dispatch_plain_command("", settings)
    }
}

/// How many bytes of the input are logged.
pub const STDIN_PREVIEW_CAP: usize = 256;

/// The first bytes of an input.
pub open spec fn capped(input: Seq<u8>) -> Seq<u8> {
    if input.len() <= STDIN_PREVIEW_CAP {
        input
    } else {
        input.take(STDIN_PREVIEW_CAP as int)
    }
}

/// How many bytes an input has, and the text that its first bytes hold.
pub fn stdin_preview(input: &[u8]) -> (r: (usize, String))
    ensures
        r.0 == input@.len(),
        r.1@ == lossy_text(capped(input@)),
{
    let mut first: Vec<u8> = Vec::new();
    let mut i: usize = 0;
    while i < input.len() && i < STDIN_PREVIEW_CAP
        invariant
            i <= input@.len(),
            i <= STDIN_PREVIEW_CAP,
            first@ == input@.take(i as int),
        decreases input@.len() - i,
    {
        first.push(input[i]);
        i = i + 1;
    }
    proof {
        assert(first@ =~= capped(input@));
    }
    (input.len(), decode_lossy(first.as_slice()))
}

/// Whether an argument is one that decides the answer.
pub open spec fn decides(arg: Seq<char>) -> bool {
    ||| arg == "-MNf"@
    ||| arg == "ControlMaster=yes"@
    ||| arg == "-O"@
    ||| arg == "exit"@
    ||| arg == "-tt"@
}

/// Whether a connection leaves the answer to the command: neither its socket,
/// its options nor its destination is an argument that decides the answer.
pub open spec fn undecided(dest: Seq<char>, ssh_args: Seq<Seq<char>>, socket: Seq<char>) -> bool {
    &&& !decides(dest)
    &&& !decides(socket)
    &&& forall|i: int| 0 <= i < ssh_args.len() ==> !decides(#[trigger] ssh_args[i])
}

/// The stand-in knows the command lines of the transport: one that opens, closes
/// or enters a connection is told by its flags, and any other is answered by its
/// remote command.
pub proof fn law_command_lines_are_known(
    dest: Seq<char>,
    ssh_args: Seq<Seq<char>>,
    socket: Seq<char>,
    command: Seq<char>,
    settings: FakeSettingsView,
)
    requires
        undecided(dest, ssh_args, socket),
        !decides(command),
    ensures
        fake_reply("ssh"@, open_line(dest, ssh_args, socket).args, settings) == quiet(
            Shape::ControlOpen,
            configured(settings.control_open_exit, 0),
            false,
        ),
        fake_reply(
            "ssh"@,
            ssh_line(socket, dest, ssh_args).arg("-O"@).arg("exit"@).args,
            settings,
        ) == quiet(Shape::ControlClose, 0, false),
        fake_reply(
            "ssh"@,
            interactive_line(dest, ssh_args, socket, command, false).args,
            settings,
        ) == quiet(Shape::Interactive, configured(settings.interactive_exit, 0), false),
        fake_reply(
            "waypipe"@,
            interactive_line(dest, ssh_args, socket, command, true).args,
            settings,
        ) == quiet(Shape::WaypipeInteractive, configured(settings.interactive_exit, 0), false),
        fake_reply("ssh"@, ssh_line(socket, dest, ssh_args).arg(command).args, settings)
            == plain_reply(command, settings),
{
    lemma_names();
    let n = ssh_args.len() as int;
    let open = open_line(dest, ssh_args, socket).args;
    assert(open[0] == "-MNf"@);
    assert(open[2] == "ControlMaster=yes"@);
    let close = ssh_line(socket, dest, ssh_args).arg("-O"@).arg("exit"@).args;
    assert(close[5 + n] == "-O"@);
    assert(close[6 + n] == "exit"@);
    lemma_prefix(socket);
    assert forall|i: int| 0 <= i < close.len() implies #[trigger] close[i] != "-MNf"@ by {
        if 4 <= i < 4 + n {
            assert(close[i] == ssh_args[i - 4]);
        }
    }
    let terminal = interactive_line(dest, ssh_args, socket, command, false).args;
    assert(terminal[0] == "-tt"@);
    assert forall|i: int| 0 <= i < terminal.len() implies #[trigger] terminal[i] != "-MNf"@
        && terminal[i] != "-O"@ by {
        if 5 <= i < 5 + n {
            assert(terminal[i] == ssh_args[i - 5]);
        }
    }
    let through = interactive_line(dest, ssh_args, socket, command, true).args;
    assert(through[0] == "ssh"@);
    assert(through.skip(1) =~= terminal);
    let plain = ssh_line(socket, dest, ssh_args).arg(command).args;
    assert forall|i: int| 0 <= i < plain.len() implies !decides(#[trigger] plain[i]) by {
        if 4 <= i < 4 + n {
            assert(plain[i] == ssh_args[i - 4]);
        }
    }
    assert(plain.last() == command);
}

/// The names and flags are told apart.
proof fn lemma_names()
    ensures
        "ssh"@ != "waypipe"@,
        !decides("-S"@),
        !decides("-o"@),
        "-O"@ != "-MNf"@,
        "exit"@ != "-MNf"@,
        "-tt"@ != "-MNf"@,
        "-tt"@ != "-O"@,
{
    reveal_strlit("ssh");
    reveal_strlit("waypipe");
    reveal_strlit("-S");
    reveal_strlit("-o");
    reveal_strlit("-O");
    reveal_strlit("-MNf");
    reveal_strlit("exit");
    reveal_strlit("-tt");
    reveal_strlit("ControlMaster=yes");
    assert("ssh"@.len() == 3);
    assert("waypipe"@.len() == 7);
    assert("-S"@[1] == 'S');
    assert("-o"@[1] == 'o');
    assert("-O"@[1] == 'O');
    assert("-S"@.len() == 2);
    assert("-o"@.len() == 2);
    assert("-O"@.len() == 2);
    assert("-MNf"@.len() == 4);
    assert("-MNf"@[0] == '-');
    assert("exit"@.len() == 4);
    assert("exit"@[0] == 'e');
    assert("-tt"@.len() == 3);
    assert("ControlMaster=yes"@.len() == 17);
}

/// The option that names the socket decides nothing.
proof fn lemma_prefix(socket: Seq<char>)
    ensures
        !decides("ControlPath="@ + socket),
{
    reveal_strlit("ControlPath=");
    reveal_strlit("ControlMaster=yes");
    reveal_strlit("-O");
    reveal_strlit("-MNf");
    reveal_strlit("exit");
    reveal_strlit("-tt");
    let option = "ControlPath="@ + socket;
    assert("ControlPath="@[0] == 'C');
    assert("ControlPath="@[7] == 'P');
    assert(option[0] == 'C');
    assert(option[7] == 'P');
    assert("ControlMaster=yes"@[7] == 'M');
    assert("-O"@[0] == '-');
    assert("-MNf"@[0] == '-');
    assert("exit"@[0] == 'e');
    assert("-tt"@[0] == '-');
}

/// The stand-in knows the commands that a session runs on the remote host, where
/// no path among them reads like the command that unpacks a payload.
pub proof fn law_remote_commands_are_known(
    root: Seq<char>,
    path: Seq<char>,
    executable: bool,
    settings: FakeSettingsView,
)
    requires
        !has_text(write_command(path, executable), "tar -C"@),
        !has_text(marker_command(root), "tar -C"@),
        !has_text(remove_command(root), "tar -C"@),
    ensures
        plain_reply(create_command(), settings).shape == Shape::Mktemp,
        plain_reply(shell_command(), settings).shape == Shape::ShellResolve,
        plain_reply(probe_command(root), settings).shape == Shape::TestD,
        plain_reply(extract_command(root), settings).shape == Shape::TarExtract,
        plain_reply(write_command(path, executable), settings).shape == Shape::WriteFile,
        plain_reply(marker_command(root), settings).shape == Shape::ReadMarker,
        plain_reply(remove_command(root), settings).shape == Shape::RmRf,
{
    reveal_strlit("mktemp");
    reveal_strlit("command -v zsh");
    reveal_strlit("test -d");
    reveal_strlit("cat >");
    reveal_strlit("cat ");
    reveal_strlit("rm -rf");
    reveal_strlit("tar -C");
    reveal_strlit("-xf");
    reveal_strlit("|| true");
    reveal_strlit("mktemp -d \"${TMPDIR:-/tmp}/nomad.XXXXXXXX\"");
    reveal_strlit("command -v zsh 2>/dev/null || command -v bash 2>/dev/null");
    reveal_strlit("test -d ");
    reveal_strlit("tar -C ");
    reveal_strlit(" -xf -");
    reveal_strlit("cat > ");
    reveal_strlit(" 2>/dev/null || true");
    reveal_strlit("rm -rf -- ");
    reveal_strlit("'");
    assert(create_command().subrange(0, 6) =~= "mktemp"@);
    let shell = shell_command();
    assert(shell.subrange(0, 14) =~= "command -v zsh"@);
    assert(shell[0] == 'c');
    lemma_first(shell, "mktemp"@);
    let probe = probe_command(root);
    assert(probe.subrange(0, 7) =~= "test -d"@);
    lemma_first(probe, "mktemp"@);
    lemma_first(probe, "command -v zsh"@);
    let unpack = extract_command(root);
    assert(unpack[0] == 't' && unpack[1] == 'a');
    lemma_first(unpack, "mktemp"@);
    lemma_first(unpack, "command -v zsh"@);
    assert(!occurs_at(unpack, "test -d"@, 0)) by {
        assert("test -d"@[1] == 'e');
        if occurs_at(unpack, "test -d"@, 0) {
            assert(unpack.subrange(0, 7)[1] == unpack[1]);
        }
    }
    assert(unpack.subrange(0, 6) =~= "tar -C"@);
    assert(occurs_at(unpack, "tar -C"@, 0));
    let tail = unpack.len() - 5;
    assert(unpack.subrange(tail, tail + 3) =~= "-xf"@);
    assert(occurs_at(unpack, "-xf"@, tail));
    let write = write_command(path, executable);
    assert(write.subrange(0, 5) =~= "cat >"@);
    assert(write[0] == 'c' && write[1] == 'a');
    lemma_first(write, "mktemp"@);
    lemma_first(write, "test -d"@);
    lemma_second(write, "command -v zsh"@);
    let read = marker_command(root);
    assert(read[0] == 'c' && read[1] == 'a' && read[4] == '\'');
    assert(read.subrange(0, 4) =~= "cat "@);
    lemma_first(read, "mktemp"@);
    lemma_first(read, "test -d"@);
    lemma_second(read, "command -v zsh"@);
    assert(!occurs_at(read, "cat >"@, 0)) by {
        assert("cat >"@[4] == '>');
        if occurs_at(read, "cat >"@, 0) {
            assert(read.subrange(0, 5)[4] == read[4]);
        }
    }
    assert(read.last() == 'e');
    assert(trimmed_end(read) == read);
    let end = read.len() - 7;
    assert(read.subrange(end, end + 7) =~= "|| true"@);
    let remove = remove_command(root);
    assert(remove.subrange(0, 6) =~= "rm -rf"@);
    assert(remove[0] == 'r');
    lemma_first(remove, "mktemp"@);
    lemma_first(remove, "test -d"@);
    lemma_first(remove, "command -v zsh"@);
    lemma_first(remove, "cat >"@);
    lemma_first(remove, "cat "@);
}

/// Text does not begin with a pattern whose first character is another.
proof fn lemma_first(s: Seq<char>, pat: Seq<char>)
    requires
        s.len() > 0,
        pat.len() > 0,
        s[0] != pat[0],
    ensures
        !occurs_at(s, pat, 0),
{
    if occurs_at(s, pat, 0) {
        assert(s.subrange(0, pat.len() as int)[0] == s[0]);
    }
}

/// Text does not begin with a pattern whose second character is another.
proof fn lemma_second(s: Seq<char>, pat: Seq<char>)
    requires
        s.len() > 1,
        pat.len() > 1,
        s[1] != pat[1],
    ensures
        !occurs_at(s, pat, 0),
{
    if occurs_at(s, pat, 0) {
        assert(s.subrange(0, pat.len() as int)[1] == s[1]);
    }
}

} // verus!
