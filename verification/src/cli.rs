//! What a command line asks for, and what the user is told.

use vstd::prelude::*;

use crate::destination::{
    is_dashed, is_value_flag, is_waypipe_flag, parse_ssh_args, Destination, ParseError,
};
use crate::destination::{
    dashed, law_host_comes_last, parsed, value_flag, waypipe_flag, DestinationView, ParseErrorView,
};
use crate::paths::join_path;
use crate::paths::path_under;
use crate::session::optional_text;
use crate::text::{joined, same, split};
use crate::text::{pieces_of, texts};

verus! {

/// How the tool is used.
pub open spec fn usage_text() -> Seq<char> {
    "usage: nomad [--waypipe|-wp] [ssh options] host\n       nomad clean [ssh options] host"@
}

/// How the tool is used.
pub fn usage() -> (r: String)
    ensures
        r@ == usage_text(),
{
    "usage: nomad [--waypipe|-wp] [ssh options] host\n       nomad clean [ssh options] host".to_owned()
}

/// What a command line asks for.
#[derive(Debug, Clone, PartialEq, Eq)]
pub enum Plan {
    /// To be told how the tool is used.
    Help,
    /// Nothing that can be made out.
    BadUsage,
    /// A destination that cannot be made out.
    Rejected(ParseError),
    /// A session, or the clean-up of one, with the configuration at a path.
    Run { config: Option<String>, clean: bool, dest: Destination },
}

/// What a [`Plan`] holds.
pub enum PlanView {
    Help,
    BadUsage,
    Rejected(ParseErrorView),
    Run { config: Option<Seq<char>>, clean: bool, dest: DestinationView },
}

impl View for Plan {
    type V = PlanView;

    open spec fn view(&self) -> PlanView {
        match self {
            Plan::Help => PlanView::Help,
            Plan::BadUsage => PlanView::BadUsage,
            Plan::Rejected(err) => PlanView::Rejected(err@),
            Plan::Run { config, clean, dest } => PlanView::Run {
                config: optional_text(*config),
                clean: *clean,
                dest: dest@,
            },
        }
    }
}

/// The position of the first `--config`, or the number of arguments.
pub open spec fn config_flag_at(args: Seq<Seq<char>>) -> nat
    decreases args.len(),
{
    if args.len() == 0 || args[0] == "--config"@ {
        0
    } else {
        1 + config_flag_at(args.skip(1))
    }
}

/// The flags that ask how the tool is used.
pub open spec fn help_flag(arg: Seq<char>) -> bool {
    arg == "--help"@ || arg == "-h"@
}

/// Whether a help flag stands among the options: before the host, and not as the
/// value of an ssh option.
pub open spec fn help_asked(args: Seq<Seq<char>>) -> bool
    decreases args.len(),
{
    if args.len() == 0 || args[0] == "--"@ {
        false
    } else if help_flag(args[0]) {
        true
    } else if waypipe_flag(args[0]) {
        help_asked(args.skip(1))
    } else if value_flag(args[0]) {
        args.len() > 1 && help_asked(args.skip(2))
    } else {
        dashed(args[0]) && help_asked(args.skip(1))
    }
}

/// What the arguments besides the configuration ask for.
pub open spec fn planned_with(config: Option<Seq<char>>, args: Seq<Seq<char>>) -> PlanView {
    let clean = args.len() > 0 && args[0] == "clean"@;
    let options = if clean {
        args.skip(1)
    } else {
        args
    };
    if options.len() == 0 {
        PlanView::BadUsage
    } else if help_asked(options) {
        PlanView::Help
    } else {
        match parsed(options) {
            Ok(dest) => PlanView::Run { config, clean, dest },
            Err(err) => PlanView::Rejected(err),
        }
    }
}

/// What a command line asks for: `--config` with its value is taken out wherever
/// it stands, `clean` may come first, and the rest names the destination.
pub open spec fn planned(args: Seq<Seq<char>>) -> PlanView {
    let at = config_flag_at(args) as int;
    if at >= args.len() {
        planned_with(None, args)
    } else if at + 1 >= args.len() {
        PlanView::BadUsage
    } else {
        planned_with(Some(args[at + 1]), args.take(at) + args.skip(at + 2))
    }
}

/// Whether `arg` asks how the tool is used.
fn is_help_flag(arg: &str) -> (r: bool)
    ensures
        r == help_flag(arg@),
{
    same(arg, "--help") || same(arg, "-h")
}

/// Whether a help flag stands among the options.
fn asks_for_help(args: &[String]) -> (r: bool)
    ensures
        r == help_asked(texts(args@)),
{
    let ghost all = texts(args@);
    let mut i: usize = 0;
    proof {
        assert(all.skip(0) =~= all);
    }
    while i < args.len()
        invariant
            i <= args@.len(),
            all == texts(args@),
            help_asked(all) == help_asked(all.skip(i as int)),
        decreases args@.len() - i,
    {
        let arg = args[i].as_str();
        let ghost rest = all.skip(i as int);
        proof {
            assert(rest[0] == arg@);
            assert(rest.skip(1) =~= all.skip(i + 1));
        }
        if same(arg, "--") {
            return false;
        } else if is_help_flag(arg) {
            return true;
        } else if is_waypipe_flag(arg) {
            i = i + 1;
        } else if is_value_flag(arg) {
            if args.len() - i < 2 {
                return false;
            }
            proof {
                assert(rest.skip(2) =~= all.skip(i + 2));
            }
            i = i + 2;
        } else if is_dashed(arg) {
            i = i + 1;
        } else {
            return false;
        }
    }
    false
}

/// The arguments without those from position `from` up to position `to`.
fn without(args: &Vec<String>, from: usize, to: usize) -> (r: Vec<String>)
    requires
        from <= to <= args@.len(),
    ensures
        texts(r@) == texts(args@).take(from as int) + texts(args@).skip(to as int),
{
    let ghost all = texts(args@);
    let mut r: Vec<String> = Vec::new();
    let mut i: usize = 0;
    proof {
        assert(texts(r@) =~= all.take(0));
    }
    while i < from
        invariant
            i <= from <= args@.len(),
            all == texts(args@),
            texts(r@) == all.take(i as int),
        decreases from - i,
    {
        let ghost before = r@;
        r.push(args[i].clone());
        proof {
            assert(texts(r@) =~= texts(before).push(all[i as int]));
            assert(texts(r@) =~= all.take(i + 1));
        }
        i = i + 1;
    }
    let mut j: usize = to;
    proof {
        assert(texts(r@) =~= all.take(from as int) + all.subrange(to as int, to as int));
    }
    while j < args.len()
        invariant
            from <= to <= j <= args@.len(),
            all == texts(args@),
            texts(r@) == all.take(from as int) + all.subrange(to as int, j as int),
        decreases args@.len() - j,
    {
        let ghost before = r@;
        r.push(args[j].clone());
        proof {
            assert(texts(r@) =~= texts(before).push(all[j as int]));
            assert(texts(r@) =~= all.take(from as int) + all.subrange(to as int, j + 1));
        }
        j = j + 1;
    }
    proof {
        assert(all.subrange(to as int, all.len() as int) =~= all.skip(to as int));
    }
    r
}

/// What the arguments besides the configuration ask for.
fn plan_with(config: Option<String>, args: Vec<String>) -> (r: Plan)
    ensures
        r@ == planned_with(optional_text(config), texts(args@)),
{
    let clean = args.len() > 0 && same(args[0].as_str(), "clean");
    let ghost all = texts(args@);
    let options = if clean {
        without(&args, 0, 1)
    } else {
        args
    };
    proof {
        assert(all.take(0) + all.skip(1) =~= all.skip(1));
        assert(texts(options@) == if clean {
            all.skip(1)
        } else {
            all
        });
    }
    if options.len() == 0 {
        Plan::BadUsage
    } else if asks_for_help(options.as_slice()) {
        Plan::Help
    } else {
        match parse_ssh_args(options.as_slice()) {
            Ok(dest) => Plan::Run { config, clean, dest },
            Err(err) => Plan::Rejected(err),
        }
    }
}

/// What a command line asks for.
pub fn plan(args: Vec<String>) -> (r: Plan)
    ensures
        r@ == planned(texts(args@)),
{
    let ghost all = texts(args@);
    let mut at: usize = 0;
    proof {
        assert(all.skip(0) =~= all);
    }
    while at < args.len() && !same(args[at].as_str(), "--config")
        invariant
            at <= args@.len(),
            all == texts(args@),
            config_flag_at(all) == at + config_flag_at(all.skip(at as int)),
        decreases args@.len() - at,
    {
        proof {
            let rest = all.skip(at as int);
            assert(rest[0] == all[at as int]);
            assert(rest.skip(1) =~= all.skip(at + 1));
        }
        at = at + 1;
    }
    proof {
        if at < args.len() {
            assert(all.skip(at as int)[0] == all[at as int]);
        }
    }
    if at >= args.len() {
        plan_with(None, args)
    } else if args.len() - at < 2 {
        Plan::BadUsage
    } else {
        let config = args[at + 1].clone();
        let rest = without(&args, at, at + 2);
        plan_with(Some(config), rest)
    }
}

/// `text` as the tool says it.
pub open spec fn said(text: Seq<char>) -> Seq<char> {
    "nomad: "@ + text
}

/// `text` as the tool says it.
pub fn say(text: &str) -> (r: String)
    ensures
        r@ == said(text@),
{
    joined("nomad: ", text)
}

impl PlanView {
    /// The lines that tell the user what is wrong with a command line.
    pub open spec fn complaint(self) -> Seq<Seq<char>> {
        match self {
            PlanView::BadUsage => seq![usage_text()],
            PlanView::Rejected(err) => if err is MissingHost {
                seq![said(err.message()), usage_text()]
            } else {
                seq![said(err.message())]
            },
            _ => seq![],
        }
    }
}

impl Plan {
    /// The lines that tell the user what is wrong with the command line, if
    /// anything is.
    pub fn complaint(&self) -> (r: Vec<String>)
        ensures
            texts(r@) == self@.complaint(),
    {
        let mut r: Vec<String> = Vec::new();
        match self {
            Plan::BadUsage => {
                r.push(usage());
            },
            Plan::Rejected(err) => {
                r.push(say(err.message().as_str()));
                match err {
                    ParseError::MissingHost => {
                        r.push(usage());
                    },
                    _ => {},
                }
            },
            _ => {},
        }
        proof {
            assert(texts(r@) =~= self@.complaint());
        }
        r
    }
}

impl PlanView {
    /// The exit code of a command line that runs nothing.
    pub open spec fn early_code(self) -> Option<u8> {
        match self {
            PlanView::Help => Some(0u8),
            PlanView::BadUsage => Some(1u8),
            PlanView::Rejected(_) => Some(1u8),
            PlanView::Run { .. } => None,
        }
    }
}

impl Plan {
    /// The exit code of a command line that runs nothing: success where it asks
    /// for help, and failure where it cannot be made out.
    pub fn early_exit(&self) -> (r: Option<u8>)
        ensures
            r == self@.early_code(),
    {
        match self {
            Plan::Help => Some(0),
            Plan::BadUsage => Some(1),
            Plan::Rejected(_) => Some(1),
            Plan::Run { .. } => None,
        }
    }
}

/// The profile root that is used, as the user is told.
pub fn using_root(root: &str) -> (r: String)
    ensures
        r@ == said("using profile root "@ + root@),
{
    say(joined("using profile root ", root).as_str())
}

/// The connection that is opened, as the user is told.
pub fn opening_connection(host: &str) -> (r: String)
    ensures
        r@ == said("opening control connection to "@ + host@),
{
    say(joined("opening control connection to ", host).as_str())
}

/// The shell that is started, as the user is told.
pub fn starting_shell(shell_name: &str) -> (r: String)
    ensures
        r@ == said("starting remote "@ + shell_name@ + " with temporary dotfiles"@),
{
    let mut text = joined("starting remote ", shell_name);
    text.append(" with temporary dotfiles");
    say(text.as_str())
}

/// What is done once the profile root is known.
#[derive(Debug, Clone, Copy, PartialEq, Eq, Structural)]
pub enum Action {
    /// Nothing: the local `waypipe` is missing.
    RefuseWaypipe,
    /// The session is cleaned up.
    Clean,
    /// A session is prepared and entered.
    Connect,
}

/// What is done once the profile root is known. A destination that asks for
/// `waypipe` needs it here, whatever is to be done.
pub fn action(clean: bool, use_waypipe: bool, waypipe_found: bool) -> (r: Action)
    ensures
        r == (if use_waypipe && !waypipe_found {
            Action::RefuseWaypipe
        } else if clean {
            Action::Clean
        } else {
            Action::Connect
        }),
{
    if use_waypipe && !waypipe_found {
        Action::RefuseWaypipe
    } else if clean {
        Action::Clean
    } else {
        Action::Connect
    }
}

/// The files that a program can be, by the value of `PATH`, the first that is
/// there first.
pub open spec fn candidates(path: Seq<char>, bin: Seq<char>) -> Seq<Seq<char>> {
    let dirs = pieces_of(path, ':');
    Seq::new(dirs.len(), |i: int| path_under(dirs[i], bin))
}

/// The files that a program can be, by the value of `PATH`.
pub fn which(path: &str, bin: &str) -> (r: Vec<String>)
    ensures
        texts(r@) == candidates(path@, bin@),
{
    let dirs = split(path, ':');
    let ghost all = candidates(path@, bin@);
    let mut r: Vec<String> = Vec::new();
    let mut i: usize = 0;
    proof {
        assert(texts(r@) =~= all.take(0));
    }
    while i < dirs.len()
        invariant
            i <= dirs@.len(),
            texts(dirs@) == pieces_of(path@, ':'),
            all == candidates(path@, bin@),
            texts(r@) == all.take(i as int),
        decreases dirs@.len() - i,
    {
        let ghost before = r@;
        proof {
            assert(texts(dirs@)[i as int] == dirs@[i as int]@);
        }
        r.push(join_path(dirs[i].as_str(), bin));
        proof {
            assert(texts(r@) =~= texts(before).push(all[i as int]));
            assert(texts(r@) =~= all.take(i + 1));
        }
        i = i + 1;
    }
    proof {
        assert(all.take(i as int) =~= all);
    }
    r
}

/// The exit code of the tool, by that of the remote shell, whose lowest eight
/// bits are kept. A shell that a signal ended has none, which is a failure.
pub fn exit_code(code: Option<i32>) -> (r: u8)
    ensures
        r as int == (match code {
            Some(n) => n as int % 256,
            None => 1,
        }),
{
    match code {
        Some(n) => {
            let low: u8 = (n & 0xff) as u8;
            assert(0 <= (n & 0xff) < 256 && (n & 0xff) == n % 256) by (bit_vector);
            low
        },
        None => 1,
    }
}

/// `--config` with its value is taken out wherever it stands: what is asked for
/// is what the other arguments ask for, with that configuration.
pub proof fn law_config_is_taken_out(
    before: Seq<Seq<char>>,
    path: Seq<char>,
    after: Seq<Seq<char>>,
)
    requires
        !before.contains("--config"@),
    ensures
        planned(before + seq!["--config"@, path] + after) == planned_with(
            Some(path),
            before + after,
        ),
{
    let args = before + seq!["--config"@, path] + after;
    let n = before.len() as int;
    lemma_config_flag_at(before, seq!["--config"@, path] + after);
    assert(args =~= before + (seq!["--config"@, path] + after));
    assert(args.take(n) + args.skip(n + 2) =~= before + after);
}

/// The position of a first `--config` after arguments without one.
proof fn lemma_config_flag_at(before: Seq<Seq<char>>, rest: Seq<Seq<char>>)
    requires
        !before.contains("--config"@),
        rest.len() > 0,
        rest[0] == "--config"@,
    ensures
        config_flag_at(before + rest) == before.len(),
    decreases before.len(),
{
    if before.len() == 0 {
        assert(before + rest =~= rest);
    } else {
        assert(before.contains(before[0]));
        assert forall|i: int| 0 <= i < before.len() - 1 implies before.skip(1)[i] != "--config"@ by {
            assert(before.contains(before[i + 1]));
        }
        lemma_config_flag_at(before.skip(1), rest);
        assert((before + rest).skip(1) =~= before.skip(1) + rest);
        assert((before + rest)[0] == before[0]);
    }
}

/// A help flag that comes first, or right after `clean`, is answered whatever
/// else is asked for, and no configuration is needed for that.
pub proof fn law_help_comes_first(
    config: Option<Seq<char>>,
    flag: Seq<char>,
    rest: Seq<Seq<char>>,
)
    requires
        help_flag(flag),
    ensures
        planned_with(config, seq![flag] + rest) == PlanView::Help,
        planned_with(config, seq!["clean"@, flag] + rest) == PlanView::Help,
{
    reveal_strlit("--help");
    reveal_strlit("-h");
    reveal_strlit("clean");
    reveal_strlit("--");
    let args = seq![flag] + rest;
    assert(flag[0] == '-');
    assert("clean"@[0] == 'c');
    assert(flag != "clean"@);
    assert(flag != "--"@) by {
        assert("-h"@[1] == 'h');
        assert("--"@[1] == '-');
        assert("--help"@.len() == 6);
        assert("--"@.len() == 2);
    }
    assert(args[0] == flag);
    assert(help_asked(args));
    assert((seq!["clean"@, flag] + rest).skip(1) =~= args);
}

/// Nothing but `[--config PATH] [clean] [--waypipe|-wp] [ssh options] host`
/// runs: the arguments besides these two name a destination, and nothing
/// follows the host.
pub proof fn law_plan_that_runs_names_a_destination(args: Seq<Seq<char>>)
    ensures
        planned(args) matches PlanView::Run { config, clean, dest } ==> exists|
            options: Seq<Seq<char>>,
        |
            #[trigger] parsed(options) == Ok::<DestinationView, ParseErrorView>(dest)
                && options.len() > 0 && options.last() == dest.host,
{
    if let PlanView::Run { config, clean, dest } = planned(args) {
        let at = config_flag_at(args) as int;
        let rest = if at >= args.len() {
            args
        } else {
            args.take(at) + args.skip(at + 2)
        };
        let options = if clean {
            rest.skip(1)
        } else {
            rest
        };
        law_host_comes_last(options);
        assert(parsed(options) == Ok::<DestinationView, ParseErrorView>(dest));
    }
}

} // verus!
