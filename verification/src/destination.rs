//! Parsing of `[--waypipe|-wp] [ssh options] host`.

use vstd::prelude::*;

use crate::text::{chars_of, joined, same};
use crate::text::texts;

verus! {

/// Where to connect: the host, the options that `ssh` gets as they are, and
/// whether the interactive session runs through `waypipe`.
#[derive(Debug, Clone, PartialEq, Eq)]
pub struct Destination {
    pub host: String,
    pub ssh_args: Vec<String>,
    pub use_waypipe: bool,
}

/// What a [`Destination`] holds.
#[verifier::ext_equal]
pub struct DestinationView {
    pub host: Seq<char>,
    pub ssh_args: Seq<Seq<char>>,
    pub use_waypipe: bool,
}

impl View for Destination {
    type V = DestinationView;

    open spec fn view(&self) -> DestinationView {
        DestinationView {
            host: self.host@,
            ssh_args: texts(self.ssh_args@),
            use_waypipe: self.use_waypipe,
        }
    }
}

/// Why a command line names no destination.
#[derive(Debug, Clone, PartialEq, Eq)]
pub enum ParseError {
    MissingHost,
    RemoteCommandsUnsupported,
    MissingValueFor(String),
}

/// What a [`ParseError`] holds.
pub enum ParseErrorView {
    MissingHost,
    RemoteCommandsUnsupported,
    MissingValueFor(Seq<char>),
}

impl View for ParseError {
    type V = ParseErrorView;

    open spec fn view(&self) -> ParseErrorView {
        match self {
            ParseError::MissingHost => ParseErrorView::MissingHost,
            ParseError::RemoteCommandsUnsupported => ParseErrorView::RemoteCommandsUnsupported,
            ParseError::MissingValueFor(flag) => ParseErrorView::MissingValueFor(flag@),
        }
    }
}

impl ParseErrorView {
    /// The text shown to the user.
    pub open spec fn message(self) -> Seq<char> {
        match self {
            ParseErrorView::MissingHost => "usage: nomad [--waypipe|-wp] [ssh options] host"@,
            ParseErrorView::RemoteCommandsUnsupported =>
                "remote commands are not supported; this always launches your dotfiles shell"@,
            ParseErrorView::MissingValueFor(flag) => "missing value for "@ + flag,
        }
    }
}

impl ParseError {
    /// The text shown to the user.
    pub fn message(&self) -> (r: String)
        ensures
            r@ == self@.message(),
    {
        match self {
            ParseError::MissingHost => "usage: nomad [--waypipe|-wp] [ssh options] host".to_owned(),
            ParseError::RemoteCommandsUnsupported =>
                "remote commands are not supported; this always launches your dotfiles shell".to_owned(),
            ParseError::MissingValueFor(flag) => joined("missing value for ", flag.as_str()),
        }
    }
}

/// What a parse yields.
pub type Parsed = Result<DestinationView, ParseErrorView>;

/// The outcome of a parse, seen through the views.
pub open spec fn outcome(r: Result<Destination, ParseError>) -> Parsed {
    match r {
        Ok(dest) => Ok(dest@),
        Err(err) => Err(err@),
    }
}

/// The letters of the ssh options that take a value.
pub open spec fn value_letter(c: char) -> bool {
    ||| c == 'B' || c == 'b' || c == 'c' || c == 'D' || c == 'E' || c == 'e' || c == 'F' || c == 'I'
    ||| c == 'i' || c == 'J' || c == 'l' || c == 'm' || c == 'O' || c == 'o' || c == 'p' || c == 'Q'
    ||| c == 'R' || c == 'S' || c == 'W' || c == 'w'
}

/// A dash and one letter of an ssh option that takes a value.
pub open spec fn value_flag(arg: Seq<char>) -> bool {
    arg.len() == 2 && arg[0] == '-' && value_letter(arg[1])
}

/// The flags that ask for `waypipe`.
pub open spec fn waypipe_flag(arg: Seq<char>) -> bool {
    arg == "--waypipe"@ || arg == "-wp"@
}

/// Anything that begins with a dash.
pub open spec fn dashed(arg: Seq<char>) -> bool {
    arg.len() > 0 && arg[0] == '-'
}

/// `rest` with `forwarded` put before its ssh options, and with `waypipe` asked
/// for besides what `rest` asks for.
pub open spec fn extended(forwarded: Seq<Seq<char>>, waypipe: bool, rest: Parsed) -> Parsed {
    match rest {
        Ok(dest) => Ok(
            DestinationView {
                host: dest.host,
                ssh_args: forwarded + dest.ssh_args,
                use_waypipe: waypipe || dest.use_waypipe,
            },
        ),
        Err(err) => Err(err),
    }
}

/// The destination that a command line names.
///
/// The options are read one by one: a waypipe flag is kept back, an ssh option
/// that takes a value is forwarded with it, any other dashed argument is
/// forwarded alone. The first argument that is none of these is the host, and
/// nothing may follow it.
pub open spec fn parsed(args: Seq<Seq<char>>) -> Parsed
    decreases args.len(),
{
    if args.len() == 0 {
        Err(ParseErrorView::MissingHost)
    } else if waypipe_flag(args[0]) {
        extended(seq![], true, parsed(args.skip(1)))
    } else if args[0] == "--"@ {
        Err(ParseErrorView::RemoteCommandsUnsupported)
    } else if value_flag(args[0]) {
        if args.len() == 1 {
            Err(ParseErrorView::MissingValueFor(args[0]))
        } else {
            extended(args.take(2), false, parsed(args.skip(2)))
        }
    } else if dashed(args[0]) {
        extended(args.take(1), false, parsed(args.skip(1)))
    } else if args.len() > 1 {
        Err(ParseErrorView::RemoteCommandsUnsupported)
    } else {
        Ok(DestinationView { host: args[0], ssh_args: seq![], use_waypipe: false })
    }
}

/// Whether `c` is the letter of an ssh option that takes a value.
fn is_value_letter(c: char) -> (r: bool)
    ensures
        r == value_letter(c),
{
    c == 'B' || c == 'b' || c == 'c' || c == 'D' || c == 'E' || c == 'e' || c == 'F' || c == 'I' || c
        == 'i' || c == 'J' || c == 'l' || c == 'm' || c == 'O' || c == 'o' || c == 'p' || c == 'Q'
        || c == 'R' || c == 'S' || c == 'W' || c == 'w'
}

/// Whether `arg` is an ssh option that takes the next argument as its value.
pub fn is_value_flag(arg: &str) -> (r: bool)
    ensures
        r == value_flag(arg@),
{
    let chars = chars_of(arg);
    chars.len() == 2 && chars[0] == '-' && is_value_letter(chars[1])
}

/// Whether `arg` asks for `waypipe`.
pub fn is_waypipe_flag(arg: &str) -> (r: bool)
    ensures
        r == waypipe_flag(arg@),
{
    same(arg, "--waypipe") || same(arg, "-wp")
}

/// Whether `arg` begins with a dash.
pub fn is_dashed(arg: &str) -> (r: bool)
    ensures
        r == dashed(arg@),
{
    let chars = chars_of(arg);
    chars.len() > 0 && chars[0] == '-'
}

/// Parses `[--waypipe|-wp] [ssh options] host`.
pub fn parse_ssh_args(args: &[String]) -> (r: Result<Destination, ParseError>)
    ensures
        outcome(r) == parsed(texts(args@)),
{
    let mut use_waypipe: bool = false;
    let mut ssh_args: Vec<String> = Vec::new();
    let mut i: usize = 0;
    let ghost all = texts(args@);
    proof {
        assert(all.skip(0) =~= all);
        assert(texts(ssh_args@) =~= seq![]);
        lemma_extended_nothing(parsed(all));
    }
    while i < args.len()
        invariant
            i <= args@.len(),
            all == texts(args@),
            parsed(all) == extended(texts(ssh_args@), use_waypipe, parsed(all.skip(i as int))),
        decreases args@.len() - i,
    {
        let arg = &args[i];
        let ghost rest = all.skip(i as int);
        let ghost before = ssh_args@;
        proof {
            assert(rest[0] == arg@);
            assert(rest.skip(1) =~= all.skip(i + 1));
            lemma_extended_twice(texts(before), use_waypipe, seq![], true, parsed(rest.skip(1)));
        }
        if is_waypipe_flag(arg.as_str()) {
            proof {
                assert(texts(before) + seq![] =~= texts(before));
            }
            use_waypipe = true;
            i = i + 1;
        } else if same(arg.as_str(), "--") {
            return Err(ParseError::RemoteCommandsUnsupported);
        } else if is_value_flag(arg.as_str()) {
            if i + 1 >= args.len() {
                return Err(ParseError::MissingValueFor(arg.clone()));
            }
            let value = &args[i + 1];
            ssh_args.push(arg.clone());
            ssh_args.push(value.clone());
            proof {
                assert(rest.skip(2) =~= all.skip(i + 2));
                assert(texts(ssh_args@) =~= texts(before) + rest.take(2));
                lemma_extended_twice(
                    texts(before),
                    use_waypipe,
                    rest.take(2),
                    false,
                    parsed(rest.skip(2)),
                );
            }
            i = i + 2;
        } else if is_dashed(arg.as_str()) {
            ssh_args.push(arg.clone());
            proof {
                assert(texts(ssh_args@) =~= texts(before) + rest.take(1));
                lemma_extended_twice(
                    texts(before),
                    use_waypipe,
                    rest.take(1),
                    false,
                    parsed(rest.skip(1)),
                );
            }
            i = i + 1;
        } else {
            if i + 1 < args.len() {
                return Err(ParseError::RemoteCommandsUnsupported);
            }
            proof {
                assert(texts(before) + seq![] =~= texts(before));
            }
            return Ok(Destination { host: arg.clone(), ssh_args, use_waypipe });
        }
    }
    Err(ParseError::MissingHost)
}

/// Nothing put before a parse leaves it as it is.
proof fn lemma_extended_nothing(rest: Parsed)
    ensures
        extended(seq![], false, rest) == rest,
{
    if let Ok(dest) = rest {
        assert(Seq::<Seq<char>>::empty() + dest.ssh_args =~= dest.ssh_args);
    }
}

/// Two pieces put before a parse are one.
proof fn lemma_extended_twice(
    a: Seq<Seq<char>>,
    wa: bool,
    b: Seq<Seq<char>>,
    wb: bool,
    rest: Parsed,
)
    ensures
        extended(a, wa, extended(b, wb, rest)) == extended(a + b, wa || wb, rest),
{
    if let Ok(dest) = rest {
        assert(a + (b + dest.ssh_args) =~= (a + b) + dest.ssh_args);
    }
}

/// The command line without the waypipe flags among its options. A waypipe flag
/// that is the value of an ssh option stays.
pub open spec fn without_waypipe(args: Seq<Seq<char>>) -> Seq<Seq<char>>
    decreases args.len(),
{
    if args.len() == 0 {
        seq![]
    } else if waypipe_flag(args[0]) {
        without_waypipe(args.skip(1))
    } else if value_flag(args[0]) && args.len() > 1 {
        args.take(2) + without_waypipe(args.skip(2))
    } else {
        args.take(1) + without_waypipe(args.skip(1))
    }
}

/// The options are forwarded as they are: the ssh options of a destination,
/// followed by its host, are the command line without its waypipe flags, and
/// `waypipe` is used exactly where there was such a flag.
pub proof fn law_options_are_forwarded(args: Seq<Seq<char>>)
    ensures
        parsed(args) matches Ok(dest) ==> {
            &&& dest.ssh_args.push(dest.host) == without_waypipe(args)
            &&& dest.use_waypipe == (without_waypipe(args) != args)
        },
    decreases args.len(),
{
    if args.len() > 0 {
        if waypipe_flag(args[0]) {
            let rest = args.skip(1);
            law_options_are_forwarded(rest);
            lemma_without_waypipe_shrinks(rest);
            if let Ok(dest) = parsed(rest) {
                assert(seq![] + dest.ssh_args =~= dest.ssh_args);
            }
        } else if args[0] == "--"@ {
        } else if value_flag(args[0]) {
            if args.len() > 1 {
                lemma_forwarded_after(args, 2);
            }
        } else if dashed(args[0]) {
            lemma_forwarded_after(args, 1);
        } else if args.len() == 1 {
            assert(without_waypipe(args.skip(1)) =~= seq![]);
            assert(seq![].push(args[0]) =~= args);
            assert(without_waypipe(args) =~= args);
        }
    }
}

/// The step of [`law_options_are_forwarded`] over `n` forwarded arguments.
proof fn lemma_forwarded_after(args: Seq<Seq<char>>, n: int)
    requires
        0 < n <= args.len(),
        parsed(args) == extended(args.take(n), false, parsed(args.skip(n))),
        without_waypipe(args) == args.take(n) + without_waypipe(args.skip(n)),
    ensures
        parsed(args) matches Ok(dest) ==> {
            &&& dest.ssh_args.push(dest.host) == without_waypipe(args)
            &&& dest.use_waypipe == (without_waypipe(args) != args)
        },
    decreases args.len(), 0int,
{
    let rest = args.skip(n);
    law_options_are_forwarded(rest);
    if let Ok(dest) = parsed(rest) {
        assert((args.take(n) + dest.ssh_args).push(dest.host) =~= args.take(n) + dest.ssh_args.push(
            dest.host,
        ));
        assert(args =~= args.take(n) + rest);
        if without_waypipe(rest) != rest {
            assert(without_waypipe(args).skip(n) =~= without_waypipe(rest));
        }
    }
}

/// Taking flags out never lengthens a command line.
proof fn lemma_without_waypipe_shrinks(args: Seq<Seq<char>>)
    ensures
        without_waypipe(args).len() <= args.len(),
    decreases args.len(),
{
    if args.len() > 0 {
        if waypipe_flag(args[0]) {
            lemma_without_waypipe_shrinks(args.skip(1));
        } else if value_flag(args[0]) && args.len() > 1 {
            lemma_without_waypipe_shrinks(args.skip(2));
        } else {
            lemma_without_waypipe_shrinks(args.skip(1));
        }
    }
}

/// Where a command line names a destination, its last argument is the host, and
/// the host is no option.
pub proof fn law_host_comes_last(args: Seq<Seq<char>>)
    ensures
        parsed(args) matches Ok(dest) ==> {
            &&& args.len() > 0
            &&& args.last() == dest.host
            &&& !dashed(dest.host)
        },
    decreases args.len(),
{
    if args.len() > 0 {
        if waypipe_flag(args[0]) || dashed(args[0]) {
            law_host_comes_last(args.skip(1));
        }
        if value_flag(args[0]) && args.len() > 1 {
            law_host_comes_last(args.skip(2));
        }
    }
}

/// A command after the host is rejected: whatever follows a command line that
/// names a destination makes it an error.
pub proof fn law_command_after_host_is_rejected(args: Seq<Seq<char>>, command: Seq<Seq<char>>)
    requires
        parsed(args) is Ok,
        command.len() > 0,
    ensures
        parsed(args + command) == Parsed::Err(ParseErrorView::RemoteCommandsUnsupported),
    decreases args.len(),
{
    let all = args + command;
    assert(all[0] == args[0]);
    assert(all.skip(1) =~= args.skip(1) + command);
    if waypipe_flag(args[0]) {
        law_command_after_host_is_rejected(args.skip(1), command);
    } else if value_flag(args[0]) {
        assert(all.skip(2) =~= args.skip(2) + command);
        law_command_after_host_is_rejected(args.skip(2), command);
    } else if dashed(args[0]) {
        law_command_after_host_is_rejected(args.skip(1), command);
    }
}

/// A `--` after any options is rejected, whatever follows it.
pub proof fn law_double_dash_is_rejected(options: Seq<Seq<char>>, command: Seq<Seq<char>>)
    requires
        parsed(options) == Parsed::Err(ParseErrorView::MissingHost),
    ensures
        parsed(options.push("--"@) + command) == Parsed::Err(
            ParseErrorView::RemoteCommandsUnsupported,
        ),
    decreases options.len(),
{
    let all = options.push("--"@) + command;
    if options.len() == 0 {
        reveal_strlit("--waypipe");
        reveal_strlit("-wp");
        reveal_strlit("--");
        assert(all[0] == "--"@);
        assert("--"@.len() == 2);
        assert("--waypipe"@.len() == 9);
        assert("-wp"@.len() == 3);
    } else {
        assert(all[0] == options[0]);
        assert(all.skip(1) =~= options.skip(1).push("--"@) + command);
        if waypipe_flag(options[0]) {
            law_double_dash_is_rejected(options.skip(1), command);
        } else if value_flag(options[0]) {
            assert(all.skip(2) =~= options.skip(2).push("--"@) + command);
            law_double_dash_is_rejected(options.skip(2), command);
        } else if dashed(options[0]) {
            law_double_dash_is_rejected(options.skip(1), command);
        }
    }
}

/// What a destination forwards names that destination again: parsing its ssh
/// options followed by its host yields the same options and host.
pub proof fn law_parse_is_stable(args: Seq<Seq<char>>)
    ensures
        parsed(args) matches Ok(dest) ==> parsed(dest.ssh_args.push(dest.host)) == Ok::<
            DestinationView,
            ParseErrorView,
        >(DestinationView { host: dest.host, ssh_args: dest.ssh_args, use_waypipe: false }),
    decreases args.len(),
{
    if let Ok(dest) = parsed(args) {
        law_host_comes_last(args);
        let again = dest.ssh_args.push(dest.host);
        if waypipe_flag(args[0]) {
            law_parse_is_stable(args.skip(1));
            assert(seq![] + dest.ssh_args =~= dest.ssh_args);
            if let Ok(inner) = parsed(args.skip(1)) {
                assert(seq![] + inner.ssh_args =~= inner.ssh_args);
            }
        } else if value_flag(args[0]) {
            law_parse_is_stable(args.skip(2));
            lemma_stable_after(args, 2);
        } else if dashed(args[0]) {
            law_parse_is_stable(args.skip(1));
            lemma_stable_after(args, 1);
        } else {
            reveal_strlit("--waypipe");
            reveal_strlit("-wp");
            reveal_strlit("--");
            assert(again =~= args);
        }
    }
}

/// The step of [`law_parse_is_stable`] over `n` forwarded arguments.
proof fn lemma_stable_after(args: Seq<Seq<char>>, n: int)
    requires
        0 < n <= args.len(),
        !waypipe_flag(args[0]),
        args[0] != "--"@,
        value_flag(args[0]) ==> n == 2,
        !value_flag(args[0]) ==> n == 1 && dashed(args[0]),
        parsed(args.skip(n)) matches Ok(dest) ==> parsed(dest.ssh_args.push(dest.host)) == Ok::<
            DestinationView,
            ParseErrorView,
        >(DestinationView { host: dest.host, ssh_args: dest.ssh_args, use_waypipe: false }),
    ensures
        parsed(args) matches Ok(dest) ==> parsed(dest.ssh_args.push(dest.host)) == Ok::<
            DestinationView,
            ParseErrorView,
        >(DestinationView { host: dest.host, ssh_args: dest.ssh_args, use_waypipe: false }),
{
    if let Ok(inner) = parsed(args.skip(n)) {
        let tail = inner.ssh_args.push(inner.host);
        let again = (args.take(n) + inner.ssh_args).push(inner.host);
        assert(again.skip(n) =~= tail);
        assert(again.take(n) =~= args.take(n));
        assert(again[0] == args[0]);
    }
}

/// An option of a command line.
pub enum Arg {
    /// `--waypipe`, or `-wp` where it is short.
    Waypipe { short: bool },
    /// A dash and a letter, and the value after it.
    Valued(char, Seq<char>),
    /// Any other option.
    Alone(Seq<char>),
}

impl Arg {
    /// The arguments that an option is written as.
    pub open spec fn words(self) -> Seq<Seq<char>> {
        match self {
            Arg::Waypipe { short } => if short {
                seq!["-wp"@]
            } else {
                seq!["--waypipe"@]
            },
            Arg::Valued(letter, value) => seq![seq!['-', letter], value],
            Arg::Alone(text) => seq![text],
        }
    }

    /// What of an option is forwarded.
    pub open spec fn kept(self) -> Seq<Seq<char>> {
        match self {
            Arg::Waypipe { .. } => seq![],
            Arg::Valued(letter, value) => seq![seq!['-', letter], value],
            Arg::Alone(text) => seq![text],
        }
    }

    /// Whether an option is written as its kind asks for: the letters that take a
    /// value are those of `ssh`, and no other option is one of them.
    pub open spec fn well_written(self) -> bool {
        match self {
            Arg::Waypipe { .. } => true,
            Arg::Valued(letter, _) => "BbcDEeFIiJlmOopQRSWw"@.contains(letter),
            Arg::Alone(text) => {
                &&& text.len() > 0
                &&& text[0] == '-'
                &&& text != "--"@
                &&& text != "--waypipe"@
                &&& text != "-wp"@
                &&& text.len() == 2 ==> !"BbcDEeFIiJlmOopQRSWw"@.contains(text[1])
            },
        }
    }
}

/// The arguments that options are written as.
pub open spec fn words_of(args: Seq<Arg>) -> Seq<Seq<char>>
    decreases args.len(),
{
    if args.len() == 0 {
        seq![]
    } else {
        args[0].words() + words_of(args.skip(1))
    }
}

/// What of options is forwarded.
pub open spec fn kept_of(args: Seq<Arg>) -> Seq<Seq<char>>
    decreases args.len(),
{
    if args.len() == 0 {
        seq![]
    } else {
        args[0].kept() + kept_of(args.skip(1))
    }
}

/// Whether any option asks for `waypipe`.
pub open spec fn asks_for_waypipe(args: Seq<Arg>) -> bool {
    exists|i: int| 0 <= i < args.len() && #[trigger] args[i] is Waypipe
}

/// A command line is read as it was written: the options in their order, those
/// with a value together with it, the waypipe flags kept back, and the host last.
/// Options alone lack a host, one that lacks its value is named, and whatever
/// follows `--` or the host is refused.
pub proof fn law_command_line_is_read_back(
    args: Seq<Arg>,
    host: Seq<char>,
    letter: char,
    more: Seq<Seq<char>>,
)
    requires
        forall|i: int| 0 <= i < args.len() ==> (#[trigger] args[i]).well_written(),
        host.len() == 0 || host[0] != '-',
        "BbcDEeFIiJlmOopQRSWw"@.contains(letter),
    ensures
        parsed(words_of(args).push(host)) == Parsed::Ok(
            DestinationView {
                host,
                ssh_args: kept_of(args),
                use_waypipe: asks_for_waypipe(args),
            },
        ),
        parsed(words_of(args)) == Parsed::Err(ParseErrorView::MissingHost),
        parsed(words_of(args).push(seq!['-', letter])) == Parsed::Err(
            ParseErrorView::MissingValueFor(seq!['-', letter]),
        ),
        parsed(words_of(args).push("--"@) + more) == Parsed::Err(
            ParseErrorView::RemoteCommandsUnsupported,
        ),
        more.len() > 0 ==> parsed(words_of(args).push(host) + more) == Parsed::Err(
            ParseErrorView::RemoteCommandsUnsupported,
        ),
{
    let words = words_of(args);
    reveal_strlit("--waypipe");
    reveal_strlit("-wp");
    reveal_strlit("--");
    assert("--"@.len() == 2);
    assert("--"@[0] == '-');
    assert("-wp"@.len() == 3 && "-wp"@[0] == '-');
    assert("--waypipe"@.len() == 9 && "--waypipe"@[0] == '-');
    lemma_read_back(args, seq![host]);
    assert(words.push(host) =~= words + seq![host]);
    assert(kept_of(args) + Seq::<Seq<char>>::empty() =~= kept_of(args));
    lemma_read_back(args, seq![]);
    assert(words + Seq::<Seq<char>>::empty() =~= words);
    let flag = seq!['-', letter];
    lemma_value_letters(letter);
    lemma_read_back(args, seq![flag]);
    assert(words.push(flag) =~= words + seq![flag]);
    assert(flag != "--"@) by {
        lemma_value_letters('-');
        reveal_strlit("BbcDEeFIiJlmOopQRSWw");
        assert("--"@[1] == '-');
        assert(flag[1] == letter);
    }
    let dashes = seq!["--"@] + more;
    lemma_read_back(args, dashes);
    assert(words.push("--"@) + more =~= words + dashes);
    assert(dashes[0] == "--"@);
    let late = seq![host] + more;
    lemma_read_back(args, late);
    assert(words.push(host) + more =~= words + late);
    assert(late[0] == host);
}

/// The letters that take a value.
pub proof fn lemma_value_letters(c: char)
    ensures
        value_letter(c) <==> "BbcDEeFIiJlmOopQRSWw"@.contains(c),
{
    reveal_strlit("BbcDEeFIiJlmOopQRSWw");
    let all = "BbcDEeFIiJlmOopQRSWw"@;
    assert(all.len() == 20);
    assert(all[0] == 'B' && all[1] == 'b' && all[2] == 'c' && all[3] == 'D' && all[4] == 'E');
    assert(all[5] == 'e' && all[6] == 'F' && all[7] == 'I' && all[8] == 'i' && all[9] == 'J');
    assert(all[10] == 'l' && all[11] == 'm' && all[12] == 'O' && all[13] == 'o' && all[14] == 'p');
    assert(all[15] == 'Q' && all[16] == 'R' && all[17] == 'S' && all[18] == 'W' && all[19] == 'w');
}

/// Options before the rest of a command line.
proof fn lemma_read_back(args: Seq<Arg>, rest: Seq<Seq<char>>)
    requires
        forall|i: int| 0 <= i < args.len() ==> (#[trigger] args[i]).well_written(),
    ensures
        parsed(words_of(args) + rest) == extended(
            kept_of(args),
            asks_for_waypipe(args),
            parsed(rest),
        ),
    decreases args.len(),
{
    let all = words_of(args) + rest;
    if args.len() == 0 {
        assert(all =~= rest);
        lemma_extended_nothing(parsed(rest));
    } else {
        let later = args.skip(1);
        assert forall|i: int| 0 <= i < later.len() implies (#[trigger] later[i]).well_written() by {
            assert(later[i] == args[i + 1]);
        }
        lemma_read_back(later, rest);
        let tail = words_of(later) + rest;
        let first = args[0];
        assert(first.well_written());
        assert(all =~= first.words() + tail);
        lemma_extended_twice(
            first.kept(),
            first is Waypipe,
            kept_of(later),
            asks_for_waypipe(later),
            parsed(rest),
        );
        assert(asks_for_waypipe(args) == (first is Waypipe || asks_for_waypipe(later))) by {
            if asks_for_waypipe(later) {
                let i = choose|i: int| 0 <= i < later.len() && #[trigger] later[i] is Waypipe;
                assert(args[i + 1] == later[i]);
            }
            if asks_for_waypipe(args) && !(first is Waypipe) {
                let i = choose|i: int| 0 <= i < args.len() && #[trigger] args[i] is Waypipe;
                assert(later[i - 1] == args[i]);
            }
        }
        reveal_strlit("--waypipe");
        reveal_strlit("-wp");
        reveal_strlit("--");
        assert("--"@.len() == 2);
        assert("-wp"@.len() == 3);
        assert("--waypipe"@.len() == 9);
        match first {
            Arg::Waypipe { short } => {
                assert(all.skip(1) =~= tail);
                assert(all[0] == first.words()[0]);
                assert(first.kept() =~= seq![]);
            },
            Arg::Valued(letter, value) => {
                lemma_value_letters(letter);
                let flag = seq!['-', letter];
                assert(all[0] == flag);
                assert("--"@[1] == '-');
                assert(flag != "--"@) by {
                    reveal_strlit("BbcDEeFIiJlmOopQRSWw");
                    assert(flag[1] == letter);
                }
                assert(all.skip(2) =~= tail);
                assert(all.take(2) =~= first.kept());
            },
            Arg::Alone(text) => {
                assert(all[0] == text);
                if text.len() == 2 {
                    lemma_value_letters(text[1]);
                }
                assert(all.skip(1) =~= tail);
                assert(all.take(1) =~= first.kept());
            },
        }
    }
}

} // verus!
