//! What command lines ask for and which configuration is read, told by command
//! lines and places that are put together from known parts.

use vstd::prelude::*;

use crate::cli::{candidates, config_flag_at, help_asked, planned, planned_with, PlanView};
use crate::config::{config_found, first_present, usual_configs, ConfigErrorView, PlacesView};
use crate::destination::{
    asks_for_waypipe, kept_of, law_command_line_is_read_back, lemma_value_letters, words_of, Arg,
    DestinationView, ParseErrorView,
};
use crate::paths::path_under;
use crate::profile::free_of;
use crate::text_laws::{joined_by, law_pieces_are_read_back};

verus! {

/// Whether any option asks how the tool is used.
pub open spec fn asks_for_help(args: Seq<Arg>) -> bool {
    exists|i: int|
        0 <= i < args.len() && (#[trigger] args[i] == Arg::Alone("--help"@) || args[i]
            == Arg::Alone("-h"@))
}

/// A command line is read as it was written: `clean` first where a clean-up is
/// asked for, then the options, then the host. A help flag among the options is
/// answered whatever else is asked for. A host with nothing but options before it
/// runs, with the configuration that was named.
pub proof fn law_plan_is_read_back(
    config: Option<Seq<char>>,
    clean: bool,
    args: Seq<Arg>,
    host: Seq<char>,
)
    requires
        forall|i: int| 0 <= i < args.len() ==> (#[trigger] args[i]).well_written(),
        host.len() == 0 || host[0] != '-',
        !clean && args.len() == 0 ==> host != "clean"@,
    ensures
        planned_with(
            config,
            (if clean {
                seq!["clean"@]
            } else {
                seq![]
            }) + words_of(args).push(host),
        ) == (if asks_for_help(args) {
            PlanView::Help
        } else {
            PlanView::Run {
                config,
                clean,
                dest: DestinationView {
                    host,
                    ssh_args: kept_of(args),
                    use_waypipe: asks_for_waypipe(args),
                },
            }
        }),
{
    let options = words_of(args).push(host);
    let first = if clean {
        seq!["clean"@]
    } else {
        seq![]
    };
    let words = first + options;
    lemma_letter_i();
    law_command_line_is_read_back(args, host, 'i', seq![host]);
    lemma_dashes();
    lemma_help(args, seq![host]);
    assert(options =~= words_of(args) + seq![host]);
    assert(!help_asked(seq![host])) by {
        assert(seq![host][0] == host);
    }
    if clean {
        assert(words.skip(1) =~= options);
    } else {
        assert(words =~= options);
        if args.len() > 0 {
            lemma_first_word(args);
            assert(words[0] == words_of(args)[0]);
        } else {
            assert(words[0] == host);
        }
    }
}

/// Options without a host are refused, unless they ask for help, and nothing at
/// all is no usage.
pub proof fn law_plan_needs_a_host(config: Option<Seq<char>>, clean: bool, args: Seq<Arg>)
    requires
        forall|i: int| 0 <= i < args.len() ==> (#[trigger] args[i]).well_written(),
    ensures
        planned_with(
            config,
            (if clean {
                seq!["clean"@]
            } else {
                seq![]
            }) + words_of(args),
        ) == (if args.len() == 0 {
            PlanView::BadUsage
        } else if asks_for_help(args) {
            PlanView::Help
        } else {
            PlanView::Rejected(ParseErrorView::MissingHost)
        }),
{
    let options = words_of(args);
    let first = if clean {
        seq!["clean"@]
    } else {
        seq![]
    };
    let words = first + options;
    lemma_letter_i();
    law_command_line_is_read_back(args, seq![], 'i', seq![seq![]]);
    lemma_dashes();
    lemma_help(args, seq![]);
    assert(options + Seq::<Seq<char>>::empty() =~= options);
    if clean {
        assert(words.skip(1) =~= options);
    } else {
        assert(words =~= options);
    }
    if args.len() > 0 {
        lemma_first_word(args);
        if !clean {
            assert(words[0] == options[0]);
        }
    }
}

/// A command line that cannot be made out is refused with the reason, unless a
/// help flag stands among its options: one that lacks the value of an option, one
/// with `--`, and one with anything after the host.
pub proof fn law_plan_is_refused(
    config: Option<Seq<char>>,
    clean: bool,
    args: Seq<Arg>,
    host: Seq<char>,
    letter: char,
    more: Seq<Seq<char>>,
)
    requires
        forall|i: int| 0 <= i < args.len() ==> (#[trigger] args[i]).well_written(),
        host.len() == 0 || host[0] != '-',
        "BbcDEeFIiJlmOopQRSWw"@.contains(letter),
        !clean && args.len() == 0 ==> host != "clean"@,
    ensures
        ({
            let first = if clean {
                seq!["clean"@]
            } else {
                seq![]
            };
            let refused = |err: ParseErrorView|
                if asks_for_help(args) {
                    PlanView::Help
                } else {
                    PlanView::Rejected(err)
                };
            &&& planned_with(config, first + words_of(args).push(seq!['-', letter])) == refused(
                ParseErrorView::MissingValueFor(seq!['-', letter]),
            )
            &&& planned_with(config, first + (words_of(args).push("--"@) + more)) == refused(
                ParseErrorView::RemoteCommandsUnsupported,
            )
            &&& more.len() > 0 ==> planned_with(config, first + (words_of(args).push(host) + more))
                == refused(ParseErrorView::RemoteCommandsUnsupported)
        }),
{
    let first = if clean {
        seq!["clean"@]
    } else {
        seq![]
    };
    let words = words_of(args);
    let flag = seq!['-', letter];
    lemma_dashes();
    law_command_line_is_read_back(args, host, letter, more);
    lemma_value_letters(letter);
    lemma_help(args, seq![flag]);
    assert(words.push(flag) =~= words + seq![flag]);
    assert(!help_asked(seq![flag])) by {
        assert(seq![flag][0] == flag);
        assert(flag[1] == letter);
    }
    let dashes = seq!["--"@] + more;
    lemma_help(args, dashes);
    assert(words.push("--"@) + more =~= words + dashes);
    assert(dashes[0] == "--"@);
    let late = seq![host] + more;
    lemma_help(args, late);
    assert(words.push(host) + more =~= words + late);
    assert(late[0] == host);
    let (a, b, c) = (words + seq![flag], words + dashes, words + late);
    assert((seq!["clean"@] + a).skip(1) =~= a);
    assert((seq!["clean"@] + b).skip(1) =~= b);
    assert((seq!["clean"@] + c).skip(1) =~= c);
    assert(Seq::<Seq<char>>::empty() + a =~= a);
    assert(Seq::<Seq<char>>::empty() + b =~= b);
    assert(Seq::<Seq<char>>::empty() + c =~= c);
    if args.len() > 0 {
        lemma_first_word(args);
        assert(a[0] == words[0] && b[0] == words[0] && c[0] == words[0]);
    } else {
        assert(a[0] == flag && b[0] == "--"@ && c[0] == host);
    }
}

/// Without `--config` the arguments are read as they are, and `--config` at the
/// end lacks its value.
pub proof fn law_config_needs_a_value(args: Seq<Seq<char>>)
    requires
        !args.contains("--config"@),
    ensures
        planned(args) == planned_with(None, args),
        planned(args.push("--config"@)) == PlanView::BadUsage,
{
    lemma_no_config(args, seq![]);
    assert(args + Seq::<Seq<char>>::empty() =~= args);
    lemma_no_config(args, seq!["--config"@]);
    assert(args.push("--config"@) =~= args + seq!["--config"@]);
}

proof fn lemma_no_config(args: Seq<Seq<char>>, rest: Seq<Seq<char>>)
    requires
        !args.contains("--config"@),
        rest.len() > 0 ==> rest[0] == "--config"@,
    ensures
        config_flag_at(args + rest) == args.len(),
    decreases args.len(),
{
    let all = args + rest;
    if args.len() == 0 {
        assert(all =~= rest);
    } else {
        assert(args.contains(args[0]));
        let less = args.skip(1);
        assert forall|i: int| 0 <= i < less.len() implies less[i] != "--config"@ by {
            assert(args.contains(args[i + 1]));
        }
        lemma_no_config(less, rest);
        assert(all.skip(1) =~= less + rest);
        assert(all[0] == args[0]);
    }
}

/// What is said of a command line that cannot be made out, and the exit code it
/// comes to: only a call for help succeeds.
pub proof fn law_complaints(
    flag: Seq<char>,
    config: Option<Seq<char>>,
    clean: bool,
    dest: DestinationView,
)
    ensures
        PlanView::BadUsage.complaint() == seq![
            "usage: nomad [--waypipe|-wp] [ssh options] host\n       nomad clean [ssh options] host"@,
        ],
        PlanView::Rejected(ParseErrorView::MissingHost).complaint() == seq![
            "nomad: "@ + "usage: nomad [--waypipe|-wp] [ssh options] host"@,
            "usage: nomad [--waypipe|-wp] [ssh options] host\n       nomad clean [ssh options] host"@,
        ],
        PlanView::Rejected(ParseErrorView::RemoteCommandsUnsupported).complaint() == seq![
            "nomad: "@
                + "remote commands are not supported; this always launches your dotfiles shell"@,
        ],
        PlanView::Rejected(ParseErrorView::MissingValueFor(flag)).complaint() == seq![
            "nomad: "@ + ("missing value for "@ + flag),
        ],
        PlanView::Help.complaint().len() == 0,
        (PlanView::Run { config, clean, dest }).complaint().len() == 0,
        PlanView::Help.early_code() == Some(0u8),
        PlanView::BadUsage.early_code() == Some(1u8),
        PlanView::Rejected(ParseErrorView::MissingHost).early_code() == Some(1u8),
        PlanView::Rejected(ParseErrorView::RemoteCommandsUnsupported).early_code() == Some(1u8),
        PlanView::Rejected(ParseErrorView::MissingValueFor(flag)).early_code() == Some(1u8),
        (PlanView::Run { config, clean, dest }).early_code() is None,
{
}

/// A program is looked for in every directory of the search path, in their
/// order.
pub proof fn law_every_directory_is_searched(dirs: Seq<Seq<char>>, bin: Seq<char>)
    requires
        dirs.len() > 0,
        forall|i: int| 0 <= i < dirs.len() ==> free_of(#[trigger] dirs[i], ':'),
    ensures
        candidates(joined_by(dirs, ":"@), bin) == Seq::new(
            dirs.len(),
            |i: int| path_under(dirs[i], bin),
        ),
{
    reveal_strlit(":");
    assert(":"@ =~= seq![':']);
    law_pieces_are_read_back(dirs, ':');
    assert(candidates(joined_by(dirs, ":"@), bin) =~= Seq::new(
        dirs.len(),
        |i: int| path_under(dirs[i], bin),
    ));
}

proof fn lemma_letter_i()
    ensures
        "BbcDEeFIiJlmOopQRSWw"@.contains('i'),
{
    lemma_value_letters('i');
}

/// The words that decide are told apart.
proof fn lemma_dashes()
    ensures
        "--"@.len() == 2 && "--"@[0] == '-' && "--"@[1] == '-',
        "-h"@.len() == 2 && "-h"@[0] == '-' && "-h"@[1] == 'h',
        "--help"@.len() == 6 && "--help"@[0] == '-',
        "-wp"@.len() == 3 && "-wp"@[0] == '-',
        "--waypipe"@.len() == 9 && "--waypipe"@[0] == '-',
        "clean"@.len() == 5 && "clean"@[0] == 'c',
{
    reveal_strlit("--");
    reveal_strlit("-h");
    reveal_strlit("--help");
    reveal_strlit("-wp");
    reveal_strlit("--waypipe");
    reveal_strlit("clean");
}

/// The first word of options begins with a dash.
proof fn lemma_first_word(args: Seq<Arg>)
    requires
        args.len() > 0,
        args[0].well_written(),
    ensures
        words_of(args).len() > 0,
        words_of(args)[0].len() > 0,
        words_of(args)[0][0] == '-',
        words_of(args)[0] != "clean"@,
{
    lemma_dashes();
    let words = words_of(args);
    assert(words[0] == args[0].words()[0]);
}

/// A help flag is found among options or after them.
proof fn lemma_help(args: Seq<Arg>, rest: Seq<Seq<char>>)
    requires
        forall|i: int| 0 <= i < args.len() ==> (#[trigger] args[i]).well_written(),
    ensures
        help_asked(words_of(args) + rest) == (asks_for_help(args) || help_asked(rest)),
    decreases args.len(),
{
    let all = words_of(args) + rest;
    if args.len() == 0 {
        assert(all =~= rest);
    } else {
        let less = args.skip(1);
        assert forall|i: int| 0 <= i < less.len() implies (#[trigger] less[i]).well_written() by {
            assert(less[i] == args[i + 1]);
        }
        lemma_help(less, rest);
        lemma_dashes();
        let later = words_of(less) + rest;
        let first = args[0];
        assert(first.well_written());
        assert(all =~= first.words() + later);
        assert(asks_for_help(args) == (first == Arg::Alone("--help"@) || first == Arg::Alone(
            "-h"@,
        ) || asks_for_help(less))) by {
            if asks_for_help(less) {
                let i = choose|i: int|
                    0 <= i < less.len() && (#[trigger] less[i] == Arg::Alone("--help"@) || less[i]
                        == Arg::Alone("-h"@));
                assert(args[i + 1] == less[i]);
            }
            if asks_for_help(args) {
                let i = choose|i: int|
                    0 <= i < args.len() && (#[trigger] args[i] == Arg::Alone("--help"@) || args[i]
                        == Arg::Alone("-h"@));
                if i > 0 {
                    assert(less[i - 1] == args[i]);
                }
            }
        }
        match first {
            Arg::Waypipe { .. } => {
                assert(all.skip(1) =~= later);
            },
            Arg::Valued(letter, value) => {
                let flag = seq!['-', letter];
                lemma_value_letters(letter);
                assert(all[0] == flag);
                assert(flag[1] == letter);
                assert(flag != "--"@ && flag != "-h"@);
                assert(all.skip(2) =~= later);
            },
            Arg::Alone(text) => {
                if text.len() == 2 {
                    lemma_value_letters(text[1]);
                }
                assert(all[0] == text);
                assert(all.skip(1) =~= later);
            },
        }
    }
}

/// The configuration that is named on the command line comes first, whatever the
/// environment says. Then comes one that `NOMAD_CONFIG` names, where that is not
/// empty. Neither has to be there.
pub proof fn law_named_config_comes_first(
    path: Seq<char>,
    places: PlacesView,
    is_file: spec_fn(Seq<char>) -> bool,
)
    ensures
        config_found(Some(path), places, is_file) == Ok::<Seq<char>, ConfigErrorView>(path),
        places.nomad_config == Some(path) && path.len() > 0 ==> config_found(None, places, is_file)
            == Ok::<Seq<char>, ConfigErrorView>(path),
{
}

/// Where none is named, the configuration below `$XDG_CONFIG_HOME` is taken if it
/// is there, then the one below the home directory, and otherwise both are named
/// as looked for, as far as these places are known.
pub proof fn law_usual_configs_are_looked_for(
    places: PlacesView,
    is_file: spec_fn(Seq<char>) -> bool,
)
    requires
        places.nomad_config is None || places.nomad_config == Some(Seq::<char>::empty()),
    ensures
        ({
            let outcome = config_found(None, places, is_file);
            let below_config = |dir: Seq<char>| path_under(dir, "nomad/config.toml"@);
            let below_home = |dir: Seq<char>| path_under(dir, ".config/nomad/config.toml"@);
            match (places.config_home, places.home) {
                (Some(c), Some(h)) => outcome == (if is_file(below_config(c)) {
                    Ok::<Seq<char>, ConfigErrorView>(below_config(c))
                } else if is_file(below_home(h)) {
                    Ok(below_home(h))
                } else {
                    Err(ConfigErrorView::NotFound { tried: seq![below_config(c), below_home(h)] })
                }),
                (Some(c), None) => outcome == (if is_file(below_config(c)) {
                    Ok::<Seq<char>, ConfigErrorView>(below_config(c))
                } else {
                    Err(ConfigErrorView::NotFound { tried: seq![below_config(c)] })
                }),
                (None, Some(h)) => outcome == (if is_file(below_home(h)) {
                    Ok::<Seq<char>, ConfigErrorView>(below_home(h))
                } else {
                    Err(ConfigErrorView::NotFound { tried: seq![below_home(h)] })
                }),
                (None, None) => outcome == Err::<Seq<char>, ConfigErrorView>(
                    ConfigErrorView::NotFound { tried: seq![] },
                ),
            }
        }),
{
    reveal_with_fuel(first_present, 3);
    let usual = usual_configs(places);
    match (places.config_home, places.home) {
        (Some(c), Some(h)) => assert(usual =~= seq![
            path_under(c, "nomad/config.toml"@),
            path_under(h, ".config/nomad/config.toml"@),
        ]),
        (Some(c), None) => assert(usual =~= seq![path_under(c, "nomad/config.toml"@)]),
        (None, Some(h)) => assert(usual =~= seq![path_under(h, ".config/nomad/config.toml"@)]),
        (None, None) => assert(usual =~= seq![]),
    }
}

} // verus!
