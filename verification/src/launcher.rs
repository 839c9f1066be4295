//! What a launcher holds, line by line.

use vstd::prelude::*;

use crate::nomad::{
    export_lines, launcher_text, launcher_vars, law_launcher_quotes_what_it_fills_in, mkdir_lines,
    rendered_lines,
};
use crate::profile::{filled_text, fragments_of, ProfileView};
use crate::text_laws::{concat, lemma_concat, lemma_concat_one};
use crate::text_map::Pair;

verus! {

/// A template of a launcher, with the directory and the shell filled in for
/// `{remote_root}` and `{shell}`.
pub open spec fn filled_in(template: Seq<char>, remote_root: Seq<char>, shell: Seq<char>) -> Seq<
    char,
> {
    filled_text(
        fragments_of(template),
        seq![("remote_root"@, remote_root), ("shell"@, shell)],
    )
}

/// One line for each pair of the environment.
pub open spec fn exports(environment: Seq<Pair>, remote_root: Seq<char>, shell: Seq<char>) -> Seq<
    Seq<char>,
> {
    Seq::new(
        environment.len(),
        |i: int|
            "export "@ + environment[i].0 + "="@ + filled_in(environment[i].1, remote_root, shell)
                + "\n"@,
    )
}

/// One line for each required directory.
pub open spec fn mkdirs(dirs: Seq<Seq<char>>, remote_root: Seq<char>, shell: Seq<char>) -> Seq<
    Seq<char>,
> {
    Seq::new(
        dirs.len(),
        |i: int| "mkdir -p "@ + filled_in(dirs[i], remote_root, shell) + " || exit 1\n"@,
    )
}

/// One line for each line of a shell.
pub open spec fn shell_lines(lines: Seq<Seq<char>>, remote_root: Seq<char>, shell: Seq<char>) -> Seq<
    Seq<char>,
> {
    Seq::new(lines.len(), |i: int| filled_in(lines[i], remote_root, shell) + "\n"@)
}

/// A launcher is made of these lines: the name of the interpreter; an export of
/// each pair of the environment, in its order; a line for each required
/// directory, in its order; each line of the shell, those for zsh where it is
/// named zsh and those for bash otherwise; and the lines that hand the status on.
pub proof fn law_launcher_is_made_of_its_lines(
    profile: ProfileView,
    remote_root: Seq<char>,
    shell: Seq<char>,
    shell_name: Seq<char>,
)
    ensures
        shell_name == "zsh"@ ==> launcher_text(profile, remote_root, shell, shell_name) == concat(
            seq!["#!/usr/bin/env sh\n"@] + exports(profile.environment, remote_root, shell)
                + mkdirs(profile.required_dirs, remote_root, shell) + shell_lines(
                profile.zsh,
                remote_root,
                shell,
            ) + seq!["nomad_status=$?\n"@, "exit $nomad_status\n"@],
        ),
        shell_name != "zsh"@ ==> launcher_text(profile, remote_root, shell, shell_name) == concat(
            seq!["#!/usr/bin/env sh\n"@] + exports(profile.environment, remote_root, shell)
                + mkdirs(profile.required_dirs, remote_root, shell) + shell_lines(
                profile.bash,
                remote_root,
                shell,
            ) + seq!["nomad_status=$?\n"@, "exit $nomad_status\n"@],
        ),
{
    let lines = if shell_name == "zsh"@ {
        profile.zsh
    } else {
        profile.bash
    };
    let first = seq!["#!/usr/bin/env sh\n"@];
    let env = exports(profile.environment, remote_root, shell);
    let dirs = mkdirs(profile.required_dirs, remote_root, shell);
    let own = shell_lines(lines, remote_root, shell);
    let (a, b) = ("nomad_status=$?\n"@, "exit $nomad_status\n"@);
    let end = seq![a, b];
    lemma_exports(profile.environment, remote_root, shell);
    lemma_mkdirs(profile.required_dirs, remote_root, shell);
    lemma_shell_lines(lines, remote_root, shell);
    lemma_concat(first + env + dirs + own, end);
    lemma_concat(first + env + dirs, own);
    lemma_concat(first + env, dirs);
    lemma_concat(first, env);
    lemma_concat_one("#!/usr/bin/env sh\n"@);
    assert(end =~= seq![a] + seq![b]);
    lemma_concat(seq![a], seq![b]);
    lemma_concat_one(a);
    lemma_concat_one(b);
    reveal_strlit("nomad_status=$?\n");
    reveal_strlit("exit $nomad_status\n");
    reveal_strlit("nomad_status=$?\nexit $nomad_status\n");
    assert("nomad_status=$?\nexit $nomad_status\n"@ =~= a + b);
}

/// The launchers of zsh and bash differ in nothing but the lines of the two
/// shells: what stands before those lines and what stands after them is the
/// same.
pub proof fn law_shells_share_the_rest_of_the_launcher(
    profile: ProfileView,
    remote_root: Seq<char>,
    shell: Seq<char>,
    name: Seq<char>,
)
    requires
        name != "zsh"@,
    ensures
        exists|head: Seq<char>, tail: Seq<char>|
            {
                &&& launcher_text(profile, remote_root, shell, "zsh"@) == #[trigger] (head
                    + concat(shell_lines(profile.zsh, remote_root, shell)) + tail)
                &&& launcher_text(profile, remote_root, shell, name) == head + concat(
                    shell_lines(profile.bash, remote_root, shell),
                ) + tail
            },
        profile.zsh == profile.bash ==> launcher_text(profile, remote_root, shell, name)
            == launcher_text(profile, remote_root, shell, "zsh"@),
{
    law_launcher_is_made_of_its_lines(profile, remote_root, shell, name);
    law_launcher_is_made_of_its_lines(profile, remote_root, shell, "zsh"@);
    let before = seq!["#!/usr/bin/env sh\n"@] + exports(profile.environment, remote_root, shell)
        + mkdirs(profile.required_dirs, remote_root, shell);
    let end = seq!["nomad_status=$?\n"@, "exit $nomad_status\n"@];
    let zsh = shell_lines(profile.zsh, remote_root, shell);
    let bash = shell_lines(profile.bash, remote_root, shell);
    lemma_concat(before + zsh, end);
    lemma_concat(before, zsh);
    lemma_concat(before + bash, end);
    lemma_concat(before, bash);
    let (head, tail) = (concat(before), concat(end));
    assert(launcher_text(profile, remote_root, shell, "zsh"@) == head + concat(zsh) + tail);
}

proof fn lemma_exports(environment: Seq<Pair>, remote_root: Seq<char>, shell: Seq<char>)
    ensures
        export_lines(environment, launcher_vars(remote_root, shell)) == concat(
            exports(environment, remote_root, shell),
        ),
    decreases environment.len(),
{
    let all = exports(environment, remote_root, shell);
    if environment.len() > 0 {
        let less = environment.drop_last();
        let (key, template) = environment.last();
        lemma_exports(less, remote_root, shell);
        law_launcher_quotes_what_it_fills_in(template, remote_root, shell);
        assert(all =~= exports(less, remote_root, shell) + seq![all.last()]);
        lemma_concat(exports(less, remote_root, shell), seq![all.last()]);
        lemma_concat_one(all.last());
        let before = concat(exports(less, remote_root, shell));
        let value = filled_in(template, remote_root, shell);
        assert(before + "export "@ + key + "="@ + value + "\n"@ =~= before + ("export "@ + key
            + "="@ + value + "\n"@));
    }
}

proof fn lemma_mkdirs(dirs: Seq<Seq<char>>, remote_root: Seq<char>, shell: Seq<char>)
    ensures
        mkdir_lines(dirs, launcher_vars(remote_root, shell)) == concat(
            mkdirs(dirs, remote_root, shell),
        ),
    decreases dirs.len(),
{
    let all = mkdirs(dirs, remote_root, shell);
    if dirs.len() > 0 {
        let less = dirs.drop_last();
        lemma_mkdirs(less, remote_root, shell);
        law_launcher_quotes_what_it_fills_in(dirs.last(), remote_root, shell);
        assert(all =~= mkdirs(less, remote_root, shell) + seq![all.last()]);
        lemma_concat(mkdirs(less, remote_root, shell), seq![all.last()]);
        lemma_concat_one(all.last());
        let before = concat(mkdirs(less, remote_root, shell));
        let dir = filled_in(dirs.last(), remote_root, shell);
        assert(before + "mkdir -p "@ + dir + " || exit 1\n"@ =~= before + ("mkdir -p "@ + dir
            + " || exit 1\n"@));
    }
}

proof fn lemma_shell_lines(lines: Seq<Seq<char>>, remote_root: Seq<char>, shell: Seq<char>)
    ensures
        rendered_lines(lines, launcher_vars(remote_root, shell)) == concat(
            shell_lines(lines, remote_root, shell),
        ),
    decreases lines.len(),
{
    let all = shell_lines(lines, remote_root, shell);
    if lines.len() > 0 {
        let less = lines.drop_last();
        lemma_shell_lines(less, remote_root, shell);
        law_launcher_quotes_what_it_fills_in(lines.last(), remote_root, shell);
        assert(all =~= shell_lines(less, remote_root, shell) + seq![all.last()]);
        lemma_concat(shell_lines(less, remote_root, shell), seq![all.last()]);
        lemma_concat_one(all.last());
        let before = concat(shell_lines(less, remote_root, shell));
        let line = filled_in(lines.last(), remote_root, shell);
        assert(before + line + "\n"@ =~= before + (line + "\n"@));
    }
}

} // verus!
