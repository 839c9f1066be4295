//! What a POSIX shell on the remote host makes of the commands that it is given:
//! the words that it reads in them, and what the programs do to its files.
//!
//! This is a model of the remote host. Commands that a session does not send are
//! not understood, and double quotes are left in the one word that has them.

use vstd::prelude::*;

use crate::clean::{marker_command, remove_command};
use crate::prepare::{create_command, probe_command, shell_command};
use crate::text::replaced;
use crate::transport::{extract_command, quoted, write_command};

verus! {

/// A word of a command. It is bare where no part of it was quoted or escaped, so
/// that an operator can be told from a word that reads like one.
#[verifier::ext_equal]
pub struct Word {
    pub text: Seq<char>,
    pub bare: bool,
}

/// A word without quotes.
pub open spec fn bare(text: Seq<char>) -> Word {
    Word { text, bare: true }
}

/// A word with quotes.
pub open spec fn literal(text: Seq<char>) -> Word {
    Word { text, bare: false }
}

/// The word that is being read, with a character after it.
pub open spec fn with_char(word: Option<Word>, c: char, bare: bool) -> Word {
    match word {
        Some(w) => Word { text: w.text.push(c), bare: w.bare && bare },
        None => Word { text: seq![c], bare },
    }
}

/// The word that is being read, with quotes in it.
pub open spec fn with_quote(word: Option<Word>) -> Word {
    match word {
        Some(w) => literal(w.text),
        None => literal(seq![]),
    }
}

/// The words of `s`, which is entered inside single quotes or outside of them,
/// with the word that is being read there. Blanks outside of quotes end a word.
pub open spec fn words_from(s: Seq<char>, word: Option<Word>, inside: bool) -> Option<Seq<Word>>
    decreases s.len(),
{
    if s.len() == 0 {
        if inside {
            None
        } else {
            match word {
                Some(w) => Some(seq![w]),
                None => Some(seq![]),
            }
        }
    } else if inside {
        if s[0] == '\'' {
            words_from(s.skip(1), word, false)
        } else {
            words_from(s.skip(1), Some(with_char(word, s[0], false)), true)
        }
    } else if s[0] == '\'' {
        words_from(s.skip(1), Some(with_quote(word)), true)
    } else if s[0] == '\\' && s.len() > 1 && s[1] != '\n' {
        words_from(s.skip(2), Some(with_char(word, s[1], false)), false)
    } else if s[0] == ' ' {
        match word {
            None => words_from(s.skip(1), None, false),
            Some(w) => after_word(w, words_from(s.skip(1), None, false)),
        }
    } else {
        words_from(s.skip(1), Some(with_char(word, s[0], true)), false)
    }
}

/// A word before others.
pub open spec fn after_word(word: Word, rest: Option<Seq<Word>>) -> Option<Seq<Word>> {
    match rest {
        Some(words) => Some(seq![word] + words),
        None => None,
    }
}

/// The words of a command.
pub open spec fn command_words(command: Seq<char>) -> Option<Seq<Word>> {
    words_from(command, None, false)
}

/// The files of the remote host.
#[verifier::ext_equal]
pub struct Remote {
    pub dirs: Set<Seq<char>>,
    pub files: Map<Seq<char>, Seq<char>>,
    pub executable: Set<Seq<char>>,
    /// The paths that were unpacked in a directory last.
    pub unpacked: Map<Seq<char>, Seq<Seq<char>>>,
    /// Where the programs that are installed are found, by their names.
    pub programs: Map<Seq<char>, Seq<char>>,
    /// The temporary directory that is made next.
    pub fresh: Seq<char>,
}

/// What a command reads: text, or an archive of the files at paths.
pub struct Input {
    pub text: Seq<char>,
    pub archive: Seq<Seq<char>>,
}

/// Nothing to read.
pub open spec fn no_input() -> Input {
    Input { text: seq![], archive: seq![] }
}

/// What a command comes to.
#[verifier::ext_equal]
pub struct Effect {
    pub remote: Remote,
    pub success: bool,
    pub output: Seq<char>,
}

/// Whether a path is `root` or lies below it.
pub open spec fn lies_in(path: Seq<char>, root: Seq<char>) -> bool {
    path == root || (path.len() > root.len() && path.take(root.len() as int) == root
        && path[root.len() as int] == '/')
}

impl Remote {
    /// The files without `root` and all that lies below it.
    pub open spec fn without(self, root: Seq<char>) -> Remote {
        Remote {
            dirs: self.dirs.filter(|p: Seq<char>| !lies_in(p, root)),
            files: self.files.restrict(self.files.dom().filter(|p: Seq<char>| !lies_in(p, root))),
            executable: self.executable.filter(|p: Seq<char>| !lies_in(p, root)),
            unpacked: self.unpacked.restrict(
                self.unpacked.dom().filter(|p: Seq<char>| !lies_in(p, root)),
            ),
            ..self
        }
    }
}

/// A command that changes nothing.
pub open spec fn looked(remote: Remote, success: bool, output: Seq<char>) -> Option<Effect> {
    Some(Effect { remote, success, output })
}

/// What one program comes to.
pub open spec fn program_effect(remote: Remote, input: Input, words: Seq<Word>) -> Option<Effect> {
    let n = words.len();
    if n == 1 && words[0] == bare("true"@) {
        looked(remote, true, seq![])
    } else if n == 3 && words[0] == bare("test"@) && words[1] == bare("-d"@) {
        looked(remote, remote.dirs.contains(words[2].text), seq![])
    } else if n == 3 && words[0] == bare("test"@) && words[1] == bare("-f"@) {
        looked(remote, remote.files.contains_key(words[2].text), seq![])
    } else if n == 3 && words[0] == bare("cat"@) && words[2] == bare("2>/dev/null"@) {
        let path = words[1].text;
        if remote.files.contains_key(path) {
            looked(remote, true, remote.files[path])
        } else {
            looked(remote, false, seq![])
        }
    } else if n == 3 && words[0] == bare("cat"@) && words[1] == bare(">"@) {
        Some(
            Effect {
                remote: Remote {
                    files: remote.files.insert(words[2].text, input.text),
                    ..remote
                },
                success: true,
                output: seq![],
            },
        )
    } else if n == 3 && words[0] == bare("chmod"@) && words[1] == bare("+x"@) {
        Some(
            Effect {
                remote: Remote { executable: remote.executable.insert(words[2].text), ..remote },
                success: true,
                output: seq![],
            },
        )
    } else if n == 4 && words[0] == bare("rm"@) && words[1] == bare("-rf"@) && words[2] == bare(
        "--"@,
    ) {
        Some(
            Effect { remote: remote.without(words[3].text), success: true, output: seq![] },
        )
    } else if n == 4 && words[0] == bare("command"@) && words[1] == bare("-v"@) && words[3] == bare(
        "2>/dev/null"@,
    ) {
        let name = words[2].text;
        if remote.programs.contains_key(name) {
            looked(remote, true, remote.programs[name].push('\n'))
        } else {
            looked(remote, false, seq![])
        }
    } else if n == 3 && words[0] == bare("mktemp"@) && words[1] == bare("-d"@) && words[2] == bare(
        "\"${TMPDIR:-/tmp}/nomad.XXXXXXXX\""@,
    ) {
        Some(
            Effect {
                remote: Remote { dirs: remote.dirs.insert(remote.fresh), ..remote },
                success: true,
                output: remote.fresh.push('\n'),
            },
        )
    } else if n == 5 && words[0] == bare("tar"@) && words[1] == bare("-C"@) && words[3] == bare(
        "-xf"@,
    ) && words[4] == bare("-"@) {
        Some(
            Effect {
                remote: Remote {
                    unpacked: remote.unpacked.insert(words[2].text, input.archive),
                    ..remote
                },
                success: true,
                output: seq![],
            },
        )
    } else {
        None
    }
}

/// Whether a word is an operator between programs.
pub open spec fn operator(word: Word) -> bool {
    word == bare("&&"@) || word == bare("||"@)
}

/// The position of the first operator, or the number of words.
pub open spec fn operator_at(words: Seq<Word>) -> nat
    decreases words.len(),
{
    if words.len() == 0 || operator(words[0]) {
        0
    } else {
        1 + operator_at(words.skip(1))
    }
}

/// What programs with operators between them come to: after `&&` the next is run
/// where the one before succeeds, after `||` where it fails.
pub open spec fn words_effect(remote: Remote, input: Input, words: Seq<Word>) -> Option<Effect>
    decreases words.len(),
{
    let k = operator_at(words) as int;
    if k >= words.len() {
        program_effect(remote, input, words)
    } else {
        match program_effect(remote, input, words.take(k)) {
            None => None,
            Some(first) => if first.success == (words[k] == bare("&&"@)) {
                match words_effect(first.remote, no_input(), words.skip(k + 1)) {
                    None => None,
                    Some(two) => Some(
                        Effect {
                            remote: two.remote,
                            success: two.success,
                            output: first.output + two.output,
                        },
                    ),
                }
            } else {
                Some(first)
            },
        }
    }
}

/// What a command comes to on the remote host.
pub open spec fn obeyed(remote: Remote, input: Input, command: Seq<char>) -> Option<Effect> {
    match command_words(command) {
        Some(words) => words_effect(remote, input, words),
        None => None,
    }
}

/// Whether a text needs no quotes: it has neither blanks, quotes nor backslashes.
spec fn simple(w: Seq<char>) -> bool {
    forall|i: int|
        0 <= i < w.len() ==> #[trigger] w[i] != ' ' && w[i] != '\'' && w[i] != '\\'
}

/// Simple text is read on into a word.
proof fn lemma_simple(w: Seq<char>, rest: Seq<char>, text: Seq<char>)
    requires
        simple(w),
    ensures
        words_from(w + rest, Some(bare(text)), false) == words_from(
            rest,
            Some(bare(text + w)),
            false,
        ),
    decreases w.len(),
{
    let all = w + rest;
    if w.len() == 0 {
        assert(all =~= rest);
        assert(text + w =~= text);
    } else {
        let tail = w.skip(1);
        assert forall|i: int| 0 <= i < tail.len() implies #[trigger] tail[i] != ' ' && tail[i]
            != '\'' && tail[i] != '\\' by {
            assert(tail[i] == w[i + 1]);
        }
        lemma_simple(tail, rest, text.push(w[0]));
        assert(all.skip(1) =~= tail + rest);
        assert(all[0] == w[0]);
        assert(text.push(w[0]) + tail =~= text + w);
    }
}

/// A simple word before a blank.
proof fn lemma_bare_word(w: Seq<char>, rest: Seq<char>)
    requires
        simple(w),
        w.len() > 0,
    ensures
        words_from(w + seq![' '] + rest, None, false) == after_word(
            bare(w),
            words_from(rest, None, false),
        ),
        words_from(w, None, false) == Some(seq![bare(w)]),
{
    let tail = w.skip(1);
    assert forall|i: int| 0 <= i < tail.len() implies #[trigger] tail[i] != ' ' && tail[i] != '\''
        && tail[i] != '\\' by {
        assert(tail[i] == w[i + 1]);
    }
    let all = w + seq![' '] + rest;
    let end = seq![' '] + rest;
    assert(all.skip(1) =~= tail + end);
    assert(all[0] == w[0]);
    lemma_simple(tail, end, seq![w[0]]);
    assert(seq![w[0]] + tail =~= w);
    assert(end.skip(1) =~= rest);
    lemma_simple(tail, seq![], seq![w[0]]);
    assert(tail + Seq::<char>::empty() =~= tail);
}

/// The body of a quoted text and its last quote, read from inside the quotes.
proof fn lemma_quoted_text(v: Seq<char>, rest: Seq<char>, text: Seq<char>)
    ensures
        words_from(replaced(v, "'"@, "'\\''"@) + "'"@ + rest, Some(literal(text)), true)
            == words_from(rest, Some(literal(text + v)), false),
    decreases v.len(),
{
    reveal_strlit("'");
    reveal_strlit("'\\''");
    let all = replaced(v, "'"@, "'\\''"@) + "'"@ + rest;
    if v.len() == 0 {
        assert(all.skip(1) =~= rest);
        assert(all[0] == '\'');
        assert(text + v =~= text);
    } else {
        let less = v.skip(1);
        let tail = replaced(less, "'"@, "'\\''"@) + "'"@ + rest;
        lemma_quoted_text(less, rest, text.push(v[0]));
        assert(text.push(v[0]) + less =~= text + v);
        assert("'"@.len() == 1);
        assert("'"@[0] == '\'');
        if v[0] == '\'' {
            assert(v.take(1) =~= "'"@);
            assert(all =~= "'\\''"@ + tail);
            let outside = all.skip(1);
            assert(all[0] == '\'');
            assert(outside[0] == '\\' && outside[1] == '\'');
            let again = outside.skip(2);
            assert(again[0] == '\'');
            assert(again.skip(1) =~= tail);
            assert(words_from(outside, Some(literal(text)), false) == words_from(
                again,
                Some(literal(text.push('\''))),
                false,
            ));
        } else {
            assert(v.take(1)[0] == v[0]);
            assert(all =~= seq![v[0]] + tail);
            assert(all.skip(1) =~= tail);
            assert(all[0] == v[0]);
        }
    }
}

/// A quoted word before a blank.
proof fn lemma_quoted_word(v: Seq<char>, rest: Seq<char>)
    ensures
        words_from(quoted(v) + seq![' '] + rest, None, false) == after_word(
            literal(v),
            words_from(rest, None, false),
        ),
        words_from(quoted(v), None, false) == Some(seq![literal(v)]),
{
    reveal_strlit("'");
    let body = replaced(v, "'"@, "'\\''"@) + "'"@;
    let end = seq![' '] + rest;
    let all = quoted(v) + seq![' '] + rest;
    assert(all[0] == '\'');
    assert(all.skip(1) =~= body + end);
    lemma_quoted_text(v, end, seq![]);
    assert(Seq::<char>::empty() + v =~= v);
    assert(end.skip(1) =~= rest);
    assert(quoted(v)[0] == '\'');
    assert(quoted(v).skip(1) =~= body + Seq::<char>::empty());
    lemma_quoted_text(v, seq![], seq![]);
}

/// The probe of a directory is made of these words.
pub proof fn law_probe_words(root: Seq<char>)
    ensures
        command_words(probe_command(root)) == Some(
            seq![
                bare("test"@),
                bare("-d"@),
                literal(root),
                bare("&&"@),
                bare("test"@),
                bare("-f"@),
                literal(root + "/.nomad-marker"@),
            ],
        ),
{
    reveal_strlit("test -d ");
    reveal_strlit(" && test -f ");
    reveal_strlit("test");
    reveal_strlit("-d");
    reveal_strlit("-f");
    reveal_strlit("&&");
    let marker = root + "/.nomad-marker"@;
    let d = quoted(marker);
    let c = "-f"@ + seq![' '] + d;
    let b = "test"@ + seq![' '] + c;
    let a = "&&"@ + seq![' '] + b;
    let q = quoted(root) + seq![' '] + a;
    let p = "-d"@ + seq![' '] + q;
    assert(probe_command(root) =~= "test"@ + seq![' '] + p);
    lemma_quoted_word(marker, seq![]);
    lemma_bare_word("-f"@, d);
    lemma_bare_word("test"@, c);
    lemma_bare_word("&&"@, b);
    lemma_quoted_word(root, a);
    lemma_bare_word("-d"@, q);
    lemma_bare_word("test"@, p);
    assert(command_words(probe_command(root))->0 =~= seq![
        bare("test"@),
        bare("-d"@),
        literal(root),
        bare("&&"@),
        bare("test"@),
        bare("-f"@),
        literal(marker),
    ]);
}

/// The command that reads a marker is made of these words.
pub proof fn law_marker_words(root: Seq<char>)
    ensures
        command_words(marker_command(root)) == Some(
            seq![
                bare("cat"@),
                literal(root + "/.nomad-marker"@),
                bare("2>/dev/null"@),
                bare("||"@),
                bare("true"@),
            ],
        ),
{
    reveal_strlit("cat ");
    reveal_strlit(" 2>/dev/null || true");
    reveal_strlit("cat");
    reveal_strlit("2>/dev/null");
    reveal_strlit("||");
    reveal_strlit("true");
    let marker = root + "/.nomad-marker"@;
    let b = "||"@ + seq![' '] + "true"@;
    let a = "2>/dev/null"@ + seq![' '] + b;
    let q = quoted(marker) + seq![' '] + a;
    assert(marker_command(root) =~= "cat"@ + seq![' '] + q);
    lemma_bare_word("true"@, seq![]);
    lemma_bare_word("||"@, "true"@);
    lemma_bare_word("2>/dev/null"@, b);
    lemma_quoted_word(marker, a);
    lemma_bare_word("cat"@, q);
    assert(command_words(marker_command(root))->0 =~= seq![
        bare("cat"@),
        literal(marker),
        bare("2>/dev/null"@),
        bare("||"@),
        bare("true"@),
    ]);
}

/// The command that removes a directory is made of these words.
pub proof fn law_remove_words(root: Seq<char>)
    ensures
        command_words(remove_command(root)) == Some(
            seq![bare("rm"@), bare("-rf"@), bare("--"@), literal(root)],
        ),
{
    reveal_strlit("rm -rf -- ");
    reveal_strlit("rm");
    reveal_strlit("-rf");
    reveal_strlit("--");
    let q = quoted(root);
    let b = "--"@ + seq![' '] + q;
    let a = "-rf"@ + seq![' '] + b;
    assert(remove_command(root) =~= "rm"@ + seq![' '] + a);
    lemma_quoted_word(root, seq![]);
    lemma_bare_word("--"@, q);
    lemma_bare_word("-rf"@, b);
    lemma_bare_word("rm"@, a);
    assert(command_words(remove_command(root))->0 =~= seq![
        bare("rm"@),
        bare("-rf"@),
        bare("--"@),
        literal(root),
    ]);
}

/// The command that writes a file is made of these words.
pub proof fn law_write_words(path: Seq<char>)
    ensures
        command_words(write_command(path, false)) == Some(
            seq![bare("cat"@), bare(">"@), literal(path)],
        ),
        command_words(write_command(path, true)) == Some(
            seq![
                bare("cat"@),
                bare(">"@),
                literal(path),
                bare("&&"@),
                bare("chmod"@),
                bare("+x"@),
                literal(path),
            ],
        ),
{
    reveal_strlit("cat > ");
    reveal_strlit(" && chmod +x ");
    reveal_strlit("cat");
    reveal_strlit(">");
    reveal_strlit("&&");
    reveal_strlit("chmod");
    reveal_strlit("+x");
    let q = quoted(path);
    let plain = ">"@ + seq![' '] + q;
    assert(write_command(path, false) =~= "cat"@ + seq![' '] + plain);
    lemma_quoted_word(path, seq![]);
    lemma_bare_word(">"@, q);
    lemma_bare_word("cat"@, plain);
    assert(command_words(write_command(path, false))->0 =~= seq![
        bare("cat"@),
        bare(">"@),
        literal(path),
    ]);
    let e = "+x"@ + seq![' '] + q;
    let d = "chmod"@ + seq![' '] + e;
    let c = "&&"@ + seq![' '] + d;
    let b = q + seq![' '] + c;
    let a = ">"@ + seq![' '] + b;
    assert(write_command(path, true) =~= "cat"@ + seq![' '] + a);
    lemma_bare_word("+x"@, q);
    lemma_bare_word("chmod"@, e);
    lemma_bare_word("&&"@, d);
    lemma_quoted_word(path, c);
    lemma_bare_word(">"@, b);
    lemma_bare_word("cat"@, a);
    assert(command_words(write_command(path, true))->0 =~= seq![
        bare("cat"@),
        bare(">"@),
        literal(path),
        bare("&&"@),
        bare("chmod"@),
        bare("+x"@),
        literal(path),
    ]);
}

/// The command that unpacks a payload is made of these words.
pub proof fn law_extract_words(dir: Seq<char>)
    ensures
        command_words(extract_command(dir)) == Some(
            seq![bare("tar"@), bare("-C"@), literal(dir), bare("-xf"@), bare("-"@)],
        ),
{
    reveal_strlit("tar -C ");
    reveal_strlit(" -xf -");
    reveal_strlit("tar");
    reveal_strlit("-C");
    reveal_strlit("-xf");
    reveal_strlit("-");
    let b = "-xf"@ + seq![' '] + "-"@;
    let q = quoted(dir) + seq![' '] + b;
    let a = "-C"@ + seq![' '] + q;
    assert(extract_command(dir) =~= "tar"@ + seq![' '] + a);
    lemma_bare_word("-"@, seq![]);
    lemma_bare_word("-xf"@, "-"@);
    lemma_quoted_word(dir, b);
    lemma_bare_word("-C"@, q);
    lemma_bare_word("tar"@, a);
    assert(command_words(extract_command(dir))->0 =~= seq![
        bare("tar"@),
        bare("-C"@),
        literal(dir),
        bare("-xf"@),
        bare("-"@),
    ]);
}

/// The command that finds a shell is made of these words.
pub proof fn law_shell_words()
    ensures
        command_words(shell_command()) == Some(
            seq![
                bare("command"@),
                bare("-v"@),
                bare("zsh"@),
                bare("2>/dev/null"@),
                bare("||"@),
                bare("command"@),
                bare("-v"@),
                bare("bash"@),
                bare("2>/dev/null"@),
            ],
        ),
{
    reveal_strlit("command -v zsh 2>/dev/null || command -v bash 2>/dev/null");
    reveal_strlit("command");
    reveal_strlit("-v");
    reveal_strlit("zsh");
    reveal_strlit("bash");
    reveal_strlit("2>/dev/null");
    reveal_strlit("||");
    let h = "2>/dev/null"@;
    let g = "bash"@ + seq![' '] + h;
    let f = "-v"@ + seq![' '] + g;
    let e = "command"@ + seq![' '] + f;
    let d = "||"@ + seq![' '] + e;
    let c = "2>/dev/null"@ + seq![' '] + d;
    let b = "zsh"@ + seq![' '] + c;
    let a = "-v"@ + seq![' '] + b;
    assert(shell_command() =~= "command"@ + seq![' '] + a);
    lemma_bare_word("2>/dev/null"@, seq![]);
    lemma_bare_word("bash"@, h);
    lemma_bare_word("-v"@, g);
    lemma_bare_word("command"@, f);
    lemma_bare_word("||"@, e);
    lemma_bare_word("2>/dev/null"@, d);
    lemma_bare_word("zsh"@, c);
    lemma_bare_word("-v"@, b);
    lemma_bare_word("command"@, a);
    assert(command_words(shell_command())->0 =~= seq![
        bare("command"@),
        bare("-v"@),
        bare("zsh"@),
        bare("2>/dev/null"@),
        bare("||"@),
        bare("command"@),
        bare("-v"@),
        bare("bash"@),
        bare("2>/dev/null"@),
    ]);
}

/// The command that makes a directory is made of these words.
pub proof fn law_create_words()
    ensures
        command_words(create_command()) == Some(
            seq![
                bare("mktemp"@),
                bare("-d"@),
                bare("\"${TMPDIR:-/tmp}/nomad.XXXXXXXX\""@),
            ],
        ),
{
    reveal_strlit("mktemp -d \"${TMPDIR:-/tmp}/nomad.XXXXXXXX\"");
    reveal_strlit("mktemp");
    reveal_strlit("-d");
    reveal_strlit("\"${TMPDIR:-/tmp}/nomad.XXXXXXXX\"");
    let b = "\"${TMPDIR:-/tmp}/nomad.XXXXXXXX\""@;
    let a = "-d"@ + seq![' '] + b;
    assert(create_command() =~= "mktemp"@ + seq![' '] + a);
    lemma_bare_word(b, seq![]);
    lemma_bare_word("-d"@, b);
    lemma_bare_word("mktemp"@, a);
    assert(command_words(create_command())->0 =~= seq![bare("mktemp"@), bare("-d"@), bare(b)]);
}

/// The names of the programs and the operators are told apart.
proof fn lemma_program_names()
    ensures
        "test"@ != "true"@,
        "test"@ != "cat"@,
        "cat"@ != "true"@,
        "-d"@ != "-f"@,
        ">"@ != "2>/dev/null"@,
        "chmod"@ != "test"@,
        "chmod"@ != "cat"@,
        "&&"@ != "||"@,
        !operator(bare("test"@)),
        !operator(bare("-d"@)),
        !operator(bare("-f"@)),
        !operator(bare("cat"@)),
        !operator(bare("2>/dev/null"@)),
        !operator(bare("true"@)),
        !operator(bare("rm"@)),
        !operator(bare("-rf"@)),
        !operator(bare("--"@)),
        !operator(bare(">"@)),
        !operator(bare("chmod"@)),
        !operator(bare("+x"@)),
        !operator(bare("tar"@)),
        !operator(bare("-C"@)),
        !operator(bare("-xf"@)),
        !operator(bare("-"@)),
        !operator(bare("command"@)),
        !operator(bare("-v"@)),
        !operator(bare("zsh"@)),
        !operator(bare("bash"@)),
        !operator(bare("mktemp"@)),
        !operator(bare("\"${TMPDIR:-/tmp}/nomad.XXXXXXXX\""@)),
        "rm"@ != "command"@,
        "mktemp"@ != "test"@,
        "mktemp"@ != "cat"@,
        "mktemp"@ != "chmod"@,
{
    reveal_strlit("command");
    reveal_strlit("-v");
    reveal_strlit("zsh");
    reveal_strlit("bash");
    reveal_strlit("mktemp");
    reveal_strlit("\"${TMPDIR:-/tmp}/nomad.XXXXXXXX\"");
    assert("command"@[0] == 'c' && "-v"@[0] == '-' && "zsh"@[0] == 'z' && "bash"@[0] == 'b');
    assert("mktemp"@[0] == 'm' && "\"${TMPDIR:-/tmp}/nomad.XXXXXXXX\""@[0] == '"');
    reveal_strlit("test");
    reveal_strlit("true");
    reveal_strlit("cat");
    reveal_strlit("-d");
    reveal_strlit("-f");
    reveal_strlit(">");
    reveal_strlit("2>/dev/null");
    reveal_strlit("chmod");
    reveal_strlit("&&");
    reveal_strlit("||");
    reveal_strlit("rm");
    reveal_strlit("-rf");
    reveal_strlit("--");
    reveal_strlit("+x");
    reveal_strlit("tar");
    reveal_strlit("-C");
    reveal_strlit("-xf");
    reveal_strlit("-");
    assert("test"@[1] == 'e' && "true"@[1] == 'r');
    assert("test"@[0] == 't' && "true"@[0] == 't' && "cat"@[0] == 'c' && "chmod"@[0] == 'c');
    assert("cat"@.len() == 3 && "test"@.len() == 4 && "true"@.len() == 4 && "chmod"@.len() == 5);
    assert("-d"@[1] == 'd' && "-f"@[1] == 'f');
    assert(">"@.len() == 1 && "2>/dev/null"@.len() == 11);
    assert("&&"@[0] == '&' && "||"@[0] == '|');
    assert("-d"@[0] == '-' && "-f"@[0] == '-' && "-rf"@[0] == '-' && "--"@[0] == '-');
    assert("rm"@[0] == 'r' && "2>/dev/null"@[0] == '2' && ">"@[0] == '>' && "+x"@[0] == '+');
    assert("tar"@[0] == 't' && "-C"@[0] == '-' && "-xf"@[0] == '-' && "-"@[0] == '-');
}

/// Words without an operator, and then the rest.
proof fn lemma_operator_at(first: Seq<Word>, rest: Seq<Word>)
    requires
        forall|i: int| 0 <= i < first.len() ==> !operator(#[trigger] first[i]),
        rest.len() == 0 || operator(rest[0]),
    ensures
        operator_at(first + rest) == first.len(),
    decreases first.len(),
{
    let all = first + rest;
    if first.len() == 0 {
        assert(all =~= rest);
    } else {
        let tail = first.skip(1);
        assert forall|i: int| 0 <= i < tail.len() implies !operator(#[trigger] tail[i]) by {
            assert(tail[i] == first[i + 1]);
        }
        lemma_operator_at(tail, rest);
        assert(all.skip(1) =~= tail + rest);
        assert(all[0] == first[0]);
    }
}

/// What one program without operators comes to.
proof fn lemma_one_program(remote: Remote, input: Input, words: Seq<Word>)
    requires
        forall|i: int| 0 <= i < words.len() ==> !operator(#[trigger] words[i]),
    ensures
        words_effect(remote, input, words) == program_effect(remote, input, words),
{
    lemma_operator_at(words, seq![]);
    assert(words + Seq::<Word>::empty() =~= words);
}

/// What two programs with an operator between them come to.
proof fn lemma_two_programs(
    remote: Remote,
    input: Input,
    first: Seq<Word>,
    op: Word,
    second: Seq<Word>,
)
    requires
        forall|i: int| 0 <= i < first.len() ==> !operator(#[trigger] first[i]),
        forall|i: int| 0 <= i < second.len() ==> !operator(#[trigger] second[i]),
        operator(op),
    ensures
        words_effect(remote, input, first + seq![op] + second) == match program_effect(
            remote,
            input,
            first,
        ) {
            None => None,
            Some(one) => if one.success == (op == bare("&&"@)) {
                match program_effect(one.remote, no_input(), second) {
                    None => None,
                    Some(two) => Some(
                        Effect {
                            remote: two.remote,
                            success: two.success,
                            output: one.output + two.output,
                        },
                    ),
                }
            } else {
                Some(one)
            },
        },
{
    let all = first + seq![op] + second;
    let rest = seq![op] + second;
    lemma_operator_at(first, rest);
    assert(all =~= first + rest);
    assert(all.take(first.len() as int) =~= first);
    assert(all.skip(first.len() as int + 1) =~= second);
    assert(all[first.len() as int] == op);
    if let Some(one) = program_effect(remote, input, first) {
        lemma_one_program(one.remote, no_input(), second);
    }
}

/// A probe tells whether a session is there: it succeeds where the directory is
/// a directory and its marker a file, fails where one of them is not, and changes
/// nothing.
pub proof fn law_probe_tells_whether_a_session_is_there(remote: Remote, root: Seq<char>)
    ensures
        obeyed(remote, no_input(), probe_command(root)) matches Some(effect) && effect.remote
            == remote && effect.success == (remote.dirs.contains(root)
            && remote.files.contains_key(root + "/.nomad-marker"@)),
{
    law_probe_words(root);
    lemma_program_names();
    let first = seq![bare("test"@), bare("-d"@), literal(root)];
    let second = seq![bare("test"@), bare("-f"@), literal(root + "/.nomad-marker"@)];
    lemma_two_programs(remote, no_input(), first, bare("&&"@), second);
    assert(command_words(probe_command(root))->0 =~= first + seq![bare("&&"@)] + second);
}

/// The marker of a directory is read from the file below it: what that file
/// holds, or nothing where there is none.
pub proof fn law_marker_is_read_from_its_file(remote: Remote, root: Seq<char>)
    ensures
        obeyed(remote, no_input(), marker_command(root)) matches Some(effect) && effect.remote
            == remote && effect.success && effect.output == (if remote.files.contains_key(
            root + "/.nomad-marker"@,
        ) {
            remote.files[root + "/.nomad-marker"@]
        } else {
            seq![]
        }),
{
    law_marker_words(root);
    lemma_program_names();
    let marker = root + "/.nomad-marker"@;
    let first = seq![bare("cat"@), literal(marker), bare("2>/dev/null"@)];
    let second = seq![bare("true"@)];
    lemma_two_programs(remote, no_input(), first, bare("||"@), second);
    assert(command_words(marker_command(root))->0 =~= first + seq![bare("||"@)] + second);
    assert(Seq::<char>::empty() + Seq::<char>::empty() =~= seq![]);
    assert(literal(marker) != bare(">"@));
}

/// A removal removes the directory and all that lies below it, whatever its name
/// is, and nothing else.
pub proof fn law_removal_removes_the_directory(remote: Remote, root: Seq<char>)
    ensures
        obeyed(remote, no_input(), remove_command(root)) matches Some(effect) && effect.success
            && effect.remote == remote.without(root),
{
    law_remove_words(root);
    lemma_program_names();
    lemma_one_program(remote, no_input(), command_words(remove_command(root))->0);
}

/// A shell is found: zsh where it is installed, bash where only that is, and
/// none otherwise. Nothing changes.
pub proof fn law_shell_is_found(remote: Remote)
    ensures
        obeyed(remote, no_input(), shell_command()) matches Some(effect) && effect.remote == remote
            && effect.success == (remote.programs.contains_key("zsh"@)
            || remote.programs.contains_key("bash"@)) && (effect.success ==> effect.output == (
        if remote.programs.contains_key("zsh"@) {
            remote.programs["zsh"@]
        } else {
            remote.programs["bash"@]
        }).push('\n')),
{
    law_shell_words();
    lemma_program_names();
    let first = seq![bare("command"@), bare("-v"@), bare("zsh"@), bare("2>/dev/null"@)];
    let second = seq![bare("command"@), bare("-v"@), bare("bash"@), bare("2>/dev/null"@)];
    lemma_two_programs(remote, no_input(), first, bare("||"@), second);
    assert(command_words(shell_command())->0 =~= first + seq![bare("||"@)] + second);
    if remote.programs.contains_key("bash"@) {
        let found = remote.programs["bash"@].push('\n');
        assert(Seq::<char>::empty() + found =~= found);
    }
}

/// A temporary directory is made, and its path is written. Nothing else changes.
pub proof fn law_directory_is_made(remote: Remote)
    ensures
        obeyed(remote, no_input(), create_command()) matches Some(effect) && effect.success
            && effect.output == remote.fresh.push('\n') && effect.remote == (Remote {
            dirs: remote.dirs.insert(remote.fresh),
            ..remote
        }),
{
    law_create_words();
    lemma_program_names();
    lemma_one_program(remote, no_input(), command_words(create_command())->0);
}

/// A file is written where it was meant to be, with what was meant to be in it,
/// and made executable where that was asked for. Nothing else changes.
pub proof fn law_file_is_written(
    remote: Remote,
    path: Seq<char>,
    contents: Seq<char>,
    executable: bool,
)
    ensures
        obeyed(
            remote,
            Input { text: contents, archive: seq![] },
            write_command(path, executable),
        ) matches Some(effect) && effect.success && effect.remote == (Remote {
            files: remote.files.insert(path, contents),
            executable: if executable {
                remote.executable.insert(path)
            } else {
                remote.executable
            },
            ..remote
        }),
{
    law_write_words(path);
    lemma_program_names();
    let input = Input { text: contents, archive: seq![] };
    let first = seq![bare("cat"@), bare(">"@), literal(path)];
    lemma_one_program(remote, input, first);
    let second = seq![bare("chmod"@), bare("+x"@), literal(path)];
    lemma_two_programs(remote, input, first, bare("&&"@), second);
    assert(command_words(write_command(path, true))->0 =~= first + seq![bare("&&"@)] + second);
    assert(literal(path) != bare("2>/dev/null"@));
}

/// A payload is unpacked in the directory that was meant.
pub proof fn law_payload_is_unpacked(remote: Remote, dir: Seq<char>, paths: Seq<Seq<char>>)
    ensures
        obeyed(
            remote,
            Input { text: seq![], archive: paths },
            extract_command(dir),
        ) matches Some(effect) && effect.success && effect.remote == (Remote {
            unpacked: remote.unpacked.insert(dir, paths),
            ..remote
        }),
{
    law_extract_words(dir);
    lemma_program_names();
    lemma_one_program(
        remote,
        Input { text: seq![], archive: paths },
        command_words(extract_command(dir))->0,
    );
}

} // verus!
