//! The profile: what is shipped to the remote host and how its shell starts.

use vstd::prelude::*;

use crate::text::{chars_of, joined, matches_at};
use crate::text::{occurs_at, span_until, texts};
use crate::text_laws::concat;
use crate::text_map::TextMap;
use crate::text_map::{has_key, value_at, Pair};
use crate::transport::shell_quote;
use crate::transport::quoted;

verus! {

/// What is shipped to the remote host and how its shell starts.
#[derive(Debug, Clone)]
pub struct Profile {
    pub name: String,
    pub root: RootSpec,
    pub validate: Validate,
    pub payload: Payload,
    pub environment: TextMap,
    pub directories: Directories,
    pub launchers: Launchers,
}

/// Where the profile root comes from.
#[derive(Debug, Clone)]
pub enum RootSpec {
    Path(String),
    Env { root_env: String },
}

/// What the profile root has to hold.
#[derive(Debug, Clone)]
pub struct Validate {
    pub git: bool,
    pub files: Vec<String>,
    pub dirs: Vec<String>,
}

/// What is shipped.
#[derive(Debug, Clone)]
pub struct Payload {
    /// A file below the root that lists paths, one on each line. Blank lines
    /// and lines that begin with `#` count for nothing.
    pub manifest: Option<String>,
    /// Paths that are always shipped.
    pub extra: Vec<String>,
}

/// Directories to make before the shell starts.
#[derive(Debug, Clone)]
pub struct Directories {
    pub required: Vec<String>,
}

/// The lines that start each shell.
#[derive(Debug, Clone)]
pub struct Launchers {
    pub zsh: Vec<String>,
    pub bash: Vec<String>,
}

/// What a [`RootSpec`] holds.
pub enum RootSpecView {
    Path(Seq<char>),
    Env(Seq<char>),
}

/// What a [`Validate`] holds.
pub struct ValidateView {
    pub git: bool,
    pub files: Seq<Seq<char>>,
    pub dirs: Seq<Seq<char>>,
}

/// What a [`Payload`] holds.
pub struct PayloadView {
    pub manifest: Option<Seq<char>>,
    pub extra: Seq<Seq<char>>,
}

/// What a [`Profile`] holds.
pub struct ProfileView {
    pub name: Seq<char>,
    pub root: RootSpecView,
    pub validate: ValidateView,
    pub payload: PayloadView,
    pub environment: Seq<Pair>,
    pub required_dirs: Seq<Seq<char>>,
    pub zsh: Seq<Seq<char>>,
    pub bash: Seq<Seq<char>>,
}

impl View for RootSpec {
    type V = RootSpecView;

    open spec fn view(&self) -> RootSpecView {
        match self {
            RootSpec::Path(path) => RootSpecView::Path(path@),
            RootSpec::Env { root_env } => RootSpecView::Env(root_env@),
        }
    }
}

impl View for Validate {
    type V = ValidateView;

    open spec fn view(&self) -> ValidateView {
        ValidateView { git: self.git, files: texts(self.files@), dirs: texts(self.dirs@) }
    }
}

impl View for Payload {
    type V = PayloadView;

    open spec fn view(&self) -> PayloadView {
        PayloadView {
            manifest: match self.manifest {
                Some(path) => Some(path@),
                None => None,
            },
            extra: texts(self.extra@),
        }
    }
}

impl View for Profile {
    type V = ProfileView;

    open spec fn view(&self) -> ProfileView {
        ProfileView {
            name: self.name@,
            root: self.root@,
            validate: self.validate@,
            payload: self.payload@,
            environment: self.environment.pairs(),
            required_dirs: texts(self.directories.required@),
            zsh: texts(self.launchers.zsh@),
            bash: texts(self.launchers.bash@),
        }
    }
}

/// What a validation section that does not speak of Git asks for.
pub fn default_true() -> (r: bool)
    ensures
        r,
{
    true
}

impl Default for Validate {
    /// A profile without a validation section asks for nothing.
    fn default() -> (r: Validate)
        ensures
            !r.git,
            r.files@.len() == 0,
            r.dirs@.len() == 0,
    {
        Validate { git: false, files: Vec::new(), dirs: Vec::new() }
    }
}

impl Default for Directories {
    fn default() -> (r: Directories)
        ensures
            r.required@.len() == 0,
    {
        Directories { required: Vec::new() }
    }
}

/// Why a profile cannot be used.
#[derive(Debug, Clone, PartialEq, Eq)]
pub enum ProfileError {
    EnvUnset(String),
    RootMissing(String),
    RootIsHome(String),
    MissingFile { root: String, path: String },
    MissingDir { root: String, path: String },
    GitUnavailable,
    NotWorkTree(String),
    ManifestUnreadable(String),
    NotTracked(String),
}

/// What a [`ProfileError`] holds.
pub enum ProfileErrorView {
    EnvUnset(Seq<char>),
    RootMissing(Seq<char>),
    RootIsHome(Seq<char>),
    MissingFile(Seq<char>, Seq<char>),
    MissingDir(Seq<char>, Seq<char>),
    GitUnavailable,
    NotWorkTree(Seq<char>),
    ManifestUnreadable(Seq<char>),
    NotTracked(Seq<char>),
}

impl View for ProfileError {
    type V = ProfileErrorView;

    open spec fn view(&self) -> ProfileErrorView {
        match self {
            ProfileError::EnvUnset(name) => ProfileErrorView::EnvUnset(name@),
            ProfileError::RootMissing(path) => ProfileErrorView::RootMissing(path@),
            ProfileError::RootIsHome(home) => ProfileErrorView::RootIsHome(home@),
            ProfileError::MissingFile { root, path } => ProfileErrorView::MissingFile(root@, path@),
            ProfileError::MissingDir { root, path } => ProfileErrorView::MissingDir(root@, path@),
            ProfileError::GitUnavailable => ProfileErrorView::GitUnavailable,
            ProfileError::NotWorkTree(root) => ProfileErrorView::NotWorkTree(root@),
            ProfileError::ManifestUnreadable(path) => ProfileErrorView::ManifestUnreadable(path@),
            ProfileError::NotTracked(item) => ProfileErrorView::NotTracked(item@),
        }
    }
}

impl ProfileErrorView {
    /// The text shown to the user.
    pub open spec fn message(self) -> Seq<char> {
        match self {
            ProfileErrorView::EnvUnset(name) => "environment variable "@ + name + " is not set"@,
            ProfileErrorView::RootMissing(path) => "profile root does not exist: "@ + path,
            ProfileErrorView::RootIsHome(home) => "refusing to use "@ + home
                + " as the profile root"@,
            ProfileErrorView::MissingFile(root, path) => "profile root does not look valid: "@
                + root + " (missing file "@ + path + ")"@,
            ProfileErrorView::MissingDir(root, path) => "profile root does not look valid: "@ + root
                + " (missing directory "@ + path + ")"@,
            ProfileErrorView::GitUnavailable => "git must be installed locally"@,
            ProfileErrorView::NotWorkTree(root) => "profile root must be a Git working tree: "@
                + root,
            ProfileErrorView::ManifestUnreadable(path) => "failed to read payload manifest "@ + path,
            ProfileErrorView::NotTracked(item) => "payload manifest entry is not tracked: "@ + item,
        }
    }
}

impl ProfileError {
    /// The text shown to the user.
    pub fn message(&self) -> (r: String)
        ensures
            r@ == self@.message(),
    {
        match self {
            ProfileError::EnvUnset(name) => {
                let mut r = joined("environment variable ", name.as_str());
                r.append(" is not set");
                r
            },
            ProfileError::RootMissing(path) => joined("profile root does not exist: ", path.as_str()),
            ProfileError::RootIsHome(home) => {
                let mut r = joined("refusing to use ", home.as_str());
                r.append(" as the profile root");
                r
            },
            ProfileError::MissingFile { root, path } => {
                let mut r = joined("profile root does not look valid: ", root.as_str());
                r.append(" (missing file ");
                r.append(path.as_str());
                r.append(")");
                r
            },
            ProfileError::MissingDir { root, path } => {
                let mut r = joined("profile root does not look valid: ", root.as_str());
                r.append(" (missing directory ");
                r.append(path.as_str());
                r.append(")");
                r
            },
            ProfileError::GitUnavailable => "git must be installed locally".to_owned(),
            ProfileError::NotWorkTree(root) => joined(
                "profile root must be a Git working tree: ",
                root.as_str(),
            ),
            ProfileError::ManifestUnreadable(path) => joined(
                "failed to read payload manifest ",
                path.as_str(),
            ),
            ProfileError::NotTracked(item) => joined(
                "payload manifest entry is not tracked: ",
                item.as_str(),
            ),
        }
    }
}

/// The token that stands for `key` in a template.
pub open spec fn token(key: Seq<char>) -> Seq<char> {
    seq!['{'] + key + seq!['}']
}

/// The first of the keys from position `k` on whose token `s` begins with, or
/// the number of keys.
pub open spec fn key_here(s: Seq<char>, vars: Seq<Pair>, k: int) -> int
    decreases vars.len() - k,
{
    if k < 0 || k >= vars.len() {
        vars.len() as int
    } else if occurs_at(s, token(vars[k].0), 0) {
        k
    } else {
        key_here(s, vars, k + 1)
    }
}

/// `template` with each token of a key put in place by the value of the key,
/// quoted for the shell, in one pass from left to right. What is filled in is not
/// looked at again.
pub open spec fn rendered(template: Seq<char>, vars: Seq<Pair>) -> Seq<char>
    decreases template.len(),
{
    if template.len() == 0 {
        seq![]
    } else {
        let k = key_here(template, vars, 0);
        if 0 <= k < vars.len() {
            proof {
                lemma_key_here(template, vars, 0);
            }
            quoted(vars[k].1) + rendered(template.skip(token(vars[k].0).len() as int), vars)
        } else {
            seq![template[0]] + rendered(template.skip(1), vars)
        }
    }
}

/// The token of the key that is found stands at the start, and none of an earlier
/// key does.
pub proof fn lemma_key_here(s: Seq<char>, vars: Seq<Pair>, k: int)
    requires
        0 <= k <= vars.len(),
    ensures
        k <= key_here(s, vars, k) <= vars.len(),
        key_here(s, vars, k) < vars.len() ==> occurs_at(
            s,
            token(vars[key_here(s, vars, k)].0),
            0,
        ),
        forall|j: int|
            k <= j < key_here(s, vars, k) ==> !occurs_at(s, token((#[trigger] vars[j]).0), 0),
    decreases vars.len() - k,
{
    if k < vars.len() && !occurs_at(s, token(vars[k].0), 0) {
        lemma_key_here(s, vars, k + 1);
    }
}

/// The texts of the tokens of `vars`.
spec fn tokens_of(vars: Seq<Pair>) -> Seq<Seq<char>> {
    Seq::new(vars.len(), |i: int| token(vars[i].0))
}

/// What a list of character lists holds.
spec fn char_lists(list: Seq<Vec<char>>) -> Seq<Seq<char>> {
    Seq::new(list.len(), |i: int| list[i]@)
}

/// The tokens of the keys.
fn key_tokens(vars: &TextMap) -> (r: Vec<Vec<char>>)
    ensures
        char_lists(r@) == tokens_of(vars.pairs()),
{
    let ghost all = tokens_of(vars.pairs());
    let mut r: Vec<Vec<char>> = Vec::new();
    let mut i: usize = 0;
    proof {
        assert(char_lists(r@) =~= all.take(0));
    }
    while i < vars.len()
        invariant
            all == tokens_of(vars.pairs()),
            i <= all.len(),
            char_lists(r@) == all.take(i as int),
        decreases all.len() - i,
    {
        let ghost before = r@;
        let mut wanted = joined("{", vars.key(i).as_str());
        wanted.append("}");
        proof {
            reveal_strlit("{");
            reveal_strlit("}");
            assert(wanted@ =~= all[i as int]);
        }
        r.push(chars_of(wanted.as_str()));
        proof {
            assert(char_lists(r@) =~= char_lists(before).push(all[i as int]));
            assert(char_lists(r@) =~= all.take(i + 1));
        }
        i = i + 1;
    }
    proof {
        assert(all.take(i as int) =~= all);
    }
    r
}

/// The first of the keys whose token stands at position `at`, or the number of
/// keys.
fn find_key(chars: &Vec<char>, at: usize, tokens: &Vec<Vec<char>>, vars: &TextMap) -> (r: usize)
    requires
        at <= chars@.len(),
        char_lists(tokens@) == tokens_of(vars.pairs()),
    ensures
        r == key_here(chars@.skip(at as int), vars.pairs(), 0),
        r <= tokens@.len(),
        r < tokens@.len() ==> at + tokens@[r as int]@.len() <= chars@.len(),
{
    let ghost rest = chars@.skip(at as int);
    let ghost pairs = vars.pairs();
    let mut k: usize = 0;
    proof {
        assert(tokens@.len() == pairs.len()) by {
            assert(char_lists(tokens@).len() == tokens_of(pairs).len());
        }
    }
    while k < tokens.len()
        invariant
            at <= chars@.len(),
            rest == chars@.skip(at as int),
            pairs == vars.pairs(),
            tokens@.len() == pairs.len(),
            char_lists(tokens@) == tokens_of(pairs),
            k <= tokens@.len(),
            key_here(rest, pairs, 0) == key_here(rest, pairs, k as int),
        decreases tokens@.len() - k,
    {
        proof {
            assert(char_lists(tokens@)[k as int] == tokens_of(pairs)[k as int]);
            lemma_occurs_after(chars@, token(pairs[k as int].0), at as int);
        }
        if matches_at(chars, &tokens[k], at) {
            return k;
        }
        k = k + 1;
    }
    k
}

/// What stands at a position stands at the start of what follows it.
proof fn lemma_occurs_after(s: Seq<char>, pat: Seq<char>, at: int)
    requires
        0 <= at <= s.len(),
    ensures
        occurs_at(s, pat, at) == occurs_at(s.skip(at), pat, 0),
{
    if at + pat.len() <= s.len() {
        assert(s.subrange(at, at + pat.len()) =~= s.skip(at).subrange(0, pat.len() as int));
    }
}

impl Profile {
    /// Renders a template of the environment, the directories or a launcher:
    /// each token is put in place by its value, quoted for the shell, and all
    /// else stays as it is for the shell to expand.
    pub fn render(template: &str, vars: &TextMap) -> (r: String)
        ensures
            r@ == rendered(template@, vars.pairs()),
    {
        let chars = chars_of(template);
        let tokens = key_tokens(vars);
        let ghost pairs = vars.pairs();
        let mut out = String::new();
        let mut i: usize = 0;
        proof {
            assert(chars@.skip(0) =~= chars@);
            assert(out@ + rendered(chars@, pairs) =~= rendered(chars@, pairs));
            assert(tokens@.len() == pairs.len()) by {
                assert(char_lists(tokens@).len() == tokens_of(pairs).len());
            }
        }
        while i < chars.len()
            invariant
                i <= chars@.len(),
                pairs == vars.pairs(),
                tokens@.len() == pairs.len(),
                char_lists(tokens@) == tokens_of(pairs),
                rendered(chars@, pairs) == out@ + rendered(chars@.skip(i as int), pairs),
            decreases chars@.len() - i,
        {
            let ghost rest = chars@.skip(i as int);
            let ghost before = out@;
            let k: usize = find_key(&chars, i, &tokens, vars);
            if k < tokens.len() {
                proof {
                    assert(char_lists(tokens@)[k as int] == tokens_of(pairs)[k as int]);
                    let n = tokens@[k as int]@.len() as int;
                    assert(rest.skip(n) =~= chars@.skip(i + n));
                    assert(before + (quoted(pairs[k as int].1) + rendered(rest.skip(n), pairs))
                        =~= before + quoted(pairs[k as int].1) + rendered(rest.skip(n), pairs));
                }
                let value = shell_quote(vars.value(k).as_str());
                out.append(value.as_str());
                i = i + tokens[k].len();
            } else {
                proof {
                    assert(rest.skip(1) =~= chars@.skip(i + 1));
                    assert(before + (seq![rest[0]] + rendered(rest.skip(1), pairs)) =~= before.push(
                        rest[0],
                    ) + rendered(rest.skip(1), pairs));
                }
                out.push(chars[i]);
                i = i + 1;
            }
        }
        proof {
            assert(out@ + Seq::<char>::empty() =~= out@);
        }
        out
    }
}

/// A stretch of a template.
pub enum Fragment {
    /// Text without an opening brace.
    Literal(Seq<char>),
    /// A key between braces.
    Placeholder(Seq<char>),
    /// An opening brace that is not closed, and the text after it.
    Open(Seq<char>),
}

/// Whether `c` stands nowhere in `s`.
pub open spec fn free_of(s: Seq<char>, c: char) -> bool {
    forall|i: int| 0 <= i < s.len() ==> #[trigger] s[i] != c
}

impl Fragment {
    /// The template text of the fragment.
    pub open spec fn text(self) -> Seq<char> {
        match self {
            Fragment::Literal(text) => text,
            Fragment::Placeholder(key) => token(key),
            Fragment::Open(text) => seq!['{'] + text,
        }
    }

    /// What the fragment is rendered to.
    pub open spec fn filled(self, vars: Seq<Pair>) -> Seq<char> {
        match self {
            Fragment::Placeholder(key) => if has_key(vars, key) {
                quoted(value_at(vars, key))
            } else {
                token(key)
            },
            _ => self.text(),
        }
    }
}

/// How many characters stand before the first brace, or all of them.
pub open spec fn brace_at(s: Seq<char>) -> nat
    decreases s.len(),
{
    if s.len() == 0 || s[0] == '{' || s[0] == '}' {
        0
    } else {
        1 + brace_at(s.skip(1))
    }
}

/// The fragments of a template: a key between braces is a placeholder, and all
/// else stands for itself.
pub open spec fn fragments_of(template: Seq<char>) -> Seq<Fragment>
    decreases template.len(),
{
    if template.len() == 0 {
        seq![]
    } else if template[0] != '{' {
        let n = span_until(template, '{') as int;
        if 0 < n <= template.len() {
            seq![Fragment::Literal(template.take(n))] + fragments_of(template.skip(n))
        } else {
            seq![]
        }
    } else {
        let body = template.skip(1);
        let n = brace_at(body) as int;
        if n < body.len() && body[n] == '}' {
            seq![Fragment::Placeholder(body.take(n))] + fragments_of(body.skip(n + 1))
        } else if n <= body.len() {
            seq![Fragment::Open(body.take(n))] + fragments_of(body.skip(n))
        } else {
            seq![]
        }
    }
}

/// The template that a list of fragments makes up.
pub open spec fn template_text(fragments: Seq<Fragment>) -> Seq<char>
    decreases fragments.len(),
{
    if fragments.len() == 0 {
        seq![]
    } else {
        fragments[0].text() + template_text(fragments.skip(1))
    }
}

/// What a list of fragments is rendered to, one by one.
pub open spec fn filled_text(fragments: Seq<Fragment>, vars: Seq<Pair>) -> Seq<char>
    decreases fragments.len(),
{
    if fragments.len() == 0 {
        seq![]
    } else {
        fragments[0].filled(vars) + filled_text(fragments.skip(1), vars)
    }
}

/// The fragments of a template make it up, one after the other.
pub proof fn law_fragments_make_up_the_template(template: Seq<char>)
    ensures
        template_text(fragments_of(template)) == template,
    decreases template.len(),
{
    let all = fragments_of(template);
    if template.len() > 0 {
        if template[0] != '{' {
            lemma_literal_span(template);
            let n = span_until(template, '{') as int;
            let rest = template.skip(n);
            law_fragments_make_up_the_template(rest);
            assert(all.skip(1) =~= fragments_of(rest));
            assert(template.take(n) + rest =~= template);
        } else {
            let body = template.skip(1);
            lemma_brace_at(body);
            let n = brace_at(body) as int;
            let name = body.take(n);
            if n < body.len() && body[n] == '}' {
                let rest = body.skip(n + 1);
                law_fragments_make_up_the_template(rest);
                assert(all.skip(1) =~= fragments_of(rest));
                assert(token(name) + rest =~= template);
            } else {
                let rest = body.skip(n);
                law_fragments_make_up_the_template(rest);
                assert(all.skip(1) =~= fragments_of(rest));
                assert(seq!['{'] + name + rest =~= template);
            }
        }
    }
}

/// Whether a key has no braces.
pub open spec fn key_is_plain(key: Seq<char>) -> bool {
    free_of(key, '{') && free_of(key, '}')
}

/// Rendering works fragment by fragment: each placeholder that has a value
/// becomes that value, quoted for the shell, whatever the value holds, and what
/// stands around it, shell syntax and all, stays as it is. Keys with braces are
/// left out, since the token of one is no single fragment.
pub proof fn law_rendering_is_by_fragment(template: Seq<char>, vars: Seq<Pair>)
    requires
        forall|i: int, j: int|
            #![trigger vars[i], vars[j]]
            0 <= i < j < vars.len() ==> vars[i].0 != vars[j].0,
        forall|i: int| 0 <= i < vars.len() ==> key_is_plain((#[trigger] vars[i]).0),
    ensures
        rendered(template, vars) == filled_text(fragments_of(template), vars),
    decreases template.len(),
{
    let all = fragments_of(template);
    if template.len() > 0 {
        if template[0] != '{' {
            lemma_literal_span(template);
            let n = span_until(template, '{') as int;
            let rest = template.skip(n);
            law_rendering_is_by_fragment(rest, vars);
            assert(all.skip(1) =~= fragments_of(rest));
            assert(template.take(n) + rest =~= template);
            lemma_passed_over(template.take(n), rest, vars);
        } else {
            let body = template.skip(1);
            lemma_brace_at(body);
            let n = brace_at(body) as int;
            let name = body.take(n);
            if n < body.len() && body[n] == '}' {
                let rest = body.skip(n + 1);
                law_rendering_is_by_fragment(rest, vars);
                assert(all.skip(1) =~= fragments_of(rest));
                assert(token(name) + rest =~= template);
                lemma_placeholder(name, rest, vars);
            } else {
                let rest = body.skip(n);
                law_rendering_is_by_fragment(rest, vars);
                assert(all.skip(1) =~= fragments_of(rest));
                assert(seq!['{'] + name + rest =~= template);
                if rest.len() > 0 {
                    assert(rest[0] == body[n]);
                }
                lemma_open_brace(name, rest, vars);
            }
        }
    }
}

/// A template without an opening brace is rendered to itself.
pub proof fn law_literal_templates_stay(template: Seq<char>, vars: Seq<Pair>)
    requires
        free_of(template, '{'),
    ensures
        rendered(template, vars) == template,
{
    assert(template + Seq::<char>::empty() =~= template);
    lemma_passed_over(template, seq![], vars);
}

/// A part of a template: text without an opening brace, the placeholder of the
/// value at a position, one of a key that has no value, or a brace that is not
/// closed and the text after it.
pub enum Part {
    Text(Seq<char>),
    Value(int),
    Unknown(Seq<char>),
    Open(Seq<char>),
}

impl Part {
    /// How a part is written in a template.
    pub open spec fn written(self, vars: Seq<Pair>) -> Seq<char> {
        match self {
            Part::Text(text) => text,
            Part::Value(i) => "{"@ + vars[i].0 + "}"@,
            Part::Unknown(key) => "{"@ + key + "}"@,
            Part::Open(text) => "{"@ + text,
        }
    }

    /// What a part becomes: a value is put between single quotes, and all else
    /// stays as it is.
    pub open spec fn rendered_to(self, vars: Seq<Pair>) -> Seq<char> {
        match self {
            Part::Text(text) => text,
            Part::Value(i) => quoted(vars[i].1),
            Part::Unknown(key) => "{"@ + key + "}"@,
            Part::Open(text) => "{"@ + text,
        }
    }

    /// Whether a part is what its name says.
    pub open spec fn fits(self, vars: Seq<Pair>) -> bool {
        match self {
            Part::Text(text) => free_of(text, '{'),
            Part::Value(i) => 0 <= i < vars.len(),
            Part::Unknown(key) => key_is_plain(key) && forall|i: int|
                0 <= i < vars.len() ==> (#[trigger] vars[i]).0 != key,
            Part::Open(text) => key_is_plain(text),
        }
    }
}

/// A template that is written part by part is rendered part by part: every
/// placeholder that has a value becomes that value in single quotes, however
/// many there are and whatever stands between them, and nothing else changes.
pub proof fn law_template_is_rendered_part_by_part(parts: Seq<Part>, vars: Seq<Pair>)
    requires
        forall|i: int, j: int|
            #![trigger vars[i], vars[j]]
            0 <= i < j < vars.len() ==> vars[i].0 != vars[j].0,
        forall|i: int| 0 <= i < vars.len() ==> key_is_plain((#[trigger] vars[i]).0),
        forall|i: int| 0 <= i < parts.len() ==> (#[trigger] parts[i]).fits(vars),
        forall|i: int|
            0 < i < parts.len() && parts[i - 1] is Open ==> !((#[trigger] parts[i]) is Text),
    ensures
        rendered(concat(Seq::new(parts.len(), |i: int| parts[i].written(vars))), vars) == concat(
            Seq::new(parts.len(), |i: int| parts[i].rendered_to(vars)),
        ),
    decreases parts.len(),
{
    reveal_strlit("{");
    reveal_strlit("}");
    assert("{"@ =~= seq!['{']);
    assert("}"@ =~= seq!['}']);
    let written = Seq::new(parts.len(), |i: int| parts[i].written(vars));
    let to = Seq::new(parts.len(), |i: int| parts[i].rendered_to(vars));
    if parts.len() > 0 {
        let less = parts.skip(1);
        assert forall|i: int| 0 <= i < less.len() implies (#[trigger] less[i]).fits(vars) by {
            assert(less[i] == parts[i + 1]);
        }
        assert forall|i: int| 0 < i < less.len() && less[i - 1] is Open implies !((
        #[trigger] less[i]) is Text) by {
            assert(less[i] == parts[i + 1]);
            assert(less[i - 1] == parts[i]);
        }
        law_template_is_rendered_part_by_part(less, vars);
        assert(written.skip(1) =~= Seq::new(less.len(), |i: int| less[i].written(vars)));
        assert(to.skip(1) =~= Seq::new(less.len(), |i: int| less[i].rendered_to(vars)));
        let rest = concat(written.skip(1));
        assert(parts[0].fits(vars));
        match parts[0] {
            Part::Text(text) => lemma_passed_over(text, rest, vars),
            Part::Value(i) => {
                lemma_placeholder(vars[i].0, rest, vars);
                lemma_value_of(vars, i);
                assert(written[0] =~= token(vars[i].0));
            },
            Part::Unknown(key) => {
                lemma_placeholder(key, rest, vars);
                assert(written[0] =~= token(key));
            },
            Part::Open(text) => {
                if less.len() > 0 {
                    assert(!(parts[1] is Text));
                    assert(written.skip(1)[0] == parts[1].written(vars));
                    assert(rest[0] == '{');
                } else {
                    assert(rest =~= seq![]);
                }
                lemma_open_brace(text, rest, vars);
                assert(written[0] + rest =~= seq!['{'] + text + rest);
            },
        }
    } else {
        assert(rendered(seq![], vars) =~= seq![]);
    }
}

/// The value of a key is the one beside it.
proof fn lemma_value_of(vars: Seq<Pair>, i: int)
    requires
        forall|i: int, j: int|
            #![trigger vars[i], vars[j]]
            0 <= i < j < vars.len() ==> vars[i].0 != vars[j].0,
        0 <= i < vars.len(),
    ensures
        Fragment::Placeholder(vars[i].0).filled(vars) == quoted(vars[i].1),
{
    let key = vars[i].0;
    let k = choose|k: int| 0 <= k < vars.len() && (#[trigger] vars[k]).0 == key;
    assert(k == i);
}

/// The parts of a template before and after its first brace.
proof fn lemma_brace_at(s: Seq<char>)
    ensures
        brace_at(s) <= s.len(),
        free_of(s.take(brace_at(s) as int), '{'),
        free_of(s.take(brace_at(s) as int), '}'),
        brace_at(s) < s.len() ==> s[brace_at(s) as int] == '{' || s[brace_at(s) as int] == '}',
    decreases s.len(),
{
    if s.len() > 0 && s[0] != '{' && s[0] != '}' {
        lemma_brace_at(s.skip(1));
        let n = brace_at(s) as int;
        assert forall|i: int| 0 <= i < n implies s.take(n)[i] != '{' && s.take(n)[i] != '}' by {
            if i > 0 {
                assert(s.skip(1).take(n - 1)[i - 1] == s[i]);
            }
        }
    }
}

/// The parts of a template before and after its first opening brace.
proof fn lemma_literal_span(s: Seq<char>)
    ensures
        span_until(s, '{') <= s.len(),
        free_of(s.take(span_until(s, '{') as int), '{'),
        s.len() > 0 && s[0] != '{' ==> span_until(s, '{') > 0,
    decreases s.len(),
{
    if s.len() > 0 && s[0] != '{' {
        lemma_literal_span(s.skip(1));
        let n = span_until(s, '{') as int;
        assert forall|i: int| 0 <= i < n implies #[trigger] s.take(n)[i] != '{' by {
            if i > 0 {
                assert(s.skip(1).take(n - 1)[i - 1] == s[i]);
            }
        }
    }
}

/// Where no token stands at the start, no key is found there.
proof fn lemma_no_key(s: Seq<char>, vars: Seq<Pair>)
    requires
        forall|i: int| 0 <= i < vars.len() ==> !occurs_at(s, token((#[trigger] vars[i]).0), 0),
    ensures
        key_here(s, vars, 0) == vars.len(),
{
    lemma_key_here(s, vars, 0);
}

/// Text without an opening brace is passed over.
proof fn lemma_passed_over(head: Seq<char>, rest: Seq<char>, vars: Seq<Pair>)
    requires
        free_of(head, '{'),
    ensures
        rendered(head + rest, vars) == head + rendered(rest, vars),
    decreases head.len(),
{
    let all = head + rest;
    if head.len() == 0 {
        assert(all =~= rest);
        assert(head + rendered(rest, vars) =~= rendered(rest, vars));
    } else {
        let tail = head.skip(1);
        assert forall|i: int| 0 <= i < tail.len() implies #[trigger] tail[i] != '{' by {
            assert(tail[i] == head[i + 1]);
        }
        lemma_passed_over(tail, rest, vars);
        assert forall|i: int| 0 <= i < vars.len() implies !occurs_at(
            all,
            token((#[trigger] vars[i]).0),
            0,
        ) by {
            let t = token(vars[i].0);
            if occurs_at(all, t, 0) {
                assert(all.subrange(0, t.len() as int)[0] == all[0]);
                assert(t[0] == '{');
            }
        }
        lemma_no_key(all, vars);
        assert(all.skip(1) =~= tail + rest);
        assert(seq![head[0]] + (tail + rendered(rest, vars)) =~= head + rendered(rest, vars));
    }
}

/// The token of one key does not begin with that of another.
proof fn lemma_tokens_differ(name: Seq<char>, key: Seq<char>, rest: Seq<char>)
    requires
        key_is_plain(name),
        key_is_plain(key),
        occurs_at(token(name) + rest, token(key), 0),
    ensures
        name == key,
{
    let all = token(name) + rest;
    let first = all.subrange(0, token(key).len() as int);
    assert(first == token(key));
    let (n, m) = (name.len() as int, key.len() as int);
    if m < n {
        assert(first[m + 1] == '}');
        assert(first[m + 1] == name[m]);
    } else if n < m {
        assert(first[n + 1] == key[n]);
        assert(first[n + 1] == '}');
    } else {
        assert forall|i: int| 0 <= i < n implies name[i] == key[i] by {
            assert(first[i + 1] == name[i]);
            assert(first[i + 1] == key[i]);
        }
        assert(name =~= key);
    }
}

/// A placeholder is filled in, or stays where its key has no value.
proof fn lemma_placeholder(name: Seq<char>, rest: Seq<char>, vars: Seq<Pair>)
    requires
        key_is_plain(name),
        forall|i: int, j: int|
            #![trigger vars[i], vars[j]]
            0 <= i < j < vars.len() ==> vars[i].0 != vars[j].0,
        forall|i: int| 0 <= i < vars.len() ==> key_is_plain((#[trigger] vars[i]).0),
    ensures
        rendered(token(name) + rest, vars) == Fragment::Placeholder(name).filled(vars) + rendered(
            rest,
            vars,
        ),
{
    let all = token(name) + rest;
    assert forall|i: int| 0 <= i < vars.len() && occurs_at(all, token((#[trigger] vars[i]).0), 0) implies vars[i].0
        == name by {
        lemma_tokens_differ(name, vars[i].0, rest);
    }
    lemma_key_here(all, vars, 0);
    if has_key(vars, name) {
        let k = choose|k: int| 0 <= k < vars.len() && (#[trigger] vars[k]).0 == name;
        assert(all.subrange(0, token(name).len() as int) =~= token(name));
        let found = key_here(all, vars, 0);
        assert(found <= k);
        assert(vars[found].0 == name);
        assert(found == k);
        assert(all.skip(token(name).len() as int) =~= rest);
    } else {
        lemma_no_key(all, vars);
        let body = name + seq!['}'];
        assert(all.skip(1) =~= body + rest);
        assert(free_of(body, '{'));
        lemma_passed_over(body, rest, vars);
        assert(seq!['{'] + (body + rendered(rest, vars)) =~= token(name) + rendered(rest, vars));
    }
}

/// An open brace is passed over.
proof fn lemma_open_brace(text: Seq<char>, rest: Seq<char>, vars: Seq<Pair>)
    requires
        free_of(text, '{'),
        free_of(text, '}'),
        rest.len() > 0 ==> rest[0] == '{',
        forall|i: int| 0 <= i < vars.len() ==> key_is_plain((#[trigger] vars[i]).0),
    ensures
        rendered(seq!['{'] + text + rest, vars) == seq!['{'] + text + rendered(rest, vars),
{
    let all = seq!['{'] + text + rest;
    assert forall|i: int| 0 <= i < vars.len() implies !occurs_at(
        all,
        token((#[trigger] vars[i]).0),
        0,
    ) by {
        let key = vars[i].0;
        if occurs_at(all, token(key), 0) {
            let first = all.subrange(0, token(key).len() as int);
            let (n, m) = (text.len() as int, key.len() as int);
            if m < n {
                assert(first[m + 1] == '}');
                assert(first[m + 1] == text[m]);
            } else if m == n {
                assert(first[m + 1] == '}');
                assert(first[m + 1] == rest[0]);
            } else {
                assert(first[n + 1] == key[n]);
                assert(first[n + 1] == rest[0]);
            }
        }
    }
    lemma_no_key(all, vars);
    assert(all.skip(1) =~= text + rest);
    lemma_passed_over(text, rest, vars);
    assert(seq!['{'] + (text + rendered(rest, vars)) =~= seq!['{'] + text + rendered(rest, vars));
}

} // verus!
