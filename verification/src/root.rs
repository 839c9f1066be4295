//! The protocol that finds the profile root and checks it.
//!
//! The check asks one question at a time about the machine that it runs on and
//! is told the answer, until it has a root or a reason why there is none.

use vstd::prelude::*;

use crate::paths::{components, path_under};
use crate::paths::{join_path, same_path};
use crate::profile::{Profile, ProfileError, RootSpec, Validate};
use crate::profile::{ProfileErrorView, ProfileView, RootSpecView, ValidateView};

verus! {

/// A question about the local machine.
#[derive(Debug, Clone, PartialEq, Eq)]
pub enum RootRequest {
    /// The value of an environment variable.
    ReadEnv(String),
    /// The canonical form of a path.
    Canonicalize(String),
    /// The home directory of the user.
    FindHome,
    /// Whether there is a file at a path.
    IsFile(String),
    /// Whether there is a directory at a path.
    IsDir(String),
    /// Whether a directory lies inside a Git working tree.
    IsWorkTree(String),
}

/// What a [`RootRequest`] holds.
pub enum RootRequestView {
    ReadEnv(Seq<char>),
    Canonicalize(Seq<char>),
    FindHome,
    IsFile(Seq<char>),
    IsDir(Seq<char>),
    IsWorkTree(Seq<char>),
}

impl View for RootRequest {
    type V = RootRequestView;

    open spec fn view(&self) -> RootRequestView {
        match self {
            RootRequest::ReadEnv(name) => RootRequestView::ReadEnv(name@),
            RootRequest::Canonicalize(path) => RootRequestView::Canonicalize(path@),
            RootRequest::FindHome => RootRequestView::FindHome,
            RootRequest::IsFile(path) => RootRequestView::IsFile(path@),
            RootRequest::IsDir(path) => RootRequestView::IsDir(path@),
            RootRequest::IsWorkTree(path) => RootRequestView::IsWorkTree(path@),
        }
    }
}

/// An answer to a [`RootRequest`].
#[derive(Debug, Clone, PartialEq, Eq)]
pub enum RootAnswer {
    /// A value or a path, where there is one.
    Text(Option<String>),
    /// Yes or no.
    Holds(bool),
    /// Git cannot be run.
    NoGit,
}

/// What a [`RootAnswer`] holds.
pub enum RootAnswerView {
    Text(Option<Seq<char>>),
    Holds(bool),
    NoGit,
}

impl View for RootAnswer {
    type V = RootAnswerView;

    open spec fn view(&self) -> RootAnswerView {
        match self {
            RootAnswer::Text(Some(text)) => RootAnswerView::Text(Some(text@)),
            RootAnswer::Text(None) => RootAnswerView::Text(None),
            RootAnswer::Holds(yes) => RootAnswerView::Holds(*yes),
            RootAnswer::NoGit => RootAnswerView::NoGit,
        }
    }
}

/// How far the check has come.
pub enum RootStage {
    Env(String),
    Canonical(String),
    Home(String),
    Files(String, usize),
    Dirs(String, usize),
    Git(String),
    Finished(Result<String, ProfileError>),
}

/// What a [`RootStage`] holds.
pub enum RootStageView {
    Env(Seq<char>),
    Canonical(Seq<char>),
    Home(Seq<char>),
    Files(Seq<char>, int),
    Dirs(Seq<char>, int),
    Git(Seq<char>),
    Finished(Result<Seq<char>, ProfileErrorView>),
}

/// A root or the reason why there is none, seen through the views.
pub open spec fn root_outcome(r: Result<String, ProfileError>) -> Result<
    Seq<char>,
    ProfileErrorView,
> {
    match r {
        Ok(root) => Ok(root@),
        Err(err) => Err(err@),
    }
}

impl View for RootStage {
    type V = RootStageView;

    open spec fn view(&self) -> RootStageView {
        match self {
            RootStage::Env(name) => RootStageView::Env(name@),
            RootStage::Canonical(path) => RootStageView::Canonical(path@),
            RootStage::Home(root) => RootStageView::Home(root@),
            RootStage::Files(root, i) => RootStageView::Files(root@, *i as int),
            RootStage::Dirs(root, i) => RootStageView::Dirs(root@, *i as int),
            RootStage::Git(root) => RootStageView::Git(root@),
            RootStage::Finished(r) => RootStageView::Finished(root_outcome(*r)),
        }
    }
}

/// The stage that has only Git to ask about.
pub open spec fn git_stage(rules: ValidateView, root: Seq<char>) -> RootStageView {
    if rules.git {
        RootStageView::Git(root)
    } else {
        RootStageView::Finished(Ok(root))
    }
}

/// The stage that has the required directories from position `i` on to ask
/// about.
pub open spec fn dirs_stage(rules: ValidateView, root: Seq<char>, i: int) -> RootStageView {
    if i < rules.dirs.len() {
        RootStageView::Dirs(root, i)
    } else {
        git_stage(rules, root)
    }
}

/// The stage that has the required files from position `i` on to ask about.
pub open spec fn files_stage(rules: ValidateView, root: Seq<char>, i: int) -> RootStageView {
    if i < rules.files.len() {
        RootStageView::Files(root, i)
    } else {
        dirs_stage(rules, root, 0)
    }
}

/// The first stage.
pub open spec fn first_root_stage(root: RootSpecView) -> RootStageView {
    match root {
        RootSpecView::Path(path) => RootStageView::Canonical(path),
        RootSpecView::Env(name) => RootStageView::Env(name),
    }
}

/// What a stage asks.
pub open spec fn root_request(rules: ValidateView, stage: RootStageView) -> Option<RootRequestView> {
    match stage {
        RootStageView::Env(name) => Some(RootRequestView::ReadEnv(name)),
        RootStageView::Canonical(path) => Some(RootRequestView::Canonicalize(path)),
        RootStageView::Home(_) => Some(RootRequestView::FindHome),
        RootStageView::Files(root, i) => Some(
            RootRequestView::IsFile(path_under(root, rules.files[i])),
        ),
        RootStageView::Dirs(root, i) => Some(
            RootRequestView::IsDir(path_under(root, rules.dirs[i])),
        ),
        RootStageView::Git(root) => Some(RootRequestView::IsWorkTree(root)),
        RootStageView::Finished(_) => None,
    }
}

/// Whether a root is the home directory, where there is one.
pub open spec fn is_home(root: Seq<char>, home: Option<Seq<char>>) -> bool {
    match home {
        Some(path) => components(root) == components(path),
        None => false,
    }
}

/// The stage that follows an answer. An answer that does not fit the question
/// changes nothing.
pub open spec fn next_root_stage(
    rules: ValidateView,
    stage: RootStageView,
    answer: RootAnswerView,
) -> RootStageView {
    match (stage, answer) {
        (RootStageView::Env(name), RootAnswerView::Text(value)) => match value {
            Some(path) => RootStageView::Canonical(path),
            None => RootStageView::Finished(Err(ProfileErrorView::EnvUnset(name))),
        },
        (RootStageView::Canonical(path), RootAnswerView::Text(canonical)) => match canonical {
            Some(root) => RootStageView::Home(root),
            None => RootStageView::Finished(Err(ProfileErrorView::RootMissing(path))),
        },
        (RootStageView::Home(root), RootAnswerView::Text(home)) => if is_home(root, home) {
            RootStageView::Finished(Err(ProfileErrorView::RootIsHome(home->0)))
        } else {
            files_stage(rules, root, 0)
        },
        (RootStageView::Files(root, i), RootAnswerView::Holds(present)) => if present {
            files_stage(rules, root, i + 1)
        } else {
            RootStageView::Finished(Err(ProfileErrorView::MissingFile(root, rules.files[i])))
        },
        (RootStageView::Dirs(root, i), RootAnswerView::Holds(present)) => if present {
            dirs_stage(rules, root, i + 1)
        } else {
            RootStageView::Finished(Err(ProfileErrorView::MissingDir(root, rules.dirs[i])))
        },
        (RootStageView::Git(root), RootAnswerView::Holds(inside)) => if inside {
            RootStageView::Finished(Ok(root))
        } else {
            RootStageView::Finished(Err(ProfileErrorView::NotWorkTree(root)))
        },
        (RootStageView::Git(_), RootAnswerView::NoGit) => RootStageView::Finished(
            Err(ProfileErrorView::GitUnavailable),
        ),
        _ => stage,
    }
}

/// A check of the profile root that is under way.
pub struct RootCheck<'a> {
    rules: &'a Validate,
    stage: RootStage,
}

impl<'a> RootCheck<'a> {
    /// What the root has to hold.
    pub closed spec fn rules(&self) -> ValidateView {
        self.rules@
    }

    /// How far the check has come.
    pub closed spec fn stage(&self) -> RootStageView {
        self.stage@
    }

    #[verifier::type_invariant]
    spec fn in_range(&self) -> bool {
        match self.stage {
            RootStage::Files(_, i) => i < self.rules.files.len(),
            RootStage::Dirs(_, i) => i < self.rules.dirs.len(),
            _ => true,
        }
    }

    /// What the check asks next, if it goes on.
    pub fn request(&self) -> (r: Option<RootRequest>)
        ensures
            (match r {
                Some(request) => Some(request@),
                None => None,
            }) == root_request(self.rules(), self.stage()),
    {
        proof {
            use_type_invariant(self);
        }
        match &self.stage {
            RootStage::Env(name) => Some(RootRequest::ReadEnv(name.clone())),
            RootStage::Canonical(path) => Some(RootRequest::Canonicalize(path.clone())),
            RootStage::Home(_) => Some(RootRequest::FindHome),
            RootStage::Files(root, i) => Some(
                RootRequest::IsFile(join_path(root.as_str(), self.rules.files[*i].as_str())),
            ),
            RootStage::Dirs(root, i) => Some(
                RootRequest::IsDir(join_path(root.as_str(), self.rules.dirs[*i].as_str())),
            ),
            RootStage::Git(root) => Some(RootRequest::IsWorkTree(root.clone())),
            RootStage::Finished(_) => None,
        }
    }

    /// The check after an answer to its question.
    pub fn answer(self, answer: RootAnswer) -> (r: RootCheck<'a>)
        ensures
            r.rules() == self.rules(),
            r.stage() == next_root_stage(self.rules(), self.stage(), answer@),
    {
        proof {
            use_type_invariant(&self);
        }
        let rules = self.rules;
        let stage = match (self.stage, answer) {
            (RootStage::Env(name), RootAnswer::Text(value)) => match value {
                Some(path) => RootStage::Canonical(path),
                None => RootStage::Finished(Err(ProfileError::EnvUnset(name))),
            },
            (RootStage::Canonical(path), RootAnswer::Text(canonical)) => match canonical {
                Some(root) => RootStage::Home(root),
                None => RootStage::Finished(Err(ProfileError::RootMissing(path))),
            },
            (RootStage::Home(root), RootAnswer::Text(home)) => match home {
                Some(path) => if same_path(root.as_str(), path.as_str()) {
                    RootStage::Finished(Err(ProfileError::RootIsHome(path)))
                } else {
                    files_from(rules, root, 0)
                },
                None => files_from(rules, root, 0),
            },
            (RootStage::Files(root, i), RootAnswer::Holds(present)) => if present {
                files_from(rules, root, i + 1)
            } else {
                RootStage::Finished(
                    Err(ProfileError::MissingFile { root, path: rules.files[i].clone() }),
                )
            },
            (RootStage::Dirs(root, i), RootAnswer::Holds(present)) => if present {
                dirs_from(rules, root, i + 1)
            } else {
                RootStage::Finished(
                    Err(ProfileError::MissingDir { root, path: rules.dirs[i].clone() }),
                )
            },
            (RootStage::Git(root), RootAnswer::Holds(inside)) => if inside {
                RootStage::Finished(Ok(root))
            } else {
                RootStage::Finished(Err(ProfileError::NotWorkTree(root)))
            },
            (RootStage::Git(_), RootAnswer::NoGit) => RootStage::Finished(
                Err(ProfileError::GitUnavailable),
            ),
            (stage, _) => stage,
        };
        RootCheck { rules, stage }
    }

    /// The root or the reason why there is none, once the check is through.
    pub fn outcome(self) -> (r: Option<Result<String, ProfileError>>)
        ensures
            match r {
                Some(outcome) => self.stage() == RootStageView::Finished(root_outcome(outcome)),
                None => !(self.stage() is Finished),
            },
    {
        match self.stage {
            RootStage::Finished(outcome) => Some(outcome),
            _ => None,
        }
    }
}

/// The stage that has the required directories from position `i` on to ask
/// about.
fn dirs_from(rules: &Validate, root: String, i: usize) -> (r: RootStage)
    ensures
        r@ == dirs_stage(rules@, root@, i as int),
        r matches RootStage::Dirs(_, j) ==> j < rules.dirs.len(),
        !(r is Files),
{
    if i < rules.dirs.len() {
        RootStage::Dirs(root, i)
    } else if rules.git {
        RootStage::Git(root)
    } else {
        RootStage::Finished(Ok(root))
    }
}

/// The stage that has the required files from position `i` on to ask about.
fn files_from(rules: &Validate, root: String, i: usize) -> (r: RootStage)
    ensures
        r@ == files_stage(rules@, root@, i as int),
        r matches RootStage::Files(_, j) ==> j < rules.files.len(),
        r matches RootStage::Dirs(_, j) ==> j < rules.dirs.len(),
{
    if i < rules.files.len() {
        RootStage::Files(root, i)
    } else {
        dirs_from(rules, root, 0)
    }
}

impl Profile {
    /// Begins to resolve the profile root and to check it against the rules of
    /// the profile.
    pub fn resolve_root(&self) -> (r: RootCheck<'_>)
        ensures
            r.rules() == self@.validate,
            r.stage() == first_root_stage(self@.root),
    {
        let stage = match &self.root {
            RootSpec::Path(path) => RootStage::Canonical(path.clone()),
            RootSpec::Env { root_env } => RootStage::Env(root_env.clone()),
        };
        RootCheck { rules: &self.validate, stage }
    }
}

/// Answers about one machine that does not change: how each question is answered
/// there.
pub struct Machine {
    pub env: spec_fn(Seq<char>) -> Option<Seq<char>>,
    pub canonical: spec_fn(Seq<char>) -> Option<Seq<char>>,
    pub home: Option<Seq<char>>,
    pub is_file: spec_fn(Seq<char>) -> bool,
    pub is_dir: spec_fn(Seq<char>) -> bool,
    pub work_tree: spec_fn(Seq<char>) -> Option<bool>,
}

impl Machine {
    /// How a question is answered.
    pub open spec fn reply(self, request: RootRequestView) -> RootAnswerView {
        match request {
            RootRequestView::ReadEnv(name) => RootAnswerView::Text((self.env)(name)),
            RootRequestView::Canonicalize(path) => RootAnswerView::Text((self.canonical)(path)),
            RootRequestView::FindHome => RootAnswerView::Text(self.home),
            RootRequestView::IsFile(path) => RootAnswerView::Holds((self.is_file)(path)),
            RootRequestView::IsDir(path) => RootAnswerView::Holds((self.is_dir)(path)),
            RootRequestView::IsWorkTree(path) => match (self.work_tree)(path) {
                Some(inside) => RootAnswerView::Holds(inside),
                None => RootAnswerView::NoGit,
            },
        }
    }
}

/// The first of `paths` from position `i` on that `present` denies below `root`.
pub open spec fn first_missing(
    paths: Seq<Seq<char>>,
    present: spec_fn(Seq<char>) -> bool,
    root: Seq<char>,
    i: int,
) -> Option<Seq<char>>
    decreases paths.len() - i,
{
    if i < 0 || i >= paths.len() {
        None
    } else if !present(path_under(root, paths[i])) {
        Some(paths[i])
    } else {
        first_missing(paths, present, root, i + 1)
    }
}

/// What is left to say of a root once its files and directories are there.
pub open spec fn git_verdict(rules: ValidateView, root: Seq<char>, machine: Machine) -> Result<
    Seq<char>,
    ProfileErrorView,
> {
    if !rules.git {
        Ok(root)
    } else {
        match (machine.work_tree)(root) {
            None => Err(ProfileErrorView::GitUnavailable),
            Some(false) => Err(ProfileErrorView::NotWorkTree(root)),
            Some(true) => Ok(root),
        }
    }
}

/// What is said of a root by the required directories from position `i` on,
/// and then by Git.
pub open spec fn dirs_verdict(rules: ValidateView, root: Seq<char>, machine: Machine, i: int) -> Result<
    Seq<char>,
    ProfileErrorView,
> {
    match first_missing(rules.dirs, machine.is_dir, root, i) {
        Some(path) => Err(ProfileErrorView::MissingDir(root, path)),
        None => git_verdict(rules, root, machine),
    }
}

/// What is said of a root by the required files from position `i` on, and then
/// by the required directories and by Git.
pub open spec fn files_verdict(
    rules: ValidateView,
    root: Seq<char>,
    machine: Machine,
    i: int,
) -> Result<Seq<char>, ProfileErrorView> {
    match first_missing(rules.files, machine.is_file, root, i) {
        Some(path) => Err(ProfileErrorView::MissingFile(root, path)),
        None => dirs_verdict(rules, root, machine, 0),
    }
}

/// The root that a path leads to: its canonical form, which is not the home
/// directory and holds what the rules ask for.
pub open spec fn root_at(rules: ValidateView, path: Seq<char>, machine: Machine) -> Result<
    Seq<char>,
    ProfileErrorView,
> {
    match (machine.canonical)(path) {
        None => Err(ProfileErrorView::RootMissing(path)),
        Some(root) => if is_home(root, machine.home) {
            Err(ProfileErrorView::RootIsHome(machine.home->0))
        } else {
            files_verdict(rules, root, machine, 0)
        },
    }
}

/// The root of a profile on a machine.
pub open spec fn root_on(profile: ProfileView, machine: Machine) -> Result<
    Seq<char>,
    ProfileErrorView,
> {
    match profile.root {
        RootSpecView::Path(path) => root_at(profile.validate, path, machine),
        RootSpecView::Env(name) => match (machine.env)(name) {
            None => Err(ProfileErrorView::EnvUnset(name)),
            Some(path) => root_at(profile.validate, path, machine),
        },
    }
}

/// The stage after `n` questions, each answered as on `machine`.
pub open spec fn root_stage_after(
    rules: ValidateView,
    stage: RootStageView,
    machine: Machine,
    n: nat,
) -> RootStageView
    decreases n,
{
    if n == 0 {
        stage
    } else {
        match root_request(rules, stage) {
            None => stage,
            Some(request) => root_stage_after(
                rules,
                next_root_stage(rules, stage, machine.reply(request)),
                machine,
                (n - 1) as nat,
            ),
        }
    }
}

/// The check comes to an end: after at most one question for each required file
/// and directory and four more, it has found the root of the profile on that
/// machine, or why there is none.
pub proof fn law_root_check_finds_the_root(profile: ProfileView, machine: Machine, n: nat)
    requires
        n >= profile.validate.files.len() + profile.validate.dirs.len() + 4,
    ensures
        root_stage_after(profile.validate, first_root_stage(profile.root), machine, n)
            == RootStageView::Finished(root_on(profile, machine)),
{
    match profile.root {
        RootSpecView::Path(path) => {
            lemma_from_path(profile.validate, path, machine, n);
        },
        RootSpecView::Env(name) => {
            match (machine.env)(name) {
                None => {
                    lemma_finished(
                        profile.validate,
                        Err(ProfileErrorView::EnvUnset(name)),
                        machine,
                        (n - 1) as nat,
                    );
                },
                Some(path) => {
                    lemma_from_path(profile.validate, path, machine, (n - 1) as nat);
                },
            }
        },
    }
}

/// A root that is accepted is the canonical form of a path, is not the home
/// directory, holds every required file and directory, and lies in a Git
/// working tree where the profile asks for that.
pub proof fn law_accepted_root_is_valid(profile: ProfileView, machine: Machine)
    ensures
        root_on(profile, machine) matches Ok(root) ==> {
            &&& !is_home(root, machine.home)
            &&& exists|path: Seq<char>| #[trigger] (machine.canonical)(path) == Some(root)
            &&& forall|i: int|
                0 <= i < profile.validate.files.len() ==> (machine.is_file)(
                    path_under(root, #[trigger] profile.validate.files[i]),
                )
            &&& forall|i: int|
                0 <= i < profile.validate.dirs.len() ==> (machine.is_dir)(
                    path_under(root, #[trigger] profile.validate.dirs[i]),
                )
            &&& profile.validate.git ==> (machine.work_tree)(root) == Some(true)
        },
{
    if let Ok(root) = root_on(profile, machine) {
        lemma_none_missing(profile.validate.files, machine.is_file, root, 0);
        lemma_none_missing(profile.validate.dirs, machine.is_dir, root, 0);
        match profile.root {
            RootSpecView::Path(path) => {
                assert((machine.canonical)(path) == Some(root));
            },
            RootSpecView::Env(name) => {
                let path = (machine.env)(name)->0;
                assert((machine.canonical)(path) == Some(root));
            },
        }
    }
}

proof fn lemma_none_missing(
    paths: Seq<Seq<char>>,
    present: spec_fn(Seq<char>) -> bool,
    root: Seq<char>,
    i: int,
)
    requires
        0 <= i <= paths.len(),
    ensures
        first_missing(paths, present, root, i) is None ==> forall|j: int|
            i <= j < paths.len() ==> present(path_under(root, #[trigger] paths[j])),
    decreases paths.len() - i,
{
    if i < paths.len() {
        lemma_none_missing(paths, present, root, i + 1);
    }
}

proof fn lemma_finished(
    rules: ValidateView,
    outcome: Result<Seq<char>, ProfileErrorView>,
    machine: Machine,
    n: nat,
)
    ensures
        root_stage_after(rules, RootStageView::Finished(outcome), machine, n)
            == RootStageView::Finished(outcome),
{
}

proof fn lemma_from_path(rules: ValidateView, path: Seq<char>, machine: Machine, n: nat)
    requires
        n >= rules.files.len() + rules.dirs.len() + 3,
    ensures
        root_stage_after(rules, RootStageView::Canonical(path), machine, n)
            == RootStageView::Finished(root_at(rules, path, machine)),
{
    let left = (n - 1) as nat;
    match (machine.canonical)(path) {
        None => {
            lemma_finished(rules, Err(ProfileErrorView::RootMissing(path)), machine, left);
        },
        Some(root) => {
            let home = RootStageView::Home(root);
            assert(root_request(rules, RootStageView::Canonical(path)) == Some(
                RootRequestView::Canonicalize(path),
            ));
            assert(next_root_stage(
                rules,
                RootStageView::Canonical(path),
                machine.reply(RootRequestView::Canonicalize(path)),
            ) == home);
            assert(root_stage_after(rules, RootStageView::Canonical(path), machine, n)
                == root_stage_after(rules, home, machine, left));
            if is_home(root, machine.home) {
                lemma_finished(
                    rules,
                    Err(ProfileErrorView::RootIsHome(machine.home->0)),
                    machine,
                    (n - 2) as nat,
                );
            } else {
                lemma_from_files(rules, root, machine, 0, (n - 2) as nat);
            }
        },
    }
}

proof fn lemma_from_files(rules: ValidateView, root: Seq<char>, machine: Machine, i: int, n: nat)
    requires
        0 <= i <= rules.files.len(),
        n >= rules.files.len() - i + rules.dirs.len() + 1,
    ensures
        root_stage_after(rules, files_stage(rules, root, i), machine, n) == RootStageView::Finished(
            files_verdict(rules, root, machine, i),
        ),
    decreases rules.files.len() - i,
{
    if i < rules.files.len() {
        let left = (n - 1) as nat;
        if (machine.is_file)(path_under(root, rules.files[i])) {
            lemma_from_files(rules, root, machine, i + 1, left);
        } else {
            lemma_finished(
                rules,
                Err(ProfileErrorView::MissingFile(root, rules.files[i])),
                machine,
                left,
            );
        }
    } else {
        lemma_from_dirs(rules, root, machine, 0, n);
    }
}

proof fn lemma_from_dirs(rules: ValidateView, root: Seq<char>, machine: Machine, i: int, n: nat)
    requires
        0 <= i <= rules.dirs.len(),
        n >= rules.dirs.len() - i + 1,
    ensures
        root_stage_after(rules, dirs_stage(rules, root, i), machine, n) == RootStageView::Finished(
            dirs_verdict(rules, root, machine, i),
        ),
    decreases rules.dirs.len() - i,
{
    let left = (n - 1) as nat;
    if i < rules.dirs.len() {
        if (machine.is_dir)(path_under(root, rules.dirs[i])) {
            lemma_from_dirs(rules, root, machine, i + 1, left);
        } else {
            lemma_finished(
                rules,
                Err(ProfileErrorView::MissingDir(root, rules.dirs[i])),
                machine,
                left,
            );
        }
    } else {
        lemma_finished(rules, git_verdict(rules, root, machine), machine, left);
        lemma_finished(rules, git_verdict(rules, root, machine), machine, n);
    }
}

} // verus!
