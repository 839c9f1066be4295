//! Where the configuration is looked for.

use vstd::prelude::*;

use crate::paths::join_path;
use crate::paths::path_under;
use crate::profile::Profile;
use crate::session::optional_text;
use crate::text::texts;

verus! {

/// A configuration: a single profile.
#[derive(Debug, Clone)]
pub struct Config {
    pub profile: Profile,
}

/// Why there is no configuration.
#[derive(Debug, Clone, PartialEq, Eq)]
pub enum ConfigError {
    NotFound { tried: Vec<String> },
    Read { path: String, source: String },
    Parse { path: String, source: String },
}

/// What a [`ConfigError`] holds.
pub enum ConfigErrorView {
    NotFound { tried: Seq<Seq<char>> },
    Read { path: Seq<char>, source: Seq<char> },
    Parse { path: Seq<char>, source: Seq<char> },
}

impl View for ConfigError {
    type V = ConfigErrorView;

    open spec fn view(&self) -> ConfigErrorView {
        match self {
            ConfigError::NotFound { tried } => ConfigErrorView::NotFound { tried: texts(tried@) },
            ConfigError::Read { path, source } => ConfigErrorView::Read {
                path: path@,
                source: source@,
            },
            ConfigError::Parse { path, source } => ConfigErrorView::Parse {
                path: path@,
                source: source@,
            },
        }
    }
}

/// The items of a list, with a comma between them.
pub open spec fn comma_list(items: Seq<Seq<char>>) -> Seq<char>
    decreases items.len(),
{
    if items.len() == 0 {
        seq![]
    } else if items.len() == 1 {
        items[0]
    } else {
        comma_list(items.drop_last()) + ", "@ + items.last()
    }
}

impl ConfigErrorView {
    /// The text shown to the user.
    pub open spec fn message(self) -> Seq<char> {
        match self {
            ConfigErrorView::NotFound { tried } => "no config file found, tried: "@ + comma_list(
                tried,
            ),
            ConfigErrorView::Read { path, source } => "failed to read "@ + path + ": "@ + source,
            ConfigErrorView::Parse { path, source } => "failed to parse "@ + path + ": "@ + source,
        }
    }
}

impl ConfigError {
    /// The text shown to the user.
    pub fn message(&self) -> (r: String)
        ensures
            r@ == self@.message(),
    {
        match self {
            ConfigError::NotFound { tried } => {
                let mut r = "no config file found, tried: ".to_owned();
                let ghost head = r@;
                let ghost all = texts(tried@);
                let mut i: usize = 0;
                proof {
                    assert(head + comma_list(all.take(0)) =~= head);
                }
                while i < tried.len()
                    invariant
                        i <= tried@.len(),
                        all == texts(tried@),
                        r@ == head + comma_list(all.take(i as int)),
                    decreases tried@.len() - i,
                {
                    if i > 0 {
                        r.append(", ");
                    }
                    r.append(tried[i].as_str());
                    proof {
                        assert(all.take(i + 1).drop_last() =~= all.take(i as int));
                        assert(all.take(i + 1).last() == all[i as int]);
                        assert(r@ =~= head + comma_list(all.take(i + 1)));
                    }
                    i = i + 1;
                }
                proof {
                    assert(all.take(i as int) =~= all);
                }
                r
            },
            ConfigError::Read { path, source } => {
                let mut r = "failed to read ".to_owned();
                r.append(path.as_str());
                r.append(": ");
                r.append(source.as_str());
                r
            },
            ConfigError::Parse { path, source } => {
                let mut r = "failed to parse ".to_owned();
                r.append(path.as_str());
                r.append(": ");
                r.append(source.as_str());
                r
            },
        }
    }
}

/// What the environment says about configurations.
#[derive(Debug, Clone, PartialEq, Eq)]
pub struct Places {
    /// The value of `NOMAD_CONFIG`.
    pub nomad_config: Option<String>,
    /// The value of `XDG_CONFIG_HOME`.
    pub config_home: Option<String>,
    /// The home directory.
    pub home: Option<String>,
}

/// What [`Places`] hold.
pub struct PlacesView {
    pub nomad_config: Option<Seq<char>>,
    pub config_home: Option<Seq<char>>,
    pub home: Option<Seq<char>>,
}

impl View for Places {
    type V = PlacesView;

    open spec fn view(&self) -> PlacesView {
        PlacesView {
            nomad_config: optional_text(self.nomad_config),
            config_home: optional_text(self.config_home),
            home: optional_text(self.home),
        }
    }
}

/// The file that was asked for by name: on the command line, or else by a value
/// of `NOMAD_CONFIG` that is not empty.
pub open spec fn named_config(cli_path: Option<Seq<char>>, places: PlacesView) -> Option<Seq<char>> {
    match cli_path {
        Some(path) => Some(path),
        None => match places.nomad_config {
            Some(path) => if path.len() > 0 {
                Some(path)
            } else {
                None
            },
            None => None,
        },
    }
}

/// The files that are looked for where none was asked for by name.
pub open spec fn usual_configs(places: PlacesView) -> Seq<Seq<char>> {
    (match places.config_home {
        Some(dir) => seq![path_under(dir, "nomad/config.toml"@)],
        None => seq![],
    }) + (match places.home {
        Some(dir) => seq![path_under(dir, ".config/nomad/config.toml"@)],
        None => seq![],
    })
}

/// How far a search has come.
pub enum SearchStage {
    Looking { usual: Vec<String>, next: usize },
    Finished(Result<String, ConfigError>),
}

/// What a [`SearchStage`] holds.
pub enum SearchStageView {
    Looking { usual: Seq<Seq<char>>, next: int },
    Finished(Result<Seq<char>, ConfigErrorView>),
}

/// A path or the reason why there is none, seen through the views.
pub open spec fn search_outcome(r: Result<String, ConfigError>) -> Result<
    Seq<char>,
    ConfigErrorView,
> {
    match r {
        Ok(path) => Ok(path@),
        Err(err) => Err(err@),
    }
}

impl View for SearchStage {
    type V = SearchStageView;

    open spec fn view(&self) -> SearchStageView {
        match self {
            SearchStage::Looking { usual, next } => SearchStageView::Looking {
                usual: texts(usual@),
                next: *next as int,
            },
            SearchStage::Finished(outcome) => SearchStageView::Finished(search_outcome(*outcome)),
        }
    }
}

/// The stage that has the usual files from position `next` on to look for.
pub open spec fn looking_stage(usual: Seq<Seq<char>>, next: int) -> SearchStageView {
    if next < usual.len() {
        SearchStageView::Looking { usual, next }
    } else {
        SearchStageView::Finished(Err(ConfigErrorView::NotFound { tried: usual }))
    }
}

/// The first stage.
pub open spec fn first_search_stage(
    cli_path: Option<Seq<char>>,
    places: PlacesView,
) -> SearchStageView {
    match named_config(cli_path, places) {
        Some(path) => SearchStageView::Finished(Ok(path)),
        None => looking_stage(usual_configs(places), 0),
    }
}

/// The file that a stage asks about.
pub open spec fn search_request(stage: SearchStageView) -> Option<Seq<char>> {
    match stage {
        SearchStageView::Looking { usual, next } => Some(usual[next]),
        SearchStageView::Finished(_) => None,
    }
}

/// The stage that follows the answer whether the file is there.
pub open spec fn next_search_stage(stage: SearchStageView, is_file: bool) -> SearchStageView {
    match stage {
        SearchStageView::Looking { usual, next } => if is_file {
            SearchStageView::Finished(Ok(usual[next]))
        } else {
            looking_stage(usual, next + 1)
        },
        SearchStageView::Finished(_) => stage,
    }
}

/// A search for the configuration that is under way.
pub struct ConfigSearch {
    stage: SearchStage,
}

/// Goes on with the usual files from position `next` on.
fn look_from(usual: Vec<String>, next: usize) -> (r: SearchStage)
    ensures
        r@ == looking_stage(texts(usual@), next as int),
        r matches SearchStage::Looking { usual: u, next: n } ==> n < u.len(),
{
    if next < usual.len() {
        SearchStage::Looking { usual, next }
    } else {
        SearchStage::Finished(Err(ConfigError::NotFound { tried: usual }))
    }
}

impl ConfigSearch {
    /// How far the search has come.
    pub closed spec fn stage(&self) -> SearchStageView {
        self.stage@
    }

    #[verifier::type_invariant]
    spec fn in_range(&self) -> bool {
        match self.stage {
            SearchStage::Looking { usual, next } => next < usual.len(),
            SearchStage::Finished(_) => true,
        }
    }

    /// The file that the search asks about, if it goes on.
    pub fn request(&self) -> (r: Option<String>)
        ensures
            optional_text(r) == search_request(self.stage()),
    {
        proof {
            use_type_invariant(self);
        }
        match &self.stage {
            SearchStage::Looking { usual, next } => Some(usual[*next].clone()),
            SearchStage::Finished(_) => None,
        }
    }

    /// The search after the answer whether there is a file.
    pub fn answer(self, is_file: bool) -> (r: ConfigSearch)
        ensures
            r.stage() == next_search_stage(self.stage(), is_file),
    {
        proof {
            use_type_invariant(&self);
        }
        let stage = match self.stage {
            SearchStage::Looking { usual, next } => if is_file {
                SearchStage::Finished(Ok(usual[next].clone()))
            } else {
                look_from(usual, next + 1)
            },
            stage => stage,
        };
        ConfigSearch { stage }
    }

    /// The path of the configuration or the reason why there is none, once the
    /// search is through.
    pub fn outcome(self) -> (r: Option<Result<String, ConfigError>>)
        ensures
            match r {
                Some(outcome) => self.stage() == SearchStageView::Finished(search_outcome(outcome)),
                None => !(self.stage() is Finished),
            },
    {
        match self.stage {
            SearchStage::Finished(outcome) => Some(outcome),
            _ => None,
        }
    }
}

/// Begins to look for the configuration, in this order: the path on the command
/// line, `$NOMAD_CONFIG`, `$XDG_CONFIG_HOME/nomad/config.toml`, and
/// `~/.config/nomad/config.toml`. Only the last two have to be there.
pub fn resolve_config_path(cli_path: &Option<String>, places: &Places) -> (r: ConfigSearch)
    ensures
        r.stage() == first_search_stage(optional_text(*cli_path), places@),
{
    if let Some(path) = cli_path {
        return ConfigSearch { stage: SearchStage::Finished(Ok(path.clone())) };
    }
    if let Some(path) = &places.nomad_config {
        if !path.as_str().is_empty() {
            return ConfigSearch { stage: SearchStage::Finished(Ok(path.clone())) };
        }
    }
    let mut usual: Vec<String> = Vec::new();
    let ghost first = match places@.config_home {
        Some(dir) => seq![path_under(dir, "nomad/config.toml"@)],
        None => seq![],
    };
    if let Some(dir) = &places.config_home {
        usual.push(join_path(dir.as_str(), "nomad/config.toml"));
    }
    proof {
        assert(texts(usual@) =~= first);
    }
    if let Some(dir) = &places.home {
        usual.push(join_path(dir.as_str(), ".config/nomad/config.toml"));
    }
    proof {
        assert(texts(usual@) =~= usual_configs(places@));
    }
    ConfigSearch { stage: look_from(usual, 0) }
}

/// The first of the usual files from position `i` on that is there.
pub open spec fn first_present(
    usual: Seq<Seq<char>>,
    is_file: spec_fn(Seq<char>) -> bool,
    i: int,
) -> Option<Seq<char>>
    decreases usual.len() - i,
{
    if i < 0 || i >= usual.len() {
        None
    } else if is_file(usual[i]) {
        Some(usual[i])
    } else {
        first_present(usual, is_file, i + 1)
    }
}

/// The configuration that is found where `is_file` tells which files are there:
/// the one asked for by name, or else the first of the usual ones.
pub open spec fn config_found(
    cli_path: Option<Seq<char>>,
    places: PlacesView,
    is_file: spec_fn(Seq<char>) -> bool,
) -> Result<Seq<char>, ConfigErrorView> {
    match named_config(cli_path, places) {
        Some(path) => Ok(path),
        None => match first_present(usual_configs(places), is_file, 0) {
            Some(path) => Ok(path),
            None => Err(ConfigErrorView::NotFound { tried: usual_configs(places) }),
        },
    }
}

/// The stage of a search after `n` answers.
pub open spec fn search_after(
    stage: SearchStageView,
    is_file: spec_fn(Seq<char>) -> bool,
    n: nat,
) -> SearchStageView
    decreases n,
{
    if n == 0 {
        stage
    } else {
        match search_request(stage) {
            None => stage,
            Some(path) => search_after(
                next_search_stage(stage, is_file(path)),
                is_file,
                (n - 1) as nat,
            ),
        }
    }
}

/// A search is through after at most two answers, and finds the first file in
/// the order of precedence, or names every file that it has looked for.
pub proof fn law_search_follows_the_precedence(
    cli_path: Option<Seq<char>>,
    places: PlacesView,
    is_file: spec_fn(Seq<char>) -> bool,
    n: nat,
)
    requires
        n >= 2,
    ensures
        search_after(first_search_stage(cli_path, places), is_file, n) == SearchStageView::Finished(
            config_found(cli_path, places, is_file),
        ),
{
    if named_config(cli_path, places) is None {
        lemma_looking(usual_configs(places), is_file, 0, n);
    }
}

proof fn lemma_looking(
    usual: Seq<Seq<char>>,
    is_file: spec_fn(Seq<char>) -> bool,
    i: int,
    n: nat,
)
    requires
        0 <= i <= usual.len(),
        n >= usual.len() - i,
    ensures
        search_after(looking_stage(usual, i), is_file, n) == SearchStageView::Finished(
            match first_present(usual, is_file, i) {
                Some(path) => Ok(path),
                None => Err(ConfigErrorView::NotFound { tried: usual }),
            },
        ),
    decreases usual.len() - i,
{
    if i < usual.len() {
        if is_file(usual[i]) {
            let found = SearchStageView::Finished(Ok(usual[i]));
            assert(search_after(found, is_file, (n - 1) as nat) == found);
        } else {
            lemma_looking(usual, is_file, i + 1, (n - 1) as nat);
        }
    }
}

} // verus!
