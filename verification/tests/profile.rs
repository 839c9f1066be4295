use nomad_env::paths::{join_path, sort_paths};
use nomad_env::payload::{manifest_items, PayloadAnswer, PayloadRequest};
use nomad_env::profile::{
    default_true, Directories, Launchers, Payload, ProfileError, RootSpec, Validate,
};
use nomad_env::root::{RootAnswer, RootRequest};
use nomad_env::text_map::TextMap;
use nomad_env::Profile;

fn texts(v: &[&str]) -> Vec<String> {
    v.iter().map(|s| s.to_string()).collect()
}

fn profile(git: bool, manifest: Option<&str>) -> Profile {
    Profile {
        name: "test".into(),
        root: RootSpec::Env { root_env: "DOTFILES_DIR".into() },
        validate: Validate { git, files: texts(&[".zshrc"]), dirs: texts(&[".config"]) },
        payload: Payload {
            manifest: manifest.map(|s| s.to_string()),
            extra: texts(&["versions.toml"]),
        },
        environment: TextMap::new(),
        directories: Directories::default(),
        launchers: Launchers { zsh: vec![], bash: vec![] },
    }
}

/// A machine with a valid root at `/repo`, but for what `deny` names.
fn machine(request: &RootRequest, deny: &str) -> RootAnswer {
    match request {
        RootRequest::ReadEnv(name) => {
            assert_eq!(name, "DOTFILES_DIR");
            if deny == "env" {
                RootAnswer::Text(None)
            } else {
                RootAnswer::Text(Some("/link/repo".to_string()))
            }
        }
        RootRequest::Canonicalize(path) => {
            assert_eq!(path, "/link/repo");
            if deny == "canonical" {
                RootAnswer::Text(None)
            } else {
                RootAnswer::Text(Some("/repo".to_string()))
            }
        }
        RootRequest::FindHome => {
            let home = if deny == "home" { "/repo/" } else { "/home/me" };
            RootAnswer::Text(Some(home.to_string()))
        }
        RootRequest::IsFile(path) => {
            assert_eq!(path, "/repo/.zshrc");
            RootAnswer::Holds(deny != "file")
        }
        RootRequest::IsDir(path) => {
            assert_eq!(path, "/repo/.config");
            RootAnswer::Holds(deny != "dir")
        }
        RootRequest::IsWorkTree(path) => {
            assert_eq!(path, "/repo");
            if deny == "no git" {
                RootAnswer::NoGit
            } else {
                RootAnswer::Holds(deny != "git")
            }
        }
    }
}

fn resolved(deny: &str) -> Result<String, ProfileError> {
    let profile = profile(true, None);
    let mut check = profile.resolve_root();
    while let Some(request) = check.request() {
        let answer = machine(&request, deny);
        check = check.answer(answer);
    }
    check.outcome().unwrap()
}

#[test]
fn root_is_found_and_checked() {
    assert_eq!(resolved(""), Ok("/repo".to_string()));
}

#[test]
fn root_that_fails_a_check_is_refused() {
    let message = |deny: &str| resolved(deny).unwrap_err().message();
    assert_eq!(message("env"), "environment variable DOTFILES_DIR is not set");
    assert_eq!(message("canonical"), "profile root does not exist: /link/repo");
    assert_eq!(message("home"), "refusing to use /repo/ as the profile root");
    assert_eq!(
        message("file"),
        "profile root does not look valid: /repo (missing file .zshrc)"
    );
    assert_eq!(
        message("dir"),
        "profile root does not look valid: /repo (missing directory .config)"
    );
    assert_eq!(message("git"), "profile root must be a Git working tree: /repo");
    assert_eq!(message("no git"), "git must be installed locally");
}

#[test]
fn root_can_be_a_path_without_rules() {
    let mut profile = profile(false, None);
    profile.root = RootSpec::Path("/repo".to_string());
    profile.validate = Validate::default();
    let check = profile.resolve_root();
    assert_eq!(check.request(), Some(RootRequest::Canonicalize("/repo".to_string())));
    let check = check.answer(RootAnswer::Text(Some("/repo".to_string())));
    assert_eq!(check.request(), Some(RootRequest::FindHome));
    let check = check.answer(RootAnswer::Text(None));
    assert_eq!(check.outcome(), Some(Ok("/repo".to_string())));
}

#[test]
fn manifest_skips_blank_lines_and_comments() {
    assert_eq!(
        manifest_items("# terminal\n.zshrc\r\n\n  .config/git  \n#.vimrc\n\t\nbin"),
        texts(&[".zshrc", ".config/git", "bin"])
    );
}

#[test]
fn payload_without_a_manifest_is_what_is_always_shipped() {
    let profile = profile(true, None);
    let listing = profile.payload_paths("/repo");
    assert_eq!(listing.request(), None);
    assert_eq!(listing.finish().ok().unwrap(), Ok(texts(&["versions.toml"])));
}

#[test]
fn payload_is_what_git_tracks() {
    let profile = profile(true, Some("profiles/terminal.links"));
    let listing = profile.payload_paths("/repo");
    assert_eq!(
        listing.request(),
        Some(PayloadRequest::ReadManifest("/repo/profiles/terminal.links".to_string()))
    );
    let listing = listing.answer(PayloadAnswer::Manifest(Some(".config\n.zshrc\n".to_string())));
    assert_eq!(listing.request(), Some(PayloadRequest::ListTracked(".config".to_string())));
    let listing = listing.answer(PayloadAnswer::Listing(Some(b".config/a\n.config/b\n".to_vec())));
    assert_eq!(listing.request(), Some(PayloadRequest::ListTracked(".zshrc".to_string())));
    let listing = listing.answer(PayloadAnswer::Listing(Some(b".zshrc\n".to_vec())));
    assert_eq!(
        listing.finish().ok().unwrap(),
        Ok(texts(&[".config/a", ".config/b", ".zshrc", "versions.toml"]))
    );
}

#[test]
fn payload_of_a_plain_directory_is_the_manifest() {
    let profile = profile(false, Some("/etc/links"));
    let listing = profile.payload_paths("/repo");
    assert_eq!(listing.request(), Some(PayloadRequest::ReadManifest("/etc/links".to_string())));
    let listing = listing.answer(PayloadAnswer::Manifest(Some("a\nb\n".to_string())));
    assert_eq!(listing.finish().ok().unwrap(), Ok(texts(&["a", "b", "versions.toml"])));
}

#[test]
fn payload_that_cannot_be_listed_is_an_error() {
    let profile = profile(true, Some("links"));
    let listing = profile.payload_paths("/repo").answer(PayloadAnswer::Manifest(None));
    assert_eq!(
        listing.finish().ok().unwrap().unwrap_err().message(),
        "failed to read payload manifest /repo/links"
    );
    let asking = || {
        profile.payload_paths("/repo").answer(PayloadAnswer::Manifest(Some("x\n".to_string())))
    };
    let listing = asking().answer(PayloadAnswer::Listing(Some(b"\n".to_vec())));
    assert_eq!(
        listing.finish().ok().unwrap().unwrap_err().message(),
        "payload manifest entry is not tracked: x"
    );
    let listing = asking().answer(PayloadAnswer::Listing(None));
    assert_eq!(listing.finish().ok().unwrap(), Err(ProfileError::GitUnavailable));
}

#[test]
fn git_output_is_decoded_leniently() {
    let profile = profile(true, Some("links"));
    let listing = profile
        .payload_paths("/repo")
        .answer(PayloadAnswer::Manifest(Some("x\n".to_string())))
        .answer(PayloadAnswer::Listing(Some(vec![b'x', 0xff, b'\n'])));
    assert_eq!(listing.finish().ok().unwrap(), Ok(texts(&["x\u{fffd}", "versions.toml"])));
}

#[test]
fn templates_are_rendered_with_quoted_values() {
    let mut vars = TextMap::new();
    vars.insert("shell".to_string(), "/bin/zsh".to_string());
    vars.insert("remote_root".to_string(), "/tmp/it's".to_string());
    assert_eq!(
        Profile::render("{remote_root}/bin:{shell}:$PATH {other}", &vars),
        "'/tmp/it'\\''s'/bin:'/bin/zsh':$PATH {other}"
    );
    assert_eq!(Profile::render("plain", &vars), "plain");
}

#[test]
fn values_that_read_like_tokens_stay_quoted() {
    let mut vars = TextMap::new();
    vars.insert("b".to_string(), "x".to_string());
    vars.insert("a".to_string(), "{b}".to_string());
    assert_eq!(Profile::render("{a}", &vars), "'{b}'");
    assert_eq!(Profile::render("{b}{a}{b}", &vars), "'x''{b}''x'");
    assert_eq!(Profile::render("{{a}{a{b}}", &vars), "{'{b}'{a'x'}");
}

#[test]
fn sections_have_their_defaults() {
    assert!(default_true());
    assert!(!Validate::default().git);
    assert!(Validate::default().files.is_empty());
    assert!(Directories::default().required.is_empty());
}

#[test]
fn maps_are_walked_in_order_of_their_keys() {
    let mut map = TextMap::new();
    map.insert("b".to_string(), "1".to_string());
    map.insert("a".to_string(), "2".to_string());
    map.insert("b".to_string(), "3".to_string());
    map.insert("B".to_string(), "4".to_string());
    let walked: Vec<(&str, &str)> =
        (0..map.len()).map(|i| (map.key(i).as_str(), map.value(i).as_str())).collect();
    assert_eq!(walked, vec![("B", "4"), ("a", "2"), ("b", "3")]);
    assert_eq!(map.clone().len(), 3);
}

#[test]
fn paths_are_joined_like_unix_paths() {
    assert_eq!(join_path("/a", "b"), "/a/b");
    assert_eq!(join_path("/a/", "b"), "/a/b");
    assert_eq!(join_path("", "b"), "b");
    assert_eq!(join_path("/a", "/b"), "/b");
    assert_eq!(join_path("/a", ""), "/a/");
}

#[test]
fn paths_are_sorted_by_component() {
    let sorted = sort_paths(&texts(&["a-b", "a/c", "a", "b", "a/b", "./a/b", "..", "/z"]));
    let mut expected: Vec<std::path::PathBuf> =
        ["a-b", "a/c", "a", "b", "a/b", "./a/b", "..", "/z"].iter().map(|s| s.into()).collect();
    expected.sort();
    let expected: Vec<String> =
        expected.iter().map(|p| p.to_str().unwrap().to_string()).collect();
    assert_eq!(sorted, expected);
}
