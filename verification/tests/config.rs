use nomad_env::config::{resolve_config_path, ConfigSearch, Places};
use nomad_env::ConfigError;

fn places(nomad_config: Option<&str>, config_home: Option<&str>, home: Option<&str>) -> Places {
    Places {
        nomad_config: nomad_config.map(|s| s.to_string()),
        config_home: config_home.map(|s| s.to_string()),
        home: home.map(|s| s.to_string()),
    }
}

fn search(search: ConfigSearch, present: &[&str]) -> (Vec<String>, Result<String, ConfigError>) {
    let mut search = search;
    let mut asked = Vec::new();
    while let Some(path) = search.request() {
        let is_file = present.contains(&path.as_str());
        asked.push(path);
        search = search.answer(is_file);
    }
    (asked, search.outcome().unwrap())
}

#[test]
fn cli_path_wins_over_everything() {
    let explicit = Some("/explicit/config.toml".to_string());
    let all = places(Some("/env/config.toml"), Some("/xdg"), Some("/home/me"));
    let (asked, resolved) = search(resolve_config_path(&explicit, &all), &[]);
    assert_eq!(resolved.unwrap(), "/explicit/config.toml");
    assert!(asked.is_empty());
}

#[test]
fn env_var_wins_over_xdg_default() {
    let all = places(Some("/env/config.toml"), Some("/xdg"), Some("/home/me"));
    let (asked, resolved) = search(
        resolve_config_path(&None, &all),
        &["/xdg/nomad/config.toml", "/home/me/.config/nomad/config.toml"],
    );
    assert_eq!(resolved.unwrap(), "/env/config.toml");
    assert!(asked.is_empty());
}

#[test]
fn missing_config_lists_tried_paths() {
    let (_, resolved) = search(resolve_config_path(&None, &places(None, None, Some("/home/me"))), &[]);
    match resolved.unwrap_err() {
        ConfigError::NotFound { tried } => {
            assert_eq!(tried, vec!["/home/me/.config/nomad/config.toml".to_string()])
        }
        _ => panic!("expected NotFound"),
    }
}

#[test]
fn empty_env_var_counts_for_nothing() {
    let (asked, resolved) = search(
        resolve_config_path(&None, &places(Some(""), Some("/xdg"), Some("/home/me"))),
        &["/xdg/nomad/config.toml", "/home/me/.config/nomad/config.toml"],
    );
    assert_eq!(resolved.unwrap(), "/xdg/nomad/config.toml");
    assert_eq!(asked, vec!["/xdg/nomad/config.toml".to_string()]);
}

#[test]
fn home_comes_last() {
    let (asked, resolved) = search(
        resolve_config_path(&None, &places(None, Some("/xdg"), Some("/home/me"))),
        &["/home/me/.config/nomad/config.toml"],
    );
    assert_eq!(resolved.unwrap(), "/home/me/.config/nomad/config.toml");
    assert_eq!(asked.len(), 2);
}

#[test]
fn errors_name_the_files() {
    let (_, resolved) = search(
        resolve_config_path(&None, &places(None, Some("/xdg"), Some("/home/me"))),
        &[],
    );
    assert_eq!(
        resolved.unwrap_err().message(),
        "no config file found, tried: /xdg/nomad/config.toml, /home/me/.config/nomad/config.toml"
    );
    let (_, resolved) = search(resolve_config_path(&None, &places(None, None, None)), &[]);
    assert_eq!(resolved.unwrap_err().message(), "no config file found, tried: ");
    let read = ConfigError::Read { path: "/c".to_string(), source: "gone".to_string() };
    assert_eq!(read.message(), "failed to read /c: gone");
    let parse = ConfigError::Parse { path: "/c".to_string(), source: "line 1".to_string() };
    assert_eq!(parse.message(), "failed to parse /c: line 1");
}
