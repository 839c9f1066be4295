# nomad

Temporary remote shells carrying your dotfiles over SSH.

`nomad` opens an SSH session to a remote host, ships a payload of tracked files
from a local profile into a throwaway directory there, and starts a shell that
uses them. The directory is left in place and used again on the next connection;
`nomad clean` removes it.

```sh
nomad [--config PATH] [--waypipe|-wp] [ssh options] host
nomad [--config PATH] clean [ssh options] host
nomad --help
```

The configuration is a TOML file: `--config PATH`, or else `$NOMAD_CONFIG`, or
else `$XDG_CONFIG_HOME/nomad/config.toml`, or else
`~/.config/nomad/config.toml`.

```toml
[profile]
name = "dots"
root = { root_env = "DOTFILES_DIR" }    # or: root = "/path/to/dotfiles"

[profile.validate]
git = true                              # the root has to be a Git worktree
files = [".zshrc"]                      # files that it has to hold
dirs = [".config"]                      # directories that it has to hold

[profile.payload]
manifest = "profiles/terminal.links"    # a list of tracked paths, one on a line
extra = ["versions.toml"]               # paths that are always shipped

[profile.environment]
DOTS = "{remote_root}"                  # {remote_root} and {shell} are filled in
PATH = "{remote_root}/.local/bin:$PATH" # and quoted; the rest is left to expand

[profile.directories]
required = ["{remote_root}/.codex"]     # made before the shell starts

[profile.launchers]
zsh = ["export ZDOTDIR={remote_root}", "exec {shell} -il"]
bash = ["unset ZDOTDIR", "exec {shell} -i"]
```

## Layout

`src/` is the library `nomad_env`, verified with Verus. It holds every decision
and no input or output. What has to alternate with the outside world is a
protocol: a value that names its next request, takes the answer, and ends in an
outcome.

- `text`, `text_map`, `paths`: strings as sequences of characters, ordered maps,
  and paths.
- `destination`, `cli`: the command line.
- `config`: where the configuration is looked for.
- `profile`, `root`, `payload`: the profile, its root, and what it ships.
- `session`: session records, their file names, fingerprints and markers.
- `transport`: the command lines of `ssh`, `tar` and `waypipe`.
- `protocol`, `nomad`, `prepare`, `enter`, `clean`: the protocols of a session.
- `course`, `reuse`, `guarantees`: what the protocols come to, and what holds of
  them however the world answers. No control connection is left open, nothing is
  removed unguarded, and a directory that is up to date is used as it is.
- `fake_ssh`: a stand-in for `ssh` and `waypipe` in tests.

`app/` is the command itself: it reads the environment and the files, runs the
programs, and carries out what the protocols ask for. `tests/` runs the library.
