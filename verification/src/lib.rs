//! Temporary remote shells carrying your dotfiles over SSH.
//!
//! Every decision of the tool is a function on plain values with a contract:
//! argument parsing, configuration lookup, profile resolution, payload
//! fingerprints, launcher rendering, the ssh command lines, and the protocols
//! that prepare, enter and clean up a remote session.

pub mod clean;
pub mod cli;
pub mod command_lines;
pub mod config;
pub mod course;
pub mod destination;
pub mod enter;
pub mod failures;
pub mod fake_ssh;
pub mod guarantees;
pub mod launcher;
pub mod listing;
pub mod naming;
pub mod nomad;
pub mod path_laws;
pub mod paths;
pub mod payload;
pub mod prepare;
pub mod profile;
pub mod protocol;
pub mod refusals;
pub mod remote;
pub mod reuse;
pub mod root;
pub mod session;
pub mod shell;
pub mod stand_in;
pub mod text;
pub mod text_laws;
pub mod text_map;
pub mod transport;
pub mod usage;

pub use config::ConfigError;
pub use destination::{parse_ssh_args, Destination};
pub use nomad::Nomad;
pub use profile::Profile;
pub use session::state_file_path;
pub use transport::OpenSshTransport;
