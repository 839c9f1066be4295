use nomad_env::session::{
    fingerprint_payload, generate_marker, hex_encode, marker_from, settings_text, socket_path,
    state_dir, PayloadFile,
};
use nomad_env::state_file_path;
use nomad_env::text_map::TextMap;

fn args(v: &[&str]) -> Vec<String> {
    v.iter().map(|s| s.to_string()).collect()
}

fn file(path: &str, contents: &str) -> PayloadFile {
    PayloadFile { path: path.to_string(), contents: contents.as_bytes().to_vec() }
}

#[test]
fn same_inputs_produce_same_key() {
    let a = state_file_path("/state", "/repo", "host", &args(&["-p", "22"]));
    let b = state_file_path("/state", "/repo", "host", &args(&["-p", "22"]));
    assert_eq!(a, b);
}

#[test]
fn different_ssh_args_produce_different_keys() {
    let a = state_file_path("/state", "/repo", "host", &args(&["-p", "22"]));
    let b = state_file_path("/state", "/repo", "host", &args(&["-p", "2222"]));
    assert_ne!(a, b);
}

#[test]
fn different_destinations_produce_different_keys() {
    let a = state_file_path("/state", "/repo", "host-a", &[]);
    let b = state_file_path("/state", "/repo", "host-b", &[]);
    assert_ne!(a, b);
}

#[test]
fn fingerprint_changes_when_file_contents_change() {
    let before = fingerprint_payload(&vec![file("a.txt", "one")], "settings");
    let after = fingerprint_payload(&vec![file("a.txt", "two")], "settings");
    assert_ne!(before, after);
}

#[test]
fn fingerprint_changes_when_profile_settings_change() {
    let files = vec![file("a.txt", "one")];
    let before = fingerprint_payload(&files, "settings-a");
    let after = fingerprint_payload(&files, "settings-b");
    assert_ne!(before, after);
}

#[test]
fn state_file_is_named_by_the_digest_of_its_key() {
    assert_eq!(
        state_file_path("/state", "/repo", "host", &args(&["-p", "22"])),
        "/state/1461133c842470616d7442841df9815be7f9b9a593a7a40519cd5d22ec5c57fb"
    );
    assert_eq!(
        state_file_path("/state/", "/repo", "host", &[]),
        "/state/62a2edd2f7ec994de4aa35aa9ca2b85a5bbc7ddfa6671c52dbd5ea5b0440abbf"
    );
}

#[test]
fn roots_tell_sessions_apart() {
    let a = state_file_path("/state", "/repo", "host", &[]);
    let b = state_file_path("/state", "/other", "host", &[]);
    assert_ne!(a, b);
}

#[test]
fn key_parts_are_kept_apart() {
    let a = state_file_path("/state", "/repo", "host", &args(&["-4", "-A"]));
    let b = state_file_path("/state", "/repo", "host", &args(&["-4-A"]));
    assert_ne!(a, b);
}

#[test]
fn parts_with_line_feeds_can_share_a_key() {
    let a = state_file_path("/state", "/repo", "host\n-4", &[]);
    let b = state_file_path("/state", "/repo", "host", &args(&["-4"]));
    assert_eq!(a, b);
}

#[test]
fn fingerprint_is_the_digest_of_the_framed_files() {
    assert_eq!(
        fingerprint_payload(&vec![file("a.txt", "one")], "settings"),
        "2db9ea567e41298c0322f18837d237f76902f0d1fad408f7e3931e72d57aa981"
    );
}

#[test]
fn fingerprint_forgets_the_order_of_the_files() {
    let settings = "{\"DOTS\": \"{remote_root}\"}";
    let a = fingerprint_payload(&vec![file("b/c.txt", "two"), file("a.txt", "one")], settings);
    let b = fingerprint_payload(&vec![file("a.txt", "one"), file("b/c.txt", "two")], settings);
    assert_eq!(a, b);
    assert_eq!(a, "8566f7b3feffd814e33d845d225ba50ea9190f34f5066609a93c7924186a4fc3");
}

#[test]
fn files_that_are_added_or_removed_change_the_fingerprint() {
    let one = fingerprint_payload(&vec![file("a", "x")], "s");
    let two = fingerprint_payload(&vec![file("a", "x"), file("b", "")], "s");
    let none = fingerprint_payload(&vec![], "s");
    assert_ne!(one, two);
    assert_ne!(one, none);
    assert_ne!(two, none);
}

#[test]
fn zero_bytes_can_hide_where_contents_end() {
    let a = fingerprint_payload(&vec![file("a", "x\0b\0y")], "s");
    let b = fingerprint_payload(&vec![file("a", "x"), file("b", "y")], "s");
    assert_eq!(a, b);
}

#[test]
fn settings_are_written_like_a_debugged_map() {
    let mut environment = TextMap::new();
    assert_eq!(settings_text(&environment), "{}");
    environment.insert("PATH".to_string(), "{remote_root}/bin:$PATH".to_string());
    environment.insert("DOTS".to_string(), "say \"hi\"\n".to_string());
    assert_eq!(
        settings_text(&environment),
        "{\"DOTS\": \"say \\\"hi\\\"\\n\", \"PATH\": \"{remote_root}/bin:$PATH\"}"
    );
}

#[test]
fn marker_is_drawn_from_process_and_time() {
    assert_eq!(
        generate_marker(4242, Some(1_700_000_000_123_456_789)),
        "1a2ae17ccb49b3fcb9c6959afc04964b"
    );
    assert_eq!(generate_marker(4242, None), "e07f491597312b058eb9ba0157e8bbc5");
}

#[test]
fn marker_is_the_first_half_of_a_digest() {
    let digest: Vec<u8> = (0u8..32).collect();
    assert_eq!(marker_from(&digest), "000102030405060708090a0b0c0d0e0f");
}

#[test]
fn marker_survives_white_space_around_it() {
    let marker = generate_marker(7, Some(1));
    assert_eq!(nomad_env::text::trim(&format!("\n {marker}\t\n")), marker);
}

#[test]
fn hexadecimal_is_lower_case_with_two_digits() {
    assert_eq!(hex_encode(&[0x00, 0x0f, 0xa0, 0xff]), "000fa0ff");
    assert_eq!(hex_encode(&[]), "");
}

#[test]
fn socket_ends_in_the_start_of_a_marker() {
    assert_eq!(
        socket_path("/tmp", "nomad-socket.", "0123456789abcdef"),
        "/tmp/nomad-socket.0123456789ab"
    );
}

#[test]
fn state_directory_follows_the_environment() {
    let home = Some("/home/me".to_string());
    assert_eq!(
        state_dir(&Some("/xdg".to_string()), &home),
        Some("/xdg/nomad".to_string())
    );
    assert_eq!(state_dir(&None, &home), Some("/home/me/.local/state/nomad".to_string()));
    assert_eq!(state_dir(&None, &None), None);
}
