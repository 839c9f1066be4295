//! What is remembered of a session between connections, and the names and
//! fingerprints by which it is found again.

use vstd::prelude::*;
use vstd::utf8::encode_utf8;

use sha2::Digest;

use crate::paths::{
    components, in_path_order, law_sorting, law_sorting_forgets_order, own_path, path_under, slot,
};
use crate::paths::{join_path, slot_for};
use crate::text::{chars_of, text_between};
use crate::text::{pieces_of, span_until, texts, trimmed, trimmed_end, trimmed_start, white};
use crate::text_map::TextMap;
use crate::text_map::{pair_texts, Pair};

verus! {

/// The SHA-256 digest of `data`.
pub uninterp spec fn sha256(data: Seq<u8>) -> Seq<u8>;

/// Calls `Sha256::digest` of the crate `sha2`. The digest is taken to be a
/// function of the bytes alone and to have 32 bytes; which bytes they are is
/// left unsaid.
#[verifier::external_body]
fn digest(data: &[u8]) -> (r: Vec<u8>)
    ensures
        r@ == sha256(data@),
        r@.len() == 32,
{
    sha2::Sha256::digest(data).to_vec()
}

/// The text that the `Debug` format of the standard library gives a string.
pub uninterp spec fn debug_text(s: Seq<char>) -> Seq<char>;

/// Formats a string with `{:?}` of the standard library. The outcome is taken to
/// be a function of the string alone; how it is escaped is left unsaid.
#[verifier::external_body]
fn debug_format(s: &str) -> (r: String)
    ensures
        r@ == debug_text(s@),
{
    format!("{:?}", s)
}

/// What is remembered of a session, so that a later connection can use its
/// remote directory again and knows whether to refresh it.
#[derive(Debug, Clone, PartialEq, Eq)]
pub struct StateRecord {
    pub remote_root: String,
    pub marker: String,
    pub fingerprint: String,
}

/// What a [`StateRecord`] holds.
#[verifier::ext_equal]
pub struct StateRecordView {
    pub remote_root: Seq<char>,
    pub marker: Seq<char>,
    pub fingerprint: Seq<char>,
}

impl View for StateRecord {
    type V = StateRecordView;

    open spec fn view(&self) -> StateRecordView {
        StateRecordView {
            remote_root: self.remote_root@,
            marker: self.marker@,
            fingerprint: self.fingerprint@,
        }
    }
}

/// The directory of the session records: `nomad` in the state directory, or
/// `.local/state/nomad` in the home directory.
pub open spec fn state_dir_in(state_home: Option<Seq<char>>, home: Option<Seq<char>>) -> Option<
    Seq<char>,
> {
    match state_home {
        Some(dir) => Some(path_under(dir, "nomad"@)),
        None => match home {
            Some(dir) => Some(path_under(dir, ".local/state/nomad"@)),
            None => None,
        },
    }
}

/// The directory of the session records, by `$XDG_STATE_HOME` and the home
/// directory, where one of them is known.
pub fn state_dir(state_home: &Option<String>, home: &Option<String>) -> (r: Option<String>)
    ensures
        optional_text(r) == state_dir_in(optional_text(*state_home), optional_text(*home)),
{
    match state_home {
        Some(dir) => Some(join_path(dir.as_str(), "nomad")),
        None => match home {
            Some(dir) => Some(join_path(dir.as_str(), ".local/state/nomad")),
            None => None,
        },
    }
}

/// The text of an optional string.
pub open spec fn optional_text(s: Option<String>) -> Option<Seq<char>> {
    match s {
        Some(text) => Some(text@),
        None => None,
    }
}

/// Each of `args` on a line of its own, after a line feed.
pub open spec fn on_lines(args: Seq<Seq<char>>) -> Seq<char>
    decreases args.len(),
{
    if args.len() == 0 {
        seq![]
    } else {
        on_lines(args.drop_last()).push('\n') + args.last()
    }
}

/// The key of a session: the profile root, the destination and the forwarded
/// ssh options, each on a line of its own.
pub open spec fn session_key(root: Seq<char>, dest: Seq<char>, ssh_args: Seq<Seq<char>>) -> Seq<char> {
    root.push('\n') + dest + on_lines(ssh_args)
}

/// The lower-case hexadecimal digit of a number below sixteen.
pub open spec fn hex_digit(n: int) -> char {
    seq!['0', '1', '2', '3', '4', '5', '6', '7', '8', '9', 'a', 'b', 'c', 'd', 'e', 'f'][n]
}

/// The two digits of each byte.
pub open spec fn hex_text(bytes: Seq<u8>) -> Seq<char>
    decreases bytes.len(),
{
    if bytes.len() == 0 {
        seq![]
    } else {
        hex_text(bytes.drop_last()).push(hex_digit(bytes.last() as int / 16)).push(
            hex_digit(bytes.last() as int % 16),
        )
    }
}

/// Whether `s` holds nothing but lower-case hexadecimal digits.
pub open spec fn hex_only(s: Seq<char>) -> bool {
    forall|i: int|
        0 <= i < s.len() ==> '0' <= #[trigger] s[i] <= '9' || 'a' <= s[i] <= 'f'
}

/// The digit of a number below sixteen.
fn hex_char(n: u8) -> (r: char)
    requires
        n < 16,
    ensures
        r == hex_digit(n as int),
{
    match n {
        0 => '0',
        1 => '1',
        2 => '2',
        3 => '3',
        4 => '4',
        5 => '5',
        6 => '6',
        7 => '7',
        8 => '8',
        9 => '9',
        10 => 'a',
        11 => 'b',
        12 => 'c',
        13 => 'd',
        14 => 'e',
        _ => 'f',
    }
}

/// The bytes in lower-case hexadecimal.
pub fn hex_encode(bytes: &[u8]) -> (r: String)
    ensures
        r@ == hex_text(bytes@),
        r@.len() == 2 * bytes@.len(),
        hex_only(r@),
{
    let mut r = String::new();
    let mut i: usize = 0;
    while i < bytes.len()
        invariant
            i <= bytes@.len(),
            r@ == hex_text(bytes@.take(i as int)),
            r@.len() == 2 * i,
        decreases bytes@.len() - i,
    {
        let b: u8 = bytes[i];
        r.push(hex_char(b / 16));
        r.push(hex_char(b % 16));
        proof {
            assert(bytes@.take(i + 1).drop_last() =~= bytes@.take(i as int));
        }
        i = i + 1;
    }
    proof {
        assert(bytes@.take(i as int) =~= bytes@);
        lemma_hex_text(bytes@);
    }
    r
}

/// The name of the file that remembers a session: the digest of its key.
pub open spec fn state_name(root: Seq<char>, dest: Seq<char>, ssh_args: Seq<Seq<char>>) -> Seq<char> {
    hex_text(sha256(encode_utf8(session_key(root, dest, ssh_args))))
}

/// The path of the file that remembers the session of a profile root, a
/// destination and the forwarded ssh options.
pub fn state_file_path(
    state_dir: &str,
    profile_root: &str,
    ssh_dest: &str,
    ssh_args: &[String],
) -> (r: String)
    ensures
        r@ == path_under(state_dir@, state_name(profile_root@, ssh_dest@, texts(ssh_args@))),
        state_name(profile_root@, ssh_dest@, texts(ssh_args@)).len() == 64,
        hex_only(state_name(profile_root@, ssh_dest@, texts(ssh_args@))),
{
    let mut key = profile_root.to_owned();
    key.push('\n');
    key.append(ssh_dest);
    let mut i: usize = 0;
    let ghost head = profile_root@.push('\n') + ssh_dest@;
    let ghost all = texts(ssh_args@);
    proof {
        assert(head + on_lines(all.take(0)) =~= head);
    }
    while i < ssh_args.len()
        invariant
            i <= ssh_args@.len(),
            all == texts(ssh_args@),
            key@ == head + on_lines(all.take(i as int)),
        decreases ssh_args@.len() - i,
    {
        key.push('\n');
        key.append(ssh_args[i].as_str());
        proof {
            assert(all.take(i + 1).drop_last() =~= all.take(i as int));
            assert(key@ =~= head + on_lines(all.take(i + 1)));
        }
        i = i + 1;
    }
    proof {
        assert(all.take(i as int) =~= all);
    }
    let hash = hex_encode(digest(key.as_str().as_bytes()).as_slice());
    join_path(state_dir, hash.as_str())
}

/// A file of a payload.
#[derive(Debug, Clone, PartialEq, Eq)]
pub struct PayloadFile {
    pub path: String,
    pub contents: Vec<u8>,
}

/// What a [`PayloadFile`] holds.
#[verifier::ext_equal]
pub struct PayloadFileView {
    pub path: Seq<char>,
    pub contents: Seq<u8>,
}

impl View for PayloadFile {
    type V = PayloadFileView;

    open spec fn view(&self) -> PayloadFileView {
        PayloadFileView { path: self.path@, contents: self.contents@ }
    }
}

/// What the files of a list hold.
pub open spec fn file_views(list: Seq<PayloadFile>) -> Seq<PayloadFileView> {
    Seq::new(list.len(), |i: int| list[i]@)
}

/// The path of a file.
pub open spec fn path_of_file() -> spec_fn(PayloadFileView) -> Seq<char> {
    |file: PayloadFileView| file.path
}

/// Each file as its path and its contents, with a zero byte after either.
pub open spec fn framed(files: Seq<PayloadFileView>) -> Seq<u8>
    decreases files.len(),
{
    if files.len() == 0 {
        seq![]
    } else {
        framed(files.drop_last()) + encode_utf8(files.last().path) + seq![0u8]
            + files.last().contents + seq![0u8]
    }
}

/// The bytes that a fingerprint is taken of: the files in path order, and then
/// the settings of the profile.
pub open spec fn fingerprinted(files: Seq<PayloadFileView>, settings: Seq<char>) -> Seq<u8> {
    framed(in_path_order(files, path_of_file())) + encode_utf8(settings)
}

/// The fingerprint of a payload and the settings of its profile.
pub open spec fn fingerprint(files: Seq<PayloadFileView>, settings: Seq<char>) -> Seq<char> {
    hex_text(sha256(fingerprinted(files, settings)))
}

/// Appends `more` to `bytes`.
fn append_bytes(bytes: &mut Vec<u8>, more: &[u8])
    ensures
        final(bytes)@ == old(bytes)@ + more@,
{
    let ghost before = bytes@;
    let mut i: usize = 0;
    proof {
        assert(before + more@.take(0) =~= before);
    }
    while i < more.len()
        invariant
            i <= more@.len(),
            bytes@ == before + more@.take(i as int),
        decreases more@.len() - i,
    {
        bytes.push(more[i]);
        proof {
            assert(bytes@ =~= before + more@.take(i + 1));
        }
        i = i + 1;
    }
    proof {
        assert(more@.take(i as int) =~= more@);
    }
}

/// The paths of a list of files.
spec fn file_paths(files: Seq<PayloadFileView>) -> Seq<Seq<char>> {
    Seq::new(files.len(), |i: int| files[i].path)
}

/// A file belongs where its path does.
proof fn lemma_file_slot(files: Seq<PayloadFileView>, file: PayloadFileView)
    ensures
        slot(files, path_of_file(), file) == slot(file_paths(files), own_path(), file.path),
        0 <= slot(files, path_of_file(), file) <= files.len(),
    decreases files.len(),
{
    if files.len() > 0 {
        lemma_file_slot(files.drop_last(), file);
        assert(file_paths(files.drop_last()) =~= file_paths(files).drop_last());
    }
}

/// The positions of the files in path order.
fn path_order(files: &Vec<PayloadFile>) -> (r: Vec<usize>)
    ensures
        r@.len() == files@.len(),
        in_path_order(file_views(files@), path_of_file()).len() == files@.len(),
        forall|k: int|
            0 <= k < r@.len() ==> (#[trigger] r@[k]) < files@.len() && files@[r@[k] as int]@
                == in_path_order(file_views(files@), path_of_file())[k],
{
    let mut keys: Vec<String> = Vec::new();
    let mut r: Vec<usize> = Vec::new();
    let mut i: usize = 0;
    let ghost all = file_views(files@);
    proof {
        assert(texts(keys@) =~= file_paths(in_path_order(all.take(0), path_of_file())));
    }
    while i < files.len()
        invariant
            i <= files@.len(),
            all == file_views(files@),
            r@.len() == i,
            in_path_order(all.take(i as int), path_of_file()).len() == i,
            texts(keys@) == file_paths(in_path_order(all.take(i as int), path_of_file())),
            forall|k: int|
                0 <= k < r@.len() ==> (#[trigger] r@[k]) < files@.len() && files@[r@[k] as int]@
                    == in_path_order(all.take(i as int), path_of_file())[k],
        decreases files@.len() - i,
    {
        let ghost sorted = in_path_order(all.take(i as int), path_of_file());
        let ghost keys_before = keys@;
        let ghost before = r@;
        let at: usize = slot_for(&keys, files[i].path.as_str());
        proof {
            lemma_file_slot(sorted, all[i as int]);
            assert(all.take(i + 1).drop_last() =~= all.take(i as int));
            assert(in_path_order(all.take(i + 1), path_of_file()) == sorted.insert(
                at as int,
                all[i as int],
            ));
        }
        keys.insert(at, files[i].path.clone());
        r.insert(at, i);
        proof {
            let next = sorted.insert(at as int, all[i as int]);
            assert(texts(keys@) =~= texts(keys_before).insert(at as int, all[i as int].path));
            assert(texts(keys@) =~= file_paths(next));
            assert forall|k: int| 0 <= k < r@.len() implies (#[trigger] r@[k]) < files@.len()
                && files@[r@[k] as int]@ == next[k] by {
                if k < at {
                    assert(r@[k] == before[k]);
                } else if k > at {
                    assert(r@[k] == before[k - 1]);
                }
            }
        }
        i = i + 1;
    }
    proof {
        assert(all.take(i as int) =~= all);
    }
    r
}

/// The fingerprint of the contents of a payload and of the settings of its
/// profile, by which a later connection knows whether the files have to be
/// refreshed.
pub fn fingerprint_payload(files: &Vec<PayloadFile>, profile_settings: &str) -> (r: String)
    ensures
        r@ == fingerprint(file_views(files@), profile_settings@),
        r@.len() == 64,
        hex_only(r@),
{
    let order = path_order(files);
    let mut bytes: Vec<u8> = Vec::new();
    let mut k: usize = 0;
    let ghost sorted = in_path_order(file_views(files@), path_of_file());
    while k < order.len()
        invariant
            k <= order@.len(),
            order@.len() == sorted.len(),
            forall|j: int|
                0 <= j < order@.len() ==> (#[trigger] order@[j]) < files@.len()
                    && files@[order@[j] as int]@ == sorted[j],
            bytes@ == framed(sorted.take(k as int)),
        decreases order@.len() - k,
    {
        let file = &files[order[k]];
        append_bytes(&mut bytes, file.path.as_str().as_bytes());
        bytes.push(0u8);
        append_bytes(&mut bytes, file.contents.as_slice());
        bytes.push(0u8);
        proof {
            assert(sorted.take(k + 1).drop_last() =~= sorted.take(k as int));
            assert(bytes@ =~= framed(sorted.take(k as int)) + encode_utf8(sorted[k as int].path)
                + seq![0u8] + sorted[k as int].contents + seq![0u8]);
        }
        k = k + 1;
    }
    append_bytes(&mut bytes, profile_settings.as_bytes());
    proof {
        assert(sorted.take(k as int) =~= sorted);
    }
    hex_encode(digest(bytes.as_slice()).as_slice())
}

/// The `n` lowest bytes of `x`, the lowest first.
pub open spec fn le_bytes(x: nat, n: nat) -> Seq<u8>
    decreases n,
{
    if n == 0 {
        seq![]
    } else {
        seq![(x % 256) as u8] + le_bytes(x / 256, (n - 1) as nat)
    }
}

/// Appends the `n` lowest bytes of `x`, the lowest first.
fn append_le_bytes(bytes: &mut Vec<u8>, x: u128, n: u8)
    ensures
        final(bytes)@ == old(bytes)@ + le_bytes(x as nat, n as nat),
{
    let ghost before = bytes@;
    let mut rest: u128 = x;
    let mut left: u8 = n;
    while left > 0
        invariant
            before + le_bytes(x as nat, n as nat) == bytes@ + le_bytes(rest as nat, left as nat),
        decreases left,
    {
        let low: u8 = (rest % 256) as u8;
        bytes.push(low);
        proof {
            let tail = le_bytes((rest / 256) as nat, (left - 1) as nat);
            assert(le_bytes(rest as nat, left as nat) =~= seq![low] + tail);
        }
        rest = rest / 256;
        left = left - 1;
    }
    proof {
        assert(bytes@ + Seq::<u8>::empty() =~= bytes@);
    }
}

/// The bytes that a marker is drawn from: the process number, and the
/// nanoseconds since the epoch where the clock tells them.
pub open spec fn marker_seed(process: u32, nanos: Option<u128>) -> Seq<u8> {
    le_bytes(process as nat, 4) + match nanos {
        Some(n) => le_bytes(n as nat, 16),
        None => seq![],
    }
}

/// The marker that a digest gives: its first 32 hexadecimal digits.
pub open spec fn marker_text(digest: Seq<u8>) -> Seq<char> {
    hex_text(digest).take(32)
}

/// The marker that a digest gives.
pub fn marker_from(digest: &[u8]) -> (r: String)
    requires
        digest@.len() >= 16,
    ensures
        r@ == marker_text(digest@),
        r@.len() == 32,
        hex_only(r@),
{
    let hash = hex_encode(digest);
    let chars = chars_of(hash.as_str());
    proof {
        assert(hash@.subrange(0, 32) =~= hash@.take(32));
    }
    text_between(&chars, 0, 32)
}

/// A marker of a session, drawn from the process number and the clock. It guards
/// a clean-up against deleting a directory that the session did not make.
pub fn generate_marker(process: u32, nanos: Option<u128>) -> (r: String)
    ensures
        r@ == marker_text(sha256(marker_seed(process, nanos))),
        r@.len() == 32,
        hex_only(r@),
{
    let mut bytes: Vec<u8> = Vec::new();
    append_le_bytes(&mut bytes, process as u128, 4);
    match nanos {
        Some(n) => append_le_bytes(&mut bytes, n, 16),
        None => {},
    }
    proof {
        assert(bytes@ =~= marker_seed(process, nanos));
    }
    marker_from(digest(bytes.as_slice()).as_slice())
}

/// The control socket of a session: a file of the temporary directory whose
/// name ends in the first 12 characters of a marker.
pub open spec fn socket_in(temp_dir: Seq<char>, prefix: Seq<char>, marker: Seq<char>) -> Seq<char> {
    path_under(temp_dir, prefix + marker.take(12))
}

/// The control socket of a session.
pub fn socket_path(temp_dir: &str, prefix: &str, marker: &str) -> (r: String)
    requires
        marker@.len() >= 12,
    ensures
        r@ == socket_in(temp_dir@, prefix@, marker@),
{
    let chars = chars_of(marker);
    let mut name = prefix.to_owned();
    let part = text_between(&chars, 0, 12);
    name.append(part.as_str());
    proof {
        assert(marker@.subrange(0, 12) =~= marker@.take(12));
    }
    join_path(temp_dir, name.as_str())
}

/// The pairs from the first on, each key before its value, with a comma between
/// them.
pub open spec fn listed_pairs(pairs: Seq<Pair>) -> Seq<char>
    decreases pairs.len(),
{
    if pairs.len() == 0 {
        seq![]
    } else {
        let (key, value) = pairs.last();
        let pair = key + ": "@ + value;
        if pairs.len() == 1 {
            pair
        } else {
            listed_pairs(pairs.drop_last()) + ", "@ + pair
        }
    }
}

/// The settings text of keys and values as they are written there.
pub open spec fn settings_of(pairs: Seq<Pair>) -> Seq<char> {
    "{"@ + listed_pairs(pairs) + "}"@
}

/// The pairs as they are written in the settings text.
pub open spec fn debug_pairs(pairs: Seq<Pair>) -> Seq<Pair> {
    Seq::new(pairs.len(), |i: int| (debug_text(pairs[i].0), debug_text(pairs[i].1)))
}

/// The settings text of keys and values as they are written there.
pub fn settings_from(pairs: &Vec<(String, String)>) -> (r: String)
    ensures
        r@ == settings_of(pair_texts(pairs@)),
{
    let mut r = "{".to_owned();
    let mut i: usize = 0;
    let ghost all = pair_texts(pairs@);
    proof {
        assert("{"@ + listed_pairs(all.take(0)) =~= "{"@);
    }
    while i < pairs.len()
        invariant
            i <= pairs@.len(),
            all == pair_texts(pairs@),
            r@ == "{"@ + listed_pairs(all.take(i as int)),
        decreases pairs@.len() - i,
    {
        if i > 0 {
            r.append(", ");
        }
        r.append(pairs[i].0.as_str());
        r.append(": ");
        r.append(pairs[i].1.as_str());
        proof {
            assert(all.take(i + 1).drop_last() =~= all.take(i as int));
            assert(all.take(i + 1).last() == all[i as int]);
            assert(r@ =~= "{"@ + listed_pairs(all.take(i + 1)));
        }
        i = i + 1;
    }
    r.append("}");
    proof {
        assert(all.take(i as int) =~= all);
    }
    r
}

/// The settings of a profile that a fingerprint covers: its environment, in the
/// debug format of a map.
pub fn settings_text(environment: &TextMap) -> (r: String)
    ensures
        r@ == settings_of(debug_pairs(environment.pairs())),
{
    let mut pairs: Vec<(String, String)> = Vec::new();
    let mut i: usize = 0;
    let ghost all = debug_pairs(environment.pairs());
    while i < environment.len()
        invariant
            i <= environment.pairs().len(),
            all == debug_pairs(environment.pairs()),
            pair_texts(pairs@) == all.take(i as int),
        decreases environment.pairs().len() - i,
    {
        let ghost before = pairs@;
        let key = debug_format(environment.key(i).as_str());
        let value = debug_format(environment.value(i).as_str());
        pairs.push((key, value));
        proof {
            assert(pair_texts(pairs@) =~= pair_texts(before).push(all[i as int]));
            assert(pair_texts(pairs@) =~= all.take(i + 1));
        }
        i = i + 1;
    }
    proof {
        assert(all.take(i as int) =~= all);
    }
    settings_from(&pairs)
}

/// Whether `s` is a single line.
pub open spec fn one_line(s: Seq<char>) -> bool {
    forall|i: int| 0 <= i < s.len() ==> #[trigger] s[i] != '\n'
}

/// The parts of a session key, one after the other.
pub open spec fn key_parts(root: Seq<char>, dest: Seq<char>, ssh_args: Seq<Seq<char>>) -> Seq<
    Seq<char>,
> {
    seq![root, dest] + ssh_args
}

/// A key tells sessions apart: two sessions whose roots, destinations and
/// options are single lines have the same key only if they agree in all of
/// them. Parts that hold a line feed are left out, since the key does not show
/// where such a part ends.
pub proof fn law_key_tells_sessions_apart(
    root: Seq<char>,
    dest: Seq<char>,
    ssh_args: Seq<Seq<char>>,
    other_root: Seq<char>,
    other_dest: Seq<char>,
    other_args: Seq<Seq<char>>,
)
    requires
        one_line(root),
        one_line(dest),
        forall|i: int| 0 <= i < ssh_args.len() ==> one_line(#[trigger] ssh_args[i]),
        one_line(other_root),
        one_line(other_dest),
        forall|i: int| 0 <= i < other_args.len() ==> one_line(#[trigger] other_args[i]),
        session_key(root, dest, ssh_args) == session_key(other_root, other_dest, other_args),
    ensures
        root == other_root,
        dest == other_dest,
        ssh_args == other_args,
{
    lemma_key_pieces(root, dest, ssh_args);
    lemma_key_pieces(other_root, other_dest, other_args);
    let parts = key_parts(root, dest, ssh_args);
    let others = key_parts(other_root, other_dest, other_args);
    assert(parts == others);
    assert(parts[0] == others[0]);
    assert(parts[1] == others[1]);
    assert(parts.skip(2) =~= ssh_args);
    assert(others.skip(2) =~= other_args);
}

/// The lines of a session key are its parts.
proof fn lemma_key_pieces(root: Seq<char>, dest: Seq<char>, ssh_args: Seq<Seq<char>>)
    requires
        one_line(root),
        one_line(dest),
        forall|i: int| 0 <= i < ssh_args.len() ==> one_line(#[trigger] ssh_args[i]),
    ensures
        pieces_of(session_key(root, dest, ssh_args), '\n') == key_parts(root, dest, ssh_args),
{
    let rest = dest + on_lines(ssh_args);
    assert(session_key(root, dest, ssh_args) =~= root.push('\n') + rest);
    lemma_first_piece(root, rest);
    lemma_pieces_on_lines(dest, ssh_args);
    assert(seq![root] + (seq![dest] + ssh_args) =~= key_parts(root, dest, ssh_args));
}

/// A line before the rest is the first piece.
proof fn lemma_first_piece(line: Seq<char>, rest: Seq<char>)
    requires
        one_line(line),
    ensures
        pieces_of(line.push('\n') + rest, '\n') == seq![line] + pieces_of(rest, '\n'),
{
    let all = line.push('\n') + rest;
    lemma_span(line, seq!['\n'] + rest);
    assert(all =~= line + (seq!['\n'] + rest));
    assert(all.take(line.len() as int) =~= line);
    assert(all.skip(line.len() as int + 1) =~= rest);
}

/// A line feed ends the span of a line.
proof fn lemma_span(line: Seq<char>, rest: Seq<char>)
    requires
        one_line(line),
        rest.len() == 0 || rest[0] == '\n',
    ensures
        span_until(line + rest, '\n') == line.len(),
    decreases line.len(),
{
    let all = line + rest;
    if line.len() == 0 {
        assert(all =~= rest);
    } else {
        let tail = line.skip(1);
        assert forall|i: int| 0 <= i < tail.len() implies #[trigger] tail[i] != '\n' by {
            assert(tail[i] == line[i + 1]);
        }
        lemma_span(tail, rest);
        assert(all.skip(1) =~= tail + rest);
        assert(all[0] == line[0]);
    }
}

/// Text on lines begins with its first line.
proof fn lemma_on_lines_front(args: Seq<Seq<char>>)
    requires
        args.len() > 0,
    ensures
        on_lines(args) == seq!['\n'] + args[0] + on_lines(args.skip(1)),
    decreases args.len(),
{
    if args.len() == 1 {
        assert(args.drop_last() =~= seq![]);
        assert(args.skip(1) =~= seq![]);
        assert(on_lines(args) =~= seq!['\n'] + args[0] + on_lines(args.skip(1)));
    } else {
        lemma_on_lines_front(args.drop_last());
        assert(args.drop_last().skip(1) =~= args.skip(1).drop_last());
        assert(args.skip(1).last() == args.last());
        assert(on_lines(args) =~= seq!['\n'] + args[0] + on_lines(args.skip(1)));
    }
}

/// The lines of a first line and those after it.
proof fn lemma_pieces_on_lines(first: Seq<char>, args: Seq<Seq<char>>)
    requires
        one_line(first),
        forall|i: int| 0 <= i < args.len() ==> one_line(#[trigger] args[i]),
    ensures
        pieces_of(first + on_lines(args), '\n') == seq![first] + args,
    decreases args.len(),
{
    if args.len() == 0 {
        lemma_span(first, seq![]);
        assert(first + Seq::<char>::empty() =~= first);
        assert(seq![first] + args =~= seq![first]);
    } else {
        let rest = args.skip(1);
        assert forall|i: int| 0 <= i < rest.len() implies one_line(#[trigger] rest[i]) by {
            assert(rest[i] == args[i + 1]);
        }
        lemma_on_lines_front(args);
        lemma_pieces_on_lines(args[0], rest);
        lemma_first_piece(first, args[0] + on_lines(rest));
        assert(first + on_lines(args) =~= first.push('\n') + (args[0] + on_lines(rest)));
        assert(seq![first] + (seq![args[0]] + rest) =~= seq![first] + args);
    }
}

/// The fingerprint does not depend on the order in which the files are listed,
/// where no two of them lie at the same path.
pub proof fn law_fingerprint_forgets_order(
    files: Seq<PayloadFileView>,
    others: Seq<PayloadFileView>,
    settings: Seq<char>,
)
    requires
        files.to_multiset() == others.to_multiset(),
        forall|x: PayloadFileView, y: PayloadFileView|
            files.contains(x) && files.contains(y) && #[trigger] components(x.path)
                == #[trigger] components(y.path) ==> x == y,
    ensures
        fingerprint(files, settings) == fingerprint(others, settings),
{
    let path_of = path_of_file();
    assert forall|x: PayloadFileView, y: PayloadFileView|
        files.contains(x) && files.contains(y) && #[trigger] components(path_of(x))
            == #[trigger] components(path_of(y)) implies x == y by {
        assert(components(x.path) == components(y.path));
    }
    law_sorting_forgets_order(files, others, path_of);
}

/// A fingerprint covers the settings: other settings are other bytes to take the
/// fingerprint of.
pub proof fn law_settings_are_covered(
    files: Seq<PayloadFileView>,
    settings: Seq<char>,
    other: Seq<char>,
)
    requires
        settings != other,
    ensures
        fingerprinted(files, settings) != fingerprinted(files, other),
{
    let head = framed(in_path_order(files, path_of_file()));
    if fingerprinted(files, settings) == fingerprinted(files, other) {
        assert(fingerprinted(files, settings).skip(head.len() as int) =~= encode_utf8(settings));
        assert(fingerprinted(files, other).skip(head.len() as int) =~= encode_utf8(other));
        vstd::utf8::encode_utf8_decode_utf8(settings);
        vstd::utf8::encode_utf8_decode_utf8(other);
    }
}

/// A fingerprint covers the contents: where the contents of one file change and
/// all else stays, there are other bytes to take the fingerprint of.
pub proof fn law_contents_are_covered(
    files: Seq<PayloadFileView>,
    k: int,
    contents: Seq<u8>,
    settings: Seq<char>,
)
    requires
        0 <= k < files.len(),
        contents != files[k].contents,
    ensures
        fingerprinted(
            files.update(k, PayloadFileView { path: files[k].path, contents }),
            settings,
        ) != fingerprinted(files, settings),
{
    let file = PayloadFileView { path: files[k].path, contents };
    let others = files.update(k, file);
    let sorted = in_path_order(files, path_of_file());
    let j = lemma_changed_position(files, k, file);
    let changed = sorted.update(j, file);
    lemma_framed_split(sorted, j);
    lemma_framed_split(changed, j);
    assert(changed.take(j) =~= sorted.take(j));
    assert(changed.skip(j + 1) =~= sorted.skip(j + 1));
    let head = framed(sorted.take(j)) + encode_utf8(file.path) + seq![0u8];
    let tail = seq![0u8] + framed(sorted.skip(j + 1)) + encode_utf8(settings);
    let x = fingerprinted(files, settings);
    let y = fingerprinted(others, settings);
    assert(x =~= head + files[k].contents + tail);
    assert(y =~= head + contents + tail);
    if x == y {
        assert(contents.len() == files[k].contents.len());
        assert(x.subrange(head.len() as int, (head.len() + contents.len()) as int) =~= files[k].contents);
        assert(y.subrange(head.len() as int, (head.len() + contents.len()) as int) =~= contents);
    }
}

/// Whether `bytes` hold no zero byte.
pub open spec fn zero_free(bytes: Seq<u8>) -> bool {
    forall|i: int| 0 <= i < bytes.len() ==> #[trigger] bytes[i] != 0
}

/// Whether neither the path nor the contents of a file hold a zero byte.
pub open spec fn file_is_plain(file: PayloadFileView) -> bool {
    zero_free(encode_utf8(file.path)) && zero_free(file.contents)
}

/// A fingerprint covers the whole payload: where no path, contents or settings
/// hold a zero byte, the same bytes to take the fingerprint of come from the same
/// files and the same settings. Files that are changed, added or removed give
/// other bytes. A zero byte is left out, since the bytes do not show whether it
/// ends a path or contents.
pub proof fn law_payload_is_covered(
    files: Seq<PayloadFileView>,
    settings: Seq<char>,
    others: Seq<PayloadFileView>,
    other_settings: Seq<char>,
)
    requires
        forall|i: int| 0 <= i < files.len() ==> file_is_plain(#[trigger] files[i]),
        forall|i: int| 0 <= i < others.len() ==> file_is_plain(#[trigger] others[i]),
        zero_free(encode_utf8(settings)),
        zero_free(encode_utf8(other_settings)),
        fingerprinted(files, settings) == fingerprinted(others, other_settings),
    ensures
        in_path_order(files, path_of_file()) == in_path_order(others, path_of_file()),
        files.to_multiset() == others.to_multiset(),
        settings == other_settings,
{
    lemma_sorted_files_are_plain(files);
    lemma_sorted_files_are_plain(others);
    law_sorting(files, path_of_file());
    law_sorting(others, path_of_file());
    lemma_frames_are_told_apart(
        in_path_order(files, path_of_file()),
        encode_utf8(settings),
        in_path_order(others, path_of_file()),
        encode_utf8(other_settings),
    );
    vstd::utf8::encode_utf8_decode_utf8(settings);
    vstd::utf8::encode_utf8_decode_utf8(other_settings);
}

/// Sorting keeps files without zero bytes.
proof fn lemma_sorted_files_are_plain(files: Seq<PayloadFileView>)
    requires
        forall|i: int| 0 <= i < files.len() ==> file_is_plain(#[trigger] files[i]),
    ensures
        forall|i: int|
            0 <= i < in_path_order(files, path_of_file()).len() ==> file_is_plain(
                #[trigger] in_path_order(files, path_of_file())[i],
            ),
    decreases files.len(),
{
    if files.len() > 0 {
        let earlier = in_path_order(files.drop_last(), path_of_file());
        assert forall|i: int| 0 <= i < files.drop_last().len() implies file_is_plain(
            #[trigger] files.drop_last()[i],
        ) by {
            assert(files.drop_last()[i] == files[i]);
        }
        lemma_sorted_files_are_plain(files.drop_last());
        lemma_file_slot(earlier, files.last());
        let at = slot(earlier, path_of_file(), files.last());
        assert(file_is_plain(files[files.len() - 1]));
        assert forall|i: int| 0 <= i < earlier.len() + 1 implies file_is_plain(
            #[trigger] earlier.insert(at, files.last())[i],
        ) by {
            if i < at {
                assert(earlier.insert(at, files.last())[i] == earlier[i]);
            } else if i > at {
                assert(earlier.insert(at, files.last())[i] == earlier[i - 1]);
            }
        }
    }
}

/// What stands before the first zero byte and what stands after it are told
/// apart.
proof fn lemma_first_zero(a: Seq<u8>, x: Seq<u8>, b: Seq<u8>, y: Seq<u8>)
    requires
        zero_free(a),
        zero_free(b),
        a + seq![0u8] + x == b + seq![0u8] + y,
    ensures
        a == b,
        x == y,
{
    let s = a + seq![0u8] + x;
    let t = b + seq![0u8] + y;
    if a.len() < b.len() {
        assert(s[a.len() as int] == 0);
        assert(t[a.len() as int] == b[a.len() as int]);
    }
    if b.len() < a.len() {
        assert(t[b.len() as int] == 0);
        assert(s[b.len() as int] == a[b.len() as int]);
    }
    assert(s.take(a.len() as int) =~= a);
    assert(t.take(b.len() as int) =~= b);
    assert(s.skip(a.len() as int + 1) =~= x);
    assert(t.skip(b.len() as int + 1) =~= y);
}

/// A framed list that holds a file shows a zero byte.
proof fn lemma_frame_has_zero(files: Seq<PayloadFileView>, end: Seq<u8>)
    requires
        files.len() > 0,
    ensures
        !zero_free(framed(files) + end),
{
    let all = framed(files) + end;
    let n = framed(files).len() - 1;
    assert(framed(files)[n] == 0);
    assert(all[n] == 0);
}

/// Framed files and what follows them are told apart.
proof fn lemma_frames_are_told_apart(
    files: Seq<PayloadFileView>,
    end: Seq<u8>,
    others: Seq<PayloadFileView>,
    other_end: Seq<u8>,
)
    requires
        forall|i: int| 0 <= i < files.len() ==> file_is_plain(#[trigger] files[i]),
        forall|i: int| 0 <= i < others.len() ==> file_is_plain(#[trigger] others[i]),
        zero_free(end),
        zero_free(other_end),
        framed(files) + end == framed(others) + other_end,
    ensures
        files == others,
        end == other_end,
    decreases files.len(),
{
    if files.len() == 0 || others.len() == 0 {
        if files.len() > 0 {
            lemma_frame_has_zero(files, end);
            assert(framed(others) + other_end =~= other_end);
        }
        if others.len() > 0 {
            lemma_frame_has_zero(others, other_end);
            assert(framed(files) + end =~= end);
        }
        assert(framed(files) + end =~= end);
        assert(framed(others) + other_end =~= other_end);
        assert(files =~= others);
    } else {
        let (file, other) = (files[0], others[0]);
        let (rest, other_rest) = (files.skip(1), others.skip(1));
        lemma_framed_split(files, 0);
        lemma_framed_split(others, 0);
        assert(files.take(0) =~= seq![]);
        assert(others.take(0) =~= seq![]);
        let tail = framed(rest) + end;
        let other_tail = framed(other_rest) + other_end;
        let (path, other_path) = (encode_utf8(file.path), encode_utf8(other.path));
        assert(framed(files) + end =~= path + seq![0u8] + (file.contents + seq![0u8] + tail));
        assert(framed(others) + other_end =~= other_path + seq![0u8] + (other.contents + seq![0u8]
            + other_tail));
        assert(file_is_plain(files[0]) && file_is_plain(others[0]));
        lemma_first_zero(
            path,
            file.contents + seq![0u8] + tail,
            other_path,
            other.contents + seq![0u8] + other_tail,
        );
        lemma_first_zero(file.contents, tail, other.contents, other_tail);
        vstd::utf8::encode_utf8_decode_utf8(file.path);
        vstd::utf8::encode_utf8_decode_utf8(other.path);
        assert forall|i: int| 0 <= i < rest.len() implies file_is_plain(#[trigger] rest[i]) by {
            assert(rest[i] == files[i + 1]);
        }
        assert forall|i: int| 0 <= i < other_rest.len() implies file_is_plain(
            #[trigger] other_rest[i],
        ) by {
            assert(other_rest[i] == others[i + 1]);
        }
        lemma_frames_are_told_apart(rest, end, other_rest, other_end);
        assert(files =~= seq![file] + rest);
        assert(others =~= seq![other] + other_rest);
    }
}

/// Where a file stands after sorting does not depend on what it holds.
proof fn lemma_changed_position(files: Seq<PayloadFileView>, k: int, file: PayloadFileView) -> (j:
    int)
    requires
        0 <= k < files.len(),
        file.path == files[k].path,
    ensures
        0 <= j < in_path_order(files, path_of_file()).len(),
        in_path_order(files, path_of_file())[j] == files[k],
        in_path_order(files.update(k, file), path_of_file()) == in_path_order(
            files,
            path_of_file(),
        ).update(j, file),
    decreases files.len(),
{
    let n = files.len() - 1;
    let last = files.last();
    let others = files.update(k, file);
    let earlier = in_path_order(files.drop_last(), path_of_file());
    lemma_file_slot(earlier, last);
    let at = slot(earlier, path_of_file(), last);
    if k == n {
        assert(others.drop_last() =~= files.drop_last());
        lemma_file_slot(earlier, file);
        assert(earlier.insert(at, file) =~= earlier.insert(at, last).update(at, file));
        at
    } else {
        let i = lemma_changed_position(files.drop_last(), k, file);
        assert(others.drop_last() =~= files.drop_last().update(k, file));
        let other = earlier.update(i, file);
        assert(file_paths(other) =~= file_paths(earlier));
        lemma_file_slot(other, last);
        let j = if i < at {
            i
        } else {
            i + 1
        };
        assert(other.insert(at, last) =~= earlier.insert(at, last).update(j, file));
        j
    }
}

/// The frames of a list are those before a file, its own, and those after it.
proof fn lemma_framed_split(files: Seq<PayloadFileView>, j: int)
    requires
        0 <= j < files.len(),
    ensures
        framed(files) == framed(files.take(j)) + encode_utf8(files[j].path) + seq![0u8]
            + files[j].contents + seq![0u8] + framed(files.skip(j + 1)),
    decreases files.len(),
{
    let n = files.len() - 1;
    let own = framed(files.take(j)) + encode_utf8(files[j].path) + seq![0u8] + files[j].contents
        + seq![0u8];
    if j == n {
        assert(files.take(j) =~= files.drop_last());
        assert(files.skip(j + 1) =~= seq![]);
        assert(own + framed(files.skip(j + 1)) =~= own);
    } else {
        let earlier = files.drop_last();
        lemma_framed_split(earlier, j);
        assert(earlier.take(j) =~= files.take(j));
        assert(earlier.skip(j + 1) =~= files.skip(j + 1).drop_last());
        assert(files.skip(j + 1).last() == files.last());
        assert(framed(files) =~= own + framed(files.skip(j + 1)));
    }
}

/// A marker is read back as it was written, whatever white space stands around
/// it.
pub proof fn law_marker_is_read_back(digest: Seq<u8>, before: Seq<char>, after: Seq<char>)
    requires
        digest.len() >= 16,
        forall|i: int| 0 <= i < before.len() ==> white(#[trigger] before[i]),
        forall|i: int| 0 <= i < after.len() ==> white(#[trigger] after[i]),
    ensures
        trimmed(before + marker_text(digest) + after) == marker_text(digest),
{
    let marker = marker_text(digest);
    lemma_hex_text(digest);
    assert(marker.len() == 32);
    assert(!white(marker[0]));
    assert(!white(marker[31]));
    lemma_trimmed_start(before, marker + after);
    lemma_trimmed_end(marker, after);
    assert(before + marker + after =~= before + (marker + after));
}

/// Hexadecimal text has two digits for each byte.
pub proof fn lemma_hex_text(bytes: Seq<u8>)
    ensures
        hex_text(bytes).len() == 2 * bytes.len(),
        hex_only(hex_text(bytes)),
    decreases bytes.len(),
{
    if bytes.len() > 0 {
        lemma_hex_text(bytes.drop_last());
        lemma_hex_digit(bytes.last() as int / 16);
        lemma_hex_digit(bytes.last() as int % 16);
    }
}

proof fn lemma_hex_digit(n: int)
    requires
        0 <= n < 16,
    ensures
        '0' <= hex_digit(n) <= '9' || 'a' <= hex_digit(n) <= 'f',
{
}

proof fn lemma_trimmed_start(before: Seq<char>, s: Seq<char>)
    requires
        forall|i: int| 0 <= i < before.len() ==> white(#[trigger] before[i]),
        s.len() > 0,
        !white(s[0]),
    ensures
        trimmed_start(before + s) == s,
    decreases before.len(),
{
    if before.len() == 0 {
        assert(before + s =~= s);
    } else {
        let rest = before.skip(1);
        assert forall|i: int| 0 <= i < rest.len() implies white(#[trigger] rest[i]) by {
            assert(rest[i] == before[i + 1]);
        }
        lemma_trimmed_start(rest, s);
        assert((before + s).skip(1) =~= rest + s);
        assert((before + s)[0] == before[0]);
    }
}

proof fn lemma_trimmed_end(s: Seq<char>, after: Seq<char>)
    requires
        forall|i: int| 0 <= i < after.len() ==> white(#[trigger] after[i]),
        s.len() > 0,
        !white(s.last()),
    ensures
        trimmed_end(s + after) == s,
    decreases after.len(),
{
    if after.len() == 0 {
        assert(s + after =~= s);
    } else {
        lemma_trimmed_end(s, after.drop_last());
        assert((s + after).drop_last() =~= s + after.drop_last());
        assert((s + after).last() == after[after.len() - 1]);
    }
}

} // verus!
