//! What sessions, markers, sockets and fingerprints are made of.

use vstd::prelude::*;
use vstd::utf8::encode_utf8;

use crate::clean::{record_path, CleanSetup};
use crate::course::{cleaning_connection, opened_connection, World};
use crate::path_laws::law_ordered_list_stays;
use crate::paths::{in_path_order, path_ordered, path_under};
use crate::prepare::{drawn_marker, profile_settings, state_path_in, Setup};
use crate::protocol::ConnectionView;
use crate::session::{
    debug_text, fingerprint, framed, hex_digit, hex_only, hex_text, le_bytes, lemma_hex_text,
    listed_pairs, marker_seed, marker_text, on_lines, path_of_file, session_key, settings_of,
    sha256, state_dir_in, PayloadFileView,
};
use crate::text_laws::joined_by;
use crate::text_map::Pair;

verus! {

/// The value of a lower-case hexadecimal digit.
pub open spec fn digit_value(c: char) -> int {
    if '0' <= c <= '9' {
        c as int - '0' as int
    } else {
        c as int - 'a' as int + 10
    }
}

/// Hexadecimal text stands for the bytes that it was made from: two lower-case
/// digits for each of them, the higher one first.
pub proof fn law_hex_is_read_back(bytes: Seq<u8>)
    ensures
        hex_text(bytes).len() == 2 * bytes.len(),
        hex_only(hex_text(bytes)),
        forall|i: int|
            0 <= i < bytes.len() ==> #[trigger] bytes[i] == 16 * digit_value(
                hex_text(bytes)[2 * i],
            ) + digit_value(hex_text(bytes)[2 * i + 1]),
    decreases bytes.len(),
{
    lemma_hex_text(bytes);
    if bytes.len() > 0 {
        let less = bytes.drop_last();
        let all = hex_text(bytes);
        law_hex_is_read_back(less);
        lemma_hex_text(less);
        let b = bytes.last() as int;
        assert(hex_digit(b / 16) == all[2 * less.len() as int]);
        assert(hex_digit(b % 16) == all[2 * less.len() as int + 1]);
        lemma_digit_value(b / 16);
        lemma_digit_value(b % 16);
        assert forall|i: int| 0 <= i < bytes.len() implies #[trigger] bytes[i] == 16 * digit_value(
            all[2 * i],
        ) + digit_value(all[2 * i + 1]) by {
            if i < less.len() {
                assert(less[i] == bytes[i]);
                assert(hex_text(less)[2 * i] == all[2 * i]);
                assert(hex_text(less)[2 * i + 1] == all[2 * i + 1]);
            }
        }
    }
}

proof fn lemma_digit_value(n: int)
    requires
        0 <= n < 16,
    ensures
        digit_value(hex_digit(n)) == n,
{
}

/// The number that bytes stand for, the lowest first.
pub open spec fn number_of(bytes: Seq<u8>) -> nat
    decreases bytes.len(),
{
    if bytes.len() == 0 {
        0
    } else {
        bytes[0] as nat + 256 * number_of(bytes.skip(1))
    }
}

/// 256 to the power of `n`.
pub open spec fn power_of_256(n: nat) -> nat
    decreases n,
{
    if n == 0 {
        1
    } else {
        256 * power_of_256((n - 1) as nat)
    }
}

/// A number is read back from its bytes.
pub proof fn law_bytes_are_read_back(x: nat, n: nat)
    requires
        x < power_of_256(n),
    ensures
        le_bytes(x, n).len() == n,
        number_of(le_bytes(x, n)) == x,
    decreases n,
{
    if n > 0 {
        assert(x / 256 < power_of_256((n - 1) as nat)) by (nonlinear_arith)
            requires
                x < 256 * power_of_256((n - 1) as nat),
        ;
        law_bytes_are_read_back(x / 256, (n - 1) as nat);
        let rest = le_bytes(x / 256, (n - 1) as nat);
        assert(le_bytes(x, n).skip(1) =~= rest);
        assert(x == (x % 256) + 256 * (x / 256)) by (nonlinear_arith);
    }
}

proof fn lemma_powers()
    ensures
        power_of_256(4) == 0x1_0000_0000,
        power_of_256(16) == 0x1_0000_0000_0000_0000_0000_0000_0000_0000,
{
    reveal_with_fuel(power_of_256, 17);
}

/// A seed holds the process number in its first four bytes, and the time in the
/// sixteen after them where there is one, so that no two draws at different times
/// or of different processes have the same seed.
pub proof fn law_seed_holds_process_and_time(process: u32, nanos: Option<u128>)
    ensures
        number_of(marker_seed(process, nanos).take(4)) == process,
        nanos matches Some(n) ==> marker_seed(process, nanos).len() == 20 && number_of(
            marker_seed(process, nanos).skip(4),
        ) == n,
        nanos is None ==> marker_seed(process, nanos).len() == 4,
{
    lemma_powers();
    law_bytes_are_read_back(process as nat, 4);
    assert(marker_seed(process, nanos).take(4) =~= le_bytes(process as nat, 4));
    if let Some(n) = nanos {
        law_bytes_are_read_back(n as nat, 16);
        assert(marker_seed(process, nanos).skip(4) =~= le_bytes(n as nat, 16));
    }
}

/// A marker is the hexadecimal text of the first sixteen bytes of a digest.
pub proof fn law_marker_is_half_a_digest(digest: Seq<u8>)
    requires
        digest.len() >= 16,
    ensures
        marker_text(digest) == hex_text(digest.take(16)),
        marker_text(digest).len() == 32,
{
    lemma_hex_prefix(digest, 16);
    lemma_hex_text(digest.take(16));
}

proof fn lemma_hex_prefix(bytes: Seq<u8>, n: int)
    requires
        0 <= n <= bytes.len(),
    ensures
        hex_text(bytes).take(2 * n) == hex_text(bytes.take(n)),
    decreases bytes.len(),
{
    lemma_hex_text(bytes);
    if n == bytes.len() {
        assert(bytes.take(n) =~= bytes);
        assert(hex_text(bytes).take(2 * n) =~= hex_text(bytes));
    } else {
        let less = bytes.drop_last();
        lemma_hex_prefix(less, n);
        lemma_hex_text(less);
        assert(less.take(n) =~= bytes.take(n));
        assert(hex_text(bytes).take(2 * n) =~= hex_text(less).take(2 * n));
    }
}

/// What is drawn is the marker of the digest of the seed.
pub proof fn law_drawn_marker_is_of_the_seed(process: u32, nanos: Option<u128>)
    requires
        sha256(marker_seed(process, nanos)).len() == 32,
    ensures
        drawn_marker(process, nanos) == hex_text(sha256(marker_seed(process, nanos)).take(16)),
        drawn_marker(process, nanos).take(12) == hex_text(
            sha256(marker_seed(process, nanos)).take(6),
        ),
{
    let digest = sha256(marker_seed(process, nanos));
    law_marker_is_half_a_digest(digest);
    lemma_hex_prefix(digest, 6);
    lemma_hex_text(digest);
    assert(drawn_marker(process, nanos).take(12) =~= hex_text(digest).take(12));
}

/// A preparation and a clean-up each open a socket of their own in the temporary
/// directory, named after the first twelve digits of the marker that was drawn,
/// to the destination with its options.
pub proof fn law_sockets_are_named_apart(setup: Setup, clean: CleanSetup, world: World)
    ensures
        opened_connection(setup, world) == (ConnectionView {
            dest: setup.dest.host,
            ssh_args: setup.dest.ssh_args,
            socket: path_under(
                setup.temp_dir,
                "nomad-socket."@ + drawn_marker(world.first_seed.0, world.first_seed.1).take(12),
            ),
        }),
        cleaning_connection(clean, world) == (ConnectionView {
            dest: clean.dest.host,
            ssh_args: clean.dest.ssh_args,
            socket: path_under(
                clean.temp_dir,
                "nomad-clean."@ + drawn_marker(world.later_seed.0, world.later_seed.1).take(12),
            ),
        }),
{
}

/// A session is known by its root, its destination and its options, each on a
/// line of its own, and its record is named after the digest of that text. A
/// clean-up looks where a preparation has written.
pub proof fn law_record_is_named_after_the_session(
    setup: Setup,
    clean: CleanSetup,
    dir: Seq<char>,
)
    ensures
        state_path_in(setup, dir) == path_under(
            dir,
            hex_text(
                sha256(
                    encode_utf8(
                        joined_by(seq![setup.root, setup.dest.host] + setup.dest.ssh_args, "\n"@),
                    ),
                ),
            ),
        ),
        clean.root == setup.root && clean.dest == setup.dest ==> record_path(clean, dir)
            == state_path_in(setup, dir),
{
    lemma_session_key(setup.root, setup.dest.host, setup.dest.ssh_args);
}

proof fn lemma_session_key(root: Seq<char>, dest: Seq<char>, opts: Seq<Seq<char>>)
    ensures
        session_key(root, dest, opts) == joined_by(seq![root, dest] + opts, "\n"@),
{
    reveal_strlit("\n");
    assert("\n"@ =~= seq!['\n']);
    let all = seq![root, dest] + opts;
    let rest = seq![dest] + opts;
    assert(all.skip(1) =~= rest);
    lemma_lines_joined(dest, opts);
    assert(root.push('\n') + dest + on_lines(opts) =~= root + "\n"@ + (dest + on_lines(opts)));
}

proof fn lemma_lines_joined(first: Seq<char>, opts: Seq<Seq<char>>)
    ensures
        first + on_lines(opts) == joined_by(seq![first] + opts, "\n"@),
    decreases opts.len(),
{
    reveal_strlit("\n");
    assert("\n"@ =~= seq!['\n']);
    let all = seq![first] + opts;
    if opts.len() == 0 {
        assert(all =~= seq![first]);
        assert(first + on_lines(opts) =~= first);
    } else {
        let less = opts.drop_last();
        lemma_lines_joined(first, less);
        lemma_joined_last(seq![first] + less, opts.last(), "\n"@);
        assert(all =~= (seq![first] + less).push(opts.last()));
        assert(first + on_lines(opts) =~= first + on_lines(less) + "\n"@ + opts.last());
    }
}

/// Joining one more text.
pub proof fn lemma_joined_last(list: Seq<Seq<char>>, last: Seq<char>, sep: Seq<char>)
    requires
        list.len() > 0,
    ensures
        joined_by(list.push(last), sep) == joined_by(list, sep) + sep + last,
    decreases list.len(),
{
    let all = list.push(last);
    let rest = all.skip(1);
    if list.len() == 1 {
        assert(rest =~= seq![last]);
        assert(joined_by(rest, sep) == last);
    } else {
        lemma_joined_last(list.skip(1), last, sep);
        assert(rest =~= list.skip(1).push(last));
        assert(list[0] + sep + (joined_by(list.skip(1), sep) + sep + last) =~= list[0] + sep
            + joined_by(list.skip(1), sep) + sep + last);
    }
}

/// Session records are kept below `$XDG_STATE_HOME`, or below the home directory
/// where that is not set.
pub proof fn law_records_are_kept_in_the_state_home(dir: Seq<char>, home: Option<Seq<char>>)
    ensures
        state_dir_in(Some(dir), home) == Some(path_under(dir, "nomad"@)),
        state_dir_in(None, Some(dir)) == Some(path_under(dir, ".local/state/nomad"@)),
        state_dir_in(None, None) is None,
{
}

/// The bytes of files: each path and each contents, with a zero byte after them.
pub open spec fn frames(files: Seq<PayloadFileView>) -> Seq<u8>
    decreases files.len(),
{
    if files.len() == 0 {
        seq![]
    } else {
        encode_utf8(files[0].path) + seq![0u8] + files[0].contents + seq![0u8] + frames(
            files.skip(1),
        )
    }
}

/// A fingerprint is the digest of every file in path order, path and contents,
/// and of every pair of the environment, key and value.
pub proof fn law_fingerprint_is_of_all_files_and_settings(
    setup: Setup,
    files: Seq<PayloadFileView>,
)
    ensures
        path_ordered(files, path_of_file()) ==> in_path_order(files, path_of_file()) == files,
        fingerprint(files, profile_settings(setup.profile)) == hex_text(
            sha256(
                frames(in_path_order(files, path_of_file())) + encode_utf8(
                    "{"@ + joined_by(
                        Seq::new(
                            setup.profile.environment.len(),
                            |i: int|
                                debug_text(setup.profile.environment[i].0) + ": "@ + debug_text(
                                    setup.profile.environment[i].1,
                                ),
                        ),
                        ", "@,
                    ) + "}"@,
                ),
            ),
        ),
{
    if path_ordered(files, path_of_file()) {
        law_ordered_list_stays(files, path_of_file());
    }
    lemma_frames(in_path_order(files, path_of_file()));
    let env = setup.profile.environment;
    let pairs = Seq::new(env.len(), |i: int| (debug_text(env[i].0), debug_text(env[i].1)));
    lemma_listed(pairs);
    assert(Seq::new(env.len(), |i: int| debug_text(env[i].0) + ": "@ + debug_text(env[i].1))
        =~= Seq::new(pairs.len(), |i: int| pairs[i].0 + ": "@ + pairs[i].1));
    assert(profile_settings(setup.profile) == settings_of(pairs));
}

proof fn lemma_frames(files: Seq<PayloadFileView>)
    ensures
        framed(files) == frames(files),
    decreases files.len(),
{
    if files.len() == 1 {
        assert(files.drop_last() =~= files.skip(1));
        assert(framed(files.drop_last()) =~= seq![]);
        assert(frames(files.skip(1)) =~= seq![]);
        assert(framed(files) =~= frames(files));
    } else if files.len() > 1 {
        let less = files.drop_last();
        let rest = files.skip(1);
        lemma_frames(less);
        lemma_frames(rest);
        lemma_frames(less.skip(1));
        assert(rest.drop_last() =~= less.skip(1));
        assert(framed(files) =~= frames(files));
    }
}

/// The pairs of a settings text stand in their order, with a comma and a blank
/// between them.
pub proof fn lemma_listed(pairs: Seq<Pair>)
    ensures
        listed_pairs(pairs) == joined_by(
            Seq::new(pairs.len(), |i: int| pairs[i].0 + ": "@ + pairs[i].1),
            ", "@,
        ),
    decreases pairs.len(),
{
    let all = Seq::new(pairs.len(), |i: int| pairs[i].0 + ": "@ + pairs[i].1);
    if pairs.len() > 1 {
        let less = pairs.drop_last();
        let texts = Seq::new(less.len(), |i: int| less[i].0 + ": "@ + less[i].1);
        lemma_listed(less);
        lemma_joined_last(texts, all.last(), ", "@);
        assert(all =~= texts.push(all.last()));
    }
}

} // verus!
