use nomad_env::paths::{is_path_before, same_path, sort_paths};
use nomad_env::text::{after_last, contains, lines, replace, split, starts_with, trim, trim_end};
use nomad_env::text_map::is_before;

const SAMPLES: [&str; 12] = [
    "",
    "\n",
    "a",
    "a\n",
    "a\r\nb\r\n",
    "a\r",
    "\n\na\n\n",
    " \t a b \u{a0}\u{2003}",
    "a/b/c",
    "/",
    "aaaa",
    "h\u{e9}llo w\u{f6}rld",
];

#[test]
fn lines_are_cut_like_the_standard_library_cuts_them() {
    for sample in SAMPLES {
        let expected: Vec<String> = sample.lines().map(|l| l.to_string()).collect();
        assert_eq!(lines(sample), expected);
    }
}

#[test]
fn white_space_is_trimmed_like_the_standard_library_trims_it() {
    for sample in SAMPLES {
        assert_eq!(trim(sample), sample.trim());
        assert_eq!(trim_end(sample), sample.trim_end());
    }
    for c in (0u32..0x3100).filter_map(char::from_u32) {
        assert_eq!(nomad_env::text::is_white(c), c.is_whitespace());
    }
}

#[test]
fn text_is_split_and_searched_like_the_standard_library_does() {
    for sample in SAMPLES {
        let expected: Vec<String> = sample.split('/').map(|p| p.to_string()).collect();
        assert_eq!(split(sample, '/'), expected);
        assert_eq!(after_last(sample, '/'), sample.rsplit('/').next().unwrap());
        for pat in ["a", "aa", "\n", "b/c"] {
            assert_eq!(contains(sample, pat), sample.contains(pat));
            assert_eq!(starts_with(sample, pat), sample.starts_with(pat));
            assert_eq!(replace(sample, pat, "-x-"), sample.replace(pat, "-x-"));
        }
    }
}

#[test]
fn text_is_ordered_like_the_standard_library_orders_it() {
    for a in SAMPLES {
        for b in SAMPLES {
            assert_eq!(is_before(a, b), a < b);
        }
    }
}

#[test]
fn paths_are_ordered_like_the_standard_library_orders_them() {
    let samples = [
        "", ".", "..", "/", "//", "a", "a/", "a//b", "a/./b", "./a", "a/..", "a-b", "/a", "a/b/c",
        "\u{e9}", "A",
    ];
    for a in samples {
        for b in samples {
            let (x, y) = (std::path::Path::new(a), std::path::Path::new(b));
            assert_eq!(is_path_before(a, b), x < y);
            assert_eq!(same_path(a, b), x == y);
        }
    }
}

#[test]
fn sorting_keeps_paths_that_are_alike_in_their_order() {
    let paths: Vec<String> =
        ["b", "a//b", "a/b", "a/./b", "a"].iter().map(|s| s.to_string()).collect();
    assert_eq!(sort_paths(&paths), vec!["a", "a//b", "a/b", "a/./b", "b"]);
}
