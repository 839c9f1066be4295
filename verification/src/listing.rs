//! What a payload lists, told by the lists that Git writes and the lines of the
//! manifest.

use vstd::prelude::*;

use crate::paths::path_under;
use crate::payload::{
    items_among, items_of, names_a_path, payload_of, tracked_from, tracked_paths,
};
use crate::profile::{free_of, ProfileErrorView, ProfileView};
use crate::text::{lines_of, lossy_text, trimmed, white};
use crate::text_laws::{
    all_white, law_blank_text, law_lines_are_read_back, law_own_lines_are_read_back, law_trimming,
    on_own_lines, written_lines,
};

verus! {

/// Whether a list of paths can be written one on a line: every path has a
/// character, no line feed and no carriage return at its end, and not all that
/// is written is white space.
pub open spec fn listable(list: Seq<Seq<char>>) -> bool {
    &&& forall|i: int|
        0 <= i < list.len() ==> (#[trigger] list[i]).len() > 0 && free_of(list[i], '\n')
            && list[i].last() != '\r'
    &&& exists|i: int, k: int|
        0 <= i < list.len() && 0 <= k < list[i].len() && !white(#[trigger] list[i][k])
}

/// Whether the lines of what Git wrote, if it could be run, are a list of paths.
pub open spec fn lists(written: Option<Seq<u8>>, list: Seq<Seq<char>>) -> bool {
    written matches Some(bytes) && !all_white(lossy_text(bytes)) && lines_of(lossy_text(bytes))
        == list
}

/// The paths of lists, one list after the other.
pub open spec fn all_of(lists: Seq<Seq<Seq<char>>>) -> Seq<Seq<char>>
    decreases lists.len(),
{
    if lists.len() == 0 {
        seq![]
    } else {
        lists[0] + all_of(lists.skip(1))
    }
}

/// What Git lists is found, every path of it and in its order, however many
/// there are and however the lines end. Where it lists nothing, or writes nothing
/// but white space, the entry is not tracked.
pub proof fn law_listed_paths_are_found(item: Seq<char>, list: Seq<Seq<char>>)
    ensures
        listable(list) ==> tracked_paths(item, on_own_lines(list)) == Ok::<
            Seq<Seq<char>>,
            ProfileErrorView,
        >(list),
        list.len() == 0 ==> tracked_paths(item, on_own_lines(list)) == Err::<
            Seq<Seq<char>>,
            ProfileErrorView,
        >(ProfileErrorView::NotTracked(item)),
        forall|written: Seq<char>|
            all_white(written) ==> #[trigger] tracked_paths(item, written) == Err::<
                Seq<Seq<char>>,
                ProfileErrorView,
            >(ProfileErrorView::NotTracked(item)),
        forall|written: Seq<char>|
            !all_white(written) ==> #[trigger] tracked_paths(item, written) == Ok::<
                Seq<Seq<char>>,
                ProfileErrorView,
            >(lines_of(written)),
{
    assert forall|written: Seq<char>| !all_white(written) implies #[trigger] tracked_paths(
        item,
        written,
    ) == Ok::<Seq<Seq<char>>, ProfileErrorView>(lines_of(written)) by {
        law_blank_text(written);
    }
    assert forall|written: Seq<char>| all_white(written) implies #[trigger] tracked_paths(
        item,
        written,
    ) == Err::<Seq<Seq<char>>, ProfileErrorView>(ProfileErrorView::NotTracked(item)) by {
        law_blank_text(written);
    }
    if list.len() == 0 {
        assert(on_own_lines(list) =~= seq![]);
        assert(all_white(on_own_lines(list)));
    }
    if listable(list) {
        law_own_lines_are_read_back(list);
        let (i, k) = choose|i: int, k: int|
            0 <= i < list.len() && 0 <= k < list[i].len() && !white(#[trigger] list[i][k]);
        lemma_written(list, |i: int| false, i, k);
        law_blank_text(on_own_lines(list));
    }
}

/// A character of a line stands in what is written.
proof fn lemma_written(list: Seq<Seq<char>>, crlf: spec_fn(int) -> bool, i: int, k: int)
    requires
        0 <= i < list.len(),
        0 <= k < list[i].len(),
        !white(list[i][k]),
    ensures
        !all_white(written_lines(list, crlf)),
    decreases list.len(),
{
    let all = written_lines(list, crlf);
    if i == 0 {
        assert(all[k] == list[0][k]);
    } else {
        let rest = list.skip(1);
        let later = |i: int| crlf(i + 1);
        assert(rest[i - 1] == list[i]);
        lemma_written(rest, later, i - 1, k);
        let tail = written_lines(rest, later);
        let m = choose|m: int| 0 <= m < tail.len() && !white(#[trigger] tail[m]);
        let n = all.len() - tail.len();
        assert(all[n + m] == tail[m]);
    }
}

/// Where Git lists something for every entry of the manifest, the payload is all
/// that it lists, entry by entry, and then the extra paths.
pub proof fn law_payload_is_all_that_is_listed(
    profile: ProfileView,
    root: Seq<char>,
    text: Seq<char>,
    listing: spec_fn(Seq<char>) -> Option<Seq<u8>>,
    found: Seq<Seq<Seq<char>>>,
)
    requires
        profile.payload.manifest is Some,
        profile.validate.git,
        found.len() == items_of(text).len(),
        forall|i: int|
            0 <= i < found.len() ==> lists(listing(items_of(text)[i]), #[trigger] found[i]),
    ensures
        payload_of(profile, root, Some(text), listing) == Ok::<Seq<Seq<char>>, ProfileErrorView>(
            all_of(found) + profile.payload.extra,
        ),
{
    lemma_listed_from(items_of(text), listing, found, 0);
    assert(found.skip(0) =~= found);
}

proof fn lemma_listed_from(
    items: Seq<Seq<char>>,
    listing: spec_fn(Seq<char>) -> Option<Seq<u8>>,
    found: Seq<Seq<Seq<char>>>,
    i: int,
)
    requires
        0 <= i <= found.len(),
        found.len() == items.len(),
        forall|i: int|
            0 <= i < found.len() ==> lists(listing(items[i]), #[trigger] found[i]),
    ensures
        tracked_from(items, listing, i) == Ok::<Seq<Seq<char>>, ProfileErrorView>(
            all_of(found.skip(i)),
        ),
    decreases found.len() - i,
{
    if i < found.len() {
        assert(lists(listing(items[i]), found[i]));
        law_listed_paths_are_found(items[i], found[i]);
        lemma_listed_from(items, listing, found, i + 1);
        assert(found.skip(i).skip(1) =~= found.skip(i + 1));
    }
}

/// The first entry that Git cannot be asked about, or of which it lists nothing,
/// decides why there is no payload.
pub proof fn law_first_missing_entry_decides(
    profile: ProfileView,
    root: Seq<char>,
    text: Seq<char>,
    listing: spec_fn(Seq<char>) -> Option<Seq<u8>>,
    found: Seq<Seq<Seq<char>>>,
)
    requires
        profile.payload.manifest is Some,
        profile.validate.git,
        found.len() < items_of(text).len(),
        forall|i: int|
            0 <= i < found.len() ==> lists(listing(items_of(text)[i]), #[trigger] found[i]),
    ensures
        listing(items_of(text)[found.len() as int]) is None ==> payload_of(
            profile,
            root,
            Some(text),
            listing,
        ) == Err::<Seq<Seq<char>>, ProfileErrorView>(ProfileErrorView::GitUnavailable),
        listing(items_of(text)[found.len() as int]) matches Some(bytes) ==> all_white(
            lossy_text(bytes),
        ) ==> payload_of(profile, root, Some(text), listing) == Err::<
            Seq<Seq<char>>,
            ProfileErrorView,
        >(ProfileErrorView::NotTracked(items_of(text)[found.len() as int])),
{
    let item = items_of(text)[found.len() as int];
    law_listed_paths_are_found(item, seq![]);
    lemma_missing_from(items_of(text), listing, found, 0);
}

proof fn lemma_missing_from(
    items: Seq<Seq<char>>,
    listing: spec_fn(Seq<char>) -> Option<Seq<u8>>,
    found: Seq<Seq<Seq<char>>>,
    i: int,
)
    requires
        0 <= i <= found.len(),
        found.len() < items.len(),
        forall|i: int|
            0 <= i < found.len() ==> lists(listing(items[i]), #[trigger] found[i]),
    ensures
        tracked_from(items, listing, found.len() as int) is Err ==> tracked_from(items, listing, i)
            == tracked_from(items, listing, found.len() as int),
    decreases found.len() - i,
{
    if i < found.len() {
        assert(lists(listing(items[i]), found[i]));
        law_listed_paths_are_found(items[i], found[i]);
        lemma_missing_from(items, listing, found, i + 1);
    }
}

/// Without a manifest the payload is the extra paths. With one that Git is not
/// asked about, it is the entries and then the extra paths. A manifest that
/// cannot be read is named by its path below the root.
pub proof fn law_payload_without_git(
    profile: ProfileView,
    root: Seq<char>,
    manifest: Option<Seq<char>>,
    listing: spec_fn(Seq<char>) -> Option<Seq<u8>>,
)
    ensures
        profile.payload.manifest is None ==> payload_of(profile, root, manifest, listing) == Ok::<
            Seq<Seq<char>>,
            ProfileErrorView,
        >(profile.payload.extra),
        (profile.payload.manifest is Some && !profile.validate.git) ==> (manifest matches Some(
            text,
        ) ==> payload_of(profile, root, manifest, listing) == Ok::<
            Seq<Seq<char>>,
            ProfileErrorView,
        >(items_of(text) + profile.payload.extra)),
        profile.payload.manifest matches Some(path) ==> manifest is None ==> payload_of(
            profile,
            root,
            manifest,
            listing,
        ) == Err::<Seq<Seq<char>>, ProfileErrorView>(
            ProfileErrorView::ManifestUnreadable(path_under(root, path)),
        ),
{
}

/// Every line of a manifest is taken without the white space around it, and names
/// a path unless nothing is left or it begins with `#`.
pub proof fn law_every_manifest_line_is_read(text: Seq<char>)
    ensures
        items_of(text) == all_of(
            Seq::new(
                lines_of(text).len(),
                |i: int|
                    if trimmed(lines_of(text)[i]).len() == 0 || trimmed(lines_of(text)[i])[0]
                        == '#' {
                        seq![]
                    } else {
                        seq![trimmed(lines_of(text)[i])]
                    },
            ),
        ),
{
    lemma_lines_named(lines_of(text));
}

proof fn lemma_lines_named(lines: Seq<Seq<char>>)
    ensures
        items_among(lines) == all_of(
            Seq::new(
                lines.len(),
                |i: int|
                    if trimmed(lines[i]).len() == 0 || trimmed(lines[i])[0] == '#' {
                        seq![]
                    } else {
                        seq![trimmed(lines[i])]
                    },
            ),
        ),
    decreases lines.len(),
{
    let named = |lines: Seq<Seq<char>>|
        Seq::new(
            lines.len(),
            |i: int|
                if trimmed(lines[i]).len() == 0 || trimmed(lines[i])[0] == '#' {
                    Seq::<Seq<char>>::empty()
                } else {
                    seq![trimmed(lines[i])]
                },
        );
    if lines.len() > 0 {
        let less = lines.drop_last();
        lemma_lines_named(less);
        let last = trimmed(lines.last());
        let own = if last.len() == 0 || last[0] == '#' {
            Seq::<Seq<char>>::empty()
        } else {
            seq![last]
        };
        assert(named(lines) =~= named(less).push(own));
        lemma_all_of_push(named(less), own);
        assert(all_of(named(less)) + Seq::<Seq<char>>::empty() =~= all_of(named(less)));
        assert(all_of(named(less)) + seq![last] =~= all_of(named(less)).push(last));
    }
}

/// A line of a manifest: a path with white space around it, white space alone,
/// or a comment with white space before it.
pub enum ManifestLine {
    Entry(Seq<char>, Seq<char>, Seq<char>),
    Blank(Seq<char>),
    Comment(Seq<char>, Seq<char>),
}

impl ManifestLine {
    /// How the line is written.
    pub open spec fn written(self) -> Seq<char> {
        match self {
            ManifestLine::Entry(before, path, after) => before + path + after,
            ManifestLine::Blank(space) => space,
            ManifestLine::Comment(before, text) => before + "#"@ + text,
        }
    }

    /// The paths that the line names: one for an entry, and none otherwise.
    pub open spec fn named(self) -> Seq<Seq<char>> {
        match self {
            ManifestLine::Entry(_, path, _) => seq![path],
            _ => seq![],
        }
    }

    /// Whether the line is what its name says, and stays on one line.
    pub open spec fn fits(self) -> bool {
        &&& free_of(self.written(), '\n')
        &&& self.written().len() > 0 ==> self.written().last() != '\r'
        &&& match self {
            ManifestLine::Entry(before, path, after) => {
                &&& all_white(before)
                &&& all_white(after)
                &&& path.len() > 0
                &&& path[0] != '#'
                &&& !white(path[0])
                &&& !white(path.last())
            },
            ManifestLine::Blank(space) => all_white(space),
            ManifestLine::Comment(before, _) => all_white(before),
        }
    }
}

/// The entries of a manifest are read back, every one of them and in their
/// order, without the white space around them. Blank lines and comments name
/// nothing.
pub proof fn law_manifest_entries_are_read_back(
    lines: Seq<ManifestLine>,
    crlf: spec_fn(int) -> bool,
)
    requires
        forall|i: int| 0 <= i < lines.len() ==> (#[trigger] lines[i]).fits(),
    ensures
        items_of(written_lines(Seq::new(lines.len(), |i: int| lines[i].written()), crlf))
            == all_of(Seq::new(lines.len(), |i: int| lines[i].named())),
{
    let written = Seq::new(lines.len(), |i: int| lines[i].written());
    assert forall|i: int| 0 <= i < written.len() implies free_of(#[trigger] written[i], '\n') && (
    written[i].len() == 0 || written[i].last() != '\r') by {
        assert(lines[i].fits());
    }
    law_lines_are_read_back(written, crlf, seq![]);
    assert(written_lines(written, crlf) + Seq::<char>::empty() =~= written_lines(written, crlf));
    lemma_entries(lines);
}

proof fn lemma_entries(lines: Seq<ManifestLine>)
    requires
        forall|i: int| 0 <= i < lines.len() ==> (#[trigger] lines[i]).fits(),
    ensures
        items_among(Seq::new(lines.len(), |i: int| lines[i].written())) == all_of(
            Seq::new(lines.len(), |i: int| lines[i].named()),
        ),
    decreases lines.len(),
{
    let written = Seq::new(lines.len(), |i: int| lines[i].written());
    let named = Seq::new(lines.len(), |i: int| lines[i].named());
    if lines.len() > 0 {
        let less = lines.drop_last();
        let last = lines.last();
        assert forall|i: int| 0 <= i < less.len() implies (#[trigger] less[i]).fits() by {
            assert(less[i] == lines[i]);
        }
        lemma_entries(less);
        assert(lines[lines.len() - 1].fits());
        assert(written.drop_last() =~= Seq::new(less.len(), |i: int| less[i].written()));
        let earlier = Seq::new(less.len(), |i: int| less[i].named());
        assert(named =~= earlier.push(last.named()));
        lemma_all_of_push(earlier, last.named());
        match last {
            ManifestLine::Entry(before, path, after) => {
                law_trimming(before, path, after);
                assert(names_a_path(path));
                assert(all_of(earlier).push(path) =~= all_of(earlier) + seq![path]);
            },
            ManifestLine::Blank(space) => {
                law_blank_text(space);
                assert(all_of(earlier) + Seq::<Seq<char>>::empty() =~= all_of(earlier));
            },
            ManifestLine::Comment(before, text) => {
                lemma_comment(before, text);
                assert(all_of(earlier) + Seq::<Seq<char>>::empty() =~= all_of(earlier));
            },
        }
    }
}

proof fn lemma_all_of_push(lists: Seq<Seq<Seq<char>>>, list: Seq<Seq<char>>)
    ensures
        all_of(lists.push(list)) == all_of(lists) + list,
    decreases lists.len(),
{
    let all = lists.push(list);
    if lists.len() == 0 {
        assert(all.skip(1) =~= Seq::empty());
        assert(all_of(all.skip(1)) =~= seq![]);
        assert(all_of(all) =~= all_of(lists) + list);
    } else {
        lemma_all_of_push(lists.skip(1), list);
        assert(all.skip(1) =~= lists.skip(1).push(list));
        assert(all_of(all) =~= all_of(lists) + list);
    }
}

proof fn lemma_comment(before: Seq<char>, text: Seq<char>)
    requires
        all_white(before),
    ensures
        !names_a_path(trimmed(before + "#"@ + text)),
{
    reveal_strlit("#");
    let body = "#"@ + text;
    assert("#"@[0] == '#');
    assert(body[0] == '#');
    lemma_split_end(body, 0);
    let (s, after) = choose|s: Seq<char>, after: Seq<char>| cut(body, s, after);
    assert(s[0] == body[0]);
    law_trimming(before, s, after);
    assert(before + "#"@ + text =~= before + body);
    assert(before + (s + after) =~= before + s + after);
}

/// Whether `s` is all of `body` but the white space at its end.
spec fn cut(body: Seq<char>, s: Seq<char>, after: Seq<char>) -> bool {
    body == s + after && all_white(after) && s.len() > 0 && !white(s.last())
}

/// A text with a character that is no white space is cut after the last of them.
proof fn lemma_split_end(body: Seq<char>, k: int)
    requires
        0 <= k < body.len(),
        !white(body[k]),
    ensures
        exists|s: Seq<char>, after: Seq<char>| cut(body, s, after),
    decreases body.len(),
{
    if white(body.last()) {
        let less = body.drop_last();
        assert(less[k] == body[k]);
        lemma_split_end(less, k);
        let (s, after) = choose|s: Seq<char>, after: Seq<char>| cut(less, s, after);
        let longer = after.push(body.last());
        assert(cut(less, s, after));
        assert(body =~= less.push(body.last()));
        assert((s + after).push(body.last()) =~= s + longer);
        assert(all_white(longer));
        assert(cut(body, s, longer));
    } else {
        let none = Seq::<char>::empty();
        assert(body =~= body + none);
        assert(all_white(none));
        assert(cut(body, body, none));
    }
}

} // verus!
