//! The protocol that lists the paths of a payload.

use vstd::prelude::*;

use crate::paths::join_path;
use crate::paths::path_under;
use crate::profile::{Profile, ProfileError};
use crate::profile::{ProfileErrorView, ProfileView};
use crate::text::{copied, decode_lossy, lines, starts_with, trim};
use crate::text::{lines_of, lossy_text, occurs_at, texts, trimmed};

verus! {

/// Whether a line of a manifest, without the white space around it, names a
/// path.
pub open spec fn names_a_path(item: Seq<char>) -> bool {
    item.len() > 0 && item[0] != '#'
}

/// The paths that the lines of a manifest name.
pub open spec fn items_among(lines: Seq<Seq<char>>) -> Seq<Seq<char>>
    decreases lines.len(),
{
    if lines.len() == 0 {
        seq![]
    } else {
        let item = trimmed(lines.last());
        let earlier = items_among(lines.drop_last());
        if names_a_path(item) {
            earlier.push(item)
        } else {
            earlier
        }
    }
}

/// The paths that a manifest names: its lines without the white space around
/// them, but for blank lines and those that begin with `#`.
pub open spec fn items_of(text: Seq<char>) -> Seq<Seq<char>> {
    items_among(lines_of(text))
}

/// The paths that a manifest names.
pub fn manifest_items(text: &str) -> (r: Vec<String>)
    ensures
        texts(r@) == items_of(text@),
{
    let all = lines(text);
    let mut r: Vec<String> = Vec::new();
    let mut i: usize = 0;
    let ghost views = texts(all@);
    proof {
        assert(texts(r@) =~= seq![]);
    }
    while i < all.len()
        invariant
            i <= all@.len(),
            views == texts(all@),
            texts(r@) == items_among(views.take(i as int)),
        decreases all@.len() - i,
    {
        let item = trim(all[i].as_str());
        let ghost before = r@;
        proof {
            assert(views.take(i + 1).drop_last() =~= views.take(i as int));
            reveal_strlit("#");
            assert(occurs_at(item@, "#"@, 0) == (item@.len() > 0 && item@[0] == '#')) by {
                if item@.len() > 0 {
                    assert(item@.subrange(0, 1)[0] == item@[0]);
                    assert("#"@[0] == '#');
                    assert("#"@.len() == 1);
                    if item@[0] == '#' {
                        assert(item@.subrange(0, 1) =~= "#"@);
                    }
                }
            }
        }
        if !item.as_str().is_empty() && !starts_with(item.as_str(), "#") {
            r.push(item);
            proof {
                assert(texts(r@) =~= texts(before).push(trimmed(views[i as int])));
            }
        }
        i = i + 1;
    }
    proof {
        assert(views.take(i as int) =~= views);
    }
    r
}

/// A question about the profile root.
#[derive(Debug, Clone, PartialEq, Eq)]
pub enum PayloadRequest {
    /// The text of the manifest at a path.
    ReadManifest(String),
    /// What `git ls-files` says of a manifest entry.
    ListTracked(String),
}

/// What a [`PayloadRequest`] holds.
pub enum PayloadRequestView {
    ReadManifest(Seq<char>),
    ListTracked(Seq<char>),
}

impl View for PayloadRequest {
    type V = PayloadRequestView;

    open spec fn view(&self) -> PayloadRequestView {
        match self {
            PayloadRequest::ReadManifest(path) => PayloadRequestView::ReadManifest(path@),
            PayloadRequest::ListTracked(item) => PayloadRequestView::ListTracked(item@),
        }
    }
}

/// An answer to a [`PayloadRequest`].
#[derive(Debug, Clone, PartialEq, Eq)]
pub enum PayloadAnswer {
    /// The text of the manifest, where it can be read.
    Manifest(Option<String>),
    /// What Git wrote, where it can be run.
    Listing(Option<Vec<u8>>),
}

/// What a [`PayloadAnswer`] holds.
pub enum PayloadAnswerView {
    Manifest(Option<Seq<char>>),
    Listing(Option<Seq<u8>>),
}

impl View for PayloadAnswer {
    type V = PayloadAnswerView;

    open spec fn view(&self) -> PayloadAnswerView {
        match self {
            PayloadAnswer::Manifest(Some(text)) => PayloadAnswerView::Manifest(Some(text@)),
            PayloadAnswer::Manifest(None) => PayloadAnswerView::Manifest(None),
            PayloadAnswer::Listing(Some(bytes)) => PayloadAnswerView::Listing(Some(bytes@)),
            PayloadAnswer::Listing(None) => PayloadAnswerView::Listing(None),
        }
    }
}

/// The paths that Git tracks under a manifest entry, by what it wrote: its
/// lines, of which there has to be one.
pub open spec fn tracked_paths(item: Seq<char>, written: Seq<char>) -> Result<
    Seq<Seq<char>>,
    ProfileErrorView,
> {
    if trimmed(written).len() == 0 {
        Err(ProfileErrorView::NotTracked(item))
    } else {
        Ok(lines_of(written))
    }
}

/// Paths or the reason why there are none, seen through the views.
pub open spec fn paths_outcome(r: Result<Vec<String>, ProfileError>) -> Result<
    Seq<Seq<char>>,
    ProfileErrorView,
> {
    match r {
        Ok(paths) => Ok(texts(paths@)),
        Err(err) => Err(err@),
    }
}

/// The paths that Git tracks under a manifest entry, by what it wrote.
pub fn tracked_under(item: &str, written: &str) -> (r: Result<Vec<String>, ProfileError>)
    ensures
        paths_outcome(r) == tracked_paths(item@, written@),
{
    let kept = trim(written);
    if kept.as_str().is_empty() {
        Err(ProfileError::NotTracked(item.to_owned()))
    } else {
        Ok(lines(written))
    }
}

/// How far the listing has come.
pub enum PayloadStage {
    Manifest(String),
    Items { items: Vec<String>, next: usize, paths: Vec<String> },
    Finished(Result<Vec<String>, ProfileError>),
}

/// What a [`PayloadStage`] holds.
pub enum PayloadStageView {
    Manifest(Seq<char>),
    Items(Seq<Seq<char>>, int, Seq<Seq<char>>),
    Finished(Result<Seq<Seq<char>>, ProfileErrorView>),
}

impl View for PayloadStage {
    type V = PayloadStageView;

    open spec fn view(&self) -> PayloadStageView {
        match self {
            PayloadStage::Manifest(path) => PayloadStageView::Manifest(path@),
            PayloadStage::Items { items, next, paths } => PayloadStageView::Items(
                texts(items@),
                *next as int,
                texts(paths@),
            ),
            PayloadStage::Finished(r) => PayloadStageView::Finished(paths_outcome(*r)),
        }
    }
}

/// The first stage.
pub open spec fn first_payload_stage(profile: ProfileView, root: Seq<char>) -> PayloadStageView {
    match profile.payload.manifest {
        Some(manifest) => PayloadStageView::Manifest(path_under(root, manifest)),
        None => PayloadStageView::Finished(Ok(profile.payload.extra)),
    }
}

/// The stage that has the entries from position `next` on to ask about, after
/// `paths` were found.
pub open spec fn items_stage(
    profile: ProfileView,
    items: Seq<Seq<char>>,
    next: int,
    paths: Seq<Seq<char>>,
) -> PayloadStageView {
    if next < items.len() {
        PayloadStageView::Items(items, next, paths)
    } else {
        PayloadStageView::Finished(Ok(paths + profile.payload.extra))
    }
}

/// What a stage asks.
pub open spec fn payload_request(stage: PayloadStageView) -> Option<PayloadRequestView> {
    match stage {
        PayloadStageView::Manifest(path) => Some(PayloadRequestView::ReadManifest(path)),
        PayloadStageView::Items(items, next, _) => Some(
            PayloadRequestView::ListTracked(items[next]),
        ),
        PayloadStageView::Finished(_) => None,
    }
}

/// The stage that follows an answer. An answer that does not fit the question
/// changes nothing.
pub open spec fn next_payload_stage(
    profile: ProfileView,
    stage: PayloadStageView,
    answer: PayloadAnswerView,
) -> PayloadStageView {
    match (stage, answer) {
        (PayloadStageView::Manifest(path), PayloadAnswerView::Manifest(text)) => match text {
            None => PayloadStageView::Finished(Err(ProfileErrorView::ManifestUnreadable(path))),
            Some(text) => if profile.validate.git {
                items_stage(profile, items_of(text), 0, seq![])
            } else {
                PayloadStageView::Finished(Ok(items_of(text) + profile.payload.extra))
            },
        },
        (
            PayloadStageView::Items(items, next, paths),
            PayloadAnswerView::Listing(bytes),
        ) => match bytes {
            None => PayloadStageView::Finished(Err(ProfileErrorView::GitUnavailable)),
            Some(bytes) => match tracked_paths(items[next], lossy_text(bytes)) {
                Err(err) => PayloadStageView::Finished(Err(err)),
                Ok(found) => items_stage(profile, items, next + 1, paths + found),
            },
        },
        _ => stage,
    }
}

/// A listing of a payload that is under way.
pub struct PayloadListing<'a> {
    profile: &'a Profile,
    stage: PayloadStage,
}

/// `list` with `more` after it.
fn extended(list: Vec<String>, more: &Vec<String>) -> (r: Vec<String>)
    ensures
        texts(r@) == texts(list@) + texts(more@),
{
    let ghost before = texts(list@);
    let mut r = list;
    let mut tail = copied(more);
    let ghost kept = r@;
    r.append(&mut tail);
    proof {
        assert(r@ =~= kept + more@);
        assert(texts(r@) =~= before + texts(more@));
    }
    r
}

impl<'a> PayloadListing<'a> {
    /// The profile whose payload is listed.
    pub closed spec fn profile(&self) -> ProfileView {
        self.profile@
    }

    /// How far the listing has come.
    pub closed spec fn stage(&self) -> PayloadStageView {
        self.stage@
    }

    #[verifier::type_invariant]
    spec fn in_range(&self) -> bool {
        match self.stage {
            PayloadStage::Items { items, next, .. } => next < items.len(),
            _ => true,
        }
    }

    /// What the listing asks next, if it goes on.
    pub fn request(&self) -> (r: Option<PayloadRequest>)
        ensures
            (match r {
                Some(request) => Some(request@),
                None => None,
            }) == payload_request(self.stage()),
    {
        proof {
            use_type_invariant(self);
        }
        match &self.stage {
            PayloadStage::Manifest(path) => Some(PayloadRequest::ReadManifest(path.clone())),
            PayloadStage::Items { items, next, .. } => Some(
                PayloadRequest::ListTracked(items[*next].clone()),
            ),
            PayloadStage::Finished(_) => None,
        }
    }

    /// The listing after an answer to its question.
    pub fn answer(self, answer: PayloadAnswer) -> (r: PayloadListing<'a>)
        ensures
            r.profile() == self.profile(),
            r.stage() == next_payload_stage(self.profile(), self.stage(), answer@),
    {
        proof {
            use_type_invariant(&self);
        }
        let profile = self.profile;
        let stage = match (self.stage, answer) {
            (PayloadStage::Manifest(path), PayloadAnswer::Manifest(text)) => match text {
                None => PayloadStage::Finished(Err(ProfileError::ManifestUnreadable(path))),
                Some(text) => {
                    let items = manifest_items(text.as_str());
                    if profile.validate.git {
                        let none: Vec<String> = Vec::new();
                        proof {
                            assert(texts(none@) =~= seq![]);
                        }
                        items_from(profile, items, 0, none)
                    } else {
                        PayloadStage::Finished(Ok(extended(items, &profile.payload.extra)))
                    }
                },
            },
            (PayloadStage::Items { items, next, paths }, PayloadAnswer::Listing(bytes)) => match bytes {
                None => PayloadStage::Finished(Err(ProfileError::GitUnavailable)),
                Some(bytes) => {
                    let written = decode_lossy(bytes.as_slice());
                    match tracked_under(items[next].as_str(), written.as_str()) {
                        Err(err) => PayloadStage::Finished(Err(err)),
                        Ok(found) => {
                            let all = extended(paths, &found);
                            items_from(profile, items, next + 1, all)
                        },
                    }
                },
            },
            (stage, _) => stage,
        };
        PayloadListing { profile, stage }
    }

    /// The paths or the reason why there are none, or the listing itself where it
    /// goes on.
    pub fn finish(self) -> (r: Result<Result<Vec<String>, ProfileError>, PayloadListing<'a>>)
        ensures
            match r {
                Ok(outcome) => self.stage() == PayloadStageView::Finished(paths_outcome(outcome)),
                Err(listing) => listing == self && !(self.stage() is Finished),
            },
    {
        proof {
            use_type_invariant(&self);
        }
        match self.stage {
            PayloadStage::Finished(outcome) => Ok(outcome),
            stage => Err(PayloadListing { profile: self.profile, stage }),
        }
    }
}

/// The stage that has the entries from position `next` on to ask about.
fn items_from(profile: &Profile, items: Vec<String>, next: usize, paths: Vec<String>) -> (r:
    PayloadStage)
    ensures
        r@ == items_stage(profile@, texts(items@), next as int, texts(paths@)),
        r matches PayloadStage::Items { items: i, next: n, .. } ==> n < i.len(),
{
    if next < items.len() {
        PayloadStage::Items { items, next, paths }
    } else {
        PayloadStage::Finished(Ok(extended(paths, &profile.payload.extra)))
    }
}

impl Profile {
    /// Begins to list the paths of the payload below `root`: the entries of the
    /// manifest, each as Git tracks it where the profile asks for that, and
    /// then the paths that are always shipped.
    pub fn payload_paths(&self, root: &str) -> (r: PayloadListing<'_>)
        ensures
            r.profile() == self@,
            r.stage() == first_payload_stage(self@, root@),
    {
        let stage = match &self.payload.manifest {
            Some(manifest) => PayloadStage::Manifest(join_path(root, manifest.as_str())),
            None => PayloadStage::Finished(Ok(copied(&self.payload.extra))),
        };
        PayloadListing { profile: self, stage }
    }
}

/// What is tracked under the entries from position `i` on, by what Git writes
/// of each.
pub open spec fn tracked_from(
    items: Seq<Seq<char>>,
    listing: spec_fn(Seq<char>) -> Option<Seq<u8>>,
    i: int,
) -> Result<Seq<Seq<char>>, ProfileErrorView>
    decreases items.len() - i,
{
    if i < 0 || i >= items.len() {
        Ok(seq![])
    } else {
        match listing(items[i]) {
            None => Err(ProfileErrorView::GitUnavailable),
            Some(bytes) => match tracked_paths(items[i], lossy_text(bytes)) {
                Err(err) => Err(err),
                Ok(found) => match tracked_from(items, listing, i + 1) {
                    Err(err) => Err(err),
                    Ok(rest) => Ok(found + rest),
                },
            },
        }
    }
}

/// The payload of a profile, where `manifest` is the text of its manifest, if it
/// can be read, and `listing` what Git writes of an entry.
pub open spec fn payload_of(
    profile: ProfileView,
    root: Seq<char>,
    manifest: Option<Seq<char>>,
    listing: spec_fn(Seq<char>) -> Option<Seq<u8>>,
) -> Result<Seq<Seq<char>>, ProfileErrorView> {
    match profile.payload.manifest {
        None => Ok(profile.payload.extra),
        Some(path) => match manifest {
            None => Err(ProfileErrorView::ManifestUnreadable(path_under(root, path))),
            Some(text) => if profile.validate.git {
                match tracked_from(items_of(text), listing, 0) {
                    Err(err) => Err(err),
                    Ok(paths) => Ok(paths + profile.payload.extra),
                }
            } else {
                Ok(items_of(text) + profile.payload.extra)
            },
        },
    }
}

/// How a question is answered, where `manifest` is the text of the manifest and
/// `listing` what Git writes.
pub open spec fn payload_reply(
    manifest: Option<Seq<char>>,
    listing: spec_fn(Seq<char>) -> Option<Seq<u8>>,
    request: PayloadRequestView,
) -> PayloadAnswerView {
    match request {
        PayloadRequestView::ReadManifest(_) => PayloadAnswerView::Manifest(manifest),
        PayloadRequestView::ListTracked(item) => PayloadAnswerView::Listing(listing(item)),
    }
}

/// The stage after `n` questions, each answered by [`payload_reply`].
pub open spec fn payload_stage_after(
    profile: ProfileView,
    stage: PayloadStageView,
    manifest: Option<Seq<char>>,
    listing: spec_fn(Seq<char>) -> Option<Seq<u8>>,
    n: nat,
) -> PayloadStageView
    decreases n,
{
    if n == 0 {
        stage
    } else {
        match payload_request(stage) {
            None => stage,
            Some(request) => payload_stage_after(
                profile,
                next_payload_stage(profile, stage, payload_reply(manifest, listing, request)),
                manifest,
                listing,
                (n - 1) as nat,
            ),
        }
    }
}

/// The listing comes to an end: after at most one question for each entry of the
/// manifest and one more, it has the payload of the profile, or the reason why
/// there is none.
pub proof fn law_listing_finds_the_payload(
    profile: ProfileView,
    root: Seq<char>,
    manifest: Option<Seq<char>>,
    listing: spec_fn(Seq<char>) -> Option<Seq<u8>>,
    n: nat,
)
    requires
        n >= 1,
        manifest matches Some(text) ==> n >= items_of(text).len() + 1,
    ensures
        payload_stage_after(
            profile,
            first_payload_stage(profile, root),
            manifest,
            listing,
            n,
        ) == PayloadStageView::Finished(payload_of(profile, root, manifest, listing)),
{
    let outcome = payload_of(profile, root, manifest, listing);
    lemma_listed(profile, outcome, manifest, listing, n);
    lemma_listed(profile, outcome, manifest, listing, (n - 1) as nat);
    if let Some(path) = profile.payload.manifest {
        if let Some(text) = manifest {
            if profile.validate.git {
                lemma_from_item(
                    profile,
                    items_of(text),
                    0,
                    seq![],
                    manifest,
                    listing,
                    (n - 1) as nat,
                );
                if let Ok(paths) = tracked_from(items_of(text), listing, 0) {
                    assert(Seq::<Seq<char>>::empty() + paths =~= paths);
                }
            }
        }
    }
}

/// A payload always ends in the paths that are always shipped.
pub proof fn law_extra_paths_are_shipped(
    profile: ProfileView,
    root: Seq<char>,
    manifest: Option<Seq<char>>,
    listing: spec_fn(Seq<char>) -> Option<Seq<u8>>,
)
    ensures
        payload_of(profile, root, manifest, listing) matches Ok(paths) ==> {
            &&& paths.len() >= profile.payload.extra.len()
            &&& paths.skip(paths.len() - profile.payload.extra.len()) == profile.payload.extra
        },
{
    if let Ok(paths) = payload_of(profile, root, manifest, listing) {
        assert(paths.skip(paths.len() - profile.payload.extra.len()) =~= profile.payload.extra);
    }
}

proof fn lemma_from_item(
    profile: ProfileView,
    items: Seq<Seq<char>>,
    i: int,
    paths: Seq<Seq<char>>,
    manifest: Option<Seq<char>>,
    listing: spec_fn(Seq<char>) -> Option<Seq<u8>>,
    n: nat,
)
    requires
        0 <= i <= items.len(),
        n >= items.len() - i,
    ensures
        payload_stage_after(profile, items_stage(profile, items, i, paths), manifest, listing, n)
            == PayloadStageView::Finished(
            match tracked_from(items, listing, i) {
                Err(err) => Err(err),
                Ok(rest) => Ok(paths + rest + profile.payload.extra),
            },
        ),
    decreases items.len() - i,
{
    if i < items.len() {
        match listing(items[i]) {
            None => {},
            Some(bytes) => match tracked_paths(items[i], lossy_text(bytes)) {
                Err(_) => {},
                Ok(found) => {
                    lemma_from_item(
                        profile,
                        items,
                        i + 1,
                        paths + found,
                        manifest,
                        listing,
                        (n - 1) as nat,
                    );
                    if let Ok(rest) = tracked_from(items, listing, i + 1) {
                        assert(paths + found + rest =~= paths + (found + rest));
                    }
                },
            },
        }
        lemma_listed(profile, Err(ProfileErrorView::GitUnavailable), manifest, listing, (n - 1) as nat);
        lemma_listed(
            profile,
            Err(ProfileErrorView::NotTracked(items[i])),
            manifest,
            listing,
            (n - 1) as nat,
        );
    } else {
        assert(paths + Seq::<Seq<char>>::empty() =~= paths);
        lemma_listed(profile, Ok(paths + profile.payload.extra), manifest, listing, n);
    }
}

proof fn lemma_listed(
    profile: ProfileView,
    outcome: Result<Seq<Seq<char>>, ProfileErrorView>,
    manifest: Option<Seq<char>>,
    listing: spec_fn(Seq<char>) -> Option<Seq<u8>>,
    n: nat,
)
    ensures
        payload_stage_after(profile, PayloadStageView::Finished(outcome), manifest, listing, n)
            == PayloadStageView::Finished(outcome),
{
}

} // verus!
