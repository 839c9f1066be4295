//! Paths as text: joining them, and the order in which a payload is walked.

use vstd::prelude::*;

use crate::text::{chars_of, split};
use crate::text::{pieces_of, texts};
use crate::text_map::is_before;
use crate::text_map::{law_order_is_strict, law_order_is_total, law_order_is_transitive, precedes};

verus! {

/// Whether a path begins at the root.
pub open spec fn rooted(path: Seq<char>) -> bool {
    path.len() > 0 && path[0] == '/'
}

/// `rel` taken from `base`: a path that begins at the root stands for itself,
/// any other follows `base` after a slash.
pub open spec fn path_under(base: Seq<char>, rel: Seq<char>) -> Seq<char> {
    if rooted(rel) {
        rel
    } else if base.len() == 0 || base.last() == '/' {
        base + rel
    } else {
        base.push('/') + rel
    }
}

/// `rel` taken from `base`.
pub fn join_path(base: &str, rel: &str) -> (r: String)
    ensures
        r@ == path_under(base@, rel@),
{
    let head = chars_of(base);
    let tail = chars_of(rel);
    if tail.len() > 0 && tail[0] == '/' {
        return rel.to_owned();
    }
    let mut r = base.to_owned();
    if head.len() > 0 && head[head.len() - 1] != '/' {
        r.push('/');
    }
    r.append(rel);
    r
}

/// A component of a path.
pub enum Component {
    Root,
    Current,
    Parent,
    Name(String),
}

/// What a [`Component`] holds.
pub enum ComponentView {
    Root,
    Current,
    Parent,
    Name(Seq<char>),
}

impl View for Component {
    type V = ComponentView;

    open spec fn view(&self) -> ComponentView {
        match self {
            Component::Root => ComponentView::Root,
            Component::Current => ComponentView::Current,
            Component::Parent => ComponentView::Parent,
            Component::Name(name) => ComponentView::Name(name@),
        }
    }
}

impl ComponentView {
    /// The place of this kind of component in the order.
    pub open spec fn rank(self) -> int {
        match self {
            ComponentView::Root => 0,
            ComponentView::Current => 1,
            ComponentView::Parent => 2,
            ComponentView::Name(_) => 3,
        }
    }

    /// Whether `self` stands before `other`: first by kind, then by name.
    pub open spec fn before(self, other: ComponentView) -> bool {
        if self.rank() != other.rank() {
            self.rank() < other.rank()
        } else {
            match (self, other) {
                (ComponentView::Name(a), ComponentView::Name(b)) => precedes(a, b),
                _ => false,
            }
        }
    }
}

/// The component that a piece between slashes stands for. An empty piece and a
/// single dot stand for none; a dot that opens a path is kept.
pub open spec fn component(piece: Seq<char>, opens: bool) -> Option<ComponentView> {
    if piece.len() == 0 {
        None
    } else if piece == seq!['.'] {
        if opens {
            Some(ComponentView::Current)
        } else {
            None
        }
    } else if piece == seq!['.', '.'] {
        Some(ComponentView::Parent)
    } else {
        Some(ComponentView::Name(piece))
    }
}

/// The components that pieces between slashes stand for, of which the first
/// may open the path.
pub open spec fn components_among(pieces: Seq<Seq<char>>, opens: bool) -> Seq<ComponentView>
    decreases pieces.len(),
{
    if pieces.len() == 0 {
        seq![]
    } else {
        let rest = components_among(pieces.skip(1), false);
        match component(pieces[0], opens) {
            Some(c) => seq![c] + rest,
            None => rest,
        }
    }
}

/// The components of a path.
pub open spec fn components(path: Seq<char>) -> Seq<ComponentView> {
    let named = components_among(pieces_of(path, '/'), true);
    if rooted(path) {
        seq![ComponentView::Root] + named
    } else {
        named
    }
}

/// Whether one list of components stands before another: component by
/// component, a path before those that lie below it.
pub open spec fn components_precede(a: Seq<ComponentView>, b: Seq<ComponentView>) -> bool
    decreases b.len(),
{
    if b.len() == 0 {
        false
    } else if a.len() == 0 {
        true
    } else if a[0] != b[0] {
        a[0].before(b[0])
    } else {
        components_precede(a.skip(1), b.skip(1))
    }
}

/// Whether path `a` stands before path `b`.
pub open spec fn path_precedes(a: Seq<char>, b: Seq<char>) -> bool {
    components_precede(components(a), components(b))
}

/// The views of a list of components.
pub open spec fn component_views(list: Seq<Component>) -> Seq<ComponentView> {
    Seq::new(list.len(), |i: int| list[i]@)
}

/// The component that a piece between slashes stands for.
fn component_of(piece: &String, opens: bool) -> (r: Option<Component>)
    ensures
        (match r {
            Some(c) => Some(c@),
            None => None,
        }) == component(piece@, opens),
{
    let chars = chars_of(piece.as_str());
    if chars.len() == 0 {
        None
    } else if chars.len() == 1 && chars[0] == '.' {
        proof {
            assert(piece@ =~= seq!['.']);
        }
        if opens {
            Some(Component::Current)
        } else {
            None
        }
    } else if chars.len() == 2 && chars[0] == '.' && chars[1] == '.' {
        proof {
            assert(piece@ =~= seq!['.', '.']);
            assert(piece@.len() != seq!['.'].len());
        }
        Some(Component::Parent)
    } else {
        Some(Component::Name(piece.clone()))
    }
}

/// The components of a path.
pub fn components_of(path: &str) -> (r: Vec<Component>)
    ensures
        component_views(r@) == components(path@),
{
    let pieces = split(path, '/');
    let chars = chars_of(path);
    let mut r: Vec<Component> = Vec::new();
    if chars.len() > 0 && chars[0] == '/' {
        r.push(Component::Root);
    }
    let ghost all = texts(pieces@);
    let mut i: usize = 0;
    proof {
        assert(all.skip(0) =~= all);
        if rooted(path@) {
            assert(component_views(r@) =~= seq![ComponentView::Root]);
        } else {
            assert(component_views(r@) + components_among(all, true) =~= components_among(all, true));
        }
    }
    while i < pieces.len()
        invariant
            i <= pieces@.len(),
            all == texts(pieces@),
            components(path@) == component_views(r@) + components_among(
                all.skip(i as int),
                i == 0,
            ),
        decreases pieces@.len() - i,
    {
        let ghost before = component_views(r@);
        let ghost rest = all.skip(i as int);
        proof {
            assert(rest[0] == pieces@[i as int]@);
            assert(rest.skip(1) =~= all.skip(i + 1));
        }
        match component_of(&pieces[i], i == 0) {
            Some(c) => {
                let ghost view = c@;
                r.push(c);
                proof {
                    assert(component_views(r@) =~= before.push(view));
                    assert(before.push(view) + components_among(all.skip(i + 1), false) =~= before
                        + (seq![view] + components_among(all.skip(i + 1), false)));
                }
            },
            None => {},
        }
        i = i + 1;
    }
    proof {
        assert(component_views(r@) + components_among(all.skip(i as int), false)
            =~= component_views(r@));
        assert(component_views(r@) + components_among(all.skip(i as int), true)
            =~= component_views(r@));
    }
    r
}

/// The place of this kind of component in the order.
fn rank_of(c: &Component) -> (r: u8)
    ensures
        r == c@.rank(),
{
    match c {
        Component::Root => 0,
        Component::Current => 1,
        Component::Parent => 2,
        Component::Name(_) => 3,
    }
}

/// Whether `a` and `b` are the same component, and if not whether `a` stands
/// before `b`.
fn compare(a: &Component, b: &Component) -> (r: (bool, bool))
    ensures
        r.0 == (a@ == b@),
        r.1 == a@.before(b@),
{
    let x: u8 = rank_of(a);
    let y: u8 = rank_of(b);
    if x != y {
        return (false, x < y);
    }
    match (a, b) {
        (Component::Name(m), Component::Name(n)) => {
            (*m == *n, is_before(m.as_str(), n.as_str()))
        },
        _ => (true, false),
    }
}

/// Whether path `a` stands before path `b`.
pub fn is_path_before(a: &str, b: &str) -> (r: bool)
    ensures
        r == path_precedes(a@, b@),
{
    let x = components_of(a);
    let y = components_of(b);
    let ghost s = component_views(x@);
    let ghost t = component_views(y@);
    let mut i: usize = 0;
    proof {
        assert(s.skip(0) =~= s);
        assert(t.skip(0) =~= t);
    }
    while i < x.len() && i < y.len()
        invariant
            i <= x@.len(),
            i <= y@.len(),
            s == component_views(x@),
            t == component_views(y@),
            s == components(a@),
            t == components(b@),
            path_precedes(a@, b@) == components_precede(s.skip(i as int), t.skip(i as int)),
        decreases x@.len() - i,
    {
        let (equal, before) = compare(&x[i], &y[i]);
        proof {
            assert(s.skip(i as int)[0] == x@[i as int]@);
            assert(t.skip(i as int)[0] == y@[i as int]@);
            assert(s.skip(i as int).skip(1) =~= s.skip(i + 1));
            assert(t.skip(i as int).skip(1) =~= t.skip(i + 1));
        }
        if !equal {
            return before;
        }
        i = i + 1;
    }
    i < y.len()
}

/// Of two lists of components at most one stands before the other, and none
/// before itself.
proof fn lemma_components_strict(a: Seq<ComponentView>, b: Seq<ComponentView>)
    ensures
        !(components_precede(a, b) && components_precede(b, a)),
        !components_precede(a, a),
    decreases a.len(),
{
    if a.len() > 0 {
        lemma_components_strict(a.skip(1), a.skip(1));
        if b.len() > 0 {
            lemma_components_strict(a.skip(1), b.skip(1));
            if let (ComponentView::Name(m), ComponentView::Name(n)) = (a[0], b[0]) {
                law_order_is_strict(m, n);
            }
        }
    }
}

/// Of two different lists of components one stands before the other.
proof fn lemma_components_total(a: Seq<ComponentView>, b: Seq<ComponentView>)
    ensures
        components_precede(a, b) || components_precede(b, a) || a == b,
    decreases a.len(),
{
    if a.len() > 0 && b.len() > 0 {
        if a[0] == b[0] {
            lemma_components_total(a.skip(1), b.skip(1));
            assert(a =~= seq![a[0]] + a.skip(1));
            assert(b =~= seq![b[0]] + b.skip(1));
        } else if let (ComponentView::Name(m), ComponentView::Name(n)) = (a[0], b[0]) {
            law_order_is_total(m, n);
        }
    } else if a.len() == 0 && b.len() == 0 {
        assert(a =~= b);
    }
}

/// What stands before a list of components stands before all that follows it.
proof fn lemma_components_transitive(
    a: Seq<ComponentView>,
    b: Seq<ComponentView>,
    c: Seq<ComponentView>,
)
    requires
        components_precede(a, b),
        components_precede(b, c),
    ensures
        components_precede(a, c),
    decreases a.len(),
{
    if a.len() > 0 {
        if a[0] == b[0] && b[0] == c[0] {
            lemma_components_transitive(a.skip(1), b.skip(1), c.skip(1));
        } else if let (ComponentView::Name(l), ComponentView::Name(m)) = (a[0], b[0]) {
            if let ComponentView::Name(n) = c[0] {
                if l != m && m != n {
                    law_order_is_transitive(l, m, n);
                }
                law_order_is_strict(l, m);
            }
        }
    }
}

/// The order of paths is a strict order: no path stands before itself, of two
/// paths at most one stands before the other, and two that are neither have
/// the same components.
pub proof fn law_path_order(a: Seq<char>, b: Seq<char>, c: Seq<char>)
    ensures
        !path_precedes(a, a),
        !(path_precedes(a, b) && path_precedes(b, a)),
        path_precedes(a, b) || path_precedes(b, a) || components(a) == components(b),
        path_precedes(a, b) && path_precedes(b, c) ==> path_precedes(a, c),
{
    lemma_components_strict(components(a), components(b));
    lemma_components_total(components(a), components(b));
    if path_precedes(a, b) && path_precedes(b, c) {
        lemma_components_transitive(components(a), components(b), components(c));
    }
}

/// Where an item belongs in a list in path order: after all that do not stand
/// after it.
pub open spec fn slot<A>(list: Seq<A>, path_of: spec_fn(A) -> Seq<char>, item: A) -> int
    decreases list.len(),
{
    if list.len() == 0 || !path_precedes(path_of(item), path_of(list.last())) {
        list.len() as int
    } else {
        slot(list.drop_last(), path_of, item)
    }
}

/// `list` in path order. Items whose paths have the same components keep the
/// order that they have in `list`.
pub open spec fn in_path_order<A>(list: Seq<A>, path_of: spec_fn(A) -> Seq<char>) -> Seq<A>
    decreases list.len(),
{
    if list.len() == 0 {
        seq![]
    } else {
        let earlier = in_path_order(list.drop_last(), path_of);
        earlier.insert(slot(earlier, path_of, list.last()), list.last())
    }
}

/// No item stands before one that it follows.
pub open spec fn path_ordered<A>(list: Seq<A>, path_of: spec_fn(A) -> Seq<char>) -> bool {
    forall|i: int, j: int|
        #![trigger list[i], list[j]]
        0 <= i < j < list.len() ==> !path_precedes(path_of(list[j]), path_of(list[i]))
}

/// A path as its own path.
pub open spec fn own_path() -> spec_fn(Seq<char>) -> Seq<char> {
    |path: Seq<char>| path
}

/// The slot of an item in an ordered list parts what does not stand after the
/// item from what does.
proof fn lemma_slot<A>(list: Seq<A>, path_of: spec_fn(A) -> Seq<char>, item: A)
    requires
        path_ordered(list, path_of),
    ensures
        0 <= slot(list, path_of, item) <= list.len(),
        forall|i: int|
            0 <= i < slot(list, path_of, item) ==> !path_precedes(
                path_of(item),
                path_of(#[trigger] list[i]),
            ),
        forall|i: int|
            slot(list, path_of, item) <= i < list.len() ==> path_precedes(
                path_of(item),
                path_of(#[trigger] list[i]),
            ),
    decreases list.len(),
{
    if list.len() > 0 {
        let last = list.last();
        if path_precedes(path_of(item), path_of(last)) {
            let earlier = list.drop_last();
            assert(path_ordered(earlier, path_of)) by {
                assert forall|i: int, j: int|
                    #![trigger earlier[i], earlier[j]]
                    0 <= i < j < earlier.len() implies !path_precedes(
                    path_of(earlier[j]),
                    path_of(earlier[i]),
                ) by {
                    assert(earlier[i] == list[i] && earlier[j] == list[j]);
                }
            }
            lemma_slot(earlier, path_of, item);
            assert forall|i: int|
                0 <= i < slot(list, path_of, item) implies !path_precedes(
                path_of(item),
                path_of(#[trigger] list[i]),
            ) by {
                assert(earlier[i] == list[i]);
            }
            assert forall|i: int|
                slot(list, path_of, item) <= i < list.len() implies path_precedes(
                path_of(item),
                path_of(#[trigger] list[i]),
            ) by {
                if i < earlier.len() {
                    assert(earlier[i] == list[i]);
                }
            }
        } else {
            assert forall|i: int| 0 <= i < list.len() implies !path_precedes(
                path_of(item),
                path_of(#[trigger] list[i]),
            ) by {
                if i < list.len() - 1 {
                    assert(list[list.len() - 1] == last);
                    assert(!path_precedes(path_of(last), path_of(list[i])));
                    let (p, q, r) = (path_of(item), path_of(list[i]), path_of(last));
                    law_path_order(p, q, r);
                    law_path_order(q, r, p);
                    if path_precedes(p, q) && !path_precedes(q, r) {
                        assert(components(q) == components(r));
                    }
                }
            }
        }
    }
}

/// A list in path order is ordered, and holds what the list holds.
pub proof fn law_sorting<A>(list: Seq<A>, path_of: spec_fn(A) -> Seq<char>)
    ensures
        path_ordered(in_path_order(list, path_of), path_of),
        in_path_order(list, path_of).to_multiset() == list.to_multiset(),
        in_path_order(list, path_of).len() == list.len(),
    decreases list.len(),
{
    broadcast use vstd::seq_lib::group_to_multiset_ensures;

    if list.len() == 0 {
        assert(in_path_order(list, path_of) =~= list);
    } else {
        let item = list.last();
        let earlier = in_path_order(list.drop_last(), path_of);
        law_sorting(list.drop_last(), path_of);
        lemma_slot(earlier, path_of, item);
        let at = slot(earlier, path_of, item);
        let all = earlier.insert(at, item);
        assert forall|i: int, j: int|
            #![trigger all[i], all[j]]
            0 <= i < j < all.len() implies !path_precedes(path_of(all[j]), path_of(all[i])) by {
            let x = if i < at {
                i
            } else {
                i - 1
            };
            let y = if j < at {
                j
            } else {
                j - 1
            };
            law_path_order(path_of(all[i]), path_of(all[j]), path_of(all[i]));
            if i == at {
                assert(all[j] == earlier[y]);
            } else if j == at {
                assert(all[i] == earlier[x]);
            } else {
                assert(all[i] == earlier[x] && all[j] == earlier[y]);
            }
        }
        earlier.insert_ensures(at, item);
        assert(list =~= list.drop_last().push(item));
        assert(all.to_multiset() =~= list.to_multiset());
    }
}

/// Whether the path of an item has the components of `path`.
pub open spec fn at_path<A>(path_of: spec_fn(A) -> Seq<char>, path: Seq<char>) -> spec_fn(A) -> bool {
    |item: A| components(path_of(item)) == components(path)
}

/// Sorting is stable: items whose paths have the same components keep their
/// order.
pub proof fn law_sorting_is_stable<A>(
    list: Seq<A>,
    path_of: spec_fn(A) -> Seq<char>,
    path: Seq<char>,
)
    ensures
        in_path_order(list, path_of).filter(at_path(path_of, path)) == list.filter(
            at_path(path_of, path),
        ),
    decreases list.len(),
{
    let pred = at_path(path_of, path);
    if list.len() == 0 {
        assert(in_path_order(list, path_of) =~= list);
    } else {
        let item = list.last();
        let earlier = in_path_order(list.drop_last(), path_of);
        law_sorting_is_stable(list.drop_last(), path_of, path);
        law_sorting(list.drop_last(), path_of);
        lemma_slot(earlier, path_of, item);
        let at = slot(earlier, path_of, item);
        let all = earlier.insert(at, item);
        let (head, tail) = (earlier.take(at), earlier.skip(at));
        assert(earlier =~= head + tail);
        assert(all =~= head.push(item) + tail);
        assert(list =~= list.drop_last().push(item));
        Seq::filter_distributes_over_add(head, tail, pred);
        Seq::filter_distributes_over_add(head.push(item), tail, pred);
        head.lemma_filter_push(item, pred);
        list.drop_last().lemma_filter_push(item, pred);
        if pred(item) {
            assert forall|i: int| 0 <= i < tail.len() implies !pred(#[trigger] tail[i]) by {
                assert(tail[i] == earlier[at + i]);
                lemma_components_strict(
                    components(path_of(item)),
                    components(path_of(tail[i])),
                );
            }
            lemma_filter_none(tail, pred);
            assert(head.filter(pred).push(item) + tail.filter(pred) =~= (head.filter(pred)
                + tail.filter(pred)).push(item));
        }
    }
}

/// Where nothing passes a filter, nothing is left.
proof fn lemma_filter_none<A>(list: Seq<A>, pred: spec_fn(A) -> bool)
    requires
        forall|i: int| 0 <= i < list.len() ==> !pred(#[trigger] list[i]),
    ensures
        list.filter(pred) == Seq::<A>::empty(),
    decreases list.len(),
{
    reveal(Seq::filter);
    if list.len() > 0 {
        assert forall|i: int| 0 <= i < list.drop_last().len() implies !pred(
            #[trigger] list.drop_last()[i],
        ) by {
            assert(list.drop_last()[i] == list[i]);
        }
        lemma_filter_none(list.drop_last(), pred);
        assert(!pred(list.last()));
    }
}

/// Two lists of the same items sort to the same list, where items whose paths
/// have the same components are the same item.
pub proof fn law_sorting_forgets_order<A>(
    a: Seq<A>,
    b: Seq<A>,
    path_of: spec_fn(A) -> Seq<char>,
)
    requires
        a.to_multiset() == b.to_multiset(),
        forall|x: A, y: A|
            a.contains(x) && a.contains(y) && #[trigger] components(path_of(x))
                == #[trigger] components(path_of(y)) ==> x == y,
    ensures
        in_path_order(a, path_of) == in_path_order(b, path_of),
{
    broadcast use vstd::seq_lib::group_to_multiset_ensures;

    law_sorting(a, path_of);
    law_sorting(b, path_of);
    let s = in_path_order(a, path_of);
    let t = in_path_order(b, path_of);
    assert forall|x: A, y: A|
        s.contains(x) && s.contains(y) && #[trigger] components(path_of(x))
            == #[trigger] components(path_of(y)) implies x == y by {
        assert(s.to_multiset().count(x) > 0);
        assert(s.to_multiset().count(y) > 0);
        assert(a.contains(x) && a.contains(y));
    }
    lemma_ordered_unique(s, t, path_of);
}

/// Two ordered lists of the same items are the same list.
proof fn lemma_ordered_unique<A>(s: Seq<A>, t: Seq<A>, path_of: spec_fn(A) -> Seq<char>)
    requires
        path_ordered(s, path_of),
        path_ordered(t, path_of),
        s.to_multiset() == t.to_multiset(),
        forall|x: A, y: A|
            s.contains(x) && s.contains(y) && #[trigger] components(path_of(x))
                == #[trigger] components(path_of(y)) ==> x == y,
    ensures
        s == t,
    decreases s.len(),
{
    broadcast use vstd::seq_lib::group_to_multiset_ensures;
    broadcast use vstd::multiset::group_multiset_axioms;

    assert(s.to_multiset().len() == s.len());
    assert(t.to_multiset().len() == t.len());
    if s.len() == 0 {
        assert(s =~= t);
    } else {
        let (x, y) = (s[0], t[0]);
        assert(s.contains(x));
        assert(t.to_multiset().count(x) > 0);
        assert(t.contains(x));
        assert(t.contains(y));
        assert(s.to_multiset().count(y) > 0);
        assert(s.contains(y));
        let i = choose|i: int| 0 <= i < t.len() && t[i] == x;
        let j = choose|j: int| 0 <= j < s.len() && s[j] == y;
        law_path_order(path_of(x), path_of(y), path_of(x));
        if i > 0 {
            assert(!path_precedes(path_of(t[i]), path_of(t[0])));
        }
        if j > 0 {
            assert(!path_precedes(path_of(s[j]), path_of(s[0])));
        }
        assert(components(path_of(x)) == components(path_of(y)));
        assert(x == y);
        let (rest, other) = (s.drop_first(), t.drop_first());
        assert(rest =~= s.remove(0));
        assert(other =~= t.remove(0));
        assert(rest.to_multiset() =~= s.to_multiset().remove(x));
        assert(other.to_multiset() =~= t.to_multiset().remove(x));
        assert(path_ordered(rest, path_of)) by {
            assert forall|i: int, j: int|
                #![trigger rest[i], rest[j]]
                0 <= i < j < rest.len() implies !path_precedes(
                path_of(rest[j]),
                path_of(rest[i]),
            ) by {
                assert(rest[i] == s[i + 1] && rest[j] == s[j + 1]);
            }
        }
        assert(path_ordered(other, path_of)) by {
            assert forall|i: int, j: int|
                #![trigger other[i], other[j]]
                0 <= i < j < other.len() implies !path_precedes(
                path_of(other[j]),
                path_of(other[i]),
            ) by {
                assert(other[i] == t[i + 1] && other[j] == t[j + 1]);
            }
        }
        assert forall|x: A, y: A|
            rest.contains(x) && rest.contains(y) && #[trigger] components(path_of(x))
                == #[trigger] components(path_of(y)) implies x == y by {
            assert(s.contains(x) && s.contains(y));
        }
        lemma_ordered_unique(rest, other, path_of);
        assert(s =~= seq![x] + rest);
        assert(t =~= seq![y] + other);
    }
}

/// Whether two paths have the same components.
pub fn same_path(a: &str, b: &str) -> (r: bool)
    ensures
        r == (components(a@) == components(b@)),
{
    proof {
        law_path_order(a@, b@, a@);
        law_path_order(b@, a@, b@);
    }
    !is_path_before(a, b) && !is_path_before(b, a)
}

/// The slot of `path` in a list of paths.
pub fn slot_for(list: &Vec<String>, path: &str) -> (r: usize)
    ensures
        r == slot(texts(list@), own_path(), path@),
        r <= list@.len(),
{
    let mut n: usize = list.len();
    let ghost all = texts(list@);
    proof {
        assert(all.take(n as int) =~= all);
    }
    while n > 0 && is_path_before(path, list[n - 1].as_str())
        invariant
            n <= list@.len(),
            all == texts(list@),
            slot(all, own_path(), path@) == slot(all.take(n as int), own_path(), path@),
        decreases n,
    {
        proof {
            assert(all.take(n as int).drop_last() =~= all.take(n - 1));
        }
        n = n - 1;
    }
    n
}

/// The paths in path order.
pub fn sort_paths(paths: &Vec<String>) -> (r: Vec<String>)
    ensures
        texts(r@) == in_path_order(texts(paths@), own_path()),
{
    let mut r: Vec<String> = Vec::new();
    let mut i: usize = 0;
    let ghost all = texts(paths@);
    proof {
        assert(texts(r@) =~= seq![]);
    }
    while i < paths.len()
        invariant
            i <= paths@.len(),
            all == texts(paths@),
            texts(r@) == in_path_order(all.take(i as int), own_path()),
        decreases paths@.len() - i,
    {
        let at: usize = slot_for(&r, paths[i].as_str());
        let ghost before = r@;
        r.insert(at, paths[i].clone());
        proof {
            assert(all.take(i + 1).drop_last() =~= all.take(i as int));
            assert(texts(r@) =~= texts(before).insert(at as int, all[i as int]));
        }
        i = i + 1;
    }
    proof {
        assert(all.take(i as int) =~= all);
    }
    r
}

} // verus!
