//! What the operations on paths come to, told by paths that are put together from
//! known parts.

use vstd::prelude::*;

use crate::paths::{
    components, components_among, components_precede, in_path_order, path_ordered,
    path_precedes, path_under, slot, ComponentView,
};
use crate::profile::free_of;
use crate::text_laws::{joined_by, law_pieces_are_read_back};
use crate::text_map::precedes;

verus! {

/// A path below a directory follows it after one slash, and a path that begins
/// at the root leaves the directory behind.
pub proof fn law_path_below_a_directory(base: Seq<char>, rel: Seq<char>)
    ensures
        path_under(base, "/"@ + rel) == "/"@ + rel,
        (rel.len() == 0 || rel[0] != '/') ==> path_under(base + "/"@, rel) == base + "/"@ + rel,
        (rel.len() == 0 || rel[0] != '/') && base.len() > 0 && base.last() != '/' ==> path_under(
            base,
            rel,
        ) == base + "/"@ + rel,
        (rel.len() == 0 || rel[0] != '/') ==> path_under(seq![], rel) == rel,
{
    reveal_strlit("/");
    assert("/"@ =~= seq!['/']);
    assert(("/"@ + rel)[0] == '/');
    assert((base + "/"@).last() == '/');
    assert(base.push('/') =~= base + "/"@);
    assert(Seq::<char>::empty() + rel =~= rel);
}

/// The components that the piece at a position of a path is told as.
pub open spec fn told_as(piece: Seq<char>, first: bool) -> Seq<ComponentView> {
    if piece == ""@ {
        seq![]
    } else if piece == "."@ {
        if first {
            seq![ComponentView::Current]
        } else {
            seq![]
        }
    } else if piece == ".."@ {
        seq![ComponentView::Parent]
    } else {
        seq![ComponentView::Name(piece)]
    }
}

/// The components that pieces are told as, one after the other, of which the
/// first stands at the start of a path where `first` says so.
pub open spec fn all_told(pieces: Seq<Seq<char>>, first: bool) -> Seq<ComponentView>
    decreases pieces.len(),
{
    if pieces.len() == 0 {
        seq![]
    } else {
        told_as(pieces[0], first) + all_told(pieces.skip(1), false)
    }
}

/// The components of a path are read back from the pieces that it was joined
/// from: the root where it begins with a slash, every name and every `..` in
/// their order, and a `.` only where it begins the path.
pub proof fn law_components_are_read_back(pieces: Seq<Seq<char>>)
    requires
        pieces.len() > 0,
        forall|i: int| 0 <= i < pieces.len() ==> free_of(#[trigger] pieces[i], '/'),
    ensures
        components(joined_by(pieces, "/"@)) == (if pieces.len() > 1 && pieces[0].len() == 0 {
            seq![ComponentView::Root]
        } else {
            seq![]
        }) + all_told(pieces, true),
{
    reveal_strlit("/");
    assert("/"@ =~= seq!['/']);
    let path = joined_by(pieces, "/"@);
    law_pieces_are_read_back(pieces, '/');
    lemma_told(pieces, true);
    assert(free_of(pieces[0], '/'));
    if pieces.len() > 1 {
        if pieces[0].len() == 0 {
            assert(path[0] == '/');
        } else {
            assert(path[0] == pieces[0][0]);
        }
    } else if pieces[0].len() > 0 {
        assert(path[0] == pieces[0][0]);
    }
    assert(Seq::<ComponentView>::empty() + all_told(pieces, true) =~= all_told(pieces, true));
}

proof fn lemma_told(pieces: Seq<Seq<char>>, first: bool)
    ensures
        components_among(pieces, first) == all_told(pieces, first),
    decreases pieces.len(),
{
    if pieces.len() > 0 {
        lemma_told(pieces.skip(1), false);
        reveal_strlit("");
        reveal_strlit(".");
        reveal_strlit("..");
        assert("."@ =~= seq!['.']);
        assert(".."@ =~= seq!['.', '.']);
        let piece = pieces[0];
        assert(piece.len() == 0 ==> piece =~= ""@);
        let rest = all_told(pieces.skip(1), false);
        assert(Seq::<ComponentView>::empty() + rest =~= rest);
    }
}

/// Paths are ordered by the first component in which they differ: the root
/// comes first, then `.`, then `..`, then names by their characters. A path comes
/// before those below it.
pub proof fn law_paths_are_ordered_by_the_first_difference(
    a: Seq<char>,
    b: Seq<char>,
    same: Seq<ComponentView>,
    x: Seq<ComponentView>,
    y: Seq<ComponentView>,
)
    requires
        components(a) == same + x,
        components(b) == same + y,
    ensures
        y.len() == 0 ==> !path_precedes(a, b),
        x.len() == 0 && y.len() > 0 ==> path_precedes(a, b),
        x.len() > 0 && y.len() > 0 && x[0] != y[0] ==> (path_precedes(a, b) <==> match (
            x[0],
            y[0],
        ) {
            (ComponentView::Root, _) => true,
            (_, ComponentView::Root) => false,
            (ComponentView::Current, _) => true,
            (_, ComponentView::Current) => false,
            (ComponentView::Parent, _) => true,
            (_, ComponentView::Parent) => false,
            (ComponentView::Name(p), ComponentView::Name(q)) => precedes(p, q),
        }),
{
    lemma_same_start(same, x, y);
}

proof fn lemma_same_start(
    same: Seq<ComponentView>,
    x: Seq<ComponentView>,
    y: Seq<ComponentView>,
)
    ensures
        components_precede(same + x, same + y) == components_precede(x, y),
    decreases same.len(),
{
    if same.len() == 0 {
        assert(same + x =~= x);
        assert(same + y =~= y);
    } else {
        lemma_same_start(same.skip(1), x, y);
        assert((same + x).skip(1) =~= same.skip(1) + x);
        assert((same + y).skip(1) =~= same.skip(1) + y);
        assert((same + x)[0] == (same + y)[0]);
    }
}

/// A list that is in path order stays as it is.
pub proof fn law_ordered_list_stays<A>(list: Seq<A>, path_of: spec_fn(A) -> Seq<char>)
    requires
        path_ordered(list, path_of),
    ensures
        in_path_order(list, path_of) == list,
    decreases list.len(),
{
    if list.len() > 0 {
        let less = list.drop_last();
        assert forall|i: int, j: int|
            #![trigger less[i], less[j]]
            0 <= i < j < less.len() implies !path_precedes(path_of(less[j]), path_of(less[i])) by {
            assert(less[i] == list[i] && less[j] == list[j]);
        }
        law_ordered_list_stays(less, path_of);
        if less.len() > 0 {
            let (i, j) = (less.len() - 1, list.len() - 1);
            assert(!path_precedes(path_of(list[j]), path_of(list[i])));
        }
        assert(slot(less, path_of, list.last()) == less.len());
        assert(less.insert(less.len() as int, list.last()) =~= list);
    }
}

} // verus!
