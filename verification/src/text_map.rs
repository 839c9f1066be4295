//! A map from text to text, walked in ascending order of its keys.

use vstd::prelude::*;

use crate::text::chars_of;

verus! {

/// Whether `a` stands before `b`: character by character in the order of the
/// code points, a text before the longer ones that it begins.
pub open spec fn precedes(a: Seq<char>, b: Seq<char>) -> bool
    decreases b.len(),
{
    if b.len() == 0 {
        false
    } else if a.len() == 0 {
        true
    } else if a[0] != b[0] {
        (a[0] as u32) < (b[0] as u32)
    } else {
        precedes(a.skip(1), b.skip(1))
    }
}

/// No text stands before itself, and of two texts at most one before the other.
pub proof fn law_order_is_strict(a: Seq<char>, b: Seq<char>)
    ensures
        !(precedes(a, b) && precedes(b, a)),
        !precedes(a, a),
    decreases a.len(),
{
    if a.len() > 0 {
        law_order_is_strict(a.skip(1), a.skip(1));
        if b.len() > 0 {
            law_order_is_strict(a.skip(1), b.skip(1));
        }
    }
}

/// Of two different texts one stands before the other.
pub proof fn law_order_is_total(a: Seq<char>, b: Seq<char>)
    ensures
        precedes(a, b) || precedes(b, a) || a == b,
    decreases a.len(),
{
    if a.len() > 0 && b.len() > 0 && a[0] == b[0] {
        law_order_is_total(a.skip(1), b.skip(1));
        assert(a =~= seq![a[0]] + a.skip(1));
        assert(b =~= seq![b[0]] + b.skip(1));
    } else if a.len() == 0 && b.len() == 0 {
        assert(a =~= b);
    } else if a.len() > 0 && b.len() > 0 {
        lemma_code_points_differ(a[0], b[0]);
    }
}

/// Different characters have different code points.
proof fn lemma_code_points_differ(a: char, b: char)
    requires
        a != b,
    ensures
        a as u32 != b as u32,
{
    assert((a as u32) as char == a);
    assert((b as u32) as char == b);
}

/// What stands before a text stands before all that follows it.
pub proof fn law_order_is_transitive(a: Seq<char>, b: Seq<char>, c: Seq<char>)
    requires
        precedes(a, b),
        precedes(b, c),
    ensures
        precedes(a, c),
    decreases a.len(),
{
    if a.len() > 0 && a[0] == b[0] && b[0] == c[0] {
        law_order_is_transitive(a.skip(1), b.skip(1), c.skip(1));
    }
}

/// Whether `a` stands before `b`.
pub fn is_before(a: &str, b: &str) -> (r: bool)
    ensures
        r == precedes(a@, b@),
{
    let x = chars_of(a);
    let y = chars_of(b);
    let mut i: usize = 0;
    proof {
        assert(a@.skip(0) =~= a@);
        assert(b@.skip(0) =~= b@);
    }
    while i < x.len() && i < y.len() && x[i] == y[i]
        invariant
            i <= x@.len(),
            i <= y@.len(),
            x@ == a@,
            y@ == b@,
            precedes(a@, b@) == precedes(a@.skip(i as int), b@.skip(i as int)),
        decreases x@.len() - i,
    {
        proof {
            assert(a@.skip(i as int).skip(1) =~= a@.skip(i + 1));
            assert(b@.skip(i as int).skip(1) =~= b@.skip(i + 1));
        }
        i = i + 1;
    }
    if i >= y.len() {
        false
    } else if i >= x.len() {
        true
    } else {
        (x[i] as u32) < (y[i] as u32)
    }
}

/// A key with its value.
pub type Pair = (Seq<char>, Seq<char>);

/// The keys stand in ascending order, each once.
pub open spec fn ascending(pairs: Seq<Pair>) -> bool {
    forall|i: int, j: int|
        #![trigger pairs[i], pairs[j]]
        0 <= i < j < pairs.len() ==> precedes(pairs[i].0, pairs[j].0)
}

/// Whether `key` has a value.
pub open spec fn has_key(pairs: Seq<Pair>, key: Seq<char>) -> bool {
    exists|i: int| 0 <= i < pairs.len() && (#[trigger] pairs[i]).0 == key
}

/// The value of a key that has one.
pub open spec fn value_at(pairs: Seq<Pair>, key: Seq<char>) -> Seq<char> {
    pairs[choose|i: int| 0 <= i < pairs.len() && (#[trigger] pairs[i]).0 == key].1
}

/// The pairs as a map.
pub open spec fn as_map(pairs: Seq<Pair>) -> Map<Seq<char>, Seq<char>> {
    Map::new(|key: Seq<char>| has_key(pairs, key), |key: Seq<char>| value_at(pairs, key))
}

/// `pairs` with the value of `key` set, in the place where the key belongs.
pub open spec fn inserted(pairs: Seq<Pair>, key: Seq<char>, value: Seq<char>) -> Seq<Pair>
    decreases pairs.len(),
{
    if pairs.len() == 0 {
        seq![(key, value)]
    } else if precedes(pairs[0].0, key) {
        seq![pairs[0]] + inserted(pairs.skip(1), key, value)
    } else if pairs[0].0 == key {
        seq![(key, value)] + pairs.skip(1)
    } else {
        seq![(key, value)] + pairs
    }
}

/// The texts of a list of pairs.
pub open spec fn pair_texts(list: Seq<(String, String)>) -> Seq<Pair> {
    Seq::new(list.len(), |i: int| (list[i].0@, list[i].1@))
}

/// A map from text to text, walked in ascending order of its keys.
#[derive(Debug)]
pub struct TextMap {
    entries: Vec<(String, String)>,
}

impl View for TextMap {
    type V = Map<Seq<char>, Seq<char>>;

    open spec fn view(&self) -> Map<Seq<char>, Seq<char>> {
        as_map(self.pairs())
    }
}

impl Clone for TextMap {
    fn clone(&self) -> (r: Self)
        ensures
            r.pairs() == self.pairs(),
            ascending(r.pairs()),
    {
        proof {
            use_type_invariant(self);
        }
        let mut entries: Vec<(String, String)> = Vec::new();
        let mut i: usize = 0;
        while i < self.entries.len()
            invariant
                i <= self.entries@.len(),
                entries@ == self.entries@.take(i as int),
            decreases self.entries@.len() - i,
        {
            entries.push((self.entries[i].0.clone(), self.entries[i].1.clone()));
            i = i + 1;
        }
        proof {
            assert(entries@ =~= self.entries@);
        }
        TextMap { entries }
    }
}

impl TextMap {
    /// The keys with their values, in the order in which the map is walked.
    pub closed spec fn pairs(&self) -> Seq<Pair> {
        pair_texts(self.entries@)
    }

    #[verifier::type_invariant]
    spec fn well_formed(&self) -> bool {
        ascending(self.pairs())
    }

    /// An empty map.
    pub fn new() -> (r: TextMap)
        ensures
            r.pairs() == Seq::<Pair>::empty(),
            r@ == Map::<Seq<char>, Seq<char>>::empty(),
    {
        let r = TextMap { entries: Vec::new() };
        proof {
            assert(r.pairs() =~= Seq::<Pair>::empty());
            assert(r@ =~= Map::<Seq<char>, Seq<char>>::empty());
        }
        r
    }

    /// How many keys there are.
    pub fn len(&self) -> (r: usize)
        ensures
            r == self.pairs().len(),
            ascending(self.pairs()),
    {
        proof {
            use_type_invariant(self);
        }
        self.entries.len()
    }

    /// The key at position `i`.
    pub fn key(&self, i: usize) -> (r: &String)
        requires
            i < self.pairs().len(),
        ensures
            r@ == self.pairs()[i as int].0,
    {
        &self.entries[i].0
    }

    /// The value at position `i`.
    pub fn value(&self, i: usize) -> (r: &String)
        requires
            i < self.pairs().len(),
        ensures
            r@ == self.pairs()[i as int].1,
    {
        &self.entries[i].1
    }

    /// Gives `key` a value, in place of the one that it may have.
    pub fn insert(&mut self, key: String, value: String)
        ensures
            final(self).pairs() == inserted(old(self).pairs(), key@, value@),
            ascending(final(self).pairs()),
            final(self)@ == old(self)@.insert(key@, value@),
    {
        proof {
            use_type_invariant(&*self);
        }
        let ghost before = self.pairs();
        let mut list: Vec<(String, String)> = Vec::new();
        let mut i: usize = 0;
        while i < self.entries.len() && is_before(self.entries[i].0.as_str(), key.as_str())
            invariant
                before == self.pairs(),
                i <= self.entries@.len(),
                pair_texts(list@) == before.take(i as int),
                forall|j: int| 0 <= j < i ==> precedes((#[trigger] before[j]).0, key@),
            decreases self.entries@.len() - i,
        {
            let ghost done = list@;
            list.push((self.entries[i].0.clone(), self.entries[i].1.clone()));
            proof {
                assert(pair_texts(list@) =~= pair_texts(done).push(before[i as int]));
                assert(pair_texts(list@) =~= before.take(i + 1));
            }
            i = i + 1;
        }
        let ghost head = i as int;
        let replace = i < self.entries.len() && self.entries[i].0 == key;
        if replace {
            i = i + 1;
        }
        let ghost tail = i as int;
        let ghost pair = (key@, value@);
        list.push((key, value));
        proof {
            assert(pair_texts(list@) =~= before.take(head).push(pair));
            assert(before.skip(tail).take(0) =~= seq![]);
            assert(before.take(head).push(pair) + Seq::<Pair>::empty() =~= before.take(head).push(
                pair,
            ));
        }
        while i < self.entries.len()
            invariant
                before == self.pairs(),
                0 <= head <= tail <= i <= self.entries@.len(),
                pair_texts(list@) == before.take(head).push(pair) + before.subrange(tail, i as int),
            decreases self.entries@.len() - i,
        {
            let ghost done = list@;
            list.push((self.entries[i].0.clone(), self.entries[i].1.clone()));
            proof {
                assert(before.len() == self.entries@.len());
                assert(pair_texts(list@) =~= pair_texts(done).push(before[i as int]));
                assert(before.subrange(tail, i + 1) =~= before.subrange(tail, i as int).push(
                    before[i as int],
                ));
                assert(pair_texts(list@) =~= before.take(head).push(pair) + before.subrange(
                    tail,
                    i + 1,
                ));
            }
            i = i + 1;
        }
        proof {
            lemma_inserted(before, head, tail, pair);
            lemma_placed(before, head, tail, pair, pair_texts(list@));
        }
        self.entries = list;
    }
}

/// Where the place of a key is known, so is the list with that key set.
proof fn lemma_inserted(before: Seq<Pair>, head: int, tail: int, pair: Pair)
    requires
        0 <= head <= tail <= before.len(),
        tail <= head + 1,
        forall|j: int| 0 <= j < head ==> precedes((#[trigger] before[j]).0, pair.0),
        head < before.len() ==> !precedes(before[head].0, pair.0),
        (tail == head + 1) == (head < before.len() && before[head].0 == pair.0),
    ensures
        inserted(before, pair.0, pair.1) == before.take(head).push(pair) + before.subrange(
            tail,
            before.len() as int,
        ),
    decreases head,
{
    let whole = before.take(head).push(pair) + before.subrange(tail, before.len() as int);
    if head > 0 {
        let rest = before.skip(1);
        assert(precedes(before[0].0, pair.0));
        assert forall|j: int| 0 <= j < head - 1 implies precedes((#[trigger] rest[j]).0, pair.0) by {
            assert(rest[j] == before[j + 1]);
        }
        lemma_inserted(rest, head - 1, tail - 1, pair);
        assert(whole =~= seq![before[0]] + (rest.take(head - 1).push(pair) + rest.subrange(
            tail - 1,
            rest.len() as int,
        )));
    } else if before.len() == 0 {
        assert(whole =~= seq![pair]);
    } else if tail == 1 {
        assert(whole =~= seq![pair] + before.skip(1));
    } else {
        assert(whole =~= seq![pair] + before);
    }
}

/// A pair put where its key belongs keeps the order and sets that key alone.
proof fn lemma_placed(before: Seq<Pair>, head: int, tail: int, pair: Pair, after: Seq<Pair>)
    requires
        ascending(before),
        0 <= head <= tail <= before.len(),
        tail <= head + 1,
        forall|j: int| 0 <= j < head ==> precedes((#[trigger] before[j]).0, pair.0),
        head < before.len() ==> !precedes(before[head].0, pair.0),
        (tail == head + 1) == (head < before.len() && before[head].0 == pair.0),
        after == before.take(head).push(pair) + before.subrange(tail, before.len() as int),
    ensures
        ascending(after),
        as_map(after) == as_map(before).insert(pair.0, pair.1),
{
    let shift = tail - head - 1;
    assert forall|j: int| tail <= j < before.len() implies precedes(
        pair.0,
        (#[trigger] before[j]).0,
    ) by {
        law_order_is_total(before[head].0, pair.0);
        if j > head {
            assert(precedes(before[head].0, before[j].0));
            if before[head].0 != pair.0 {
                law_order_is_transitive(pair.0, before[head].0, before[j].0);
            }
        }
    }
    assert(forall|j: int| 0 <= j < head ==> after[j] == before[j]);
    assert(after[head] == pair);
    assert(forall|j: int| head < j < after.len() ==> after[j] == before[j + shift]);
    assert(ascending(after)) by {
        assert forall|i: int, j: int|
            #![trigger after[i], after[j]]
            0 <= i < j < after.len() implies precedes(after[i].0, after[j].0) by {
            if i < head && j > head {
                assert(after[i] == before[i]);
                assert(after[j] == before[j + shift]);
            }
        }
    }
    let map_before = as_map(before).insert(pair.0, pair.1);
    assert forall|key: Seq<char>| has_key(after, key) == map_before.dom().contains(key) by {
        if key == pair.0 {
            assert(after[head].0 == key);
        } else if has_key(before, key) {
            let i = choose|i: int| 0 <= i < before.len() && (#[trigger] before[i]).0 == key;
            if i < head {
                assert(after[i].0 == key);
            } else {
                assert(i >= tail);
                assert(after[i - shift].0 == key);
            }
        } else if has_key(after, key) {
            let i = choose|i: int| 0 <= i < after.len() && (#[trigger] after[i]).0 == key;
            assert(i != head);
            if i < head {
                assert(before[i].0 == key);
            } else {
                assert(before[i + shift].0 == key);
            }
        }
    }
    assert forall|key: Seq<char>| has_key(after, key) implies value_at(after, key)
        == #[trigger] map_before[key] by {
        let i = choose|i: int| 0 <= i < after.len() && (#[trigger] after[i]).0 == key;
        if key == pair.0 {
            assert(after[head].0 == key);
            lemma_key_once(after, i, head);
        } else {
            assert(i != head);
            let k = if i < head {
                i
            } else {
                i + shift
            };
            assert(before[k] == after[i]);
            assert(has_key(before, key));
            let w = choose|w: int| 0 <= w < before.len() && (#[trigger] before[w]).0 == key;
            lemma_key_once(before, w, k);
        }
    }
    assert(as_map(after) =~= map_before);
}

/// In an ascending list a key stands at one position.
proof fn lemma_key_once(pairs: Seq<Pair>, i: int, j: int)
    requires
        ascending(pairs),
        0 <= i < pairs.len(),
        0 <= j < pairs.len(),
        pairs[i].0 == pairs[j].0,
    ensures
        i == j,
{
    law_order_is_strict(pairs[i].0, pairs[j].0);
    if i < j {
        assert(precedes(pairs[i].0, pairs[j].0));
    } else if j < i {
        assert(precedes(pairs[j].0, pairs[i].0));
    }
}

} // verus!
