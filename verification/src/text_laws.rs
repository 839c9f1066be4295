//! What the operations on text come to, told by texts that are put together from
//! known parts.

use vstd::prelude::*;

use crate::profile::free_of;
use crate::text::{
    has_text, last_part, lines_of, occurs_at, pieces_of, replaced, span_until, trimmed,
    trimmed_end, trimmed_start, white, without_return,
};
use crate::text_map::precedes;

verus! {

/// The texts of a list, one after the other.
pub open spec fn concat(list: Seq<Seq<char>>) -> Seq<char>
    decreases list.len(),
{
    if list.len() == 0 {
        seq![]
    } else {
        list[0] + concat(list.skip(1))
    }
}

/// The texts of a list, with `sep` between them.
pub open spec fn joined_by(list: Seq<Seq<char>>, sep: Seq<char>) -> Seq<char>
    decreases list.len(),
{
    if list.len() == 0 {
        seq![]
    } else if list.len() == 1 {
        list[0]
    } else {
        list[0] + sep + joined_by(list.skip(1), sep)
    }
}

/// Each text of a list on a line of its own. Where `crlf` says so, a carriage
/// return stands before the line feed.
pub open spec fn written_lines(list: Seq<Seq<char>>, crlf: spec_fn(int) -> bool) -> Seq<char>
    decreases list.len(),
{
    if list.len() == 0 {
        seq![]
    } else {
        list[0] + (if crlf(0) {
            seq!['\r', '\n']
        } else {
            seq!['\n']
        }) + written_lines(list.skip(1), |i: int| crlf(i + 1))
    }
}

/// Each text of a list on a line of its own, ended by a line feed.
pub open spec fn on_own_lines(list: Seq<Seq<char>>) -> Seq<char> {
    written_lines(list, |i: int| false)
}

/// Concatenation goes piece by piece.
pub proof fn lemma_concat(a: Seq<Seq<char>>, b: Seq<Seq<char>>)
    ensures
        concat(a + b) == concat(a) + concat(b),
    decreases a.len(),
{
    if a.len() == 0 {
        assert(a + b =~= b);
        assert(concat(a) + concat(b) =~= concat(b));
    } else {
        lemma_concat(a.skip(1), b);
        assert((a + b).skip(1) =~= a.skip(1) + b);
        assert(a[0] + (concat(a.skip(1)) + concat(b)) =~= concat(a) + concat(b));
    }
}

/// A text is the one element of a concatenation.
pub proof fn lemma_concat_one(text: Seq<char>)
    ensures
        concat(seq![text]) == text,
{
    assert(seq![text].skip(1) =~= Seq::<Seq<char>>::empty());
    assert(concat(seq![text].skip(1)) =~= seq![]);
    assert(text + Seq::<char>::empty() =~= text);
}

/// A character that is missing before ends the span.
pub proof fn lemma_span_to(head: Seq<char>, c: char, rest: Seq<char>)
    requires
        free_of(head, c),
    ensures
        span_until(head + seq![c] + rest, c) == head.len(),
        span_until(head, c) == head.len(),
    decreases head.len(),
{
    let all = head + seq![c] + rest;
    if head.len() > 0 {
        let tail = head.skip(1);
        assert forall|i: int| 0 <= i < tail.len() implies #[trigger] tail[i] != c by {
            assert(tail[i] == head[i + 1]);
        }
        lemma_span_to(tail, c, rest);
        assert(all.skip(1) =~= tail + seq![c] + rest);
        assert(all[0] == head[0]);
    } else {
        assert(all[0] == c);
    }
}

/// Lines are read back as they were written, every one of them and in their
/// order, whether a line feed or a carriage return and a line feed ends them, and
/// with or without an end after the last.
pub proof fn law_lines_are_read_back(
    list: Seq<Seq<char>>,
    crlf: spec_fn(int) -> bool,
    last: Seq<char>,
)
    requires
        forall|i: int| 0 <= i < list.len() ==> free_of(#[trigger] list[i], '\n'),
        forall|i: int|
            0 <= i < list.len() && !crlf(i) ==> (#[trigger] list[i]).len() == 0
                || list[i].last() != '\r',
        free_of(last, '\n'),
    ensures
        lines_of(written_lines(list, crlf) + last) == (if last.len() == 0 {
            list
        } else {
            list.push(last)
        }),
    decreases list.len(),
{
    let all = written_lines(list, crlf) + last;
    if list.len() == 0 {
        assert(all =~= last);
        lemma_span_to(last, '\n', seq![]);
        if last.len() > 0 {
            assert(list.push(last) =~= seq![last]);
        }
    } else {
        let rest = list.skip(1);
        let later = |i: int| crlf(i + 1);
        assert forall|i: int| 0 <= i < rest.len() implies free_of(#[trigger] rest[i], '\n') by {
            assert(rest[i] == list[i + 1]);
        }
        assert forall|i: int| 0 <= i < rest.len() && !later(i) implies (#[trigger] rest[i]).len()
            == 0 || rest[i].last() != '\r' by {
            assert(rest[i] == list[i + 1]);
        }
        law_lines_are_read_back(rest, later, last);
        let tail = written_lines(rest, later) + last;
        let line = if crlf(0) {
            list[0].push('\r')
        } else {
            list[0]
        };
        assert(free_of(list[0], '\n'));
        assert(free_of(line, '\n'));
        assert(all =~= line + seq!['\n'] + tail);
        lemma_span_to(line, '\n', tail);
        assert(all.take(line.len() as int) =~= line);
        assert(all.skip(line.len() as int + 1) =~= tail);
        assert(without_return(line) =~= list[0]);
        if last.len() == 0 {
            assert(seq![list[0]] + rest =~= list);
        } else {
            assert(seq![list[0]] + rest.push(last) =~= list.push(last));
        }
    }
}

/// Lines that each end in a line feed are read back.
pub proof fn law_own_lines_are_read_back(list: Seq<Seq<char>>)
    requires
        forall|i: int| 0 <= i < list.len() ==> free_of(#[trigger] list[i], '\n'),
        forall|i: int|
            0 <= i < list.len() ==> (#[trigger] list[i]).len() == 0 || list[i].last() != '\r',
    ensures
        lines_of(on_own_lines(list)) == list,
{
    law_lines_are_read_back(list, |i: int| false, seq![]);
    assert(on_own_lines(list) + Seq::<char>::empty() =~= on_own_lines(list));
}

/// Pieces are read back as they were joined, every one of them and in their
/// order.
pub proof fn law_pieces_are_read_back(list: Seq<Seq<char>>, c: char)
    requires
        list.len() > 0,
        forall|i: int| 0 <= i < list.len() ==> free_of(#[trigger] list[i], c),
    ensures
        pieces_of(joined_by(list, seq![c]), c) == list,
    decreases list.len(),
{
    let all = joined_by(list, seq![c]);
    assert(free_of(list[0], c));
    if list.len() == 1 {
        lemma_span_to(list[0], c, seq![]);
        assert(list =~= seq![list[0]]);
    } else {
        let rest = list.skip(1);
        assert forall|i: int| 0 <= i < rest.len() implies free_of(#[trigger] rest[i], c) by {
            assert(rest[i] == list[i + 1]);
        }
        law_pieces_are_read_back(rest, c);
        let tail = joined_by(rest, seq![c]);
        lemma_span_to(list[0], c, tail);
        assert(all.take(list[0].len() as int) =~= list[0]);
        assert(all.skip(list[0].len() as int + 1) =~= tail);
        assert(seq![list[0]] + rest =~= list);
    }
}

/// What stands after the last occurrence of a character is read back.
pub proof fn law_last_part_is_read_back(head: Seq<char>, c: char, part: Seq<char>)
    requires
        free_of(part, c),
    ensures
        last_part(head + seq![c] + part, c) == part,
        last_part(part, c) == part,
    decreases part.len(),
{
    let all = head + seq![c] + part;
    if part.len() == 0 {
        assert(all.last() == c);
        assert(part =~= seq![]);
    } else {
        let less = part.drop_last();
        assert forall|i: int| 0 <= i < less.len() implies #[trigger] less[i] != c by {
            assert(less[i] == part[i]);
        }
        law_last_part_is_read_back(head, c, less);
        assert(all.drop_last() =~= head + seq![c] + less);
        assert(all.last() == part[part.len() - 1]);
        assert(less.push(part.last()) =~= part);
        assert(less + seq![part.last()] =~= part);
    }
}

/// The characters that count as white space are these and no others: tab, line
/// feed, vertical tab, form feed, carriage return, space, next line, no-break
/// space, and the wider Unicode spaces and separators.
pub proof fn law_white_space(c: char)
    ensures
        white(c) <==> seq![
            '\t',
            '\n',
            '\u{b}',
            '\u{c}',
            '\r',
            ' ',
            '\u{85}',
            '\u{a0}',
            '\u{1680}',
            '\u{2000}',
            '\u{2001}',
            '\u{2002}',
            '\u{2003}',
            '\u{2004}',
            '\u{2005}',
            '\u{2006}',
            '\u{2007}',
            '\u{2008}',
            '\u{2009}',
            '\u{200a}',
            '\u{2028}',
            '\u{2029}',
            '\u{202f}',
            '\u{205f}',
            '\u{3000}',
        ].contains(c),
{
    let table = seq![
        '\t',
        '\n',
        '\u{b}',
        '\u{c}',
        '\r',
        ' ',
        '\u{85}',
        '\u{a0}',
        '\u{1680}',
        '\u{2000}',
        '\u{2001}',
        '\u{2002}',
        '\u{2003}',
        '\u{2004}',
        '\u{2005}',
        '\u{2006}',
        '\u{2007}',
        '\u{2008}',
        '\u{2009}',
        '\u{200a}',
        '\u{2028}',
        '\u{2029}',
        '\u{202f}',
        '\u{205f}',
        '\u{3000}',
    ];
    if white(c) {
        let v = c as int;
        let i: int = if v <= 0xd {
            v - 0x9
        } else if v == 0x20 {
            5
        } else if v == 0x85 {
            6
        } else if v == 0xa0 {
            7
        } else if v == 0x1680 {
            8
        } else if v <= 0x200a {
            v - 0x2000 + 9
        } else if v == 0x2028 {
            20
        } else if v == 0x2029 {
            21
        } else if v == 0x202f {
            22
        } else if v == 0x205f {
            23
        } else {
            24
        };
        assert(table[i] == c);
    }
}

/// Whether nothing but white space stands in `s`.
pub open spec fn all_white(s: Seq<char>) -> bool {
    forall|i: int| 0 <= i < s.len() ==> white(#[trigger] s[i])
}

/// Trimming takes off the white space around a text, all of it and nothing else.
pub proof fn law_trimming(before: Seq<char>, s: Seq<char>, after: Seq<char>)
    requires
        all_white(before),
        all_white(after),
        s.len() > 0 ==> !white(s[0]) && !white(s.last()),
    ensures
        trimmed(before + s + after) == s,
        trimmed_end(s + after) == s,
{
    lemma_trimmed_end(s, after);
    if s.len() == 0 {
        lemma_trimmed_start(before + after, seq![]);
        assert(before + s + after =~= before + after + Seq::<char>::empty());
        assert(trimmed(before + s + after) =~= s);
    } else {
        lemma_trimmed_start(before, s + after);
        assert(before + s + after =~= before + (s + after));
    }
}

/// Trimming leaves nothing of a text of white space, and something of any other.
pub proof fn law_blank_text(s: Seq<char>)
    ensures
        trimmed(s).len() == 0 <==> all_white(s),
{
    if all_white(s) {
        law_trimming(s, seq![], seq![]);
        assert(s + Seq::<char>::empty() + Seq::<char>::empty() =~= s);
    } else {
        let i = choose|i: int| 0 <= i < s.len() && !white(#[trigger] s[i]);
        lemma_kept_at_start(s, i);
        let rest = trimmed_start(s);
        let k = choose|k: int| 0 <= k < rest.len() && !white(#[trigger] rest[k]);
        lemma_kept_at_end(rest, k);
    }
}

proof fn lemma_kept_at_start(s: Seq<char>, i: int)
    requires
        0 <= i < s.len(),
        !white(s[i]),
    ensures
        exists|k: int|
            0 <= k < trimmed_start(s).len() && !white(#[trigger] trimmed_start(s)[k]),
    decreases s.len(),
{
    if white(s[0]) {
        assert(s.skip(1)[i - 1] == s[i]);
        lemma_kept_at_start(s.skip(1), i - 1);
        let rest = trimmed_start(s.skip(1));
        let k = choose|k: int| 0 <= k < rest.len() && !white(#[trigger] rest[k]);
        assert(trimmed_start(s) == rest);
        assert(!white(trimmed_start(s)[k]));
    } else {
        assert(trimmed_start(s)[i] == s[i]);
    }
}

proof fn lemma_kept_at_end(s: Seq<char>, i: int)
    requires
        0 <= i < s.len(),
        !white(s[i]),
    ensures
        trimmed_end(s).len() > 0,
    decreases s.len(),
{
    if white(s.last()) {
        assert(s.drop_last()[i] == s[i]);
        lemma_kept_at_end(s.drop_last(), i);
    }
}

proof fn lemma_trimmed_start(before: Seq<char>, s: Seq<char>)
    requires
        all_white(before),
        s.len() > 0 ==> !white(s[0]),
    ensures
        trimmed_start(before + s) == s,
    decreases before.len(),
{
    if before.len() == 0 {
        assert(before + s =~= s);
    } else {
        let rest = before.skip(1);
        assert forall|i: int| 0 <= i < rest.len() implies white(#[trigger] rest[i]) by {
            assert(rest[i] == before[i + 1]);
        }
        lemma_trimmed_start(rest, s);
        assert((before + s).skip(1) =~= rest + s);
        assert((before + s)[0] == before[0]);
    }
}

proof fn lemma_trimmed_end(s: Seq<char>, after: Seq<char>)
    requires
        all_white(after),
        s.len() > 0 ==> !white(s.last()),
    ensures
        trimmed_end(s + after) == s,
    decreases after.len(),
{
    if after.len() == 0 {
        assert(s + after =~= s);
    } else {
        let less = after.drop_last();
        assert forall|i: int| 0 <= i < less.len() implies white(#[trigger] less[i]) by {
            assert(less[i] == after[i]);
        }
        lemma_trimmed_end(s, less);
        assert((s + after).drop_last() =~= s + less);
        assert((s + after).last() == after[after.len() - 1]);
    }
}

/// A text holds a pattern where something stands before it and something after,
/// and only then.
pub proof fn law_pattern_is_found(s: Seq<char>, pat: Seq<char>)
    ensures
        has_text(s, pat) <==> exists|a: Seq<char>, b: Seq<char>| s == #[trigger] (a + pat + b),
{
    if has_text(s, pat) {
        let i = choose|i: int| occurs_at(s, pat, i);
        let (a, b) = (s.take(i), s.skip(i + pat.len()));
        assert(s =~= a + pat + b) by {
            assert forall|k: int| 0 <= k < s.len() implies s[k] == (a + pat + b)[k] by {
                if i <= k < i + pat.len() {
                    assert(s.subrange(i, i + pat.len())[k - i] == s[k]);
                }
            }
        }
    }
    if exists|a: Seq<char>, b: Seq<char>| s == #[trigger] (a + pat + b) {
        let (a, b) = choose|a: Seq<char>, b: Seq<char>| s == #[trigger] (a + pat + b);
        assert(s.subrange(a.len() as int, (a.len() + pat.len()) as int) =~= pat);
        assert(occurs_at(s, pat, a.len() as int));
    }
}

/// Where one character is put in place, what was joined by it is joined by what
/// stands in its place.
pub proof fn law_replacing_a_character(list: Seq<Seq<char>>, c: char, to: Seq<char>)
    requires
        list.len() > 0,
        forall|i: int| 0 <= i < list.len() ==> free_of(#[trigger] list[i], c),
    ensures
        replaced(joined_by(list, seq![c]), seq![c], to) == joined_by(list, to),
    decreases list.len(),
{
    assert(free_of(list[0], c));
    if list.len() == 1 {
        lemma_replaced_passes(list[0], seq![], c, to);
        assert(list[0] + Seq::<char>::empty() =~= list[0]);
    } else {
        let rest = list.skip(1);
        assert forall|i: int| 0 <= i < rest.len() implies free_of(#[trigger] rest[i], c) by {
            assert(rest[i] == list[i + 1]);
        }
        law_replacing_a_character(rest, c, to);
        let tail = joined_by(rest, seq![c]);
        assert(joined_by(list, seq![c]) =~= list[0] + (seq![c] + tail));
        lemma_replaced_passes(list[0], seq![c] + tail, c, to);
        assert((seq![c] + tail).take(1) =~= seq![c]);
        assert((seq![c] + tail).skip(1) =~= tail);
        assert(list[0] + (to + joined_by(rest, to)) =~= joined_by(list, to));
    }
}

/// Text without the character is passed over.
proof fn lemma_replaced_passes(head: Seq<char>, rest: Seq<char>, c: char, to: Seq<char>)
    requires
        free_of(head, c),
    ensures
        replaced(head + rest, seq![c], to) == head + replaced(rest, seq![c], to),
    decreases head.len(),
{
    let all = head + rest;
    if head.len() == 0 {
        assert(all =~= rest);
        assert(head + replaced(rest, seq![c], to) =~= replaced(rest, seq![c], to));
    } else {
        let tail = head.skip(1);
        assert forall|i: int| 0 <= i < tail.len() implies #[trigger] tail[i] != c by {
            assert(tail[i] == head[i + 1]);
        }
        lemma_replaced_passes(tail, rest, c, to);
        assert(all.skip(1) =~= tail + rest);
        assert(all.take(1)[0] == head[0]);
        assert(seq![head[0]] + (tail + replaced(rest, seq![c], to)) =~= head + replaced(
            rest,
            seq![c],
            to,
        ));
    }
}

/// Texts are ordered by their first difference, by code point, and a text stands
/// before those that go on where it ends.
pub proof fn law_order_goes_by_the_first_difference(
    same: Seq<char>,
    a: char,
    x: Seq<char>,
    b: char,
    y: Seq<char>,
)
    requires
        a != b,
    ensures
        precedes(same + seq![a] + x, same + seq![b] + y) == ((a as u32) < (b as u32)),
        precedes(same, same + seq![b] + y),
        !precedes(same + seq![b] + y, same),
        !precedes(same, same),
    decreases same.len(),
{
    let s = same + seq![a] + x;
    let t = same + seq![b] + y;
    if same.len() == 0 {
        assert(s[0] == a && t[0] == b);
    } else {
        let rest = same.skip(1);
        law_order_goes_by_the_first_difference(rest, a, x, b, y);
        assert(s.skip(1) =~= rest + seq![a] + x);
        assert(t.skip(1) =~= rest + seq![b] + y);
        assert(s[0] == same[0] && t[0] == same[0]);
    }
}

} // verus!
