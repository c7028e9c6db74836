//! What holds of searching and cutting text.
use crate::text;
use vstd::prelude::*;

verus! {

/// Whether the characters of `pat` stand in `s`, one after the other, from `i` on.
pub open spec fn stands(s: Seq<char>, pat: Seq<char>, i: int) -> bool {
    &&& 0 <= i
    &&& i + pat.len() <= s.len()
    &&& forall|k: int| 0 <= k < pat.len() ==> s[i + k] == #[trigger] pat[k]
}

/// Whether no `pat` begins in `s` before position `n`.
pub open spec fn none_before(s: Seq<char>, pat: Seq<char>, n: int) -> bool {
    forall|j: int| 0 <= j < n ==> !(#[trigger] stands(s, pat, j))
}

/// A pattern occurs at a position exactly if its characters stand there.
pub proof fn law_occurs_at_is_standing(s: Seq<char>, pat: Seq<char>, i: int)
    ensures
        text::occurs_at(s, pat, i) <==> stands(s, pat, i),
{
    if text::occurs_at(s, pat, i) {
        assert forall|k: int| 0 <= k < pat.len() implies s[i + k] == #[trigger] pat[k] by {
            assert(s.subrange(i, i + pat.len())[k] == pat[k]);
        }
    }
    if stands(s, pat, i) {
        assert(s.subrange(i, i + pat.len()) =~= pat);
    }
}

/// A pattern occurs in a text exactly if the text is something, the pattern, and something more.
pub proof fn law_occurs_is_between(s: Seq<char>, pat: Seq<char>)
    ensures
        text::occurs(s, pat) <==> exists|a: Seq<char>, b: Seq<char>| s == #[trigger] (a + pat + b),
{
    if text::occurs(s, pat) {
        let i = choose|i: int| text::occurs_at(s, pat, i);
        law_occurs_at_is_standing(s, pat, i);
        let (a, b) = (s.take(i), s.skip(i + pat.len()));
        assert(s =~= a + pat + b);
    }
    if exists|a: Seq<char>, b: Seq<char>| s == #[trigger] (a + pat + b) {
        let (a, b) = choose|a: Seq<char>, b: Seq<char>| s == #[trigger] (a + pat + b);
        law_occurs_at_is_standing(s, pat, a.len() as int);
    }
}

/// The first position is the least one at which the pattern stands.
pub proof fn law_position_is_first(s: Seq<char>, pat: Seq<char>)
    ensures
        match text::position(s, pat) {
            Some(i) => stands(s, pat, i) && none_before(s, pat, i),
            None => forall|i: int| !(#[trigger] stands(s, pat, i)),
        },
{
    text::lemma_position(s, pat);
    assert forall|i: int| #[trigger] stands(s, pat, i) == text::occurs_at(s, pat, i) by {
        law_occurs_at_is_standing(s, pat, i);
    }
}

/// The last position is the greatest one at which the pattern stands.
pub proof fn law_last_position_is_last(s: Seq<char>, pat: Seq<char>)
    ensures
        match text::last_position(s, pat) {
            Some(i) => stands(s, pat, i) && forall|j: int|
                i < j ==> !(#[trigger] stands(s, pat, j)),
            None => forall|i: int| !(#[trigger] stands(s, pat, i)),
        },
{
    text::lemma_last_position(s, pat);
    assert forall|i: int| #[trigger] stands(s, pat, i) == text::occurs_at(s, pat, i) by {
        law_occurs_at_is_standing(s, pat, i);
    }
}

/// A text is cut at the first separator: the parts and the separator are the text, and no
/// separator begins before that. A text without one is not cut.
pub proof fn law_cut_is_at_the_first(s: Seq<char>, sep: Seq<char>)
    ensures
        match text::cut(s, sep) {
            Some((head, tail)) => s == head + sep + tail && none_before(s, sep, head.len() as int)
                && text::before(s, sep) == head,
            None => text::before(s, sep) == s && forall|i: int| !(#[trigger] stands(s, sep, i)),
        },
{
    law_position_is_first(s, sep);
    if let Some(i) = text::position(s, sep) {
        assert(s =~= s.take(i) + sep + s.skip(i + sep.len()));
    }
}

/// A text is cut at the last separator: the parts and the separator are the text, and no separator
/// begins after that. A text without one is not cut.
pub proof fn law_cut_last_is_at_the_last(s: Seq<char>, sep: Seq<char>)
    ensures
        match text::cut_last(s, sep) {
            Some((head, tail)) => s == head + sep + tail && forall|j: int|
                head.len() < j ==> !(#[trigger] stands(s, sep, j)),
            None => forall|i: int| !(#[trigger] stands(s, sep, i)),
        },
{
    law_last_position_is_last(s, sep);
    if let Some(i) = text::last_position(s, sep) {
        assert(s =~= s.take(i) + sep + s.skip(i + sep.len()));
    }
}

/// Cutting gives back the parts that a text was written from, if no separator begins in the first.
pub proof fn law_cut_reads_back(head: Seq<char>, sep: Seq<char>, tail: Seq<char>)
    requires
        none_before(head + sep + tail, sep, head.len() as int),
    ensures
        text::cut(head + sep + tail, sep) == Some((head, tail)),
        text::before(head + sep + tail, sep) == head,
{
    let s = head + sep + tail;
    let n = head.len() as int;
    law_position_is_first(s, sep);
    assert(stands(s, sep, n));
    if let Some(i) = text::position(s, sep) {
        if i < n {
            assert(!stands(s, sep, i));
        }
        if n < i {
            assert(!stands(s, sep, n));
        }
        assert(s.take(n) =~= head);
        assert(s.skip(n + sep.len()) =~= tail);
    }
}

/// Words, with one character between every two of them.
pub open spec fn with_between(words: Seq<Seq<char>>, c: char) -> Seq<char>
    decreases words.len(),
{
    if words.len() == 0 {
        seq![]
    } else if words.len() == 1 {
        words[0]
    } else {
        words[0] + seq![c] + with_between(words.drop_first(), c)
    }
}

/// Splitting at a character gives back the words between which it was written.
pub proof fn law_pieces_read_back(words: Seq<Seq<char>>, c: char)
    requires
        words.len() > 0,
        forall|i: int| 0 <= i < words.len() ==> !(#[trigger] words[i]).contains(c),
    ensures
        text::pieces(with_between(words, c), seq![c]) == words,
    decreases words.len(),
{
    assert(!words[0].contains(c));
    if words.len() == 1 {
        text::lemma_no_cut(words[0], seq![c]);
        assert(text::pieces(words[0], seq![c]) =~= words);
    } else {
        let rest = words.drop_first();
        assert forall|i: int| 0 <= i < rest.len() implies !(#[trigger] rest[i]).contains(c) by {
            assert(rest[i] == words[i + 1]);
        }
        law_pieces_read_back(rest, c);
        text::lemma_pieces_at(words[0], c, with_between(rest, c));
        assert(words =~= seq![words[0]] + rest);
    }
}

/// The pieces of a text are what stands before the first separator, and then the pieces of what
/// stands behind it. A text without a separator is one piece.
pub proof fn law_pieces_one_by_one(s: Seq<char>, sep: Seq<char>)
    requires
        sep.len() > 0,
    ensures
        text::pieces(s, sep).len() > 0,
        none_before(s, sep, s.len() as int) ==> text::pieces(s, sep) == seq![s],
        forall|head: Seq<char>, tail: Seq<char>|
            s == #[trigger] (head + sep + tail) && none_before(s, sep, head.len() as int)
                ==> text::pieces(s, sep) == seq![head] + text::pieces(tail, sep),
{
    law_position_is_first(s, sep);
    assert forall|head: Seq<char>, tail: Seq<char>|
        s == #[trigger] (head + sep + tail) && none_before(
            s,
            sep,
            head.len() as int,
        ) implies text::pieces(s, sep) == seq![head] + text::pieces(tail, sep) by {
        law_cut_reads_back(head, sep, tail);
        let n = head.len() as int;
        assert(stands(s, sep, n));
        if let Some(i) = text::position(s, sep) {
            if i < n {
                assert(!stands(s, sep, i));
            }
            if n < i {
                assert(!stands(s, sep, n));
            }
            assert(s.take(n) =~= head);
            assert(s.skip(n + sep.len()) =~= tail);
        }
    }
    if none_before(s, sep, s.len() as int) {
        if let Some(i) = text::position(s, sep) {
            assert(!stands(s, sep, i));
        }
    }
}

/// Whether a line, what ends it and what follows can be told apart: a line feed ends a line, or a
/// carriage return and a line feed, or the end of the text.
pub open spec fn is_ended(line: Seq<char>, end: Seq<char>, rest: Seq<char>) -> bool {
    &&& !line.contains('\n')
    &&& {
        ||| end == seq!['\n'] && !(line.len() > 0 && line.last() == '\r')
        ||| end == seq!['\r', '\n']
        ||| end.len() == 0 && rest.len() == 0 && line.len() > 0
    }
}

/// The lines of a text are the first, without what ends it, and then the lines of what follows. An
/// empty text has none.
pub proof fn law_lines_one_by_one(line: Seq<char>, end: Seq<char>, rest: Seq<char>)
    requires
        is_ended(line, end, rest),
    ensures
        text::lines_of(line + end + rest) == seq![line] + text::lines_of(rest),
        text::lines_of(seq![]) == Seq::<Seq<char>>::empty(),
{
    let s = line + end + rest;
    text::lemma_position(Seq::<char>::empty(), seq!['\n']);
    assert(text::lines_of(seq![]) =~= Seq::<Seq<char>>::empty());
    if end.len() == 0 {
        assert(s =~= line);
        assert(rest =~= Seq::<char>::empty());
        text::lemma_no_cut(s, seq!['\n']);
        assert(text::lines_of(s) =~= seq![line] + text::lines_of(rest));
    } else if end == seq!['\n'] {
        text::lemma_cut_at(line, seq!['\n'], rest);
        text::lemma_position(s, seq!['\n']);
        assert(text::without_cr(line) == line);
    } else {
        let full = line.push('\r');
        assert(s =~= full + seq!['\n'] + rest);
        assert(!full.contains('\n'));
        text::lemma_cut_at(full, seq!['\n'], rest);
        text::lemma_position(s, seq!['\n']);
        assert(text::without_cr(full) =~= line);
    }
}

/// Texts with the same beginning are ordered by what follows it; where a text ends there, the
/// other comes after it, and where two characters follow, the greater one decides.
pub proof fn law_order_is_of_the_first_difference(
    start: Seq<char>,
    a: Seq<char>,
    b: Seq<char>,
)
    ensures
        a.len() == 0 ==> !text::comes_after(start + a, start + b),
        a.len() > 0 && b.len() == 0 ==> text::comes_after(start + a, start + b),
        a.len() > 0 && b.len() > 0 && a[0] != b[0] ==> (text::comes_after(start + a, start + b)
            <==> a[0] > b[0]),
    decreases start.len(),
{
    if start.len() == 0 {
        assert(start + a =~= a);
        assert(start + b =~= b);
    } else {
        law_order_is_of_the_first_difference(start.drop_first(), a, b);
        assert((start + a).drop_first() =~= start.drop_first() + a);
        assert((start + b).drop_first() =~= start.drop_first() + b);
    }
}

} // verus!
