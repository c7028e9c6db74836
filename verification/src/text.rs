//! Searching and cutting text.
//!
//! A string is modelled by the sequence of its characters. The specification functions come
//! first, then the functions that compute them.
use vstd::prelude::*;

verus! {

/// Whether `pat` stands in `s` at position `i`.
pub open spec fn occurs_at(s: Seq<char>, pat: Seq<char>, i: int) -> bool {
    0 <= i <= s.len() - pat.len() && s.subrange(i, i + pat.len()) == pat
}

/// Whether `pat` stands somewhere in `s`.
pub open spec fn occurs(s: Seq<char>, pat: Seq<char>) -> bool {
    exists|i: int| occurs_at(s, pat, i)
}

/// The first position, not before `i`, at which `pat` stands in `s`.
pub open spec fn position_from(s: Seq<char>, pat: Seq<char>, i: int) -> Option<int>
    decreases s.len() + 1 - i,
{
    if i > s.len() - pat.len() {
        None
    } else if occurs_at(s, pat, i) {
        Some(i)
    } else {
        position_from(s, pat, i + 1)
    }
}

/// The first position at which `pat` stands in `s`.
pub open spec fn position(s: Seq<char>, pat: Seq<char>) -> Option<int> {
    position_from(s, pat, 0)
}

/// The last position, before `i`, at which `pat` stands in `s`.
pub open spec fn last_position_before(s: Seq<char>, pat: Seq<char>, i: int) -> Option<int>
    decreases i,
{
    if i <= 0 {
        None
    } else if occurs_at(s, pat, i - 1) {
        Some(i - 1)
    } else {
        last_position_before(s, pat, i - 1)
    }
}

/// The last position at which `pat` stands in `s`.
pub open spec fn last_position(s: Seq<char>, pat: Seq<char>) -> Option<int> {
    last_position_before(s, pat, s.len() - pat.len() + 1)
}

/// What stands before and after the first `sep` in `s`.
pub open spec fn cut(s: Seq<char>, sep: Seq<char>) -> Option<(Seq<char>, Seq<char>)> {
    match position(s, sep) {
        Some(i) => Some((s.take(i), s.skip(i + sep.len()))),
        None => None,
    }
}

/// What stands before and after the last `sep` in `s`.
pub open spec fn cut_last(s: Seq<char>, sep: Seq<char>) -> Option<(Seq<char>, Seq<char>)> {
    match last_position(s, sep) {
        Some(i) => Some((s.take(i), s.skip(i + sep.len()))),
        None => None,
    }
}

/// What stands before the first `sep` in `s`, which is all of `s` where it has none.
pub open spec fn before(s: Seq<char>, sep: Seq<char>) -> Seq<char> {
    match cut(s, sep) {
        Some((head, _)) => head,
        None => s,
    }
}

/// The pieces into which every `sep` in `s`, from left to right, cuts it.
pub open spec fn pieces(s: Seq<char>, sep: Seq<char>) -> Seq<Seq<char>>
    decreases s.len(),
{
    if sep.len() == 0 {
        seq![s]
    } else {
        match position(s, sep) {
            Some(i) => if 0 <= i && i + sep.len() <= s.len() {
                seq![s.take(i)] + pieces(s.skip(i + sep.len()), sep)
            } else {
                seq![s]
            },
            None => seq![s],
        }
    }
}

/// A line without the carriage return that ended it.
pub open spec fn without_cr(line: Seq<char>) -> Seq<char> {
    if line.len() > 0 && line.last() == '\r' {
        line.drop_last()
    } else {
        line
    }
}

/// The lines of `s`. A line ends at a line feed, or at a carriage return and a line feed; what
/// follows the last line feed is a line of its own unless it is empty.
pub open spec fn lines_of(s: Seq<char>) -> Seq<Seq<char>>
    decreases s.len(),
{
    match position(s, seq!['\n']) {
        Some(i) => if 0 <= i < s.len() {
            seq![without_cr(s.take(i))] + lines_of(s.skip(i + 1))
        } else {
            seq![]
        },
        None => if s.len() == 0 {
            seq![]
        } else {
            seq![s]
        },
    }
}

/// Whether `a` comes after `b` in the order of their first different characters, a proper prefix
/// coming first.
pub open spec fn comes_after(a: Seq<char>, b: Seq<char>) -> bool
    decreases a.len(),
{
    if a.len() == 0 {
        false
    } else if b.len() == 0 {
        true
    } else if a[0] == b[0] {
        comes_after(a.drop_first(), b.drop_first())
    } else {
        a[0] > b[0]
    }
}

/// `position_from` finds the first occurrence, and finds one where there is one.
pub proof fn lemma_position_from(s: Seq<char>, pat: Seq<char>, i: int)
    requires
        0 <= i,
    ensures
        match position_from(s, pat, i) {
            Some(k) => i <= k && occurs_at(s, pat, k) && forall|j: int|
                i <= j < k ==> !occurs_at(s, pat, j),
            None => forall|j: int| i <= j ==> !occurs_at(s, pat, j),
        },
    decreases s.len() + 1 - i,
{
    if i <= s.len() - pat.len() && !occurs_at(s, pat, i) {
        lemma_position_from(s, pat, i + 1);
    }
}

/// The first position is where `pat` stands and nothing before it is.
pub proof fn lemma_position(s: Seq<char>, pat: Seq<char>)
    ensures
        match position(s, pat) {
            Some(k) => occurs_at(s, pat, k) && forall|j: int| j < k ==> !occurs_at(s, pat, j),
            None => !occurs(s, pat),
        },
{
    lemma_position_from(s, pat, 0);
}

/// An occurrence with none before it is the first position.
pub proof fn lemma_position_is(s: Seq<char>, pat: Seq<char>, k: int)
    requires
        occurs_at(s, pat, k),
        forall|j: int| 0 <= j < k ==> !occurs_at(s, pat, j),
    ensures
        position(s, pat) == Some(k),
{
    lemma_position(s, pat);
}

/// `last_position_before` finds the last occurrence, and finds one where there is one.
pub proof fn lemma_last_position_before(s: Seq<char>, pat: Seq<char>, i: int)
    ensures
        match last_position_before(s, pat, i) {
            Some(k) => k < i && occurs_at(s, pat, k) && forall|j: int|
                k < j < i ==> !occurs_at(s, pat, j),
            None => forall|j: int| j < i ==> !occurs_at(s, pat, j),
        },
    decreases i,
{
    if i > 0 && !occurs_at(s, pat, i - 1) {
        lemma_last_position_before(s, pat, i - 1);
    }
}

/// The last position is where `pat` stands and nothing after it is.
pub proof fn lemma_last_position(s: Seq<char>, pat: Seq<char>)
    ensures
        match last_position(s, pat) {
            Some(k) => occurs_at(s, pat, k) && forall|j: int| k < j ==> !occurs_at(s, pat, j),
            None => !occurs(s, pat),
        },
{
    lemma_last_position_before(s, pat, s.len() - pat.len() + 1);
}

/// An occurrence with none after it is the last position.
pub proof fn lemma_last_position_is(s: Seq<char>, pat: Seq<char>, k: int)
    requires
        occurs_at(s, pat, k),
        forall|j: int| k < j ==> !occurs_at(s, pat, j),
    ensures
        last_position(s, pat) == Some(k),
{
    lemma_last_position(s, pat);
}

/// A pattern of one character stands where the character is.
pub proof fn lemma_char_occurs_at(s: Seq<char>, c: char, i: int)
    ensures
        occurs_at(s, seq![c], i) == (0 <= i < s.len() && s[i] == c),
{
    if 0 <= i < s.len() {
        assert(s.subrange(i, i + 1) =~= seq![s[i]]);
        assert(seq![s[i]][0] == s[i] && seq![c][0] == c);
    }
}

/// Text is cut at the first separator that does not begin in what stands before it.
pub proof fn lemma_cut_at(head: Seq<char>, sep: Seq<char>, tail: Seq<char>)
    requires
        sep.len() > 0,
        !head.contains(sep[0]),
    ensures
        cut(head + sep + tail, sep) == Some((head, tail)),
{
    let s = head + sep + tail;
    let n = head.len() as int;
    assert(s.subrange(n, n + sep.len()) =~= sep);
    assert forall|j: int| 0 <= j < n implies !occurs_at(s, sep, j) by {
        if occurs_at(s, sep, j) {
            assert(s.subrange(j, j + sep.len())[0] == sep[0]);
            assert(head[j] == sep[0]);
        }
    }
    lemma_position_is(s, sep, n);
    assert(s.take(n) =~= head);
    assert(s.skip(n + sep.len()) =~= tail);
}

/// Text without the first character of a separator is not cut.
pub proof fn lemma_no_cut(s: Seq<char>, sep: Seq<char>)
    requires
        sep.len() > 0,
        !s.contains(sep[0]),
    ensures
        cut(s, sep) is None,
        cut_last(s, sep) is None,
{
    assert forall|j: int| !occurs_at(s, sep, j) by {
        if occurs_at(s, sep, j) {
            assert(s.subrange(j, j + sep.len())[0] == s[j]);
        }
    }
    lemma_position(s, sep);
    lemma_last_position(s, sep);
}

/// Text is cut at the last character that what stands behind it does not hold.
pub proof fn lemma_cut_last_at(head: Seq<char>, c: char, tail: Seq<char>)
    requires
        !tail.contains(c),
    ensures
        cut_last(head + seq![c] + tail, seq![c]) == Some((head, tail)),
{
    let s = head + seq![c] + tail;
    let n = head.len() as int;
    lemma_char_occurs_at(s, c, n);
    assert forall|j: int| n < j implies !occurs_at(s, seq![c], j) by {
        lemma_char_occurs_at(s, c, j);
        if n < j < s.len() {
            assert(s[j] == tail[j - n - 1]);
        }
    }
    lemma_last_position_is(s, seq![c], n);
    assert(s.take(n) =~= head);
    assert(s.skip(n + 1) =~= tail);
}

/// Text up to its first separator is a piece of its own.
pub proof fn lemma_pieces_at(head: Seq<char>, c: char, tail: Seq<char>)
    requires
        !head.contains(c),
    ensures
        pieces(head + seq![c] + tail, seq![c]) == seq![head] + pieces(tail, seq![c]),
{
    lemma_cut_at(head, seq![c], tail);
    lemma_position(head + seq![c] + tail, seq![c]);
}

/// The characters of `s`.
pub fn chars_of(s: &str) -> (res: Vec<char>)
    ensures
        res@ == s@,
{
    let mut res: Vec<char> = Vec::new();
    for c in it: s.chars()
        invariant
            res@ == s@.take(it.index()),
            it.seq() == s@,
    {
        res.push(c);
    }
    res
}

/// Whether `pat` stands in `s` at position `i`.
fn stands_at(s: &Vec<char>, pat: &Vec<char>, i: usize) -> (res: bool)
    requires
        i + pat.len() <= s.len(),
    ensures
        res == occurs_at(s@, pat@, i as int),
{
    let ghost there = s@.subrange(i as int, i + pat@.len());
    let mut j: usize = 0;
    while j < pat.len()
        invariant
            i + pat.len() <= s.len(),
            there == s@.subrange(i as int, i + pat@.len()),
            j <= pat.len(),
            there.take(j as int) == pat@.take(j as int),
        decreases pat.len() - j,
    {
        if s[i + j] != pat[j] {
            assert(there[j as int] != pat@[j as int]);
            return false;
        }
        assert(there.take(j + 1) =~= there.take(j as int).push(there[j as int]));
        assert(pat@.take(j + 1) =~= pat@.take(j as int).push(pat@[j as int]));
        j += 1;
    }
    assert(there.take(j as int) =~= there);
    assert(pat@.take(j as int) =~= pat@);
    true
}

/// The first position at which `pat` stands in `s`, counted in characters.
pub fn find(s: &str, pat: &str) -> (res: Option<usize>)
    ensures
        match res {
            Some(i) => position(s@, pat@) == Some(i as int),
            None => position(s@, pat@) is None,
        },
{
    let xs: Vec<char> = chars_of(s);
    let ys: Vec<char> = chars_of(pat);
    if ys.len() > xs.len() {
        return None;
    }
    let end: usize = xs.len() - ys.len();
    let mut i: usize = 0;
    loop
        invariant
            xs@ == s@,
            ys@ == pat@,
            end == xs.len() - ys.len(),
            i <= end,
            position(s@, pat@) == position_from(s@, pat@, i as int),
        decreases end - i,
    {
        if stands_at(&xs, &ys, i) {
            return Some(i);
        }
        if i == end {
            assert(position_from(s@, pat@, i + 1) is None);
            return None;
        }
        i += 1;
    }
}

/// The last position at which `pat` stands in `s`, counted in characters.
pub fn rfind(s: &str, pat: &str) -> (res: Option<usize>)
    ensures
        match res {
            Some(i) => last_position(s@, pat@) == Some(i as int),
            None => last_position(s@, pat@) is None,
        },
{
    let xs: Vec<char> = chars_of(s);
    let ys: Vec<char> = chars_of(pat);
    if ys.len() > xs.len() {
        return None;
    }
    let mut i: usize = xs.len() - ys.len();
    loop
        invariant
            xs@ == s@,
            ys@ == pat@,
            i + ys.len() <= xs.len(),
            last_position(s@, pat@) == last_position_before(s@, pat@, i + 1),
        decreases i,
    {
        if stands_at(&xs, &ys, i) {
            return Some(i);
        }
        if i == 0 {
            assert(last_position_before(s@, pat@, 0) is None);
            return None;
        }
        i -= 1;
    }
}

/// Whether `pat` stands somewhere in `s`.
pub fn contains(s: &str, pat: &str) -> (res: bool)
    ensures
        res == occurs(s@, pat@),
{
    proof {
        lemma_position(s@, pat@);
    }
    find(s, pat).is_some()
}

/// What stands before and after the first `sep` in `s`.
pub fn split_once<'a>(s: &'a str, sep: &str) -> (res: Option<(&'a str, &'a str)>)
    ensures
        res.deep_view() == cut(s@, sep@),
{
    proof {
        lemma_position(s@, sep@);
    }
    match find(s, sep) {
        Some(i) => {
            let n: usize = s.unicode_len();
            let m: usize = sep.unicode_len();
            let head: &'a str = s.substring_char(0, i);
            let tail: &'a str = s.substring_char(i + m, n);
            assert(head@ =~= s@.take(i as int));
            assert(tail@ =~= s@.skip(i + m));
            Some((head, tail))
        },
        None => None,
    }
}

/// What stands before and after the last `sep` in `s`.
pub fn rsplit_once<'a>(s: &'a str, sep: &str) -> (res: Option<(&'a str, &'a str)>)
    ensures
        res.deep_view() == cut_last(s@, sep@),
{
    proof {
        lemma_last_position(s@, sep@);
    }
    match rfind(s, sep) {
        Some(i) => {
            let n: usize = s.unicode_len();
            let m: usize = sep.unicode_len();
            let head: &'a str = s.substring_char(0, i);
            let tail: &'a str = s.substring_char(i + m, n);
            assert(head@ =~= s@.take(i as int));
            assert(tail@ =~= s@.skip(i + m));
            Some((head, tail))
        },
        None => None,
    }
}

/// What stands before the first `sep` in `s`, or all of `s`.
pub fn before_first<'a>(s: &'a str, sep: &str) -> (res: &'a str)
    ensures
        res@ == before(s@, sep@),
{
    match split_once(s, sep) {
        Some((head, _)) => head,
        None => s,
    }
}

/// The pieces into which every `sep` cuts `s`.
pub fn split<'a>(s: &'a str, sep: &str) -> (res: Vec<&'a str>)
    requires
        sep@.len() > 0,
    ensures
        res.deep_view() == pieces(s@, sep@),
{
    let mut res: Vec<&'a str> = Vec::new();
    let mut rest: &'a str = s;
    assert(res.deep_view() + pieces(rest@, sep@) =~= pieces(s@, sep@));
    loop
        invariant
            sep@.len() > 0,
            res.deep_view() + pieces(rest@, sep@) == pieces(s@, sep@),
        decreases rest@.len(),
    {
        let ghost done = res.deep_view();
        proof {
            lemma_position(rest@, sep@);
        }
        match split_once(rest, sep) {
            Some((head, tail)) => {
                res.push(head);
                assert(res.deep_view() =~= done.push(head@));
                assert(res.deep_view() + pieces(tail@, sep@) =~= done + (seq![head@] + pieces(
                    tail@,
                    sep@,
                )));
                rest = tail;
            },
            None => {
                res.push(rest);
                assert(res.deep_view() =~= done + seq![rest@]);
                return res;
            },
        }
    }
}

/// The lines of `s`.
pub fn lines<'a>(s: &'a str) -> (res: Vec<&'a str>)
    ensures
        res.deep_view() == lines_of(s@),
{
    let mut res: Vec<&'a str> = Vec::new();
    let mut rest: &'a str = s;
    proof {
        reveal_strlit("\n");
        assert("\n"@ =~= seq!['\n']);
    }
    assert(res.deep_view() + lines_of(rest@) =~= lines_of(s@));
    loop
        invariant
            "\n"@ == seq!['\n'],
            res.deep_view() + lines_of(rest@) == lines_of(s@),
        decreases rest@.len(),
    {
        let ghost done = res.deep_view();
        proof {
            lemma_position(rest@, "\n"@);
        }
        match split_once(rest, "\n") {
            Some((head, tail)) => {
                let line: &'a str = strip_cr(head);
                res.push(line);
                assert(res.deep_view() =~= done.push(line@));
                assert(res.deep_view() + lines_of(tail@) =~= done + (seq![line@] + lines_of(
                    tail@,
                )));
                rest = tail;
            },
            None => {
                if !rest.is_empty() {
                    res.push(rest);
                    assert(res.deep_view() =~= done + seq![rest@]);
                } else {
                    assert(done + lines_of(rest@) =~= done);
                }
                return res;
            },
        }
    }
}

/// A line without the carriage return that ended it.
fn strip_cr<'a>(line: &'a str) -> (res: &'a str)
    ensures
        res@ == without_cr(line@),
{
    let n: usize = line.unicode_len();
    if n > 0 && line.get_char(n - 1) == '\r' {
        let res: &'a str = line.substring_char(0, n - 1);
        assert(res@ =~= line@.drop_last());
        res
    } else {
        line
    }
}

/// Whether `s` begins with `pat`.
pub fn starts_with(s: &str, pat: &str) -> (res: bool)
    ensures
        res == pat@.is_prefix_of(s@),
{
    let xs: Vec<char> = chars_of(s);
    let ys: Vec<char> = chars_of(pat);
    if ys.len() > xs.len() {
        return false;
    }
    assert(occurs_at(s@, pat@, 0) == pat@.is_prefix_of(s@));
    stands_at(&xs, &ys, 0)
}

/// Whether `s` ends with `pat`.
pub fn ends_with(s: &str, pat: &str) -> (res: bool)
    ensures
        res == pat@.is_suffix_of(s@),
{
    let xs: Vec<char> = chars_of(s);
    let ys: Vec<char> = chars_of(pat);
    if ys.len() > xs.len() {
        return false;
    }
    assert(occurs_at(s@, pat@, s@.len() - pat@.len()) == pat@.is_suffix_of(s@));
    stands_at(&xs, &ys, xs.len() - ys.len())
}

/// Whether `a` and `b` are the same text.
pub fn same(a: &str, b: &str) -> (res: bool)
    ensures
        res == (a@ == b@),
{
    let xs: Vec<char> = chars_of(a);
    let ys: Vec<char> = chars_of(b);
    if xs.len() != ys.len() {
        return false;
    }
    assert(occurs_at(a@, b@, 0) == (a@ == b@)) by {
        assert(a@.subrange(0, a@.len() as int) =~= a@);
    }
    stands_at(&xs, &ys, 0)
}

/// Whether `a` comes after `b`, as strings are ordered.
pub fn is_after(a: &str, b: &str) -> (res: bool)
    ensures
        res == comes_after(a@, b@),
{
    let xs: Vec<char> = chars_of(a);
    let ys: Vec<char> = chars_of(b);
    let mut i: usize = 0;
    assert(a@.skip(0) =~= a@);
    assert(b@.skip(0) =~= b@);
    while i < xs.len() && i < ys.len()
        invariant
            xs@ == a@,
            ys@ == b@,
            i <= xs.len(),
            i <= ys.len(),
            comes_after(a@, b@) == comes_after(a@.skip(i as int), b@.skip(i as int)),
        decreases xs.len() - i,
    {
        if xs[i] != ys[i] {
            return xs[i] > ys[i];
        }
        assert(a@.skip(i as int).drop_first() =~= a@.skip(i + 1));
        assert(b@.skip(i as int).drop_first() =~= b@.skip(i + 1));
        i += 1;
    }
    i < xs.len()
}

} // verus!
