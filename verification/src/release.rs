//! The order of pkgrels.
use crate::text;
use vstd::prelude::*;

verus! {

/// Whether a character is a decimal digit.
pub open spec fn is_digit(c: char) -> bool {
    '0' <= c && c <= '9'
}

/// Whether a part of a pkgrel is a number: whether it is all digits.
pub open spec fn is_number(part: Seq<char>) -> bool {
    part.len() > 0 && forall|i: int| 0 <= i < part.len() ==> is_digit(#[trigger] part[i])
}

/// A number without its leading zeros.
pub open spec fn without_zeros(number: Seq<char>) -> Seq<char>
    decreases number.len(),
{
    if number.len() > 0 && number[0] == '0' {
        without_zeros(number.drop_first())
    } else {
        number
    }
}

/// Whether one number is greater than another. Without its leading zeros, the longer is greater.
pub open spec fn number_after(new: Seq<char>, cur: Seq<char>) -> bool {
    let (a, b) = (without_zeros(new), without_zeros(cur));
    if a.len() == b.len() {
        text::comes_after(a, b)
    } else {
        a.len() > b.len()
    }
}

/// Whether some numbers come after others: the first two of different value decide, and where there
/// are none, more numbers come after fewer.
pub open spec fn numbers_after(new: Seq<Seq<char>>, cur: Seq<Seq<char>>) -> bool
    decreases new.len(),
{
    if new.len() == 0 {
        false
    } else if cur.len() == 0 {
        true
    } else if number_after(new[0], cur[0]) {
        true
    } else if number_after(cur[0], new[0]) {
        false
    } else {
        numbers_after(new.drop_first(), cur.drop_first())
    }
}

/// Whether a pkgrel is nothing but numbers, with dots between them.
pub open spec fn is_numeric(release: Seq<char>) -> bool {
    let parts = text::pieces(release, "."@);
    forall|i: int| 0 <= i < parts.len() ==> is_number(#[trigger] parts[i])
}

/// Whether one pkgrel is newer than another: by their numbers, if both are nothing but numbers,
/// and else as text.
pub open spec fn release_after(new: Seq<char>, cur: Seq<char>) -> bool {
    if is_numeric(new) && is_numeric(cur) {
        numbers_after(text::pieces(new, "."@), text::pieces(cur, "."@))
    } else {
        text::comes_after(new, cur)
    }
}

/// Whether a part of a pkgrel is a number.
fn is_all_digits(part: &str) -> (res: bool)
    ensures
        res == is_number(part@),
{
    let chars: Vec<char> = text::chars_of(part);
    let mut i: usize = 0;
    while i < chars.len()
        invariant
            i <= chars.len(),
            chars@ == part@,
            forall|k: int| 0 <= k < i ==> is_digit(#[trigger] part@[k]),
        decreases chars.len() - i,
    {
        if chars[i] < '0' || chars[i] > '9' {
            assert(!is_digit(part@[i as int]));
            return false;
        }
        i += 1;
    }
    chars.len() > 0
}

/// A number without its leading zeros.
fn strip_zeros<'a>(number: &'a str) -> (res: &'a str)
    ensures
        res@ == without_zeros(number@),
{
    let chars: Vec<char> = text::chars_of(number);
    let mut i: usize = 0;
    assert(number@.skip(0) =~= number@);
    while i < chars.len() && chars[i] == '0'
        invariant
            i <= chars.len(),
            chars@ == number@,
            without_zeros(number@.skip(i as int)) == without_zeros(number@),
        decreases chars.len() - i,
    {
        assert(number@.skip(i as int).drop_first() =~= number@.skip(i + 1));
        i += 1;
    }
    let res: &'a str = number.substring_char(i, chars.len());
    assert(res@ =~= number@.skip(i as int));
    res
}

/// Whether all parts of a pkgrel are numbers.
fn are_numbers(parts: &Vec<&str>) -> (res: bool)
    ensures
        res == forall|i: int| 0 <= i < parts.len() ==> is_number(#[trigger] parts.deep_view()[i]),
{
    let mut i: usize = 0;
    while i < parts.len()
        invariant
            i <= parts.len(),
            forall|k: int| 0 <= k < i ==> is_number(#[trigger] parts.deep_view()[k]),
        decreases parts.len() - i,
    {
        assert(parts.deep_view()[i as int] == parts[i as int]@);
        if !is_all_digits(parts[i]) {
            return false;
        }
        i += 1;
    }
    true
}

/// Whether one number is greater than another.
fn is_number_after(new: &str, cur: &str) -> (res: bool)
    ensures
        res == number_after(new@, cur@),
{
    let a: &str = strip_zeros(new);
    let b: &str = strip_zeros(cur);
    let n: usize = a.unicode_len();
    let m: usize = b.unicode_len();
    if n == m {
        text::is_after(a, b)
    } else {
        n > m
    }
}

/// Whether one pkgrel is newer than another.
pub fn is_release_after(new: &str, cur: &str) -> (res: bool)
    ensures
        res == release_after(new@, cur@),
{
    proof {
        reveal_strlit(".");
    }
    let xs: Vec<&str> = text::split(new, ".");
    let ys: Vec<&str> = text::split(cur, ".");
    let ghost a = text::pieces(new@, "."@);
    let ghost b = text::pieces(cur@, "."@);
    if !are_numbers(&xs) || !are_numbers(&ys) {
        return text::is_after(new, cur);
    }
    assert(is_numeric(new@) && is_numeric(cur@));
    let mut i: usize = 0;
    assert(a.skip(0) =~= a);
    assert(b.skip(0) =~= b);
    while i < xs.len() && i < ys.len()
        invariant
            xs.deep_view() == a,
            ys.deep_view() == b,
            i <= xs.len(),
            i <= ys.len(),
            release_after(new@, cur@) == numbers_after(a, b),
            numbers_after(a.skip(i as int), b.skip(i as int)) == numbers_after(a, b),
        decreases xs.len() - i,
    {
        assert(a[i as int] == xs[i as int]@ && b[i as int] == ys[i as int]@);
        if is_number_after(xs[i], ys[i]) {
            return true;
        }
        if is_number_after(ys[i], xs[i]) {
            return false;
        }
        assert(a.skip(i as int).drop_first() =~= a.skip(i + 1));
        assert(b.skip(i as int).drop_first() =~= b.skip(i + 1));
        i += 1;
    }
    i < xs.len()
}

} // verus!
