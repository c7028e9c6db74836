//! What holds of the order of pkgrels.
use crate::release;
use crate::text;
use crate::text_laws;
use vstd::prelude::*;

verus! {

/// The value of a number, read from its digits.
pub open spec fn value(number: Seq<char>) -> int
    decreases number.len(),
{
    if number.len() == 0 {
        0
    } else {
        value(number.drop_last()) * 10 + (number.last() as int - '0' as int)
    }
}

/// Whether a text is a number: at least one digit, and nothing but digits.
pub open spec fn digits(s: Seq<char>) -> bool {
    s.len() > 0 && forall|i: int| 0 <= i < s.len() ==> '0' <= #[trigger] s[i] && s[i] <= '9'
}

/// A number is one by its digits.
pub proof fn lemma_digits(s: Seq<char>)
    ensures
        release::is_number(s) <==> digits(s),
{
    if digits(s) {
        assert forall|i: int| 0 <= i < s.len() implies release::is_digit(#[trigger] s[i]) by {
            assert('0' <= s[i] && s[i] <= '9');
        }
    }
    if release::is_number(s) {
        assert forall|i: int| 0 <= i < s.len() implies '0' <= #[trigger] s[i] && s[i] <= '9' by {
            assert(release::is_digit(s[i]));
        }
    }
}

/// Whether a text has nothing but digits.
spec fn all_digits(s: Seq<char>) -> bool {
    forall|i: int| 0 <= i < s.len() ==> release::is_digit(#[trigger] s[i])
}

/// What is left of digits without the last is digits.
proof fn lemma_digits_init(s: Seq<char>)
    requires
        all_digits(s),
        s.len() > 0,
    ensures
        all_digits(s.drop_last()),
        release::is_digit(s.last()),
{
    assert forall|i: int| 0 <= i < s.len() - 1 implies release::is_digit(
        #[trigger] s.drop_last()[i],
    ) by {
        assert(s.drop_last()[i] == s[i]);
    }
    assert(s[s.len() - 1] == s.last());
}

/// A leading zero adds nothing to a value.
proof fn lemma_zero_adds_nothing(s: Seq<char>)
    requires
        s.len() > 0,
        s[0] == '0',
    ensures
        value(s) == value(s.drop_first()),
    decreases s.len(),
{
    if s.len() == 1 {
        assert(value(s.drop_last()) == 0);
        assert(value(s.drop_first()) == 0);
    } else {
        lemma_zero_adds_nothing(s.drop_last());
        assert(s.drop_last().drop_first() =~= s.drop_first().drop_last());
    }
}

/// Without its leading zeros, a number has the same value, and does not begin with a zero.
proof fn lemma_without_zeros(s: Seq<char>)
    requires
        all_digits(s),
    ensures
        all_digits(release::without_zeros(s)),
        value(release::without_zeros(s)) == value(s),
        release::without_zeros(s).len() > 0 ==> release::without_zeros(s)[0] != '0',
    decreases s.len(),
{
    if s.len() > 0 && s[0] == '0' {
        let rest = s.drop_first();
        assert forall|i: int| 0 <= i < rest.len() implies release::is_digit(#[trigger] rest[i]) by {
            assert(rest[i] == s[i + 1]);
        }
        lemma_zero_adds_nothing(s);
        lemma_without_zeros(rest);
    }
}

/// No value is less than nothing, and a number that does not begin with a zero has a value.
proof fn lemma_value_sign(s: Seq<char>)
    requires
        all_digits(s),
    ensures
        value(s) >= 0,
        s.len() > 0 && s[0] != '0' ==> value(s) > 0,
    decreases s.len(),
{
    if s.len() > 0 {
        lemma_digits_init(s);
        lemma_value_sign(s.drop_last());
        if s.len() > 1 {
            assert(s.drop_last()[0] == s[0]);
        }
    }
}

/// Of two numbers, the longer is greater, unless it begins with a zero.
proof fn lemma_longer_is_greater(a: Seq<char>, b: Seq<char>)
    requires
        all_digits(a),
        all_digits(b),
        a.len() > b.len(),
        a[0] != '0',
    ensures
        value(a) > value(b),
    decreases b.len(),
{
    if b.len() == 0 {
        lemma_value_sign(a);
    } else {
        lemma_digits_init(a);
        lemma_digits_init(b);
        assert(a.drop_last()[0] == a[0]);
        lemma_longer_is_greater(a.drop_last(), b.drop_last());
    }
}

/// The order of two texts of one length is that of their beginnings, and where these are the same
/// that of their last characters.
proof fn lemma_order_of_last(a: Seq<char>, b: Seq<char>)
    requires
        a.len() == b.len(),
        a.len() > 0,
    ensures
        text::comes_after(a, b) <==> text::comes_after(a.drop_last(), b.drop_last()) || (
        a.drop_last() == b.drop_last() && a.last() > b.last()),
    decreases a.len(),
{
    let (ai, bi) = (a.drop_last(), b.drop_last());
    if a.len() == 1 {
        assert(ai =~= bi);
        assert(!text::comes_after(a.drop_first(), b.drop_first()));
    } else {
        assert(ai[0] == a[0] && bi[0] == b[0]);
        if a[0] == b[0] {
            lemma_order_of_last(a.drop_first(), b.drop_first());
            assert(a.drop_first().drop_last() =~= ai.drop_first());
            assert(b.drop_first().drop_last() =~= bi.drop_first());
            if ai.drop_first() == bi.drop_first() {
                assert(ai =~= seq![ai[0]] + ai.drop_first());
                assert(bi =~= seq![bi[0]] + bi.drop_first());
            }
        }
    }
}

/// Numbers of one length are ordered as texts are.
proof fn lemma_same_length(a: Seq<char>, b: Seq<char>)
    requires
        all_digits(a),
        all_digits(b),
        a.len() == b.len(),
    ensures
        text::comes_after(a, b) <==> value(a) > value(b),
        value(a) == value(b) ==> a == b,
    decreases a.len(),
{
    if a.len() == 0 {
        assert(a =~= b);
    } else {
        lemma_digits_init(a);
        lemma_digits_init(b);
        lemma_same_length(a.drop_last(), b.drop_last());
        lemma_order_of_last(a, b);
        assert(a =~= a.drop_last().push(a.last()));
        assert(b =~= b.drop_last().push(b.last()));
    }
}

/// A number has no dot, and so is one part.
proof fn lemma_number_is_one_part(number: Seq<char>)
    requires
        release::is_number(number),
    ensures
        text::pieces(number, "."@) == seq![number],
{
    reveal_strlit(".");
    assert("."@ =~= seq!['.']);
    assert(!number.contains('.')) by {
        assert forall|i: int| 0 <= i < number.len() implies number[i] != '.' by {
            assert(release::is_digit(number[i]));
        }
    }
    text::lemma_no_cut(number, "."@);
}

/// The numbers in a pkgrel come in the order of their values.
pub proof fn law_numbers_are_ordered_by_value(new: Seq<char>, cur: Seq<char>)
    requires
        digits(new),
        digits(cur),
    ensures
        release::number_after(new, cur) <==> value(new) > value(cur),
{
    lemma_digits(new);
    lemma_digits(cur);
    lemma_without_zeros(new);
    lemma_without_zeros(cur);
    let (a, b) = (release::without_zeros(new), release::without_zeros(cur));
    if a.len() == b.len() {
        lemma_same_length(a, b);
    } else if a.len() > b.len() {
        lemma_longer_is_greater(a, b);
    } else {
        lemma_longer_is_greater(b, a);
    }
}

/// Of two pkgrels that are numbers, the greater is newer.
pub proof fn law_greater_release_is_newer(new: Seq<char>, cur: Seq<char>)
    requires
        digits(new),
        digits(cur),
    ensures
        release::release_after(new, cur) <==> value(new) > value(cur),
{
    lemma_digits(new);
    lemma_digits(cur);
    lemma_number_is_one_part(new);
    lemma_number_is_one_part(cur);
    law_numbers_are_ordered_by_value(new, cur);
    let (xs, ys) = (seq![new], seq![cur]);
    assert(!release::numbers_after(xs.drop_first(), ys.drop_first()));
    assert(xs[0] == new && ys[0] == cur);
}

/// Whether numbers are greater than others at a place: the values before are the same, and the
/// value there is greater, or the others have come to their end.
pub open spec fn greater_at(new: Seq<Seq<char>>, cur: Seq<Seq<char>>, i: int) -> bool {
    &&& 0 <= i < new.len()
    &&& i <= cur.len()
    &&& i < cur.len() ==> value(new[i]) > value(cur[i])
    &&& forall|j: int| 0 <= j < i ==> value(#[trigger] new[j]) == value(cur[j])
}

/// What decides between numbers is the first place at which they differ.
proof fn lemma_greater_at(new: Seq<Seq<char>>, cur: Seq<Seq<char>>)
    requires
        forall|i: int| 0 <= i < new.len() ==> digits(#[trigger] new[i]),
        forall|i: int| 0 <= i < cur.len() ==> digits(#[trigger] cur[i]),
    ensures
        release::numbers_after(new, cur) <==> exists|i: int| greater_at(new, cur, i),
    decreases new.len(),
{
    if new.len() > 0 && cur.len() == 0 {
        assert(greater_at(new, cur, 0));
    } else if new.len() > 0 {
        assert(digits(new[0]) && digits(cur[0]));
        law_numbers_are_ordered_by_value(new[0], cur[0]);
        law_numbers_are_ordered_by_value(cur[0], new[0]);
        let (a, b) = (new.drop_first(), cur.drop_first());
        assert forall|i: int| 0 <= i < a.len() implies digits(#[trigger] a[i]) by {
            assert(a[i] == new[i + 1]);
        }
        assert forall|i: int| 0 <= i < b.len() implies digits(#[trigger] b[i]) by {
            assert(b[i] == cur[i + 1]);
        }
        lemma_greater_at(a, b);
        if value(new[0]) > value(cur[0]) {
            assert(greater_at(new, cur, 0));
        } else {
            assert forall|i: int| #[trigger] greater_at(new, cur, i) implies greater_at(
                a,
                b,
                i - 1,
            ) && value(new[0]) == value(cur[0]) by {
                if i > 0 {
                    assert(value(new[0]) == value(cur[0]));
                    assert forall|j: int| 0 <= j < i - 1 implies value(#[trigger] a[j]) == value(
                        b[j],
                    ) by {
                        assert(a[j] == new[j + 1] && b[j] == cur[j + 1]);
                    }
                }
            }
            if value(new[0]) == value(cur[0]) {
                assert forall|i: int| #[trigger] greater_at(a, b, i) implies greater_at(
                    new,
                    cur,
                    i + 1,
                ) by {
                    assert forall|j: int| 0 <= j < i + 1 implies value(#[trigger] new[j]) == value(
                        cur[j],
                    ) by {
                        if j > 0 {
                            assert(a[j - 1] == new[j] && b[j - 1] == cur[j]);
                        }
                    }
                }
            }
        }
    }
}

/// Of two pkgrels that are numbers with dots between them, the one is newer whose numbers are
/// greater: the first two of different value decide, and where there are none, more numbers come
/// after fewer.
pub proof fn law_releases_are_ordered_by_their_numbers(new: Seq<Seq<char>>, cur: Seq<Seq<char>>)
    requires
        new.len() > 0,
        cur.len() > 0,
        forall|i: int| 0 <= i < new.len() ==> digits(#[trigger] new[i]),
        forall|i: int| 0 <= i < cur.len() ==> digits(#[trigger] cur[i]),
    ensures
        release::release_after(
            text_laws::with_between(new, '.'),
            text_laws::with_between(cur, '.'),
        ) <==> exists|i: int| greater_at(new, cur, i),
{
    lemma_dotted_parts(new);
    lemma_dotted_parts(cur);
    lemma_greater_at(new, cur);
}

/// Numbers with dots between them have the numbers for parts.
proof fn lemma_dotted_parts(numbers: Seq<Seq<char>>)
    requires
        numbers.len() > 0,
        forall|i: int| 0 <= i < numbers.len() ==> digits(#[trigger] numbers[i]),
    ensures
        text::pieces(text_laws::with_between(numbers, '.'), "."@) == numbers,
        release::is_numeric(text_laws::with_between(numbers, '.')),
{
    reveal_strlit(".");
    assert("."@ =~= seq!['.']);
    assert forall|i: int| 0 <= i < numbers.len() implies !(#[trigger] numbers[i]).contains(
        '.',
    ) by {
        assert(digits(numbers[i]));
    }
    text_laws::law_pieces_read_back(numbers, '.');
    assert forall|i: int| 0 <= i < numbers.len() implies release::is_number(
        #[trigger] numbers[i],
    ) by {
        lemma_digits(numbers[i]);
    }
}

/// Whether a text is made of numbers with dots between them: of digits and dots, with a digit at
/// both ends and no dot behind another.
pub open spec fn is_dotted(s: Seq<char>) -> bool {
    &&& s.len() > 0
    &&& s[0] != '.'
    &&& s.last() != '.'
    &&& forall|i: int|
        0 <= i < s.len() ==> (#[trigger] s[i]) == '.' || ('0' <= s[i] && s[i] <= '9')
    &&& forall|i: int, j: int|
        0 <= i && j == i + 1 && j < s.len() ==> !(#[trigger] s[i] == '.' && #[trigger] s[j] == '.')
}

/// What has numbers for parts is made of numbers with dots between them.
proof fn lemma_numeric_is_dotted(s: Seq<char>)
    requires
        release::is_numeric(s),
    ensures
        is_dotted(s),
    decreases s.len(),
{
    reveal_strlit(".");
    let parts = text::pieces(s, "."@);
    text_laws::law_cut_is_at_the_first(s, "."@);
    text_laws::law_pieces_one_by_one(s, "."@);
    match text::cut(s, "."@) {
        Some((head, tail)) => {
            assert(s == head + "."@ + tail);
            assert(parts == seq![head] + text::pieces(tail, "."@));
            assert(parts[0] == head);
            lemma_digits(head);
            let rest = text::pieces(tail, "."@);
            assert forall|i: int| 0 <= i < rest.len() implies release::is_number(
                #[trigger] rest[i],
            ) by {
                assert(parts[i + 1] == rest[i]);
            }
            lemma_numeric_is_dotted(tail);
            let n = head.len() as int;
            assert(forall|i: int| 0 <= i < n ==> s[i] == head[i]);
            assert(s[n] == '.');
            assert(forall|i: int| n < i < s.len() ==> s[i] == tail[i - n - 1]);
            assert(s.last() == tail.last());
            assert forall|i: int, j: int| 0 <= i && j == i + 1 && j < s.len() implies !(
            #[trigger] s[i] == '.' && #[trigger] s[j] == '.') by {
                if i > n {
                    assert(s[i] == tail[i - n - 1] && s[j] == tail[j - n - 1]);
                }
            }
        },
        None => {
            assert(none_stands(s));
            assert(parts[0] == s);
            lemma_digits(s);
        },
    }
}

/// Whether no dot begins in a text.
spec fn none_stands(s: Seq<char>) -> bool {
    text_laws::none_before(s, "."@, s.len() as int)
}

/// A pkgrel that is anything but numbers with dots between them is compared as text.
pub proof fn law_other_releases_are_ordered_as_text(new: Seq<char>, cur: Seq<char>)
    requires
        !is_dotted(new) || !is_dotted(cur),
    ensures
        release::release_after(new, cur) <==> text::comes_after(new, cur),
{
    if release::is_numeric(new) {
        lemma_numeric_is_dotted(new);
    }
    if release::is_numeric(cur) {
        lemma_numeric_is_dotted(cur);
    }
}

/// No two texts come after each other.
proof fn lemma_text_one_way(a: Seq<char>, b: Seq<char>)
    ensures
        !(text::comes_after(a, b) && text::comes_after(b, a)),
    decreases a.len(),
{
    if a.len() > 0 && b.len() > 0 && a[0] == b[0] {
        lemma_text_one_way(a.drop_first(), b.drop_first());
    }
}

/// No two lists of numbers come after each other.
proof fn lemma_numbers_one_way(a: Seq<Seq<char>>, b: Seq<Seq<char>>)
    ensures
        !(release::numbers_after(a, b) && release::numbers_after(b, a)),
    decreases a.len(),
{
    if a.len() > 0 && b.len() > 0 {
        lemma_text_one_way(release::without_zeros(a[0]), release::without_zeros(b[0]));
        lemma_numbers_one_way(a.drop_first(), b.drop_first());
    }
}

/// No two pkgrels are newer than each other, and so none is newer than itself.
pub proof fn law_newer_release_goes_one_way(a: Seq<char>, b: Seq<char>)
    ensures
        !(release::release_after(a, b) && release::release_after(b, a)),
{
    lemma_numbers_one_way(text::pieces(a, "."@), text::pieces(b, "."@));
    lemma_text_one_way(a, b);
}

} // verus!
