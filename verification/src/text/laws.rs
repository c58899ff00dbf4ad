//! What numbers and texts are read as, and how texts are ordered.

use crate::text::{
    comes_before, decimal_text, digits_value, is_blank, is_digits, is_white_space, number_read,
    trimmed_end, trimmed_start,
};
use vstd::prelude::*;

verus! {

/// White space in front is taken away, up to the first other character.
pub proof fn lemma_trimmed_start(text: Seq<char>) -> (from: int)
    ensures
        0 <= from <= text.len(),
        trimmed_start(text) == text.skip(from),
        is_blank(text.take(from)),
        from < text.len() ==> !is_white_space(text[from]),
    decreases text.len(),
{
    if text.len() > 0 && is_white_space(text[0]) {
        let rest = text.drop_first();
        let from = lemma_trimmed_start(rest);
        assert(rest.skip(from) =~= text.skip(from + 1));
        assert forall|i: int| 0 <= i < from + 1 implies is_white_space(
            #[trigger] text.take(from + 1)[i],
        ) by {
            if i > 0 {
                assert(rest.take(from)[i - 1] == text[i]);
            }
        }
        from + 1
    } else {
        assert(text.skip(0) =~= text);
        0
    }
}

/// White space at the end is taken away, back to the last other character.
pub proof fn lemma_trimmed_end(text: Seq<char>) -> (to: int)
    ensures
        0 <= to <= text.len(),
        trimmed_end(text) == text.take(to),
        is_blank(text.skip(to)),
        to > 0 ==> !is_white_space(text[to - 1]),
    decreases text.len(),
{
    if text.len() > 0 && is_white_space(text.last()) {
        let rest = text.drop_last();
        let to = lemma_trimmed_end(rest);
        assert(rest.take(to) =~= text.take(to));
        assert forall|i: int| 0 <= i < text.len() - to implies is_white_space(
            #[trigger] text.skip(to)[i],
        ) by {
            if i < rest.len() - to {
                assert(rest.skip(to)[i] == text[to + i]);
            }
        }
        to
    } else {
        assert(text.take(text.len() as int) =~= text);
        text.len() as int
    }
}

/// A number is written in decimal digits, the highest first and without a leading zero, and its
/// digits are worth it.
pub proof fn lemma_decimal_says_the_number(n: nat)
    ensures
        decimal_text(n).len() > 0,
        is_digits(decimal_text(n)),
        digits_value(decimal_text(n)) == n,
        n > 0 ==> decimal_text(n)[0] != '0',
        n < 10 ==> decimal_text(n).len() == 1,
    decreases n,
{
    if n >= 10 {
        let before = decimal_text(n / 10);
        lemma_decimal_says_the_number(n / 10);
        assert(decimal_text(n).drop_last() =~= before);
        assert forall|i: int| 0 <= i < decimal_text(n).len() implies '0' <= #[trigger] decimal_text(
            n,
        )[i] <= '9' by {
            if i < before.len() {
                assert(before[i] == decimal_text(n)[i]);
            }
        }
        assert(decimal_text(n)[0] == before[0]);
    } else {
        let text = decimal_text(n);
        assert(text.drop_last().len() == 0);
        assert(digits_value(text.drop_last()) == 0);
        assert(text.last() as int == 48 + n);
    }
}

/// A number is read back as it is written, with or without a plus sign.
pub proof fn lemma_numbers_are_read_back(n: u64)
    ensures
        number_read(decimal_text(n as nat)) == Some(n),
        number_read(seq!['+'] + decimal_text(n as nat)) == Some(n),
{
    let text = decimal_text(n as nat);
    lemma_decimal_says_the_number(n as nat);
    assert('0' <= text[0]);
    assert((seq!['+'] + text).drop_first() =~= text);
}

/// Only digits are read as a number, after at most one plus sign, and only where they are worth
/// no more than 64 bits hold.
pub proof fn lemma_nothing_else_is_a_number(text: Seq<char>, i: int)
    requires
        0 <= i < text.len(),
        !('0' <= text[i] <= '9'),
        i > 0 || text[i] != '+' || text.len() == 1,
    ensures
        number_read(text) is None,
        number_read(Seq::empty()) is None,
{
    if text[0] == '+' {
        if text.len() > 1 {
            assert(text.drop_first()[i - 1] == text[i]);
        }
    }
}

/// One text comes before another exactly where it is the beginning of it, or where it has the
/// smaller character at the first place at which the two differ.
pub proof fn lemma_first_difference_decides(left: Seq<char>, right: Seq<char>)
    ensures
        comes_before(left, right) <==> {
            ||| left.len() < right.len() && right.take(left.len() as int) == left
            ||| exists|i: int|
                0 <= i < left.len() && i < right.len() && #[trigger] left[i] < right[i]
                    && left.take(i) == right.take(i)
        },
    decreases left.len(),
{
    if left.len() > 0 && right.len() > 0 {
        let (l, r) = (left.drop_first(), right.drop_first());
        if left[0] == right[0] {
            lemma_first_difference_decides(l, r);
            if left.len() < right.len() {
                if right.take(left.len() as int) == left {
                    assert(r.take(l.len() as int) =~= l) by {
                        assert forall|k: int| 0 <= k < l.len() implies r[k] == l[k] by {
                            assert(right.take(left.len() as int)[k + 1] == left[k + 1]);
                        }
                    }
                }
                if r.take(l.len() as int) == l {
                    assert(right.take(left.len() as int) =~= left) by {
                        assert forall|k: int| 0 <= k < left.len() implies right[k] == left[k] by {
                            if k > 0 {
                                assert(r.take(l.len() as int)[k - 1] == l[k - 1]);
                            }
                        }
                    }
                }
            }
            if exists|i: int|
                0 <= i < left.len() && i < right.len() && #[trigger] left[i] < right[i]
                    && left.take(i) == right.take(i) {
                let i = choose|i: int|
                    0 <= i < left.len() && i < right.len() && #[trigger] left[i] < right[i]
                        && left.take(i) == right.take(i);
                assert(l[i - 1] < r[i - 1]);
                assert(l.take(i - 1) =~= r.take(i - 1)) by {
                    assert forall|k: int| 0 <= k < i - 1 implies l[k] == r[k] by {
                        assert(left.take(i)[k + 1] == right.take(i)[k + 1]);
                    }
                }
            }
            if exists|i: int|
                0 <= i < l.len() && i < r.len() && #[trigger] l[i] < r[i] && l.take(i) == r.take(
                    i,
                ) {
                let i = choose|i: int|
                    0 <= i < l.len() && i < r.len() && #[trigger] l[i] < r[i] && l.take(i)
                        == r.take(i);
                assert(left[i + 1] < right[i + 1]);
                assert(left.take(i + 1) =~= right.take(i + 1)) by {
                    assert forall|k: int| 0 <= k < i + 1 implies left[k] == right[k] by {
                        if k > 0 {
                            assert(l.take(i)[k - 1] == r.take(i)[k - 1]);
                        }
                    }
                }
            }
        } else {
            if comes_before(left, right) {
                assert(left.take(0) =~= right.take(0));
                assert(left[0] < right[0]);
            } else {
                assert(right.take(left.len() as int) == left ==> right.take(left.len() as int)[0]
                    == left[0]);
                assert forall|i: int|
                    0 <= i < left.len() && i < right.len() && #[trigger] left[i]
                        < right[i] implies left.take(i) != right.take(i) by {
                    if i > 0 && left.take(i) == right.take(i) {
                        assert(left.take(i)[0] == right.take(i)[0]);
                    }
                }
            }
        }
    } else if left.len() == 0 {
        assert(right.take(0) =~= left);
    }
}

} // verus!
