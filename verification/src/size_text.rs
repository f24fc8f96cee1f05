//! Texts that stand for sizes, such as `"4 GB"`.

use vstd::prelude::*;
use vstd::string::*;

verus! {

/// The value of a decimal digit, and nothing for another character.
pub open spec fn digit_value(c: char) -> Option<nat> {
    if '0' as u32 <= c as u32 <= '9' as u32 {
        Some((c as u32 - '0' as u32) as nat)
    } else {
        None
    }
}

/// The number that the digits of a text make up, whatever stands between
/// them.
pub open spec fn digits_value(text: Seq<char>) -> nat
    decreases text.len(),
{
    if text.len() == 0 {
        0
    } else {
        match digit_value(text.last()) {
            Some(d) => 10 * digits_value(text.drop_last()) + d,
            None => digits_value(text.drop_last()),
        }
    }
}

/// Whether the character at `i` can stand in a mantissa after those before it:
/// a digit, a blank or an underscore, or one point after a digit.
pub open spec fn continues_mantissa(text: Seq<char>, i: int) -> bool {
    ||| digit_value(text[i]) is Some
    ||| text[i] == ' ' || text[i] == '_'
    ||| {
        &&& text[i] == '.'
        &&& exists|j: int| 0 <= j < i && digit_value(#[trigger] text[j]) is Some
        &&& forall|j: int| 0 <= j < i ==> #[trigger] text[j] != '.'
    }
}

/// Whether the first `k` characters are the beginning of a mantissa, so that
/// the one at `k` is still looked at as a part of it.
pub open spec fn mantissa_reaches(text: Seq<char>, k: int) -> bool {
    forall|i: int| 0 <= i < k ==> #[trigger] continues_mantissa(text, i)
}

/// Whether the character at `k` is a digit that would have to be rounded up
/// onto the largest 64-bit number.
pub open spec fn rounds_past_the_end(text: Seq<char>, k: int) -> bool {
    &&& digits_value(text.take(k)) == u64::MAX
    &&& digit_value(text[k]) matches Some(d) && d >= 5
}

/// Whether the mantissa of a text can be read: as far as it goes, it can be
/// rounded within 64 bits, and its places can be counted.
pub open spec fn size_is_countable(text: Seq<char>) -> bool {
    forall|k: int|
        0 <= k < text.len() && #[trigger] mantissa_reaches(text, k) ==> k < i32::MAX && !rounds_past_the_end(text, k)
}

/// Whether the mantissa of a text can be read.
pub fn can_count_size(text: &str) -> (countable: bool)
    ensures
        countable == size_is_countable(text@),
{
    let len: usize = text.unicode_len();
    // The digits so far, as long as they fit.
    let mut value: u64 = 0;
    let mut fits: bool = true;
    let mut digit_seen: bool = false;
    let mut point_seen: bool = false;
    let mut i: usize = 0;
    proof {
        assert(text@.take(0).len() == 0);
    }
    while i < len
        invariant
            len == text@.len(),
            i <= len,
            mantissa_reaches(text@, i as int),
            fits ==> value == digits_value(text@.take(i as int)),
            !fits ==> digits_value(text@.take(i as int)) > u64::MAX,
            digit_seen == exists|j: int| 0 <= j < i && digit_value(#[trigger] text@[j]) is Some,
            point_seen == exists|j: int| 0 <= j < i && #[trigger] text@[j] == '.',
            forall|k: int|
                0 <= k < i && #[trigger] mantissa_reaches(text@, k) ==> k < i32::MAX && !rounds_past_the_end(text@, k),
        decreases len - i,
    {
        let c: char = text.get_char(i);
        let ghost next = text@.take(i + 1);
        proof {
            assert(next.drop_last() == text@.take(i as int));
            assert(next.last() == c);
        }
        if i >= 0x7fff_ffff {
            return false;
        }
        let code: u32 = c as u32;
        if 48 <= code && code <= 57 {
            let digit: u64 = (code - 48) as u64;
            if fits && value == u64::MAX && digit >= 5 {
                proof {
                    assert(rounds_past_the_end(text@, i as int));
                }
                return false;
            }
            if fits && value <= (u64::MAX - digit) / 10 {
                value = value * 10 + digit;
            } else {
                fits = false;
            }
            digit_seen = true;
            proof {
                assert(digit_value(text@[i as int]) is Some);
            }
        } else if c == '.' && digit_seen && !point_seen {
            point_seen = true;
            proof {
                assert(text@[i as int] == '.');
            }
        } else if c != ' ' && c != '_' {
            proof {
                assert(!continues_mantissa(text@, i as int));
                assert forall|k: int| 0 <= k < len && #[trigger] mantissa_reaches(text@, k) implies k < i32::MAX
                    && !rounds_past_the_end(text@, k) by {
                    assert(k <= i);
                }
            }
            return true;
        }
        proof {
            assert(continues_mantissa(text@, i as int));
        }
        i += 1;
    }
    true
}

/// Short numbers can always be read: what is wrong with a text is a digit that
/// would have to be rounded up onto the largest 64-bit number, or too many
/// places, and a text of nineteen characters has neither.
pub proof fn law_short_texts_can_be_read(text: &str, countable: bool)
    requires
        text@.len() <= 19,
        call_ensures(can_count_size, (text,), countable),
    ensures
        countable,
{
    assert forall|k: int| 0 <= k < text@.len() && #[trigger] mantissa_reaches(text@, k) implies k < i32::MAX
        && !rounds_past_the_end(text@, k) by {
        lemma_few_digits_are_small(text@.take(k));
        assert(vstd::arithmetic::power::pow(10, 18) < u64::MAX) by {
            reveal_with_fuel(vstd::arithmetic::power::pow, 19);
        }
        vstd::arithmetic::power::lemma_pow_increases(10, k as nat, 18);
    }
}

/// So many digits make a number below that power of ten.
proof fn lemma_few_digits_are_small(text: Seq<char>)
    ensures
        digits_value(text) < vstd::arithmetic::power::pow(10, text.len()),
    decreases text.len(),
{
    if text.len() == 0 {
        vstd::arithmetic::power::lemma_pow0(10);
    } else {
        lemma_few_digits_are_small(text.drop_last());
        let fewer = (text.len() - 1) as nat;
        reveal_with_fuel(vstd::arithmetic::power::pow, 2);
        assert(vstd::arithmetic::power::pow(10, text.len()) == 10 * vstd::arithmetic::power::pow(10, fewer));
    }
}

/// After digits that make up the largest 64-bit number, a text can be read on
/// exactly where the next digit is rounded down.
pub proof fn law_last_digit_decides(text: &str, countable: bool)
    requires
        0 < text@.len() <= i32::MAX,
        forall|i: int| 0 <= i < text@.len() ==> digit_value(#[trigger] text@[i]) is Some,
        digits_value(text@.drop_last()) == u64::MAX,
        call_ensures(can_count_size, (text,), countable),
    ensures
        countable <==> digit_value(text@.last())->Some_0 < 5,
{
    let last = text@.len() - 1;
    assert(text@.take(last) == text@.drop_last());
    assert forall|k: int| 0 <= k <= last implies #[trigger] mantissa_reaches(text@, k) by {
        assert forall|i: int| 0 <= i < k implies #[trigger] continues_mantissa(text@, i) by {
            assert(digit_value(text@[i]) is Some);
        }
    }
    assert(mantissa_reaches(text@, last));
    assert forall|k: int| 0 <= k < last implies !rounds_past_the_end(text@, k) by {
        lemma_digits_grow(text@.drop_last(), k);
        assert(text@.drop_last().take(k) == text@.take(k));
        assert(digit_value(text@[k]) is Some);
    }
}

/// A number that is not zero grows with every further digit.
proof fn lemma_digits_grow(text: Seq<char>, k: int)
    requires
        0 <= k < text.len(),
        forall|i: int| 0 <= i < text.len() ==> digit_value(#[trigger] text[i]) is Some,
    ensures
        digits_value(text.take(k)) > 0 ==> digits_value(text.take(k)) < digits_value(text),
        digits_value(text.take(k)) <= digits_value(text),
    decreases text.len(),
{
    let fewer = text.drop_last();
    assert(digit_value(text[text.len() - 1]) is Some);
    if k < fewer.len() {
        assert forall|i: int| 0 <= i < fewer.len() implies digit_value(#[trigger] fewer[i]) is Some by {
            assert(digit_value(text[i]) is Some);
        }
        lemma_digits_grow(fewer, k);
        assert(fewer.take(k) == text.take(k));
    } else {
        assert(fewer == text.take(k));
    }
}

/// What follows the number does not matter: where a character stands that is
/// no digit, blank, underscore or point, or a point that no digit comes before
/// or a second one, whatever comes behind it may change.
pub proof fn law_number_ends_at_a_stray_character(text: &str, other: &str, at: int, countable: (bool, bool))
    requires
        0 <= at < text@.len(),
        at < other@.len(),
        text@.take(at + 1) == other@.take(at + 1),
        !('0' as u32 <= text@[at] as u32 <= '9' as u32),
        text@[at] != ' ' && text@[at] != '_',
        text@[at] == '.' ==> text@.take(at).contains('.') || forall|j: int|
            0 <= j < at ==> !('0' as u32 <= #[trigger] text@[j] as u32 <= '9' as u32),
        call_ensures(can_count_size, (text,), countable.0),
        call_ensures(can_count_size, (other,), countable.1),
    ensures
        countable.0 == countable.1,
{
    assert(text@.take(at + 1)[at] == text@[at]);
    assert(other@.take(at + 1)[at] == other@[at]);
    if text@.take(at).contains('.') {
        let j = choose|j: int| 0 <= j < at && text@.take(at)[j] == '.';
        assert(text@[j] == '.');
    }
    assert(!continues_mantissa(text@, at));
    lemma_same_start(text@, other@, at);
    lemma_same_start(other@, text@, at);
}

/// Texts that are the same up to a character that ends the number can be read
/// alike.
proof fn lemma_same_start(text: Seq<char>, other: Seq<char>, at: int)
    requires
        0 <= at < text.len(),
        at < other.len(),
        text.take(at + 1) == other.take(at + 1),
        !continues_mantissa(text, at),
    ensures
        !continues_mantissa(other, at),
        size_is_countable(text) ==> size_is_countable(other),
{
    assert forall|j: int| 0 <= j <= at implies #[trigger] text[j] == other[j] by {
        assert(text.take(at + 1)[j] == text[j]);
        assert(other.take(at + 1)[j] == other[j]);
    }
    assert forall|i: int| 0 <= i <= at && continues_mantissa(other, i) implies #[trigger] continues_mantissa(text, i) by {
        if text[i] == '.' {
            let j = choose|j: int| 0 <= j < i && digit_value(#[trigger] other[j]) is Some;
            assert(digit_value(text[j]) is Some);
        }
    }
    if size_is_countable(text) {
        assert forall|k: int| 0 <= k < other.len() && #[trigger] mantissa_reaches(other, k) implies k < i32::MAX
            && !rounds_past_the_end(other, k) by {
            if k > at {
                assert(continues_mantissa(other, at));
            }
            assert(text.take(k) == other.take(k));
            assert forall|i: int| 0 <= i < k implies #[trigger] continues_mantissa(text, i) by {
                assert(continues_mantissa(other, i));
            }
            assert(mantissa_reaches(text, k));
        }
    }
}

/// After the largest 64-bit number, whatever zeros it begins with, a further
/// digit can be read exactly where it is rounded down.
pub proof fn law_largest_number_takes_small_digits(text: &str, zeros: nat, digit: char, countable: bool)
    requires
        '0' as u32 <= digit as u32 <= '9' as u32,
        text@ == Seq::new(zeros, |i: int| '0') + "18446744073709551615"@ + seq![digit],
        text@.len() <= i32::MAX,
        call_ensures(can_count_size, (text,), countable),
    ensures
        countable <==> (digit as u32) < '5' as u32,
{
    let start = Seq::new(zeros, |i: int| '0');
    let largest = "18446744073709551615"@;
    reveal_strlit("18446744073709551615");
    assert(text@.drop_last() == start + largest);
    lemma_zeros_count_nothing(zeros, largest);
    assert(digits_value(largest) == u64::MAX) by {
        lemma_digits_of_the_largest();
    }
    assert forall|i: int| 0 <= i < text@.len() implies digit_value(#[trigger] text@[i]) is Some by {
        if zeros <= i < zeros + 20 {
            assert(text@[i] == largest[i - zeros]);
        }
    }
    law_last_digit_decides(text, countable);
}

/// Zeros in front of a text of digits leave the number as it is.
proof fn lemma_zeros_count_nothing(zeros: nat, text: Seq<char>)
    ensures
        digits_value(Seq::new(zeros, |i: int| '0') + text) == digits_value(text),
    decreases zeros + text.len(),
{
    let start = Seq::new(zeros, |i: int| '0');
    let whole = start + text;
    if text.len() > 0 {
        assert(whole.drop_last() == start + text.drop_last());
        lemma_zeros_count_nothing(zeros, text.drop_last());
    } else if zeros > 0 {
        let fewer = Seq::new((zeros - 1) as nat, |i: int| '0');
        assert(whole.drop_last() == fewer + text);
        lemma_zeros_count_nothing((zeros - 1) as nat, text);
    }
}

/// The digits of the largest 64-bit number.
proof fn lemma_digits_of_the_largest()
    ensures
        digits_value("18446744073709551615"@) == u64::MAX,
{
    reveal_strlit("18446744073709551615");
    reveal_with_fuel(digits_value, 21);
}

/// Blanks, underscores and the point count for nothing: a text can be read
/// exactly where it can be with a blank or an underscore put in anywhere, or,
/// where it has no point, with one put in behind a digit.
pub proof fn law_blanks_count_for_nothing(text: &str, wider: &str, at: int, put: char, countable: (bool, bool))
    requires
        0 <= at <= text@.len(),
        put == ' ' || put == '_' || {
            &&& put == '.'
            &&& !text@.contains('.')
            &&& exists|j: int| 0 <= j < at && '0' as u32 <= #[trigger] text@[j] as u32 <= '9' as u32
        },
        wider@ == text@.insert(at, put),
        wider@.len() <= i32::MAX,
        call_ensures(can_count_size, (text,), countable.0),
        call_ensures(can_count_size, (wider,), countable.1),
    ensures
        countable.0 == countable.1,
{
    let (t, w) = (text@, wider@);
    if put == '.' {
        let j = choose|j: int| 0 <= j < at && '0' as u32 <= #[trigger] t[j] as u32 <= '9' as u32;
        assert(digit_value(t[j]) is Some && w[j] == t[j]);
        assert forall|j: int| 0 <= j < t.len() implies #[trigger] t[j] != '.' by {
            assert(t.contains(t[j]));
        }
    }
    assert(continues_mantissa(w, at));
    assert forall|i: int| 0 <= i < t.len() implies continues_mantissa(t, i) == #[trigger] continues_mantissa(
        w,
        moved_place(at, i),
    ) by {
        lemma_put_in_keeps_mantissa(t, w, at, put, i);
    }
    assert forall|k: int| 0 <= k < t.len() implies {
        &&& mantissa_reaches(t, k) == #[trigger] mantissa_reaches(w, moved_place(at, k))
        &&& rounds_past_the_end(t, k) == rounds_past_the_end(w, moved_place(at, k))
    } by {
        let end = moved_place(at, k);
        if mantissa_reaches(t, k) {
            assert forall|i: int| 0 <= i < end implies #[trigger] continues_mantissa(w, i) by {
                if i < at {
                    assert(continues_mantissa(t, i) && moved_place(at, i) == i);
                } else if i > at {
                    assert(continues_mantissa(t, i - 1) && moved_place(at, i - 1) == i);
                }
            }
        }
        if mantissa_reaches(w, end) {
            assert forall|i: int| 0 <= i < k implies #[trigger] continues_mantissa(t, i) by {
                assert(continues_mantissa(w, moved_place(at, i)));
            }
        }
        if k < at {
            assert(w.take(end) == t.take(k));
        } else {
            assert(w.take(end) == t.take(k).insert(at, put));
            lemma_put_in_counts_nothing(t.take(k), at, put);
        }
    }
    if countable.0 {
        assert forall|k: int| 0 <= k < w.len() && #[trigger] mantissa_reaches(w, k) implies k < i32::MAX
            && !rounds_past_the_end(w, k) by {
            let before = if k < at {
                k
            } else {
                k - 1
            };
            if k != at {
                assert(mantissa_reaches(w, moved_place(at, before)));
                assert(mantissa_reaches(t, before));
            }
        }
    }
    if countable.1 {
        assert forall|k: int| 0 <= k < t.len() && #[trigger] mantissa_reaches(t, k) implies k < i32::MAX
            && !rounds_past_the_end(t, k) by {
            assert(mantissa_reaches(w, moved_place(at, k)));
        }
    }
}

/// Where a character stands once another was put in at `at`.
spec fn moved_place(at: int, i: int) -> int {
    if i < at {
        i
    } else {
        i + 1
    }
}

/// A character that is put in leaves alone which of the others can stand in
/// the mantissa.
proof fn lemma_put_in_keeps_mantissa(text: Seq<char>, wider: Seq<char>, at: int, put: char, i: int)
    requires
        0 <= at <= text.len(),
        0 <= i < text.len(),
        wider == text.insert(at, put),
        put == ' ' || put == '_' || (put == '.' && forall|j: int| 0 <= j < text.len() ==> #[trigger] text[j] != '.'),
    ensures
        continues_mantissa(text, i) == continues_mantissa(wider, moved_place(at, i)),
{
    let end = moved_place(at, i);
    assert(wider[end] == text[i]);
    if text[i] == '.' {
        if continues_mantissa(text, i) {
            let j = choose|j: int| 0 <= j < i && digit_value(#[trigger] text[j]) is Some;
            assert(digit_value(wider[moved_place(at, j)]) is Some);
            assert forall|j: int| 0 <= j < end implies #[trigger] wider[j] != '.' by {
                if j < at {
                    assert(text[j] != '.');
                } else if j > at {
                    assert(text[j - 1] != '.');
                }
            }
        }
        if continues_mantissa(wider, end) {
            let j = choose|j: int| 0 <= j < end && digit_value(#[trigger] wider[j]) is Some;
            assert(digit_value(text[if j < at { j } else { j - 1 }]) is Some);
            assert forall|j: int| 0 <= j < i implies #[trigger] text[j] != '.' by {
                assert(wider[moved_place(at, j)] != '.');
            }
        }
    }
}

/// A character that is no digit leaves the number as it is, wherever it is put.
proof fn lemma_put_in_counts_nothing(text: Seq<char>, at: int, put: char)
    requires
        0 <= at <= text.len(),
        digit_value(put) is None,
    ensures
        digits_value(text.insert(at, put)) == digits_value(text),
    decreases text.len(),
{
    let whole = text.insert(at, put);
    if at == text.len() {
        assert(whole.drop_last() == text);
    } else {
        assert(whole.drop_last() == text.drop_last().insert(at, put));
        lemma_put_in_counts_nothing(text.drop_last(), at, put);
    }
}

/// More digits than a 32-bit number with a sign counts cannot be read.
pub proof fn law_places_are_counted(text: &str, countable: bool)
    requires
        text@.len() > 0x7fff_ffff,
        forall|i: int| 0 <= i < text@.len() ==> '0' as u32 <= #[trigger] text@[i] as u32 <= '9' as u32,
        call_ensures(can_count_size, (text,), countable),
    ensures
        !countable,
{
    assert forall|i: int| 0 <= i < 0x7fff_ffff implies #[trigger] continues_mantissa(text@, i) by {
        assert('0' as u32 <= text@[i] as u32 <= '9' as u32);
    }
    assert(mantissa_reaches(text@, 0x7fff_ffff));
}

} // verus!
