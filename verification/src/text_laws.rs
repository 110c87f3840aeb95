//! How numbers and words are told in a text.

use crate::text;
use vstd::prelude::*;

verus! {

/// The ten digits are worth zero to nine, and nothing else is a digit.
pub proof fn what_digits_are_worth(ch: char)
    ensures
        text::is_digit(ch) <==> '0' <= ch <= '9',
        text::is_digit(ch) ==> text::parsed_number(seq![ch], 9) == Some(
            (ch as int - '0' as int) as nat,
        ),
        !text::is_digit(ch) ==> text::parsed_number(seq![ch], 9) is None,
{
    let s = seq![ch];
    if ch == '+' {
        assert(text::numeral_digits(s).len() == 0);
    } else {
        assert(text::numeral_digits(s) =~= s);
        assert(s.drop_last() =~= Seq::<char>::empty());
        assert(text::digits_value(s.drop_last()) == 0);
        assert(s[0] == ch && s.last() == ch);
        assert(text::digits_value(s) == text::digit_value(ch));
    }
}

/// A further digit makes a number ten times as large and adds to it, unless the
/// number becomes too large to be read.
pub proof fn numbers_are_read_digit_by_digit(s: Seq<char>, ch: char, max: nat)
    requires
        text::parsed_number(s, max) is Some,
        '0' <= ch <= '9',
    ensures
        ({
            let n = 10 * text::parsed_number(s, max)->0 + (ch as int - '0' as int);
            &&& n <= max ==> text::parsed_number(s.push(ch), max) == Some(n as nat)
            &&& n > max ==> text::parsed_number(s.push(ch), max) is None
        }),
{
    let digits = text::numeral_digits(s);
    let more = text::numeral_digits(s.push(ch));
    assert(s.push(ch)[0] == s[0]);
    assert(more =~= digits.push(ch));
    assert(more.drop_last() =~= digits);
    assert forall|k: int| 0 <= k < more.len() implies text::is_digit(#[trigger] more[k]) by {
        if k < digits.len() {
            assert(more[k] == digits[k]);
        }
    }
    assert(text::digits_value(more) == text::digits_value(digits) * 10 + text::digit_value(ch));
}

/// A number may have a plus sign in front, and is the same without it.
pub proof fn a_plus_sign_changes_nothing(s: Seq<char>, max: nat)
    requires
        s.len() > 0,
        s[0] != '+',
    ensures
        text::parsed_number(seq!['+'] + s, max) == text::parsed_number(s, max),
{
    let signed = seq!['+'] + s;
    assert(signed[0] == '+');
    assert(signed.skip(1) =~= s);
}

/// Whatever holds something else than digits is no number.
pub proof fn only_digits_are_numbers(s: Seq<char>, k: int, max: nat)
    requires
        0 <= k < s.len(),
        !('0' <= s[k] <= '9'),
        k > 0 || s[0] != '+',
    ensures
        text::parsed_number(s, max) is None,
        text::parsed_number(Seq::empty(), max) is None,
{
    let digits = text::numeral_digits(s);
    if s[0] == '+' {
        assert(digits[k - 1] == s[k]);
    } else {
        assert(digits[k] == s[k]);
    }
    assert(text::numeral_digits(Seq::empty()).len() == 0);
}

/// Blanks, tabs and line ends part words; letters, digits and signs do not.
pub proof fn what_parts_words(ch: char)
    ensures
        ch == ' ' || ch == '\t' || ch == '\n' || ch == '\r' ==> text::is_space(ch),
        '!' <= ch <= '~' ==> !text::is_space(ch),
{
}

/// In lower case no capital is left, and whatever is no capital stays.
pub proof fn what_lower_case_is(s: Seq<char>, k: int)
    requires
        0 <= k < s.len(),
    ensures
        text::lowered(s).len() == s.len(),
        !('A' <= text::lowered(s)[k] <= 'Z'),
        'A' <= s[k] <= 'Z' ==> text::lowered(s)[k] as int - 'a' as int == s[k] as int - 'A' as int,
        !('A' <= s[k] <= 'Z') ==> text::lowered(s)[k] == s[k],
        text::lowered(text::lowered(s)) == text::lowered(s),
{
    assert(text::lowered(text::lowered(s)) =~= text::lowered(s));
}

/// Trimming cuts white space at both ends and nothing else.
pub proof fn what_trimming_cuts(s: Seq<char>) -> (ends: (int, int))
    ensures
        ({
            let (from, to) = ends;
            &&& 0 <= from <= to <= s.len()
            &&& text::trimmed(s) == s.subrange(from, to)
            &&& forall|k: int|
                0 <= k < from || to <= k < s.len() ==> text::is_space(#[trigger] s[k])
            &&& from < to ==> !text::is_space(s[from]) && !text::is_space(s[to - 1])
        }),
    decreases s.len(),
{
    if s.len() == 0 {
        assert(s.subrange(0, 0) =~= s);
        (0, 0)
    } else if text::is_space(s[0]) {
        let rest = s.drop_first();
        let (from, to) = what_trimming_cuts(rest);
        assert(rest.subrange(from, to) =~= s.subrange(from + 1, to + 1));
        assert forall|k: int| 0 <= k < from + 1 || to + 1 <= k < s.len() implies text::is_space(
            #[trigger] s[k],
        ) by {
            if k > 0 {
                assert(rest[k - 1] == s[k]);
            }
        }
        (from + 1, to + 1)
    } else if text::is_space(s.last()) {
        let rest = s.drop_last();
        let (from, to) = what_trimming_cuts(rest);
        assert(rest.subrange(from, to) =~= s.subrange(from, to));
        assert forall|k: int| 0 <= k < from || to <= k < s.len() implies text::is_space(
            #[trigger] s[k],
        ) by {
            if k < rest.len() {
                assert(rest[k] == s[k]);
            }
        }
        (from, to)
    } else {
        assert(s.subrange(0, s.len() as int) =~= s);
        (0, s.len() as int)
    }
}

/// Negative numbers have a minus sign, and no number has a needless zero in front.
pub proof fn how_numbers_are_written(n: int)
    ensures
        n < 0 ==> text::decimal_int(n) == seq!['-'] + text::decimal_int(-n),
        n >= 0 ==> text::parsed_number(text::decimal_int(n), n as nat) == Some(n as nat),
        n > 0 ==> text::decimal_int(n)[0] != '0',
{
    if n >= 0 {
        text::decimal_round_trip(n as nat, n as nat);
    }
    if n > 0 {
        lemma_leading(n as nat);
    }
}

proof fn lemma_leading(n: nat)
    requires
        n > 0,
    ensures
        text::decimal(n).len() > 0,
        text::decimal(n)[0] != '0',
    decreases n,
{
    if n >= 10 {
        lemma_leading(n / 10);
    }
}

} // verus!
