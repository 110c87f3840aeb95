//! Text as sequences of characters: splitting, trimming, and decimal numbers.

use vstd::prelude::*;

verus! {

/// `String::push` of the standard library: the character is appended at the
/// end and nothing else changes.
pub assume_specification[ String::push ](string: &mut String, ch: char)
    ensures
        final(string)@ == old(string)@.push(ch),
;

/// The characters of a text, in order.
pub fn chars_of(text: &str) -> (chars: Vec<char>)
    ensures
        chars@ == text@,
{
    let mut chars: Vec<char> = Vec::new();
    for ch in it: text.chars()
        invariant
            it.seq() == text@,
            chars@ == text@.take(it.index() as int),
    {
        proof {
            assert(text@.take(it.index() + 1) =~= text@.take(it.index() as int).push(ch));
        }
        chars.push(ch);
    }
    assert(text@.take(text@.len() as int) =~= text@);
    chars
}

/// The text made of the given characters.
pub fn string_of(chars: &Vec<char>) -> (text: String)
    ensures
        text@ == chars@,
{
    let mut text = String::new();
    let mut i: usize = 0;
    while i < chars.len()
        invariant
            i <= chars.len(),
            text@ == chars@.take(i as int),
        decreases chars.len() - i,
    {
        assert(chars@.take(i + 1) =~= chars@.take(i as int).push(chars@[i as int]));
        text.push(chars[i]);
        i += 1;
    }
    assert(chars@.take(chars@.len() as int) =~= chars@);
    text
}

/// Whether the characters are exactly those of `text`.
pub fn chars_equal(chars: &Vec<char>, text: &str) -> (equal: bool)
    ensures
        equal == (chars@ == text@),
{
    let other: Vec<char> = chars_of(text);
    if chars.len() != other.len() {
        return false;
    }
    let mut i: usize = 0;
    while i < chars.len()
        invariant
            i <= chars.len(),
            chars.len() == other.len(),
            other@ == text@,
            forall|k: int| 0 <= k < i ==> chars@[k] == other@[k],
        decreases chars.len() - i,
    {
        if chars[i] != other[i] {
            assert(chars@[i as int] != text@[i as int]);
            return false;
        }
        i += 1;
    }
    assert(chars@ =~= text@);
    true
}

/// The characters of several texts at once.
pub open spec fn views(words: Seq<Vec<char>>) -> Seq<Seq<char>> {
    Seq::new(words.len(), |i: int| words[i]@)
}

/// Unicode white space.
pub open spec fn is_space(ch: char) -> bool {
    let code = ch as int;
    9 <= code <= 13 || code == 0x20 || code == 0x85 || code == 0xA0 || code == 0x1680 || 0x2000
        <= code <= 0x200A || code == 0x2028 || code == 0x2029 || code == 0x202F || code == 0x205F
        || code == 0x3000
}

fn space(ch: char) -> (white: bool)
    ensures
        white == is_space(ch),
{
    let code: u32 = ch as u32;
    (code >= 9 && code <= 13) || code == 0x20 || code == 0x85 || code == 0xA0 || code == 0x1680 || (
    code >= 0x2000 && code <= 0x200A) || code == 0x2028 || code == 0x2029 || code == 0x202F || code
        == 0x205F || code == 0x3000
}

/// How many characters stand before the first white space.
pub open spec fn word_len(s: Seq<char>) -> nat
    decreases s.len(),
{
    if s.len() == 0 || is_space(s[0]) {
        0
    } else {
        1 + word_len(s.drop_first())
    }
}

/// The maximal runs of characters that are not white space.
pub open spec fn words(s: Seq<char>) -> Seq<Seq<char>>
    decreases s.len(),
    via words_decreases
{
    if s.len() == 0 {
        Seq::empty()
    } else if is_space(s[0]) {
        words(s.drop_first())
    } else {
        seq![s.take(word_len(s) as int)] + words(s.skip(word_len(s) as int))
    }
}

#[via_fn]
proof fn words_decreases(s: Seq<char>) {
    lemma_word_len(s);
}

/// A word ends where white space or the end of the text begins.
pub proof fn lemma_word_len(s: Seq<char>)
    ensures
        word_len(s) <= s.len(),
        s.len() > 0 && !is_space(s[0]) ==> word_len(s) > 0,
        forall|k: int| 0 <= k < word_len(s) ==> !is_space(#[trigger] s[k]),
        word_len(s) < s.len() ==> is_space(s[word_len(s) as int]),
    decreases s.len(),
{
    if s.len() > 0 && !is_space(s[0]) {
        let t = s.drop_first();
        lemma_word_len(t);
        assert forall|k: int| 0 <= k < word_len(s) implies !is_space(#[trigger] s[k]) by {
            if k > 0 {
                assert(s[k] == t[k - 1]);
            }
        }
        if word_len(s) < s.len() {
            assert(s[word_len(s) as int] == t[word_len(t) as int]);
        }
    }
}

/// The first run of non-space characters is as long as the position of the
/// first white space.
pub proof fn lemma_word_len_is(s: Seq<char>, n: nat)
    requires
        n <= s.len(),
        forall|k: int| 0 <= k < n ==> !is_space(#[trigger] s[k]),
        n < s.len() ==> is_space(s[n as int]),
    ensures
        word_len(s) == n,
    decreases n,
{
    if n > 0 {
        let t = s.drop_first();
        assert forall|k: int| 0 <= k < n - 1 implies !is_space(#[trigger] t[k]) by {
            assert(t[k] == s[k + 1]);
        }
        if n - 1 < t.len() {
            assert(t[n - 1] == s[n as int]);
        }
        assert(!is_space(s[0]));
        lemma_word_len_is(t, (n - 1) as nat);
    }
}

/// Splits a text at white space: the maximal runs of other characters, in order.
pub fn split_words(chars: &Vec<char>) -> (result: Vec<Vec<char>>)
    ensures
        views(result@) == words(chars@),
{
    let mut result: Vec<Vec<char>> = Vec::new();
    let mut i: usize = 0;
    assert(chars@.skip(0) =~= chars@);
    assert(views(result@) + words(chars@) =~= words(chars@));
    while i < chars.len()
        invariant
            i <= chars.len(),
            views(result@) + words(chars@.skip(i as int)) == words(chars@),
        decreases chars.len() - i,
    {
        let ghost rest = chars@.skip(i as int);
        if space(chars[i]) {
            assert(rest.drop_first() =~= chars@.skip(i + 1));
            i += 1;
        } else {
            let start: usize = i;
            let mut word: Vec<char> = Vec::new();
            while i < chars.len() && !space(chars[i])
                invariant
                    start <= i <= chars.len(),
                    rest == chars@.skip(start as int),
                    word@ == rest.take(i - start),
                    forall|k: int| 0 <= k < i - start ==> !is_space(#[trigger] rest[k]),
                decreases chars.len() - i,
            {
                assert(rest.take(i - start + 1) =~= rest.take(i - start).push(rest[i - start]));
                word.push(chars[i]);
                i += 1;
            }
            proof {
                let n = (i - start) as nat;
                lemma_word_len_is(rest, n);
                assert(rest.skip(n as int) =~= chars@.skip(i as int));
                assert(views(result@.push(word)) =~= views(result@).push(word@));
                assert(views(result@) + (seq![word@] + words(chars@.skip(i as int))) =~= views(
                    result@,
                ).push(word@) + words(chars@.skip(i as int)));
            }
            result.push(word);
        }
    }
    assert(chars@.skip(i as int) =~= Seq::<char>::empty());
    assert(views(result@) + Seq::<Seq<char>>::empty() =~= views(result@));
    result
}

/// How many characters stand before the first `sep`.
pub open spec fn piece_len(s: Seq<char>, sep: char) -> nat
    decreases s.len(),
{
    if s.len() == 0 || s[0] == sep {
        0
    } else {
        1 + piece_len(s.drop_first(), sep)
    }
}

/// The parts of a text between the occurrences of `sep`: always one more part
/// than there are occurrences.
pub open spec fn split(s: Seq<char>, sep: char) -> Seq<Seq<char>>
    decreases s.len(),
{
    let n = piece_len(s, sep) as int;
    if 0 <= n < s.len() {
        seq![s.take(n)] + split(s.skip(n + 1), sep)
    } else {
        seq![s]
    }
}

/// The first part ends at the first separator.
pub proof fn lemma_piece_len_is(s: Seq<char>, sep: char, n: nat)
    requires
        n <= s.len(),
        forall|k: int| 0 <= k < n ==> #[trigger] s[k] != sep,
        n < s.len() ==> s[n as int] == sep,
    ensures
        piece_len(s, sep) == n,
    decreases n,
{
    if n > 0 {
        let t = s.drop_first();
        assert forall|k: int| 0 <= k < n - 1 implies #[trigger] t[k] != sep by {
            assert(t[k] == s[k + 1]);
        }
        if n - 1 < t.len() {
            assert(t[n - 1] == s[n as int]);
        }
        assert(s[0] != sep);
        lemma_piece_len_is(t, sep, (n - 1) as nat);
    }
}

/// Splits a text at every occurrence of `sep`.
pub fn split_at_char(chars: &Vec<char>, sep: char) -> (result: Vec<Vec<char>>)
    ensures
        views(result@) == split(chars@, sep),
{
    let mut result: Vec<Vec<char>> = Vec::new();
    let mut part: Vec<char> = Vec::new();
    let mut start: Ghost<int> = Ghost(0);
    let mut i: usize = 0;
    proof {
        assert(chars@.skip(0) =~= chars@);
        assert(views(result@) + split(chars@, sep) =~= split(chars@, sep));
        assert(part@ =~= chars@.subrange(0, 0));
    }
    while i < chars.len()
        invariant
            0 <= start@ <= i <= chars.len(),
            part@ == chars@.subrange(start@, i as int),
            forall|k: int| start@ <= k < i ==> chars@[k] != sep,
            views(result@) + split(chars@.skip(start@), sep) == split(chars@, sep),
        decreases chars.len() - i,
    {
        if chars[i] == sep {
            proof {
                let rest = chars@.skip(start@);
                lemma_piece_len_is(rest, sep, (i - start@) as nat);
                assert(rest.take(i - start@) =~= part@);
                assert(rest.skip(i - start@ + 1) =~= chars@.skip(i + 1));
                assert(views(result@.push(part)) =~= views(result@).push(part@));
                assert(views(result@) + (seq![part@] + split(chars@.skip(i + 1), sep)) =~= views(
                    result@,
                ).push(part@) + split(chars@.skip(i + 1), sep));
                start@ = i + 1;
            }
            result.push(part);
            part = Vec::new();
            assert(part@ =~= chars@.subrange(i + 1, i + 1));
        } else {
            assert(chars@.subrange(start@, i + 1) =~= chars@.subrange(start@, i as int).push(
                chars@[i as int],
            ));
            part.push(chars[i]);
        }
        i += 1;
    }
    proof {
        let rest = chars@.skip(start@);
        lemma_piece_len_is(rest, sep, rest.len());
        assert(rest =~= part@);
        assert(views(result@.push(part)) =~= views(result@) + seq![part@]);
    }
    result.push(part);
    result
}

/// The texts one after another, with `sep` between them.
pub open spec fn join(parts: Seq<Seq<char>>, sep: char) -> Seq<char>
    decreases parts.len(),
{
    if parts.len() == 0 {
        Seq::empty()
    } else if parts.len() == 1 {
        parts[0]
    } else {
        parts[0].push(sep) + join(parts.drop_first(), sep)
    }
}

/// Adding one more text to joined texts adds the separator and that text.
pub proof fn lemma_join_push(parts: Seq<Seq<char>>, last: Seq<char>, sep: char)
    ensures
        join(parts.push(last), sep) == (if parts.len() == 0 {
            last
        } else {
            join(parts, sep).push(sep) + last
        }),
    decreases parts.len(),
{
    let all = parts.push(last);
    if parts.len() > 0 {
        let rest = parts.drop_first();
        assert(all.drop_first() =~= rest.push(last));
        lemma_join_push(rest, last, sep);
        assert(join(all, sep) =~= join(parts, sep).push(sep) + last);
    }
}

/// Splitting joined texts gives them back, if none of them holds the separator.
pub proof fn split_undoes_join(parts: Seq<Seq<char>>, sep: char)
    requires
        parts.len() > 0,
        forall|i: int, k: int|
            0 <= i < parts.len() && 0 <= k < parts[i].len() ==> #[trigger] parts[i][k] != sep,
    ensures
        split(join(parts, sep), sep) == parts,
    decreases parts.len(),
{
    let first = parts[0];
    let whole = join(parts, sep);
    if parts.len() == 1 {
        lemma_piece_len_is(whole, sep, whole.len());
        assert(seq![whole] =~= parts);
    } else {
        let rest = parts.drop_first();
        assert forall|i: int, k: int|
            0 <= i < rest.len() && 0 <= k < rest[i].len() implies #[trigger] rest[i][k] != sep by {
            assert(rest[i][k] == parts[i + 1][k]);
        }
        split_undoes_join(rest, sep);
        assert forall|k: int| 0 <= k < first.len() implies #[trigger] whole[k] != sep by {
            assert(whole[k] == parts[0][k]);
        }
        lemma_piece_len_is(whole, sep, first.len());
        assert(whole.take(first.len() as int) =~= first);
        assert(whole.skip(first.len() as int + 1) =~= join(rest, sep));
        assert(seq![first] + rest =~= parts);
    }
}

/// The words of texts joined by spaces are those texts, if none of them is
/// empty or holds white space.
pub proof fn words_undo_join(parts: Seq<Seq<char>>)
    requires
        forall|i: int| 0 <= i < parts.len() ==> (#[trigger] parts[i]).len() > 0,
        forall|i: int, k: int|
            0 <= i < parts.len() && 0 <= k < parts[i].len() ==> !is_space(#[trigger] parts[i][k]),
    ensures
        words(join(parts, ' ')) == parts,
    decreases parts.len(),
{
    let whole = join(parts, ' ');
    if parts.len() == 0 {
    } else if parts.len() == 1 {
        assert(whole =~= parts[0]);
        lemma_word_len_is(whole, whole.len());
        assert(!is_space(whole[0]));
        assert(whole.take(whole.len() as int) =~= whole);
        assert(words(whole.skip(whole.len() as int)) =~= Seq::<Seq<char>>::empty());
        assert(words(whole) =~= parts);
    } else {
        let first = parts[0];
        let rest = parts.drop_first();
        assert forall|i: int, k: int| 0 <= i < rest.len() && 0 <= k < rest[i].len() implies !is_space(
            #[trigger] rest[i][k],
        ) by {
            assert(rest[i][k] == parts[i + 1][k]);
        }
        assert forall|i: int| 0 <= i < rest.len() implies (#[trigger] rest[i]).len() > 0 by {
            assert(rest[i] == parts[i + 1]);
        }
        words_undo_join(rest);
        assert forall|k: int| 0 <= k < first.len() implies !is_space(#[trigger] whole[k]) by {
            assert(whole[k] == parts[0][k]);
        }
        lemma_word_len_is(whole, first.len());
        assert(!is_space(whole[0]));
        assert(whole.take(first.len() as int) =~= first);
        let tail = whole.skip(first.len() as int);
        assert(is_space(tail[0]));
        assert(tail.drop_first() =~= join(rest, ' '));
        assert(words(tail) == words(tail.drop_first()));
        assert(words(whole) =~= seq![first] + words(tail));
        assert(words(whole) =~= parts);
    }
}

/// The text without the white space around it.
pub open spec fn trimmed(s: Seq<char>) -> Seq<char>
    decreases s.len(),
{
    if s.len() == 0 {
        s
    } else if is_space(s[0]) {
        trimmed(s.drop_first())
    } else if is_space(s.last()) {
        trimmed(s.drop_last())
    } else {
        s
    }
}

/// Removes leading and trailing white space.
pub fn trim(chars: &Vec<char>) -> (result: Vec<char>)
    ensures
        result@ == trimmed(chars@),
{
    let mut start: usize = 0;
    let mut end: usize = chars.len();
    assert(chars@.subrange(0, chars@.len() as int) =~= chars@);
    while start < end && space(chars[start])
        invariant
            start <= end == chars.len(),
            trimmed(chars@) == trimmed(chars@.subrange(start as int, end as int)),
        decreases end - start,
    {
        assert(chars@.subrange(start as int, end as int).drop_first() =~= chars@.subrange(
            start + 1,
            end as int,
        ));
        start += 1;
    }
    while start < end && space(chars[end - 1])
        invariant
            start <= end <= chars.len(),
            trimmed(chars@) == trimmed(chars@.subrange(start as int, end as int)),
            start < end ==> !is_space(chars@[start as int]),
        decreases end - start,
    {
        assert(chars@.subrange(start as int, end as int).drop_last() =~= chars@.subrange(
            start as int,
            end - 1,
        ));
        end -= 1;
    }
    proof {
        let kept = chars@.subrange(start as int, end as int);
        if start < end {
            assert(kept[0] == chars@[start as int]);
            assert(kept.last() == chars@[end - 1]);
        }
        assert(trimmed(kept) == kept);
    }
    slice(chars, start, end)
}

/// The characters from `start` up to `end`.
pub fn slice(chars: &Vec<char>, start: usize, end: usize) -> (result: Vec<char>)
    requires
        start <= end <= chars.len(),
    ensures
        result@ == chars@.subrange(start as int, end as int),
{
    let mut result: Vec<char> = Vec::new();
    let mut i: usize = start;
    while i < end
        invariant
            start <= i <= end <= chars.len(),
            result@ == chars@.subrange(start as int, i as int),
        decreases end - i,
    {
        assert(chars@.subrange(start as int, i + 1) =~= chars@.subrange(start as int, i as int).push(
            chars@[i as int],
        ));
        result.push(chars[i]);
        i += 1;
    }
    result
}

/// Whether `pattern` stands in `s` at `at`.
pub open spec fn occurs_at(s: Seq<char>, pattern: Seq<char>, at: int) -> bool {
    0 <= at && at + pattern.len() <= s.len() && s.subrange(at, at + pattern.len()) == pattern
}

/// What follows `prefix` in a text that starts with it.
pub open spec fn stripped(s: Seq<char>, prefix: Seq<char>) -> Option<Seq<char>> {
    if occurs_at(s, prefix, 0) {
        Some(s.skip(prefix.len() as int))
    } else {
        None
    }
}

/// Where `pattern` first occurs in `s` at or after `from`.
pub open spec fn first_occurrence(s: Seq<char>, pattern: Seq<char>, from: int) -> Option<int>
    decreases s.len() + 1 - from,
{
    if from > s.len() {
        None
    } else if occurs_at(s, pattern, from) {
        Some(from)
    } else {
        first_occurrence(s, pattern, from + 1)
    }
}

/// Whether `pattern` stands in the text at `at`.
fn stands_at(chars: &Vec<char>, pattern: &Vec<char>, at: usize) -> (found: bool)
    requires
        at <= chars.len(),
    ensures
        found == occurs_at(chars@, pattern@, at as int),
{
    if pattern.len() > chars.len() - at {
        return false;
    }
    let mut k: usize = 0;
    while k < pattern.len()
        invariant
            k <= pattern.len(),
            at + pattern.len() <= chars.len(),
            forall|j: int| 0 <= j < k ==> chars@[at + j] == pattern@[j],
        decreases pattern.len() - k,
    {
        if chars[at + k] != pattern[k] {
            assert(chars@.subrange(at as int, at + pattern@.len())[k as int] != pattern@[k as int]);
            return false;
        }
        k += 1;
    }
    assert(chars@.subrange(at as int, at + pattern@.len()) =~= pattern@);
    true
}

/// What follows `prefix` in a text that starts with it.
pub fn strip_prefix(chars: &Vec<char>, prefix: &str) -> (rest: Option<Vec<char>>)
    ensures
        match rest {
            Some(chars_left) => stripped(chars@, prefix@) == Some(chars_left@),
            None => stripped(chars@, prefix@) is None,
        },
{
    let pattern: Vec<char> = chars_of(prefix);
    if stands_at(chars, &pattern, 0) {
        let rest: Vec<char> = slice(chars, pattern.len(), chars.len());
        assert(rest@ =~= chars@.skip(prefix@.len() as int));
        Some(rest)
    } else {
        None
    }
}

/// Where `pattern` first occurs in the text.
pub fn find_text(chars: &Vec<char>, pattern: &str) -> (place: Option<usize>)
    ensures
        match place {
            Some(at) => first_occurrence(chars@, pattern@, 0) == Some(at as int) && at
                + pattern@.len() <= chars@.len(),
            None => first_occurrence(chars@, pattern@, 0) is None,
        },
{
    let wanted: Vec<char> = chars_of(pattern);
    let mut at: usize = 0;
    loop
        invariant
            at <= chars.len(),
            wanted@ == pattern@,
            first_occurrence(chars@, pattern@, 0) == first_occurrence(chars@, pattern@, at as int),
        decreases chars.len() - at,
    {
        if stands_at(chars, &wanted, at) {
            return Some(at);
        }
        if at == chars.len() {
            assert(first_occurrence(chars@, pattern@, at + 1) is None);
            return None;
        }
        at += 1;
    }
}

/// The ASCII lower-case form of a character.
pub open spec fn lower(ch: char) -> char {
    if 'A' <= ch <= 'Z' {
        (ch as int + 32) as char
    } else {
        ch
    }
}

/// The ASCII lower-case form of every character.
pub open spec fn lowered(s: Seq<char>) -> Seq<char> {
    Seq::new(s.len(), |i: int| lower(s[i]))
}

pub fn lower_char(ch: char) -> (result: char)
    ensures
        result == lower(ch),
{
    if ch >= 'A' && ch <= 'Z' {
        ((ch as u32 + 32) as u8) as char
    } else {
        ch
    }
}

/// Turns ASCII upper-case letters into lower-case ones.
pub fn lowercase(chars: &Vec<char>) -> (result: Vec<char>)
    ensures
        result@ == lowered(chars@),
{
    let mut result: Vec<char> = Vec::new();
    let mut i: usize = 0;
    while i < chars.len()
        invariant
            i <= chars.len(),
            result@ == lowered(chars@).take(i as int),
        decreases chars.len() - i,
    {
        assert(lowered(chars@).take(i + 1) =~= lowered(chars@).take(i as int).push(
            lower(chars@[i as int]),
        ));
        result.push(lower_char(chars[i]));
        i += 1;
    }
    assert(lowered(chars@).take(i as int) =~= lowered(chars@));
    result
}

/// The digit character of a number below ten.
pub open spec fn digit(n: nat) -> char {
    ('0' as int + n) as char
}

/// The decimal numeral of a number, without leading zeros.
pub open spec fn decimal(n: nat) -> Seq<char>
    decreases n,
{
    if n < 10 {
        seq![digit(n)]
    } else {
        decimal(n / 10).push(digit(n % 10))
    }
}

/// The decimal numeral of an integer, with a leading minus sign if it is negative.
pub open spec fn decimal_int(n: int) -> Seq<char> {
    if n < 0 {
        seq!['-'] + decimal((-n) as nat)
    } else {
        decimal(n as nat)
    }
}

/// Appends the decimal numeral of `n`.
pub fn push_u128(text: &mut String, n: u128)
    ensures
        final(text)@ == old(text)@ + decimal(n as nat),
    decreases n,
{
    if n >= 10 {
        push_u128(text, n / 10);
    }
    text.push((48u8 + (n % 10) as u8) as char);
    assert(text@ =~= old(text)@ + decimal(n as nat));
}

/// Appends the decimal numeral of `n`.
pub fn push_u64(text: &mut String, n: u64)
    ensures
        final(text)@ == old(text)@ + decimal(n as nat),
{
    push_u128(text, n as u128);
}

/// Appends the decimal numeral of `n`, which may be negative.
pub fn push_i32(text: &mut String, n: i32)
    ensures
        final(text)@ == old(text)@ + decimal_int(n as int),
{
    if n < 0 {
        text.push('-');
        let size: u64 = (-(n as i64)) as u64;
        push_u64(text, size);
        assert(text@ =~= old(text)@ + decimal_int(n as int));
    } else {
        push_u64(text, n as u64);
    }
}

/// Whether a character is a decimal digit.
pub open spec fn is_digit(ch: char) -> bool {
    '0' <= ch <= '9'
}

/// The value of a decimal digit.
pub open spec fn digit_value(ch: char) -> nat {
    (ch as int - '0' as int) as nat
}

/// The value of a sequence of digits.
pub open spec fn digits_value(s: Seq<char>) -> nat
    decreases s.len(),
{
    if s.len() == 0 {
        0
    } else {
        digits_value(s.drop_last()) * 10 + digit_value(s.last())
    }
}

/// The digits of an unsigned numeral: what follows an optional plus sign.
pub open spec fn numeral_digits(s: Seq<char>) -> Seq<char> {
    if s.len() > 0 && s[0] == '+' {
        s.skip(1)
    } else {
        s
    }
}

/// The number that a text denotes: an optional plus sign and at least one
/// digit, with a value of at most `max`.
pub open spec fn parsed_number(s: Seq<char>, max: nat) -> Option<nat> {
    let digits = numeral_digits(s);
    if digits.len() > 0 && (forall|k: int| 0 <= k < digits.len() ==> is_digit(#[trigger] digits[k]))
        && digits_value(digits) <= max {
        Some(digits_value(digits))
    } else {
        None
    }
}

/// More digits never make a numeral smaller.
proof fn lemma_digits_prefix(s: Seq<char>, k: int)
    requires
        0 <= k <= s.len(),
    ensures
        digits_value(s.take(k)) <= digits_value(s),
    decreases s.len() - k,
{
    if k < s.len() {
        lemma_digits_prefix(s, k + 1);
        assert(s.take(k + 1).drop_last() =~= s.take(k));
    } else {
        assert(s.take(k) =~= s);
    }
}

/// Parses an unsigned decimal number of at most `max`.
pub fn parse_u64_max(chars: &Vec<char>, max: u64) -> (result: Option<u64>)
    ensures
        match result {
            Some(value) => parsed_number(chars@, max as nat) == Some(value as nat),
            None => parsed_number(chars@, max as nat) is None,
        },
{
    let start: usize = if chars.len() > 0 && chars[0] == '+' {
        1
    } else {
        0
    };
    let ghost digits = numeral_digits(chars@);
    assert(digits =~= chars@.skip(start as int));
    if start == chars.len() {
        return None;
    }
    let mut value: u64 = 0;
    let mut i: usize = start;
    assert(digits.take(0) =~= Seq::<char>::empty());
    while i < chars.len()
        invariant
            start <= i <= chars.len(),
            start <= 1,
            digits == numeral_digits(chars@),
            digits == chars@.skip(start as int),
            digits.len() > 0,
            forall|k: int| 0 <= k < i - start ==> is_digit(#[trigger] digits[k]),
            value == digits_value(digits.take(i - start)),
            value <= max,
        decreases chars.len() - i,
    {
        let ch: char = chars[i];
        assert(digits[i - start] == ch);
        if ch < '0' || ch > '9' {
            return None;
        }
        let d: u64 = ch as u64 - '0' as u64;
        proof {
            assert(digits.take(i - start + 1).drop_last() =~= digits.take(i - start));
            lemma_digits_prefix(digits, i - start + 1);
        }
        if value > (max / 10) || (value == max / 10 && d > max % 10) {
            return None;
        }
        value = value * 10 + d;
        i += 1;
    }
    assert(digits.take(i - start) =~= digits);
    Some(value)
}

/// A decimal numeral consists of digits and denotes the number it was made from.
pub proof fn lemma_decimal(n: nat)
    ensures
        decimal(n).len() > 0,
        forall|k: int| 0 <= k < decimal(n).len() ==> is_digit(#[trigger] decimal(n)[k]),
        digits_value(decimal(n)) == n,
    decreases n,
{
    if n < 10 {
        let s = decimal(n);
        assert(s.drop_last() =~= Seq::<char>::empty());
        assert(digits_value(s.drop_last()) == 0);
    } else {
        lemma_decimal(n / 10);
        assert(decimal(n).drop_last() =~= decimal(n / 10));
    }
}

/// Reading back the numeral of a number gives that number.
pub proof fn decimal_round_trip(n: nat, max: nat)
    requires
        n <= max,
    ensures
        parsed_number(decimal(n), max) == Some(n),
{
    lemma_decimal(n);
    assert(is_digit(decimal(n)[0]));
}

} // verus!
