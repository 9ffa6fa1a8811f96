//! Text as sequences of characters.
//!
//! Every function here states its result over the characters of its arguments, so that the
//! rules of the store can be written without a word about encodings.

use vstd::prelude::*;
use vstd::utf8::*;

verus! {

/// `String::push` appends one character at the end.
pub assume_specification[ String::push ](s: &mut String, c: char)
    ensures
        final(s)@ == old(s)@.push(c),
;

/// The characters of `text`, in order.
pub fn chars_of(text: &str) -> (chars: Vec<char>)
    ensures
        chars@ == text@,
{
    let mut chars: Vec<char> = Vec::new();
    for c in iter: text.chars()
        invariant
            iter.seq() == text@,
            chars@ == text@.take(iter.index() as int),
    {
        chars.push(c);
    }
    chars
}

/// The text that `chars[start..end]` spells.
pub fn text_of(chars: &Vec<char>, start: usize, end: usize) -> (text: String)
    requires
        start <= end <= chars@.len(),
    ensures
        text@ == chars@.subrange(start as int, end as int),
{
    let mut text = String::new();
    let mut i: usize = start;
    while i < end
        invariant
            start <= i <= end <= chars@.len(),
            text@ == chars@.subrange(start as int, i as int),
        decreases end - i,
    {
        text.push(chars[i]);
        i += 1;
    }
    text
}

/// The value of a single decimal digit as a character.
pub open spec fn digit(n: nat) -> char {
    (48 + n) as char
}

/// The decimal digits of `n`, most significant first, without leading zeros.
pub open spec fn decimal(n: nat) -> Seq<char>
    decreases n,
{
    if n < 10 {
        seq![digit(n)]
    } else {
        decimal(n / 10).push(digit(n % 10))
    }
}

/// Appends the decimal digits of `n` to `text`.
pub fn push_decimal(text: &mut String, n: u64)
    ensures
        final(text)@ == old(text)@ + decimal(n as nat),
    decreases n,
{
    if n >= 10 {
        push_decimal(text, n / 10);
    }
    let c: char = (48u8 + (n % 10) as u8) as char;
    text.push(c);
}

/// The decimal digits of `n`, behind a minus sign where `n` is negative.
pub open spec fn signed_decimal(n: int) -> Seq<char> {
    if n < 0 {
        seq!['-'] + decimal((-n) as nat)
    } else {
        decimal(n as nat)
    }
}

/// Appends `n` in decimal to `text`.
pub fn push_signed_decimal(text: &mut String, n: i32)
    ensures
        final(text)@ == old(text)@ + signed_decimal(n as int),
{
    if n < 0 {
        text.push('-');
        push_decimal(text, (-(n as i64)) as u64);
    } else {
        push_decimal(text, n as u64);
    }
}

/// Appends `more` to `text`.
pub fn push_text(text: &mut String, more: &str)
    ensures
        final(text)@ == old(text)@ + more@,
{
    text.append(more);
}

/// `first` followed by `second`.
pub fn joined(first: &str, second: &str) -> (text: String)
    ensures
        text@ == first@ + second@,
{
    let mut text = first.to_owned();
    text.append(second);
    text
}

/// Whether two texts have the same characters.
pub fn same_text(a: &str, b: &str) -> (same: bool)
    ensures
        same == (a@ == b@),
{
    let left = a.as_bytes();
    let right = b.as_bytes();
    proof {
        encode_utf8_decode_utf8(a@);
        encode_utf8_decode_utf8(b@);
    }
    if left.len() != right.len() {
        return false;
    }
    let mut i: usize = 0;
    while i < left.len()
        invariant
            i <= left@.len(),
            left@.len() == right@.len(),
            left@ == encode_utf8(a@),
            right@ == encode_utf8(b@),
            left@.take(i as int) == right@.take(i as int),
        decreases left@.len() - i,
    {
        if left[i] != right[i] {
            assert(left@[i as int] != right@[i as int]);
            return false;
        }
        assert(left@.take(i + 1) == left@.take(i as int).push(left@[i as int]));
        assert(right@.take(i + 1) == right@.take(i as int).push(right@[i as int]));
        i += 1;
    }
    assert(left@.take(i as int) == left@);
    assert(right@.take(i as int) == right@);
    true
}

/// The characters with the Unicode property `White_Space`.
pub open spec fn white_space(c: char) -> bool {
    ||| 0x09 <= c as u32 <= 0x0d
    ||| c as u32 == 0x20
    ||| c as u32 == 0x85
    ||| c as u32 == 0xa0
    ||| c as u32 == 0x1680
    ||| 0x2000 <= c as u32 <= 0x200a
    ||| 0x2028 <= c as u32 <= 0x2029
    ||| c as u32 == 0x202f
    ||| c as u32 == 0x205f
    ||| c as u32 == 0x3000
}

/// Whether `c` has the Unicode property `White_Space`.
pub fn is_white_space(c: char) -> (white: bool)
    ensures
        white == white_space(c),
{
    let code: u32 = c as u32;
    (0x09 <= code && code <= 0x0d) || code == 0x20 || code == 0x85 || code == 0xa0
        || code == 0x1680 || (0x2000 <= code && code <= 0x200a) || (0x2028 <= code && code
        <= 0x2029) || code == 0x202f || code == 0x205f || code == 0x3000
}

/// `s` without the white space it starts with.
pub open spec fn without_leading_space(s: Seq<char>) -> Seq<char>
    decreases s.len(),
{
    if s.len() > 0 && white_space(s[0]) {
        without_leading_space(s.drop_first())
    } else {
        s
    }
}

/// `s` without the white space it ends with.
pub open spec fn without_trailing_space(s: Seq<char>) -> Seq<char>
    decreases s.len(),
{
    if s.len() > 0 && white_space(s.last()) {
        without_trailing_space(s.drop_last())
    } else {
        s
    }
}

/// `s` without the white space around it.
pub open spec fn trimmed(s: Seq<char>) -> Seq<char> {
    without_trailing_space(without_leading_space(s))
}

/// The text without the white space around it.
pub fn trim(text: &str) -> (inner: String)
    ensures
        inner@ == trimmed(text@),
{
    let chars = chars_of(text);
    let mut start: usize = 0;
    assert(chars@.skip(0) == chars@);
    while start < chars.len() && is_white_space(chars[start])
        invariant
            start <= chars@.len(),
            without_leading_space(chars@) == without_leading_space(chars@.skip(start as int)),
        decreases chars@.len() - start,
    {
        assert(chars@.skip(start as int).drop_first() == chars@.skip(start + 1));
        start += 1;
    }
    let ghost rest = chars@.skip(start as int);
    let mut end: usize = chars.len();
    assert(chars@.subrange(start as int, end as int) == rest);
    while start < end && is_white_space(chars[end - 1])
        invariant
            start <= end <= chars@.len(),
            without_trailing_space(rest) == without_trailing_space(
                chars@.subrange(start as int, end as int),
            ),
        decreases end,
    {
        assert(chars@.subrange(start as int, end as int).drop_last() == chars@.subrange(
            start as int,
            end - 1,
        ));
        end -= 1;
    }
    text_of(&chars, start, end)
}

/// Whether nothing but white space is in `text`.
pub fn is_blank(text: &str) -> (blank: bool)
    ensures
        blank == (trimmed(text@).len() == 0),
{
    trim(text).as_str().is_empty()
}

/// `s` without the occurrences of `c` that it ends with.
pub open spec fn without_trailing(s: Seq<char>, c: char) -> Seq<char>
    decreases s.len(),
{
    if s.len() > 0 && s.last() == c {
        without_trailing(s.drop_last(), c)
    } else {
        s
    }
}

/// The text without the occurrences of `c` that it ends with.
pub fn trim_end(text: &str, c: char) -> (start: String)
    ensures
        start@ == without_trailing(text@, c),
{
    let chars = chars_of(text);
    let mut end: usize = chars.len();
    assert(chars@.take(end as int) == chars@);
    while 0 < end && chars[end - 1] == c
        invariant
            end <= chars@.len(),
            without_trailing(chars@, c) == without_trailing(chars@.take(end as int), c),
        decreases end,
    {
        assert(chars@.take(end as int).drop_last() == chars@.take(end - 1));
        end -= 1;
    }
    text_of(&chars, 0, end)
}

/// The characters of `s` in front of the first `c`, all of them where there is none.
pub open spec fn in_front_of(s: Seq<char>, c: char) -> Seq<char>
    decreases s.len(),
{
    if s.len() == 0 || s[0] == c {
        Seq::empty()
    } else {
        seq![s[0]] + in_front_of(s.drop_first(), c)
    }
}

/// The text in front of the first `c`, the whole text where there is none.
pub fn split_front(text: &str, c: char) -> (front: String)
    ensures
        front@ == in_front_of(text@, c),
{
    let chars = chars_of(text);
    let mut end: usize = 0;
    assert(chars@.skip(0) == chars@);
    while end < chars.len() && chars[end] != c
        invariant
            end <= chars@.len(),
            in_front_of(chars@, c) == chars@.take(end as int) + in_front_of(
                chars@.skip(end as int),
                c,
            ),
        decreases chars@.len() - end,
    {
        assert(chars@.skip(end as int).drop_first() == chars@.skip(end + 1));
        assert(chars@.take(end as int) + seq![chars@[end as int]] == chars@.take(end + 1));
        end += 1;
    }
    text_of(&chars, 0, end)
}

/// The lower case of an ASCII letter, every other character itself.
pub open spec fn lower(c: char) -> char {
    if 'A' <= c <= 'Z' {
        (c as u32 + 32) as char
    } else {
        c
    }
}

/// `s` with its ASCII letters in lower case.
pub open spec fn lowered(s: Seq<char>) -> Seq<char> {
    s.map_values(|c: char| lower(c))
}

/// The characters of the text with the ASCII letters in lower case.
pub fn lower_chars(text: &str) -> (chars: Vec<char>)
    ensures
        chars@ == lowered(text@),
{
    let mut chars: Vec<char> = Vec::new();
    for c in iter: text.chars()
        invariant
            iter.seq() == text@,
            chars@ == lowered(text@.take(iter.index() as int)),
    {
        let small: char = if 'A' <= c && c <= 'Z' {
            (c as u8 + 32) as char
        } else {
            c
        };
        chars.push(small);
    }
    assert(text@.take(text@.len() as int) == text@);
    chars
}

/// Whether `part` stands in `s` from index `i` on.
pub open spec fn stands_at(s: Seq<char>, part: Seq<char>, i: int) -> bool {
    0 <= i && i + part.len() <= s.len() && s.subrange(i, i + part.len()) == part
}

/// Whether `part` stands somewhere in `s`.
pub open spec fn contains_text(s: Seq<char>, part: Seq<char>) -> bool {
    exists|i: int| stands_at(s, part, i)
}

/// Whether `part` stands in `chars` from index `at` on.
fn matches_at(chars: &Vec<char>, part: &Vec<char>, at: usize) -> (found: bool)
    requires
        at + part@.len() <= chars@.len(),
    ensures
        found == stands_at(chars@, part@, at as int),
{
    let mut i: usize = 0;
    while i < part.len()
        invariant
            i <= part@.len(),
            at + part@.len() <= chars.len(),
            forall|j: int| 0 <= j < i ==> chars@[at + j] == part@[j],
        decreases part@.len() - i,
    {
        if chars[at + i] != part[i] {
            assert(chars@.subrange(at as int, at + part@.len())[i as int] != part@[i as int]);
            return false;
        }
        i += 1;
    }
    assert(chars@.subrange(at as int, at + part@.len()) == part@);
    true
}

/// Whether `part` stands somewhere in `chars`.
pub fn contains_chars(chars: &Vec<char>, part: &Vec<char>) -> (found: bool)
    ensures
        found == contains_text(chars@, part@),
{
    if part.len() > chars.len() {
        return false;
    }
    let last: usize = chars.len() - part.len();
    let mut at: usize = 0;
    loop
        invariant
            at <= last,
            last + part@.len() == chars@.len(),
            forall|i: int| 0 <= i < at ==> !stands_at(chars@, part@, i),
        decreases last - at,
    {
        if matches_at(chars, part, at) {
            return true;
        }
        if at == last {
            assert(forall|i: int| i > last ==> !stands_at(chars@, part@, i));
            return false;
        }
        at += 1;
    }
}

/// Whether two texts are the same but for the case of ASCII letters.
pub fn same_ignoring_case(a: &str, b: &str) -> (same: bool)
    ensures
        same == (lowered(a@) == lowered(b@)),
{
    let left = lower_chars(a);
    let right = lower_chars(b);
    if left.len() != right.len() {
        return false;
    }
    let same = matches_at(&left, &right, 0);
    assert(left@.subrange(0, left@.len() as int) == left@);
    same
}

/// What follows `prefix` in `text`, or nothing where `text` does not start with `prefix`.
pub open spec fn behind_prefix(text: Seq<char>, prefix: Seq<char>) -> Option<Seq<char>> {
    if prefix.is_prefix_of(text) {
        Some(text.skip(prefix.len() as int))
    } else {
        None
    }
}

/// What follows `prefix` in `text`, or nothing where `text` does not start with `prefix`.
pub fn strip_prefix(text: &str, prefix: &str) -> (rest: Option<String>)
    ensures
        match rest {
            Some(rest) => behind_prefix(text@, prefix@) == Some(rest@),
            None => behind_prefix(text@, prefix@) is None,
        },
{
    let chars = chars_of(text);
    let start = chars_of(prefix);
    if start.len() > chars.len() {
        return None;
    }
    if matches_at(&chars, &start, 0) {
        Some(text_of(&chars, start.len(), chars.len()))
    } else {
        None
    }
}

/// Whether `text` starts with `prefix`.
pub fn starts_with(text: &str, prefix: &str) -> (found: bool)
    ensures
        found == prefix@.is_prefix_of(text@),
{
    strip_prefix(text, prefix).is_some()
}

/// It makes no difference whether white space is taken off before or after a text is put in lower
/// case.
pub proof fn lemma_trimmed_lowered(s: Seq<char>)
    ensures
        trimmed(lowered(s)) == lowered(trimmed(s)),
{
    lemma_leading_lowered(s);
    lemma_trailing_lowered(without_leading_space(s));
}

proof fn lemma_leading_lowered(s: Seq<char>)
    ensures
        without_leading_space(lowered(s)) == lowered(without_leading_space(s)),
    decreases s.len(),
{
    if s.len() > 0 && white_space(s[0]) {
        assert(lowered(s).drop_first() =~= lowered(s.drop_first()));
        lemma_leading_lowered(s.drop_first());
    }
}

proof fn lemma_trailing_lowered(s: Seq<char>)
    ensures
        without_trailing_space(lowered(s)) == lowered(without_trailing_space(s)),
    decreases s.len(),
{
    if s.len() > 0 && white_space(s.last()) {
        assert(lowered(s).drop_last() =~= lowered(s.drop_last()));
        lemma_trailing_lowered(s.drop_last());
    }
}

/// A text without white space around it has none to be taken off.
pub proof fn lemma_trimmed_trimmed(s: Seq<char>)
    ensures
        trimmed(trimmed(s)) == trimmed(s),
{
    lemma_leading_gone(s);
    lemma_trailing_gone(without_leading_space(s));
}

proof fn lemma_leading_gone(s: Seq<char>)
    ensures
        without_leading_space(s).len() > 0 ==> !white_space(without_leading_space(s)[0]),
    decreases s.len(),
{
    if s.len() > 0 && white_space(s[0]) {
        lemma_leading_gone(s.drop_first());
    }
}

proof fn lemma_trailing_gone(s: Seq<char>)
    ensures
        without_trailing_space(s).len() > 0 ==> !white_space(without_trailing_space(s).last()),
        without_trailing_space(s).len() > 0 ==> without_trailing_space(s)[0] == s[0],
    decreases s.len(),
{
    if s.len() > 0 && white_space(s.last()) {
        lemma_trailing_gone(s.drop_last());
    }
}

/// What counts as white space, character by character.
pub proof fn law_white_space(c: char)
    ensures
        white_space(c) <==> {
            ||| c == '\t' || c == '\n' || c == '\u{b}' || c == '\u{c}' || c == '\r' || c == ' '
            ||| c == '\u{85}' || c == '\u{a0}' || c == '\u{1680}'
            ||| '\u{2000}' <= c <= '\u{200a}'
            ||| c == '\u{2028}' || c == '\u{2029}' || c == '\u{202f}' || c == '\u{205f}'
            ||| c == '\u{3000}'
        },
{
}

/// A trimmed text is a stretch of the text: all that stands in front of it and behind it is white
/// space, and it neither starts nor ends with any.
pub proof fn law_trimmed_is_the_inside(s: Seq<char>)
    ensures
        exists|a: int, b: int|
            0 <= a <= b <= s.len() && trimmed(s) == #[trigger] s.subrange(a, b) && (forall|k: int|
                0 <= k < a ==> white_space(#[trigger] s[k])) && (forall|k: int|
                b <= k < s.len() ==> white_space(#[trigger] s[k])),
        trimmed(s).len() > 0 ==> !white_space(trimmed(s)[0]) && !white_space(trimmed(s).last()),
{
    let rest = without_leading_space(s);
    lemma_leading_is_end(s);
    lemma_trailing_is_start(rest);
    lemma_leading_gone(s);
    lemma_trailing_gone(rest);
    let a = s.len() - rest.len();
    let b = a + trimmed(s).len();
    assert(trimmed(s) == s.subrange(a, b));
    assert forall|k: int| b <= k < s.len() implies white_space(#[trigger] s[k]) by {
        assert(rest[k - a] == s[k]);
    }
}

proof fn lemma_leading_is_end(s: Seq<char>)
    ensures
        without_leading_space(s).len() <= s.len(),
        without_leading_space(s) == s.skip(s.len() - without_leading_space(s).len()),
        forall|k: int|
            0 <= k < s.len() - without_leading_space(s).len() ==> white_space(#[trigger] s[k]),
    decreases s.len(),
{
    if s.len() > 0 && white_space(s[0]) {
        let rest = s.drop_first();
        lemma_leading_is_end(rest);
        assert forall|k: int| 0 <= k < s.len() - without_leading_space(s).len() implies white_space(
            #[trigger] s[k],
        ) by {
            if k > 0 {
                assert(rest[k - 1] == s[k]);
            }
        }
    }
}

proof fn lemma_trailing_is_start(s: Seq<char>)
    ensures
        without_trailing_space(s).len() <= s.len(),
        without_trailing_space(s) == s.take(without_trailing_space(s).len() as int),
        forall|k: int|
            without_trailing_space(s).len() <= k < s.len() ==> white_space(#[trigger] s[k]),
    decreases s.len(),
{
    if s.len() > 0 && white_space(s.last()) {
        let front = s.drop_last();
        lemma_trailing_is_start(front);
        assert forall|k: int| without_trailing_space(s).len() <= k < s.len() implies white_space(
            #[trigger] s[k],
        ) by {
            if k < front.len() {
                assert(front[k] == s[k]);
            }
        }
    }
}

/// White space around a text, however much of it, does not change what it is trimmed to.
pub proof fn law_margins_are_trimmed(before: Seq<char>, s: Seq<char>, behind: Seq<char>)
    requires
        forall|k: int| 0 <= k < before.len() ==> white_space(#[trigger] before[k]),
        forall|k: int| 0 <= k < behind.len() ==> white_space(#[trigger] behind[k]),
        s.len() > 0,
        !white_space(s[0]),
        !white_space(s.last()),
    ensures
        trimmed(before + s + behind) == s,
    decreases before.len() + behind.len(),
{
    let whole = before + s + behind;
    if before.len() > 0 {
        let less = before.drop_first();
        assert(whole.drop_first() == less + s + behind);
        assert(whole[0] == before[0]);
        assert forall|k: int| 0 <= k < less.len() implies white_space(#[trigger] less[k]) by {
            assert(less[k] == before[k + 1]);
        }
        law_margins_are_trimmed(less, s, behind);
    } else if behind.len() > 0 {
        let less = behind.drop_last();
        assert(whole == s + behind);
        assert(whole[0] == s[0]);
        assert(whole.last() == behind.last());
        assert(behind.last() == behind[behind.len() - 1]);
        assert((before + s + less)[0] == s[0]);
        assert(whole.drop_last() == before + s + less);
        assert forall|k: int| 0 <= k < less.len() implies white_space(#[trigger] less[k]) by {
            assert(less[k] == behind[k]);
        }
        law_margins_are_trimmed(before, s, less);
    } else {
        assert(whole == s);
    }
}

/// A text of nothing but white space is trimmed to nothing, and no other text is.
pub proof fn law_blank_text_is_white_space(s: Seq<char>)
    ensures
        trimmed(s).len() == 0 <==> forall|k: int| 0 <= k < s.len() ==> white_space(#[trigger] s[k]),
{
    law_trimmed_is_the_inside(s);
    let (a, b) = choose|a: int, b: int|
        0 <= a <= b <= s.len() && trimmed(s) == #[trigger] s.subrange(a, b) && (forall|k: int|
            0 <= k < a ==> white_space(#[trigger] s[k])) && (forall|k: int|
            b <= k < s.len() ==> white_space(#[trigger] s[k]));
    if trimmed(s).len() > 0 {
        assert(s[a] == trimmed(s)[0]);
    }
}

/// Lower case changes the twenty-six capital letters of ASCII, each into its small one, and
/// nothing else, wherever it stands.
pub proof fn law_lower_case(s: Seq<char>)
    ensures
        lowered(s).len() == s.len(),
        forall|i: int|
            0 <= i < s.len() && 'A' <= #[trigger] s[i] <= 'Z' ==> lowered(s)[i] as u32 - 'a' as u32
                == s[i] as u32 - 'A' as u32,
        forall|i: int|
            0 <= i < s.len() && !('A' <= #[trigger] s[i] <= 'Z') ==> lowered(s)[i] == s[i],
{
}

/// A text contains a part exactly when it is something, then the part, then something.
pub proof fn law_contained_text(s: Seq<char>, part: Seq<char>)
    ensures
        contains_text(s, part) <==> exists|before: Seq<char>, behind: Seq<char>|
            s == #[trigger] (before + part + behind),
{
    if contains_text(s, part) {
        let i = choose|i: int| stands_at(s, part, i);
        let before = s.take(i);
        let behind = s.skip(i + part.len());
        assert(s == before + part + behind);
    }
    if exists|before: Seq<char>, behind: Seq<char>| s == #[trigger] (before + part + behind) {
        let (before, behind) = choose|before: Seq<char>, behind: Seq<char>|
            s == #[trigger] (before + part + behind);
        let i = before.len() as int;
        assert(s.subrange(i, i + part.len()) == part);
        assert(stands_at(s, part, i));
    }
}

/// Only occurrences of the character are taken off the end, and all of them.
pub proof fn law_trailing_characters_go(s: Seq<char>, c: char)
    ensures
        without_trailing(s, c).is_prefix_of(s),
        forall|k: int| without_trailing(s, c).len() <= k < s.len() ==> #[trigger] s[k] == c,
        without_trailing(s, c).len() > 0 ==> without_trailing(s, c).last() != c,
    decreases s.len(),
{
    if s.len() > 0 && s.last() == c {
        let front = s.drop_last();
        law_trailing_characters_go(front, c);
        assert forall|k: int| without_trailing(s, c).len() <= k < s.len() implies #[trigger] s[k]
            == c by {
            if k < front.len() {
                assert(front[k] == s[k]);
            }
        }
    }
}

/// What stands in front of a character is the start of the text up to the first of it, which may
/// be all of the text.
pub proof fn law_front_ends_at_the_character(s: Seq<char>, c: char)
    ensures
        in_front_of(s, c).is_prefix_of(s),
        !in_front_of(s, c).contains(c),
        in_front_of(s, c).len() < s.len() ==> s[in_front_of(s, c).len() as int] == c,
    decreases s.len(),
{
    if s.len() > 0 && s[0] != c {
        let rest = s.drop_first();
        law_front_ends_at_the_character(rest, c);
        let front = in_front_of(s, c);
        assert(front.drop_first() == in_front_of(rest, c));
        assert forall|k: int| 0 <= k < front.len() implies front[k] == s[k] && front[k] != c by {
            if k > 0 {
                assert(front[k] == in_front_of(rest, c)[k - 1]);
                assert(in_front_of(rest, c).contains(front[k]));
                assert(in_front_of(rest, c)[k - 1] == rest[k - 1]);
            }
        }
        assert(front =~= s.take(front.len() as int));
    }
}

/// The number that decimal digits stand for.
pub open spec fn digits_value(digits: Seq<char>) -> int
    decreases digits.len(),
{
    if digits.len() == 0 {
        0
    } else {
        digits_value(digits.drop_last()) * 10 + (digits.last() as u32 - '0' as u32)
    }
}

/// A number in decimal is made of digits, does not start with a zero unless it is one, and stands
/// for the number.
pub proof fn law_decimal_is_the_number(n: nat)
    ensures
        digits_value(decimal(n)) == n,
        decimal(n).len() > 0,
        forall|i: int| 0 <= i < decimal(n).len() ==> '0' <= #[trigger] decimal(n)[i] <= '9',
        decimal(n).len() > 1 ==> decimal(n)[0] != '0',
        n > 0 ==> decimal(n)[0] != '0',
    decreases n,
{
    if n >= 10 {
        let front = decimal(n / 10);
        law_decimal_is_the_number(n / 10);
        assert(decimal(n).drop_last() == front);
        assert(decimal(n)[0] == front[0]);
        assert forall|i: int| 0 <= i < decimal(n).len() implies '0' <= #[trigger] decimal(n)[i]
            <= '9' by {
            if i < front.len() {
                assert(decimal(n)[i] == front[i]);
            }
        }
    } else {
        assert(decimal(n).drop_last() == Seq::<char>::empty());
        assert(digits_value(Seq::<char>::empty()) == 0);
    }
}

/// A number below zero is a minus sign and the digits of its opposite; any other is its digits.
pub proof fn law_signed_decimal_is_the_number(n: int)
    ensures
        n < 0 ==> signed_decimal(n)[0] == '-' && digits_value(signed_decimal(n).drop_first())
            == -n && signed_decimal(n).drop_first() == decimal((-n) as nat),
        n >= 0 ==> digits_value(signed_decimal(n)) == n && signed_decimal(n) == decimal(n as nat),
{
    law_decimal_is_the_number(n as nat);
    law_decimal_is_the_number((-n) as nat);
    if n < 0 {
        assert(signed_decimal(n).drop_first() =~= decimal((-n) as nat));
    }
}

/// What follows a prefix is what the prefix has to be followed by to give the text.
pub proof fn law_prefix_and_rest(text: Seq<char>, prefix: Seq<char>, rest: Seq<char>)
    ensures
        behind_prefix(text, prefix) == Some(rest) <==> text == prefix + rest,
{
    if text == prefix + rest {
        assert(prefix =~= text.take(prefix.len() as int));
        assert(text.skip(prefix.len() as int) =~= rest);
    }
    if behind_prefix(text, prefix) == Some(rest) {
        assert(text =~= prefix + rest);
    }
}

} // verus!
