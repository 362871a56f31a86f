//! Small helpers for building and reading text one character at a time.

use vstd::prelude::*;
use vstd::std_specs::iter::IteratorSpec;

verus! {

/// `String::push` appends exactly one character to the end of the string
/// and leaves what was there before in place.
pub assume_specification[ std::string::String::push ](s: &mut std::string::String, c: char)
    ensures
        final(s)@ == old(s)@.push(c),
;

/// The position of `text` in `texts`, if it is there.
pub fn find_text(texts: &Vec<String>, text: &String) -> (found: Option<usize>)
    ensures
        match found {
            Some(i) => {
                &&& i < texts.len()
                &&& texts[i as int]@ == text@
                &&& forall|j: int| 0 <= j < i ==> texts[j]@ != text@
            },
            None => forall|j: int| 0 <= j < texts.len() ==> texts[j]@ != text@,
        },
{
    let mut i: usize = 0;
    while i < texts.len()
        invariant
            i <= texts.len(),
            forall|j: int| 0 <= j < i ==> texts[j]@ != text@,
        decreases texts.len() - i,
    {
        if texts[i] == *text {
            return Some(i);
        }
        i += 1;
    }
    None
}

/// The characters of `s`, in order.
pub fn chars_of(s: &str) -> (chars: Vec<char>)
    ensures
        chars@ == s@,
{
    let mut it = s.chars();
    let mut chars: Vec<char> = Vec::new();
    loop
        invariant
            it.obeys_prophetic_iter_laws(),
            it.decrease() is Some,
            chars@ + it.remaining() == s@,
        decreases it.decrease()->0,
    {
        let ghost rest = it.remaining();
        match it.next() {
            Some(c) => {
                chars.push(c);
                assert(chars@ + it.remaining() =~= (chars@.drop_last() + rest));
            },
            None => {
                assert(chars@ + rest =~= chars@);
                return chars;
            },
        }
    }
}

/// The text made of the characters `chars[from..to]`.
pub fn text_of(chars: &Vec<char>, from: usize, to: usize) -> (text: String)
    requires
        from <= to <= chars.len(),
    ensures
        text@ == chars@.subrange(from as int, to as int),
{
    let mut text = String::new();
    let mut i: usize = from;
    while i < to
        invariant
            from <= i <= to <= chars.len(),
            text@ == chars@.subrange(from as int, i as int),
        decreases to - i,
    {
        text.push(chars[i]);
        assert(chars@.subrange(from as int, i + 1) =~= chars@.subrange(from as int, i as int).push(
            chars@[i as int],
        ));
        i += 1;
    }
    text
}

/// Whether `c` is white space: one of the 25 characters that Unicode gives
/// the `White_Space` property.
pub open spec fn char_is_whitespace(c: char) -> bool {
    let code = c as u32;
    ||| 0x09 <= code <= 0x0d
    ||| code == 0x20
    ||| code == 0x85
    ||| code == 0xa0
    ||| code == 0x1680
    ||| 0x2000 <= code <= 0x200a
    ||| code == 0x2028
    ||| code == 0x2029
    ||| code == 0x202f
    ||| code == 0x205f
    ||| code == 0x3000
}

/// `char::is_whitespace` tells whether the character has the `White_Space`
/// property of Unicode.
pub assume_specification[ char::is_whitespace ](c: char) -> (white: bool)
    ensures
        white == char_is_whitespace(c),
;

/// The decimal digit for `d`.
pub open spec fn digit_char(d: int) -> char {
    (('0' as int) + d) as char
}

/// `n` in decimal, without leading zeros.
pub open spec fn decimal_text(n: nat) -> Seq<char>
    decreases n,
{
    if n < 10 {
        seq![digit_char(n as int)]
    } else {
        decimal_text(n / 10).push(digit_char((n % 10) as int))
    }
}

/// `n` in decimal, with a minus sign in front when it is negative.
pub open spec fn signed_decimal_text(n: int) -> Seq<char> {
    if n < 0 {
        seq!['-'] + decimal_text((-n) as nat)
    } else {
        decimal_text(n as nat)
    }
}

/// Appends `n` in decimal to `text`.
pub fn push_decimal(text: &mut String, n: u64)
    ensures
        final(text)@ == old(text)@ + decimal_text(n as nat),
    decreases n,
{
    if n >= 10 {
        push_decimal(text, n / 10);
    }
    let digit: u8 = (n % 10) as u8;
    text.push((48u8 + digit) as char);
    proof {
        if n >= 10 {
            assert(final(text)@ =~= old(text)@ + decimal_text(n as nat));
        } else {
            assert(final(text)@ =~= old(text)@ + decimal_text(n as nat));
        }
    }
}

/// Appends `n` in decimal to `text`, with a minus sign when it is negative.
pub fn push_signed_decimal(text: &mut String, n: i64)
    ensures
        final(text)@ == old(text)@ + signed_decimal_text(n as int),
{
    if n < 0 {
        text.push('-');
        let magnitude: u64 = (-(n + 1)) as u64 + 1;
        push_decimal(text, magnitude);
        assert(final(text)@ =~= old(text)@ + signed_decimal_text(n as int));
    } else {
        push_decimal(text, n as u64);
    }
}

/// The position of the first `c` in `s`, or the length of `s` if there is none.
pub open spec fn first_index(s: Seq<char>, c: char) -> int
    decreases s.len(),
{
    if s.len() == 0 || s[0] == c {
        0
    } else {
        1 + first_index(s.drop_first(), c)
    }
}

/// The parts of `s` between occurrences of `sep`. There is always at least
/// one part; a separator at an end leaves an empty part there.
pub open spec fn split_segments(s: Seq<char>, sep: char) -> Seq<Seq<char>>
    decreases s.len(),
{
    let i = first_index(s, sep);
    if 0 <= i < s.len() {
        seq![s.take(i)] + split_segments(s.skip(i + 1), sep)
    } else {
        seq![s]
    }
}

/// The first occurrence lies within the text or at its end, has the
/// character if it lies within, and has none of it before.
pub proof fn lemma_first_index_is_first(s: Seq<char>, c: char)
    ensures
        0 <= first_index(s, c) <= s.len(),
        first_index(s, c) < s.len() ==> s[first_index(s, c)] == c,
        forall|j: int| 0 <= j < first_index(s, c) ==> s[j] != c,
    decreases s.len(),
{
    if s.len() > 0 && s[0] != c {
        let rest = s.drop_first();
        lemma_first_index_is_first(rest, c);
        assert forall|j: int| 0 <= j < first_index(s, c) implies s[j] != c by {
            if j > 0 {
                assert(s[j] == rest[j - 1]);
            }
        }
    }
}

/// A character other than the separator that stands in a text stands in one
/// of its parts.
pub proof fn lemma_split_keeps(s: Seq<char>, sep: char, c: char)
    requires
        s.contains(c),
        c != sep,
    ensures
        exists|k: int|
            0 <= k < split_segments(s, sep).len() && (#[trigger] split_segments(s, sep)[k]).contains(
                c,
            ),
    decreases s.len(),
{
    lemma_first_index_is_first(s, sep);
    let i = first_index(s, sep);
    let p = s.index_of(c);
    if i < s.len() {
        let head = s.take(i);
        let rest = s.skip(i + 1);
        let parts = split_segments(rest, sep);
        if p < i {
            assert(head[p] == c);
            assert(split_segments(s, sep)[0] == head);
        } else {
            assert(rest[p - i - 1] == c);
            lemma_split_keeps(rest, sep, c);
            let k = choose|k: int| 0 <= k < parts.len() && (#[trigger] parts[k]).contains(c);
            assert(split_segments(s, sep)[k + 1] == parts[k]);
        }
    } else {
        assert(split_segments(s, sep)[0] == s);
    }
}

/// The first occurrence is where the character stands with none before it.
pub proof fn lemma_first_index(s: Seq<char>, c: char, k: int)
    requires
        0 <= k <= s.len(),
        forall|j: int| 0 <= j < k ==> s[j] != c,
        k == s.len() || s[k] == c,
    ensures
        first_index(s, c) == k,
    decreases k,
{
    if k > 0 {
        lemma_first_index(s.drop_first(), c, k - 1);
    }
}

/// The first `c` among `chars[from..to]`, or `to` if there is none.
pub fn find_char(chars: &Vec<char>, from: usize, to: usize, c: char) -> (at: usize)
    requires
        from <= to <= chars.len(),
    ensures
        from <= at <= to,
        at - from == first_index(chars@.subrange(from as int, to as int), c),
        at < to ==> chars[at as int] == c,
        forall|j: int| from <= j < at ==> chars[j] != c,
{
    let mut at: usize = from;
    while at < to && chars[at] != c
        invariant
            from <= at <= to <= chars.len(),
            forall|j: int| from <= j < at ==> chars[j] != c,
        decreases to - at,
    {
        at += 1;
    }
    proof {
        lemma_first_index(chars@.subrange(from as int, to as int), c, at - from);
    }
    at
}

} // verus!
