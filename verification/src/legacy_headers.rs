//! The older field syntax: `key=value` pairs separated by semicolons.

use crate::fields::FieldMap;
use crate::text::{
    char_is_whitespace, chars_of, find_char, first_index, lemma_first_index_is_first,
    lemma_split_keeps, split_segments, text_of,
};
use vstd::prelude::*;

verus! {

/// How many characters of white space `s` begins with.
pub open spec fn leading_whitespace(s: Seq<char>) -> nat
    decreases s.len(),
{
    if s.len() > 0 && char_is_whitespace(s[0]) {
        1 + leading_whitespace(s.drop_first())
    } else {
        0
    }
}

/// How many characters of white space `s` ends with.
pub open spec fn trailing_whitespace(s: Seq<char>) -> nat
    decreases s.len(),
{
    if s.len() > 0 && char_is_whitespace(s.last()) {
        1 + trailing_whitespace(s.drop_last())
    } else {
        0
    }
}

/// `s` without the white space at its two ends.
pub open spec fn trimmed(s: Seq<char>) -> Seq<char> {
    let rest = s.skip(leading_whitespace(s) as int);
    rest.take(rest.len() - trailing_whitespace(rest))
}

/// `v` without the pair of double or single quotes around it, if it has one.
pub open spec fn unquoted(v: Seq<char>) -> Seq<char> {
    if v.len() >= 2 && ((v[0] == '"' && v.last() == '"') || (v[0] == '\'' && v.last() == '\'')) {
        v.subrange(1, v.len() - 1)
    } else {
        v
    }
}

/// The key and value that one segment gives: with the segment trimmed, the
/// key is what stands before the first `=` and the value what stands after
/// it, both trimmed and the value unquoted. A segment without `=` gives nothing.
pub open spec fn legacy_pair(segment: Seq<char>) -> Option<(Seq<char>, Seq<char>)> {
    let pair = trimmed(segment);
    let eq = first_index(pair, '=');
    if 0 <= eq < pair.len() {
        Some((trimmed(pair.take(eq)), unquoted(trimmed(pair.skip(eq + 1)))))
    } else {
        None
    }
}

/// The fields that a run of segments gives; a key that comes again takes the later value.
pub open spec fn legacy_fields_of(segments: Seq<Seq<char>>) -> Map<Seq<char>, Seq<char>>
    decreases segments.len(),
{
    if segments.len() == 0 {
        Map::empty()
    } else {
        let before = legacy_fields_of(segments.drop_last());
        match legacy_pair(segments.last()) {
            Some((key, value)) => before.insert(key, value),
            None => before,
        }
    }
}

/// The fields of a line in the older syntax: nothing for a line without `=`,
/// else the fields of its semicolon-separated segments.
pub open spec fn legacy_structured_fields(input: Seq<char>) -> Option<Map<Seq<char>, Seq<char>>> {
    if input.contains('=') {
        Some(legacy_fields_of(split_segments(input, ';')))
    } else {
        None
    }
}

/// Trimming keeps every character that is no white space.
pub proof fn lemma_trimmed_keeps(s: Seq<char>, p: int)
    requires
        0 <= p < s.len(),
        !char_is_whitespace(s[p]),
    ensures
        trimmed(s).contains(s[p]),
{
    lemma_leading_stops(s, p);
    let lead = leading_whitespace(s) as int;
    let rest = s.skip(lead);
    assert(rest[p - lead] == s[p]);
    lemma_trailing_stops(rest, p - lead);
    let kept = rest.take(rest.len() - trailing_whitespace(rest));
    assert(kept[p - lead] == s[p]);
}

proof fn lemma_leading_stops(s: Seq<char>, p: int)
    requires
        0 <= p < s.len(),
        !char_is_whitespace(s[p]),
    ensures
        leading_whitespace(s) <= p,
    decreases p,
{
    if p > 0 && char_is_whitespace(s[0]) {
        lemma_leading_stops(s.drop_first(), p - 1);
    }
}

proof fn lemma_trailing_stops(s: Seq<char>, p: int)
    requires
        0 <= p < s.len(),
        !char_is_whitespace(s[p]),
    ensures
        trailing_whitespace(s) <= s.len() - 1 - p,
    decreases s.len() - p,
{
    if p < s.len() - 1 && char_is_whitespace(s.last()) {
        lemma_trailing_stops(s.drop_last(), p);
    }
}

/// A segment that holds an `=` gives a field.
pub proof fn lemma_segment_with_equals_gives_a_pair(segment: Seq<char>)
    requires
        segment.contains('='),
    ensures
        legacy_pair(segment) is Some,
{
    let p = segment.index_of('=');
    lemma_trimmed_keeps(segment, p);
    let pair = trimmed(segment);
    lemma_first_index_is_first(pair, '=');
    if first_index(pair, '=') >= pair.len() {
        let q = pair.index_of('=');
        assert(pair[q] != '=');
    }
}

/// Segments of which one gives a field give at least one field.
pub proof fn lemma_fields_are_kept(segments: Seq<Seq<char>>, k: int)
    requires
        0 <= k < segments.len(),
        legacy_pair(segments[k]) is Some,
    ensures
        exists|key: Seq<char>| legacy_fields_of(segments).contains_key(key),
    decreases segments.len(),
{
    let before = legacy_fields_of(segments.drop_last());
    match legacy_pair(segments.last()) {
        Some((key, value)) => {
            assert(legacy_fields_of(segments).contains_key(key));
        },
        None => {
            lemma_fields_are_kept(segments.drop_last(), k);
            let key = choose|key: Seq<char>| before.contains_key(key);
            assert(legacy_fields_of(segments).contains_key(key));
        },
    }
}

/// A line that holds an `=` always gives at least one field: the line is
/// never in the older syntax and empty-handed.
pub proof fn lemma_equals_gives_a_field(input: Seq<char>)
    requires
        input.contains('='),
    ensures
        legacy_structured_fields(input) is Some,
        exists|key: Seq<char>| legacy_structured_fields(input).unwrap().contains_key(key),
        legacy_structured_fields(input).unwrap() != Map::<Seq<char>, Seq<char>>::empty(),
{
    let segments = split_segments(input, ';');
    lemma_split_keeps(input, ';', '=');
    let k = choose|k: int| 0 <= k < segments.len() && (#[trigger] segments[k]).contains('=');
    lemma_segment_with_equals_gives_a_pair(segments[k]);
    lemma_fields_are_kept(segments, k);
    let fields = legacy_fields_of(segments);
    let key = choose|key: Seq<char>| fields.contains_key(key);
    assert(legacy_structured_fields(input).unwrap().contains_key(key));
}

proof fn lemma_leading_whitespace(s: Seq<char>, k: int)
    requires
        0 <= k <= s.len(),
        forall|j: int| 0 <= j < k ==> char_is_whitespace(s[j]),
        k == s.len() || !char_is_whitespace(s[k]),
    ensures
        leading_whitespace(s) == k,
    decreases k,
{
    if k > 0 {
        lemma_leading_whitespace(s.drop_first(), k - 1);
    }
}

proof fn lemma_trailing_whitespace(s: Seq<char>, k: int)
    requires
        0 <= k <= s.len(),
        forall|j: int| s.len() - k <= j < s.len() ==> char_is_whitespace(s[j]),
        k == s.len() || !char_is_whitespace(s[s.len() - k - 1]),
    ensures
        trailing_whitespace(s) == k,
    decreases k,
{
    if k > 0 {
        lemma_trailing_whitespace(s.drop_last(), k - 1);
    }
}

/// The bounds of `chars[from..to]` without the white space at its two ends.
fn trim_range(chars: &Vec<char>, from: usize, to: usize) -> (bounds: (usize, usize))
    requires
        from <= to <= chars.len(),
    ensures
        from <= bounds.0 <= bounds.1 <= to,
        chars@.subrange(bounds.0 as int, bounds.1 as int) == trimmed(
            chars@.subrange(from as int, to as int),
        ),
{
    let mut lo: usize = from;
    while lo < to && chars[lo].is_whitespace()
        invariant
            from <= lo <= to <= chars.len(),
            forall|j: int| from <= j < lo ==> char_is_whitespace(chars[j]),
        decreases to - lo,
    {
        lo += 1;
    }
    let mut hi: usize = to;
    while hi > lo && chars[hi - 1].is_whitespace()
        invariant
            lo <= hi <= to <= chars.len(),
            forall|j: int| hi <= j < to ==> char_is_whitespace(chars[j]),
        decreases hi - lo,
    {
        hi -= 1;
    }
    proof {
        let s = chars@.subrange(from as int, to as int);
        lemma_leading_whitespace(s, lo - from);
        let rest = s.skip(lo - from);
        assert(rest =~= chars@.subrange(lo as int, to as int));
        lemma_trailing_whitespace(rest, to - hi);
        assert(rest.take(rest.len() - (to - hi)) =~= chars@.subrange(lo as int, hi as int));
    }
    (lo, hi)
}

/// Reads the segment `chars[from..to]` and writes its field, if it has one, to `fields`.
fn read_segment(chars: &Vec<char>, from: usize, to: usize, fields: &mut FieldMap<String>)
    requires
        from <= to <= chars.len(),
        old(fields).wf(),
    ensures
        final(fields).wf(),
        final(fields)@ == (match legacy_pair(chars@.subrange(from as int, to as int)) {
            Some((key, value)) => old(fields)@.insert(key, value),
            None => old(fields)@,
        }),
{
    let (lo, hi) = trim_range(chars, from, to);
    let eq = find_char(chars, lo, hi, '=');
    if eq < hi {
        let (key_lo, key_hi) = trim_range(chars, lo, eq);
        let (value_lo, value_hi) = trim_range(chars, eq + 1, hi);
        let ghost pair = chars@.subrange(lo as int, hi as int);
        let ghost value = chars@.subrange(value_lo as int, value_hi as int);
        proof {
            assert(pair.take(eq - lo) =~= chars@.subrange(lo as int, eq as int));
            assert(pair.skip(eq - lo + 1) =~= chars@.subrange(eq + 1, hi as int));
        }
        let quoted = value_hi - value_lo >= 2 && ((chars[value_lo] == '"' && chars[value_hi - 1]
            == '"') || (chars[value_lo] == '\'' && chars[value_hi - 1] == '\''));
        let key = text_of(chars, key_lo, key_hi);
        let text = if quoted {
            proof {
                assert(value.subrange(1, value.len() - 1) =~= chars@.subrange(
                    value_lo + 1,
                    value_hi - 1,
                ));
            }
            text_of(chars, value_lo + 1, value_hi - 1)
        } else {
            text_of(chars, value_lo, value_hi)
        };
        assert(text@ == unquoted(value));
        fields.insert(key, text);
    }
}

/// Whether the line holds an `=` anywhere.
pub fn has_equals(input: &str) -> (found: bool)
    ensures
        found == input@.contains('='),
{
    let chars = chars_of(input);
    let n = chars.len();
    let at = find_char(&chars, 0, n, '=');
    proof {
        if at < n {
            assert(input@[at as int] == '=');
        } else if input@.contains('=') {
            let j = input@.index_of('=');
            assert(chars[j] == '=');
        }
    }
    at < n
}

/// Reads a line in the older syntax: semicolon-separated `key=value` pairs,
/// with white space around keys and values dropped and one pair of quotes
/// around a value removed. A line without `=` is not in this syntax; a line
/// with one gives at least one field.
pub fn parse_legacy_structured_headers(input: &str) -> (fields: Option<FieldMap<String>>)
    ensures
        match fields {
            Some(map) => {
                &&& map.wf()
                &&& legacy_structured_fields(input@) == Some(map@)
                &&& input@.contains('=')
                &&& map@ != Map::<Seq<char>, Seq<char>>::empty()
            },
            None => legacy_structured_fields(input@) is None && !input@.contains('='),
        },
{
    let chars = chars_of(input);
    let n = chars.len();
    let first_eq = find_char(&chars, 0, n, '=');
    proof {
        assert(chars@.subrange(0, n as int) =~= chars@);
    }
    if first_eq == n {
        proof {
            if input@.contains('=') {
                let j = input@.index_of('=');
                assert(chars[j] == '=');
            }
        }
        return None;
    }
    assert(input@.contains('=')) by {
        assert(input@[first_eq as int] == '=');
    }
    let mut fields: FieldMap<String> = FieldMap::new();
    let mut start: usize = 0;
    let ghost mut done: Seq<Seq<char>> = Seq::empty();
    proof {
        assert(chars@.skip(0) =~= chars@);
        assert(done + split_segments(chars@.skip(0), ';') =~= split_segments(chars@, ';'));
    }
    loop
        invariant
            start <= n,
            n == chars.len(),
            chars@ == input@,
            input@.contains('='),
            fields.wf(),
            split_segments(chars@, ';') == done + split_segments(chars@.skip(start as int), ';'),
            fields@ == legacy_fields_of(done),
        decreases n - start,
    {
        let end = find_char(&chars, start, n, ';');
        let ghost rest = chars@.skip(start as int);
        let ghost segment = chars@.subrange(start as int, end as int);
        proof {
            assert(rest =~= chars@.subrange(start as int, n as int));
            assert(done.push(segment).drop_last() =~= done);
        }
        read_segment(&chars, start, end, &mut fields);
        if end == n {
            proof {
                assert(segment =~= rest);
                assert(done + seq![rest] =~= done.push(segment));
                lemma_equals_gives_a_field(input@);
            }
            return Some(fields);
        }
        proof {
            assert(rest.take(end - start) =~= segment);
            assert(rest.skip(end - start + 1) =~= chars@.skip(end + 1));
            assert(done + (seq![segment] + split_segments(chars@.skip(end + 1), ';')) =~= done.push(
                segment,
            ) + split_segments(chars@.skip(end + 1), ';'));
            done = done.push(segment);
        }
        start = end + 1;
    }
}

} // verus!
