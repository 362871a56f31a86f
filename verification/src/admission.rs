//! What the transport asks before it lets a viewer in: whether the bucket
//! name is long enough, how many viewers the bucket may have, and whether
//! one more fits.

use crate::text::chars_of;
use vstd::prelude::*;
use vstd::string::StringSliceAdditionalSpecFns;
use vstd::utf8::encode_utf8;

verus! {

/// How many viewers a bucket may have unless its name says otherwise.
pub const MAX_SUBSCRIBERS_PER_STREAM: usize = 30;

/// The shortest bucket name that is served, in bytes.
pub const MIN_BUCKET_ID_LENGTH: usize = 10;

/// The text that introduces a viewer limit inside a bucket name.
pub open spec fn limit_marker() -> Seq<char> {
    ";max-subs="@
}

/// The position of the first occurrence of `pattern` in `s`, or the length
/// of `s` if it does not occur.
pub open spec fn find_pattern(s: Seq<char>, pattern: Seq<char>) -> int
    decreases s.len(),
{
    if s.len() >= pattern.len() && s.take(pattern.len() as int) == pattern {
        0
    } else if s.len() == 0 {
        0
    } else {
        1 + find_pattern(s.drop_first(), pattern)
    }
}

/// What stands between the first occurrence of `marker` in `id` and the
/// next one, or the end; nothing if `marker` does not occur.
pub open spec fn after_marker(id: Seq<char>, marker: Seq<char>) -> Option<Seq<char>> {
    let at = find_pattern(id, marker);
    if at + marker.len() <= id.len() {
        let rest = id.skip(at + marker.len());
        Some(rest.take(find_pattern(rest, marker)))
    } else {
        None
    }
}

/// Whether every character of `s` is a decimal digit.
pub open spec fn all_digits(s: Seq<char>) -> bool {
    forall|i: int| 0 <= i < s.len() ==> '0' <= #[trigger] s[i] <= '9'
}

/// The number that the decimal digits `s` write.
pub open spec fn digits_value(s: Seq<char>) -> nat
    decreases s.len(),
{
    if s.len() == 0 {
        0
    } else {
        (digits_value(s.drop_last()) * 10 + (s.last() as int - '0' as int)) as nat
    }
}

/// The count that `s` writes: decimal digits, at least one, with an optional
/// `+` in front, and a value that a `usize` can hold.
pub open spec fn count_of_text(s: Seq<char>) -> Option<nat> {
    let digits = if s.len() > 0 && s[0] == '+' {
        s.drop_first()
    } else {
        s
    };
    if digits.len() > 0 && all_digits(digits) && digits_value(digits) <= usize::MAX {
        Some(digits_value(digits))
    } else {
        None
    }
}

/// The number of viewers that the bucket `id` may have: the count written
/// after the limit marker in its name, or the default when there is no
/// marker or no count after it.
pub open spec fn max_subscribers_of(id: Seq<char>) -> nat {
    match after_marker(id, limit_marker()) {
        Some(text) => match count_of_text(text) {
            Some(n) => n,
            None => MAX_SUBSCRIBERS_PER_STREAM as nat,
        },
        None => MAX_SUBSCRIBERS_PER_STREAM as nat,
    }
}

proof fn lemma_find_pattern(s: Seq<char>, pattern: Seq<char>, k: int)
    requires
        0 <= k <= s.len(),
        forall|j: int|
            0 <= j < k ==> !(j + pattern.len() <= s.len() && #[trigger] s.subrange(
                j,
                j + pattern.len(),
            ) == pattern),
        (k + pattern.len() <= s.len() && s.subrange(k, k + pattern.len()) == pattern) || k
            == s.len(),
    ensures
        find_pattern(s, pattern) == k,
    decreases k,
{
    if s.len() >= pattern.len() {
        assert(s.take(pattern.len() as int) =~= s.subrange(0, 0 + pattern.len() as int));
    }
    if k > 0 {
        let rest = s.drop_first();
        assert forall|j: int| 0 <= j < k - 1 implies !(j + pattern.len() <= rest.len()
            && #[trigger] rest.subrange(j, j + pattern.len()) == pattern) by {
            if j + pattern.len() <= rest.len() {
                assert(rest.subrange(j, j + pattern.len()) =~= s.subrange(
                    j + 1,
                    j + 1 + pattern.len(),
                ));
            }
        }
        if k + pattern.len() <= s.len() {
            assert(rest.subrange(k - 1, k - 1 + pattern.len()) =~= s.subrange(
                k,
                k + pattern.len(),
            ));
        }
        lemma_find_pattern(rest, pattern, k - 1);
    }
}

proof fn lemma_digits_value_grows(s: Seq<char>, i: int)
    requires
        all_digits(s),
        0 <= i <= s.len(),
    ensures
        digits_value(s.take(i)) <= digits_value(s),
    decreases s.len() - i,
{
    if i == s.len() {
        assert(s.take(i) =~= s);
    } else {
        lemma_digits_value_grows(s, i + 1);
        assert(s.take(i + 1).drop_last() =~= s.take(i));
        assert(s.take(i + 1).last() == s[i]);
    }
}

/// Whether `pattern` stands at position `at` of `chars`.
fn matches_at(chars: &Vec<char>, at: usize, pattern: &Vec<char>) -> (found: bool)
    requires
        at + pattern.len() <= chars.len(),
    ensures
        found == (chars@.subrange(at as int, at + pattern.len()) == pattern@),
{
    let mut i: usize = 0;
    while i < pattern.len()
        invariant
            i <= pattern.len(),
            at + pattern.len() <= chars.len(),
            forall|j: int| 0 <= j < i ==> chars[at + j] == pattern[j],
        decreases pattern.len() - i,
    {
        if chars[at + i] != pattern[i] {
            proof {
                let window = chars@.subrange(at as int, at + pattern.len());
                assert(window[i as int] != pattern@[i as int]);
            }
            return false;
        }
        i += 1;
    }
    assert(chars@.subrange(at as int, at + pattern.len()) =~= pattern@);
    true
}

/// The first position from `from` on where `pattern` stands in
/// `chars[..to]`, or `to` if there is none.
fn find_from(chars: &Vec<char>, from: usize, to: usize, pattern: &Vec<char>) -> (at: usize)
    requires
        from <= to <= chars.len(),
    ensures
        from <= at <= to,
        at - from == find_pattern(chars@.subrange(from as int, to as int), pattern@),
{
    let ghost s = chars@.subrange(from as int, to as int);
    let mut at: usize = from;
    while at < to
        invariant
            from <= at <= to <= chars.len(),
            s == chars@.subrange(from as int, to as int),
            forall|j: int|
                0 <= j < at - from ==> !(j + pattern.len() <= s.len() && #[trigger] s.subrange(
                    j,
                    j + pattern.len(),
                ) == pattern@),
        decreases to - at,
    {
        if pattern.len() <= to - at {
            if matches_at(chars, at, pattern) {
                proof {
                    assert(s.subrange(at - from, at - from + pattern.len()) =~= chars@.subrange(
                        at as int,
                        at + pattern.len(),
                    ));
                    lemma_find_pattern(s, pattern@, at - from);
                }
                return at;
            }
            proof {
                assert(s.subrange(at - from, at - from + pattern.len()) =~= chars@.subrange(
                    at as int,
                    at + pattern.len(),
                ));
            }
        }
        at += 1;
    }
    proof {
        let pat = pattern@;
        assert forall|j: int| 0 <= j < to - from implies !(j + pat.len() <= s.len()
            && #[trigger] s.subrange(j, j + pat.len()) == pat) by {
            assert(!(j + pattern.len() <= s.len() && s.subrange(j, j + pattern.len())
                == pattern@));
        }
        lemma_find_pattern(s, pat, to - from);
    }
    at
}

/// Reads `chars[from..to]` as a count.
fn read_count(chars: &Vec<char>, from: usize, to: usize) -> (count: Option<usize>)
    requires
        from <= to <= chars.len(),
    ensures
        match count {
            Some(n) => count_of_text(chars@.subrange(from as int, to as int)) == Some(n as nat),
            None => count_of_text(chars@.subrange(from as int, to as int)) is None,
        },
{
    let ghost text = chars@.subrange(from as int, to as int);
    let start = if from < to && chars[from] == '+' {
        from + 1
    } else {
        from
    };
    let ghost digits = chars@.subrange(start as int, to as int);
    proof {
        if start > from {
            assert(text.drop_first() =~= digits);
        } else {
            assert(text =~= digits);
        }
    }
    if start == to {
        return None;
    }
    let mut value: usize = 0;
    let mut i: usize = start;
    while i < to
        invariant
            from <= start <= i <= to <= chars.len(),
            start < to,
            text == chars@.subrange(from as int, to as int),
            digits == chars@.subrange(start as int, to as int),
            digits == (if text.len() > 0 && text[0] == '+' {
                text.drop_first()
            } else {
                text
            }),
            all_digits(digits.take(i - start)),
            value == digits_value(digits.take(i - start)),
        decreases to - i,
    {
        let c = chars[i];
        if c < '0' || c > '9' {
            proof {
                assert(digits[i - start] == c);
            }
            return None;
        }
        let d: usize = (c as u32 - '0' as u32) as usize;
        let ghost upto = digits.take(i - start + 1);
        proof {
            assert(upto.drop_last() =~= digits.take(i - start));
            assert(upto.last() == c);
            assert forall|j: int| 0 <= j < upto.len() implies '0' <= #[trigger] upto[j] <= '9' by {
                if j < i - start {
                    assert(upto[j] == digits.take(i - start)[j]);
                }
            }
        }
        let next = match value.checked_mul(10) {
            Some(tens) => tens.checked_add(d),
            None => None,
        };
        match next {
            Some(n) => {
                value = n;
            },
            None => {
                proof {
                    assert(digits_value(upto) > usize::MAX);
                    if all_digits(digits) {
                        lemma_digits_value_grows(digits, i - start + 1);
                    }
                }
                return None;
            },
        }
        i += 1;
    }
    proof {
        assert(digits.take(to - start) =~= digits);
    }
    Some(value)
}

/// The number of viewers that the bucket `bucket_id` may have.
pub fn max_subscribers_for(bucket_id: &str) -> (limit: usize)
    ensures
        limit == max_subscribers_of(bucket_id@),
{
    let chars = chars_of(bucket_id);
    let marker = chars_of(";max-subs=");
    let n = chars.len();
    let at = find_from(&chars, 0, n, &marker);
    proof {
        assert(chars@.subrange(0, n as int) =~= chars@);
    }
    if marker.len() > n - at {
        return MAX_SUBSCRIBERS_PER_STREAM;
    }
    let start = at + marker.len();
    let end = find_from(&chars, start, n, &marker);
    proof {
        let rest = chars@.skip(start as int);
        assert(rest =~= chars@.subrange(start as int, n as int));
        assert(rest.take(end - start) =~= chars@.subrange(start as int, end as int));
    }
    match read_count(&chars, start, end) {
        Some(count) => count,
        None => MAX_SUBSCRIBERS_PER_STREAM,
    }
}

/// Whether a bucket with `live` viewers on its feed takes one more under the
/// limit `max_subscribers`.
pub fn admits(live: usize, max_subscribers: usize) -> (admitted: bool)
    ensures
        admitted == (live < max_subscribers),
{
    live < max_subscribers
}

/// The length of `text` in bytes of UTF-8, as the machine counts it.
pub open spec fn byte_length(text: Seq<char>) -> usize {
    encode_utf8(text).len() as usize
}

/// Whether the bucket name is long enough to be served.
pub fn is_served(bucket_id: &str) -> (served: bool)
    ensures
        served == (byte_length(bucket_id@) >= MIN_BUCKET_ID_LENGTH),
{
    bucket_id.len() >= MIN_BUCKET_ID_LENGTH
}

/// What to do with a request to view a bucket.
#[derive(Debug, Clone, Copy, PartialEq, Eq, Structural)]
pub enum ViewPlan {
    /// The name is too short: there is no such bucket.
    NotFound,
    /// Serve the viewer page.
    Page,
    /// Open an event stream, if the bucket has fewer live viewers than this.
    Stream { max_subscribers: usize },
}

/// Decides what to do with a request to view `bucket_id`, given whether the
/// client asked for an event stream.
pub fn plan_view(bucket_id: &str, wants_stream: bool) -> (plan: ViewPlan)
    ensures
        plan == (if byte_length(bucket_id@) < MIN_BUCKET_ID_LENGTH {
            ViewPlan::NotFound
        } else if wants_stream {
            ViewPlan::Stream { max_subscribers: max_subscribers_of(bucket_id@) as usize }
        } else {
            ViewPlan::Page
        }),
{
    if !is_served(bucket_id) {
        ViewPlan::NotFound
    } else if wants_stream {
        ViewPlan::Stream { max_subscribers: max_subscribers_for(bucket_id) }
    } else {
        ViewPlan::Page
    }
}

} // verus!
