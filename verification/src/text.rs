//! Text helpers: whitespace trimming and UTF-8 conversion.

use vstd::prelude::*;
use vstd::string::StrSliceExecFns;
use vstd::utf8::{decode_utf8, valid_utf8};

verus! {

/// Whether `c` has the Unicode `White_Space` property, as `char::is_whitespace`
/// reports it.
pub uninterp spec fn is_whitespace(c: char) -> bool;

/// Calls `char::is_whitespace`. Nothing is claimed of which characters count
/// as whitespace, only that the answer is the one named by [`is_whitespace`].
#[verifier::external_body]
fn char_is_whitespace(c: char) -> (r: bool)
    ensures
        r == is_whitespace(c),
{
    c.is_whitespace()
}

/// Calls `String::from_utf8`: the bytes become a string exactly when they are
/// well-formed UTF-8, and the string then holds the characters they encode.
#[verifier::external_body]
pub(crate) fn string_from_utf8(bytes: Vec<u8>) -> (r: Option<String>)
    ensures
        r is Some <==> valid_utf8(bytes@),
        r matches Some(s) ==> s@ == decode_utf8(bytes@),
{
    String::from_utf8(bytes).ok()
}

/// Number of whitespace characters at the front of `s`.
pub open spec fn blank_prefix(s: Seq<char>) -> int
    decreases s.len(),
{
    if s.len() == 0 || !is_whitespace(s[0]) {
        0
    } else {
        1 + blank_prefix(s.drop_first())
    }
}

/// Number of whitespace characters at the back of `s`.
pub open spec fn blank_suffix(s: Seq<char>) -> int
    decreases s.len(),
{
    if s.len() == 0 || !is_whitespace(s.last()) {
        0
    } else {
        1 + blank_suffix(s.drop_last())
    }
}

/// `s` without its leading and trailing whitespace.
pub open spec fn trimmed(s: Seq<char>) -> Seq<char> {
    let rest = s.skip(blank_prefix(s));
    rest.take(rest.len() - blank_suffix(rest))
}

/// Every character of `s` is whitespace (the empty text included).
pub open spec fn is_blank(s: Seq<char>) -> bool {
    forall|i: int| 0 <= i < s.len() ==> is_whitespace(#[trigger] s[i])
}

/// `blank_prefix` is the index of the first character that is not whitespace.
pub proof fn lemma_blank_prefix(s: Seq<char>, k: int)
    requires
        0 <= k <= s.len(),
        forall|i: int| 0 <= i < k ==> is_whitespace(#[trigger] s[i]),
        k < s.len() ==> !is_whitespace(s[k]),
    ensures
        blank_prefix(s) == k,
    decreases s.len(),
{
    if s.len() > 0 && k > 0 {
        assert(is_whitespace(s[0]));
        let t = s.drop_first();
        assert forall|i: int| 0 <= i < k - 1 implies is_whitespace(#[trigger] t[i]) by {
            assert(t[i] == s[i + 1]);
        }
        lemma_blank_prefix(t, k - 1);
    }
}

/// `blank_suffix` counts back to the last character that is not whitespace.
pub proof fn lemma_blank_suffix(s: Seq<char>, k: int)
    requires
        0 <= k <= s.len(),
        forall|i: int| k <= i < s.len() ==> is_whitespace(#[trigger] s[i]),
        k > 0 ==> !is_whitespace(s[k - 1]),
    ensures
        blank_suffix(s) == s.len() - k,
    decreases s.len(),
{
    if s.len() > 0 && k < s.len() {
        assert(is_whitespace(s.last()));
        let t = s.drop_last();
        assert forall|i: int| k <= i < t.len() implies is_whitespace(#[trigger] t[i]) by {
            assert(t[i] == s[i]);
        }
        lemma_blank_suffix(t, k);
    }
}

/// Trimming leaves nothing exactly when the text is all whitespace.
pub proof fn lemma_trimmed_empty_iff_blank(s: Seq<char>)
    ensures
        trimmed(s).len() == 0 <==> is_blank(s),
{
    lemma_blank_prefix_bounds(s);
    let a = blank_prefix(s);
    let rest = s.skip(a);
    lemma_blank_suffix_bounds(rest);
    if is_blank(s) {
        lemma_blank_prefix(s, s.len() as int);
    } else {
        let i = choose|i: int| 0 <= i < s.len() && !is_whitespace(#[trigger] s[i]);
        assert(a <= i);
        assert(rest[0] == s[a]);
        assert(blank_suffix(rest) < rest.len()) by {
            lemma_blank_suffix_short(rest);
        }
    }
}

/// The counted prefix is inside the text, made of whitespace, and stops at a
/// character that is not.
pub proof fn lemma_blank_prefix_bounds(s: Seq<char>)
    ensures
        0 <= blank_prefix(s) <= s.len(),
        forall|i: int| 0 <= i < blank_prefix(s) ==> is_whitespace(#[trigger] s[i]),
        blank_prefix(s) < s.len() ==> !is_whitespace(s[blank_prefix(s)]),
    decreases s.len(),
{
    if s.len() > 0 && is_whitespace(s[0]) {
        let t = s.drop_first();
        lemma_blank_prefix_bounds(t);
        assert forall|i: int| 0 <= i < blank_prefix(s) implies is_whitespace(#[trigger] s[i]) by {
            if i > 0 {
                assert(s[i] == t[i - 1]);
            }
        }
        if blank_prefix(s) < s.len() {
            assert(s[blank_prefix(s)] == t[blank_prefix(t)]);
        }
    }
}

/// The counted suffix is inside the text.
pub proof fn lemma_blank_suffix_bounds(s: Seq<char>)
    ensures
        0 <= blank_suffix(s) <= s.len(),
    decreases s.len(),
{
    if s.len() > 0 && is_whitespace(s.last()) {
        lemma_blank_suffix_bounds(s.drop_last());
    }
}

/// A text that starts with a character that is not whitespace has a suffix
/// count below its length.
proof fn lemma_blank_suffix_short(s: Seq<char>)
    requires
        s.len() > 0,
        !is_whitespace(s[0]),
    ensures
        blank_suffix(s) < s.len(),
    decreases s.len(),
{
    if is_whitespace(s.last()) {
        let t = s.drop_last();
        assert(t.len() > 0);
        assert(t[0] == s[0]);
        lemma_blank_suffix_short(t);
    }
}

/// Removes leading and trailing whitespace.
pub fn trim(s: &str) -> (r: &str)
    ensures
        r@ == trimmed(s@),
{
    let n = s.unicode_len();
    let mut start: usize = 0;
    while start < n && char_is_whitespace(s.get_char(start))
        invariant
            n == s@.len(),
            start <= n,
            forall|i: int| 0 <= i < start ==> is_whitespace(#[trigger] s@[i]),
        decreases n - start,
    {
        start = start + 1;
    }
    let mut end: usize = n;
    while end > start && char_is_whitespace(s.get_char(end - 1))
        invariant
            n == s@.len(),
            start <= end <= n,
            forall|i: int| end <= i < n ==> is_whitespace(#[trigger] s@[i]),
        decreases end - start,
    {
        end = end - 1;
    }
    proof {
        lemma_blank_prefix(s@, start as int);
        let rest = s@.skip(start as int);
        assert forall|i: int| end - start <= i < rest.len() implies is_whitespace(
            #[trigger] rest[i],
        ) by {
            assert(rest[i] == s@[i + start]);
        }
        if end > start {
            assert(rest[end - start - 1] == s@[end - 1]);
        } else {
        }
        lemma_blank_suffix(rest, end - start);
        assert(s@.subrange(start as int, end as int) =~= rest.take(rest.len() - blank_suffix(rest)));
    }
    s.substring_char(start, end)
}

} // verus!
