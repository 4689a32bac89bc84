//! Text predicates the bot decides on: substring and prefix tests over characters, and
//! Unicode lower-casing.

use vstd::prelude::*;

verus! {

/// `needle` occurs in `haystack` starting at character position `i`.
pub open spec fn occurs_at(haystack: Seq<char>, needle: Seq<char>, i: int) -> bool {
    0 <= i && i + needle.len() <= haystack.len() && haystack.subrange(i, i + needle.len())
        == needle
}

/// `needle` occurs somewhere in `haystack` (the empty text occurs everywhere).
pub open spec fn has_substring(haystack: Seq<char>, needle: Seq<char>) -> bool {
    exists|i: int| #[trigger] occurs_at(haystack, needle, i)
}

/// An ASCII letter or digit: a character that continues a word.
pub open spec fn is_word_char(c: char) -> bool {
    ('a' <= c && c <= 'z') || ('A' <= c && c <= 'Z') || ('0' <= c && c <= '9')
}

/// `word` occurs in `text` at position `i` as a whole word: no letter or digit right
/// before or right after it.
pub open spec fn word_at(text: Seq<char>, word: Seq<char>, i: int) -> bool {
    &&& occurs_at(text, word, i)
    &&& (i == 0 || !is_word_char(text[i - 1]))
    &&& (i + word.len() == text.len() || !is_word_char(text[i + word.len()]))
}

/// `word` occurs in `text` as a whole word.
pub open spec fn has_word(text: Seq<char>, word: Seq<char>) -> bool {
    exists|i: int| #[trigger] word_at(text, word, i)
}

/// `text` begins with `prefix`.
pub open spec fn has_prefix(text: Seq<char>, prefix: Seq<char>) -> bool {
    prefix.len() <= text.len() && text.subrange(0, prefix.len() as int) == prefix
}

/// The Unicode lower-case form of `text`, as `str::to_lowercase` computes it.
pub uninterp spec fn unicode_lowercase(text: Seq<char>) -> Seq<char>;

/// Calls `str::to_lowercase`; claims only that the result is the named function
/// `unicode_lowercase` of the argument's characters.
#[verifier::external_body]
pub(crate) fn to_lowercase(text: &str) -> (r: String)
    ensures
        r@ == unicode_lowercase(text@),
{
    text.to_lowercase()
}

/// The characters of `text`, one per element.
pub fn chars_of(text: &str) -> (r: Vec<char>)
    ensures
        r@ == text@,
{
    let n = text.unicode_len();
    let mut out: Vec<char> = Vec::new();
    let mut i: usize = 0;
    while i < n
        invariant
            n == text@.len(),
            i <= n,
            out@ == text@.subrange(0, i as int),
        decreases n - i,
    {
        out.push(text.get_char(i));
        i += 1;
    }
    out
}

fn matches_at(h: &Vec<char>, n: &Vec<char>, i: usize) -> (r: bool)
    requires
        i + n@.len() <= h@.len(),
    ensures
        r == occurs_at(h@, n@, i as int),
{
    let hl = h.len();
    let mut j: usize = 0;
    while j < n.len()
        invariant
            hl == h@.len(),
            i + n@.len() <= h@.len(),
            j <= n@.len(),
            forall|k: int| 0 <= k < j ==> h@[i + k] == n@[k],
        decreases n@.len() - j,
    {
        if h[i + j] != n[j] {
            assert(h@.subrange(i as int, i + n@.len())[j as int] != n@[j as int]);
            return false;
        }
        j += 1;
    }
    assert(h@.subrange(i as int, i + n@.len()) =~= n@);
    true
}

/// Whether `needle` occurs in `haystack`, as `str::contains` with a `&str` pattern.
pub fn text_contains(haystack: &str, needle: &str) -> (r: bool)
    ensures
        r == has_substring(haystack@, needle@),
{
    let h = chars_of(haystack);
    let n = chars_of(needle);
    if n.len() > h.len() {
        assert forall|i: int| !occurs_at(haystack@, needle@, i) by {}
        return false;
    }
    let last = h.len() - n.len();
    let mut i: usize = 0;
    while i <= last
        invariant
            h@ == haystack@,
            n@ == needle@,
            last == h@.len() - n@.len(),
            i <= last,
            forall|k: int| 0 <= k < i ==> !occurs_at(haystack@, needle@, k),
        ensures
            forall|k: int| 0 <= k <= last ==> !occurs_at(haystack@, needle@, k),
        decreases last - i,
    {
        if matches_at(&h, &n, i) {
            return true;
        }
        if i == last {
            break;
        }
        i += 1;
    }
    assert forall|k: int| !occurs_at(haystack@, needle@, k) by {
        if 0 <= k <= last {
        }
    }
    false
}

fn is_word_char_exec(c: char) -> (r: bool)
    ensures
        r == is_word_char(c),
{
    ('a' <= c && c <= 'z') || ('A' <= c && c <= 'Z') || ('0' <= c && c <= '9')
}

/// Whether `word` occurs in `text` as a whole word, bounded on each side by the text's
/// end or by a character that is not an ASCII letter or digit.
pub fn text_contains_word(text: &str, word: &str) -> (r: bool)
    ensures
        r == has_word(text@, word@),
{
    let h = chars_of(text);
    let w = chars_of(word);
    if w.len() > h.len() {
        assert forall|i: int| !word_at(text@, word@, i) by {}
        return false;
    }
    let hl = h.len();
    let last = hl - w.len();
    let mut i: usize = 0;
    while i <= last
        invariant
            hl == h@.len(),
            h@ == text@,
            w@ == word@,
            last == h@.len() - w@.len(),
            i <= last,
            forall|k: int| 0 <= k < i ==> !word_at(text@, word@, k),
        ensures
            forall|k: int| 0 <= k <= last ==> !word_at(text@, word@, k),
        decreases last - i,
    {
        if matches_at(&h, &w, i) {
            let before_ok = i == 0 || !is_word_char_exec(h[i - 1]);
            let after_ok = i == last || !is_word_char_exec(h[i + w.len()]);
            if before_ok && after_ok {
                assert(word_at(text@, word@, i as int));
                return true;
            }
        }
        if i == last {
            break;
        }
        i += 1;
    }
    assert forall|k: int| !word_at(text@, word@, k) by {
        if 0 <= k <= last {
        }
    }
    false
}

/// Whether `text` begins with `prefix`, as `str::starts_with` with a `&str` pattern.
pub fn text_starts_with(text: &str, prefix: &str) -> (r: bool)
    ensures
        r == has_prefix(text@, prefix@),
{
    let t = chars_of(text);
    let p = chars_of(prefix);
    if p.len() > t.len() {
        return false;
    }
    let r = matches_at(&t, &p, 0);
    assert(occurs_at(t@, p@, 0) == has_prefix(text@, prefix@));
    r
}

} // verus!
