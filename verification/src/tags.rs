//! Grammars of the two kinds of reference: tags and digests.

use vstd::prelude::*;
use vstd::string::*;

verus! {

/// A lowercase letter or a digit.
pub open spec fn is_lower_alnum(c: char) -> bool {
    ('a' <= c && c <= 'z') || ('0' <= c && c <= '9')
}

/// A letter of either case or a digit.
pub open spec fn is_alnum(c: char) -> bool {
    is_lower_alnum(c) || ('A' <= c && c <= 'Z')
}

/// A character that may follow the first one of a tag.
pub open spec fn is_tag_char(c: char) -> bool {
    is_alnum(c) || c == '.' || c == '_' || c == '-'
}

/// A character that joins two groups of lowercase letters and digits: `.`,
/// `_` or `-`, and besides them `/` in a path, `+` elsewhere.
pub open spec fn is_joiner(c: char, path: bool) -> bool {
    c == '.' || c == '_' || c == '-' || (if path {
        c == '/'
    } else {
        c == '+'
    })
}

/// A character of a digest's encoded part.
pub open spec fn is_encoded_char(c: char) -> bool {
    is_alnum(c) || c == '=' || c == '_' || c == '-'
}

/// The tag grammar: 1 to 128 characters, the first a letter, a digit or an
/// underscore, the others letters, digits, `.`, `_` or `-`.
pub open spec fn tag_name_valid(s: Seq<char>) -> bool {
    &&& 1 <= s.len() <= 128
    &&& (is_alnum(s[0]) || s[0] == '_')
    &&& forall|i: int| 1 <= i < s.len() ==> is_tag_char(#[trigger] s[i])
}

/// Groups of lowercase letters and digits, exactly one joiner between two
/// groups, none at either end.
pub open spec fn groups_valid(s: Seq<char>, path: bool) -> bool {
    &&& s.len() >= 1
    &&& is_lower_alnum(s[0])
    &&& forall|i: int|
        0 <= i < s.len() ==> is_lower_alnum(#[trigger] s[i]) || (is_joiner(s[i], path) && i + 1
            < s.len() && is_lower_alnum(s[i + 1]))
}

/// The algorithm grammar: groups joined by `+`, `.`, `_` or `-`.
pub open spec fn algorithm_valid(s: Seq<char>) -> bool {
    groups_valid(s, false)
}

/// The grammar of the encoded part: one character or more, each a letter, a
/// digit, `=`, `_` or `-`.
pub open spec fn encoded_valid(s: Seq<char>) -> bool {
    &&& s.len() >= 1
    &&& forall|i: int| 0 <= i < s.len() ==> is_encoded_char(#[trigger] s[i])
}

/// `s` is an algorithm, a colon at index `p` and an encoded part.
pub open spec fn digest_splits_at(s: Seq<char>, p: int) -> bool {
    &&& 0 <= p < s.len()
    &&& s[p] == ':'
    &&& algorithm_valid(s.subrange(0, p))
    &&& encoded_valid(s.subrange(p + 1, s.len() as int))
}

/// The digest grammar: `<algorithm>:<encoded>`.
pub open spec fn digest_valid(s: Seq<char>) -> bool {
    exists|p: int| digest_splits_at(s, p)
}

/// A reference is a tag or a digest.
pub open spec fn reference_valid(s: Seq<char>) -> bool {
    tag_name_valid(s) || digest_valid(s)
}

fn byte_is_lower_alnum(b: u8) -> (r: bool)
    ensures
        r == is_lower_alnum(b as char),
{
    (b >= 97 && b <= 122) || (b >= 48 && b <= 57)
}

fn byte_is_alnum(b: u8) -> (r: bool)
    ensures
        r == is_alnum(b as char),
{
    byte_is_lower_alnum(b) || (b >= 65 && b <= 90)
}

fn byte_is_joiner(b: u8, path: bool) -> (r: bool)
    ensures
        r == is_joiner(b as char, path),
{
    b == 46 || b == 95 || b == 45 || (if path {
        b == 47
    } else {
        b == 43
    })
}

/// The length of an ASCII string, in characters.
pub(crate) fn ascii_len(s: &str) -> (n: usize)
    requires
        is_ascii(s),
    ensures
        n == s@.len(),
{
    proof {
        vstd::utf8::is_ascii_chars_encode_utf8(s@);
    }
    s.as_bytes().len()
}

/// The character at index `i` of an ASCII string.
pub(crate) fn ascii_at(s: &str, i: usize) -> (b: u8)
    requires
        is_ascii(s),
        i < s@.len(),
    ensures
        b as char == s@[i as int],
        b < 128,
{
    let b: u8 = s.get_ascii(i);
    assert('\0' <= s@[i as int] <= '\u{7f}');
    b
}

/// Whether the characters of `s` from `from` up to `to` are groups of
/// lowercase letters and digits with one joiner between two of them.
pub(crate) fn groups_ok(s: &str, from: usize, to: usize, path: bool) -> (r: bool)
    requires
        is_ascii(s),
        from <= to <= s@.len(),
    ensures
        r == groups_valid(s@.subrange(from as int, to as int), path),
{
    let ghost part = s@.subrange(from as int, to as int);
    if from == to {
        return false;
    }
    if !byte_is_lower_alnum(ascii_at(s, from)) {
        assert(part[0] == s@[from as int]);
        return false;
    }
    let mut i: usize = from;
    while i < to
        invariant
            from <= i <= to <= s@.len(),
            is_ascii(s),
            part == s@.subrange(from as int, to as int),
            forall|j: int|
                0 <= j < i - from ==> is_lower_alnum(#[trigger] part[j]) || (is_joiner(
                    part[j],
                    path,
                ) && j + 1 < part.len() && is_lower_alnum(part[j + 1])),
        decreases to - i,
    {
        let b: u8 = ascii_at(s, i);
        assert(part[i - from] == s@[i as int]);
        if !byte_is_lower_alnum(b) {
            if !byte_is_joiner(b, path) || i + 1 >= to {
                return false;
            }
            let next: u8 = ascii_at(s, i + 1);
            assert(part[i - from + 1] == s@[i + 1]);
            if !byte_is_lower_alnum(next) {
                return false;
            }
        }
        i += 1;
    }
    assert(part[0] == s@[from as int]);
    true
}

/// Whether `name` is a tag: 1 to 128 characters, the first a letter, a digit
/// or an underscore, the others letters, digits, `.`, `_` or `-`.
pub fn is_tag_name_valid(name: &str) -> (r: bool)
    ensures
        r == tag_name_valid(name@),
{
    if !name.is_ascii() {
        proof {
            if tag_name_valid(name@) {
                lemma_tag_is_ascii(name@);
            }
        }
        return false;
    }
    let n: usize = ascii_len(name);
    if n < 1 || n > 128 {
        return false;
    }
    let first: u8 = ascii_at(name, 0);
    if !(byte_is_alnum(first) || first == 95) {
        return false;
    }
    let mut i: usize = 1;
    while i < n
        invariant
            1 <= i <= n,
            n == name@.len(),
            is_ascii(name),
            forall|j: int| 1 <= j < i ==> is_tag_char(#[trigger] name@[j]),
        decreases n - i,
    {
        let b: u8 = ascii_at(name, i);
        if !(byte_is_alnum(b) || b == 46 || b == 95 || b == 45) {
            return false;
        }
        i += 1;
    }
    true
}

/// Whether `digest` is a digest: an algorithm of groups of lowercase letters
/// and digits joined by `+`, `.`, `_` or `-`, a colon, and one or more
/// letters, digits, `=`, `_` or `-`.
pub fn is_accepted_digest(digest: &str) -> (r: bool)
    ensures
        r == digest_valid(digest@),
{
    if !digest.is_ascii() {
        proof {
            if digest_valid(digest@) {
                lemma_digest_is_ascii(digest@);
            }
        }
        return false;
    }
    let n: usize = ascii_len(digest);
    let mut p: usize = 0;
    while p < n && ascii_at(digest, p) != 58
        invariant
            p <= n,
            n == digest@.len(),
            is_ascii(digest),
            forall|j: int| 0 <= j < p ==> #[trigger] digest@[j] != ':',
        decreases n - p,
    {
        p += 1;
    }
    proof {
        if digest_valid(digest@) {
            lemma_split_is_first_colon(digest@, p as int);
        }
    }
    if p >= n {
        return false;
    }
    if !groups_ok(digest, 0, p, false) {
        return false;
    }
    if p + 1 >= n {
        assert(digest@.subrange(p + 1, n as int).len() == 0);
        return false;
    }
    let ghost tail = digest@.subrange(p + 1, n as int);
    let mut i: usize = p + 1;
    while i < n
        invariant
            p < i <= n,
            n == digest@.len(),
            is_ascii(digest),
            tail == digest@.subrange(p + 1, n as int),
            digest_valid(digest@) ==> encoded_valid(tail),
            forall|j: int| 0 <= j < i - p - 1 ==> is_encoded_char(#[trigger] tail[j]),
        decreases n - i,
    {
        let b: u8 = ascii_at(digest, i);
        assert(tail[i - p - 1] == digest@[i as int]);
        if !(byte_is_alnum(b) || b == 61 || b == 95 || b == 45) {
            return false;
        }
        i += 1;
    }
    assert(digest_splits_at(digest@, p as int));
    true
}

/// Whether `reference` is a tag or a digest.
pub fn is_reference_valid(reference: &str) -> (r: bool)
    ensures
        r == reference_valid(reference@),
{
    is_tag_name_valid(reference) || is_accepted_digest(reference)
}

/// Every character of a tag is ASCII.
pub proof fn lemma_tag_is_ascii(s: Seq<char>)
    requires
        tag_name_valid(s),
    ensures
        vstd::utf8::is_ascii_chars(s),
{
    assert forall|i: int| 0 <= i < s.len() implies '\0' <= #[trigger] s[i] <= '\u{7f}' by {
        if i >= 1 {
            assert(is_tag_char(s[i]));
        }
    }
}

/// Every character of a digest is ASCII.
pub proof fn lemma_digest_is_ascii(s: Seq<char>)
    requires
        digest_valid(s),
    ensures
        vstd::utf8::is_ascii_chars(s),
{
    let p = choose|p: int| digest_splits_at(s, p);
    let head = s.subrange(0, p);
    let tail = s.subrange(p + 1, s.len() as int);
    assert forall|i: int| 0 <= i < s.len() implies '\0' <= #[trigger] s[i] <= '\u{7f}' by {
        if i < p {
            assert(head[i] == s[i]);
        } else if i > p {
            assert(tail[i - p - 1] == s[i]);
            assert(is_encoded_char(tail[i - p - 1]));
        }
    }
}

/// A digest splits at its first colon and nowhere else: with no colon
/// before index `p`, the split is at `p`, where a colon stands.
pub proof fn lemma_split_is_first_colon(s: Seq<char>, p: int)
    requires
        digest_valid(s),
        0 <= p <= s.len(),
        forall|j: int| 0 <= j < p ==> #[trigger] s[j] != ':',
        p < s.len() ==> s[p] == ':',
    ensures
        digest_splits_at(s, p),
{
    let q = choose|q: int| digest_splits_at(s, q);
    if q > p {
        let head = s.subrange(0, q);
        assert(head[p] == s[p]);
        assert(is_lower_alnum(head[p]) || is_joiner(head[p], false));
    }
}

/// No tag holds a colon.
pub proof fn lemma_tag_has_no_colon(s: Seq<char>)
    requires
        tag_name_valid(s),
    ensures
        forall|i: int| 0 <= i < s.len() ==> #[trigger] s[i] != ':',
{
    assert forall|i: int| 0 <= i < s.len() implies #[trigger] s[i] != ':' by {
        if i >= 1 {
            assert(is_tag_char(s[i]));
        }
    }
}

/// A digest holds exactly one colon: two colons of it stand at one index.
pub proof fn lemma_digest_has_one_colon(s: Seq<char>, i: int, j: int)
    requires
        digest_valid(s),
        0 <= i < s.len(),
        0 <= j < s.len(),
        s[i] == ':',
        s[j] == ':',
    ensures
        i == j,
{
    let p = choose|p: int| digest_splits_at(s, p);
    let head = s.subrange(0, p);
    let tail = s.subrange(p + 1, s.len() as int);
    if i < p {
        assert(head[i] == s[i]);
    } else if i > p {
        assert(tail[i - p - 1] == s[i]);
        assert(is_encoded_char(tail[i - p - 1]));
    }
    if j < p {
        assert(head[j] == s[j]);
    } else if j > p {
        assert(tail[j - p - 1] == s[j]);
        assert(is_encoded_char(tail[j - p - 1]));
    }
}

} // verus!
