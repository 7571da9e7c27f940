//! Byte offsets into UTF-8 text, stated over its characters.
//!
//! The scanner walks characters and reports byte offsets. This module ties the
//! two together: the byte offset of the `i`-th character is the length of the
//! encoding of the characters before it.
use vstd::prelude::*;
use vstd::string::*;
use vstd::utf8::*;

verus! {

/// The byte offset at which the `i`-th character of `s` starts in the UTF-8
/// encoding of `s`; for `i == s.len()`, the length of the encoding.
pub open spec fn byte_offset(s: Seq<char>, i: int) -> nat {
    encode_utf8(s.take(i)).len()
}

/// The number of bytes that the UTF-8 encoding of `c` takes.
pub open spec fn spec_len_utf8(c: char) -> nat {
    if c <= '\u{7f}' {
        1
    } else if c <= '\u{7ff}' {
        2
    } else if c <= '\u{ffff}' {
        3
    } else {
        4
    }
}

/// The number of bytes that the UTF-8 encoding of `c` takes.
pub fn len_utf8(c: char) -> (n: usize)
    ensures
        n == spec_len_utf8(c),
        1 <= n <= 4,
{
    if c <= '\u{7f}' {
        1
    } else if c <= '\u{7ff}' {
        2
    } else if c <= '\u{ffff}' {
        3
    } else {
        4
    }
}

/// The encoding of one character has the length that [`spec_len_utf8`] gives.
pub proof fn lemma_encode_scalar_len(c: char)
    ensures
        encode_scalar(c as u32).len() == spec_len_utf8(c),
{
    char_is_scalar(c);
}

/// Encoding distributes over concatenation.
pub proof fn lemma_encode_concat(a: Seq<char>, b: Seq<char>)
    ensures
        encode_utf8(a + b) =~= encode_utf8(a) + encode_utf8(b),
    decreases a.len(),
{
    if a.len() == 0 {
        assert(a + b =~= b);
    } else {
        assert((a + b).drop_first() =~= a.drop_first() + b);
        assert((a + b)[0] == a[0]);
        lemma_encode_concat(a.drop_first(), b);
    }
}

/// The encoding of a sequence extended by one character.
pub proof fn lemma_encode_push(a: Seq<char>, c: char)
    ensures
        encode_utf8(a.push(c)) =~= encode_utf8(a) + encode_scalar(c as u32),
        encode_utf8(a.push(c)).len() == encode_utf8(a).len() + spec_len_utf8(c),
{
    let one = seq![c];
    assert(a.push(c) =~= a + one);
    lemma_encode_concat(a, one);
    assert(one.drop_first() =~= Seq::<char>::empty());
    assert(encode_utf8(one) =~= encode_scalar(c as u32)) by {
        reveal_with_fuel(encode_utf8, 2);
    }
    lemma_encode_scalar_len(c);
}

/// Stepping over one character moves the byte offset by that character's
/// encoded length.
pub proof fn lemma_byte_offset_step(s: Seq<char>, i: int)
    requires
        0 <= i < s.len(),
    ensures
        byte_offset(s, i + 1) == byte_offset(s, i) + spec_len_utf8(s[i]),
{
    assert(s.take(i + 1) =~= s.take(i).push(s[i]));
    lemma_encode_push(s.take(i), s[i]);
}

/// Byte offsets grow with character positions, strictly so between distinct
/// positions.
pub proof fn lemma_byte_offset_monotone(s: Seq<char>, i: int, j: int)
    requires
        0 <= i <= j <= s.len(),
    ensures
        byte_offset(s, i) + (j - i) <= byte_offset(s, j),
    decreases j - i,
{
    if i < j {
        lemma_byte_offset_monotone(s, i, j - 1);
        lemma_byte_offset_step(s, j - 1);
    }
}

/// The byte offset of the first character is zero.
pub proof fn lemma_byte_offset_zero(s: Seq<char>)
    ensures
        byte_offset(s, 0) == 0,
{
    assert(s.take(0) =~= Seq::<char>::empty());
}

/// The byte offset past the last character is the length of the encoding.
pub proof fn lemma_byte_offset_end(s: Seq<char>)
    ensures
        byte_offset(s, s.len() as int) == encode_utf8(s).len(),
{
    assert(s.take(s.len() as int) =~= s);
}

/// The encoding of a prefix ends on a character boundary of the whole encoding.
proof fn lemma_boundary_concat(a: Seq<char>, b: Seq<char>)
    ensures
        is_char_boundary(encode_utf8(a + b), encode_utf8(a).len() as int),
    decreases a.len(),
{
    let whole = a + b;
    let bytes = encode_utf8(whole);
    encode_utf8_valid_utf8(whole);
    if a.len() > 0 {
        let rest = a.drop_first();
        assert(whole.drop_first() =~= rest + b);
        assert(whole[0] == a[0]);
        encode_utf8_first_scalar(whole);
        lemma_encode_scalar_len(a[0]);
        lemma_encode_concat(a, b);
        assert(pop_first_scalar(bytes) =~= encode_utf8(rest + b));
        lemma_boundary_concat(rest, b);
        assert(encode_utf8(a).len() == encode_scalar(a[0] as u32).len() + encode_utf8(rest).len());
    }
}

/// Every character position is a character boundary of the encoding.
pub proof fn lemma_byte_offset_is_boundary(s: Seq<char>, i: int)
    requires
        0 <= i <= s.len(),
    ensures
        is_char_boundary(encode_utf8(s), byte_offset(s, i) as int),
        byte_offset(s, i) <= encode_utf8(s).len(),
{
    assert(s =~= s.take(i) + s.skip(i));
    lemma_boundary_concat(s.take(i), s.skip(i));
    lemma_encode_concat(s.take(i), s.skip(i));
}

/// Two character sequences with the same encoding are the same.
pub proof fn lemma_encode_injective(a: Seq<char>, b: Seq<char>)
    requires
        encode_utf8(a) == encode_utf8(b),
    ensures
        a == b,
{
    encode_utf8_decode_utf8(a);
    encode_utf8_decode_utf8(b);
}

/// The characters of `source`, in order.
pub fn chars_of(source: &str) -> (chars: Vec<char>)
    ensures
        chars@ == source@,
{
    let mut chars: Vec<char> = Vec::new();
    for c in it: source.chars()
        invariant
            chars@ == it.seq().take(it.index() as int),
            it.seq() == source@,
    {
        chars.push(c);
    }
    chars
}

/// Whether `text` starts with `prefix`.
pub open spec fn spec_starts_with(text: Seq<char>, prefix: Seq<char>) -> bool {
    prefix.len() <= text.len() && text.subrange(0, prefix.len() as int) == prefix
}

/// Whether `pattern` occurs in `text` at position `i`.
pub open spec fn occurs_at(text: Seq<char>, pattern: Seq<char>, i: int) -> bool {
    0 <= i && i + pattern.len() <= text.len() && text.subrange(i, i + pattern.len()) == pattern
}

/// Whether `pattern` occurs somewhere in `text`.
pub open spec fn spec_contains(text: Seq<char>, pattern: Seq<char>) -> bool {
    exists|i: int| occurs_at(text, pattern, i)
}

/// Whether `pattern` stands in `text` at position `at`, character by character.
fn matches_at(text: &Vec<char>, pattern: &Vec<char>, at: usize) -> (b: bool)
    requires
        at + pattern.len() <= text.len(),
    ensures
        b == occurs_at(text@, pattern@, at as int),
{
    let mut k: usize = 0;
    while k < pattern.len()
        invariant
            k <= pattern.len(),
            at + pattern.len() <= text.len(),
            text@.subrange(at as int, at + k) == pattern@.subrange(0, k as int),
        decreases pattern.len() - k,
    {
        if text[at + k] != pattern[k] {
            assert(text@.subrange(at as int, at + pattern.len())[k as int] != pattern@[k as int]);
            return false;
        }
        assert(text@.subrange(at as int, at + k + 1) =~= text@.subrange(at as int, at + k).push(
            text@[at + k],
        ));
        assert(pattern@.subrange(0, k + 1) =~= pattern@.subrange(0, k as int).push(
            pattern@[k as int],
        ));
        k += 1;
    }
    assert(pattern@.subrange(0, k as int) =~= pattern@);
    true
}

/// Whether `text` starts with `prefix`.
pub fn starts_with(text: &str, prefix: &str) -> (b: bool)
    ensures
        b == spec_starts_with(text@, prefix@),
{
    let text = chars_of(text);
    let prefix = chars_of(prefix);
    if prefix.len() > text.len() {
        return false;
    }
    matches_at(&text, &prefix, 0)
}

/// Whether `pattern` occurs somewhere in `text`.
pub fn contains(text: &str, pattern: &str) -> (b: bool)
    ensures
        b == spec_contains(text@, pattern@),
{
    let haystack = chars_of(text);
    let needle = chars_of(pattern);
    if needle.len() > haystack.len() {
        return false;
    }
    let last = haystack.len() - needle.len();
    let mut i: usize = 0;
    loop
        invariant
            haystack@ == text@,
            needle@ == pattern@,
            last == haystack.len() - needle.len(),
            needle.len() <= haystack.len(),
            i <= last,
            forall|j: int| 0 <= j < i ==> !occurs_at(text@, pattern@, j),
        decreases last - i,
    {
        if matches_at(&haystack, &needle, i) {
            return true;
        }
        if i == last {
            return false;
        }
        i += 1;
    }
}

/// What is left of `text` without its first `n` characters.
pub fn skip_chars(text: &str, n: usize) -> (rest: String)
    requires
        n <= text@.len(),
    ensures
        rest@ == text@.skip(n as int),
{
    let chars = chars_of(text);
    let mut rest = String::new();
    let mut i: usize = n;
    assert(rest@ =~= chars@.subrange(n as int, i as int));
    while i < chars.len()
        invariant
            n <= i <= chars.len(),
            rest@ == chars@.subrange(n as int, i as int),
        decreases chars.len() - i,
    {
        rest.push(chars[i]);
        assert(rest@ =~= chars@.subrange(n as int, i + 1));
        i += 1;
    }
    assert(chars@.subrange(n as int, i as int) =~= chars@.skip(n as int));
    rest
}

/// The part of `source` between two character positions, given by their byte
/// offsets, without copying.
pub fn substring<'a>(
    source: &'a str,
    start: usize,
    end: usize,
    Ghost(i): Ghost<int>,
    Ghost(j): Ghost<int>,
) -> (part: &'a str)
    requires
        0 <= i <= j <= source@.len(),
        start == byte_offset(source@, i),
        end == byte_offset(source@, j),
    ensures
        part@ == source@.subrange(i, j),
{
    let ghost s = source@;
    proof {
        lemma_byte_offset_is_boundary(s, j);
    }
    let (head, _) = source.split_at(end);
    proof {
        assert(s =~= s.take(j) + s.skip(j));
        lemma_encode_concat(s.take(j), s.skip(j));
        assert(encode_utf8(s).subrange(0, end as int) =~= encode_utf8(s.take(j)));
        lemma_encode_injective(head@, s.take(j));
        assert(head@.take(i) =~= s.take(i));
        lemma_byte_offset_is_boundary(head@, i);
    }
    let (_, part) = head.split_at(start);
    proof {
        let h = head@;
        assert(h =~= h.take(i) + h.skip(i));
        lemma_encode_concat(h.take(i), h.skip(i));
        assert(encode_utf8(h).subrange(start as int, encode_utf8(h).len() as int) =~= encode_utf8(
            h.skip(i),
        ));
        lemma_encode_injective(part@, h.skip(i));
        assert(h.skip(i) =~= s.subrange(i, j));
    }
    part
}

} // verus!
