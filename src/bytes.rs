//! Byte-level helpers: big-endian words, pattern search, sub-slices and
//! zero-terminated strings.
use vstd::prelude::*;

verus! {

/// Value of the big-endian word formed by four bytes.
pub open spec fn be_word(b0: u8, b1: u8, b2: u8, b3: u8) -> int {
    b0 as int * 0x1000000 + b1 as int * 0x10000 + b2 as int * 0x100 + b3 as int
}

/// Value of the big-endian word stored at position `i` of `s`.
pub open spec fn be_word_at(s: Seq<u8>, i: int) -> int {
    be_word(s[i], s[i + 1], s[i + 2], s[i + 3])
}

/// `p` occurs in `s` starting at position `i`.
pub open spec fn matches_at(s: Seq<u8>, p: Seq<u8>, i: int) -> bool {
    0 <= i && i + p.len() <= s.len() && s.subrange(i, i + p.len()) == p
}

/// `i` is the position of the first occurrence of `p` in `s`.
pub open spec fn is_first_match(s: Seq<u8>, p: Seq<u8>, i: int) -> bool {
    matches_at(s, p, i) && forall|j: int| 0 <= j < i ==> !matches_at(s, p, j)
}

/// Position of the first zero byte of `s` at or after `i`, if any.
pub open spec fn terminator(s: Seq<u8>, i: int) -> Option<int>
    decreases s.len() - i,
{
    if i < 0 || i >= s.len() {
        None
    } else if s[i] == 0 {
        Some(i)
    } else {
        terminator(s, i + 1)
    }
}

/// Each byte read as the character with the same code point.
pub open spec fn widen(b: Seq<u8>) -> Seq<char> {
    b.map_values(|x: u8| x as char)
}

/// The zero-terminated string that starts at `i`, as characters, or `None`
/// when no zero byte follows before the end of `s`.
pub open spec fn c_string_at(s: Seq<u8>, i: int) -> Option<Seq<char>> {
    match terminator(s, i) {
        Some(end) => Some(widen(s.subrange(i, end))),
        None => None,
    }
}

/// Two occurrences that are both first are the same.
pub proof fn lemma_first_match_unique(s: Seq<u8>, p: Seq<u8>, i: int, j: int)
    requires
        is_first_match(s, p, i),
        is_first_match(s, p, j),
    ensures
        i == j,
{
}

/// The big-endian word formed by four bytes.
pub fn be_u32(b0: u8, b1: u8, b2: u8, b3: u8) -> (r: u32)
    ensures
        r as int == be_word(b0, b1, b2, b3),
{
    (b0 as u32) * 0x1000000 + (b1 as u32) * 0x10000 + (b2 as u32) * 0x100 + (b3 as u32)
}

/// The big-endian word at position `i` of `s`.
pub fn read_be_u32(s: &[u8], i: usize) -> (r: u32)
    requires
        i + 4 <= s@.len(),
    ensures
        r as int == be_word_at(s@, i as int),
{
    be_u32(s[i], s[i + 1], s[i + 2], s[i + 3])
}

/// Whether `p` occurs in `s` at position `start`.
fn window_matches(s: &[u8], p: &[u8], start: usize) -> (r: bool)
    requires
        start + p@.len() <= s@.len(),
    ensures
        r == matches_at(s@, p@, start as int),
{
    let n: usize = s.len();
    let mut k: usize = 0;
    while k < p.len()
        invariant
            k <= p@.len(),
            n == s@.len(),
            start + p@.len() <= s@.len(),
            forall|m: int| 0 <= m < k ==> s@[start + m] == p@[m],
        decreases p@.len() - k,
    {
        if s[start + k] != p[k] {
            assert(s@.subrange(start as int, start + p@.len())[k as int] != p@[k as int]);
            return false;
        }
        k = k + 1;
    }
    assert(s@.subrange(start as int, start + p@.len()) =~= p@);
    true
}

/// Position of the first occurrence of a non-empty pattern.
pub fn find_bytes(content: &[u8], pattern: &[u8]) -> (r: Option<usize>)
    requires
        pattern@.len() > 0,
    ensures
        match r {
            Some(i) => is_first_match(content@, pattern@, i as int),
            None => forall|j: int| !matches_at(content@, pattern@, j),
        },
{
    if pattern.len() > content.len() {
        return None;
    }
    let n: usize = content.len();
    let last: usize = n - pattern.len();
    let mut i: usize = 0;
    while i <= last
        invariant
            n == content@.len(),
            last + pattern@.len() == content@.len(),
            pattern@.len() > 0,
            forall|j: int| 0 <= j < i ==> !matches_at(content@, pattern@, j),
        decreases last + 1 - i,
    {
        if window_matches(content, pattern, i) {
            return Some(i);
        }
        i = i + 1;
    }
    None
}

/// Copy of the `len` bytes of `content` that start at `offset`, or `None`
/// when they run past its end.
pub fn get_offset(content: &[u8], offset: usize, len: usize) -> (r: Option<Vec<u8>>)
    ensures
        match r {
            Some(v) => offset + len <= content@.len() && v@ == content@.subrange(
                offset as int,
                offset + len,
            ),
            None => offset + len > content@.len(),
        },
{
    let n: usize = content.len();
    if len > n || offset > n - len {
        return None;
    }
    let mut out: Vec<u8> = Vec::new();
    let mut k: usize = 0;
    while k < len
        invariant
            k <= len,
            n == content@.len(),
            offset + len <= content@.len(),
            out@ == content@.subrange(offset as int, offset + k),
        decreases len - k,
    {
        out.push(content[offset + k]);
        k = k + 1;
        assert(out@ =~= content@.subrange(offset as int, offset + k));
    }
    Some(out)
}

/// Relies on `String::push`: the character is appended at the end.
#[verifier::external_body]
fn push_char(s: &mut String, c: char)
    ensures
        final(s)@ == old(s)@.push(c),
{
    s.push(c)
}

/// The zero-terminated string that starts at `offset`, each byte taken as the
/// character with the same code point; `None` when the buffer ends first.
pub fn read_string(content: &[u8], offset: u64) -> (r: Option<String>)
    ensures
        match r {
            Some(t) => c_string_at(content@, offset as int) == Some(t@),
            None => c_string_at(content@, offset as int) is None,
        },
{
    if offset >= content.len() as u64 {
        return None;
    }
    let start: usize = offset as usize;
    let mut data = String::new();
    let mut i: usize = start;
    while i < content.len()
        invariant
            start <= i <= content@.len(),
            start == offset,
            terminator(content@, start as int) == terminator(content@, i as int),
            data@ == widen(content@.subrange(start as int, i as int)),
        decreases content@.len() - i,
    {
        let byte = content[i];
        if byte == 0 {
            return Some(data);
        }
        push_char(&mut data, byte as char);
        i = i + 1;
        assert(widen(content@.subrange(start as int, i as int)) =~= widen(
            content@.subrange(start as int, i - 1),
        ).push(byte as char));
    }
    None
}

} // verus!
