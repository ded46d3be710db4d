//! Text as the table format stores it: one byte per character, padded to a
//! fixed width.

use vstd::prelude::*;

verus! {

/// `String::push` appends the given character to the end of the string.
pub assume_specification[ String::push ](s: &mut String, c: char)
    ensures
        final(s)@ == old(s)@.push(c),
;

/// The characters that `bytes` stand for, each byte taken as the code point
/// of the same number.
pub open spec fn latin1(bytes: Seq<u8>) -> Seq<char> {
    Seq::new(bytes.len(), |i: int| bytes[i] as char)
}

/// A byte that pads a field: a space or a NUL.
pub open spec fn is_padding(b: u8) -> bool {
    b == 0x20 || b == 0
}

/// The index of the first byte at or after `i` that is no padding, or the
/// length of `s` where only padding follows.
pub open spec fn skip_padding(s: Seq<u8>, i: int) -> int
    decreases s.len() - i,
{
    if i < 0 || i >= s.len() {
        s.len() as int
    } else if is_padding(s[i]) {
        skip_padding(s, i + 1)
    } else {
        i
    }
}

/// The length of the shortest prefix of the first `k` bytes of `s` after
/// which, up to `k`, only padding follows.
pub open spec fn drop_padding(s: Seq<u8>, k: int) -> int
    decreases k,
{
    if k <= 0 {
        0
    } else if k <= s.len() && is_padding(s[k - 1]) {
        drop_padding(s, k - 1)
    } else {
        k
    }
}

/// `s` without the padding at its end.
pub open spec fn trim_end(s: Seq<u8>) -> Seq<u8> {
    s.subrange(0, drop_padding(s, s.len() as int))
}

/// `s` without the padding at either end.
pub open spec fn trim(s: Seq<u8>) -> Seq<u8> {
    let end = drop_padding(s, s.len() as int);
    let start = skip_padding(s, 0);
    if start >= end {
        Seq::empty()
    } else {
        s.subrange(start, end)
    }
}

/// The index of the first NUL at or after `i`, or the length of `s` where
/// none follows.
pub open spec fn find_nul(s: Seq<u8>, i: int) -> int
    decreases s.len() - i,
{
    if i < 0 || i >= s.len() {
        s.len() as int
    } else if s[i] == 0 {
        i
    } else {
        find_nul(s, i + 1)
    }
}

/// The bytes of `s` before its first NUL.
pub open spec fn until_nul(s: Seq<u8>) -> Seq<u8> {
    s.subrange(0, find_nul(s, 0))
}

/// `drop_padding` stays within `0..=k` and stops behind a byte that is no
/// padding.
pub proof fn lemma_drop_padding(s: Seq<u8>, k: int)
    requires
        0 <= k <= s.len(),
    ensures
        0 <= drop_padding(s, k) <= k,
        drop_padding(s, k) > 0 ==> !is_padding(s[drop_padding(s, k) - 1]),
        forall|j: int| drop_padding(s, k) <= j < k ==> is_padding(#[trigger] s[j]),
    decreases k,
{
    if k > 0 && is_padding(s[k - 1]) {
        lemma_drop_padding(s, k - 1);
    }
}

/// `skip_padding` stays within `i..=len` and stops at a byte that is no
/// padding.
pub proof fn lemma_skip_padding(s: Seq<u8>, i: int)
    requires
        0 <= i <= s.len(),
    ensures
        i <= skip_padding(s, i) <= s.len(),
        skip_padding(s, i) < s.len() ==> !is_padding(s[skip_padding(s, i)]),
        forall|j: int| i <= j < skip_padding(s, i) ==> is_padding(#[trigger] s[j]),
    decreases s.len() - i,
{
    if i < s.len() && is_padding(s[i]) {
        lemma_skip_padding(s, i + 1);
    }
}

/// `find_nul` stays within `i..=len`, stops at a NUL, and passes none.
pub proof fn lemma_find_nul(s: Seq<u8>, i: int)
    requires
        0 <= i <= s.len(),
    ensures
        i <= find_nul(s, i) <= s.len(),
        find_nul(s, i) < s.len() ==> s[find_nul(s, i)] == 0,
        forall|j: int| i <= j < find_nul(s, i) ==> #[trigger] s[j] != 0,
    decreases s.len() - i,
{
    if i < s.len() && s[i] != 0 {
        lemma_find_nul(s, i + 1);
    }
}

/// The end of `bytes` without its trailing padding.
pub fn trimmed_end(bytes: &[u8]) -> (end: usize)
    ensures
        end == drop_padding(bytes@, bytes@.len() as int),
        end <= bytes@.len(),
{
    let mut k: usize = bytes.len();
    while k > 0 && (bytes[k - 1] == 0x20 || bytes[k - 1] == 0)
        invariant
            k <= bytes@.len(),
            drop_padding(bytes@, bytes@.len() as int) == drop_padding(bytes@, k as int),
        decreases k,
    {
        k = k - 1;
    }
    proof {
        lemma_drop_padding(bytes@, k as int);
    }
    k
}

/// The start of `bytes` behind its leading padding.
pub fn trimmed_start(bytes: &[u8]) -> (start: usize)
    ensures
        start == skip_padding(bytes@, 0),
        start <= bytes@.len(),
{
    let mut i: usize = 0;
    while i < bytes.len() && (bytes[i] == 0x20 || bytes[i] == 0)
        invariant
            i <= bytes@.len(),
            skip_padding(bytes@, 0) == skip_padding(bytes@, i as int),
        decreases bytes@.len() - i,
    {
        i = i + 1;
    }
    proof {
        lemma_skip_padding(bytes@, i as int);
    }
    i
}

/// The index of the first NUL in `bytes`, or its length.
pub fn nul_position(bytes: &[u8]) -> (end: usize)
    ensures
        end == find_nul(bytes@, 0),
        end <= bytes@.len(),
{
    let mut i: usize = 0;
    while i < bytes.len() && bytes[i] != 0
        invariant
            i <= bytes@.len(),
            find_nul(bytes@, 0) == find_nul(bytes@, i as int),
        decreases bytes@.len() - i,
    {
        i = i + 1;
    }
    proof {
        lemma_find_nul(bytes@, i as int);
    }
    i
}

/// The text of `bytes[from..to]`, one character per byte.
pub fn latin1_string(bytes: &[u8], from: usize, to: usize) -> (s: String)
    requires
        from <= to <= bytes@.len(),
    ensures
        s@ == latin1(bytes@.subrange(from as int, to as int)),
{
    let mut s = String::new();
    let mut i: usize = from;
    while i < to
        invariant
            from <= i <= to <= bytes@.len(),
            s@ == latin1(bytes@.subrange(from as int, i as int)),
        decreases to - i,
    {
        let c: char = bytes[i] as char;
        s.push(c);
        i = i + 1;
        assert(s@ =~= latin1(bytes@.subrange(from as int, i as int)));
    }
    assert(s@ =~= latin1(bytes@.subrange(from as int, to as int)));
    s
}

} // verus!
