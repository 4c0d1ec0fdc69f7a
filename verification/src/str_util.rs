//! Conversions between the text encodings that resource data uses.
//!
//! Text in a module comes either as bytes, one character each, or as 16-bit
//! units, one character each. In both forms a zero ends the text. Nothing here
//! reads past the slice it is given: where a slice holds no zero, the text
//! ends with the slice.

use vstd::prelude::*;

verus! {

/// `char::from_u32` gives the character with the given code point, and `None`
/// exactly for the numbers that are no Unicode scalar value: the surrogates
/// and everything above U+10FFFF.
pub assume_specification[ char::from_u32 ](i: u32) -> (r: Option<char>)
    ensures
        r == if i <= 0xD7FF || 0xE000 <= i <= 0x10FFFF {
            Some(i as char)
        } else {
            None::<char>
        },
;

/// `String::push` appends one character to the end of the string.
pub assume_specification[ std::string::String::push ](s: &mut std::string::String, c: char)
    ensures
        final(s)@ == old(s)@.push(c),
;

/// The first index at or after `from` where `s` holds `nul`, or the length
/// of `s` where it holds none there.
pub open spec fn scan_nul<T>(s: Seq<T>, nul: T, from: int) -> int
    decreases s.len() - from,
{
    if from < 0 || from >= s.len() || s[from] == nul {
        from
    } else {
        scan_nul(s, nul, from + 1)
    }
}

/// The number of items of `s` that come before its first `nul`.
pub open spec fn text_len<T>(s: Seq<T>, nul: T) -> int {
    scan_nul(s, nul, 0)
}

/// `text_len` is the one position that ends the text: nothing before it is
/// `nul`, and it is the end of `s` or holds `nul`.
pub proof fn lemma_text_len<T>(s: Seq<T>, nul: T)
    ensures
        0 <= text_len(s, nul) <= s.len(),
        forall|i: int| 0 <= i < text_len(s, nul) ==> s[i] != nul,
        text_len(s, nul) == s.len() || s[text_len(s, nul)] == nul,
{
    lemma_scan_nul(s, nul, 0);
}

proof fn lemma_scan_nul<T>(s: Seq<T>, nul: T, from: int)
    requires
        0 <= from <= s.len(),
    ensures
        from <= scan_nul(s, nul, from) <= s.len(),
        forall|i: int| from <= i < scan_nul(s, nul, from) ==> s[i] != nul,
        scan_nul(s, nul, from) == s.len() || s[scan_nul(s, nul, from)] == nul,
    decreases s.len() - from,
{
    if from < s.len() && s[from] != nul {
        lemma_scan_nul(s, nul, from + 1);
    }
}

/// A position that ends the text is `text_len`.
pub proof fn lemma_text_len_unique<T>(s: Seq<T>, nul: T, n: int)
    requires
        0 <= n <= s.len(),
        forall|i: int| 0 <= i < n ==> s[i] != nul,
        n == s.len() || s[n] == nul,
    ensures
        text_len(s, nul) == n,
{
    lemma_scan_reaches(s, nul, 0, n);
}

proof fn lemma_scan_reaches<T>(s: Seq<T>, nul: T, from: int, n: int)
    requires
        0 <= from <= n <= s.len(),
        forall|i: int| from <= i < n ==> s[i] != nul,
        n == s.len() || s[n] == nul,
    ensures
        scan_nul(s, nul, from) == n,
    decreases n - from,
{
    if from < n {
        lemma_scan_reaches(s, nul, from + 1, n);
    }
}

/// The character that stands for one 16-bit unit: the code point of the same
/// number, or U+FFFD where the unit is a surrogate and is no character alone.
pub open spec fn unit_char(unit: u16) -> char {
    if 0xD800 <= unit <= 0xDFFF {
        '\u{FFFD}'
    } else {
        unit as char
    }
}

/// The text that `units` hold: one character for each unit before the first
/// zero.
pub open spec fn wide_text(units: Seq<u16>) -> Seq<char> {
    Seq::new(text_len(units, 0u16) as nat, |i: int| unit_char(units[i]))
}

/// The text that `bytes` hold: one character for each byte before the first
/// zero, the byte's number taken as the code point.
pub open spec fn ansi_text(bytes: Seq<u8>) -> Seq<char> {
    Seq::new(text_len(bytes, 0u8) as nat, |i: int| bytes[i] as char)
}

/// The UTF-16 units of one character: the code point itself below U+10000,
/// a surrogate pair from there on.
pub open spec fn char_units(c: char) -> Seq<u16> {
    let v = c as u32;
    if v < 0x10000 {
        seq![v as u16]
    } else {
        seq![(0xD800 + (v - 0x10000) / 0x400) as u16, (0xDC00 + (v - 0x10000) % 0x400) as u16]
    }
}

/// The UTF-16 units of a text, character by character.
pub open spec fn utf16_units(text: Seq<char>) -> Seq<u16>
    decreases text.len(),
{
    if text.len() == 0 {
        Seq::empty()
    } else {
        utf16_units(text.drop_last()) + char_units(text.last())
    }
}

/// Converts one 16-bit unit to the character that stands for it.
pub fn unit_to_char(unit: u16) -> (c: char)
    ensures
        c == unit_char(unit),
{
    match char::from_u32(unit as u32) {
        Some(c) => c,
        None => '\u{FFFD}',
    }
}

/// Counts the units of `data` that come before its first zero.
pub fn utf16_len(data: &[u16]) -> (len: usize)
    ensures
        len == text_len(data@, 0u16),
{
    let mut i: usize = 0;
    while i < data.len() && data[i] != 0
        invariant
            0 <= i <= data.len(),
            scan_nul(data@, 0u16, i as int) == text_len(data@, 0u16),
        decreases data.len() - i,
    {
        i += 1;
    }
    i
}

/// Reads the text that `data` holds in 16-bit units, up to the first zero.
pub fn utf16_to_utf8(data: &[u16]) -> (out: String)
    ensures
        out@ == wide_text(data@),
{
    let mut out = String::new();
    let mut i: usize = 0;
    while i < data.len() && data[i] != 0
        invariant
            0 <= i <= data.len(),
            scan_nul(data@, 0u16, i as int) == text_len(data@, 0u16),
            out@ == Seq::new(i as nat, |k: int| unit_char(data@[k])),
        decreases data.len() - i,
    {
        out.push(unit_to_char(data[i]));
        i += 1;
    }
    out
}

/// Reads the text that `data` holds in bytes, up to the first zero. Each byte
/// becomes the character with the byte's number: no code page is applied.
pub fn ansi_to_utf8(data: &[u8]) -> (out: String)
    ensures
        out@ == ansi_text(data@),
{
    let mut out = String::new();
    let mut i: usize = 0;
    while i < data.len() && data[i] != 0
        invariant
            0 <= i <= data.len(),
            scan_nul(data@, 0u8, i as int) == text_len(data@, 0u8),
            out@ == Seq::new(i as nat, |k: int| data@[k] as char),
        decreases data.len() - i,
    {
        out.push(data[i] as char);
        i += 1;
    }
    out
}

/// Encodes `data` in UTF-16 and ends it with a zero.
pub fn utf8_to_utf16(data: &str) -> (out: Vec<u16>)
    ensures
        out@ == utf16_units(data@).push(0u16),
{
    let mut out: Vec<u16> = Vec::new();
    for c in it: data.chars()
        invariant
            it.seq() == data@,
            out@ == utf16_units(data@.take(it.index() as int)),
    {
        let v: u32 = c as u32;
        proof {
            let i = it.index() as int;
            assert(data@.take(i + 1).drop_last() == data@.take(i));
            assert(data@.take(i + 1).last() == c);
        }
        if v < 0x10000 {
            out.push(v as u16);
        } else {
            let x: u32 = v - 0x10000;
            out.push((0xD800 + x / 0x400) as u16);
            out.push((0xDC00 + x % 0x400) as u16);
        }
    }
    proof {
        assert(data@.take(data@.len() as int) == data@);
    }
    out.push(0);
    out
}

/// Copies the units of `data` that come before its first zero, and ends the
/// copy with a zero.
pub fn clone_utf16(data: &[u16]) -> (out: Vec<u16>)
    ensures
        out@ == data@.take(text_len(data@, 0u16)).push(0u16),
{
    let mut out: Vec<u16> = Vec::new();
    let mut i: usize = 0;
    while i < data.len() && data[i] != 0
        invariant
            0 <= i <= data.len(),
            scan_nul(data@, 0u16, i as int) == text_len(data@, 0u16),
            out@ == data@.take(i as int),
        decreases data.len() - i,
    {
        out.push(data[i]);
        i += 1;
    }
    out.push(0);
    out
}

/// The character of one decimal digit.
pub open spec fn digit_char(d: int) -> char {
    ('0' as u32 + d) as char
}

/// The decimal numeral of `n`, without leading zeros.
pub open spec fn decimal(n: nat) -> Seq<char>
    decreases n,
{
    if n < 10 {
        seq![digit_char(n as int)]
    } else {
        decimal(n / 10).push(digit_char((n % 10) as int))
    }
}

/// Writes `n` as a decimal numeral.
pub fn u32_to_decimal(n: u32) -> (out: String)
    ensures
        out@ == decimal(n as nat),
{
    let mut low: Vec<u8> = Vec::new();
    let mut rest: u32 = n;
    let ghost mut tail: Seq<char> = Seq::empty();
    while rest >= 10
        invariant
            decimal(n as nat) == decimal(rest as nat) + tail,
            tail.len() == low@.len(),
            forall|j: int| 0 <= j < low@.len() ==> low@[j] < 10,
            forall|j: int|
                0 <= j < low@.len() ==> tail[j] == digit_char(low@[low@.len() - 1 - j] as int),
        decreases rest,
    {
        let d: u8 = (rest % 10) as u8;
        proof {
            let c = digit_char(d as int);
            assert(decimal(rest as nat) == decimal((rest / 10) as nat).push(c));
            assert(decimal((rest / 10) as nat).push(c) + tail == decimal((rest / 10) as nat) + (
            seq![c] + tail));
            tail = seq![c] + tail;
        }
        low.push(d);
        rest = rest / 10;
    }
    let mut out = String::new();
    out.push((48u8 + rest as u8) as char);
    let mut k: usize = low.len();
    while k > 0
        invariant
            0 <= k <= low@.len(),
            tail.len() == low@.len(),
            forall|j: int| 0 <= j < low@.len() ==> low@[j] < 10,
            forall|j: int|
                0 <= j < low@.len() ==> tail[j] == digit_char(low@[low@.len() - 1 - j] as int),
            out@ == seq![digit_char(rest as int)] + tail.take(low@.len() - k),
        decreases k,
    {
        k -= 1;
        proof {
            let done = low@.len() - k - 1;
            assert(tail.take(done + 1) == tail.take(done).push(tail[done]));
            assert((seq![digit_char(rest as int)] + tail.take(done)).push(tail[done]) == seq![
                digit_char(rest as int),
            ] + tail.take(done).push(tail[done]));
        }
        out.push((48u8 + low[k]) as char);
    }
    proof {
        assert(tail.take(low@.len() as int) == tail);
    }
    out
}

} // verus!
