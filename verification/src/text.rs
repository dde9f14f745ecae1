//! Character and text helpers shared by the lexer, the statement parser and
//! the virtual machine: whitespace, decimal numerals, trimming, and UTF-8
//! encoding of the diagnostic output.

use vstd::prelude::*;

verus! {

/// The whitespace characters that separate words of a DIS source text.
pub open spec fn is_space(c: char) -> bool {
    c == ' ' || c == '\t' || c == '\n' || c == '\r' || c == '\x0b' || c == '\x0c'
}

/// Executable test matching `is_space`.
pub fn space(c: char) -> (r: bool)
    ensures
        r == is_space(c),
{
    c == ' ' || c == '\t' || c == '\n' || c == '\r' || c == '\x0b' || c == '\x0c'
}

pub open spec fn is_digit(c: char) -> bool {
    '0' <= c && c <= '9'
}

/// Numeric value of a decimal digit character.
pub open spec fn digit_val(c: char) -> nat {
    ((c as int) - ('0' as int)) as nat
}

pub open spec fn all_digits(w: Seq<char>) -> bool {
    forall|i: int| 0 <= i < w.len() ==> is_digit(#[trigger] w[i])
}

/// Value of a string of decimal digits, most significant first.
pub open spec fn dec_val(w: Seq<char>) -> nat
    decreases w.len(),
{
    if w.len() == 0 {
        0
    } else {
        dec_val(w.drop_last()) * 10 + digit_val(w.last())
    }
}

/// A word denotes a `u16` number exactly when it is all digits and small enough.
pub open spec fn is_number_word(w: Seq<char>) -> bool {
    w.len() > 0 && all_digits(w) && dec_val(w) <= u16::MAX
}

/// Longer digit strings denote values at least as large.
pub proof fn lemma_dec_val_prefix(w: Seq<char>, k: int)
    requires
        0 <= k <= w.len(),
    ensures
        dec_val(w.take(k)) <= dec_val(w),
    decreases w.len() - k,
{
    if k < w.len() {
        lemma_dec_val_prefix(w, k + 1);
        assert(w.take(k + 1).drop_last() =~= w.take(k));
        assert(dec_val(w.take(k)) <= dec_val(w.take(k + 1)));
    } else {
        assert(w.take(k) =~= w);
    }
}

/// Parse a word as a decimal `u16`: `Some` exactly on digit strings whose
/// value fits.
pub fn parse_u16(w: &Vec<char>) -> (r: Option<u16>)
    ensures
        match r {
            Some(v) => is_number_word(w@) && v == dec_val(w@),
            None => !is_number_word(w@),
        },
{
    if w.len() == 0 {
        return None;
    }
    let mut acc: u32 = 0;
    let mut i: usize = 0;
    while i < w.len()
        invariant
            0 <= i <= w@.len(),
            all_digits(w@.take(i as int)),
            acc == dec_val(w@.take(i as int)),
            acc <= u16::MAX,
        decreases w@.len() - i,
    {
        let c = w[i];
        if !('0' <= c && c <= '9') {
            assert(!all_digits(w@));
            return None;
        }
        let d: u32 = (c as u32) - ('0' as u32);
        proof {
            assert(w@.take(i + 1).drop_last() =~= w@.take(i as int));
        }
        let next: u32 = acc * 10 + d;
        if next > u16::MAX as u32 {
            proof {
                lemma_dec_val_prefix(w@, i + 1);
            }
            return None;
        }
        acc = next;
        i = i + 1;
    }
    proof {
        assert(w@.take(w@.len() as int) =~= w@);
    }
    Some(acc as u16)
}

/// Decimal rendering of `n`, most significant digit first, no leading zeros
/// (a single `0` for zero).
pub open spec fn dec_render(n: nat) -> Seq<char>
    decreases n,
{
    if n < 10 {
        seq![digit_char(n)]
    } else {
        dec_render(n / 10).push(digit_char(n % 10))
    }
}

/// The character for a single decimal digit.
pub open spec fn digit_char(d: nat) -> char {
    if d == 0 {
        '0'
    } else if d == 1 {
        '1'
    } else if d == 2 {
        '2'
    } else if d == 3 {
        '3'
    } else if d == 4 {
        '4'
    } else if d == 5 {
        '5'
    } else if d == 6 {
        '6'
    } else if d == 7 {
        '7'
    } else if d == 8 {
        '8'
    } else {
        '9'
    }
}

/// The word with its leading whitespace removed.
pub open spec fn trim_front(w: Seq<char>) -> Seq<char>
    decreases w.len(),
{
    if w.len() > 0 && is_space(w[0]) {
        trim_front(w.drop_first())
    } else {
        w
    }
}

/// The word with its trailing whitespace removed.
pub open spec fn trim_back(w: Seq<char>) -> Seq<char>
    decreases w.len(),
{
    if w.len() > 0 && is_space(w.last()) {
        trim_back(w.drop_last())
    } else {
        w
    }
}

/// The word with whitespace removed at both ends, as a line read from the
/// input is taken by the machine.
pub open spec fn trimmed(w: Seq<char>) -> Seq<char> {
    trim_back(trim_front(w))
}

/// Copy of the characters of `v` between `from` and `to`.
pub fn copy_range(v: &Vec<char>, from: usize, to: usize) -> (r: Vec<char>)
    requires
        0 <= from <= to <= v@.len(),
    ensures
        r@ == v@.subrange(from as int, to as int),
{
    let mut r: Vec<char> = Vec::new();
    let mut i: usize = from;
    while i < to
        invariant
            from <= i <= to <= v@.len(),
            r@ == v@.subrange(from as int, i as int),
        decreases to - i,
    {
        r.push(v[i]);
        proof {
            assert(v@.subrange(from as int, i + 1) =~= v@.subrange(from as int, i as int).push(
                v@[i as int],
            ));
        }
        i = i + 1;
    }
    r
}

/// Remove the whitespace at both ends of `v`.
pub fn trim(v: &Vec<char>) -> (r: Vec<char>)
    ensures
        r@ == trimmed(v@),
{
    let mut a: usize = 0;
    proof {
        assert(v@.skip(0) =~= v@);
    }
    while a < v.len() && space(v[a])
        invariant
            0 <= a <= v@.len(),
            trim_front(v@) == trim_front(v@.skip(a as int)),
        decreases v@.len() - a,
    {
        proof {
            assert(v@.skip(a as int).drop_first() =~= v@.skip(a + 1));
        }
        a = a + 1;
    }
    proof {
        assert(trim_front(v@) =~= v@.subrange(a as int, v@.len() as int));
    }
    let mut b: usize = v.len();
    while b > a && space(v[b - 1])
        invariant
            0 <= a <= b <= v@.len(),
            trim_front(v@) == v@.subrange(a as int, v@.len() as int),
            trim_back(v@.subrange(a as int, v@.len() as int)) == trim_back(
                v@.subrange(a as int, b as int),
            ),
        decreases b,
    {
        proof {
            assert(v@.subrange(a as int, b as int).drop_last() =~= v@.subrange(a as int, b - 1));
        }
        b = b - 1;
    }
    proof {
        assert(trim_back(v@.subrange(a as int, b as int)) == v@.subrange(a as int, b as int));
    }
    copy_range(v, a, b)
}

/// UTF-8 encoding of one character.
pub open spec fn utf8_of(c: char) -> Seq<u8> {
    let u = c as int;
    if u < 0x80 {
        seq![u as u8]
    } else if u < 0x800 {
        seq![(0xC0 + u / 0x40) as u8, (0x80 + u % 0x40) as u8]
    } else if u < 0x10000 {
        seq![
            (0xE0 + u / 0x1000) as u8,
            (0x80 + (u / 0x40) % 0x40) as u8,
            (0x80 + u % 0x40) as u8,
        ]
    } else {
        seq![
            (0xF0 + u / 0x40000) as u8,
            (0x80 + (u / 0x1000) % 0x40) as u8,
            (0x80 + (u / 0x40) % 0x40) as u8,
            (0x80 + u % 0x40) as u8,
        ]
    }
}

/// UTF-8 encoding of a text, character by character.
pub open spec fn utf8_of_text(s: Seq<char>) -> Seq<u8>
    decreases s.len(),
{
    if s.len() == 0 {
        Seq::empty()
    } else {
        utf8_of_text(s.drop_last()) + utf8_of(s.last())
    }
}

/// Append the UTF-8 encoding of `c` to `out`.
pub fn push_char_utf8(out: &mut Vec<u8>, c: char)
    ensures
        final(out)@ == old(out)@ + utf8_of(c),
{
    let u = c as u32;
    if u < 0x80 {
        out.push(u as u8);
    } else if u < 0x800 {
        out.push((0xC0 + u / 0x40) as u8);
        out.push((0x80 + u % 0x40) as u8);
    } else if u < 0x10000 {
        out.push((0xE0 + u / 0x1000) as u8);
        out.push((0x80 + (u / 0x40) % 0x40) as u8);
        out.push((0x80 + u % 0x40) as u8);
    } else {
        assert(u <= 0x10FFFF);
        out.push((0xF0 + u / 0x40000) as u8);
        out.push((0x80 + (u / 0x1000) % 0x40) as u8);
        out.push((0x80 + (u / 0x40) % 0x40) as u8);
        out.push((0x80 + u % 0x40) as u8);
    }
    proof {
        assert(final(out)@ =~= old(out)@ + utf8_of(c));
    }
}

/// Append the UTF-8 encoding of the text `s` to `out`.
pub fn push_text_utf8(out: &mut Vec<u8>, s: &Vec<char>)
    ensures
        final(out)@ == old(out)@ + utf8_of_text(s@),
{
    let mut i: usize = 0;
    while i < s.len()
        invariant
            0 <= i <= s@.len(),
            out@ == old(out)@ + utf8_of_text(s@.take(i as int)),
        decreases s@.len() - i,
    {
        push_char_utf8(out, s[i]);
        proof {
            assert(s@.take(i + 1).drop_last() =~= s@.take(i as int));
            assert(s@.take(i + 1).last() == s@[i as int]);
        }
        i = i + 1;
    }
    proof {
        assert(s@.take(s@.len() as int) =~= s@);
    }
}

/// Append the decimal rendering of `n` to `out`.
pub fn push_dec(out: &mut Vec<char>, n: u16)
    ensures
        final(out)@ == old(out)@ + dec_render(n as nat),
    decreases n,
{
    if n < 10 {
        out.push(digit(n));
    } else {
        push_dec(out, n / 10);
        out.push(digit(n % 10));
    }
}

/// The character for digit `d`.
pub fn digit(d: u16) -> (c: char)
    requires
        d < 10,
    ensures
        c == digit_char(d as nat),
{
    if d == 0 {
        '0'
    } else if d == 1 {
        '1'
    } else if d == 2 {
        '2'
    } else if d == 3 {
        '3'
    } else if d == 4 {
        '4'
    } else if d == 5 {
        '5'
    } else if d == 6 {
        '6'
    } else if d == 7 {
        '7'
    } else if d == 8 {
        '8'
    } else {
        '9'
    }
}

/// Copy the characters of `v` into a fresh vector.
pub fn copy_chars(v: &Vec<char>) -> (r: Vec<char>)
    ensures
        r@ == v@,
{
    let mut r: Vec<char> = Vec::new();
    let mut i: usize = 0;
    while i < v.len()
        invariant
            0 <= i <= v@.len(),
            r@ == v@.take(i as int),
        decreases v@.len() - i,
    {
        r.push(v[i]);
        proof {
            assert(v@.take(i + 1) =~= v@.take(i as int).push(v@[i as int]));
        }
        i = i + 1;
    }
    proof {
        assert(v@.take(v@.len() as int) =~= v@);
    }
    r
}

/// Do two character vectors hold the same text?
pub fn chars_eq(a: &Vec<char>, b: &Vec<char>) -> (r: bool)
    ensures
        r == (a@ == b@),
{
    if a.len() != b.len() {
        assert(a@ != b@);
        return false;
    }
    let mut i: usize = 0;
    while i < a.len()
        invariant
            0 <= i <= a@.len(),
            a@.len() == b@.len(),
            forall|j: int| 0 <= j < i ==> a@[j] == b@[j],
        decreases a@.len() - i,
    {
        if a[i] != b[i] {
            assert(a@ != b@);
            return false;
        }
        i = i + 1;
    }
    proof {
        assert(a@ =~= b@);
    }
    true
}

/// ASCII bytes of the decimal rendering of `n`.
pub open spec fn dec_bytes(n: nat) -> Seq<u8>
    decreases n,
{
    if n < 10 {
        seq![(48 + n) as u8]
    } else {
        dec_bytes(n / 10).push((48 + n % 10) as u8)
    }
}

/// Append the ASCII decimal rendering of `n` to `out`.
pub fn push_dec_bytes(out: &mut Vec<u8>, n: u16)
    ensures
        final(out)@ == old(out)@ + dec_bytes(n as nat),
    decreases n,
{
    if n < 10 {
        out.push(48 + (n as u8));
        proof {
            assert(final(out)@ =~= old(out)@ + dec_bytes(n as nat));
        }
    } else {
        push_dec_bytes(out, n / 10);
        out.push(48 + ((n % 10) as u8));
        proof {
            assert(final(out)@ =~= old(out)@ + dec_bytes(n as nat));
        }
    }
}

/// The low 16 bits of a character's codepoint.
pub open spec fn char_u16(c: char) -> u16 {
    ((c as int) % 0x10000) as u16
}

/// Executable form of `char_u16`.
pub fn char_code(c: char) -> (r: u16)
    ensures
        r == char_u16(c),
{
    (c as u32 % 0x10000) as u16
}

/// A decimal rendering is a non-empty digit string that reads back to the
/// number it renders.
pub proof fn lemma_dec_render(n: nat)
    ensures
        dec_render(n).len() > 0,
        all_digits(dec_render(n)),
        is_digit(dec_render(n)[0]),
        dec_val(dec_render(n)) == n,
    decreases n,
{
    if n < 10 {
        let w = seq![digit_char(n)];
        assert(w.drop_last() =~= Seq::<char>::empty());
        assert(dec_val(Seq::<char>::empty()) == 0);
        assert(w.last() == digit_char(n));
        assert(dec_val(w) == dec_val(w.drop_last()) * 10 + digit_val(w.last()));
    } else {
        lemma_dec_render(n / 10);
        let rec = dec_render(n / 10);
        let w = rec.push(digit_char(n % 10));
        assert(w.drop_last() =~= rec);
        assert(all_digits(w)) by {
            assert forall|i: int| 0 <= i < w.len() implies is_digit(#[trigger] w[i]) by {
                if i < rec.len() {
                    assert(w[i] == rec[i]);
                }
            }
        }
        assert(dec_val(w) == dec_val(rec) * 10 + digit_val(digit_char(n % 10)));
    }
}

} // verus!
