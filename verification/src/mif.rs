//! AutoCAD MIF `\U+XXXX` escapes: decoding them in text and producing them
//! for characters a legacy code page cannot represent.
use vstd::prelude::*;

use crate::text::{chars_of, push_char};

verus! {

/// Value of one hexadecimal digit (either case).
pub open spec fn hex_digit(c: char) -> Option<u32> {
    if '0' <= c && c <= '9' {
        Some(((c as u32) - ('0' as u32)) as u32)
    } else if 'a' <= c && c <= 'f' {
        Some(((c as u32) - ('a' as u32) + 10) as u32)
    } else if 'A' <= c && c <= 'F' {
        Some(((c as u32) - ('A' as u32) + 10) as u32)
    } else {
        None
    }
}

/// Value of the hexadecimal digits `cs[start..start + n]`, if all are digits.
pub open spec fn hex_digits(cs: Seq<char>, start: int, n: nat) -> Option<u32>
    decreases n,
{
    if n == 0 {
        Some(0)
    } else {
        match (hex_digits(cs, start, (n - 1) as nat), hex_digit(cs[start + n - 1])) {
            (Some(high), Some(low)) => Some((high * 16 + low) as u32),
            _ => None,
        }
    }
}

/// The four characters at `start` read as a `u16` in base 16: exactly four
/// hexadecimal digits.
pub open spec fn hex4(cs: Seq<char>, start: int) -> Option<u16> {
    if start < 0 || start + 4 > cs.len() {
        None
    } else {
        match hex_digits(cs, start, 4) {
            Some(v) => Some(v as u16),
            None => None,
        }
    }
}

/// A well-formed escape `\U+XXXX` starts at `start`; its code unit.
pub open spec fn escape_at(cs: Seq<char>, start: int) -> Option<u16> {
    if 0 <= start && start + 7 <= cs.len() && cs[start] == '\\' && cs[start + 1] == 'U' && cs[start
        + 2] == '+' {
        hex4(cs, start + 3)
    } else {
        None
    }
}

pub open spec fn is_high_surrogate(u: u16) -> bool {
    0xD800 <= u && u < 0xDC00
}

pub open spec fn is_low_surrogate(u: u16) -> bool {
    0xDC00 <= u && u < 0xE000
}

/// A Unicode scalar value: a code point that `char` can hold.
pub open spec fn is_scalar(v: u32) -> bool {
    v <= 0xD7FF || (0xE000 <= v && v <= 0x10FFFF)
}

/// The scalar value of a surrogate pair.
pub open spec fn pair_value(high: u16, low: u16) -> u32 {
    (0x10000 + (high - 0xD800) * 0x400 + (low - 0xDC00)) as u32
}

/// What one unpaired code unit decodes to: itself, or nothing when it is a
/// surrogate.
pub open spec fn single_unit_text(u: u16) -> Seq<char> {
    if is_scalar(u as u32) {
        seq![(u as u32) as char]
    } else {
        Seq::empty()
    }
}

/// The text with every well-formed MIF escape decoded. A high-surrogate
/// escape directly followed by a low-surrogate escape decodes to one
/// character; an escape of any other surrogate decodes to nothing; text that
/// is not a well-formed escape is kept as it is.
pub open spec fn mif_decoded(cs: Seq<char>) -> Seq<char>
    decreases cs.len(),
{
    if cs.len() == 0 {
        Seq::empty()
    } else {
        match escape_at(cs, 0) {
            Some(unit) => {
                match escape_at(cs, 7) {
                    Some(low) if is_high_surrogate(unit) && is_low_surrogate(low) => seq![
                        pair_value(unit, low) as char,
                    ] + mif_decoded(cs.skip(14)),
                    _ => single_unit_text(unit) + mif_decoded(cs.skip(7)),
                }
            },
            None => seq![cs[0]] + mif_decoded(cs.skip(1)),
        }
    }
}

/// Upper-case hexadecimal digit for a value below 16.
pub open spec fn hex_upper(d: u32) -> char {
    if d < 10 {
        ((d + ('0' as u32)) as u32) as char
    } else {
        ((d - 10 + ('A' as u32)) as u32) as char
    }
}

/// `\U+XXXX` for one UTF-16 code unit, with four upper-case digits.
pub open spec fn unit_escape(u: u16) -> Seq<char> {
    seq![
        '\\',
        'U',
        '+',
        hex_upper((u as u32) / 4096),
        hex_upper(((u as u32) / 256) % 16),
        hex_upper(((u as u32) / 16) % 16),
        hex_upper((u as u32) % 16),
    ]
}

/// The UTF-16 code units of a character.
pub open spec fn utf16_units(c: char) -> Seq<u16> {
    let v = c as u32;
    if v < 0x10000 {
        seq![v as u16]
    } else {
        seq![
            (0xD800 + (v - 0x10000) / 0x400) as u16,
            (0xDC00 + (v - 0x10000) % 0x400) as u16,
        ]
    }
}

/// The MIF escape of a character: one escape per UTF-16 code unit.
pub open spec fn char_escape(c: char) -> Seq<char> {
    let units = utf16_units(c);
    if units.len() == 1 {
        unit_escape(units[0])
    } else {
        unit_escape(units[0]) + unit_escape(units[1])
    }
}

/// Every character of the text replaced by its MIF escape.
pub open spec fn escape_all(s: Seq<char>) -> Seq<char>
    decreases s.len(),
{
    if s.len() == 0 {
        Seq::empty()
    } else {
        char_escape(s[0]) + escape_all(s.skip(1))
    }
}

/// The ASCII bytes of a text made of ASCII characters.
pub open spec fn ascii_bytes(s: Seq<char>) -> Seq<u8> {
    s.map_values(|c: char| c as u8)
}

// ---------------------------------------------------------------------------
// Proofs about the spec functions.

proof fn lemma_hex_upper_digit(d: u32)
    requires
        d < 16,
    ensures
        hex_digit(hex_upper(d)) == Some(d),
        hex_upper(d) != '+',
        hex_upper(d) != '\\',
        (hex_upper(d) as u32) < 128,
{
}

proof fn lemma_unit_escape_parses(u: u16, rest: Seq<char>)
    ensures
        escape_at(unit_escape(u) + rest, 0) == Some(u),
        (unit_escape(u) + rest).skip(7) == rest,
        unit_escape(u).len() == 7,
{
    let cs = unit_escape(u) + rest;
    let v = u as u32;
    let d0 = v / 4096;
    let d1 = (v / 256) % 16;
    let d2 = (v / 16) % 16;
    let d3 = v % 16;
    lemma_hex_upper_digit(d0);
    lemma_hex_upper_digit(d1);
    lemma_hex_upper_digit(d2);
    lemma_hex_upper_digit(d3);
    assert(cs[3] == hex_upper(d0));
    assert(cs[4] == hex_upper(d1));
    assert(cs[5] == hex_upper(d2));
    assert(cs[6] == hex_upper(d3));
    reveal_with_fuel(hex_digits, 5);
    assert(hex_digits(cs, 3, 4) == Some((((d0 * 16 + d1) * 16 + d2) * 16 + d3) as u32));
    assert(((d0 * 16 + d1) * 16 + d2) * 16 + d3 == v);
    assert(cs.skip(7) =~= rest);
}

proof fn lemma_char_escape_decodes(c: char, rest: Seq<char>)
    ensures
        mif_decoded(char_escape(c) + rest) == seq![c] + mif_decoded(rest),
{
    let v = c as u32;
    let units = utf16_units(c);
    if v < 0x10000 {
        let u = v as u16;
        lemma_unit_escape_parses(u, rest);
        let cs = char_escape(c) + rest;
        assert(cs == unit_escape(u) + rest);
        assert(!is_high_surrogate(u));
        assert(is_scalar(u as u32));
        assert(((u as u32) as char) == c);
        assert(single_unit_text(u) == seq![c]);
    } else {
        let high = units[0];
        let low = units[1];
        lemma_unit_escape_parses(low, rest);
        lemma_unit_escape_parses(high, unit_escape(low) + rest);
        let cs = char_escape(c) + rest;
        assert(cs =~= unit_escape(high) + (unit_escape(low) + rest));
        assert(cs.skip(7) =~= unit_escape(low) + rest);
        assert(escape_at(cs, 7) == escape_at(cs.skip(7), 0)) by {
            assert(cs.skip(7)[0] == cs[7]);
            assert(cs.skip(7)[1] == cs[8]);
            assert(cs.skip(7)[2] == cs[9]);
            assert(cs.skip(7)[3] == cs[10]);
            assert(cs.skip(7)[4] == cs[11]);
            assert(cs.skip(7)[5] == cs[12]);
            assert(cs.skip(7)[6] == cs[13]);
            reveal_with_fuel(hex_digits, 5);
        }
        assert(is_high_surrogate(high));
        assert(is_low_surrogate(low));
        assert(pair_value(high, low) == v);
        assert(cs.skip(14) =~= rest);
    }
}

/// Escaping every character and decoding the result gives the text back.
pub proof fn lemma_escape_all_decodes(s: Seq<char>)
    ensures
        mif_decoded(escape_all(s)) == s,
    decreases s.len(),
{
    if s.len() > 0 {
        lemma_escape_all_decodes(s.skip(1));
        lemma_char_escape_decodes(s[0], escape_all(s.skip(1)));
        assert(seq![s[0]] + s.skip(1) =~= s);
    }
}

// ---------------------------------------------------------------------------
// Executable code.

/// `char::from_u32`: the character with scalar value `v`, if there is one.
#[verifier::external_body]
fn char_from_u32(v: u32) -> (r: Option<char>)
    ensures
        r == (if is_scalar(v) {
            Some(v as char)
        } else {
            None
        }),
{
    char::from_u32(v)
}

fn hex_digit_value(c: char) -> (r: Option<u32>)
    ensures
        r == hex_digit(c),
{
    if '0' <= c && c <= '9' {
        Some((c as u32) - ('0' as u32))
    } else if 'a' <= c && c <= 'f' {
        Some((c as u32) - ('a' as u32) + 10)
    } else if 'A' <= c && c <= 'F' {
        Some((c as u32) - ('A' as u32) + 10)
    } else {
        None
    }
}

fn read_hex_digits(cs: &Vec<char>, start: usize, n: usize) -> (r: Option<u32>)
    requires
        start + n <= cs@.len(),
        n <= 4,
    ensures
        r == hex_digits(cs@, start as int, n as nat),
        r matches Some(v) ==> v < 0x10000,
{
    let total = cs.len();
    let mut acc: u32 = 0;
    let mut k: usize = 0;
    while k < n
        invariant
            start + n <= cs@.len(),
            total == cs@.len(),
            n <= 4,
            k <= n,
            hex_digits(cs@, start as int, k as nat) == Some(acc),
            acc < pow16(k as nat),
        decreases n - k,
    {
        proof {
            lemma_pow16_le(k as nat);
            lemma_pow16_step(k as nat);
            lemma_pow16_le((k + 1) as nat);
        }
        match hex_digit_value(cs[start + k]) {
            Some(d) => {
                assert(d < 16);
                acc = acc * 16 + d;
                k = k + 1;
                assert(hex_digits(cs@, start as int, k as nat) == Some(acc));
            },
            None => {
                proof {
                    lemma_hex_digits_none(cs@, start as int, (k + 1) as nat, n as nat);
                }
                return None;
            },
        }
    }
    proof {
        lemma_pow16_le(k as nat);
    }
    Some(acc)
}

pub open spec fn pow16(k: nat) -> nat
    decreases k,
{
    if k == 0 {
        1
    } else {
        16 * pow16((k - 1) as nat)
    }
}

proof fn lemma_pow16_step(k: nat)
    ensures
        pow16(k + 1) == 16 * pow16(k),
{
}

proof fn lemma_pow16_le(k: nat)
    requires
        k <= 4,
    ensures
        pow16(k) <= 0x10000,
        k < 4 ==> pow16(k) <= 0x1000,
{
    reveal_with_fuel(pow16, 5);
}

proof fn lemma_hex_digits_none(cs: Seq<char>, start: int, k: nat, n: nat)
    requires
        1 <= k <= n,
        hex_digit(cs[start + k - 1]) is None,
    ensures
        hex_digits(cs, start, n) is None,
    decreases n - k,
{
    if k < n {
        lemma_hex_digits_none(cs, start, k, (n - 1) as nat);
    }
}

/// `hex4` on the executable character buffer.
fn read_hex4(cs: &Vec<char>, start: usize) -> (r: Option<u16>)
    requires
        start <= cs@.len(),
    ensures
        r == hex4(cs@, start as int),
{
    if cs.len() - start < 4 {
        return None;
    }
    match read_hex_digits(cs, start, 4) {
        Some(v) => Some(v as u16),
        None => None,
    }
}

/// `escape_at` on the executable character buffer.
fn read_escape(cs: &Vec<char>, start: usize) -> (r: Option<u16>)
    requires
        start <= cs@.len(),
    ensures
        r == escape_at(cs@, start as int),
{
    if cs.len() - start >= 7 && cs[start] == '\\' && cs[start + 1] == 'U' && cs[start + 2] == '+' {
        read_hex4(cs, start + 3)
    } else {
        None
    }
}

proof fn lemma_escape_at_skip(cs: Seq<char>, i: int, k: int)
    requires
        0 <= i <= cs.len(),
        0 <= k,
    ensures
        escape_at(cs.skip(i), k) == escape_at(cs, i + k),
{
    let s = cs.skip(i);
    if 0 <= k && k + 7 <= s.len() {
        assert(s[k] == cs[i + k]);
        assert(s[k + 1] == cs[i + k + 1]);
        assert(s[k + 2] == cs[i + k + 2]);
        assert(s[k + 3] == cs[i + k + 3]);
        assert(s[k + 4] == cs[i + k + 4]);
        assert(s[k + 5] == cs[i + k + 5]);
        assert(s[k + 6] == cs[i + k + 6]);
        reveal_with_fuel(hex_digits, 5);
    }
}

/// Decode AutoCAD MIF `\U+XXXX` escapes (exactly four hex digits) into
/// Unicode characters.
///
/// A high-surrogate escape followed by a low-surrogate escape combines into
/// a scalar value. Malformed or unterminated escapes are left as literal
/// text, and invalid code points are dropped.
pub fn decode_mif_escapes(text: &str) -> (r: String)
    ensures
        r@ == mif_decoded(text@),
{
    let cs = chars_of(text);
    let len = cs.len();
    let mut out = String::new();
    let mut i: usize = 0;
    assert(cs@.skip(0) =~= cs@);
    while i < len
        invariant
            len == cs@.len(),
            cs@ == text@,
            i <= len,
            out@ + mif_decoded(cs@.skip(i as int)) == mif_decoded(cs@),
        decreases len - i,
    {
        let ghost rest = cs@.skip(i as int);
        proof {
            lemma_escape_at_skip(cs@, i as int, 0);
            lemma_escape_at_skip(cs@, i as int, 7);
        }
        match read_escape(&cs, i) {
            Some(unit) => {
                let j = i + 7;
                let mut paired = false;
                if 0xD800 <= unit && unit < 0xDC00 {
                    match read_escape(&cs, j) {
                        Some(low) => {
                            if 0xDC00 <= low && low < 0xE000 {
                                let code: u32 = 0x10000 + ((unit - 0xD800) as u32) * 0x400 + ((low
                                    - 0xDC00) as u32);
                                let ch = char_from_u32(code);
                                proof {
                                    assert(is_scalar(code));
                                    assert(code == pair_value(unit, low));
                                }
                                if let Some(c) = ch {
                                    push_char(&mut out, c);
                                }
                                proof {
                                    assert(rest.skip(14) =~= cs@.skip(i + 14));
                                }
                                i = j + 7;
                                paired = true;
                            }
                        },
                        None => {},
                    }
                }
                if !paired {
                    let ch = char_from_u32(unit as u32);
                    let ghost before = out@;
                    if let Some(c) = ch {
                        push_char(&mut out, c);
                    }
                    proof {
                        assert(out@ == before + single_unit_text(unit));
                        assert(rest.skip(7) =~= cs@.skip(i + 7));
                    }
                    i = j;
                }
            },
            None => {
                push_char(&mut out, cs[i]);
                proof {
                    assert(rest.skip(1) =~= cs@.skip(i + 1));
                    assert(rest[0] == cs@[i as int]);
                }
                i = i + 1;
            },
        }
    }
    proof {
        assert(cs@.skip(len as int) =~= Seq::<char>::empty());
    }
    out
}

} // verus!

verus! {

/// The text holds `\U+` starting at position `i`.
pub open spec fn escape_intro_at(cs: Seq<char>, i: int) -> bool {
    0 <= i && i + 3 <= cs.len() && cs[i] == '\\' && cs[i + 1] == 'U' && cs[i + 2] == '+'
}

/// Text that holds no `\U+` comes back from decoding unchanged.
pub proof fn lemma_no_escape_unchanged(cs: Seq<char>)
    requires
        forall|i: int| !(#[trigger] escape_intro_at(cs, i)),
    ensures
        mif_decoded(cs) == cs,
    decreases cs.len(),
{
    if cs.len() > 0 {
        assert(!escape_intro_at(cs, 0));
        let rest = cs.skip(1);
        assert forall|i: int| !(#[trigger] escape_intro_at(rest, i)) by {
            if escape_intro_at(rest, i) {
                assert(escape_intro_at(cs, i + 1));
            }
        }
        lemma_no_escape_unchanged(rest);
        assert(seq![cs[0]] + rest =~= cs);
    }
}

/// The text with the characters marked in `escaped` replaced by their MIF
/// escapes and the others kept as they are.
pub open spec fn escape_marked(s: Seq<char>, escaped: Seq<bool>) -> Seq<char>
    decreases s.len(),
{
    if s.len() == 0 {
        Seq::empty()
    } else {
        (if escaped[0] {
            char_escape(s[0])
        } else {
            seq![s[0]]
        }) + escape_marked(s.skip(1), escaped.skip(1))
    }
}

proof fn lemma_escape_marked_head(s: Seq<char>, escaped: Seq<bool>)
    requires
        s.len() > 0,
    ensures
        escape_marked(s, escaped).len() > 0,
        escape_marked(s, escaped)[0] == if escaped[0] {
            '\\'
        } else {
            s[0]
        },
{
    let head = if escaped[0] {
        char_escape(s[0])
    } else {
        seq![s[0]]
    };
    let units = utf16_units(s[0]);
    assert(unit_escape(units[0])[0] == '\\');
    assert(head.len() > 0 && head[0] == (if escaped[0] { '\\' } else { s[0] }));
    assert((head + escape_marked(s.skip(1), escaped.skip(1)))[0] == head[0]);
}

/// Text that holds no `\U+`, with any of its characters replaced by their
/// MIF escapes, decodes back to the text.
pub proof fn lemma_escape_marked_decodes(s: Seq<char>, escaped: Seq<bool>)
    requires
        escaped.len() == s.len(),
        forall|i: int| !(#[trigger] escape_intro_at(s, i)),
    ensures
        mif_decoded(escape_marked(s, escaped)) == s,
    decreases s.len(),
{
    if s.len() > 0 {
        let t = s.skip(1);
        let rest = escape_marked(t, escaped.skip(1));
        assert forall|i: int| !(#[trigger] escape_intro_at(t, i)) by {
            if escape_intro_at(t, i) {
                assert(escape_intro_at(s, i + 1));
            }
        }
        lemma_escape_marked_decodes(t, escaped.skip(1));
        if escaped[0] {
            lemma_char_escape_decodes(s[0], rest);
        } else {
            let out = seq![s[0]] + rest;
            assert(out == escape_marked(s, escaped));
            if escape_at(out, 0) is Some {
                assert(out[0] == s[0] && s[0] == '\\');
                assert(s.len() > 1) by {
                    if s.len() == 1 {
                        assert(rest.len() == 0);
                    }
                }
                lemma_escape_marked_head(t, escaped.skip(1));
                assert(out[1] == rest[0]);
                assert(!escaped[1] && s[1] == 'U');
                let t2 = t.skip(1);
                let rest2 = escape_marked(t2, escaped.skip(2));
                assert(escaped.skip(1).skip(1) =~= escaped.skip(2));
                assert(rest == seq![t[0]] + rest2);
                assert(s.len() > 2) by {
                    if s.len() == 2 {
                        assert(rest2.len() == 0);
                    }
                }
                lemma_escape_marked_head(t2, escaped.skip(2));
                assert(out[2] == rest2[0]);
                assert(!escaped[2] && s[2] == '+');
                assert(escape_intro_at(s, 0));
            }
            assert(out.skip(1) =~= rest);
        }
        assert(seq![s[0]] + t =~= s);
    }
}

} // verus!
