//! Character-level helpers shared by the string-processing code.
use vstd::prelude::*;
use vstd::string::StrSliceExecFns;

verus! {

/// ASCII upper-case letters map to lower case; every other character is kept.
pub open spec fn ascii_lower(c: char) -> char {
    if 'A' <= c && c <= 'Z' {
        ((c as u32) + 32) as char
    } else {
        c
    }
}

/// The two texts are equal once ASCII letters are folded to lower case.
pub open spec fn eq_ignore_case(a: Seq<char>, b: Seq<char>) -> bool {
    &&& a.len() == b.len()
    &&& forall|i: int| 0 <= i < a.len() ==> #[trigger] ascii_lower(a[i]) == ascii_lower(b[i])
}

/// The text with ASCII letters folded to lower case.
pub open spec fn lower_text(a: Seq<char>) -> Seq<char> {
    a.map_values(|c: char| ascii_lower(c))
}

pub proof fn lemma_eq_ignore_case_is_lower_eq(a: Seq<char>, b: Seq<char>)
    ensures
        eq_ignore_case(a, b) <==> lower_text(a) == lower_text(b),
{
    if lower_text(a) == lower_text(b) {
        assert(a.len() == lower_text(a).len());
        assert(b.len() == lower_text(b).len());
        assert forall|i: int| 0 <= i < a.len() implies #[trigger] ascii_lower(a[i]) == ascii_lower(
            b[i],
        ) by {
            assert(lower_text(a)[i] == lower_text(b)[i]);
            assert(lower_text(a)[i] == ascii_lower(a[i]));
            assert(lower_text(b)[i] == ascii_lower(b[i]));
        }
    }
    if eq_ignore_case(a, b) {
        assert(lower_text(a) =~= lower_text(b));
    }
}

pub proof fn lemma_eq_ignore_case_equiv(a: Seq<char>, b: Seq<char>, c: Seq<char>)
    ensures
        eq_ignore_case(a, a),
        eq_ignore_case(a, b) ==> eq_ignore_case(b, a),
        eq_ignore_case(a, b) && eq_ignore_case(b, c) ==> eq_ignore_case(a, c),
{
    lemma_eq_ignore_case_is_lower_eq(a, a);
    lemma_eq_ignore_case_is_lower_eq(a, b);
    lemma_eq_ignore_case_is_lower_eq(b, a);
    lemma_eq_ignore_case_is_lower_eq(b, c);
    lemma_eq_ignore_case_is_lower_eq(a, c);
}

/// Fold one ASCII letter to lower case.
pub fn lower_char(c: char) -> (r: char)
    ensures
        r == ascii_lower(c),
{
    if 'A' <= c && c <= 'Z' {
        let code: u32 = (c as u32) + 32;
        assert(code <= 0x7f);
        (code as u8) as char
    } else {
        c
    }
}

/// Collect the characters of `s`.
pub fn chars_of(s: &str) -> (r: Vec<char>)
    ensures
        r@ == s@,
{
    broadcast use vstd::string::group_string_axioms;

    let mut out: Vec<char> = Vec::new();
    for c in it: s.chars()
        invariant
            it.seq() == s@,
            out@ == it.seq().take(it.index() as int),
    {
        out.push(c);
    }
    out
}

/// Append one character to `s` (calls `String::push`).
#[verifier::external_body]
pub fn push_char(s: &mut String, c: char)
    ensures
        final(s)@ == old(s)@.push(c),
{
    s.push(c);
}

/// A copy of `s` as an owned `String`.
pub fn owned(s: &str) -> (r: String)
    ensures
        r@ == s@,
{
    String::from_str(s)
}

/// Case-insensitive (ASCII) comparison, as `str::eq_ignore_ascii_case`.
pub fn eq_ignore_ascii_case(a: &str, b: &str) -> (r: bool)
    ensures
        r == eq_ignore_case(a@, b@),
{
    let ac = chars_of(a);
    let bc = chars_of(b);
    if ac.len() != bc.len() {
        return false;
    }
    let mut i: usize = 0;
    while i < ac.len()
        invariant
            ac@ == a@,
            bc@ == b@,
            ac.len() == bc.len(),
            i <= ac.len(),
            forall|j: int| 0 <= j < i ==> #[trigger] ascii_lower(a@[j]) == ascii_lower(b@[j]),
        decreases ac.len() - i,
    {
        if lower_char(ac[i]) != lower_char(bc[i]) {
            return false;
        }
        i = i + 1;
    }
    true
}

} // verus!

verus! {

/// The decimal digit character for a value below 10.
pub open spec fn digit_char(d: nat) -> char {
    ((d + 48) as u8) as char
}

/// The decimal digits of a natural number, most significant first.
pub open spec fn digits_text(n: nat) -> Seq<char>
    decreases n,
{
    if n < 10 {
        seq![digit_char(n)]
    } else {
        digits_text(n / 10).push(digit_char(n % 10))
    }
}

/// The decimal text of an integer, with a leading `-` when negative.
pub open spec fn decimal_text(v: int) -> Seq<char> {
    if v < 0 {
        seq!['-'] + digits_text((-v) as nat)
    } else {
        digits_text(v as nat)
    }
}

/// Append the decimal digits of `n`.
pub fn push_digits(out: &mut String, n: u32)
    ensures
        final(out)@ == old(out)@ + digits_text(n as nat),
    decreases n,
{
    if n >= 10 {
        push_digits(out, n / 10);
    }
    let b: u8 = (n % 10) as u8 + 48;
    push_char(out, b as char);
    assert(out@ =~= old(out)@ + digits_text(n as nat)) by {
        if n >= 10 {
            assert(digits_text(n as nat) == digits_text((n / 10) as nat).push(digit_char((n % 10) as nat)));
        }
    }
}

/// Append the decimal digits of a 64-bit `n`.
pub fn push_digits64(out: &mut String, n: u64)
    ensures
        final(out)@ == old(out)@ + digits_text(n as nat),
    decreases n,
{
    if n >= 10 {
        push_digits64(out, n / 10);
    }
    let b: u8 = (n % 10) as u8 + 48;
    push_char(out, b as char);
    assert(out@ =~= old(out)@ + digits_text(n as nat)) by {
        if n >= 10 {
            assert(digits_text(n as nat) == digits_text((n / 10) as nat).push(digit_char((n % 10) as nat)));
        }
    }
}

/// Append the decimal text of `v`, as `format!("{}", v)` writes it.
pub fn push_decimal(out: &mut String, v: i16)
    ensures
        final(out)@ == old(out)@ + decimal_text(v as int),
{
    if v < 0 {
        push_char(out, '-');
        let magnitude: u32 = (0 - (v as i32)) as u32;
        push_digits(out, magnitude);
        assert(out@ =~= old(out)@ + decimal_text(v as int));
    } else {
        push_digits(out, v as u32);
    }
}

} // verus!

verus! {

/// The text has no characters.
pub fn is_empty_text(s: &str) -> (r: bool)
    ensures
        r == (s@.len() == 0),
{
    s.unicode_len() == 0
}

/// Append the characters of `s`.
pub fn push_text(out: &mut String, s: &str)
    ensures
        final(out)@ == old(out)@ + s@,
{
    let cs = chars_of(s);
    let mut i: usize = 0;
    while i < cs.len()
        invariant
            cs@ == s@,
            i <= cs@.len(),
            out@ == old(out)@ + cs@.take(i as int),
        decreases cs@.len() - i,
    {
        push_char(out, cs[i]);
        assert(old(out)@ + cs@.take(i + 1) =~= (old(out)@ + cs@.take(i as int)).push(cs@[i as int]));
        i = i + 1;
    }
    assert(cs@.take(cs@.len() as int) =~= cs@);
}

/// Exact comparison of two texts.
pub fn same_text(a: &str, b: &str) -> (r: bool)
    ensures
        r == (a@ == b@),
{
    let ac = chars_of(a);
    let bc = chars_of(b);
    if ac.len() != bc.len() {
        return false;
    }
    let mut i: usize = 0;
    while i < ac.len()
        invariant
            ac@ == a@,
            bc@ == b@,
            ac.len() == bc.len(),
            i <= ac.len(),
            forall|j: int| 0 <= j < i ==> a@[j] == b@[j],
        decreases ac.len() - i,
    {
        if ac[i] != bc[i] {
            return false;
        }
        i = i + 1;
    }
    assert(a@ =~= b@);
    true
}

} // verus!
