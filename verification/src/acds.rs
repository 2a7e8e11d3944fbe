//! The ACDSDATA section of a DXF file (the AcDb data store). From R2013 on
//! the ACIS data of solids, regions, bodies and surfaces lives there: each
//! `ASM_Data` record carries the binary SAB data of one entity as
//! hexadecimal chunks, bound to the entity by a 320 handle.
use vstd::prelude::*;

use vstd::string::StringSliceAdditionalSpecFns;
use vstd::utf8::encode_utf8;

use crate::mif::hex_digit;
use crate::text::{chars_of, same_text};

verus! {

/// A character that `char::is_whitespace` accepts: the Unicode
/// `White_Space` characters.
pub open spec fn is_white_space(c: char) -> bool {
    ('\t' <= c <= '\r') || c == ' ' || c == '\u{85}' || c == '\u{A0}' || c == '\u{1680}' || (
    '\u{2000}' <= c <= '\u{200A}') || c == '\u{2028}' || c == '\u{2029}' || c == '\u{202F}' || c
        == '\u{205F}' || c == '\u{3000}'
}

/// The text without its leading white space.
pub open spec fn trim_start(s: Seq<char>) -> Seq<char>
    decreases s.len(),
{
    if s.len() > 0 && is_white_space(s[0]) {
        trim_start(s.drop_first())
    } else {
        s
    }
}

/// The text without its trailing white space.
pub open spec fn trim_end(s: Seq<char>) -> Seq<char>
    decreases s.len(),
{
    if s.len() > 0 && is_white_space(s.last()) {
        trim_end(s.drop_last())
    } else {
        s
    }
}

/// The text without leading and trailing white space.
pub open spec fn trimmed(s: Seq<char>) -> Seq<char> {
    trim_end(trim_start(s))
}

/// `str::trim`: the text without leading and trailing white space, white
/// space being what `char::is_whitespace` accepts.
#[verifier::external_body]
pub(crate) fn trim_text(s: &str) -> (r: &str)
    ensures
        r@ == trimmed(s@),
{
    s.trim()
}

/// The value of hexadecimal digits, if all are digits.
pub open spec fn hex_number(d: Seq<char>) -> Option<nat>
    decreases d.len(),
{
    if d.len() == 0 {
        Some(0)
    } else {
        match (hex_number(d.drop_last()), hex_digit(d.last())) {
            (Some(high), Some(low)) => Some(high * 16 + low as nat),
            _ => None,
        }
    }
}

/// The text read as a `u64` in base 16, as `u64::from_str_radix(_, 16)`
/// reads it: an optional `+`, then at least one hexadecimal digit, and a
/// value that fits.
pub open spec fn parse_hex_u64(s: Seq<char>) -> Option<u64> {
    let digits = if s.len() > 0 && s[0] == '+' {
        s.drop_first()
    } else {
        s
    };
    if digits.len() == 0 {
        None
    } else {
        match hex_number(digits) {
            Some(v) => if v <= u64::MAX {
                Some(v as u64)
            } else {
                None
            },
            None => None,
        }
    }
}

proof fn lemma_hex_number_prefix(d: Seq<char>, k: int)
    requires
        0 <= k <= d.len(),
        hex_number(d) is Some,
    ensures
        hex_number(d.take(k)) is Some,
        hex_number(d.take(k))->0 <= hex_number(d)->0,
    decreases d.len(),
{
    if k < d.len() {
        assert(d.drop_last().take(k) =~= d.take(k));
        lemma_hex_number_prefix(d.drop_last(), k);
    } else {
        assert(d.take(k) =~= d);
    }
}

/// Value of one hexadecimal digit.
fn hex_value(c: char) -> (r: Option<u32>)
    ensures
        r == hex_digit(c),
{
    if '0' <= c && c <= '9' {
        Some((c as u32) - ('0' as u32))
    } else if 'a' <= c && c <= 'f' {
        Some((c as u32) - ('a' as u32) + 10)
    } else if 'A' <= c && c <= 'F' {
        Some((c as u32) - ('A' as u32) + 10)
    } else {
        None
    }
}

/// Read a `u64` in base 16, as `u64::from_str_radix(_, 16)` does.
pub fn parse_hex_u64_text(s: &str) -> (r: Option<u64>)
    ensures
        r == parse_hex_u64(s@),
{
    let cs = chars_of(s);
    let start: usize = if cs.len() > 0 && cs[0] == '+' {
        1
    } else {
        0
    };
    let ghost digits = if s@.len() > 0 && s@[0] == '+' {
        s@.drop_first()
    } else {
        s@
    };
    assert(digits =~= cs@.subrange(start as int, cs@.len() as int));
    if start == cs.len() {
        return None;
    }
    let mut value: u64 = 0;
    let mut i: usize = start;
    while i < cs.len()
        invariant
            cs@ == s@,
            start <= i <= cs@.len(),
            start < cs@.len(),
            digits == (if s@.len() > 0 && s@[0] == '+' {
                s@.drop_first()
            } else {
                s@
            }),
            digits.len() > 0,
            digits == cs@.subrange(start as int, cs@.len() as int),
            hex_number(digits.take(i - start)) == Some(value as nat),
        decreases cs@.len() - i,
    {
        let ghost prefix = digits.take(i - start);
        assert(digits.take(i + 1 - start).drop_last() =~= prefix);
        assert(digits.take(i + 1 - start).last() == cs@[i as int]);
        let d = match hex_value(cs[i]) {
            Some(d) => d,
            None => {
                proof {
                    assert(hex_number(digits.take(i + 1 - start)) is None);
                    if hex_number(digits) is Some {
                        lemma_hex_number_prefix(digits, i + 1 - start);
                    }
                }
                return None;
            },
        };
        if value > (u64::MAX - d as u64) / 16 {
            proof {
                assert(value * 16 + d > u64::MAX) by (nonlinear_arith)
                    requires
                        value > (u64::MAX - d as u64) / 16,
                        d < 16,
                ;
                assert(hex_number(digits.take(i + 1 - start)) == Some((value * 16 + d) as nat));
                if hex_number(digits) is Some {
                    lemma_hex_number_prefix(digits, i + 1 - start);
                }
            }
            return None;
        }
        assert(value * 16 + d <= u64::MAX) by (nonlinear_arith)
            requires
                value <= (u64::MAX - d as u64) / 16,
                d < 16,
        ;
        value = value * 16 + d as u64;
        i = i + 1;
    }
    assert(digits.take(i - start) =~= digits);
    Some(value)
}

/// The value of a hexadecimal digit byte.
pub open spec fn hex_byte_value(b: u8) -> Option<u32> {
    hex_digit(b as char)
}

/// The bytes that the hexadecimal digit pairs of `hex` stand for: each
/// pair of two digits gives a byte, other pairs are skipped, and a last
/// lone byte is ignored.
pub open spec fn hex_pair_bytes(hex: Seq<u8>) -> Seq<u8>
    decreases hex.len(),
{
    if hex.len() < 2 {
        seq![]
    } else {
        (match (hex_byte_value(hex[0]), hex_byte_value(hex[1])) {
            (Some(hi), Some(lo)) => seq![(hi * 16 + lo) as u8],
            _ => seq![],
        }) + hex_pair_bytes(hex.skip(2))
    }
}

/// Append the bytes of the hexadecimal digit pairs of `hex`.
fn push_hex_pairs(out: &mut Vec<u8>, hex: &[u8])
    ensures
        final(out)@ == old(out)@ + hex_pair_bytes(hex@),
{
    let mut i: usize = 0;
    assert(hex@.skip(0) =~= hex@);
    while hex.len() - i >= 2
        invariant
            i <= hex@.len(),
            out@ + hex_pair_bytes(hex@.skip(i as int)) == old(out)@ + hex_pair_bytes(hex@),
        decreases hex@.len() - i,
    {
        let ghost rest = hex@.skip(i as int);
        assert(rest[0] == hex@[i as int]);
        assert(rest[1] == hex@[i + 1]);
        assert(rest.skip(2) =~= hex@.skip(i + 2));
        let ghost before = out@;
        match (hex_value(hex[i] as char), hex_value(hex[i + 1] as char)) {
            (Some(hi), Some(lo)) => {
                out.push((hi * 16 + lo) as u8);
                assert(out@ + hex_pair_bytes(hex@.skip(i + 2)) =~= before + hex_pair_bytes(rest));
            },
            _ => {
                assert(out@ + hex_pair_bytes(hex@.skip(i + 2)) =~= before + hex_pair_bytes(rest));
            },
        }
        i = i + 2;
    }
    assert(hex_pair_bytes(hex@.skip(i as int)) =~= Seq::<u8>::empty());
}

/// One record of the data store read so far: the entity it is bound to,
/// whether it is an `ASM_Data` record, and its binary data.
pub struct RecordState {
    pub handle: Option<u64>,
    pub is_asm: bool,
    pub bytes: Seq<u8>,
}

/// The `ASM_Data` record read so far, if it is complete: bound to an entity
/// and with data.
pub open spec fn finished(st: RecordState) -> Option<(u64, Seq<u8>)> {
    if st.is_asm && st.bytes.len() > 0 && st.handle is Some {
        Some((st.handle->0, st.bytes))
    } else {
        None
    }
}

/// The SAB data of the `ASM_Data` records in the group codes and values
/// from position `i` up to `ENDSEC`, appended to `found`: a record ends
/// at each group code 0; 320 binds it to an entity (a hexadecimal handle),
/// 2 names its property (only `ASM_Data` is kept), and 310 carries a
/// hexadecimal chunk of data.
pub open spec fn sab_blobs_from(
    pairs: Seq<(i32, Seq<char>)>,
    i: int,
    st: RecordState,
    found: Seq<(u64, Seq<u8>)>,
) -> Seq<(u64, Seq<u8>)>
    decreases pairs.len() - i,
{
    if i < 0 || i >= pairs.len() {
        found
    } else {
        let (code, value) = pairs[i];
        if code == 0 {
            let found2 = match finished(st) {
                Some(blob) => found.push(blob),
                None => found,
            };
            if value == "ENDSEC"@ {
                found2
            } else {
                sab_blobs_from(
                    pairs,
                    i + 1,
                    RecordState { handle: None, is_asm: false, bytes: seq![] },
                    found2,
                )
            }
        } else if code == 320 {
            let handle = match parse_hex_u64(trimmed(value)) {
                Some(h) => Some(h),
                None => st.handle,
            };
            sab_blobs_from(pairs, i + 1, RecordState { handle, ..st }, found)
        } else if code == 2 {
            sab_blobs_from(pairs, i + 1, RecordState { is_asm: value == "ASM_Data"@, ..st }, found)
        } else if code == 310 && st.is_asm {
            sab_blobs_from(
                pairs,
                i + 1,
                RecordState { bytes: st.bytes + hex_pair_bytes(encode_utf8(trimmed(value))), ..st },
                found,
            )
        } else {
            sab_blobs_from(pairs, i + 1, st, found)
        }
    }
}

/// The group codes and values as texts.
pub open spec fn pairs_view(pairs: Seq<(i32, String)>) -> Seq<(i32, Seq<char>)> {
    pairs.map_values(|p: (i32, String)| (p.0, p.1@))
}

/// The SAB data of the `ASM_Data` records of an ACDSDATA section, by the
/// handle of the entity each belongs to, from the section's group codes and
/// values.
pub fn acds_sab_blobs(pairs: &Vec<(i32, String)>) -> (r: Vec<(u64, Vec<u8>)>)
    ensures
        r@.map_values(|b: (u64, Vec<u8>)| (b.0, b.1@)) == sab_blobs_from(
            pairs_view(pairs@),
            0,
            RecordState { handle: None, is_asm: false, bytes: seq![] },
            seq![],
        ),
{
    let ghost pv = pairs_view(pairs@);
    let ghost f = |b: (u64, Vec<u8>)| (b.0, b.1@);
    let mut blobs: Vec<(u64, Vec<u8>)> = Vec::new();
    let mut handle: Option<u64> = None;
    let mut is_asm = false;
    let mut bytes: Vec<u8> = Vec::new();
    let mut i: usize = 0;
    assert(blobs@.map_values(f) =~= Seq::<(u64, Seq<u8>)>::empty());
    while i < pairs.len()
        invariant
            pv == pairs_view(pairs@),
            f == (|b: (u64, Vec<u8>)| (b.0, b.1@)),
            i <= pairs@.len(),
            sab_blobs_from(pv, 0, RecordState { handle: None, is_asm: false, bytes: seq![] }, seq![])
                == sab_blobs_from(
                pv,
                i as int,
                RecordState { handle, is_asm, bytes: bytes@ },
                blobs@.map_values(f),
            ),
        decreases pairs@.len() - i,
    {
        let code = pairs[i].0;
        let value = pairs[i].1.as_str();
        assert(pv[i as int] == (code, value@));
        if code == 0 {
            let ghost st = RecordState { handle, is_asm, bytes: bytes@ };
            if is_asm && bytes.len() > 0 && handle.is_some() {
                let h = match handle {
                    Some(h) => h,
                    None => 0,
                };
                let ghost before = blobs@.map_values(f);
                let taken = bytes;
                bytes = Vec::new();
                blobs.push((h, taken));
                assert(blobs@.map_values(f) =~= before.push((h, st.bytes)));
            } else {
                bytes = Vec::new();
            }
            handle = None;
            is_asm = false;
            assert(bytes@ =~= Seq::<u8>::empty());
            if same_text(value, "ENDSEC") {
                return blobs;
            }
        } else if code == 320 {
            match parse_hex_u64_text(trim_text(value)) {
                Some(h) => {
                    handle = Some(h);
                },
                None => {},
            }
        } else if code == 2 {
            is_asm = same_text(value, "ASM_Data");
        } else if code == 310 && is_asm {
            let hex = trim_text(value).as_bytes();
            push_hex_pairs(&mut bytes, hex);
        }
        i = i + 1;
    }
    blobs
}

} // verus!
