//! DXF code page (`$DWGCODEPAGE`) names, the compact DWG code-page index,
//! and the legacy encodings they select.
use vstd::prelude::*;

use crate::mif::{ascii_bytes, char_escape, escape_intro_at, escape_marked, hex_upper,
    lemma_escape_marked_decodes, lemma_no_escape_unchanged, mif_decoded, unit_escape, utf16_units};
use crate::text::{ascii_lower, chars_of, eq_ignore_ascii_case, eq_ignore_case, push_char};

verus! {

#[verifier::external_type_specification]
#[verifier::external_body]
pub struct ExEncoding(encoding_rs::Encoding);

/// An 8-bit or multi-byte code page that a legacy drawing may use for its text.
#[derive(Clone, Copy, Debug, PartialEq, Eq, Structural)]
pub enum LegacyEncoding {
    Gbk,
    Big5,
    EucKr,
    ShiftJis,
    Ibm866,
    Windows874,
    Windows1250,
    Windows1251,
    Windows1252,
    Windows1253,
    Windows1254,
    Windows1255,
    Windows1256,
    Windows1257,
    Windows1258,
    Iso8859_2,
    Iso8859_3,
    Iso8859_4,
    Iso8859_5,
    Iso8859_6,
    Iso8859_7,
    Iso8859_8,
    Iso8859_10,
    Iso8859_13,
    Iso8859_14,
    Iso8859_15,
    Koi8R,
    Koi8U,
}

/// The WHATWG label under which `encoding_rs` registers the encoding.
pub open spec fn label_of(e: LegacyEncoding) -> Seq<char> {
    match e {
        LegacyEncoding::Gbk => "gbk"@,
        LegacyEncoding::Big5 => "big5"@,
        LegacyEncoding::EucKr => "euc-kr"@,
        LegacyEncoding::ShiftJis => "shift_jis"@,
        LegacyEncoding::Ibm866 => "ibm866"@,
        LegacyEncoding::Windows874 => "windows-874"@,
        LegacyEncoding::Windows1250 => "windows-1250"@,
        LegacyEncoding::Windows1251 => "windows-1251"@,
        LegacyEncoding::Windows1252 => "windows-1252"@,
        LegacyEncoding::Windows1253 => "windows-1253"@,
        LegacyEncoding::Windows1254 => "windows-1254"@,
        LegacyEncoding::Windows1255 => "windows-1255"@,
        LegacyEncoding::Windows1256 => "windows-1256"@,
        LegacyEncoding::Windows1257 => "windows-1257"@,
        LegacyEncoding::Windows1258 => "windows-1258"@,
        LegacyEncoding::Iso8859_2 => "iso-8859-2"@,
        LegacyEncoding::Iso8859_3 => "iso-8859-3"@,
        LegacyEncoding::Iso8859_4 => "iso-8859-4"@,
        LegacyEncoding::Iso8859_5 => "iso-8859-5"@,
        LegacyEncoding::Iso8859_6 => "iso-8859-6"@,
        LegacyEncoding::Iso8859_7 => "iso-8859-7"@,
        LegacyEncoding::Iso8859_8 => "iso-8859-8"@,
        LegacyEncoding::Iso8859_10 => "iso-8859-10"@,
        LegacyEncoding::Iso8859_13 => "iso-8859-13"@,
        LegacyEncoding::Iso8859_14 => "iso-8859-14"@,
        LegacyEncoding::Iso8859_15 => "iso-8859-15"@,
        LegacyEncoding::Koi8R => "koi8-r"@,
        LegacyEncoding::Koi8U => "koi8-u"@,
    }
}

/// The text is the label of one of the legacy encodings.
pub open spec fn is_legacy_label(label: Seq<char>) -> bool {
    exists|e: LegacyEncoding| label_of(e) == label
}

impl LegacyEncoding {
    /// The WHATWG label of the encoding.
    pub fn label(&self) -> (r: &'static str)
        ensures
            r@ == label_of(*self),
    {
        match self {
            LegacyEncoding::Gbk => "gbk",
            LegacyEncoding::Big5 => "big5",
            LegacyEncoding::EucKr => "euc-kr",
            LegacyEncoding::ShiftJis => "shift_jis",
            LegacyEncoding::Ibm866 => "ibm866",
            LegacyEncoding::Windows874 => "windows-874",
            LegacyEncoding::Windows1250 => "windows-1250",
            LegacyEncoding::Windows1251 => "windows-1251",
            LegacyEncoding::Windows1252 => "windows-1252",
            LegacyEncoding::Windows1253 => "windows-1253",
            LegacyEncoding::Windows1254 => "windows-1254",
            LegacyEncoding::Windows1255 => "windows-1255",
            LegacyEncoding::Windows1256 => "windows-1256",
            LegacyEncoding::Windows1257 => "windows-1257",
            LegacyEncoding::Windows1258 => "windows-1258",
            LegacyEncoding::Iso8859_2 => "iso-8859-2",
            LegacyEncoding::Iso8859_3 => "iso-8859-3",
            LegacyEncoding::Iso8859_4 => "iso-8859-4",
            LegacyEncoding::Iso8859_5 => "iso-8859-5",
            LegacyEncoding::Iso8859_6 => "iso-8859-6",
            LegacyEncoding::Iso8859_7 => "iso-8859-7",
            LegacyEncoding::Iso8859_8 => "iso-8859-8",
            LegacyEncoding::Iso8859_10 => "iso-8859-10",
            LegacyEncoding::Iso8859_13 => "iso-8859-13",
            LegacyEncoding::Iso8859_14 => "iso-8859-14",
            LegacyEncoding::Iso8859_15 => "iso-8859-15",
            LegacyEncoding::Koi8R => "koi8-r",
            LegacyEncoding::Koi8U => "koi8-u",
        }
    }
}

/// The encoding that a `$DWGCODEPAGE` name selects (ASCII letters compared
/// without case): `None` for the names of ASCII and UTF-8, Windows-1252 for
/// names it does not know.
pub open spec fn code_page_encoding(s: Seq<char>) -> Option<LegacyEncoding> {
    if eq_ignore_case(s, "gb2312"@) || eq_ignore_case(s, "ansi_936"@) {
        Some(LegacyEncoding::Gbk)
    }
    else if eq_ignore_case(s, "big5"@) || eq_ignore_case(s, "ansi_950"@) {
        Some(LegacyEncoding::Big5)
    }
    else if eq_ignore_case(s, "korean"@) || eq_ignore_case(s, "ansi_949"@) || eq_ignore_case(s, "johab"@) {
        Some(LegacyEncoding::EucKr)
    }
    else if eq_ignore_case(s, "ansi_932"@) {
        Some(LegacyEncoding::ShiftJis)
    }
    else if eq_ignore_case(s, "dos437"@) {
        Some(LegacyEncoding::Ibm866)
    }
    else if eq_ignore_case(s, "dos850"@) {
        Some(LegacyEncoding::Windows1252)
    }
    else if eq_ignore_case(s, "dos852"@) {
        Some(LegacyEncoding::Windows1250)
    }
    else if eq_ignore_case(s, "dos855"@) || eq_ignore_case(s, "dos866"@) {
        Some(LegacyEncoding::Ibm866)
    }
    else if eq_ignore_case(s, "dos857"@) {
        Some(LegacyEncoding::Windows1254)
    }
    else if eq_ignore_case(s, "dos860"@) {
        Some(LegacyEncoding::Windows1252)
    }
    else if eq_ignore_case(s, "dos861"@) {
        Some(LegacyEncoding::Windows1252)
    }
    else if eq_ignore_case(s, "dos863"@) {
        Some(LegacyEncoding::Windows1252)
    }
    else if eq_ignore_case(s, "dos865"@) {
        Some(LegacyEncoding::Windows1252)
    }
    else if eq_ignore_case(s, "dos869"@) {
        Some(LegacyEncoding::Windows1253)
    }
    else if eq_ignore_case(s, "ansi_874"@) {
        Some(LegacyEncoding::Windows874)
    }
    else if eq_ignore_case(s, "ansi_1250"@) {
        Some(LegacyEncoding::Windows1250)
    }
    else if eq_ignore_case(s, "ansi_1251"@) {
        Some(LegacyEncoding::Windows1251)
    }
    else if eq_ignore_case(s, "ansi_1252"@) {
        Some(LegacyEncoding::Windows1252)
    }
    else if eq_ignore_case(s, "ansi_1253"@) {
        Some(LegacyEncoding::Windows1253)
    }
    else if eq_ignore_case(s, "ansi_1254"@) {
        Some(LegacyEncoding::Windows1254)
    }
    else if eq_ignore_case(s, "ansi_1255"@) {
        Some(LegacyEncoding::Windows1255)
    }
    else if eq_ignore_case(s, "ansi_1256"@) {
        Some(LegacyEncoding::Windows1256)
    }
    else if eq_ignore_case(s, "ansi_1257"@) {
        Some(LegacyEncoding::Windows1257)
    }
    else if eq_ignore_case(s, "ansi_1258"@) {
        Some(LegacyEncoding::Windows1258)
    }
    else if eq_ignore_case(s, "iso8859-1"@) || eq_ignore_case(s, "iso_8859-1"@) {
        Some(LegacyEncoding::Windows1252)
    }
    else if eq_ignore_case(s, "iso8859-2"@) || eq_ignore_case(s, "iso_8859-2"@) {
        Some(LegacyEncoding::Iso8859_2)
    }
    else if eq_ignore_case(s, "iso8859-3"@) || eq_ignore_case(s, "iso_8859-3"@) {
        Some(LegacyEncoding::Iso8859_3)
    }
    else if eq_ignore_case(s, "iso8859-4"@) || eq_ignore_case(s, "iso_8859-4"@) {
        Some(LegacyEncoding::Iso8859_4)
    }
    else if eq_ignore_case(s, "iso8859-5"@) || eq_ignore_case(s, "iso_8859-5"@) {
        Some(LegacyEncoding::Iso8859_5)
    }
    else if eq_ignore_case(s, "iso8859-6"@) || eq_ignore_case(s, "iso_8859-6"@) {
        Some(LegacyEncoding::Iso8859_6)
    }
    else if eq_ignore_case(s, "iso8859-7"@) || eq_ignore_case(s, "iso_8859-7"@) {
        Some(LegacyEncoding::Iso8859_7)
    }
    else if eq_ignore_case(s, "iso8859-8"@) || eq_ignore_case(s, "iso_8859-8"@) {
        Some(LegacyEncoding::Iso8859_8)
    }
    else if eq_ignore_case(s, "iso8859-9"@) || eq_ignore_case(s, "iso_8859-9"@) {
        Some(LegacyEncoding::Windows1254)
    }
    else if eq_ignore_case(s, "iso8859-10"@) || eq_ignore_case(s, "iso_8859-10"@) {
        Some(LegacyEncoding::Iso8859_10)
    }
    else if eq_ignore_case(s, "iso8859-13"@) || eq_ignore_case(s, "iso_8859-13"@) {
        Some(LegacyEncoding::Iso8859_13)
    }
    else if eq_ignore_case(s, "iso8859-14"@) || eq_ignore_case(s, "iso_8859-14"@) {
        Some(LegacyEncoding::Iso8859_14)
    }
    else if eq_ignore_case(s, "iso8859-15"@) || eq_ignore_case(s, "iso_8859-15"@) {
        Some(LegacyEncoding::Iso8859_15)
    }
    else if eq_ignore_case(s, "koi8-r"@) {
        Some(LegacyEncoding::Koi8R)
    }
    else if eq_ignore_case(s, "koi8-u"@) {
        Some(LegacyEncoding::Koi8U)
    }
    else if eq_ignore_case(s, "ascii"@) || eq_ignore_case(s, "utf-8"@) || eq_ignore_case(s, "utf8"@) || eq_ignore_case(s, "unicode"@) {
        None
    } else {
        Some(LegacyEncoding::Windows1252)
    }
}

/// The encoding that a `$DWGCODEPAGE` name selects; `None` where the text
/// needs no transcoding (ASCII, UTF-8).
pub fn legacy_encoding_for_code_page(code_page: &str) -> (r: Option<LegacyEncoding>)
    ensures
        r == code_page_encoding(code_page@),
{
    if eq_ignore_ascii_case(code_page, "gb2312") || eq_ignore_ascii_case(code_page, "ansi_936") {
        Some(LegacyEncoding::Gbk)
    }
    else if eq_ignore_ascii_case(code_page, "big5") || eq_ignore_ascii_case(code_page, "ansi_950") {
        Some(LegacyEncoding::Big5)
    }
    else if eq_ignore_ascii_case(code_page, "korean") || eq_ignore_ascii_case(code_page, "ansi_949") || eq_ignore_ascii_case(code_page, "johab") {
        Some(LegacyEncoding::EucKr)
    }
    else if eq_ignore_ascii_case(code_page, "ansi_932") {
        Some(LegacyEncoding::ShiftJis)
    }
    else if eq_ignore_ascii_case(code_page, "dos437") {
        Some(LegacyEncoding::Ibm866)
    }
    else if eq_ignore_ascii_case(code_page, "dos850") {
        Some(LegacyEncoding::Windows1252)
    }
    else if eq_ignore_ascii_case(code_page, "dos852") {
        Some(LegacyEncoding::Windows1250)
    }
    else if eq_ignore_ascii_case(code_page, "dos855") || eq_ignore_ascii_case(code_page, "dos866") {
        Some(LegacyEncoding::Ibm866)
    }
    else if eq_ignore_ascii_case(code_page, "dos857") {
        Some(LegacyEncoding::Windows1254)
    }
    else if eq_ignore_ascii_case(code_page, "dos860") {
        Some(LegacyEncoding::Windows1252)
    }
    else if eq_ignore_ascii_case(code_page, "dos861") {
        Some(LegacyEncoding::Windows1252)
    }
    else if eq_ignore_ascii_case(code_page, "dos863") {
        Some(LegacyEncoding::Windows1252)
    }
    else if eq_ignore_ascii_case(code_page, "dos865") {
        Some(LegacyEncoding::Windows1252)
    }
    else if eq_ignore_ascii_case(code_page, "dos869") {
        Some(LegacyEncoding::Windows1253)
    }
    else if eq_ignore_ascii_case(code_page, "ansi_874") {
        Some(LegacyEncoding::Windows874)
    }
    else if eq_ignore_ascii_case(code_page, "ansi_1250") {
        Some(LegacyEncoding::Windows1250)
    }
    else if eq_ignore_ascii_case(code_page, "ansi_1251") {
        Some(LegacyEncoding::Windows1251)
    }
    else if eq_ignore_ascii_case(code_page, "ansi_1252") {
        Some(LegacyEncoding::Windows1252)
    }
    else if eq_ignore_ascii_case(code_page, "ansi_1253") {
        Some(LegacyEncoding::Windows1253)
    }
    else if eq_ignore_ascii_case(code_page, "ansi_1254") {
        Some(LegacyEncoding::Windows1254)
    }
    else if eq_ignore_ascii_case(code_page, "ansi_1255") {
        Some(LegacyEncoding::Windows1255)
    }
    else if eq_ignore_ascii_case(code_page, "ansi_1256") {
        Some(LegacyEncoding::Windows1256)
    }
    else if eq_ignore_ascii_case(code_page, "ansi_1257") {
        Some(LegacyEncoding::Windows1257)
    }
    else if eq_ignore_ascii_case(code_page, "ansi_1258") {
        Some(LegacyEncoding::Windows1258)
    }
    else if eq_ignore_ascii_case(code_page, "iso8859-1") || eq_ignore_ascii_case(code_page, "iso_8859-1") {
        Some(LegacyEncoding::Windows1252)
    }
    else if eq_ignore_ascii_case(code_page, "iso8859-2") || eq_ignore_ascii_case(code_page, "iso_8859-2") {
        Some(LegacyEncoding::Iso8859_2)
    }
    else if eq_ignore_ascii_case(code_page, "iso8859-3") || eq_ignore_ascii_case(code_page, "iso_8859-3") {
        Some(LegacyEncoding::Iso8859_3)
    }
    else if eq_ignore_ascii_case(code_page, "iso8859-4") || eq_ignore_ascii_case(code_page, "iso_8859-4") {
        Some(LegacyEncoding::Iso8859_4)
    }
    else if eq_ignore_ascii_case(code_page, "iso8859-5") || eq_ignore_ascii_case(code_page, "iso_8859-5") {
        Some(LegacyEncoding::Iso8859_5)
    }
    else if eq_ignore_ascii_case(code_page, "iso8859-6") || eq_ignore_ascii_case(code_page, "iso_8859-6") {
        Some(LegacyEncoding::Iso8859_6)
    }
    else if eq_ignore_ascii_case(code_page, "iso8859-7") || eq_ignore_ascii_case(code_page, "iso_8859-7") {
        Some(LegacyEncoding::Iso8859_7)
    }
    else if eq_ignore_ascii_case(code_page, "iso8859-8") || eq_ignore_ascii_case(code_page, "iso_8859-8") {
        Some(LegacyEncoding::Iso8859_8)
    }
    else if eq_ignore_ascii_case(code_page, "iso8859-9") || eq_ignore_ascii_case(code_page, "iso_8859-9") {
        Some(LegacyEncoding::Windows1254)
    }
    else if eq_ignore_ascii_case(code_page, "iso8859-10") || eq_ignore_ascii_case(code_page, "iso_8859-10") {
        Some(LegacyEncoding::Iso8859_10)
    }
    else if eq_ignore_ascii_case(code_page, "iso8859-13") || eq_ignore_ascii_case(code_page, "iso_8859-13") {
        Some(LegacyEncoding::Iso8859_13)
    }
    else if eq_ignore_ascii_case(code_page, "iso8859-14") || eq_ignore_ascii_case(code_page, "iso_8859-14") {
        Some(LegacyEncoding::Iso8859_14)
    }
    else if eq_ignore_ascii_case(code_page, "iso8859-15") || eq_ignore_ascii_case(code_page, "iso_8859-15") {
        Some(LegacyEncoding::Iso8859_15)
    }
    else if eq_ignore_ascii_case(code_page, "koi8-r") {
        Some(LegacyEncoding::Koi8R)
    }
    else if eq_ignore_ascii_case(code_page, "koi8-u") {
        Some(LegacyEncoding::Koi8U)
    }
    else if eq_ignore_ascii_case(code_page, "ascii") || eq_ignore_ascii_case(code_page, "utf-8") || eq_ignore_ascii_case(code_page, "utf8") || eq_ignore_ascii_case(code_page, "unicode") {
        None
    } else {
        Some(LegacyEncoding::Windows1252)
    }
}

/// The code-page name that a compact DWG code-page index stands for.
pub open spec fn code_page_name(index: u16) -> Seq<char> {
    if index == 1 {
        "ASCII"@
    }
    else if index == 2 {
        "ISO8859-1"@
    }
    else if index == 3 {
        "ISO8859-2"@
    }
    else if index == 4 {
        "ISO8859-3"@
    }
    else if index == 5 {
        "ISO8859-4"@
    }
    else if index == 6 {
        "ISO8859-5"@
    }
    else if index == 7 {
        "ISO8859-6"@
    }
    else if index == 8 {
        "ISO8859-7"@
    }
    else if index == 9 {
        "ISO8859-8"@
    }
    else if index == 10 {
        "ISO8859-9"@
    }
    else if index == 11 {
        "DOS437"@
    }
    else if index == 12 {
        "DOS850"@
    }
    else if index == 13 {
        "DOS852"@
    }
    else if index == 14 {
        "DOS855"@
    }
    else if index == 15 {
        "DOS857"@
    }
    else if index == 16 {
        "DOS860"@
    }
    else if index == 17 {
        "DOS861"@
    }
    else if index == 18 {
        "DOS863"@
    }
    else if index == 19 {
        "DOS864"@
    }
    else if index == 20 {
        "DOS865"@
    }
    else if index == 21 {
        "DOS869"@
    }
    else if index == 22 {
        "ANSI_932"@
    }
    else if index == 23 {
        "MAC-ROMAN"@
    }
    else if index == 24 {
        "BIG5"@
    }
    else if index == 25 {
        "KOREAN"@
    }
    else if index == 26 {
        "JOHAB"@
    }
    else if index == 27 {
        "DOS866"@
    }
    else if index == 28 {
        "ANSI_1250"@
    }
    else if index == 29 {
        "ANSI_1251"@
    }
    else if index == 30 {
        "ANSI_1252"@
    }
    else if index == 31 {
        "GB2312"@
    }
    else if index == 32 {
        "ANSI_1253"@
    }
    else if index == 33 {
        "ANSI_1254"@
    }
    else if index == 34 {
        "ANSI_1255"@
    }
    else if index == 35 {
        "ANSI_1256"@
    }
    else if index == 36 {
        "ANSI_1257"@
    }
    else if index == 37 {
        "ANSI_874"@
    }
    else if index == 38 {
        "ANSI_932"@
    }
    else if index == 39 {
        "GB2312"@
    }
    else if index == 40 {
        "KOREAN"@
    }
    else if index == 41 {
        "BIG5"@
    }
    else if index == 42 {
        "JOHAB"@
    }
    else if index == 43 {
        "UTF-8"@
    }
    else if index == 44 {
        "ANSI_1258"@
    }
    else {
        "ANSI_1252"@
    }
}

/// Resolve the compact code-page index stored in DWG file metadata.
pub fn dwg_code_page_name(index: u16) -> (r: &'static str)
    ensures
        r@ == code_page_name(index),
{
    match index {
        1 => "ASCII",
        2 => "ISO8859-1",
        3 => "ISO8859-2",
        4 => "ISO8859-3",
        5 => "ISO8859-4",
        6 => "ISO8859-5",
        7 => "ISO8859-6",
        8 => "ISO8859-7",
        9 => "ISO8859-8",
        10 => "ISO8859-9",
        11 => "DOS437",
        12 => "DOS850",
        13 => "DOS852",
        14 => "DOS855",
        15 => "DOS857",
        16 => "DOS860",
        17 => "DOS861",
        18 => "DOS863",
        19 => "DOS864",
        20 => "DOS865",
        21 => "DOS869",
        22 => "ANSI_932",
        23 => "MAC-ROMAN",
        24 => "BIG5",
        25 => "KOREAN",
        26 => "JOHAB",
        27 => "DOS866",
        28 => "ANSI_1250",
        29 => "ANSI_1251",
        30 => "ANSI_1252",
        31 => "GB2312",
        32 => "ANSI_1253",
        33 => "ANSI_1254",
        34 => "ANSI_1255",
        35 => "ANSI_1256",
        36 => "ANSI_1257",
        37 => "ANSI_874",
        38 => "ANSI_932",
        39 => "GB2312",
        40 => "KOREAN",
        41 => "BIG5",
        42 => "JOHAB",
        43 => "UTF-8",
        44 => "ANSI_1258",
        _ => "ANSI_1252",
    }
}

/// The compact DWG index of a `$DWGCODEPAGE` name (ASCII letters compared
/// without case); 30 (ANSI_1252) for names it does not know.
pub open spec fn code_page_index(s: Seq<char>) -> u16 {
    if eq_ignore_case(s, "ascii"@) {
        1
    }
    else if eq_ignore_case(s, "iso8859-1"@) || eq_ignore_case(s, "iso_8859-1"@) {
        2
    }
    else if eq_ignore_case(s, "iso8859-2"@) || eq_ignore_case(s, "iso_8859-2"@) {
        3
    }
    else if eq_ignore_case(s, "iso8859-3"@) || eq_ignore_case(s, "iso_8859-3"@) {
        4
    }
    else if eq_ignore_case(s, "iso8859-4"@) || eq_ignore_case(s, "iso_8859-4"@) {
        5
    }
    else if eq_ignore_case(s, "iso8859-5"@) || eq_ignore_case(s, "iso_8859-5"@) {
        6
    }
    else if eq_ignore_case(s, "iso8859-6"@) || eq_ignore_case(s, "iso_8859-6"@) {
        7
    }
    else if eq_ignore_case(s, "iso8859-7"@) || eq_ignore_case(s, "iso_8859-7"@) {
        8
    }
    else if eq_ignore_case(s, "iso8859-8"@) || eq_ignore_case(s, "iso_8859-8"@) {
        9
    }
    else if eq_ignore_case(s, "iso8859-9"@) || eq_ignore_case(s, "iso_8859-9"@) {
        10
    }
    else if eq_ignore_case(s, "dos437"@) {
        11
    }
    else if eq_ignore_case(s, "dos850"@) {
        12
    }
    else if eq_ignore_case(s, "dos852"@) {
        13
    }
    else if eq_ignore_case(s, "dos855"@) {
        14
    }
    else if eq_ignore_case(s, "dos857"@) {
        15
    }
    else if eq_ignore_case(s, "dos860"@) {
        16
    }
    else if eq_ignore_case(s, "dos861"@) {
        17
    }
    else if eq_ignore_case(s, "dos863"@) {
        18
    }
    else if eq_ignore_case(s, "dos864"@) {
        19
    }
    else if eq_ignore_case(s, "dos865"@) {
        20
    }
    else if eq_ignore_case(s, "dos869"@) {
        21
    }
    else if eq_ignore_case(s, "ansi_932"@) || eq_ignore_case(s, "dos932"@) {
        22
    }
    else if eq_ignore_case(s, "mac-roman"@) {
        23
    }
    else if eq_ignore_case(s, "big5"@) || eq_ignore_case(s, "ansi_950"@) || eq_ignore_case(s, "dos950"@) {
        24
    }
    else if eq_ignore_case(s, "korean"@) || eq_ignore_case(s, "ansi_949"@) {
        25
    }
    else if eq_ignore_case(s, "johab"@) {
        26
    }
    else if eq_ignore_case(s, "dos866"@) {
        27
    }
    else if eq_ignore_case(s, "ansi_1250"@) || eq_ignore_case(s, "ansi1250"@) {
        28
    }
    else if eq_ignore_case(s, "ansi_1251"@) || eq_ignore_case(s, "ansi1251"@) {
        29
    }
    else if eq_ignore_case(s, "ansi_1252"@) || eq_ignore_case(s, "ansi1252"@) {
        30
    }
    else if eq_ignore_case(s, "gb2312"@) || eq_ignore_case(s, "ansi_936"@) {
        31
    }
    else if eq_ignore_case(s, "ansi_1253"@) || eq_ignore_case(s, "ansi1253"@) {
        32
    }
    else if eq_ignore_case(s, "ansi_1254"@) || eq_ignore_case(s, "ansi1254"@) {
        33
    }
    else if eq_ignore_case(s, "ansi_1255"@) || eq_ignore_case(s, "ansi1255"@) {
        34
    }
    else if eq_ignore_case(s, "ansi_1256"@) || eq_ignore_case(s, "ansi1256"@) {
        35
    }
    else if eq_ignore_case(s, "ansi_1257"@) || eq_ignore_case(s, "ansi1257"@) {
        36
    }
    else if eq_ignore_case(s, "ansi_874"@) {
        37
    }
    else if eq_ignore_case(s, "utf-8"@) || eq_ignore_case(s, "utf8"@) || eq_ignore_case(s, "unicode"@) {
        43
    }
    else if eq_ignore_case(s, "ansi_1258"@) || eq_ignore_case(s, "ansi1258"@) {
        44
    }
    else {
        30
    }
}

/// Convert a DXF `$DWGCODEPAGE` name to the compact DWG metadata index.
pub fn dwg_code_page_index(code_page: &str) -> (r: u16)
    ensures
        r == code_page_index(code_page@),
{
    if eq_ignore_ascii_case(code_page, "ascii") {
        1
    }
    else if eq_ignore_ascii_case(code_page, "iso8859-1") || eq_ignore_ascii_case(code_page, "iso_8859-1") {
        2
    }
    else if eq_ignore_ascii_case(code_page, "iso8859-2") || eq_ignore_ascii_case(code_page, "iso_8859-2") {
        3
    }
    else if eq_ignore_ascii_case(code_page, "iso8859-3") || eq_ignore_ascii_case(code_page, "iso_8859-3") {
        4
    }
    else if eq_ignore_ascii_case(code_page, "iso8859-4") || eq_ignore_ascii_case(code_page, "iso_8859-4") {
        5
    }
    else if eq_ignore_ascii_case(code_page, "iso8859-5") || eq_ignore_ascii_case(code_page, "iso_8859-5") {
        6
    }
    else if eq_ignore_ascii_case(code_page, "iso8859-6") || eq_ignore_ascii_case(code_page, "iso_8859-6") {
        7
    }
    else if eq_ignore_ascii_case(code_page, "iso8859-7") || eq_ignore_ascii_case(code_page, "iso_8859-7") {
        8
    }
    else if eq_ignore_ascii_case(code_page, "iso8859-8") || eq_ignore_ascii_case(code_page, "iso_8859-8") {
        9
    }
    else if eq_ignore_ascii_case(code_page, "iso8859-9") || eq_ignore_ascii_case(code_page, "iso_8859-9") {
        10
    }
    else if eq_ignore_ascii_case(code_page, "dos437") {
        11
    }
    else if eq_ignore_ascii_case(code_page, "dos850") {
        12
    }
    else if eq_ignore_ascii_case(code_page, "dos852") {
        13
    }
    else if eq_ignore_ascii_case(code_page, "dos855") {
        14
    }
    else if eq_ignore_ascii_case(code_page, "dos857") {
        15
    }
    else if eq_ignore_ascii_case(code_page, "dos860") {
        16
    }
    else if eq_ignore_ascii_case(code_page, "dos861") {
        17
    }
    else if eq_ignore_ascii_case(code_page, "dos863") {
        18
    }
    else if eq_ignore_ascii_case(code_page, "dos864") {
        19
    }
    else if eq_ignore_ascii_case(code_page, "dos865") {
        20
    }
    else if eq_ignore_ascii_case(code_page, "dos869") {
        21
    }
    else if eq_ignore_ascii_case(code_page, "ansi_932") || eq_ignore_ascii_case(code_page, "dos932") {
        22
    }
    else if eq_ignore_ascii_case(code_page, "mac-roman") {
        23
    }
    else if eq_ignore_ascii_case(code_page, "big5") || eq_ignore_ascii_case(code_page, "ansi_950") || eq_ignore_ascii_case(code_page, "dos950") {
        24
    }
    else if eq_ignore_ascii_case(code_page, "korean") || eq_ignore_ascii_case(code_page, "ansi_949") {
        25
    }
    else if eq_ignore_ascii_case(code_page, "johab") {
        26
    }
    else if eq_ignore_ascii_case(code_page, "dos866") {
        27
    }
    else if eq_ignore_ascii_case(code_page, "ansi_1250") || eq_ignore_ascii_case(code_page, "ansi1250") {
        28
    }
    else if eq_ignore_ascii_case(code_page, "ansi_1251") || eq_ignore_ascii_case(code_page, "ansi1251") {
        29
    }
    else if eq_ignore_ascii_case(code_page, "ansi_1252") || eq_ignore_ascii_case(code_page, "ansi1252") {
        30
    }
    else if eq_ignore_ascii_case(code_page, "gb2312") || eq_ignore_ascii_case(code_page, "ansi_936") {
        31
    }
    else if eq_ignore_ascii_case(code_page, "ansi_1253") || eq_ignore_ascii_case(code_page, "ansi1253") {
        32
    }
    else if eq_ignore_ascii_case(code_page, "ansi_1254") || eq_ignore_ascii_case(code_page, "ansi1254") {
        33
    }
    else if eq_ignore_ascii_case(code_page, "ansi_1255") || eq_ignore_ascii_case(code_page, "ansi1255") {
        34
    }
    else if eq_ignore_ascii_case(code_page, "ansi_1256") || eq_ignore_ascii_case(code_page, "ansi1256") {
        35
    }
    else if eq_ignore_ascii_case(code_page, "ansi_1257") || eq_ignore_ascii_case(code_page, "ansi1257") {
        36
    }
    else if eq_ignore_ascii_case(code_page, "ansi_874") {
        37
    }
    else if eq_ignore_ascii_case(code_page, "utf-8") || eq_ignore_ascii_case(code_page, "utf8") || eq_ignore_ascii_case(code_page, "unicode") {
        43
    }
    else if eq_ignore_ascii_case(code_page, "ansi_1258") || eq_ignore_ascii_case(code_page, "ansi1258") {
        44
    }
    else {
        30
    }
}
/// Code-page names are compared without ASCII case: names that differ only
/// in the case of their letters select the same encoding and the same DWG
/// index.
pub proof fn lemma_code_page_case_insensitive(s: Seq<char>, t: Seq<char>)
    requires
        eq_ignore_case(s, t),
    ensures
        code_page_encoding(s) == code_page_encoding(t),
        code_page_index(s) == code_page_index(t),
{
    assert forall|u: Seq<char>| #[trigger] eq_ignore_case(s, u) == eq_ignore_case(t, u) by {
        crate::text::lemma_eq_ignore_case_equiv(s, t, u);
        crate::text::lemma_eq_ignore_case_equiv(t, s, u);
    }
}

/// The encoding that `encoding_rs` registers under `label`: one of its
/// static encodings, looked up in a fixed table.
pub uninterp spec fn labelled_encoding(label: Seq<char>) -> &'static encoding_rs::Encoding;

/// `encoding_rs::Encoding::for_label`: the encoding registered under `label`,
/// named [`labelled_encoding`] (the lookup reads a fixed table, so the same
/// label gives the same encoding). The contract does not say which encoding
/// that is; every label of [`LegacyEncoding`] is registered, so the lookup
/// does not fail.
#[verifier::external_body]
fn encoding_for_label(label: &str) -> (r: &'static encoding_rs::Encoding)
    requires
        is_legacy_label(label@),
    ensures
        r == labelled_encoding(label@),
{
    encoding_rs::Encoding::for_label(label.as_bytes()).unwrap()
}

/// The `encoding_rs` encoding for a DXF code page string; `None` where no
/// transcoding is needed (ASCII, UTF-8).
pub fn encoding_from_code_page(code_page: &str) -> (r: Option<&'static encoding_rs::Encoding>)
    ensures
        r == match code_page_encoding(code_page@) {
            Some(e) => Some(labelled_encoding(label_of(e))),
            None => None,
        },
{
    match legacy_encoding_for_code_page(code_page) {
        Some(encoding) => Some(encoding_for_label(encoding.label())),
        None => None,
    }
}

/// The legacy encoding that a compact DWG code-page index selects, with
/// Windows-1252 where the index names ASCII or UTF-8.
pub open spec fn dwg_index_encoding(index: u16) -> LegacyEncoding {
    match code_page_encoding(code_page_name(index)) {
        Some(e) => e,
        None => LegacyEncoding::Windows1252,
    }
}

/// The legacy encoding for a compact DWG code-page index.
pub fn legacy_encoding_for_dwg_code_page(index: u16) -> (r: LegacyEncoding)
    ensures
        r == dwg_index_encoding(index),
{
    match legacy_encoding_for_code_page(dwg_code_page_name(index)) {
        Some(encoding) => encoding,
        None => LegacyEncoding::Windows1252,
    }
}

/// The `encoding_rs` encoding for a compact DWG code-page index.
pub fn encoding_from_dwg_code_page(index: u16) -> (r: &'static encoding_rs::Encoding)
    ensures
        r == labelled_encoding(label_of(dwg_index_encoding(index))),
{
    let encoding = legacy_encoding_for_dwg_code_page(index);
    encoding_for_label(encoding.label())
}

/// What `encoding_rs` produces when it encodes `text` with the encoding
/// registered under `label`: the bytes (unmappable characters written as HTML
/// numeric character references) and whether any character was unmappable.
pub uninterp spec fn legacy_encode(label: Seq<char>, text: Seq<char>) -> (Seq<u8>, bool);

/// Every character of the text is ASCII.
pub open spec fn is_ascii_text(s: Seq<char>) -> bool {
    forall|i: int| 0 <= i < s.len() ==> (#[trigger] s[i] as u32) < 128
}

/// `encoding_rs::Encoding::encode` with the encoding registered under
/// `label`: the bytes and whether some character was unmappable. As the crate
/// documents, ASCII-only input to an ASCII-compatible encoding (all of
/// [`LegacyEncoding`]) comes back as its own bytes with nothing unmappable;
/// of other input nothing beyond the name is claimed.
#[verifier::external_body]
fn encode_in(label: &str, text: &str) -> (r: (Vec<u8>, bool))
    requires
        is_legacy_label(label@),
    ensures
        (r.0@, r.1) == legacy_encode(label@, text@),
        is_ascii_text(text@) ==> r.0@ == ascii_bytes(text@) && !r.1,
{
    let encoding = encoding_rs::Encoding::for_label(label.as_bytes()).unwrap();
    let (bytes, _, unmappable) = encoding.encode(text);
    (bytes.into_owned(), unmappable)
}

/// The bytes written for one character when the text as a whole has an
/// unmappable character: its encoding, or its MIF escape when the code page
/// cannot represent it.
pub open spec fn char_bytes(label: Seq<char>, c: char) -> Seq<u8> {
    let (bytes, unmappable) = legacy_encode(label, seq![c]);
    if unmappable {
        ascii_bytes(char_escape(c))
    } else {
        bytes
    }
}

/// `char_bytes` of every character, in order.
pub open spec fn chars_bytes(label: Seq<char>, s: Seq<char>) -> Seq<u8>
    decreases s.len(),
{
    if s.len() == 0 {
        Seq::empty()
    } else {
        chars_bytes(label, s.drop_last()) + char_bytes(label, s.last())
    }
}

/// The bytes of `text` in a legacy code page: the encoder's output when every
/// character is representable, otherwise character by character with MIF
/// escapes for the unrepresentable ones.
pub open spec fn legacy_string_bytes(e: LegacyEncoding, text: Seq<char>) -> Seq<u8> {
    let (bytes, unmappable) = legacy_encode(label_of(e), text);
    if unmappable {
        chars_bytes(label_of(e), text)
    } else {
        bytes
    }
}

fn hex_byte(d: u16) -> (r: u8)
    requires
        d < 16,
    ensures
        r == crate::mif::hex_upper(d as u32) as u8,
{
    if d < 10 {
        (d as u8) + 48
    } else {
        (d as u8) - 10 + 65
    }
}

/// Append the MIF escape `\U+XXXX` of one UTF-16 code unit.
fn push_unit_escape(out: &mut Vec<u8>, unit: u16)
    ensures
        final(out)@ == old(out)@ + ascii_bytes(unit_escape(unit)),
{
    let ghost start = out@;
    out.push(92u8);
    out.push(85u8);
    out.push(43u8);
    out.push(hex_byte(unit / 4096));
    out.push(hex_byte((unit / 256) % 16));
    out.push(hex_byte((unit / 16) % 16));
    out.push(hex_byte(unit % 16));
    assert(out@ =~= start + ascii_bytes(unit_escape(unit)));
}

/// Append the MIF escape of a character (a surrogate pair of escapes for
/// characters outside the Basic Multilingual Plane).
fn push_char_escape(out: &mut Vec<u8>, c: char)
    ensures
        final(out)@ == old(out)@ + ascii_bytes(char_escape(c)),
{
    let v = c as u32;
    if v < 0x10000 {
        push_unit_escape(out, v as u16);
    } else {
        let ghost start = out@;
        let high = (0xD800 + (v - 0x10000) / 0x400) as u16;
        let low = (0xDC00 + (v - 0x10000) % 0x400) as u16;
        assert(utf16_units(c) == seq![high, low]);
        push_unit_escape(out, high);
        push_unit_escape(out, low);
        assert(ascii_bytes(unit_escape(high) + unit_escape(low)) =~= ascii_bytes(unit_escape(high))
            + ascii_bytes(unit_escape(low)));
        assert(out@ =~= start + ascii_bytes(char_escape(c)));
    }
}

/// Encode a string to a legacy (pre-UTF-16) DWG code page.
///
/// Characters the code page cannot represent are emitted as AutoCAD MIF
/// `\U+XXXX` escapes (astral-plane characters as a surrogate pair of
/// escapes), which [`crate::mif::decode_mif_escapes`] turns back into the
/// characters.
pub fn encode_legacy_string(text: &str, encoding: LegacyEncoding) -> (r: Vec<u8>)
    ensures
        r@ == legacy_string_bytes(encoding, text@),
        is_ascii_text(text@) ==> r@ == ascii_bytes(text@),
        legacy_encode(label_of(encoding), text@).1 ==> forall|i: int|
            0 <= i < text@.len() && (text@[i] as u32) < 128 ==> #[trigger] legacy_encode(
                label_of(encoding),
                seq![text@[i]],
            ) == (ascii_bytes(seq![text@[i]]), false),
{
    let label = encoding.label();
    proof {
        assert(is_legacy_label(label@));
    }
    let (encoded, unmappable) = encode_in(label, text);
    if !unmappable {
        return encoded;
    }
    let cs = chars_of(text);
    let mut out: Vec<u8> = Vec::new();
    let mut i: usize = 0;
    while i < cs.len()
        invariant
            cs@ == text@,
            label@ == label_of(encoding),
            is_legacy_label(label@),
            i <= cs@.len(),
            out@ == chars_bytes(label@, cs@.take(i as int)),
            legacy_encode(label@, text@).1,
            forall|j: int|
                0 <= j < i && (text@[j] as u32) < 128 ==> #[trigger] legacy_encode(
                    label@,
                    seq![text@[j]],
                ) == (ascii_bytes(seq![text@[j]]), false),
        decreases cs@.len() - i,
    {
        let mut single = String::new();
        push_char(&mut single, cs[i]);
        assert(single@ =~= seq![cs@[i as int]]);
        let (bytes, err) = encode_in(label, single.as_str());
        proof {
            if (text@[i as int] as u32) < 128 {
                assert(is_ascii_text(single@));
            }
        }
        if err {
            push_char_escape(&mut out, cs[i]);
        } else {
            let mut k: usize = 0;
            let ghost before = out@;
            while k < bytes.len()
                invariant
                    out@ == before + bytes@.take(k as int),
                    k <= bytes@.len(),
                decreases bytes@.len() - k,
            {
                out.push(bytes[k]);
                k = k + 1;
                assert(before + bytes@.take(k as int) =~= (before + bytes@.take(k - 1)).push(
                    bytes@[k - 1],
                ));
            }
            assert(bytes@.take(k as int) =~= bytes@);
        }
        assert(cs@.take(i + 1).drop_last() =~= cs@.take(i as int));
        i = i + 1;
    }
    assert(cs@.take(cs@.len() as int) =~= cs@);
    out
}

} // verus!

verus! {

/// How much of the data the encoding detection looks at.
pub const DETECT_SCAN_LIMIT: usize = 256 * 1024;

/// How many byte pairs the encoding detection collects at most.
pub const DETECT_MAX_PAIRS: usize = 8192;

/// The byte pairs from position `i` on (below `limit`) that start with a
/// byte of 0x81 or more, appended to `acc` up to 8192 pairs. Each such lead
/// byte is taken together with the byte after it, and scanning resumes
/// after the pair.
pub open spec fn high_pairs_from(data: Seq<u8>, i: int, limit: int, acc: Seq<(u8, u8)>) -> Seq<
    (u8, u8),
>
    decreases limit + 1 - i,
{
    if i < 0 || i >= limit || acc.len() >= DETECT_MAX_PAIRS {
        acc
    } else if data[i] >= 0x81 {
        high_pairs_from(
            data,
            i + 2,
            limit,
            if i + 1 < limit {
                acc.push((data[i], data[i + 1]))
            } else {
                acc
            },
        )
    } else {
        high_pairs_from(data, i + 1, limit, acc)
    }
}

/// The byte pairs the encoding detection scores.
pub open spec fn high_pairs(data: Seq<u8>) -> Seq<(u8, u8)> {
    let limit = if data.len() < DETECT_SCAN_LIMIT {
        data.len() as int
    } else {
        DETECT_SCAN_LIMIT as int
    };
    high_pairs_from(data, 0, limit, seq![])
}

/// What `encoding_rs` decodes first from `bytes` with the encoding
/// registered under `label`: the first character, or none when the output
/// is empty.
pub uninterp spec fn first_decoded_char(label: Seq<char>, bytes: Seq<u8>) -> Option<char>;

/// `encoding_rs::Encoding::decode` of two bytes with the encoding registered
/// under `label`, and the first character of the text it gives. The
/// contract names the result; nothing is claimed about which character it
/// is.
#[verifier::external_body]
fn decode_first_char(label: &str, lead: u8, trail: u8) -> (r: Option<char>)
    requires
        is_legacy_label(label@),
    ensures
        r == first_decoded_char(label@, seq![lead, trail]),
{
    let encoding = encoding_rs::Encoding::for_label(label.as_bytes()).unwrap();
    let bytes = [lead, trail];
    let (decoded, _, _) = encoding.decode(&bytes);
    decoded.chars().next()
}

/// The code point is a CJK ideograph, radical or symbol, a Hangul
/// syllable, a kana, or a full-width form.
pub open spec fn is_cjk(cp: u32) -> bool {
    (0x4E00 <= cp <= 0x9FFF) || (0x3400 <= cp <= 0x4DBF) || (0x2E80 <= cp <= 0x33FF) || (0xAC00
        <= cp <= 0xD7AF) || (0x3040 <= cp <= 0x30FF) || (0xFF00 <= cp <= 0xFFEF)
}

/// The multi-byte encodings the detection tries, in order.
pub open spec fn detect_candidate(k: int) -> LegacyEncoding {
    if k == 0 {
        LegacyEncoding::Gbk
    } else if k == 1 {
        LegacyEncoding::Big5
    } else if k == 2 {
        LegacyEncoding::ShiftJis
    } else {
        LegacyEncoding::EucKr
    }
}

/// The smallest and largest trail byte a candidate accepts.
pub open spec fn trail_range(e: LegacyEncoding) -> (u8, u8) {
    match e {
        LegacyEncoding::ShiftJis => (0x40, 0xFC),
        LegacyEncoding::EucKr => (0xA1, 0xFE),
        _ => (0x40, 0xFE),
    }
}

/// The pair is shaped like a double-byte character of the candidate.
pub open spec fn pair_fits(e: LegacyEncoding, lead: u8, trail: u8) -> bool {
    &&& trail_range(e).0 <= trail <= trail_range(e).1
    &&& !(e == LegacyEncoding::Gbk && trail == 0x7F)
    &&& e == LegacyEncoding::ShiftJis ==> ((0x81 <= lead <= 0x9F) || (0xE0 <= lead <= 0xEF))
}

/// The pair counts for the candidate: it has the right shape and decodes
/// to a CJK character.
pub open spec fn pair_counts(e: LegacyEncoding, p: (u8, u8)) -> bool {
    &&& pair_fits(e, p.0, p.1)
    &&& is_cjk(
        match first_decoded_char(label_of(e), seq![p.0, p.1]) {
            Some(c) => c as u32,
            None => 0,
        },
    )
}

/// How many pairs count for the candidate.
pub open spec fn cjk_score(e: LegacyEncoding, pairs: Seq<(u8, u8)>) -> nat
    decreases pairs.len(),
{
    if pairs.len() == 0 {
        0
    } else {
        cjk_score(e, pairs.drop_last()) + if pair_counts(e, pairs.last()) {
            1nat
        } else {
            0nat
        }
    }
}

/// The best of the first `k` candidates with its score: a candidate wins
/// only with a strictly higher score; Windows-1252 with score 0 to start.
pub open spec fn best_candidate(pairs: Seq<(u8, u8)>, k: int) -> (LegacyEncoding, nat)
    decreases k,
{
    if k <= 0 {
        (LegacyEncoding::Windows1252, 0)
    } else {
        let (best, score) = best_candidate(pairs, k - 1);
        let e = detect_candidate(k - 1);
        let s = cjk_score(e, pairs);
        if s > score {
            (e, s)
        } else {
            (best, score)
        }
    }
}

/// The encoding detected from raw bytes: Windows-1252 without high-byte
/// pairs, else the candidate under which most pairs decode to CJK
/// characters (earlier candidates win ties, Windows-1252 when none scores).
pub open spec fn detected_encoding(data: Seq<u8>) -> LegacyEncoding {
    if high_pairs(data).len() == 0 {
        LegacyEncoding::Windows1252
    } else {
        best_candidate(high_pairs(data), 4).0
    }
}

/// Collect the byte pairs the detection scores.
fn collect_high_pairs(data: &[u8]) -> (r: Vec<(u8, u8)>)
    ensures
        r@ == high_pairs(data@),
{
    let limit: usize = if data.len() < DETECT_SCAN_LIMIT {
        data.len()
    } else {
        DETECT_SCAN_LIMIT
    };
    let mut pairs: Vec<(u8, u8)> = Vec::new();
    let mut i: usize = 0;
    while i < limit && pairs.len() < DETECT_MAX_PAIRS
        invariant
            limit <= data@.len(),
            limit as int == (if data@.len() < DETECT_SCAN_LIMIT {
                data@.len() as int
            } else {
                DETECT_SCAN_LIMIT as int
            }),
            i <= limit + 1,
            high_pairs(data@) == high_pairs_from(data@, i as int, limit as int, pairs@),
        decreases limit + 1 - i,
    {
        if data[i] >= 0x81 {
            if i + 1 < limit {
                pairs.push((data[i], data[i + 1]));
            }
            i = i + 2;
        } else {
            i = i + 1;
        }
    }
    pairs
}

/// The first decoded character (none counts as NUL) is a CJK character.
pub fn decodes_to_cjk(decoded: Option<char>) -> (r: bool)
    ensures
        r == is_cjk(
            match decoded {
                Some(c) => c as u32,
                None => 0,
            },
        ),
{
    let cp: u32 = match decoded {
        Some(c) => c as u32,
        None => 0,
    };
    (0x4E00 <= cp && cp <= 0x9FFF) || (0x3400 <= cp && cp <= 0x4DBF) || (0x2E80 <= cp && cp
        <= 0x33FF) || (0xAC00 <= cp && cp <= 0xD7AF) || (0x3040 <= cp && cp <= 0x30FF) || (0xFF00
        <= cp && cp <= 0xFFEF)
}

/// The score of one candidate.
fn score_candidate(e: LegacyEncoding, pairs: &Vec<(u8, u8)>) -> (r: u64)
    ensures
        r == cjk_score(e, pairs@),
{
    let label = e.label();
    proof {
        assert(is_legacy_label(label@));
    }
    let (min_trail, max_trail): (u8, u8) = match e {
        LegacyEncoding::ShiftJis => (0x40, 0xFC),
        LegacyEncoding::EucKr => (0xA1, 0xFE),
        _ => (0x40, 0xFE),
    };
    let mut score: u64 = 0;
    let mut i: usize = 0;
    while i < pairs.len()
        invariant
            i <= pairs@.len(),
            label@ == label_of(e),
            is_legacy_label(label@),
            (min_trail, max_trail) == trail_range(e),
            score == cjk_score(e, pairs@.take(i as int)),
            score <= i,
        decreases pairs@.len() - i,
    {
        let (lead, trail) = pairs[i];
        proof {
            assert(pairs@.take(i + 1).drop_last() =~= pairs@.take(i as int));
            assert(pairs@.take(i + 1).last() == pairs@[i as int]);
        }
        let fits = trail >= min_trail && trail <= max_trail && !(e == LegacyEncoding::Gbk && trail
            == 0x7F) && (e != LegacyEncoding::ShiftJis || ((lead >= 0x81 && lead <= 0x9F) || (lead
            >= 0xE0 && lead <= 0xEF)));
        if fits {
            let decoded = decode_first_char(label, lead, trail);
            if decodes_to_cjk(decoded) {
                score = score + 1;
            }
        }
        i = i + 1;
    }
    assert(pairs@.take(pairs@.len() as int) =~= pairs@);
    score
}

/// The legacy encoding that raw bytes most likely use: the multi-byte
/// candidate (GBK, Big5, Shift_JIS, EUC-KR) under which the most high-byte
/// pairs decode to CJK characters, else Windows-1252.
pub fn detect_legacy_encoding_from_bytes(data: &[u8]) -> (r: LegacyEncoding)
    ensures
        r == detected_encoding(data@),
{
    let pairs = collect_high_pairs(data);
    if pairs.len() == 0 {
        return LegacyEncoding::Windows1252;
    }
    let mut best = LegacyEncoding::Windows1252;
    let mut best_score: u64 = 0;
    let mut k: usize = 0;
    while k < 4
        invariant
            k <= 4,
            pairs@ == high_pairs(data@),
            (best, best_score as nat) == best_candidate(pairs@, k as int),
        decreases 4 - k,
    {
        let e = if k == 0 {
            LegacyEncoding::Gbk
        } else if k == 1 {
            LegacyEncoding::Big5
        } else if k == 2 {
            LegacyEncoding::ShiftJis
        } else {
            LegacyEncoding::EucKr
        };
        let score = score_candidate(e, &pairs);
        if score > best_score {
            best_score = score;
            best = e;
        }
        k = k + 1;
    }
    best
}

/// Auto-detect the text encoding of raw bytes (see
/// [`detect_legacy_encoding_from_bytes`]).
pub fn detect_encoding_from_bytes(data: &[u8]) -> (r: &'static encoding_rs::Encoding)
    ensures
        r == labelled_encoding(label_of(detected_encoding(data@))),
{
    let encoding = detect_legacy_encoding_from_bytes(data);
    encoding_for_label(encoding.label())
}

} // verus!

verus! {

/// Comparing `a` and `b` without ASCII case from position `i` on.
spec fn eq_lower_from(a: Seq<char>, b: Seq<char>, i: int) -> bool
    decreases a.len() - i,
{
    if i < 0 || i >= a.len() {
        true
    } else {
        ascii_lower(a[i]) == ascii_lower(b[i]) && eq_lower_from(a, b, i + 1)
    }
}

proof fn lemma_eq_lower_from(a: Seq<char>, b: Seq<char>, i: int)
    requires
        0 <= i <= a.len(),
        a.len() == b.len(),
    ensures
        eq_lower_from(a, b, i) <==> forall|k: int| i <= k < a.len() ==> #[trigger] ascii_lower(a[k]) == ascii_lower(b[k]),
    decreases a.len() - i,
{
    if i < a.len() {
        lemma_eq_lower_from(a, b, i + 1);
    }
}

/// `eq_ignore_case` against `a`, position by position.
proof fn lemma_eq_ignore_case_unfold(a: Seq<char>)
    ensures
        forall|b: Seq<char>| #[trigger] eq_ignore_case(a, b) == (a.len() == b.len() && eq_lower_from(a, b, 0)),
{
    assert forall|b: Seq<char>| #[trigger] eq_ignore_case(a, b) == (a.len() == b.len() && eq_lower_from(a, b, 0)) by {
        if a.len() == b.len() {
            lemma_eq_lower_from(a, b, 0);
        }
    }
}

/// The DWG index of each name that `code_page_name` gives.
proof fn lemma_indices_of_names()
    ensures
        code_page_index("ASCII"@) == 1,
        code_page_index("ISO8859-1"@) == 2,
        code_page_index("ISO8859-2"@) == 3,
        code_page_index("ISO8859-3"@) == 4,
        code_page_index("ISO8859-4"@) == 5,
        code_page_index("ISO8859-5"@) == 6,
        code_page_index("ISO8859-6"@) == 7,
        code_page_index("ISO8859-7"@) == 8,
        code_page_index("ISO8859-8"@) == 9,
        code_page_index("ISO8859-9"@) == 10,
        code_page_index("DOS437"@) == 11,
        code_page_index("DOS850"@) == 12,
        code_page_index("DOS852"@) == 13,
        code_page_index("DOS855"@) == 14,
        code_page_index("DOS857"@) == 15,
        code_page_index("DOS860"@) == 16,
        code_page_index("DOS861"@) == 17,
        code_page_index("DOS863"@) == 18,
        code_page_index("DOS864"@) == 19,
        code_page_index("DOS865"@) == 20,
        code_page_index("DOS869"@) == 21,
        code_page_index("ANSI_932"@) == 22,
        code_page_index("MAC-ROMAN"@) == 23,
        code_page_index("BIG5"@) == 24,
        code_page_index("KOREAN"@) == 25,
        code_page_index("JOHAB"@) == 26,
        code_page_index("DOS866"@) == 27,
        code_page_index("ANSI_1250"@) == 28,
        code_page_index("ANSI_1251"@) == 29,
        code_page_index("ANSI_1252"@) == 30,
        code_page_index("GB2312"@) == 31,
        code_page_index("ANSI_1253"@) == 32,
        code_page_index("ANSI_1254"@) == 33,
        code_page_index("ANSI_1255"@) == 34,
        code_page_index("ANSI_1256"@) == 35,
        code_page_index("ANSI_1257"@) == 36,
        code_page_index("ANSI_874"@) == 37,
        code_page_index("UTF-8"@) == 43,
        code_page_index("ANSI_1258"@) == 44,
{
    reveal_strlit("ascii");
    reveal_strlit("iso8859-1");
    reveal_strlit("iso_8859-1");
    reveal_strlit("iso8859-2");
    reveal_strlit("iso_8859-2");
    reveal_strlit("iso8859-3");
    reveal_strlit("iso_8859-3");
    reveal_strlit("iso8859-4");
    reveal_strlit("iso_8859-4");
    reveal_strlit("iso8859-5");
    reveal_strlit("iso_8859-5");
    reveal_strlit("iso8859-6");
    reveal_strlit("iso_8859-6");
    reveal_strlit("iso8859-7");
    reveal_strlit("iso_8859-7");
    reveal_strlit("iso8859-8");
    reveal_strlit("iso_8859-8");
    reveal_strlit("iso8859-9");
    reveal_strlit("iso_8859-9");
    reveal_strlit("dos437");
    reveal_strlit("dos850");
    reveal_strlit("dos852");
    reveal_strlit("dos855");
    reveal_strlit("dos857");
    reveal_strlit("dos860");
    reveal_strlit("dos861");
    reveal_strlit("dos863");
    reveal_strlit("dos864");
    reveal_strlit("dos865");
    reveal_strlit("dos869");
    reveal_strlit("ansi_932");
    reveal_strlit("dos932");
    reveal_strlit("mac-roman");
    reveal_strlit("big5");
    reveal_strlit("ansi_950");
    reveal_strlit("dos950");
    reveal_strlit("korean");
    reveal_strlit("ansi_949");
    reveal_strlit("johab");
    reveal_strlit("dos866");
    reveal_strlit("ansi_1250");
    reveal_strlit("ansi1250");
    reveal_strlit("ansi_1251");
    reveal_strlit("ansi1251");
    reveal_strlit("ansi_1252");
    reveal_strlit("ansi1252");
    reveal_strlit("gb2312");
    reveal_strlit("ansi_936");
    reveal_strlit("ansi_1253");
    reveal_strlit("ansi1253");
    reveal_strlit("ansi_1254");
    reveal_strlit("ansi1254");
    reveal_strlit("ansi_1255");
    reveal_strlit("ansi1255");
    reveal_strlit("ansi_1256");
    reveal_strlit("ansi1256");
    reveal_strlit("ansi_1257");
    reveal_strlit("ansi1257");
    reveal_strlit("ansi_874");
    reveal_strlit("utf-8");
    reveal_strlit("utf8");
    reveal_strlit("unicode");
    reveal_strlit("ansi_1258");
    reveal_strlit("ansi1258");
    reveal_strlit("ASCII");
    reveal_strlit("ISO8859-1");
    reveal_strlit("ISO8859-2");
    reveal_strlit("ISO8859-3");
    reveal_strlit("ISO8859-4");
    reveal_strlit("ISO8859-5");
    reveal_strlit("ISO8859-6");
    reveal_strlit("ISO8859-7");
    reveal_strlit("ISO8859-8");
    reveal_strlit("ISO8859-9");
    reveal_strlit("DOS437");
    reveal_strlit("DOS850");
    reveal_strlit("DOS852");
    reveal_strlit("DOS855");
    reveal_strlit("DOS857");
    reveal_strlit("DOS860");
    reveal_strlit("DOS861");
    reveal_strlit("DOS863");
    reveal_strlit("DOS864");
    reveal_strlit("DOS865");
    reveal_strlit("DOS869");
    reveal_strlit("ANSI_932");
    reveal_strlit("MAC-ROMAN");
    reveal_strlit("BIG5");
    reveal_strlit("KOREAN");
    reveal_strlit("JOHAB");
    reveal_strlit("DOS866");
    reveal_strlit("ANSI_1250");
    reveal_strlit("ANSI_1251");
    reveal_strlit("ANSI_1252");
    reveal_strlit("GB2312");
    reveal_strlit("ANSI_1253");
    reveal_strlit("ANSI_1254");
    reveal_strlit("ANSI_1255");
    reveal_strlit("ANSI_1256");
    reveal_strlit("ANSI_1257");
    reveal_strlit("ANSI_874");
    reveal_strlit("UTF-8");
    reveal_strlit("ANSI_1258");
    lemma_eq_ignore_case_unfold("ASCII"@);
    lemma_eq_ignore_case_unfold("ISO8859-1"@);
    lemma_eq_ignore_case_unfold("ISO8859-2"@);
    lemma_eq_ignore_case_unfold("ISO8859-3"@);
    lemma_eq_ignore_case_unfold("ISO8859-4"@);
    lemma_eq_ignore_case_unfold("ISO8859-5"@);
    lemma_eq_ignore_case_unfold("ISO8859-6"@);
    lemma_eq_ignore_case_unfold("ISO8859-7"@);
    lemma_eq_ignore_case_unfold("ISO8859-8"@);
    lemma_eq_ignore_case_unfold("ISO8859-9"@);
    lemma_eq_ignore_case_unfold("DOS437"@);
    lemma_eq_ignore_case_unfold("DOS850"@);
    lemma_eq_ignore_case_unfold("DOS852"@);
    lemma_eq_ignore_case_unfold("DOS855"@);
    lemma_eq_ignore_case_unfold("DOS857"@);
    lemma_eq_ignore_case_unfold("DOS860"@);
    lemma_eq_ignore_case_unfold("DOS861"@);
    lemma_eq_ignore_case_unfold("DOS863"@);
    lemma_eq_ignore_case_unfold("DOS864"@);
    lemma_eq_ignore_case_unfold("DOS865"@);
    lemma_eq_ignore_case_unfold("DOS869"@);
    lemma_eq_ignore_case_unfold("ANSI_932"@);
    lemma_eq_ignore_case_unfold("MAC-ROMAN"@);
    lemma_eq_ignore_case_unfold("BIG5"@);
    lemma_eq_ignore_case_unfold("KOREAN"@);
    lemma_eq_ignore_case_unfold("JOHAB"@);
    lemma_eq_ignore_case_unfold("DOS866"@);
    lemma_eq_ignore_case_unfold("ANSI_1250"@);
    lemma_eq_ignore_case_unfold("ANSI_1251"@);
    lemma_eq_ignore_case_unfold("ANSI_1252"@);
    lemma_eq_ignore_case_unfold("GB2312"@);
    lemma_eq_ignore_case_unfold("ANSI_1253"@);
    lemma_eq_ignore_case_unfold("ANSI_1254"@);
    lemma_eq_ignore_case_unfold("ANSI_1255"@);
    lemma_eq_ignore_case_unfold("ANSI_1256"@);
    lemma_eq_ignore_case_unfold("ANSI_1257"@);
    lemma_eq_ignore_case_unfold("ANSI_874"@);
    lemma_eq_ignore_case_unfold("UTF-8"@);
    lemma_eq_ignore_case_unfold("ANSI_1258"@);
    reveal_with_fuel(eq_lower_from, 12);
}

/// The DWG index of a code-page name gives back that name: going from an
/// index to its name, to the name's index and back to a name changes
/// nothing, and the indices with a name of their own (1 to 37, 43, 44)
/// come back unchanged.
pub proof fn lemma_code_page_round_trip(i: u16)
    ensures
        code_page_name(code_page_index(code_page_name(i))) == code_page_name(i),
        (1 <= i <= 37 || i == 43 || i == 44) ==> code_page_index(code_page_name(i)) == i,
{
    lemma_indices_of_names();
}

/// The characters that the code page under `label` cannot represent on their
/// own, marked.
pub open spec fn unmappable_marks(label: Seq<char>, s: Seq<char>) -> Seq<bool> {
    Seq::new(s.len(), |i: int| legacy_encode(label, seq![s[i]]).1)
}

/// Bytes read back as text, one character per byte.
pub open spec fn bytes_text(b: Seq<u8>) -> Seq<char> {
    b.map_values(|x: u8| x as char)
}

proof fn lemma_escape_marked_push(a: Seq<char>, e: Seq<bool>, c: char, b: bool)
    requires
        e.len() == a.len(),
    ensures
        escape_marked(a.push(c), e.push(b)) == escape_marked(a, e) + (if b {
            char_escape(c)
        } else {
            seq![c]
        }),
    decreases a.len(),
{
    let piece = if b {
        char_escape(c)
    } else {
        seq![c]
    };
    if a.len() == 0 {
        assert(a.push(c).skip(1) =~= Seq::<char>::empty());
        assert(escape_marked(Seq::<char>::empty(), e.push(b).skip(1)) == Seq::<char>::empty());
        assert(piece + Seq::<char>::empty() =~= piece);
        assert(escape_marked(a, e) =~= Seq::<char>::empty());
        assert(Seq::<char>::empty() + piece =~= piece);
    } else {
        lemma_escape_marked_push(a.skip(1), e.skip(1), c, b);
        assert(a.push(c).skip(1) =~= a.skip(1).push(c));
        assert(e.push(b).skip(1) =~= e.skip(1).push(b));
        let head = if e[0] {
            char_escape(a[0])
        } else {
            seq![a[0]]
        };
        assert(head + (escape_marked(a.skip(1), e.skip(1)) + piece) =~= (head + escape_marked(
            a.skip(1),
            e.skip(1),
        )) + piece);
    }
}

proof fn lemma_char_escape_ascii(c: char)
    ensures
        forall|k: int| 0 <= k < char_escape(c).len() ==> (#[trigger] char_escape(c)[k] as u32) < 128,
{
    let units = utf16_units(c);
    assert forall|u: u16, k: int| 0 <= k < 7 implies (#[trigger] unit_escape(u)[k] as u32) < 128 by {
        let v = u as u32;
        assert(v / 4096 < 16);
    }
    if units.len() == 1 {
        assert(forall|k: int| 0 <= k < 7 ==> (#[trigger] unit_escape(units[0])[k] as u32) < 128);
    } else {
        let a = unit_escape(units[0]);
        let b = unit_escape(units[1]);
        assert forall|k: int| 0 <= k < (a + b).len() implies (#[trigger] (a + b)[k] as u32) < 128 by {
            if k < 7 {
                assert((a + b)[k] == a[k]);
            } else {
                assert((a + b)[k] == b[k - 7]);
            }
        }
    }
}

/// With every character ASCII and encoding to its own byte, or unmappable,
/// the code page's bytes are the text with the unmappable characters
/// escaped, all of it ASCII.
proof fn lemma_chars_bytes_marked(label: Seq<char>, s: Seq<char>)
    requires
        forall|i: int|
            0 <= i < s.len() ==> ((s[i] as u32) < 128 && #[trigger] legacy_encode(label, seq![s[i]])
                == (ascii_bytes(seq![s[i]]), false)) || legacy_encode(label, seq![s[i]]).1,
    ensures
        chars_bytes(label, s) == ascii_bytes(escape_marked(s, unmappable_marks(label, s))),
        forall|k: int|
            0 <= k < escape_marked(s, unmappable_marks(label, s)).len() ==> (#[trigger] escape_marked(
                s,
                unmappable_marks(label, s),
            )[k] as u32) < 128,
    decreases s.len(),
{
    let m = unmappable_marks(label, s);
    if s.len() == 0 {
        assert(escape_marked(s, m) =~= Seq::<char>::empty());
        assert(ascii_bytes(Seq::<char>::empty()) =~= Seq::<u8>::empty());
    } else {
        let a = s.drop_last();
        let c = s.last();
        assert forall|i: int| 0 <= i < a.len() implies ((a[i] as u32) < 128 && #[trigger] legacy_encode(
            label,
            seq![a[i]],
        ) == (ascii_bytes(seq![a[i]]), false)) || legacy_encode(label, seq![a[i]]).1 by {
            assert(a[i] == s[i]);
        }
        lemma_chars_bytes_marked(label, a);
        let ma = unmappable_marks(label, a);
        let b = legacy_encode(label, seq![c]).1;
        assert(m =~= ma.push(b));
        assert(s =~= a.push(c));
        lemma_escape_marked_push(a, ma, c, b);
        let piece = if b {
            char_escape(c)
        } else {
            seq![c]
        };
        let ea = escape_marked(a, ma);
        assert(ascii_bytes(ea + piece) =~= ascii_bytes(ea) + ascii_bytes(piece));
        assert(legacy_encode(label, seq![s[s.len() - 1]]) == legacy_encode(label, seq![c]));
        lemma_char_escape_ascii(c);
        assert forall|k: int| 0 <= k < (ea + piece).len() implies (#[trigger] (ea + piece)[k] as u32)
            < 128 by {
            if k >= ea.len() {
                assert((ea + piece)[k] == piece[k - ea.len()]);
            }
        }
    }
}

proof fn lemma_ascii_text_back(x: Seq<char>)
    requires
        forall|k: int| 0 <= k < x.len() ==> (#[trigger] x[k] as u32) < 128,
    ensures
        bytes_text(ascii_bytes(x)) == x,
{
    assert forall|k: int| 0 <= k < x.len() implies #[trigger] bytes_text(ascii_bytes(x))[k] == x[k] by {
        let c = x[k];
        assert((c as u32) < 128);
        vstd::utf8::char_u32_cast(c, c as u32);
        let b = #[verifier::truncate] (c as u8);
        assert(b as u32 == c as u32);
        vstd::utf8::char_u32_cast(c, b as u32);
        assert((b as char) == ((b as u32) as char));
    }
    assert(bytes_text(ascii_bytes(x)) =~= x);
}

/// Text whose characters are each ASCII or unrepresentable in the code page,
/// and which holds no `\U+`, comes back from MIF decoding of its legacy
/// bytes: the ASCII characters stand as their bytes and the others as their
/// escapes. This needs the encoder to report the text as unmappable when it
/// is not all ASCII, as its result for a text with an unrepresentable
/// character does.
pub proof fn lemma_legacy_bytes_decode_back(e: LegacyEncoding, s: Seq<char>)
    requires
        forall|i: int| !(#[trigger] escape_intro_at(s, i)),
        forall|i: int|
            0 <= i < s.len() ==> ((s[i] as u32) < 128 && #[trigger] legacy_encode(
                label_of(e),
                seq![s[i]],
            ) == (ascii_bytes(seq![s[i]]), false)) || legacy_encode(label_of(e), seq![s[i]]).1,
        legacy_encode(label_of(e), s).1 || (is_ascii_text(s) && legacy_encode(label_of(e), s).0
            == ascii_bytes(s)),
    ensures
        mif_decoded(bytes_text(legacy_string_bytes(e, s))) == s,
{
    let label = label_of(e);
    if legacy_encode(label, s).1 {
        lemma_chars_bytes_marked(label, s);
        let x = escape_marked(s, unmappable_marks(label, s));
        lemma_ascii_text_back(x);
        lemma_escape_marked_decodes(s, unmappable_marks(label, s));
    } else {
        lemma_ascii_text_back(s);
        lemma_no_escape_unchanged(s);
    }
}

proof fn lemma_differs_at(a: Seq<char>, b: Seq<char>, i: int)
    requires
        0 <= i < a.len(),
        ascii_lower(a[i]) != ascii_lower(b[i]),
    ensures
        !eq_ignore_case(a, b),
{
}

proof fn lemma_ansi_letters_lower()
    ensures
        ascii_lower('A') == 'a',
        ascii_lower('N') == 'n',
        ascii_lower('S') == 's',
        ascii_lower('I') == 'i',
{
    vstd::utf8::char_u32_cast('a', 97);
    vstd::utf8::char_u32_cast('n', 110);
    vstd::utf8::char_u32_cast('s', 115);
    vstd::utf8::char_u32_cast('i', 105);
    assert(('A' as u32) + 32 == 97);
    assert(('N' as u32) + 32 == 110);
    assert(('S' as u32) + 32 == 115);
    assert(('I' as u32) + 32 == 105);
}

proof fn lemma_ansi_874()
    ensures
        code_page_encoding("ANSI_874"@) == Some(LegacyEncoding::Windows874),
{
    lemma_ansi_letters_lower();
    reveal_strlit("ANSI_874");
    assert(eq_ignore_case("ANSI_874"@, "ansi_874"@)) by {
        reveal_strlit("ansi_874");
    }
    reveal_strlit("gb2312");
    reveal_strlit("ansi_936");
    reveal_strlit("big5");
    reveal_strlit("ansi_950");
    reveal_strlit("korean");
    reveal_strlit("ansi_949");
    reveal_strlit("johab");
    reveal_strlit("ansi_932");
    reveal_strlit("dos437");
    reveal_strlit("dos850");
    reveal_strlit("dos852");
    reveal_strlit("dos855");
    reveal_strlit("dos866");
    reveal_strlit("dos857");
    reveal_strlit("dos860");
    reveal_strlit("dos861");
    reveal_strlit("dos863");
    reveal_strlit("dos865");
    reveal_strlit("dos869");
    reveal_strlit("ansi_874");
    reveal_strlit("ansi_1250");
    reveal_strlit("ansi_1251");
    reveal_strlit("ansi_1252");
    reveal_strlit("ansi_1253");
    reveal_strlit("ansi_1254");
    reveal_strlit("ansi_1255");
    reveal_strlit("ansi_1256");
    reveal_strlit("ansi_1257");
    reveal_strlit("ansi_1258");
    reveal_strlit("iso8859-1");
    reveal_strlit("iso_8859-1");
    reveal_strlit("iso8859-2");
    reveal_strlit("iso_8859-2");
    reveal_strlit("iso8859-3");
    reveal_strlit("iso_8859-3");
    reveal_strlit("iso8859-4");
    reveal_strlit("iso_8859-4");
    reveal_strlit("iso8859-5");
    reveal_strlit("iso_8859-5");
    reveal_strlit("iso8859-6");
    reveal_strlit("iso_8859-6");
    reveal_strlit("iso8859-7");
    reveal_strlit("iso_8859-7");
    reveal_strlit("iso8859-8");
    reveal_strlit("iso_8859-8");
    reveal_strlit("iso8859-9");
    reveal_strlit("iso_8859-9");
    reveal_strlit("iso8859-10");
    reveal_strlit("iso_8859-10");
    reveal_strlit("iso8859-13");
    reveal_strlit("iso_8859-13");
    reveal_strlit("iso8859-14");
    reveal_strlit("iso_8859-14");
    reveal_strlit("iso8859-15");
    reveal_strlit("iso_8859-15");
    reveal_strlit("koi8-r");
    reveal_strlit("koi8-u");
    reveal_strlit("ascii");
    reveal_strlit("utf-8");
    reveal_strlit("utf8");
    reveal_strlit("unicode");
    lemma_differs_at("ANSI_874"@, "ansi_936"@, 5);
    lemma_differs_at("ANSI_874"@, "ansi_950"@, 5);
    lemma_differs_at("ANSI_874"@, "ansi_949"@, 5);
    lemma_differs_at("ANSI_874"@, "ansi_932"@, 5);
}

proof fn lemma_ansi_1250()
    ensures
        code_page_encoding("ANSI_1250"@) == Some(LegacyEncoding::Windows1250),
{
    lemma_ansi_letters_lower();
    reveal_strlit("ANSI_1250");
    assert(eq_ignore_case("ANSI_1250"@, "ansi_1250"@)) by {
        reveal_strlit("ansi_1250");
    }

    reveal_strlit("gb2312");
    reveal_strlit("ansi_936");
    reveal_strlit("big5");
    reveal_strlit("ansi_950");
    reveal_strlit("korean");
    reveal_strlit("ansi_949");
    reveal_strlit("johab");
    reveal_strlit("ansi_932");
    reveal_strlit("dos437");
    reveal_strlit("dos850");
    reveal_strlit("dos852");
    reveal_strlit("dos855");
    reveal_strlit("dos866");
    reveal_strlit("dos857");
    reveal_strlit("dos860");
    reveal_strlit("dos861");
    reveal_strlit("dos863");
    reveal_strlit("dos865");
    reveal_strlit("dos869");
    reveal_strlit("ansi_874");
    reveal_strlit("ansi_1250");
    reveal_strlit("ansi_1251");
    reveal_strlit("ansi_1252");
    reveal_strlit("ansi_1253");
    reveal_strlit("ansi_1254");
    reveal_strlit("ansi_1255");
    reveal_strlit("ansi_1256");
    reveal_strlit("ansi_1257");
    reveal_strlit("ansi_1258");
    reveal_strlit("iso8859-1");
    reveal_strlit("iso_8859-1");
    reveal_strlit("iso8859-2");
    reveal_strlit("iso_8859-2");
    reveal_strlit("iso8859-3");
    reveal_strlit("iso_8859-3");
    reveal_strlit("iso8859-4");
    reveal_strlit("iso_8859-4");
    reveal_strlit("iso8859-5");
    reveal_strlit("iso_8859-5");
    reveal_strlit("iso8859-6");
    reveal_strlit("iso_8859-6");
    reveal_strlit("iso8859-7");
    reveal_strlit("iso_8859-7");
    reveal_strlit("iso8859-8");
    reveal_strlit("iso_8859-8");
    reveal_strlit("iso8859-9");
    reveal_strlit("iso_8859-9");
    reveal_strlit("iso8859-10");
    reveal_strlit("iso_8859-10");
    reveal_strlit("iso8859-13");
    reveal_strlit("iso_8859-13");
    reveal_strlit("iso8859-14");
    reveal_strlit("iso_8859-14");
    reveal_strlit("iso8859-15");
    reveal_strlit("iso_8859-15");
    reveal_strlit("koi8-r");
    reveal_strlit("koi8-u");
    reveal_strlit("ascii");
    reveal_strlit("utf-8");
    reveal_strlit("utf8");
    reveal_strlit("unicode");

}

proof fn lemma_ansi_1251()
    ensures
        code_page_encoding("ANSI_1251"@) == Some(LegacyEncoding::Windows1251),
{
    lemma_ansi_letters_lower();
    reveal_strlit("ANSI_1251");
    assert(eq_ignore_case("ANSI_1251"@, "ansi_1251"@)) by {
        reveal_strlit("ansi_1251");
    }
    reveal_strlit("gb2312");
    reveal_strlit("ansi_936");
    reveal_strlit("big5");
    reveal_strlit("ansi_950");
    reveal_strlit("korean");
    reveal_strlit("ansi_949");
    reveal_strlit("johab");
    reveal_strlit("ansi_932");
    reveal_strlit("dos437");
    reveal_strlit("dos850");
    reveal_strlit("dos852");
    reveal_strlit("dos855");
    reveal_strlit("dos866");
    reveal_strlit("dos857");
    reveal_strlit("dos860");
    reveal_strlit("dos861");
    reveal_strlit("dos863");
    reveal_strlit("dos865");
    reveal_strlit("dos869");
    reveal_strlit("ansi_874");
    reveal_strlit("ansi_1250");
    reveal_strlit("ansi_1251");
    reveal_strlit("ansi_1252");
    reveal_strlit("ansi_1253");
    reveal_strlit("ansi_1254");
    reveal_strlit("ansi_1255");
    reveal_strlit("ansi_1256");
    reveal_strlit("ansi_1257");
    reveal_strlit("ansi_1258");
    reveal_strlit("iso8859-1");
    reveal_strlit("iso_8859-1");
    reveal_strlit("iso8859-2");
    reveal_strlit("iso_8859-2");
    reveal_strlit("iso8859-3");
    reveal_strlit("iso_8859-3");
    reveal_strlit("iso8859-4");
    reveal_strlit("iso_8859-4");
    reveal_strlit("iso8859-5");
    reveal_strlit("iso_8859-5");
    reveal_strlit("iso8859-6");
    reveal_strlit("iso_8859-6");
    reveal_strlit("iso8859-7");
    reveal_strlit("iso_8859-7");
    reveal_strlit("iso8859-8");
    reveal_strlit("iso_8859-8");
    reveal_strlit("iso8859-9");
    reveal_strlit("iso_8859-9");
    reveal_strlit("iso8859-10");
    reveal_strlit("iso_8859-10");
    reveal_strlit("iso8859-13");
    reveal_strlit("iso_8859-13");
    reveal_strlit("iso8859-14");
    reveal_strlit("iso_8859-14");
    reveal_strlit("iso8859-15");
    reveal_strlit("iso_8859-15");
    reveal_strlit("koi8-r");
    reveal_strlit("koi8-u");
    reveal_strlit("ascii");
    reveal_strlit("utf-8");
    reveal_strlit("utf8");
    reveal_strlit("unicode");
    lemma_differs_at("ANSI_1251"@, "ansi_1250"@, 8);
}

proof fn lemma_ansi_1252()
    ensures
        code_page_encoding("ANSI_1252"@) == Some(LegacyEncoding::Windows1252),
{
    lemma_ansi_letters_lower();
    reveal_strlit("ANSI_1252");
    assert(eq_ignore_case("ANSI_1252"@, "ansi_1252"@)) by {
        reveal_strlit("ansi_1252");
    }
    reveal_strlit("gb2312");
    reveal_strlit("ansi_936");
    reveal_strlit("big5");
    reveal_strlit("ansi_950");
    reveal_strlit("korean");
    reveal_strlit("ansi_949");
    reveal_strlit("johab");
    reveal_strlit("ansi_932");
    reveal_strlit("dos437");
    reveal_strlit("dos850");
    reveal_strlit("dos852");
    reveal_strlit("dos855");
    reveal_strlit("dos866");
    reveal_strlit("dos857");
    reveal_strlit("dos860");
    reveal_strlit("dos861");
    reveal_strlit("dos863");
    reveal_strlit("dos865");
    reveal_strlit("dos869");
    reveal_strlit("ansi_874");
    reveal_strlit("ansi_1250");
    reveal_strlit("ansi_1251");
    reveal_strlit("ansi_1252");
    reveal_strlit("ansi_1253");
    reveal_strlit("ansi_1254");
    reveal_strlit("ansi_1255");
    reveal_strlit("ansi_1256");
    reveal_strlit("ansi_1257");
    reveal_strlit("ansi_1258");
    reveal_strlit("iso8859-1");
    reveal_strlit("iso_8859-1");
    reveal_strlit("iso8859-2");
    reveal_strlit("iso_8859-2");
    reveal_strlit("iso8859-3");
    reveal_strlit("iso_8859-3");
    reveal_strlit("iso8859-4");
    reveal_strlit("iso_8859-4");
    reveal_strlit("iso8859-5");
    reveal_strlit("iso_8859-5");
    reveal_strlit("iso8859-6");
    reveal_strlit("iso_8859-6");
    reveal_strlit("iso8859-7");
    reveal_strlit("iso_8859-7");
    reveal_strlit("iso8859-8");
    reveal_strlit("iso_8859-8");
    reveal_strlit("iso8859-9");
    reveal_strlit("iso_8859-9");
    reveal_strlit("iso8859-10");
    reveal_strlit("iso_8859-10");
    reveal_strlit("iso8859-13");
    reveal_strlit("iso_8859-13");
    reveal_strlit("iso8859-14");
    reveal_strlit("iso_8859-14");
    reveal_strlit("iso8859-15");
    reveal_strlit("iso_8859-15");
    reveal_strlit("koi8-r");
    reveal_strlit("koi8-u");
    reveal_strlit("ascii");
    reveal_strlit("utf-8");
    reveal_strlit("utf8");
    reveal_strlit("unicode");
    lemma_differs_at("ANSI_1252"@, "ansi_1250"@, 8);
    lemma_differs_at("ANSI_1252"@, "ansi_1251"@, 8);
}

proof fn lemma_ansi_1253()
    ensures
        code_page_encoding("ANSI_1253"@) == Some(LegacyEncoding::Windows1253),
{
    lemma_ansi_letters_lower();
    reveal_strlit("ANSI_1253");
    assert(eq_ignore_case("ANSI_1253"@, "ansi_1253"@)) by {
        reveal_strlit("ansi_1253");
    }
    reveal_strlit("gb2312");
    reveal_strlit("ansi_936");
    reveal_strlit("big5");
    reveal_strlit("ansi_950");
    reveal_strlit("korean");
    reveal_strlit("ansi_949");
    reveal_strlit("johab");
    reveal_strlit("ansi_932");
    reveal_strlit("dos437");
    reveal_strlit("dos850");
    reveal_strlit("dos852");
    reveal_strlit("dos855");
    reveal_strlit("dos866");
    reveal_strlit("dos857");
    reveal_strlit("dos860");
    reveal_strlit("dos861");
    reveal_strlit("dos863");
    reveal_strlit("dos865");
    reveal_strlit("dos869");
    reveal_strlit("ansi_874");
    reveal_strlit("ansi_1250");
    reveal_strlit("ansi_1251");
    reveal_strlit("ansi_1252");
    reveal_strlit("ansi_1253");
    reveal_strlit("ansi_1254");
    reveal_strlit("ansi_1255");
    reveal_strlit("ansi_1256");
    reveal_strlit("ansi_1257");
    reveal_strlit("ansi_1258");
    reveal_strlit("iso8859-1");
    reveal_strlit("iso_8859-1");
    reveal_strlit("iso8859-2");
    reveal_strlit("iso_8859-2");
    reveal_strlit("iso8859-3");
    reveal_strlit("iso_8859-3");
    reveal_strlit("iso8859-4");
    reveal_strlit("iso_8859-4");
    reveal_strlit("iso8859-5");
    reveal_strlit("iso_8859-5");
    reveal_strlit("iso8859-6");
    reveal_strlit("iso_8859-6");
    reveal_strlit("iso8859-7");
    reveal_strlit("iso_8859-7");
    reveal_strlit("iso8859-8");
    reveal_strlit("iso_8859-8");
    reveal_strlit("iso8859-9");
    reveal_strlit("iso_8859-9");
    reveal_strlit("iso8859-10");
    reveal_strlit("iso_8859-10");
    reveal_strlit("iso8859-13");
    reveal_strlit("iso_8859-13");
    reveal_strlit("iso8859-14");
    reveal_strlit("iso_8859-14");
    reveal_strlit("iso8859-15");
    reveal_strlit("iso_8859-15");
    reveal_strlit("koi8-r");
    reveal_strlit("koi8-u");
    reveal_strlit("ascii");
    reveal_strlit("utf-8");
    reveal_strlit("utf8");
    reveal_strlit("unicode");
    lemma_differs_at("ANSI_1253"@, "ansi_1250"@, 8);
    lemma_differs_at("ANSI_1253"@, "ansi_1251"@, 8);
    lemma_differs_at("ANSI_1253"@, "ansi_1252"@, 8);
}

proof fn lemma_ansi_1254()
    ensures
        code_page_encoding("ANSI_1254"@) == Some(LegacyEncoding::Windows1254),
{
    lemma_ansi_letters_lower();
    reveal_strlit("ANSI_1254");
    assert(eq_ignore_case("ANSI_1254"@, "ansi_1254"@)) by {
        reveal_strlit("ansi_1254");
    }
    reveal_strlit("gb2312");
    reveal_strlit("ansi_936");
    reveal_strlit("big5");
    reveal_strlit("ansi_950");
    reveal_strlit("korean");
    reveal_strlit("ansi_949");
    reveal_strlit("johab");
    reveal_strlit("ansi_932");
    reveal_strlit("dos437");
    reveal_strlit("dos850");
    reveal_strlit("dos852");
    reveal_strlit("dos855");
    reveal_strlit("dos866");
    reveal_strlit("dos857");
    reveal_strlit("dos860");
    reveal_strlit("dos861");
    reveal_strlit("dos863");
    reveal_strlit("dos865");
    reveal_strlit("dos869");
    reveal_strlit("ansi_874");
    reveal_strlit("ansi_1250");
    reveal_strlit("ansi_1251");
    reveal_strlit("ansi_1252");
    reveal_strlit("ansi_1253");
    reveal_strlit("ansi_1254");
    reveal_strlit("ansi_1255");
    reveal_strlit("ansi_1256");
    reveal_strlit("ansi_1257");
    reveal_strlit("ansi_1258");
    reveal_strlit("iso8859-1");
    reveal_strlit("iso_8859-1");
    reveal_strlit("iso8859-2");
    reveal_strlit("iso_8859-2");
    reveal_strlit("iso8859-3");
    reveal_strlit("iso_8859-3");
    reveal_strlit("iso8859-4");
    reveal_strlit("iso_8859-4");
    reveal_strlit("iso8859-5");
    reveal_strlit("iso_8859-5");
    reveal_strlit("iso8859-6");
    reveal_strlit("iso_8859-6");
    reveal_strlit("iso8859-7");
    reveal_strlit("iso_8859-7");
    reveal_strlit("iso8859-8");
    reveal_strlit("iso_8859-8");
    reveal_strlit("iso8859-9");
    reveal_strlit("iso_8859-9");
    reveal_strlit("iso8859-10");
    reveal_strlit("iso_8859-10");
    reveal_strlit("iso8859-13");
    reveal_strlit("iso_8859-13");
    reveal_strlit("iso8859-14");
    reveal_strlit("iso_8859-14");
    reveal_strlit("iso8859-15");
    reveal_strlit("iso_8859-15");
    reveal_strlit("koi8-r");
    reveal_strlit("koi8-u");
    reveal_strlit("ascii");
    reveal_strlit("utf-8");
    reveal_strlit("utf8");
    reveal_strlit("unicode");
    lemma_differs_at("ANSI_1254"@, "ansi_1250"@, 8);
    lemma_differs_at("ANSI_1254"@, "ansi_1251"@, 8);
    lemma_differs_at("ANSI_1254"@, "ansi_1252"@, 8);
    lemma_differs_at("ANSI_1254"@, "ansi_1253"@, 8);
}

proof fn lemma_ansi_1255()
    ensures
        code_page_encoding("ANSI_1255"@) == Some(LegacyEncoding::Windows1255),
{
    lemma_ansi_letters_lower();
    reveal_strlit("ANSI_1255");
    assert(eq_ignore_case("ANSI_1255"@, "ansi_1255"@)) by {
        reveal_strlit("ansi_1255");
    }
    reveal_strlit("gb2312");
    reveal_strlit("ansi_936");
    reveal_strlit("big5");
    reveal_strlit("ansi_950");
    reveal_strlit("korean");
    reveal_strlit("ansi_949");
    reveal_strlit("johab");
    reveal_strlit("ansi_932");
    reveal_strlit("dos437");
    reveal_strlit("dos850");
    reveal_strlit("dos852");
    reveal_strlit("dos855");
    reveal_strlit("dos866");
    reveal_strlit("dos857");
    reveal_strlit("dos860");
    reveal_strlit("dos861");
    reveal_strlit("dos863");
    reveal_strlit("dos865");
    reveal_strlit("dos869");
    reveal_strlit("ansi_874");
    reveal_strlit("ansi_1250");
    reveal_strlit("ansi_1251");
    reveal_strlit("ansi_1252");
    reveal_strlit("ansi_1253");
    reveal_strlit("ansi_1254");
    reveal_strlit("ansi_1255");
    reveal_strlit("ansi_1256");
    reveal_strlit("ansi_1257");
    reveal_strlit("ansi_1258");
    reveal_strlit("iso8859-1");
    reveal_strlit("iso_8859-1");
    reveal_strlit("iso8859-2");
    reveal_strlit("iso_8859-2");
    reveal_strlit("iso8859-3");
    reveal_strlit("iso_8859-3");
    reveal_strlit("iso8859-4");
    reveal_strlit("iso_8859-4");
    reveal_strlit("iso8859-5");
    reveal_strlit("iso_8859-5");
    reveal_strlit("iso8859-6");
    reveal_strlit("iso_8859-6");
    reveal_strlit("iso8859-7");
    reveal_strlit("iso_8859-7");
    reveal_strlit("iso8859-8");
    reveal_strlit("iso_8859-8");
    reveal_strlit("iso8859-9");
    reveal_strlit("iso_8859-9");
    reveal_strlit("iso8859-10");
    reveal_strlit("iso_8859-10");
    reveal_strlit("iso8859-13");
    reveal_strlit("iso_8859-13");
    reveal_strlit("iso8859-14");
    reveal_strlit("iso_8859-14");
    reveal_strlit("iso8859-15");
    reveal_strlit("iso_8859-15");
    reveal_strlit("koi8-r");
    reveal_strlit("koi8-u");
    reveal_strlit("ascii");
    reveal_strlit("utf-8");
    reveal_strlit("utf8");
    reveal_strlit("unicode");
    lemma_differs_at("ANSI_1255"@, "ansi_1250"@, 8);
    lemma_differs_at("ANSI_1255"@, "ansi_1251"@, 8);
    lemma_differs_at("ANSI_1255"@, "ansi_1252"@, 8);
    lemma_differs_at("ANSI_1255"@, "ansi_1253"@, 8);
    lemma_differs_at("ANSI_1255"@, "ansi_1254"@, 8);
}

proof fn lemma_ansi_1256()
    ensures
        code_page_encoding("ANSI_1256"@) == Some(LegacyEncoding::Windows1256),
{
    lemma_ansi_letters_lower();
    reveal_strlit("ANSI_1256");
    assert(eq_ignore_case("ANSI_1256"@, "ansi_1256"@)) by {
        reveal_strlit("ansi_1256");
    }
    reveal_strlit("gb2312");
    reveal_strlit("ansi_936");
    reveal_strlit("big5");
    reveal_strlit("ansi_950");
    reveal_strlit("korean");
    reveal_strlit("ansi_949");
    reveal_strlit("johab");
    reveal_strlit("ansi_932");
    reveal_strlit("dos437");
    reveal_strlit("dos850");
    reveal_strlit("dos852");
    reveal_strlit("dos855");
    reveal_strlit("dos866");
    reveal_strlit("dos857");
    reveal_strlit("dos860");
    reveal_strlit("dos861");
    reveal_strlit("dos863");
    reveal_strlit("dos865");
    reveal_strlit("dos869");
    reveal_strlit("ansi_874");
    reveal_strlit("ansi_1250");
    reveal_strlit("ansi_1251");
    reveal_strlit("ansi_1252");
    reveal_strlit("ansi_1253");
    reveal_strlit("ansi_1254");
    reveal_strlit("ansi_1255");
    reveal_strlit("ansi_1256");
    reveal_strlit("ansi_1257");
    reveal_strlit("ansi_1258");
    reveal_strlit("iso8859-1");
    reveal_strlit("iso_8859-1");
    reveal_strlit("iso8859-2");
    reveal_strlit("iso_8859-2");
    reveal_strlit("iso8859-3");
    reveal_strlit("iso_8859-3");
    reveal_strlit("iso8859-4");
    reveal_strlit("iso_8859-4");
    reveal_strlit("iso8859-5");
    reveal_strlit("iso_8859-5");
    reveal_strlit("iso8859-6");
    reveal_strlit("iso_8859-6");
    reveal_strlit("iso8859-7");
    reveal_strlit("iso_8859-7");
    reveal_strlit("iso8859-8");
    reveal_strlit("iso_8859-8");
    reveal_strlit("iso8859-9");
    reveal_strlit("iso_8859-9");
    reveal_strlit("iso8859-10");
    reveal_strlit("iso_8859-10");
    reveal_strlit("iso8859-13");
    reveal_strlit("iso_8859-13");
    reveal_strlit("iso8859-14");
    reveal_strlit("iso_8859-14");
    reveal_strlit("iso8859-15");
    reveal_strlit("iso_8859-15");
    reveal_strlit("koi8-r");
    reveal_strlit("koi8-u");
    reveal_strlit("ascii");
    reveal_strlit("utf-8");
    reveal_strlit("utf8");
    reveal_strlit("unicode");
    lemma_differs_at("ANSI_1256"@, "ansi_1250"@, 8);
    lemma_differs_at("ANSI_1256"@, "ansi_1251"@, 8);
    lemma_differs_at("ANSI_1256"@, "ansi_1252"@, 8);
    lemma_differs_at("ANSI_1256"@, "ansi_1253"@, 8);
    lemma_differs_at("ANSI_1256"@, "ansi_1254"@, 8);
    lemma_differs_at("ANSI_1256"@, "ansi_1255"@, 8);
}

proof fn lemma_ansi_1257()
    ensures
        code_page_encoding("ANSI_1257"@) == Some(LegacyEncoding::Windows1257),
{
    lemma_ansi_letters_lower();
    reveal_strlit("ANSI_1257");
    assert(eq_ignore_case("ANSI_1257"@, "ansi_1257"@)) by {
        reveal_strlit("ansi_1257");
    }
    reveal_strlit("gb2312");
    reveal_strlit("ansi_936");
    reveal_strlit("big5");
    reveal_strlit("ansi_950");
    reveal_strlit("korean");
    reveal_strlit("ansi_949");
    reveal_strlit("johab");
    reveal_strlit("ansi_932");
    reveal_strlit("dos437");
    reveal_strlit("dos850");
    reveal_strlit("dos852");
    reveal_strlit("dos855");
    reveal_strlit("dos866");
    reveal_strlit("dos857");
    reveal_strlit("dos860");
    reveal_strlit("dos861");
    reveal_strlit("dos863");
    reveal_strlit("dos865");
    reveal_strlit("dos869");
    reveal_strlit("ansi_874");
    reveal_strlit("ansi_1250");
    reveal_strlit("ansi_1251");
    reveal_strlit("ansi_1252");
    reveal_strlit("ansi_1253");
    reveal_strlit("ansi_1254");
    reveal_strlit("ansi_1255");
    reveal_strlit("ansi_1256");
    reveal_strlit("ansi_1257");
    reveal_strlit("ansi_1258");
    reveal_strlit("iso8859-1");
    reveal_strlit("iso_8859-1");
    reveal_strlit("iso8859-2");
    reveal_strlit("iso_8859-2");
    reveal_strlit("iso8859-3");
    reveal_strlit("iso_8859-3");
    reveal_strlit("iso8859-4");
    reveal_strlit("iso_8859-4");
    reveal_strlit("iso8859-5");
    reveal_strlit("iso_8859-5");
    reveal_strlit("iso8859-6");
    reveal_strlit("iso_8859-6");
    reveal_strlit("iso8859-7");
    reveal_strlit("iso_8859-7");
    reveal_strlit("iso8859-8");
    reveal_strlit("iso_8859-8");
    reveal_strlit("iso8859-9");
    reveal_strlit("iso_8859-9");
    reveal_strlit("iso8859-10");
    reveal_strlit("iso_8859-10");
    reveal_strlit("iso8859-13");
    reveal_strlit("iso_8859-13");
    reveal_strlit("iso8859-14");
    reveal_strlit("iso_8859-14");
    reveal_strlit("iso8859-15");
    reveal_strlit("iso_8859-15");
    reveal_strlit("koi8-r");
    reveal_strlit("koi8-u");
    reveal_strlit("ascii");
    reveal_strlit("utf-8");
    reveal_strlit("utf8");
    reveal_strlit("unicode");
    lemma_differs_at("ANSI_1257"@, "ansi_1250"@, 8);
    lemma_differs_at("ANSI_1257"@, "ansi_1251"@, 8);
    lemma_differs_at("ANSI_1257"@, "ansi_1252"@, 8);
    lemma_differs_at("ANSI_1257"@, "ansi_1253"@, 8);
    lemma_differs_at("ANSI_1257"@, "ansi_1254"@, 8);
    lemma_differs_at("ANSI_1257"@, "ansi_1255"@, 8);
    lemma_differs_at("ANSI_1257"@, "ansi_1256"@, 8);
}

proof fn lemma_ansi_1258()
    ensures
        code_page_encoding("ANSI_1258"@) == Some(LegacyEncoding::Windows1258),
{
    lemma_ansi_letters_lower();
    reveal_strlit("ANSI_1258");
    assert(eq_ignore_case("ANSI_1258"@, "ansi_1258"@)) by {
        reveal_strlit("ansi_1258");
    }
    reveal_strlit("gb2312");
    reveal_strlit("ansi_936");
    reveal_strlit("big5");
    reveal_strlit("ansi_950");
    reveal_strlit("korean");
    reveal_strlit("ansi_949");
    reveal_strlit("johab");
    reveal_strlit("ansi_932");
    reveal_strlit("dos437");
    reveal_strlit("dos850");
    reveal_strlit("dos852");
    reveal_strlit("dos855");
    reveal_strlit("dos866");
    reveal_strlit("dos857");
    reveal_strlit("dos860");
    reveal_strlit("dos861");
    reveal_strlit("dos863");
    reveal_strlit("dos865");
    reveal_strlit("dos869");
    reveal_strlit("ansi_874");
    reveal_strlit("ansi_1250");
    reveal_strlit("ansi_1251");
    reveal_strlit("ansi_1252");
    reveal_strlit("ansi_1253");
    reveal_strlit("ansi_1254");
    reveal_strlit("ansi_1255");
    reveal_strlit("ansi_1256");
    reveal_strlit("ansi_1257");
    reveal_strlit("ansi_1258");
    reveal_strlit("iso8859-1");
    reveal_strlit("iso_8859-1");
    reveal_strlit("iso8859-2");
    reveal_strlit("iso_8859-2");
    reveal_strlit("iso8859-3");
    reveal_strlit("iso_8859-3");
    reveal_strlit("iso8859-4");
    reveal_strlit("iso_8859-4");
    reveal_strlit("iso8859-5");
    reveal_strlit("iso_8859-5");
    reveal_strlit("iso8859-6");
    reveal_strlit("iso_8859-6");
    reveal_strlit("iso8859-7");
    reveal_strlit("iso_8859-7");
    reveal_strlit("iso8859-8");
    reveal_strlit("iso_8859-8");
    reveal_strlit("iso8859-9");
    reveal_strlit("iso_8859-9");
    reveal_strlit("iso8859-10");
    reveal_strlit("iso_8859-10");
    reveal_strlit("iso8859-13");
    reveal_strlit("iso_8859-13");
    reveal_strlit("iso8859-14");
    reveal_strlit("iso_8859-14");
    reveal_strlit("iso8859-15");
    reveal_strlit("iso_8859-15");
    reveal_strlit("koi8-r");
    reveal_strlit("koi8-u");
    reveal_strlit("ascii");
    reveal_strlit("utf-8");
    reveal_strlit("utf8");
    reveal_strlit("unicode");
    lemma_differs_at("ANSI_1258"@, "ansi_1250"@, 8);
    lemma_differs_at("ANSI_1258"@, "ansi_1251"@, 8);
    lemma_differs_at("ANSI_1258"@, "ansi_1252"@, 8);
    lemma_differs_at("ANSI_1258"@, "ansi_1253"@, 8);
    lemma_differs_at("ANSI_1258"@, "ansi_1254"@, 8);
    lemma_differs_at("ANSI_1258"@, "ansi_1255"@, 8);
    lemma_differs_at("ANSI_1258"@, "ansi_1256"@, 8);
    lemma_differs_at("ANSI_1258"@, "ansi_1257"@, 8);
}

/// The number of a Windows ANSI code page: 874 or 1250 to 1258.
pub open spec fn is_windows_code_page_number(d: Seq<char>) -> bool {
    d == "874"@ || d == "1250"@ || d == "1251"@ || d == "1252"@ || d == "1253"@ || d == "1254"@ || d == "1255"@ || d == "1256"@ || d == "1257"@ || d == "1258"@
}

/// A Windows ANSI code page name `ANSI_<n>`, in any letter case, selects
/// the Windows-<n> encoding: the one whose label is `windows-<n>`.
pub proof fn lemma_windows_code_pages(d: Seq<char>, s: Seq<char>)
    requires
        is_windows_code_page_number(d),
        eq_ignore_case(s, "ANSI_"@ + d),
    ensures
        code_page_encoding(s) matches Some(e) && label_of(e) == "windows-"@ + d,
{
    lemma_code_page_case_insensitive(s, "ANSI_"@ + d);
    reveal_strlit("ANSI_");
    reveal_strlit("windows-");
    if d == "874"@ {
        reveal_strlit("874");
        reveal_strlit("ANSI_874");
        reveal_strlit("windows-874");
        assert("ANSI_"@ + d =~= "ANSI_874"@);
        assert("windows-"@ + d =~= "windows-874"@);
        lemma_ansi_874();
    }
    if d == "1250"@ {
        reveal_strlit("1250");
        reveal_strlit("ANSI_1250");
        reveal_strlit("windows-1250");
        assert("ANSI_"@ + d =~= "ANSI_1250"@);
        assert("windows-"@ + d =~= "windows-1250"@);
        lemma_ansi_1250();
    }
    if d == "1251"@ {
        reveal_strlit("1251");
        reveal_strlit("ANSI_1251");
        reveal_strlit("windows-1251");
        assert("ANSI_"@ + d =~= "ANSI_1251"@);
        assert("windows-"@ + d =~= "windows-1251"@);
        lemma_ansi_1251();
    }
    if d == "1252"@ {
        reveal_strlit("1252");
        reveal_strlit("ANSI_1252");
        reveal_strlit("windows-1252");
        assert("ANSI_"@ + d =~= "ANSI_1252"@);
        assert("windows-"@ + d =~= "windows-1252"@);
        lemma_ansi_1252();
    }
    if d == "1253"@ {
        reveal_strlit("1253");
        reveal_strlit("ANSI_1253");
        reveal_strlit("windows-1253");
        assert("ANSI_"@ + d =~= "ANSI_1253"@);
        assert("windows-"@ + d =~= "windows-1253"@);
        lemma_ansi_1253();
    }
    if d == "1254"@ {
        reveal_strlit("1254");
        reveal_strlit("ANSI_1254");
        reveal_strlit("windows-1254");
        assert("ANSI_"@ + d =~= "ANSI_1254"@);
        assert("windows-"@ + d =~= "windows-1254"@);
        lemma_ansi_1254();
    }
    if d == "1255"@ {
        reveal_strlit("1255");
        reveal_strlit("ANSI_1255");
        reveal_strlit("windows-1255");
        assert("ANSI_"@ + d =~= "ANSI_1255"@);
        assert("windows-"@ + d =~= "windows-1255"@);
        lemma_ansi_1255();
    }
    if d == "1256"@ {
        reveal_strlit("1256");
        reveal_strlit("ANSI_1256");
        reveal_strlit("windows-1256");
        assert("ANSI_"@ + d =~= "ANSI_1256"@);
        assert("windows-"@ + d =~= "windows-1256"@);
        lemma_ansi_1256();
    }
    if d == "1257"@ {
        reveal_strlit("1257");
        reveal_strlit("ANSI_1257");
        reveal_strlit("windows-1257");
        assert("ANSI_"@ + d =~= "ANSI_1257"@);
        assert("windows-"@ + d =~= "windows-1257"@);
        lemma_ansi_1257();
    }
    if d == "1258"@ {
        reveal_strlit("1258");
        reveal_strlit("ANSI_1258");
        reveal_strlit("windows-1258");
        assert("ANSI_"@ + d =~= "ANSI_1258"@);
        assert("windows-"@ + d =~= "windows-1258"@);
        lemma_ansi_1258();
    }
}

} // verus!
