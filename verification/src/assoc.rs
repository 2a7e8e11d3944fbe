//! Reading the group codes and values of associative objects (actions,
//! dependencies, parameters, constraint groups) in a DXF file: a record
//! keeps the pairs of each subclass section, and a cursor walks through
//! one section reading typed values.
use vstd::prelude::*;

use crate::acds::{trimmed, trim_text};
use crate::seqs::{first_index, first_match, lemma_first_index_facts, lemma_first_index_is};
use crate::text::{chars_of, owned, same_text};
use crate::types::Handle;

verus! {

/// The value of decimal digits, if all are ASCII digits.
pub open spec fn decimal_number(d: Seq<char>) -> Option<nat>
    decreases d.len(),
{
    if d.len() == 0 {
        Some(0)
    } else {
        match decimal_number(d.drop_last()) {
            Some(high) => if '0' <= d.last() <= '9' {
                Some(high * 10 + ((d.last() as u32) - ('0' as u32)) as nat)
            } else {
                None
            },
            None => None,
        }
    }
}

/// The text read as a decimal integer, as `str::parse` reads integers: an
/// optional sign, then at least one ASCII digit.
pub open spec fn decimal_value(s: Seq<char>) -> Option<int> {
    let negative = s.len() > 0 && s[0] == '-';
    let digits = if s.len() > 0 && (s[0] == '+' || s[0] == '-') {
        s.drop_first()
    } else {
        s
    };
    if digits.len() == 0 {
        None
    } else {
        match decimal_number(digits) {
            Some(v) => Some(if negative {
                -v
            } else {
                v as int
            }),
            None => None,
        }
    }
}

/// The text read as an `i32`, as `str::parse::<i32>` reads it.
pub open spec fn parse_i32(s: Seq<char>) -> Option<i32> {
    match decimal_value(s) {
        Some(v) => if i32::MIN <= v <= i32::MAX {
            Some(v as i32)
        } else {
            None
        },
        None => None,
    }
}

/// The text read as an `i64`, as `str::parse::<i64>` reads it.
pub open spec fn parse_i64(s: Seq<char>) -> Option<i64> {
    match decimal_value(s) {
        Some(v) => if i64::MIN <= v <= i64::MAX {
            Some(v as i64)
        } else {
            None
        },
        None => None,
    }
}

proof fn lemma_decimal_prefix(d: Seq<char>, k: int)
    requires
        0 <= k <= d.len(),
        decimal_number(d) is Some,
    ensures
        decimal_number(d.take(k)) is Some,
        decimal_number(d.take(k))->0 <= decimal_number(d)->0,
    decreases d.len(),
{
    if k < d.len() {
        assert(d.drop_last().take(k) =~= d.take(k));
        lemma_decimal_prefix(d.drop_last(), k);
    } else {
        assert(d.take(k) =~= d);
    }
}

/// The limit above which no magnitude fits a 64-bit integer.
pub open spec fn magnitude_limit() -> nat {
    0x1_0000_0000_0000_0000
}

/// The sign and the magnitude of a decimal integer text, the magnitude
/// capped just above 2^64 (beyond which nothing fits).
fn read_decimal(s: &str) -> (r: Option<(bool, u128)>)
    ensures
        match r {
            Some((negative, m)) => {
                let dv = decimal_value(s@);
                &&& m <= magnitude_limit() ==> dv == Some(if negative {
                    -(m as int)
                } else {
                    m as int
                })
                &&& m > magnitude_limit() ==> (dv is None || (dv matches Some(v) && (v > magnitude_limit()
                    || v < -magnitude_limit())))
            },
            None => decimal_value(s@) is None,
        },
{
    let cs = chars_of(s);
    let negative = cs.len() > 0 && cs[0] == '-';
    let start: usize = if cs.len() > 0 && (cs[0] == '+' || cs[0] == '-') {
        1
    } else {
        0
    };
    let ghost digits = if s@.len() > 0 && (s@[0] == '+' || s@[0] == '-') {
        s@.drop_first()
    } else {
        s@
    };
    assert(digits =~= cs@.subrange(start as int, cs@.len() as int));
    if start == cs.len() {
        return None;
    }
    let mut m: u128 = 0;
    let mut i: usize = start;
    while i < cs.len()
        invariant
            cs@ == s@,
            start <= i <= cs@.len(),
            start < cs@.len(),
            digits == (if s@.len() > 0 && (s@[0] == '+' || s@[0] == '-') {
                s@.drop_first()
            } else {
                s@
            }),
            digits.len() > 0,
            digits == cs@.subrange(start as int, cs@.len() as int),
            decimal_number(digits.take(i - start)) == Some(m as nat),
            m <= magnitude_limit(),
        decreases cs@.len() - i,
    {
        let c = cs[i];
        assert(digits.take(i + 1 - start).drop_last() =~= digits.take(i - start));
        assert(digits.take(i + 1 - start).last() == c);
        if !('0' <= c && c <= '9') {
            proof {
                assert(decimal_number(digits.take(i + 1 - start)) is None);
                if decimal_number(digits) is Some {
                    lemma_decimal_prefix(digits, i + 1 - start);
                }
            }
            return None;
        }
        let d = (c as u32 - '0' as u32) as u128;
        m = m * 10 + d;
        if m > 0x1_0000_0000_0000_0000 {
            proof {
                if decimal_number(digits) is Some {
                    lemma_decimal_prefix(digits, i + 1 - start);
                }
            }
            return Some((negative, m));
        }
        i = i + 1;
    }
    assert(digits.take(i - start) =~= digits);
    Some((negative, m))
}

/// Read an `i32` as `str::parse::<i32>` does.
pub fn parse_i32_text(s: &str) -> (r: Option<i32>)
    ensures
        r == parse_i32(s@),
{
    match read_decimal(s) {
        Some((negative, m)) => {
            if negative {
                if m <= 0x8000_0000 {
                    Some((0 - (m as i64)) as i32)
                } else {
                    None
                }
            } else {
                if m <= 0x7fff_ffff {
                    Some(m as i32)
                } else {
                    None
                }
            }
        },
        None => None,
    }
}

/// Read an `i64` as `str::parse::<i64>` does.
pub fn parse_i64_text(s: &str) -> (r: Option<i64>)
    ensures
        r == parse_i64(s@),
{
    match read_decimal(s) {
        Some((negative, m)) => {
            if negative {
                if m <= 0x8000_0000_0000_0000 {
                    Some((0 - (m as i128)) as i64)
                } else {
                    None
                }
            } else {
                if m <= 0x7fff_ffff_ffff_ffff {
                    Some(m as i64)
                } else {
                    None
                }
            }
        },
        None => None,
    }
}

/// The group codes and values of an associative object, by subclass
/// section.
pub struct AssocDxfRecord {
    pub handle: Handle,
    pub owner: Handle,
    pub reactors: Vec<Handle>,
    pub xdictionary_handle: Option<Handle>,
    /// Each section's name and its pairs, in file order.
    pub sections: Vec<(String, Vec<(i32, String)>)>,
}

/// The pairs as codes and texts.
pub open spec fn pairs_text(ps: Seq<(i32, String)>) -> Seq<(i32, Seq<char>)> {
    ps.map_values(|p: (i32, String)| (p.0, p.1@))
}

/// The section named `name`.
pub open spec fn named_section(name: Seq<char>) -> spec_fn((String, Vec<(i32, String)>)) -> bool {
    |s: (String, Vec<(i32, String)>)| s.0@ == name
}

/// The pairs of the first section named `name`, or none.
pub open spec fn section_pairs(sections: Seq<(String, Vec<(i32, String)>)>, name: Seq<char>) -> Seq<
    (i32, Seq<char>),
> {
    match first_match(sections, named_section(name)) {
        Some(s) => pairs_text(s.1@),
        None => seq![],
    }
}

/// The values of the pairs with group code `code`, in order.
pub open spec fn code_values(pairs: Seq<(i32, Seq<char>)>, code: i32) -> Seq<Seq<char>>
    decreases pairs.len(),
{
    if pairs.len() == 0 {
        seq![]
    } else {
        let rest = code_values(pairs.drop_last(), code);
        if pairs.last().0 == code {
            rest.push(pairs.last().1)
        } else {
            rest
        }
    }
}

/// The `index`-th value with group code `code` as an `i32` (0 when there
/// is none or it is not an integer).
pub open spec fn nth_i32(values: Seq<Seq<char>>, index: int) -> i32 {
    if 0 <= index < values.len() {
        match parse_i32(trimmed(values[index])) {
            Some(v) => v,
            None => 0,
        }
    } else {
        0
    }
}

/// The value as an `i32`, 0 when it is not one.
pub open spec fn int_or_zero(value: Option<Seq<char>>) -> i32 {
    match value {
        Some(v) => match parse_i32(trimmed(v)) {
            Some(x) => x,
            None => 0,
        },
        None => 0,
    }
}

/// The value as an `i64`, 0 when it is not one.
pub open spec fn long_or_zero(value: Option<Seq<char>>) -> i64 {
    match value {
        Some(v) => match parse_i64(trimmed(v)) {
            Some(x) => x,
            None => 0,
        },
        None => 0,
    }
}

/// The index of the first section named `name`.
fn find_section(sections: &Vec<(String, Vec<(i32, String)>)>, name: &str) -> (r: Option<usize>)
    ensures
        match r {
            Some(i) => i as int == first_index(sections@, named_section(name@)),
            None => first_index(sections@, named_section(name@)) < 0,
        },
{
    let mut i: usize = 0;
    while i < sections.len()
        invariant
            i <= sections@.len(),
            forall|j: int| 0 <= j < i ==> !(#[trigger] named_section(name@)(sections@[j])),
        decreases sections@.len() - i,
    {
        if same_text(sections[i].0.as_str(), name) {
            proof {
                lemma_first_index_is(sections@, named_section(name@), i as int);
            }
            return Some(i);
        }
        i = i + 1;
    }
    proof {
        lemma_first_index_facts(sections@, named_section(name@));
        if first_index(sections@, named_section(name@)) >= 0 {
            let k = first_index(sections@, named_section(name@));
            assert(named_section(name@)(sections@[k]));
        }
    }
    None
}

/// The pairs of the first section named `name`.
fn section_slice<'a>(sections: &'a Vec<(String, Vec<(i32, String)>)>, name: &str) -> (r: &'a [(
    i32,
    String,
)])
    ensures
        pairs_text(r@) == section_pairs(sections@, name@),
{
    proof {
        lemma_first_index_facts(sections@, named_section(name@));
    }
    match find_section(sections, name) {
        Some(i) => sections[i].1.as_slice(),
        None => {
            let empty: &[(i32, String)] = &[];
            assert(pairs_text(empty@) =~= Seq::<(i32, Seq<char>)>::empty());
            empty
        },
    }
}

impl AssocDxfRecord {
    /// The values with group code `code` in section `section`.
    pub fn values<'a>(&'a self, section: &str, code: i32) -> (r: Vec<&'a str>)
        ensures
            r@.map_values(|v: &str| v@) == code_values(section_pairs(self.sections@, section@), code),
    {
        let pairs = section_slice(&self.sections, section);
        let ghost pv = pairs_text(pairs@);
        let mut out: Vec<&'a str> = Vec::new();
        let mut i: usize = 0;
        while i < pairs.len()
            invariant
                i <= pairs@.len(),
                pv == pairs_text(pairs@),
                out@.map_values(|v: &str| v@) == code_values(pv.take(i as int), code),
            decreases pairs@.len() - i,
        {
            proof {
                assert(pv.take(i + 1).drop_last() =~= pv.take(i as int));
                assert(pv.take(i + 1).last() == pv[i as int]);
            }
            if pairs[i].0 == code {
                let ghost before = out@.map_values(|v: &str| v@);
                out.push(pairs[i].1.as_str());
                assert(out@.map_values(|v: &str| v@) =~= before.push(pairs@[i as int].1@));
            }
            i = i + 1;
        }
        assert(pv.take(pairs@.len() as int) =~= pv);
        out
    }

    /// The `index`-th value with group code `code` in section `section` as
    /// an `i32`, 0 when there is none or it is not an integer.
    pub fn i32(&self, section: &str, code: i32, index: usize) -> (r: i32)
        ensures
            r == nth_i32(code_values(section_pairs(self.sections@, section@), code), index as int),
    {
        let values = self.values(section, code);
        if index < values.len() {
            let v = values[index];
            assert(v@ == values@.map_values(|v: &str| v@)[index as int]);
            match parse_i32_text(trim_text(v)) {
                Some(x) => x,
                None => 0,
            }
        } else {
            0
        }
    }

    /// As [`Self::i32`], truncated to 16 bits.
    pub fn i16(&self, section: &str, code: i32, index: usize) -> (r: i16)
        ensures
            r == nth_i32(code_values(section_pairs(self.sections@, section@), code), index as int)
                as i16,
    {
        self.i32(section, code, index) as i16
    }

    /// As [`Self::i32`], truncated to 8 bits.
    pub fn byte(&self, section: &str, code: i32, index: usize) -> (r: u8)
        ensures
            r == nth_i32(code_values(section_pairs(self.sections@, section@), code), index as int)
                as u8,
    {
        self.i32(section, code, index) as u8
    }

    /// As [`Self::i32`], non-zero.
    pub fn bool(&self, section: &str, code: i32, index: usize) -> (r: bool)
        ensures
            r == (nth_i32(code_values(section_pairs(self.sections@, section@), code), index as int)
                != 0),
    {
        self.i32(section, code, index) != 0
    }

    /// The `index`-th value with group code `code` in section `section`,
    /// empty when there is none.
    pub fn text(&self, section: &str, code: i32, index: usize) -> (r: String)
        ensures
            r@ == ({
                let vs = code_values(section_pairs(self.sections@, section@), code);
                if index < vs.len() {
                    vs[index as int]
                } else {
                    Seq::<char>::empty()
                }
            }),
    {
        let values = self.values(section, code);
        if index < values.len() {
            let v = values[index];
            assert(v@ == values@.map_values(|v: &str| v@)[index as int]);
            owned(v)
        } else {
            String::new()
        }
    }
}

/// The position of the first pair from `pos` on with group code `code`.
pub open spec fn next_with_code(pairs: Seq<(i32, Seq<char>)>, pos: int, code: i32) -> Option<int>
    decreases pairs.len() - pos,
{
    if pos < 0 || pos >= pairs.len() {
        None
    } else if pairs[pos].0 == code {
        Some(pos)
    } else {
        next_with_code(pairs, pos + 1, code)
    }
}

/// The position after reading the next pair with group code `code` from
/// `pos`: just past it, or the end when there is none.
pub open spec fn pos_after(pairs: Seq<(i32, Seq<char>)>, pos: int, code: i32) -> int {
    match next_with_code(pairs, pos, code) {
        Some(k) => k + 1,
        None => pairs.len() as int,
    }
}

/// The value of the next pair with group code `code` from `pos`, if any.
pub open spec fn value_after(pairs: Seq<(i32, Seq<char>)>, pos: int, code: i32) -> Option<Seq<char>> {
    match next_with_code(pairs, pos, code) {
        Some(k) => Some(pairs[k].1),
        None => None,
    }
}

/// The values of the pairs.
pub open spec fn pair_values(ps: Seq<(i32, Seq<char>)>) -> Seq<Seq<char>> {
    ps.map_values(|p: (i32, Seq<char>)| p.1)
}

/// Walks through the pairs of one section, reading typed values.
pub struct AssocCursor<'a> {
    entries: &'a [(i32, String)],
    position: usize,
}

impl<'a> AssocCursor<'a> {
    /// The pairs the cursor walks through.
    pub closed spec fn pairs(&self) -> Seq<(i32, Seq<char>)> {
        pairs_text(self.entries@)
    }

    /// The position of the next pair to read.
    pub closed spec fn pos(&self) -> int {
        self.position as int
    }

    pub closed spec fn wf(&self) -> bool {
        self.position <= self.entries@.len()
    }

    /// A cursor at the start of section `section` of `record` (with no
    /// pairs when the record has no such section).
    pub fn new(record: &'a AssocDxfRecord, section: &str) -> (r: Self)
        ensures
            r.wf(),
            r.pairs() == section_pairs(record.sections@, section@),
            r.pos() == 0,
    {
        AssocCursor { entries: section_slice(&record.sections, section), position: 0 }
    }

    /// The value of the next pair with group code `code`, skipping the
    /// pairs before it; at the end of the section, nothing.
    pub fn next(&mut self, code: i32) -> (r: Option<&'a str>)
        requires
            old(self).wf(),
        ensures
            final(self).wf(),
            final(self).pairs() == old(self).pairs(),
            match next_with_code(old(self).pairs(), old(self).pos(), code) {
                Some(k) => r matches Some(v) && v@ == old(self).pairs()[k].1 && final(self).pos()
                    == k + 1,
                None => r is None && final(self).pos() == old(self).pairs().len(),
            },
    {
        let ghost pv = pairs_text(self.entries@);
        while self.position < self.entries.len()
            invariant
                self.wf(),
                self.entries == old(self).entries,
                pv == pairs_text(self.entries@),
                old(self).pos() <= self.position,
                next_with_code(pv, old(self).pos(), code) == next_with_code(pv, self.position as int, code),
            decreases self.entries@.len() - self.position,
        {
            let i = self.position;
            self.position = self.position + 1;
            assert(pv[i as int].0 == self.entries@[i as int].0);
            if self.entries[i].0 == code {
                assert(pv[i as int].1 == self.entries@[i as int].1@);
                return Some(self.entries[i].1.as_str());
            }
        }
        None
    }

    /// The next value with group code `code` as an `i32` (0 when there is
    /// none or it is not an integer).
    pub fn i32(&mut self, code: i32) -> (r: i32)
        requires
            old(self).wf(),
        ensures
            final(self).wf(),
            final(self).pairs() == old(self).pairs(),
            final(self).pos() == pos_after(old(self).pairs(), old(self).pos(), code),
            r == int_or_zero(
                match next_with_code(old(self).pairs(), old(self).pos(), code) {
                    Some(k) => Some(old(self).pairs()[k].1),
                    None => None,
                },
            ),
    {
        match self.next(code) {
            Some(v) => match parse_i32_text(trim_text(v)) {
                Some(x) => x,
                None => 0,
            },
            None => 0,
        }
    }

    /// The next value with group code `code` as an `i64` (0 when there is
    /// none or it is not an integer).
    pub fn i64(&mut self, code: i32) -> (r: i64)
        requires
            old(self).wf(),
        ensures
            final(self).wf(),
            final(self).pairs() == old(self).pairs(),
            final(self).pos() == pos_after(old(self).pairs(), old(self).pos(), code),
            r == long_or_zero(
                match next_with_code(old(self).pairs(), old(self).pos(), code) {
                    Some(k) => Some(old(self).pairs()[k].1),
                    None => None,
                },
            ),
    {
        match self.next(code) {
            Some(v) => match parse_i64_text(trim_text(v)) {
                Some(x) => x,
                None => 0,
            },
            None => 0,
        }
    }

    /// As [`Self::i32`], truncated to 16 bits.
    pub fn i16(&mut self, code: i32) -> (r: i16)
        requires
            old(self).wf(),
        ensures
            final(self).wf(),
            final(self).pairs() == old(self).pairs(),
            final(self).pos() == pos_after(old(self).pairs(), old(self).pos(), code),
            r == int_or_zero(
                match next_with_code(old(self).pairs(), old(self).pos(), code) {
                    Some(k) => Some(old(self).pairs()[k].1),
                    None => None,
                },
            ) as i16,
    {
        self.i32(code) as i16
    }

    /// As [`Self::i32`], non-zero.
    pub fn bool(&mut self, code: i32) -> (r: bool)
        requires
            old(self).wf(),
        ensures
            final(self).wf(),
            final(self).pairs() == old(self).pairs(),
            final(self).pos() == pos_after(old(self).pairs(), old(self).pos(), code),
            r == (int_or_zero(
                match next_with_code(old(self).pairs(), old(self).pos(), code) {
                    Some(k) => Some(old(self).pairs()[k].1),
                    None => None,
                },
            ) != 0),
    {
        self.i32(code) != 0
    }

    /// The next value with group code `code`, empty when there is none.
    pub fn text(&mut self, code: i32) -> (r: String)
        requires
            old(self).wf(),
        ensures
            final(self).wf(),
            final(self).pairs() == old(self).pairs(),
            r@ == match next_with_code(old(self).pairs(), old(self).pos(), code) {
                Some(k) => old(self).pairs()[k].1,
                None => Seq::<char>::empty(),
            },
            match next_with_code(old(self).pairs(), old(self).pos(), code) {
                Some(k) => final(self).pos() == k + 1,
                None => final(self).pos() == old(self).pairs().len(),
            },
    {
        match self.next(code) {
            Some(v) => owned(v),
            None => String::new(),
        }
    }

    /// The group code of the next pair, if there is one.
    pub fn peek_code(&self) -> (r: Option<i32>)
        requires
            self.wf(),
        ensures
            r == (if self.pos() < self.pairs().len() {
                Some(self.pairs()[self.pos()].0)
            } else {
                None::<i32>
            }),
    {
        if self.position < self.entries.len() {
            Some(self.entries[self.position].0)
        } else {
            None
        }
    }

    /// The next pair has group code `code`.
    fn at_code(&self, code: i32) -> (r: bool)
        requires
            self.wf(),
        ensures
            r == (self.pos() < self.pairs().len() && self.pairs()[self.pos()].0 == code),
    {
        match self.peek_code() {
            Some(c) => c == code,
            None => false,
        }
    }

    /// The values of the run of pairs with group code `code` that starts at
    /// the cursor.
    pub fn consecutive_text(&mut self, code: i32) -> (r: Vec<String>)
        requires
            old(self).wf(),
        ensures
            final(self).wf(),
            final(self).pairs() == old(self).pairs(),
            old(self).pos() <= final(self).pos() <= old(self).pairs().len(),
            final(self).pos() < final(self).pairs().len() ==> final(self).pairs()[final(self).pos()].0
                != code,
            forall|k: int|
                old(self).pos() <= k < final(self).pos() ==> #[trigger] old(self).pairs()[k].0 == code,
            r@.map_values(|s: String| s@) == pair_values(
                old(self).pairs().subrange(old(self).pos(), final(self).pos()),
            ),
    {
        let ghost start = self.pos();
        let ghost pv = self.pairs();
        let mut values: Vec<String> = Vec::new();
        while self.at_code(code)
            invariant
                self.wf(),
                self.pairs() == pv,
                0 <= start <= self.pos() <= pv.len(),
                forall|k: int| start <= k < self.pos() ==> #[trigger] pv[k].0 == code,
                values@.map_values(|s: String| s@) == pair_values(pv.subrange(start, self.pos())),
            decreases pv.len() - self.pos(),
        {
            let ghost at = self.pos();
            let ghost before = values@.map_values(|s: String| s@);
            assert(at < pv.len());
            assert(start <= at);
            assert(pv[at].0 == code);
            assert(next_with_code(pv, at, code) == Some(at));
            let v = self.text(code);
            assert(v@ == pv[at].1);
            assert(self.pos() == at + 1);
            let ghost longer = pv.subrange(start, at + 1);
            let ghost shorter = pv.subrange(start, at).push(pv[at]);
            assert(longer.len() == shorter.len());
            assert forall|i: int| 0 <= i < longer.len() implies longer[i] == shorter[i] by {
                if i < at - start {
                    assert(shorter[i] == pv.subrange(start, at)[i]);
                } else {
                    assert(i == at - start);
                }
            }
            assert(longer =~= shorter);
            assert(pair_values(pv.subrange(start, at + 1)) =~= pair_values(pv.subrange(start, at)).push(
                pv[at].1,
            ));
            values.push(v);
            assert(values@.map_values(|s: String| s@) =~= pair_values(pv.subrange(start, self.pos())));
        }
        values
    }
}

} // verus!
