//! Bit-level reading of DWG object streams: the bit-coded integers, doubles
//! and handle references that object records are made of.
//!
//! A stream is a byte buffer read most-significant bit first. Bits past the
//! end of the buffer read as zero, so every read is total.
use vstd::prelude::*;
use vstd::arithmetic::power2::*;

verus! {

/// Bit `i` of the stream, counted from the most significant bit of the first
/// byte; false past the end.
pub open spec fn bit_at(data: Seq<u8>, i: int) -> bool {
    0 <= i < data.len() * 8 && (data[i / 8] >> ((7 - i % 8) as u8)) & 1u8 == 1u8
}

/// The `n` bits starting at `pos`, read as an unsigned number, first bit most
/// significant.
pub open spec fn bits_value(data: Seq<u8>, pos: int, n: nat) -> nat
    decreases n,
{
    if n == 0 {
        0
    } else {
        2 * bits_value(data, pos, (n - 1) as nat) + if bit_at(data, pos + n - 1) {
            1nat
        } else {
            0nat
        }
    }
}

pub proof fn lemma_bits_value_bound(data: Seq<u8>, pos: int, n: nat)
    ensures
        bits_value(data, pos, n) < pow2(n),
    decreases n,
{
    if n == 0 {
        lemma2_to64();
    } else {
        lemma_bits_value_bound(data, pos, (n - 1) as nat);
        lemma_pow2_unfold(n);
    }
}

/// A raw (unaligned) byte at bit position `pos`.
pub open spec fn raw_char(data: Seq<u8>, pos: int) -> nat {
    bits_value(data, pos, 8)
}

/// A raw little-endian 16-bit unsigned value.
pub open spec fn raw_short_u(data: Seq<u8>, pos: int) -> nat {
    raw_char(data, pos) + 256 * raw_char(data, pos + 8)
}

/// A raw little-endian 32-bit unsigned value.
pub open spec fn raw_long_u(data: Seq<u8>, pos: int) -> nat {
    raw_short_u(data, pos) + 65536 * raw_short_u(data, pos + 16)
}

/// A raw little-endian 64-bit value.
pub open spec fn raw_double_bits(data: Seq<u8>, pos: int) -> nat {
    raw_long_u(data, pos) + 4294967296 * raw_long_u(data, pos + 32)
}

/// Two's complement reading of a 16-bit value.
pub open spec fn signed16(u: nat) -> int {
    if u < 32768 {
        u as int
    } else {
        u - 65536
    }
}

/// Two's complement reading of a 32-bit value.
pub open spec fn signed32(u: nat) -> int {
    if u < 2147483648 {
        u as int
    } else {
        u - 4294967296
    }
}

/// A bit-coded short at `pos`: its value and the number of bits it takes.
/// Code 0 is a raw short, 1 an unsigned byte, 2 zero and 3 the value 256.
pub open spec fn bit_short(data: Seq<u8>, pos: int) -> (int, nat) {
    let code = bits_value(data, pos, 2);
    if code == 0 {
        (signed16(raw_short_u(data, pos + 2)), 18)
    } else if code == 1 {
        (raw_char(data, pos + 2) as int, 10)
    } else if code == 2 {
        (0, 2)
    } else {
        (256, 2)
    }
}

/// A bit-coded long at `pos`: code 0 is a raw long, 1 an unsigned byte, and
/// 2 (as well as the unused 3) zero.
pub open spec fn bit_long(data: Seq<u8>, pos: int) -> (int, nat) {
    let code = bits_value(data, pos, 2);
    if code == 0 {
        (signed32(raw_long_u(data, pos + 2)), 34)
    } else if code == 1 {
        (raw_char(data, pos + 2) as int, 10)
    } else {
        (0, 2)
    }
}

/// The IEEE-754 bit pattern of 1.0.
pub open spec fn one_bits() -> nat {
    0x3FF0_0000_0000_0000
}

/// A bit-coded double at `pos`, as the bit pattern of its value: code 0 is a
/// raw double, 1 the value 1.0, and 2 (as well as the unused 3) 0.0.
pub open spec fn bit_double(data: Seq<u8>, pos: int) -> (nat, nat) {
    let code = bits_value(data, pos, 2);
    if code == 0 {
        (raw_double_bits(data, pos + 2), 66)
    } else if code == 1 {
        (one_bits(), 2)
    } else {
        (0, 2)
    }
}

/// The first `n` offset bytes of a handle reference that starts at `pos`,
/// most significant first; a counter above eight keeps the low 64 bits.
pub open spec fn handle_offset(data: Seq<u8>, pos: int, n: nat) -> nat
    decreases n,
{
    if n == 0 {
        0
    } else {
        (handle_offset(data, pos, (n - 1) as nat) % 0x100_0000_0000_0000) * 256 + raw_char(
            data,
            pos + 8 + 8 * (n - 1),
        )
    }
}

/// The handle a reference designates: codes 2 to 5 hold it directly, and 6,
/// 8, 10 and 12 are one more, one less, the offset more and the offset less
/// than the reference handle, in 64-bit wrapping arithmetic.
pub open spec fn designated_handle(code: nat, offset: nat, reference: nat) -> nat {
    if code == 6 {
        (reference + 1) % 0x1_0000_0000_0000_0000
    } else if code == 8 {
        (reference + 0xFFFF_FFFF_FFFF_FFFF) % 0x1_0000_0000_0000_0000
    } else if code == 10 {
        (reference + offset) % 0x1_0000_0000_0000_0000
    } else if code == 12 {
        ((reference + 0x1_0000_0000_0000_0000 - offset % 0x1_0000_0000_0000_0000) % 0x1_0000_0000_0000_0000) as nat
    } else {
        offset
    }
}

/// A handle reference at `pos`, against `reference`: the handle and the bits
/// it takes (a code nibble, a counter nibble, then that many bytes).
pub open spec fn handle_ref(data: Seq<u8>, pos: int, reference: nat) -> (nat, nat) {
    let code = bits_value(data, pos, 4);
    let counter = bits_value(data, pos + 4, 4);
    (designated_handle(code, handle_offset(data, pos, counter), reference), 8 + 8 * counter)
}

/// A reader over one bit stream.
pub struct DwgBitReader {
    pub data: Vec<u8>,
    pub pos: usize,
}

impl View for DwgBitReader {
    type V = (Seq<u8>, nat);

    open spec fn view(&self) -> (Seq<u8>, nat) {
        (self.data@, self.pos as nat)
    }
}

/// The bit position reached by moving `k` bits on from `pos`: reading stops
/// at the end of the stream, where everything further reads as zero.
pub open spec fn advance(data: Seq<u8>, pos: int, k: nat) -> int {
    if pos + k < data.len() * 8 {
        pos + k
    } else {
        (data.len() * 8) as int
    }
}

pub proof fn lemma_past_end_zero(data: Seq<u8>, pos: int, n: nat)
    requires
        pos >= data.len() * 8,
    ensures
        bits_value(data, pos, n) == 0,
    decreases n,
{
    if n > 0 {
        lemma_past_end_zero(data, pos, (n - 1) as nat);
    }
}

/// Reading from an advanced position gives what reading from the unclamped
/// position gives.
pub proof fn lemma_advance_reads(data: Seq<u8>, pos: int, k: nat, n: nat)
    requires
        0 <= pos,
    ensures
        bits_value(data, advance(data, pos, k), n) == bits_value(data, pos + k, n),
{
    lemma_same_reads(data, advance(data, pos, k), pos + k, n);
}

/// Two positions that are equal, or both at or past the end, read alike.
pub proof fn lemma_same_reads(data: Seq<u8>, q: int, q2: int, n: nat)
    requires
        q == q2 || (q >= data.len() * 8 && q2 >= data.len() * 8),
    ensures
        bits_value(data, q, n) == bits_value(data, q2, n),
{
    if q != q2 {
        lemma_past_end_zero(data, q, n);
        lemma_past_end_zero(data, q2, n);
    }
}

pub proof fn lemma_same_short(data: Seq<u8>, q: int, q2: int)
    requires
        q == q2 || (q >= data.len() * 8 && q2 >= data.len() * 8),
    ensures
        raw_short_u(data, q) == raw_short_u(data, q2),
{
    lemma_same_reads(data, q, q2, 8);
    lemma_same_reads(data, q + 8, q2 + 8, 8);
}

pub proof fn lemma_same_long(data: Seq<u8>, q: int, q2: int)
    requires
        q == q2 || (q >= data.len() * 8 && q2 >= data.len() * 8),
    ensures
        raw_long_u(data, q) == raw_long_u(data, q2),
{
    lemma_same_short(data, q, q2);
    lemma_same_short(data, q + 16, q2 + 16);
}

impl DwgBitReader {
    pub open spec fn wf(&self) -> bool {
        self.pos <= self.data.len() * 8 <= usize::MAX
    }

    pub fn new(data: Vec<u8>) -> (r: Self)
        requires
            data.len() * 8 <= usize::MAX,
        ensures
            r.data@ == data@,
            r.pos == 0,
            r.wf(),
    {
        DwgBitReader { data, pos: 0 }
    }

    pub fn read_bit(&mut self) -> (r: bool)
        requires
            old(self).wf(),
        ensures
            r == bit_at(old(self).data@, old(self).pos as int),
            final(self).data@ == old(self).data@,
            final(self).pos == advance(old(self).data@, old(self).pos as int, 1),
            final(self).wf(),
    {
        let p = self.pos;
        if p / 8 < self.data.len() {
            self.pos = p + 1;
            (self.data[p / 8] >> ((7 - p % 8) as u8)) & 1u8 == 1u8
        } else {
            false
        }
    }

    /// Reads `n` bits as an unsigned number, first bit most significant.
    pub fn read_bits(&mut self, n: usize) -> (r: u64)
        requires
            n <= 64,
            old(self).wf(),
        ensures
            r == bits_value(old(self).data@, old(self).pos as int, n as nat),
            final(self).data@ == old(self).data@,
            final(self).pos == advance(old(self).data@, old(self).pos as int, n as nat),
            final(self).wf(),
    {
        let start = self.pos;
        let mut v: u64 = 0;
        let mut i: usize = 0;
        while i < n
            invariant
                i <= n <= 64,
                self.wf(),
                self.pos == advance(self.data@, start as int, i as nat),
                self.data@ == old(self).data@,
                start == old(self).pos,
                v == bits_value(self.data@, start as int, i as nat),
            decreases n - i,
        {
            proof {
                lemma_bits_value_bound(self.data@, start as int, i as nat);
                if i < 63 {
                    lemma_pow2_strictly_increases(i as nat, 63);
                }
                lemma2_to64_rest();
            }
            let b = self.read_bit();
            assert(start as int + (i + 1) as nat - 1 == start + i);
            v = 2 * v + if b { 1u64 } else { 0u64 };
            i = i + 1;
        }
        v
    }
    pub fn read_raw_char(&mut self) -> (r: u8)
        requires
            old(self).wf(),
        ensures
            r == raw_char(old(self).data@, old(self).pos as int),
            final(self).data@ == old(self).data@,
            final(self).pos == advance(old(self).data@, old(self).pos as int, 8 as nat),
            final(self).wf(),
    {
        proof {
            lemma_bits_value_bound(self.data@, self.pos as int, 8);
            lemma2_to64();
        }
        let v = self.read_bits(8);
        v as u8
    }

    /// A raw little-endian short, as its unsigned value.
    fn read_raw_short_u(&mut self) -> (r: u16)
        requires
            old(self).wf(),
        ensures
            r == raw_short_u(old(self).data@, old(self).pos as int),
            final(self).data@ == old(self).data@,
            final(self).pos == advance(old(self).data@, old(self).pos as int, 16 as nat),
            final(self).wf(),
    {
        let ghost p = self.pos as int;
        let lo = self.read_raw_char();
        proof { lemma_advance_reads(self.data@, p, 8, 8); }
        let hi = self.read_raw_char();
        lo as u16 + 256 * (hi as u16)
    }

    /// A raw little-endian long, as its unsigned value.
    fn read_raw_long_u(&mut self) -> (r: u32)
        requires
            old(self).wf(),
        ensures
            r == raw_long_u(old(self).data@, old(self).pos as int),
            final(self).data@ == old(self).data@,
            final(self).pos == advance(old(self).data@, old(self).pos as int, 32 as nat),
            final(self).wf(),
    {
        let ghost p = self.pos as int;
        let lo = self.read_raw_short_u();
        proof { lemma_same_short(self.data@, self.pos as int, p + 16); }
        let hi = self.read_raw_short_u();
        lo as u32 + 65536 * (hi as u32)
    }

    pub fn read_raw_short(&mut self) -> (r: i16)
        requires
            old(self).wf(),
        ensures
            r == signed16(raw_short_u(old(self).data@, old(self).pos as int)),
            final(self).data@ == old(self).data@,
            final(self).pos == advance(old(self).data@, old(self).pos as int, 16 as nat),
            final(self).wf(),
    {
        let u = self.read_raw_short_u();
        if u < 32768 {
            u as i16
        } else {
            (u as i32 - 65536) as i16
        }
    }

    pub fn read_raw_long(&mut self) -> (r: i32)
        requires
            old(self).wf(),
        ensures
            r == signed32(raw_long_u(old(self).data@, old(self).pos as int)),
            final(self).data@ == old(self).data@,
            final(self).pos == advance(old(self).data@, old(self).pos as int, 32 as nat),
            final(self).wf(),
    {
        let u = self.read_raw_long_u();
        if u < 2147483648 {
            u as i32
        } else {
            (u as i64 - 4294967296) as i32
        }
    }

    /// A raw little-endian double, as its bit pattern.
    pub fn read_raw_double_bits(&mut self) -> (r: u64)
        requires
            old(self).wf(),
        ensures
            r == raw_double_bits(old(self).data@, old(self).pos as int),
            final(self).data@ == old(self).data@,
            final(self).pos == advance(old(self).data@, old(self).pos as int, 64 as nat),
            final(self).wf(),
    {
        let ghost p = self.pos as int;
        let lo = self.read_raw_long_u();
        proof { lemma_same_long(self.data@, self.pos as int, p + 32); }
        let hi = self.read_raw_long_u();
        lo as u64 + 4294967296 * (hi as u64)
    }

    pub fn read_bit_short(&mut self) -> (r: i16)
        requires
            old(self).wf(),
        ensures
            r == bit_short(old(self).data@, old(self).pos as int).0,
            final(self).data@ == old(self).data@,
            final(self).pos == advance(old(self).data@, old(self).pos as int, bit_short(old(self).data@, old(self).pos as int).1),
            final(self).wf(),
    {
        let ghost p = self.pos as int;
        let code = self.read_bits(2);
        proof {
            lemma_same_short(self.data@, self.pos as int, p + 2);
            lemma_same_reads(self.data@, self.pos as int, p + 2, 8);
        }
        if code == 0 {
            self.read_raw_short()
        } else if code == 1 {
            self.read_raw_char() as i16
        } else if code == 2 {
            0
        } else {
            256
        }
    }

    pub fn read_bit_long(&mut self) -> (r: i32)
        requires
            old(self).wf(),
        ensures
            r == bit_long(old(self).data@, old(self).pos as int).0,
            final(self).data@ == old(self).data@,
            final(self).pos == advance(old(self).data@, old(self).pos as int, bit_long(old(self).data@, old(self).pos as int).1),
            final(self).wf(),
    {
        let ghost p = self.pos as int;
        let code = self.read_bits(2);
        proof {
            lemma_same_long(self.data@, self.pos as int, p + 2);
            lemma_same_reads(self.data@, self.pos as int, p + 2, 8);
        }
        if code == 0 {
            self.read_raw_long()
        } else if code == 1 {
            self.read_raw_char() as i32
        } else {
            0
        }
    }

    /// A bit-coded double, as the bit pattern of its value.
    pub fn read_bit_double_bits(&mut self) -> (r: u64)
        requires
            old(self).wf(),
        ensures
            r == bit_double(old(self).data@, old(self).pos as int).0,
            final(self).data@ == old(self).data@,
            final(self).pos == advance(old(self).data@, old(self).pos as int, bit_double(old(self).data@, old(self).pos as int).1),
            final(self).wf(),
    {
        let ghost p = self.pos as int;
        let code = self.read_bits(2);
        proof {
            lemma_same_long(self.data@, self.pos as int, p + 2);
            lemma_same_long(self.data@, self.pos + 32, p + 34);
        }
        if code == 0 {
            self.read_raw_double_bits()
        } else if code == 1 {
            0x3FF0_0000_0000_0000
        } else {
            0
        }
    }

    /// A handle reference, resolved against `reference`.
    pub fn read_handle_reference(&mut self, reference: u64) -> (r: u64)
        requires
            old(self).wf(),
        ensures
            r == handle_ref(old(self).data@, old(self).pos as int, reference as nat).0,
            final(self).data@ == old(self).data@,
            final(self).pos == advance(
                old(self).data@,
                old(self).pos as int,
                handle_ref(old(self).data@, old(self).pos as int, reference as nat).1,
            ),
            final(self).wf(),
    {
        let start = self.pos;
        let code = self.read_bits(4);
        proof { lemma_advance_reads(self.data@, start as int, 4, 4); }
        let counter = self.read_bits(4);
        proof {
            lemma_bits_value_bound(self.data@, start + 4, 4);
            lemma2_to64();
        }
        let mut offset: u64 = 0;
        let mut i: u64 = 0;
        while i < counter
            invariant
                i <= counter < 16,
                self.wf(),
                self.pos == advance(self.data@, start as int, (8 + 8 * i) as nat),
                self.data@ == old(self).data@,
                start == old(self).pos,
                counter == bits_value(self.data@, start + 4, 4),
                offset == handle_offset(self.data@, start as int, i as nat),
            decreases counter - i,
        {
            proof { lemma_advance_reads(self.data@, start as int, (8 + 8 * i) as nat, 8); }
            let b = self.read_raw_char();
            offset = (offset % 0x100_0000_0000_0000) * 256 + b as u64;
            i = i + 1;
        }
        if code == 6 {
            reference.wrapping_add(1)
        } else if code == 8 {
            reference.wrapping_sub(1)
        } else if code == 10 {
            reference.wrapping_add(offset)
        } else if code == 12 {
            reference.wrapping_sub(offset)
        } else {
            offset
        }
    }

}

} // verus!
