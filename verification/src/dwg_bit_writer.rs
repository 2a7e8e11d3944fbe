//! Writing DWG bit streams, and what reading gives back of what was written.
use vstd::prelude::*;
use vstd::arithmetic::power2::*;
use crate::dwg_bits::{bit_at, bit_long, bits_value, handle_offset, handle_ref, raw_char, raw_long_u,
    raw_short_u};

verus! {

/// The `n` bits of `x`, most significant first.
pub open spec fn num_bits(x: nat, n: nat) -> Seq<bool>
    decreases n,
{
    if n == 0 {
        Seq::empty()
    } else {
        num_bits(x / 2, (n - 1) as nat).push(x % 2 == 1)
    }
}

/// `n` bytes of `x`, most significant byte first, each as eight bits.
pub open spec fn be_byte_bits(x: nat, n: nat) -> Seq<bool>
    decreases n,
{
    if n == 0 {
        Seq::empty()
    } else {
        be_byte_bits(x / 256, (n - 1) as nat) + num_bits(x % 256, 8)
    }
}

/// A 32-bit value as four little-endian bytes.
pub open spec fn raw_long_bits(u: nat) -> Seq<bool> {
    num_bits(u % 256, 8) + num_bits((u / 256) % 256, 8) + num_bits((u / 65536) % 256, 8)
        + num_bits(u / 16777216, 8)
}

/// The bit-coded form of a long: zero as code 2, a value below 256 as
/// code 1 and a byte, anything else as code 0 and a raw long.
pub open spec fn bit_long_bits(v: i32) -> Seq<bool> {
    if v == 0 {
        seq![true, false]
    } else if 0 < v < 256 {
        seq![false, true] + num_bits(v as nat, 8)
    } else {
        seq![false, false] + raw_long_bits(if v < 0 {
            (v + 4294967296) as nat
        } else {
            v as nat
        })
    }
}

/// The number of bytes that hold `x` without leading zero bytes.
pub open spec fn byte_count(x: nat) -> nat
    decreases x,
{
    if x == 0 {
        0
    } else {
        1 + byte_count(x / 256)
    }
}

/// A handle reference with code `code`: the code nibble, the byte count
/// nibble, then the handle's bytes.
pub open spec fn handle_bits(code: nat, h: nat) -> Seq<bool> {
    num_bits(code, 4) + num_bits(byte_count(h), 4) + be_byte_bits(h, byte_count(h))
}

/// The stream holds the bits `s` from position `pos` on.
pub open spec fn bits_match(data: Seq<u8>, pos: int, s: Seq<bool>) -> bool {
    forall|i: int| 0 <= i < s.len() ==> bit_at(data, pos + i) == #[trigger] s[i]
}

pub proof fn lemma_num_bits_len(x: nat, n: nat)
    ensures
        num_bits(x, n).len() == n,
    decreases n,
{
    if n > 0 {
        lemma_num_bits_len(x / 2, (n - 1) as nat);
    }
}

pub proof fn lemma_be_byte_bits_len(x: nat, n: nat)
    ensures
        be_byte_bits(x, n).len() == 8 * n,
    decreases n,
{
    if n > 0 {
        lemma_be_byte_bits_len(x / 256, (n - 1) as nat);
        lemma_num_bits_len(x % 256, 8);
    }
}

/// Reading `n` bits gives back a number that was written in `n` bits.
pub proof fn lemma_read_num_bits(data: Seq<u8>, pos: int, x: nat, n: nat)
    requires
        x < pow2(n),
        bits_match(data, pos, num_bits(x, n)),
    ensures
        bits_value(data, pos, n) == x,
    decreases n,
{
    lemma_num_bits_len(x, n);
    if n == 0 {
        lemma2_to64();
    } else {
        let m = (n - 1) as nat;
        lemma_num_bits_len(x / 2, m);
        assert(num_bits(x, n) == num_bits(x / 2, m).push(x % 2 == 1));
        assert forall|i: int| 0 <= i < num_bits(x / 2, m).len() implies bit_at(data, pos + i)
            == #[trigger] num_bits(x / 2, m)[i] by {
            assert(num_bits(x, n)[i] == num_bits(x / 2, m)[i]);
        }
        assert(bit_at(data, pos + m) == num_bits(x, n)[m as int]);
        lemma_pow2_unfold(n);
        lemma_read_num_bits(data, pos, x / 2, m);
    }
}

/// The bits `a + b` hold at `pos` exactly when `a` holds there and `b`
/// right after it.
pub proof fn lemma_match_concat(data: Seq<u8>, pos: int, a: Seq<bool>, b: Seq<bool>)
    ensures
        bits_match(data, pos, a + b) <==> (bits_match(data, pos, a) && bits_match(
            data,
            pos + a.len(),
            b,
        )),
{
    if bits_match(data, pos, a + b) {
        assert forall|i: int| 0 <= i < a.len() implies bit_at(data, pos + i) == #[trigger] a[i] by {
            assert((a + b)[i] == a[i]);
        }
        assert forall|i: int| 0 <= i < b.len() implies bit_at(data, pos + a.len() + i)
            == #[trigger] b[i] by {
            assert((a + b)[a.len() + i] == b[i]);
            assert(pos + (a.len() + i) == pos + a.len() + i);
        }
    }
    if bits_match(data, pos, a) && bits_match(data, pos + a.len(), b) {
        assert forall|i: int| 0 <= i < (a + b).len() implies bit_at(data, pos + i) == #[trigger] (a
            + b)[i] by {
            if i >= a.len() {
                assert(b[i - a.len()] == (a + b)[i]);
                assert(pos + a.len() + (i - a.len()) == pos + i);
            }
        }
    }
}

pub proof fn lemma_read_raw_char(data: Seq<u8>, pos: int, x: nat)
    requires
        x < 256,
        bits_match(data, pos, num_bits(x, 8)),
    ensures
        raw_char(data, pos) == x,
{
    lemma2_to64();
    lemma_read_num_bits(data, pos, x, 8);
}

/// A long written as four little-endian bytes reads back.
pub proof fn lemma_read_raw_long(data: Seq<u8>, pos: int, u: nat)
    requires
        u < 4294967296,
        bits_match(data, pos, raw_long_bits(u)),
    ensures
        raw_long_u(data, pos) == u,
{
    let b0 = num_bits(u % 256, 8);
    let b1 = num_bits((u / 256) % 256, 8);
    let b2 = num_bits((u / 65536) % 256, 8);
    let b3 = num_bits(u / 16777216, 8);
    lemma_num_bits_len(u % 256, 8);
    lemma_num_bits_len((u / 256) % 256, 8);
    lemma_num_bits_len((u / 65536) % 256, 8);
    lemma_num_bits_len(u / 16777216, 8);
    lemma_match_concat(data, pos, b0 + b1 + b2, b3);
    lemma_match_concat(data, pos, b0 + b1, b2);
    lemma_match_concat(data, pos, b0, b1);
    lemma_read_raw_char(data, pos, u % 256);
    lemma_read_raw_char(data, pos + 8, (u / 256) % 256);
    lemma_read_raw_char(data, pos + 16, (u / 65536) % 256);
    lemma_read_raw_char(data, pos + 24, u / 16777216);
    assert(raw_short_u(data, pos) == u % 65536) by (nonlinear_arith)
        requires
            raw_char(data, pos) == u % 256,
            raw_char(data, pos + 8) == (u / 256) % 256,
    {
    }
    assert(raw_short_u(data, pos + 16) == u / 65536) by (nonlinear_arith)
        requires
            u < 4294967296,
            raw_char(data, pos + 16) == (u / 65536) % 256,
            raw_char(data, pos + 16 + 8) == u / 16777216,
    {
    }
}

/// A bit-coded long reads back as the value written, and takes as many bits
/// as were written.
pub proof fn lemma_bit_long_round_trip(data: Seq<u8>, pos: int, v: i32)
    requires
        bits_match(data, pos, bit_long_bits(v)),
    ensures
        bit_long(data, pos) == (v as int, bit_long_bits(v).len()),
{
    lemma2_to64();
    let code = if v == 0 {
        seq![true, false]
    } else if 0 < v < 256 {
        seq![false, true]
    } else {
        seq![false, false]
    };
    let c: nat = if v == 0 {
        2
    } else if 0 < v < 256 {
        1
    } else {
        0
    };
    assert(num_bits(c, 2) =~= code) by {
        reveal_with_fuel(num_bits, 3);
    }
    if v == 0 {
        assert(bit_long_bits(v) == code);
        lemma_read_num_bits(data, pos, c, 2);
    } else if 0 < v < 256 {
        let rest = num_bits(v as nat, 8);
        lemma_num_bits_len(v as nat, 8);
        lemma_match_concat(data, pos, code, rest);
        lemma_read_num_bits(data, pos, c, 2);
        lemma_read_raw_char(data, pos + 2, v as nat);
    } else {
        let u: nat = if v < 0 {
            (v + 4294967296) as nat
        } else {
            v as nat
        };
        let rest = raw_long_bits(u);
        lemma_match_concat(data, pos, code, rest);
        lemma_read_num_bits(data, pos, c, 2);
        lemma_read_raw_long(data, pos + 2, u);
        lemma_num_bits_len(u % 256, 8);
        lemma_num_bits_len((u / 256) % 256, 8);
        lemma_num_bits_len((u / 65536) % 256, 8);
        lemma_num_bits_len(u / 16777216, 8);
    }
}

pub proof fn lemma_byte_count_bound(x: nat)
    ensures
        x < pow2(8 * byte_count(x)),
    decreases x,
{
    if x == 0 {
        lemma2_to64();
    } else {
        lemma_byte_count_bound(x / 256);
        let k = byte_count(x / 256);
        lemma_pow2_adds(8 * k, 8);
        lemma2_to64();
        assert(8 * byte_count(x) == 8 * k + 8);
    }
}

pub proof fn lemma_byte_count_at_most(x: nat, k: nat)
    requires
        x < pow2(8 * k),
    ensures
        byte_count(x) <= k,
    decreases x,
{
    if x > 0 {
        if k == 0 {
            lemma2_to64();
        } else {
            lemma_pow2_adds(8 * (k - 1) as nat, 8);
            lemma2_to64();
            assert(8 * k == 8 * (k - 1) as nat + 8);
            lemma_byte_count_at_most(x / 256, (k - 1) as nat);
        }
    }
}

/// The offset bytes of a handle reference read back as the number they were
/// written from.
pub proof fn lemma_read_be_bytes(data: Seq<u8>, pos: int, x: nat, n: nat)
    requires
        n <= 8,
        x < pow2(8 * n),
        bits_match(data, pos + 8, be_byte_bits(x, n)),
    ensures
        handle_offset(data, pos, n) == x,
    decreases n,
{
    if n == 0 {
        lemma2_to64();
    } else {
        let m = (n - 1) as nat;
        lemma_be_byte_bits_len(x / 256, m);
        lemma_match_concat(data, pos + 8, be_byte_bits(x / 256, m), num_bits(x % 256, 8));
        lemma_pow2_adds(8 * m, 8);
        lemma2_to64();
        assert(8 * n == 8 * m + 8);
        let q = pow2(8 * m);
        assert(x / 256 < q) by (nonlinear_arith)
            requires
                x < q * 256,
        {
        }
        lemma_read_be_bytes(data, pos, x / 256, m);
        lemma_read_raw_char(data, pos + 8 + 8 * m, x % 256);
        if m < 7 {
            lemma_pow2_strictly_increases(8 * m, 56);
        }
        lemma2_to64_rest();
        assert((x / 256) % 0x100_0000_0000_0000 == x / 256);
        assert(x == (x / 256) * 256 + x % 256);
    }
}

/// A handle reference with a code from 2 to 5 reads back, against any
/// reference handle, as the handle written, and takes as many bits as were
/// written.
pub proof fn lemma_handle_round_trip(data: Seq<u8>, pos: int, code: nat, h: u64, reference: nat)
    requires
        2 <= code <= 5,
        bits_match(data, pos, handle_bits(code, h as nat)),
    ensures
        handle_ref(data, pos, reference) == (h as nat, handle_bits(code, h as nat).len()),
{
    let n = byte_count(h as nat);
    lemma2_to64();
    lemma2_to64_rest();
    lemma_byte_count_bound(h as nat);
    lemma_byte_count_at_most(h as nat, 8);
    lemma_num_bits_len(code, 4);
    lemma_num_bits_len(n, 4);
    lemma_be_byte_bits_len(h as nat, n);
    lemma_match_concat(data, pos, num_bits(code, 4) + num_bits(n, 4), be_byte_bits(h as nat, n));
    lemma_match_concat(data, pos, num_bits(code, 4), num_bits(n, 4));
    lemma_read_num_bits(data, pos, code, 4);
    lemma_read_num_bits(data, pos + 4, n, 4);
    lemma_read_be_bytes(data, pos, h as nat, n);
}

/// A writer of one bit stream: `len` bits written into `data`, first bit
/// most significant.
pub struct DwgBitWriter {
    pub data: Vec<u8>,
    pub len: usize,
}

proof fn lemma_set_bit(b: u8, k: u8, j: u8)
    requires
        k < 8,
        j < 8,
    ensures
        ((b | (0x80u8 >> k)) >> (7 - j) as u8) & 1u8 == 1u8 <==> (j == k || (b >> (7 - j) as u8)
            & 1u8 == 1u8),
{
    assert(((b | (0x80u8 >> k)) >> (7 - j) as u8) & 1u8 == 1u8 <==> (j == k || (b >> (7 - j) as u8)
        & 1u8 == 1u8)) by (bit_vector)
        requires
            k < 8,
            j < 8,
    ;
}

proof fn lemma_fresh_byte(j: u8)
    requires
        j < 8,
    ensures
        (0x80u8 >> (7 - j) as u8) & 1u8 == 1u8 <==> j == 0,
        (0u8 >> (7 - j) as u8) & 1u8 == 0u8,
{
    assert((0x80u8 >> (7 - j) as u8) & 1u8 == 1u8 <==> j == 0) by (bit_vector)
        requires
            j < 8,
    ;
    assert((0u8 >> (7 - j) as u8) & 1u8 == 0u8) by (bit_vector);
}

impl DwgBitWriter {
    /// The bits written so far.
    pub open spec fn written(&self) -> Seq<bool> {
        Seq::new(self.len as nat, |i: int| bit_at(self.data@, i))
    }

    pub open spec fn wf(&self) -> bool {
        &&& self.data.len() == (self.len + 7) / 8
        &&& forall|i: int| self.len <= i < self.data.len() * 8 ==> !#[trigger] bit_at(self.data@, i)
    }

    pub fn new() -> (r: Self)
        ensures
            r.wf(),
            r.written() == Seq::<bool>::empty(),
    {
        DwgBitWriter { data: Vec::new(), len: 0 }
    }

    pub fn write_bit(&mut self, b: bool)
        requires
            old(self).wf(),
            old(self).len < usize::MAX,
        ensures
            final(self).wf(),
            final(self).len == old(self).len + 1,
            final(self).written() == old(self).written().push(b),
    {
        let ghost d0 = self.data@;
        let ghost len0 = self.len as int;
        let k = self.len % 8;
        if k == 0 {
            self.data.push(if b { 0x80u8 } else { 0u8 });
            proof {
                assert(d0.len() * 8 == len0);
                assert forall|i: int| 0 <= i < self.data.len() * 8 implies bit_at(self.data@, i) == (
                bit_at(d0, i) || (b && i == len0)) by {
                    if i < d0.len() * 8 {
                        assert(self.data@[i / 8] == d0[i / 8]);
                    } else {
                        assert(i / 8 == d0.len());
                        lemma_fresh_byte((i % 8) as u8);
                    }
                }
            }
        } else if b {
            let last = self.data.len() - 1;
            let byte = self.data[last];
            self.data.set(last, byte | (0x80u8 >> (k as u8)));
            proof {
                assert forall|i: int| 0 <= i < self.data.len() * 8 implies bit_at(self.data@, i) == (
                bit_at(d0, i) || (b && i == len0)) by {
                    if i / 8 == last {
                        lemma_set_bit(byte, k as u8, (i % 8) as u8);
                    } else {
                        assert(self.data@[i / 8] == d0[i / 8]);
                    }
                }
            }
        } else {
            proof {
                assert forall|i: int| 0 <= i < self.data.len() * 8 implies bit_at(self.data@, i) == (
                bit_at(d0, i) || (b && i == len0)) by {
                }
            }
        }
        let ghost d1 = self.data@;
        assert(forall|i: int| 0 <= i < d1.len() * 8 ==> bit_at(d1, i) == (bit_at(d0, i) || (b && i
            == len0)));
        self.len = self.len + 1;
        proof {
            assert forall|i: int| self.len <= i < self.data.len() * 8 implies !#[trigger] bit_at(
                self.data@,
                i,
            ) by {
                assert(bit_at(self.data@, i) == (bit_at(d0, i) || (b && i == len0)));
            }
            assert(self.written() =~= old(self).written().push(b));
        }
    }
    /// Writes the `n` low bits of `x`, most significant first.
    pub fn write_bits(&mut self, x: u64, n: usize)
        requires
            old(self).wf(),
            n <= 64,
            x < pow2(n as nat),
            old(self).len + n <= usize::MAX,
        ensures
            final(self).wf(),
            final(self).len == old(self).len + n,
            final(self).written() == old(self).written() + num_bits(x as nat, n as nat),
        decreases n,
    {
        if n == 0 {
            assert(self.written() =~= old(self).written() + num_bits(x as nat, n as nat));
        } else {
            proof {
                lemma_pow2_unfold(n as nat);
            }
            self.write_bits(x / 2, n - 1);
            self.write_bit(x % 2 == 1);
            assert(self.written() =~= old(self).written() + num_bits(x as nat, n as nat));
        }
    }

    pub fn write_raw_char(&mut self, c: u8)
        requires
            old(self).wf(),
            old(self).len + 8 <= usize::MAX,
        ensures
            final(self).wf(),
            final(self).len == old(self).len + 8,
            final(self).written() == old(self).written() + num_bits(c as nat, 8),
    {
        proof {
            lemma2_to64();
        }
        self.write_bits(c as u64, 8);
    }

    /// Writes a 32-bit value as four little-endian bytes.
    pub fn write_raw_long(&mut self, u: u32)
        requires
            old(self).wf(),
            old(self).len + 32 <= usize::MAX,
        ensures
            final(self).wf(),
            final(self).len == old(self).len + 32,
            final(self).written() == old(self).written() + raw_long_bits(u as nat),
    {
        self.write_raw_char((u % 256) as u8);
        self.write_raw_char(((u / 256) % 256) as u8);
        self.write_raw_char(((u / 65536) % 256) as u8);
        self.write_raw_char((u / 16777216) as u8);
        assert(self.written() =~= old(self).written() + raw_long_bits(u as nat));
    }

    pub fn write_bit_long(&mut self, v: i32)
        requires
            old(self).wf(),
            old(self).len + 34 <= usize::MAX,
        ensures
            final(self).wf(),
            final(self).len == old(self).len + bit_long_bits(v).len(),
            final(self).written() == old(self).written() + bit_long_bits(v),
    {
        if v == 0 {
            self.write_bit(true);
            self.write_bit(false);
        } else if 0 < v && v < 256 {
            self.write_bit(false);
            self.write_bit(true);
            self.write_raw_char(v as u8);
        } else {
            self.write_bit(false);
            self.write_bit(false);
            let u: u32 = if v < 0 {
                (v as i64 + 4294967296) as u32
            } else {
                v as u32
            };
            self.write_raw_long(u);
        }
        assert(self.written() =~= old(self).written() + bit_long_bits(v));
    }

    /// Writes `n` bytes of `x`, most significant byte first.
    fn write_be_bytes(&mut self, x: u64, n: usize)
        requires
            old(self).wf(),
            n <= 8,
            old(self).len + 8 * n <= usize::MAX,
        ensures
            final(self).wf(),
            final(self).len == old(self).len + 8 * n,
            final(self).written() == old(self).written() + be_byte_bits(x as nat, n as nat),
        decreases n,
    {
        if n == 0 {
            assert(self.written() =~= old(self).written() + be_byte_bits(x as nat, n as nat));
        } else {
            self.write_be_bytes(x / 256, n - 1);
            self.write_raw_char((x % 256) as u8);
            assert(self.written() =~= old(self).written() + be_byte_bits(x as nat, n as nat));
        }
    }

    /// Writes a handle reference with reference code `code`.
    pub fn write_handle(&mut self, code: u8, h: u64)
        requires
            old(self).wf(),
            code < 16,
            old(self).len + 72 <= usize::MAX,
        ensures
            final(self).wf(),
            final(self).len == old(self).len + handle_bits(code as nat, h as nat).len(),
            final(self).written() == old(self).written() + handle_bits(code as nat, h as nat),
    {
        proof {
            lemma2_to64();
            lemma2_to64_rest();
            lemma_byte_count_bound(h as nat);
            lemma_byte_count_at_most(h as nat, 8);
        }
        let mut n: usize = 0;
        let mut t: u64 = h;
        while t > 0
            invariant
                n + byte_count(t as nat) == byte_count(h as nat),
                byte_count(h as nat) <= 8,
            decreases t,
        {
            t = t / 256;
            n = n + 1;
        }
        self.write_bits(code as u64, 4);
        self.write_bits(n as u64, 4);
        self.write_be_bytes(h, n);
        proof {
            lemma_num_bits_len(code as nat, 4);
            lemma_num_bits_len(n as nat, 4);
            lemma_be_byte_bits_len(h as nat, n as nat);
        }
        assert(self.written() =~= old(self).written() + handle_bits(code as nat, h as nat));
    }
}

} // verus!
