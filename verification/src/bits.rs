//! Bit-addressable cursors over byte buffers.
//!
//! A buffer of bytes is modelled as a sequence of bits, most-significant
//! bit of each byte first; fixed-width reads interpret runs of bits as
//! big-endian unsigned integers.  `BitCursor` reads, `BitWriter` writes;
//! the two capabilities are separate types, so a wrong-mode use is a
//! compile error rather than a runtime check.

use vstd::prelude::*;

use crate::error::DecodeError;

verus! {

/// Number of addressable bits in a byte buffer.
pub open spec fn bit_len(bytes: Seq<u8>) -> int {
    bytes.len() as int * 8
}

/// The buffer's bit count, as a machine word bound.
pub open spec fn fits_bits(bytes: Seq<u8>) -> bool {
    bytes.len() * 8 <= usize::MAX
}

/// The bit at absolute offset `i`: bit 0 is the most significant bit of
/// byte 0, bit 8 the most significant bit of byte 1, and so on.
pub open spec fn bit_at(bytes: Seq<u8>, i: int) -> bool
    recommends
        0 <= i < bit_len(bytes),
{
    (bytes[i / 8] >> ((7 - (i % 8)) as u8)) & 1 == 1
}

/// Powers of two, for bounding the value of an `n`-bit field.
pub open spec fn pow2(n: nat) -> nat
    decreases n,
{
    if n == 0 {
        1
    } else {
        2 * pow2((n - 1) as nat)
    }
}

/// The unsigned value of the `n` bits starting at `pos`, read
/// big-endian: the bit at `pos` is the most significant.
pub open spec fn bits_value(bytes: Seq<u8>, pos: int, n: nat) -> nat
    decreases n,
{
    if n == 0 {
        0
    } else {
        2 * bits_value(bytes, pos, (n - 1) as nat) + (if bit_at(bytes, pos + n - 1) {
            1nat
        } else {
            0nat
        })
    }
}

/// An `n`-bit field is smaller than two to the `n`.
pub proof fn lemma_bits_value_bound(bytes: Seq<u8>, pos: int, n: nat)
    ensures
        bits_value(bytes, pos, n) < pow2(n),
    decreases n,
{
    if n > 0 {
        lemma_bits_value_bound(bytes, pos, (n - 1) as nat);
    }
}

/// Powers of two up to eight bits, spelled out for byte-sized reads.
pub proof fn lemma_pow2_small(n: nat)
    requires
        n <= 8,
    ensures
        pow2(n) <= 256,
        n <= 7 ==> pow2(n) <= 128,
{
    assert(pow2(0) == 1);
    assert(pow2(1) == 2);
    assert(pow2(2) == 4);
    assert(pow2(3) == 8);
    assert(pow2(4) == 16);
    assert(pow2(5) == 32);
    assert(pow2(6) == 64);
    assert(pow2(7) == 128);
    assert(pow2(8) == 256);
}

/// The first nine powers of two, spelled out for byte-sized fields.
pub proof fn lemma_pow2_values()
    ensures
        pow2(0) == 1,
        pow2(1) == 2,
        pow2(2) == 4,
        pow2(3) == 8,
        pow2(4) == 16,
        pow2(5) == 32,
        pow2(6) == 64,
        pow2(7) == 128,
        pow2(8) == 256,
{
    assert(pow2(1) == 2 * pow2(0));
    assert(pow2(2) == 2 * pow2(1));
    assert(pow2(3) == 2 * pow2(2));
    assert(pow2(4) == 2 * pow2(3));
    assert(pow2(5) == 2 * pow2(4));
    assert(pow2(6) == 2 * pow2(5));
    assert(pow2(7) == 2 * pow2(6));
    assert(pow2(8) == 2 * pow2(7));
}

/// A run of bits has the same value in two buffers that agree on it.
pub proof fn lemma_bits_value_congruent(s1: Seq<u8>, s2: Seq<u8>, pos: int, n: nat)
    requires
        forall|j: int| 0 <= j < n ==> #[trigger] bit_at(s1, pos + j) == bit_at(s2, pos + j),
    ensures
        bits_value(s1, pos, n) == bits_value(s2, pos, n),
    decreases n,
{
    if n > 0 {
        lemma_bits_value_congruent(s1, s2, pos, (n - 1) as nat);
        assert(bit_at(s1, pos + (n - 1)) == bit_at(s2, pos + (n - 1)));
    }
}

/// Bits are read from whole bytes, so two buffers that agree on a byte
/// prefix agree on every bit of that prefix.
pub proof fn lemma_bit_at_prefix(s1: Seq<u8>, s2: Seq<u8>, nbytes: int, i: int)
    requires
        0 <= i < nbytes * 8,
        nbytes <= s1.len(),
        nbytes <= s2.len(),
        forall|b: int| 0 <= b < nbytes ==> s1[b] == s2[b],
    ensures
        bit_at(s1, i) == bit_at(s2, i),
{
    assert(0 <= i / 8 < nbytes) by (nonlinear_arith)
        requires
            0 <= i < nbytes * 8,
    ;
    assert(s1[i / 8] == s2[i / 8]);
}

/// The number of zero bits standing at `pos` before the first set bit,
/// or the distance to the end of the buffer if no bit is set.
pub open spec fn leading_zero_bits(bytes: Seq<u8>, pos: int) -> int
    decreases bit_len(bytes) - pos,
{
    if pos < 0 || pos >= bit_len(bytes) {
        0
    } else if bit_at(bytes, pos) {
        0
    } else {
        1 + leading_zero_bits(bytes, pos + 1)
    }
}

/// How many LEB128 groups a decode starting at `pos` consumes, within
/// the given group budget: groups are read until one lacks the
/// continuation bit, or the budget runs out.
pub open spec fn leb_count(bytes: Seq<u8>, pos: int, budget: nat) -> nat
    decreases budget,
{
    if budget == 0 {
        0
    } else if bits_value(bytes, pos, 8) < 128 {
        1
    } else {
        1 + leb_count(bytes, pos + 8, (budget - 1) as nat)
    }
}

/// Whether a LEB128 decode at `pos` reaches a group without the
/// continuation bit before its budget runs out.
pub open spec fn leb_terminated(bytes: Seq<u8>, pos: int, budget: nat) -> bool {
    let k = leb_count(bytes, pos, budget);
    k >= 1 && bits_value(bytes, pos + 8 * (k - 1), 8) < 128
}

/// The value a LEB128 decode at `pos` accumulates: seven value bits per
/// group, least-significant group first.
pub open spec fn leb_value(bytes: Seq<u8>, pos: int, budget: nat) -> nat
    decreases budget,
{
    if budget == 0 {
        0
    } else {
        let g = bits_value(bytes, pos, 8);
        if g < 128 {
            g
        } else {
            g % 128 + 128 * leb_value(bytes, pos + 8, (budget - 1) as nat)
        }
    }
}

/// Upper bound of a LEB128 value by group budget: 128 to the budget.
pub open spec fn leb_bound(budget: nat) -> nat
    decreases budget,
{
    if budget == 0 {
        1
    } else {
        128 * leb_bound((budget - 1) as nat)
    }
}

/// A LEB128 value of `budget` groups carries seven bits per group.
pub proof fn lemma_leb_value_bound(bytes: Seq<u8>, pos: int, budget: nat)
    ensures
        leb_value(bytes, pos, budget) < leb_bound(budget),
        leb_bound(budget) >= 1,
    decreases budget,
{
    if budget > 0 {
        lemma_leb_value_bound(bytes, pos + 8, (budget - 1) as nat);
        lemma_bits_value_bound(bytes, pos, 8);
        lemma_pow2_small(8);
    }
}

/// The LEB128 bound grows with the budget.
proof fn lemma_leb_bound_increases(a: nat, b: nat)
    requires
        a <= b,
    ensures
        leb_bound(a) <= leb_bound(b),
    decreases b,
{
    if a < b {
        lemma_leb_bound_increases(a, (b - 1) as nat);
    }
}

/// The first eight LEB128 bounds, spelled out: the eighth shows that
/// every in-budget value fits 56 bits.
proof fn lemma_leb_bound_values()
    ensures
        leb_bound(7) == 0x2_0000_0000_0000,
{
    assert(leb_bound(0) == 1);
    assert(leb_bound(1) == 128);
    assert(leb_bound(2) == 0x4000);
    assert(leb_bound(3) == 0x20_0000);
    assert(leb_bound(4) == 0x1000_0000);
    assert(leb_bound(5) == 0x8_0000_0000);
    assert(leb_bound(6) == 0x400_0000_0000);
    assert(leb_bound(7) == 0x2_0000_0000_0000);
}

/// Read-only bit cursor over a borrowed byte buffer.
///
/// The cursor owns no data: it borrows one buffer for the duration of
/// one parse call and tracks an absolute bit offset into it.  Any read
/// past the end of the buffer reports `DecodeError::MalformedBitstream`
/// instead of panicking: truncated input is an expected condition.
pub struct BitCursor<'a> {
    data: &'a [u8],
    pos: usize,
}

impl<'a> BitCursor<'a> {
    /// The borrowed buffer, as a sequence of bytes.
    pub closed spec fn buf(self) -> Seq<u8> {
        self.data@
    }

    /// The absolute bit offset the cursor stands at.
    pub closed spec fn cursor(self) -> int {
        self.pos as int
    }

    /// The cursor never stands past the end of the buffer, and the
    /// buffer's bit count fits the machine word.
    pub open spec fn wf(self) -> bool {
        &&& self.buf().len() * 8 <= usize::MAX
        &&& 0 <= self.cursor() <= bit_len(self.buf())
    }

    /// A new cursor at bit offset 0.
    pub fn new(data: &'a [u8]) -> (r: BitCursor<'a>)
        requires
            data@.len() * 8 <= usize::MAX,
        ensures
            r.wf(),
            r.buf() == data@,
            r.cursor() == 0,
    {
        BitCursor { data, pos: 0 }
    }

    /// The absolute bit offset, primarily so a caller can convert back
    /// to a byte offset after a byte-aligned header parse.
    pub fn cursor_position(&self) -> (r: usize)
        ensures
            r == self.cursor(),
    {
        self.pos
    }

    /// Reads a single bit and advances past it.
    fn read_bit(&mut self) -> (r: Result<bool, DecodeError>)
        requires
            old(self).wf(),
        ensures
            final(self).wf(),
            final(self).buf() == old(self).buf(),
            if old(self).cursor() < bit_len(old(self).buf()) {
                &&& r == Ok::<bool, DecodeError>(bit_at(old(self).buf(), old(self).cursor()))
                &&& final(self).cursor() == old(self).cursor() + 1
            } else {
                &&& r == Err::<bool, DecodeError>(DecodeError::MalformedBitstream)
                &&& final(self).cursor() == old(self).cursor()
            },
    {
        let bitlen: usize = self.data.len() * 8;
        if self.pos < bitlen {
            let idx: usize = self.pos / 8;
            let sh: usize = 7 - self.pos % 8;
            let byte: u8 = self.data[idx];
            let b: bool = (byte >> (sh as u8)) & 1 == 1;
            self.pos = self.pos + 1;
            Ok(b)
        } else {
            Err(DecodeError::MalformedBitstream)
        }
    }

    /// Reads the next `n` bits as a big-endian unsigned integer.
    ///
    /// Callers compose wider reads from several calls; one call never
    /// crosses the eight-bit width of the result type.
    pub fn load_u8(&mut self, n: usize) -> (r: Result<u8, DecodeError>)
        requires
            old(self).wf(),
            n <= 8,
        ensures
            final(self).wf(),
            final(self).buf() == old(self).buf(),
            if old(self).cursor() + n <= bit_len(old(self).buf()) {
                &&& r == Ok::<u8, DecodeError>(
                    bits_value(old(self).buf(), old(self).cursor(), n as nat) as u8,
                )
                &&& final(self).cursor() == old(self).cursor() + n
            } else {
                &&& r == Err::<u8, DecodeError>(DecodeError::MalformedBitstream)
                &&& final(self).cursor() == old(self).cursor()
            },
        decreases n,
    {
        let bitlen: usize = self.data.len() * 8;
        if n > bitlen - self.pos {
            return Err(DecodeError::MalformedBitstream);
        }
        if n == 0 {
            Ok(0)
        } else {
            let hi = match self.load_u8(n - 1) {
                Ok(v) => v,
                Err(e) => {
                    return Err(e);
                },
            };
            let b = match self.read_bit() {
                Ok(v) => v,
                Err(e) => {
                    return Err(e);
                },
            };
            proof {
                lemma_bits_value_bound(old(self).buf(), old(self).cursor(), (n - 1) as nat);
                lemma_pow2_small((n - 1) as nat);
            }
            Ok(2 * hi + (if b {
                1u8
            } else {
                0u8
            }))
        }
    }

    /// Reads one bit as a flag.
    pub fn next_flag(&mut self) -> (r: Result<bool, DecodeError>)
        requires
            old(self).wf(),
        ensures
            final(self).wf(),
            final(self).buf() == old(self).buf(),
            if old(self).cursor() < bit_len(old(self).buf()) {
                &&& r == Ok::<bool, DecodeError>(bit_at(old(self).buf(), old(self).cursor()))
                &&& final(self).cursor() == old(self).cursor() + 1
            } else {
                &&& r == Err::<bool, DecodeError>(DecodeError::MalformedBitstream)
                &&& final(self).cursor() == old(self).cursor()
            },
    {
        self.read_bit()
    }

    /// Advances `n` bits without materializing a value.
    pub fn skip(&mut self, n: usize) -> (r: Result<(), DecodeError>)
        requires
            old(self).wf(),
        ensures
            final(self).wf(),
            final(self).buf() == old(self).buf(),
            if old(self).cursor() + n <= bit_len(old(self).buf()) {
                &&& r == Ok::<(), DecodeError>(())
                &&& final(self).cursor() == old(self).cursor() + n
            } else {
                &&& r == Err::<(), DecodeError>(DecodeError::MalformedBitstream)
                &&& final(self).cursor() == old(self).cursor()
            },
    {
        let bitlen: usize = self.data.len() * 8;
        if n <= bitlen - self.pos {
            self.pos = self.pos + n;
            Ok(())
        } else {
            Err(DecodeError::MalformedBitstream)
        }
    }

    /// Jumps to an absolute bit offset, to re-read after a lookahead.
    pub fn seek(&mut self, position: usize) -> (r: Result<(), DecodeError>)
        requires
            old(self).wf(),
        ensures
            final(self).wf(),
            final(self).buf() == old(self).buf(),
            if position <= bit_len(old(self).buf()) {
                &&& r == Ok::<(), DecodeError>(())
                &&& final(self).cursor() == position
            } else {
                &&& r == Err::<(), DecodeError>(DecodeError::MalformedBitstream)
                &&& final(self).cursor() == old(self).cursor()
            },
    {
        let bitlen: usize = self.data.len() * 8;
        if position <= bitlen {
            self.pos = position;
            Ok(())
        } else {
            Err(DecodeError::MalformedBitstream)
        }
    }

    /// Skips one whole unsigned variable-length code: a run of `k` zero
    /// bits, the terminating one bit, and `k` further value bits, so
    /// `2 * k + 1` bits in all.
    pub fn uvlc_skip(&mut self) -> (r: Result<(), DecodeError>)
        requires
            old(self).wf(),
        ensures
            final(self).wf(),
            final(self).buf() == old(self).buf(),
            ({
                let k = leading_zero_bits(old(self).buf(), old(self).cursor());
                if old(self).cursor() + 2 * k + 1 <= bit_len(old(self).buf()) {
                    &&& r == Ok::<(), DecodeError>(())
                    &&& final(self).cursor() == old(self).cursor() + 2 * k + 1
                } else {
                    &&& r == Err::<(), DecodeError>(DecodeError::MalformedBitstream)
                }
            }),
    {
        let ghost buf = self.buf();
        let ghost p0 = self.cursor();
        let mut k: usize = 0;
        let mut found = false;
        while !found
            invariant
                self.wf(),
                self.buf() == buf,
                buf == old(self).buf(),
                p0 == old(self).cursor(),
                0 <= p0,
                p0 + k <= bit_len(buf),
                leading_zero_bits(buf, p0) == k + leading_zero_bits(buf, p0 + k),
                if found {
                    &&& leading_zero_bits(buf, p0) == k
                    &&& self.cursor() == p0 + k + 1
                } else {
                    self.cursor() == p0 + k
                },
            decreases bit_len(buf) - self.cursor(),
        {
            match self.read_bit() {
                Ok(true) => {
                    found = true;
                },
                Ok(false) => {
                    k = k + 1;
                },
                Err(e) => {
                    // All bits to the end of the buffer were zero, so
                    // the code cannot fit.
                    return Err(e);
                },
            }
        }
        self.skip(k)
    }

    /// Decodes one LEB128 group and recurses while the continuation bit
    /// stays set, within the given group budget.
    fn leb128_groups(&mut self, budget: u8) -> (r: Result<u64, DecodeError>)
        requires
            old(self).wf(),
            budget <= 8,
        ensures
            final(self).wf(),
            final(self).buf() == old(self).buf(),
            ({
                let k = leb_count(old(self).buf(), old(self).cursor(), budget as nat);
                if old(self).cursor() + 8 * k <= bit_len(old(self).buf()) && leb_terminated(
                    old(self).buf(),
                    old(self).cursor(),
                    budget as nat,
                ) {
                    &&& r == Ok::<u64, DecodeError>(
                        leb_value(old(self).buf(), old(self).cursor(), budget as nat) as u64,
                    )
                    &&& final(self).cursor() == old(self).cursor() + 8 * k
                } else {
                    &&& r == Err::<u64, DecodeError>(DecodeError::MalformedBitstream)
                }
            }),
        decreases budget,
    {
        if budget == 0 {
            // A ninth continuation bit: the stream is malformed.
            return Err(DecodeError::MalformedBitstream);
        }
        let g = match self.load_u8(8) {
            Ok(v) => v,
            Err(_) => {
                return Err(DecodeError::MalformedBitstream);
            },
        };
        let ghost buf = old(self).buf();
        let ghost p0 = old(self).cursor();
        let ghost b = budget as nat;
        proof {
            lemma_bits_value_bound(buf, p0, 8);
            lemma_pow2_small(8);
            assert(g == bits_value(buf, p0, 8));
        }
        if g < 128 {
            Ok(g as u64)
        } else {
            let rest = match self.leb128_groups(budget - 1) {
                Ok(v) => v,
                Err(e) => {
                    return Err(e);
                },
            };
            proof {
                lemma_leb_value_bound(buf, p0 + 8, (b - 1) as nat);
                lemma_leb_bound_increases((b - 1) as nat, 7);
                lemma_leb_bound_values();
            }
            Ok((g - 128) as u64 + 128 * rest)
        }
    }

    /// Decodes a LEB128 unsigned integer: up to eight groups of seven
    /// value bits each, least-significant group first, each group's top
    /// bit flagging continuation.  A ninth continuation bit is a decode
    /// error.
    pub fn leb128(&mut self) -> (r: Result<u64, DecodeError>)
        requires
            old(self).wf(),
        ensures
            final(self).wf(),
            final(self).buf() == old(self).buf(),
            ({
                let k = leb_count(old(self).buf(), old(self).cursor(), 8);
                if old(self).cursor() + 8 * k <= bit_len(old(self).buf()) && leb_terminated(
                    old(self).buf(),
                    old(self).cursor(),
                    8,
                ) {
                    &&& r == Ok::<u64, DecodeError>(
                        leb_value(old(self).buf(), old(self).cursor(), 8) as u64,
                    )
                    &&& final(self).cursor() == old(self).cursor() + 8 * k
                } else {
                    &&& r == Err::<u64, DecodeError>(DecodeError::MalformedBitstream)
                }
            }),
    {
        self.leb128_groups(8)
    }
}

/// Write-capable bit cursor over an owned byte buffer, for in-place
/// bit assembly of fixed-width records.
pub struct BitWriter {
    data: Vec<u8>,
    pos: usize,
}

impl BitWriter {
    /// The buffer being assembled, as a sequence of bytes.
    pub closed spec fn buf(self) -> Seq<u8> {
        self.data@
    }

    /// The absolute bit offset the cursor stands at.
    pub closed spec fn cursor(self) -> int {
        self.pos as int
    }

    /// The cursor never stands past the end of the buffer, and the
    /// buffer's bit count fits the machine word.
    pub open spec fn wf(self) -> bool {
        &&& self.buf().len() * 8 <= usize::MAX
        &&& 0 <= self.cursor() <= bit_len(self.buf())
    }

    /// A fresh all-zero buffer of `nbytes` bytes, cursor at bit 0.
    pub fn new(nbytes: usize) -> (r: BitWriter)
        requires
            nbytes * 8 <= usize::MAX,
        ensures
            r.wf(),
            r.cursor() == 0,
            r.buf().len() == nbytes,
            forall|i: int| 0 <= i < bit_len(r.buf()) ==> !bit_at(r.buf(), i),
    {
        let mut data: Vec<u8> = Vec::new();
        while data.len() < nbytes
            invariant
                data@.len() <= nbytes,
                forall|b: int| 0 <= b < data@.len() ==> data@[b] == 0u8,
            decreases nbytes - data.len(),
        {
            data.push(0u8);
        }
        let r = BitWriter { data, pos: 0 };
        proof {
            assert(forall|s: u8| (0u8 >> s) & 1 == 0) by (bit_vector);
            assert forall|i: int| 0 <= i < bit_len(r.buf()) implies !bit_at(r.buf(), i) by {
                assert(0 <= i / 8 < r.buf().len());
                assert(r.buf()[i / 8] == 0u8);
            }
        }
        r
    }

    /// Writes one bit at the cursor and advances past it.
    pub fn store_flag(&mut self, b: bool)
        requires
            old(self).wf(),
            old(self).cursor() < bit_len(old(self).buf()),
        ensures
            final(self).wf(),
            final(self).buf().len() == old(self).buf().len(),
            final(self).cursor() == old(self).cursor() + 1,
            bit_at(final(self).buf(), old(self).cursor()) == b,
            forall|j: int|
                0 <= j < bit_len(old(self).buf()) && j != old(self).cursor()
                    ==> #[trigger] bit_at(final(self).buf(), j) == bit_at(old(self).buf(), j),
    {
        let idx: usize = self.pos / 8;
        let sh: u8 = (7 - self.pos % 8) as u8;
        let ob: u8 = self.data[idx];
        let nb: u8 = if b {
            ob | (1u8 << sh)
        } else {
            ob & !(1u8 << sh)
        };
        self.data.set(idx, nb);
        self.pos = self.pos + 1;
        proof {
            let pos0 = old(self).cursor();
            assert(((ob | (1u8 << sh)) >> sh) & 1 == 1) by (bit_vector)
                requires
                    sh < 8,
            ;
            assert(((ob & !(1u8 << sh)) >> sh) & 1 == 0) by (bit_vector)
                requires
                    sh < 8,
            ;
            assert(forall|s2: u8|
                s2 < 8 && s2 != sh ==> ((ob | (1u8 << sh)) >> s2) & 1 == (ob >> s2) & 1)
                by (bit_vector)
                requires
                    sh < 8,
            ;
            assert(forall|s2: u8|
                s2 < 8 && s2 != sh ==> ((ob & !(1u8 << sh)) >> s2) & 1 == (ob >> s2) & 1)
                by (bit_vector)
                requires
                    sh < 8,
            ;
            assert(bit_at(self.buf(), pos0) == b);
            assert forall|j: int| 0 <= j < bit_len(old(self).buf()) && j != pos0 implies bit_at(
                self.buf(),
                j,
            ) == bit_at(old(self).buf(), j) by {
                if j / 8 == idx {
                    let s2 = (7 - (j % 8)) as u8;
                    assert(j % 8 != pos0 % 8);
                    assert(s2 < 8 && s2 != sh);
                    assert((nb >> s2) & 1 == (ob >> s2) & 1);
                } else {
                    assert(self.buf()[j / 8] == old(self).buf()[j / 8]);
                }
            }
        }
    }

    /// Writes the low `n` bits of `v` at the cursor, most significant
    /// first, and advances past them.
    pub fn store_bits(&mut self, n: usize, v: u8)
        requires
            old(self).wf(),
            n <= 8,
            old(self).cursor() + n <= bit_len(old(self).buf()),
            v < pow2(n as nat),
        ensures
            final(self).wf(),
            final(self).buf().len() == old(self).buf().len(),
            final(self).cursor() == old(self).cursor() + n,
            bits_value(final(self).buf(), old(self).cursor(), n as nat) == v,
            forall|j: int|
                0 <= j < bit_len(old(self).buf()) && !(old(self).cursor() <= j < old(self).cursor()
                    + n) ==> #[trigger] bit_at(final(self).buf(), j) == bit_at(old(self).buf(), j),
        decreases n,
    {
        if n == 0 {
            return ;
        }
        let hi: u8 = v / 2;
        let lo: bool = v % 2 == 1;
        proof {
            assert(pow2(n as nat) == 2 * pow2((n - 1) as nat));
        }
        self.store_bits(n - 1, hi);
        let ghost mid = self.buf();
        let ghost c0 = old(self).cursor();
        self.store_flag(lo);
        proof {
            assert forall|j: int| 0 <= j < n - 1 implies #[trigger] bit_at(self.buf(), c0 + j)
                == bit_at(mid, c0 + j) by {}
            lemma_bits_value_congruent(self.buf(), mid, c0, (n - 1) as nat);
            assert(bits_value(self.buf(), c0, (n - 1) as nat) == hi);
            assert(bit_at(self.buf(), c0 + (n - 1)) == lo);
            assert(bits_value(self.buf(), c0, n as nat) == 2 * hi + (if lo {
                1nat
            } else {
                0nat
            }));
        }
    }

    /// Hands the assembled bytes out, consuming the writer.
    pub fn into_vec(self) -> (r: Vec<u8>)
        ensures
            r@ == self.buf(),
    {
        self.data
    }

    /// The absolute bit offset, for callers assembling several fields.
    pub fn cursor_position(&self) -> (r: usize)
        ensures
            r == self.cursor(),
    {
        self.pos
    }
}

} // verus!
