//! Little-endian byte-level helpers: the variable-width unsigned integer and
//! the cursor used to take records apart.
use vstd::prelude::*;

use vstd::arithmetic::div_mod::{lemma_mod_breakdown, lemma_small_mod};
use vstd::arithmetic::power2::{lemma2_to64, lemma2_to64_rest, lemma_pow2_adds, lemma_pow2_pos, pow2};
use vstd::slice::{slice_subrange, slice_to_vec};

use crate::error::DataLogError;
use crate::trusted::bytes_to_string;
use vstd::utf8::{encode_utf8, valid_utf8};

verus! {

/// The little-endian bytes of `v`, truncated or zero-extended to `n` bytes.
pub open spec fn le_bytes(v: nat, n: nat) -> Seq<u8>
    decreases n,
{
    if n == 0 {
        Seq::empty()
    } else {
        seq![(v % 256) as u8] + le_bytes(v / 256, (n - 1) as nat)
    }
}

/// The value of a little-endian byte sequence.
pub open spec fn le_val(s: Seq<u8>) -> nat
    decreases s.len(),
{
    if s.len() == 0 {
        0
    } else {
        (s[0] + 256 * le_val(s.drop_first())) as nat
    }
}

/// The minimal byte count (1..=8) sufficient to represent `v` little-endian.
pub open spec fn byte_width(v: u64) -> nat {
    if v <= 0xFF {
        1
    } else if v <= 0xFFFF {
        2
    } else if v <= 0xFF_FFFF {
        3
    } else if v <= 0xFFFF_FFFF {
        4
    } else if v <= 0xFF_FFFF_FFFF {
        5
    } else if v <= 0xFFFF_FFFF_FFFF {
        6
    } else if v <= 0xFF_FFFF_FFFF_FFFF {
        7
    } else {
        8
    }
}

pub proof fn lemma_le_bytes_len(v: nat, n: nat)
    ensures
        le_bytes(v, n).len() == n,
    decreases n,
{
    if n > 0 {
        lemma_le_bytes_len(v / 256, (n - 1) as nat);
    }
}

/// Reading back `n` little-endian bytes of `v` yields `v` modulo 2^(8n).
pub proof fn lemma_le_val_le_bytes(v: nat, n: nat)
    ensures
        le_val(le_bytes(v, n)) == v % pow2(8 * n),
    decreases n,
{
    if n == 0 {
        assert(pow2(0) == 1) by {
            lemma2_to64();
        }
    } else {
        let s = le_bytes(v, n);
        let tail = le_bytes(v / 256, (n - 1) as nat);
        assert(s.drop_first() =~= tail);
        lemma_le_val_le_bytes(v / 256, (n - 1) as nat);
        assert(pow2(8 * n) == 256 * pow2(8 * (n - 1) as nat)) by {
            lemma_pow2_adds(8, 8 * (n - 1) as nat);
            lemma2_to64();
        }
        lemma_pow2_pos(8 * (n - 1) as nat);
        lemma_mod_breakdown(v as int, 256, pow2(8 * (n - 1) as nat) as int);
    }
}

/// The value of `n` bytes is below 2^(8n).
pub proof fn lemma_le_val_bound(s: Seq<u8>)
    ensures
        le_val(s) < pow2(8 * s.len()),
    decreases s.len(),
{
    if s.len() == 0 {
        assert(pow2(0) == 1) by {
            lemma2_to64();
        }
    } else {
        let n = s.len();
        lemma_le_val_bound(s.drop_first());
        assert(pow2(8 * n) == 256 * pow2(8 * (n - 1) as nat)) by {
            lemma_pow2_adds(8, 8 * (n - 1) as nat);
            lemma2_to64();
        }
        assert(s[0] + 256 * le_val(s.drop_first()) < 256 * pow2(8 * (n - 1) as nat)) by {
            assert(le_val(s.drop_first()) + 1 <= pow2(8 * (n - 1) as nat));
            assert(256 * (le_val(s.drop_first()) + 1) <= 256 * pow2(8 * (n - 1) as nat))
                by (nonlinear_arith)
                requires
                    le_val(s.drop_first()) + 1 <= pow2(8 * (n - 1) as nat),
            ;
        }
    }
}

/// `byte_width` is within 1..=8 and wide enough for its argument.
pub proof fn lemma_byte_width(v: u64)
    ensures
        1 <= byte_width(v) <= 8,
        (v as nat) < pow2(8 * byte_width(v)),
{
    lemma2_to64();
    lemma2_to64_rest();
}

/// The variable-width integer round trip: encoding a value at its minimal
/// width and reading the bytes back gives the value itself, at that width.
pub proof fn lemma_le_bytes_roundtrip(v: u64)
    ensures
        le_bytes(v as nat, byte_width(v)).len() == byte_width(v),
        le_val(le_bytes(v as nat, byte_width(v))) == v,
{
    lemma_byte_width(v);
    lemma_le_bytes_len(v as nat, byte_width(v));
    lemma_le_val_le_bytes(v as nat, byte_width(v));
    lemma_small_mod(v as nat, pow2(8 * byte_width(v)));
}

// ---------------------------------------------------------------------------
// Two's-complement bit patterns
// ---------------------------------------------------------------------------
/// The 64-bit two's-complement bit pattern of an `i64`.
pub open spec fn i64_bits(x: i64) -> u64 {
    if x >= 0 {
        x as u64
    } else {
        (x + 0x1_0000_0000_0000_0000) as u64
    }
}

/// The `i64` whose two's-complement bit pattern is `b`.
pub open spec fn bits_to_i64(b: u64) -> i64 {
    if b < 0x8000_0000_0000_0000 {
        b as i64
    } else {
        (b - 0x1_0000_0000_0000_0000) as i64
    }
}

/// The 32-bit two's-complement bit pattern of an `i32`.
pub open spec fn i32_bits(x: i32) -> u32 {
    if x >= 0 {
        x as u32
    } else {
        (x + 0x1_0000_0000) as u32
    }
}

/// The `i32` whose two's-complement bit pattern is `b`.
pub open spec fn bits_to_i32(b: u32) -> i32 {
    if b < 0x8000_0000 {
        b as i32
    } else {
        (b - 0x1_0000_0000) as i32
    }
}

/// Converts an `i64` to its two's-complement bit pattern.
pub fn i64_to_bits_exec(x: i64) -> (r: u64)
    ensures
        r == i64_bits(x),
{
    if x >= 0 {
        x as u64
    } else {
        let y: u64 = ((x + 0x4000_0000_0000_0000i64) + 0x4000_0000_0000_0000i64) as u64;
        y + 0x8000_0000_0000_0000u64
    }
}

/// Converts a two's-complement bit pattern to an `i64`.
pub fn bits_to_i64_exec(b: u64) -> (r: i64)
    ensures
        r == bits_to_i64(b),
{
    if b < 0x8000_0000_0000_0000u64 {
        b as i64
    } else {
        let y: i64 = (b - 0x8000_0000_0000_0000u64) as i64;
        (y - 0x4000_0000_0000_0000i64) - 0x4000_0000_0000_0000i64
    }
}

/// Converts a two's-complement bit pattern to an `i32`.
pub fn bits_to_i32_exec(b: u32) -> (r: i32)
    ensures
        r == bits_to_i32(b),
{
    if b < 0x8000_0000u32 {
        b as i32
    } else {
        let y: i32 = (b - 0x8000_0000u32) as i32;
        (y - 0x4000_0000i32) - 0x4000_0000i32
    }
}

/// An unsigned value paired with the byte count used to carry it.
///
/// Construction through `new` or `shrink` always canonicalizes `size` to the
/// minimal width, so a `UInt` built from a primitive satisfies
/// `size == byte_width(value)`.
#[derive(Debug, Clone, Copy, PartialEq, Eq, Structural)]
pub struct UInt {
    /// The byte count the value is carried in.
    pub size: u8,
    /// The carried value.
    pub value: u64,
}

impl UInt {
    /// The carried value.
    pub open spec fn spec_value(&self) -> u64 {
        self.value
    }

    /// The carried width in bytes.
    pub open spec fn spec_size(&self) -> nat {
        self.size as nat
    }

    /// A width that can actually hold the value.
    pub open spec fn wf(&self) -> bool {
        self.size <= 8 && (self.value as nat) < pow2(8 * self.size as nat)
    }

    /// Builds a canonical `UInt`; the requested size is only a hint and the
    /// stored size is always the minimal width of `value`.
    pub fn new(size: u8, value: u64) -> (r: Self)
        ensures
            r.spec_value() == value,
            r.spec_size() == byte_width(value),
            r.wf(),
    {
        let r = Self { size, value };
        r.shrink()
    }

    /// Returns the same value with the minimal byte width.
    pub fn shrink(&self) -> (r: Self)
        ensures
            r.spec_value() == self.spec_value(),
            r.spec_size() == byte_width(self.spec_value()),
            r.wf(),
    {
        proof {
            lemma_byte_width(self.value);
        }
        let universal_int = self.value;
        if universal_int <= 0xFF {
            Self { size: 1, value: universal_int }
        } else if universal_int <= 0xFFFF {
            Self { size: 2, value: universal_int }
        } else if universal_int <= 0x00FF_FFFF {
            Self { size: 3, value: universal_int }
        } else if universal_int <= 0xFFFF_FFFF {
            Self { size: 4, value: universal_int }
        } else if universal_int <= 0x00FF_FFFF_FFFF {
            Self { size: 5, value: universal_int }
        } else if universal_int <= 0xFFFF_FFFF_FFFF {
            Self { size: 6, value: universal_int }
        } else if universal_int <= 0x00FF_FFFF_FFFF_FFFF {
            Self { size: 7, value: universal_int }
        } else {
            Self { size: 8, value: universal_int }
        }
    }

    /// The byte count this value is carried in.
    pub fn get_byte_count(&self) -> (r: u8)
        ensures
            r == self.spec_size(),
    {
        self.size
    }

    /// The carried value.
    pub fn get_value(&self) -> (r: u64)
        ensures
            r == self.spec_value(),
    {
        self.value
    }

    /// The little-endian bytes of the value, truncated to `size` bytes.
    pub fn as_binary(&self) -> (r: Vec<u8>)
        ensures
            r@ == le_bytes(self.spec_value() as nat, self.spec_size()),
            r@.len() == self.spec_size(),
    {
        let mut out: Vec<u8> = Vec::new();
        let mut cur: u64 = self.value;
        let mut i: u8 = 0;
        proof {
            lemma_le_bytes_len(self.value as nat, self.size as nat);
        }
        while i < self.size
            invariant
                i <= self.size,
                out@.len() == i,
                le_bytes(self.value as nat, self.size as nat) == out@ + le_bytes(
                    cur as nat,
                    (self.size - i) as nat,
                ),
            decreases self.size - i,
        {
            let ghost rest = le_bytes(cur as nat, (self.size - i) as nat);
            out.push((cur & 0xFF) as u8);
            assert(cur & 0xFF == cur % 256) by (bit_vector);
            assert(cur >> 8 == cur / 256) by (bit_vector);
            cur = cur >> 8;
            i = i + 1;
            proof {
                assert(rest == seq![(rest[0]) as u8] + le_bytes(
                    cur as nat,
                    (self.size - i) as nat,
                ));
                assert(out@ + le_bytes(cur as nat, (self.size - i) as nat) =~= (out@.drop_last()
                    + rest));
            }
        }
        out
    }

    /// Reads `le_bytes.len()` little-endian bytes; the resulting size is the
    /// slice length.  Fails when more than 8 bytes are given.
    pub fn from_binary(le_bytes_in: &[u8]) -> (r: Option<Self>)
        ensures
            match r {
                Some(u) => le_bytes_in@.len() <= 8 && u.spec_size() == le_bytes_in@.len()
                    && u.spec_value() as nat == le_val(le_bytes_in@) && u.wf(),
                None => le_bytes_in@.len() > 8,
            },
    {
        let n = le_bytes_in.len();
        if n > 8 {
            return None;
        }
        let mut acc: u64 = 0;
        let mut i: usize = n;
        proof {
            assert(le_bytes_in@.skip(n as int) =~= Seq::<u8>::empty());
        }
        while i > 0
            invariant
                i <= n <= 8,
                n == le_bytes_in@.len(),
                acc as nat == le_val(le_bytes_in@.skip(i as int)),
            decreases i,
        {
            proof {
                lemma_le_val_bound(le_bytes_in@.skip(i as int));
                lemma2_to64();
                lemma2_to64_rest();
                assert(pow2(8 * (n - i) as nat) <= pow2(56)) by {
                    if 8 * (n - i) < 56 {
                        vstd::arithmetic::power2::lemma_pow2_strictly_increases(
                            8 * (n - i) as nat,
                            56,
                        );
                    }
                }
            }
            let b = le_bytes_in[i - 1];
            acc = acc * 256 + (b as u64);
            i = i - 1;
            proof {
                let s = le_bytes_in@.skip(i as int);
                assert(s.drop_first() =~= le_bytes_in@.skip(i as int + 1));
            }
        }
        proof {
            assert(le_bytes_in@.skip(0) =~= le_bytes_in@);
            lemma_le_val_bound(le_bytes_in@);
            if 8 * n < 64 {
                vstd::arithmetic::power2::lemma_pow2_strictly_increases(8 * n as nat, 64);
            }
            lemma2_to64();
            lemma2_to64_rest();
        }
        Some(Self { size: n as u8, value: acc })
    }
}

/// A cursor over a borrowed byte slice.  Every consumer either returns the
/// requested value and advances, or fails with an out-of-bounds error and
/// leaves the cursor unchanged.
#[derive(Debug)]
pub struct RecordByteReader<'buf> {
    /// The underlying buffer.
    pub bytes: &'buf [u8],
    /// How many bytes have been consumed.
    pub pos: usize,
}

impl<'buf> RecordByteReader<'buf> {
    /// The bytes not yet consumed.
    pub open spec fn remaining(&self) -> Seq<u8> {
        self.bytes@.skip(self.pos as int)
    }

    /// The cursor stays within its buffer.
    pub open spec fn wf(&self) -> bool {
        self.pos <= self.bytes@.len()
    }

    /// Starts a cursor at the beginning of `bytes`.
    pub fn new(bytes: &'buf [u8]) -> (r: Self)
        ensures
            r.wf(),
            r.remaining() == bytes@,
    {
        proof {
            assert(bytes@.skip(0) =~= bytes@);
        }
        Self { bytes, pos: 0 }
    }

    /// Takes one byte.
    pub fn byte(&mut self) -> (r: Result<u8, DataLogError>)
        requires
            old(self).wf(),
        ensures
            final(self).wf(),
            match r {
                Ok(b) => old(self).remaining().len() >= 1 && b == old(self).remaining()[0]
                    && final(self).remaining() == old(self).remaining().drop_first(),
                Err(e) => old(self).remaining().len() == 0 && *final(self) == *old(self) && e
                    == DataLogError::RecordReaderOutOfBounds("u8"),
            },
    {
        if self.pos >= self.bytes.len() {
            return Err(DataLogError::RecordReaderOutOfBounds("u8"));
        }
        let b = self.bytes[self.pos];
        self.pos = self.pos + 1;
        proof {
            assert(self.bytes@.skip(self.pos as int) =~= old(self).remaining().drop_first());
        }
        Ok(b)
    }

    /// Looks at the next byte without advancing.
    pub fn inspect_byte(&self) -> (r: Result<u8, DataLogError>)
        requires
            self.wf(),
        ensures
            match r {
                Ok(b) => self.remaining().len() >= 1 && b == self.remaining()[0],
                Err(e) => self.remaining().len() == 0 && e == DataLogError::RecordReaderOutOfBounds(
                    "u8",
                ),
            },
    {
        if self.pos >= self.bytes.len() {
            return Err(DataLogError::RecordReaderOutOfBounds("u8"));
        }
        Ok(self.bytes[self.pos])
    }

    /// Takes `len` bytes as an owned vector.
    pub fn bytes(&mut self, len: usize) -> (r: Result<Vec<u8>, DataLogError>)
        requires
            old(self).wf(),
        ensures
            final(self).wf(),
            match r {
                Ok(v) => old(self).remaining().len() >= len && v@ == old(self).remaining().take(
                    len as int,
                ) && final(self).remaining() == old(self).remaining().skip(len as int),
                Err(e) => old(self).remaining().len() < len && *final(self) == *old(self) && e
                    == DataLogError::RecordReaderOutOfBounds("bytes"),
            },
    {
        if self.bytes.len() - self.pos < len {
            return Err(DataLogError::RecordReaderOutOfBounds("bytes"));
        }
        let part = slice_subrange(self.bytes, self.pos, self.pos + len);
        let v = slice_to_vec(part);
        self.pos = self.pos + len;
        proof {
            assert(v@ =~= old(self).remaining().take(len as int));
            assert(self.bytes@.skip(self.pos as int) =~= old(self).remaining().skip(len as int));
        }
        Ok(v)
    }

    /// Looks at the next `len` bytes without advancing.
    pub fn inspect_bytes(&self, len: usize) -> (r: Result<Vec<u8>, DataLogError>)
        requires
            self.wf(),
        ensures
            match r {
                Ok(v) => self.remaining().len() >= len && v@ == self.remaining().take(len as int),
                Err(e) => self.remaining().len() < len && e
                    == DataLogError::RecordReaderOutOfBounds("bytes"),
            },
    {
        if self.bytes.len() - self.pos < len {
            return Err(DataLogError::RecordReaderOutOfBounds("bytes"));
        }
        let part = slice_subrange(self.bytes, self.pos, self.pos + len);
        let v = slice_to_vec(part);
        proof {
            assert(v@ =~= self.remaining().take(len as int));
        }
        Ok(v)
    }

    /// Takes `len` bytes and decodes them as UTF-8.
    pub fn string(&mut self, len: usize) -> (r: Result<String, DataLogError>)
        requires
            old(self).wf(),
        ensures
            final(self).wf(),
            match r {
                Ok(s) => old(self).remaining().len() >= len && valid_utf8(
                    old(self).remaining().take(len as int),
                ) && encode_utf8(s@) == old(self).remaining().take(len as int) && final(self).remaining() == old(self).remaining().skip(len as int),
                Err(e) => e == DataLogError::RecordReaderOutOfBounds("string") && (old(self).remaining().len() < len ==> *final(self) == *old(self)) && (old(self).remaining().len() >= len ==> !valid_utf8(old(self).remaining().take(len as int))
                    && final(self).remaining() == old(self).remaining().skip(len as int)),
            },
    {
        if self.bytes.len() - self.pos < len {
            return Err(DataLogError::RecordReaderOutOfBounds("string"));
        }
        let part = slice_subrange(self.bytes, self.pos, self.pos + len);
        self.pos = self.pos + len;
        proof {
            assert(part@ =~= old(self).remaining().take(len as int));
            assert(self.bytes@.skip(self.pos as int) =~= old(self).remaining().skip(len as int));
        }
        match bytes_to_string(part) {
            Some(s) => Ok(s),
            None => Err(DataLogError::RecordReaderOutOfBounds("string")),
        }
    }

    /// Takes 4 bytes as a little-endian `u32`.
    pub fn u32(&mut self) -> (r: Result<u32, DataLogError>)
        requires
            old(self).wf(),
        ensures
            final(self).wf(),
            match r {
                Ok(v) => old(self).remaining().len() >= 4 && v as nat == le_val(
                    old(self).remaining().take(4),
                ) && final(self).remaining() == old(self).remaining().skip(4),
                Err(e) => old(self).remaining().len() < 4 && *final(self) == *old(self) && e
                    == DataLogError::RecordReaderOutOfBounds("u32"),
            },
    {
        match self.uint_inner(4, "u32") {
            Ok(u) => {
                proof {
                    lemma_le_val_bound(old(self).remaining().take(4));
                    lemma2_to64();
                }
                Ok(u.get_value() as u32)
            },
            Err(_) => Err(DataLogError::RecordReaderOutOfBounds("u32")),
        }
    }

    /// Takes 8 bytes as a little-endian `u64`.
    pub fn u64(&mut self) -> (r: Result<u64, DataLogError>)
        requires
            old(self).wf(),
        ensures
            final(self).wf(),
            match r {
                Ok(v) => old(self).remaining().len() >= 8 && v as nat == le_val(
                    old(self).remaining().take(8),
                ) && final(self).remaining() == old(self).remaining().skip(8),
                Err(e) => old(self).remaining().len() < 8 && *final(self) == *old(self) && e
                    == DataLogError::RecordReaderOutOfBounds("u64"),
            },
    {
        match self.uint_inner(8, "u64") {
            Ok(u) => Ok(u.get_value()),
            Err(_) => Err(DataLogError::RecordReaderOutOfBounds("u64")),
        }
    }

    /// Takes one byte as a boolean; any nonzero byte is `true`.
    pub fn bool(&mut self) -> (r: Result<bool, DataLogError>)
        requires
            old(self).wf(),
        ensures
            final(self).wf(),
            match r {
                Ok(b) => old(self).remaining().len() >= 1 && b == (old(self).remaining()[0] != 0)
                    && final(self).remaining() == old(self).remaining().drop_first(),
                Err(e) => old(self).remaining().len() == 0 && *final(self) == *old(self) && e
                    == DataLogError::RecordReaderOutOfBounds("bool"),
            },
    {
        match self.byte() {
            Ok(b) => Ok(b != 0),
            Err(_) => Err(DataLogError::RecordReaderOutOfBounds("bool")),
        }
    }

    /// Takes `size` bytes as a variable-width unsigned integer.
    pub fn uint(&mut self, size: usize) -> (r: Result<UInt, DataLogError>)
        requires
            old(self).wf(),
        ensures
            final(self).wf(),
            match r {
                Ok(u) => size <= 8 && old(self).remaining().len() >= size && u.spec_value() as nat
                    == le_val(old(self).remaining().take(size as int)) && u.spec_size() == size
                    && u.wf() && final(self).remaining() == old(self).remaining().skip(size as int),
                Err(e) => (old(self).remaining().len() < size || size > 8) && e
                    == DataLogError::RecordReaderOutOfBounds("uint") && (old(self).remaining().len() < size ==> *final(self) == *old(self)),
            },
    {
        self.uint_inner(size, "uint")
    }

    /// Shared body of the fixed- and variable-width integer readers.
    fn uint_inner(&mut self, size: usize, label: &'static str) -> (r: Result<
        UInt,
        DataLogError,
    >)
        requires
            old(self).wf(),
        ensures
            final(self).wf(),
            match r {
                Ok(u) => size <= 8 && old(self).remaining().len() >= size && u.spec_value() as nat
                    == le_val(old(self).remaining().take(size as int)) && u.spec_size() == size
                    && u.wf() && final(self).remaining() == old(self).remaining().skip(size as int),
                Err(e) => (old(self).remaining().len() < size || size > 8) && e
                    == DataLogError::RecordReaderOutOfBounds(label) && (old(self).remaining().len() < size ==> *final(self) == *old(self)),
            },
    {
        if self.bytes.len() - self.pos < size {
            return Err(DataLogError::RecordReaderOutOfBounds(label));
        }
        let part = slice_subrange(self.bytes, self.pos, self.pos + size);
        proof {
            assert(part@ =~= old(self).remaining().take(size as int));
        }
        match UInt::from_binary(part) {
            Some(u) => {
                self.pos = self.pos + size;
                proof {
                    assert(self.bytes@.skip(self.pos as int) =~= old(self).remaining().skip(
                        size as int,
                    ));
                }
                Ok(u)
            },
            None => Err(DataLogError::RecordReaderOutOfBounds(label)),
        }
    }

    /// Skips `len` bytes.
    pub fn skip(&mut self, len: usize) -> (r: Result<(), DataLogError>)
        requires
            old(self).wf(),
        ensures
            final(self).wf(),
            match r {
                Ok(_) => old(self).remaining().len() >= len && final(self).remaining() == old(self).remaining().skip(len as int),
                Err(e) => old(self).remaining().len() < len && *final(self) == *old(self) && e
                    == DataLogError::RecordReaderOutOfBounds("skip"),
            },
    {
        if self.bytes.len() - self.pos < len {
            return Err(DataLogError::RecordReaderOutOfBounds("skip"));
        }
        self.pos = self.pos + len;
        proof {
            assert(self.bytes@.skip(self.pos as int) =~= old(self).remaining().skip(len as int));
        }
        Ok(())
    }

    /// Consumes the cursor, returning all bytes not yet taken.
    pub fn the_rest(self) -> (r: &'buf [u8])
        requires
            self.wf(),
        ensures
            r@ == self.remaining(),
    {
        slice_subrange(self.bytes, self.pos, self.bytes.len())
    }

    /// True when no bytes remain.
    pub fn is_empty(&self) -> (r: bool)
        requires
            self.wf(),
        ensures
            r == (self.remaining().len() == 0),
    {
        self.bytes.len() - self.pos == 0
    }

    /// The count of bytes not yet taken.
    pub fn bytes_left(&self) -> (r: usize)
        requires
            self.wf(),
        ensures
            r == self.remaining().len(),
    {
        self.bytes.len() - self.pos
    }
}

impl<'buf> RecordByteReader<'buf> {
    /// Takes 4 bytes as a little-endian two's-complement `i32`.
    pub fn i32(&mut self) -> (r: Result<i32, DataLogError>)
        requires
            old(self).wf(),
        ensures
            final(self).wf(),
            match r {
                Ok(v) => old(self).remaining().len() >= 4 && v == bits_to_i32(
                    le_val(old(self).remaining().take(4)) as u32,
                ) && final(self).remaining() == old(self).remaining().skip(4),
                Err(e) => old(self).remaining().len() < 4 && *final(self) == *old(self) && e
                    == DataLogError::RecordReaderOutOfBounds("i32"),
            },
    {
        match self.uint_inner(4, "i32") {
            Ok(u) => {
                proof {
                    lemma_le_val_bound(old(self).remaining().take(4));
                    lemma2_to64();
                }
                Ok(bits_to_i32_exec(u.get_value() as u32))
            },
            Err(_) => Err(DataLogError::RecordReaderOutOfBounds("i32")),
        }
    }

    /// Takes 8 bytes as a little-endian two's-complement `i64`.
    pub fn i64(&mut self) -> (r: Result<i64, DataLogError>)
        requires
            old(self).wf(),
        ensures
            final(self).wf(),
            match r {
                Ok(v) => old(self).remaining().len() >= 8 && v == bits_to_i64(
                    le_val(old(self).remaining().take(8)) as u64,
                ) && final(self).remaining() == old(self).remaining().skip(8),
                Err(e) => old(self).remaining().len() < 8 && *final(self) == *old(self) && e
                    == DataLogError::RecordReaderOutOfBounds("i64"),
            },
    {
        match self.uint_inner(8, "i64") {
            Ok(u) => Ok(bits_to_i64_exec(u.get_value())),
            Err(_) => Err(DataLogError::RecordReaderOutOfBounds("i64")),
        }
    }

    /// Takes 4 bytes as the bit pattern of a little-endian IEEE-754 number.
    pub fn f32_bits(&mut self) -> (r: Result<u32, DataLogError>)
        requires
            old(self).wf(),
        ensures
            final(self).wf(),
            match r {
                Ok(v) => old(self).remaining().len() >= 4 && v as nat == le_val(
                    old(self).remaining().take(4),
                ) && final(self).remaining() == old(self).remaining().skip(4),
                Err(e) => old(self).remaining().len() < 4 && *final(self) == *old(self) && e
                    == DataLogError::RecordReaderOutOfBounds("f32"),
            },
    {
        match self.uint_inner(4, "f32") {
            Ok(u) => {
                proof {
                    lemma_le_val_bound(old(self).remaining().take(4));
                    lemma2_to64();
                }
                Ok(u.get_value() as u32)
            },
            Err(_) => Err(DataLogError::RecordReaderOutOfBounds("f32")),
        }
    }

    /// Takes 8 bytes as the bit pattern of a little-endian IEEE-754 number.
    pub fn f64_bits(&mut self) -> (r: Result<u64, DataLogError>)
        requires
            old(self).wf(),
        ensures
            final(self).wf(),
            match r {
                Ok(v) => old(self).remaining().len() >= 8 && v as nat == le_val(
                    old(self).remaining().take(8),
                ) && final(self).remaining() == old(self).remaining().skip(8),
                Err(e) => old(self).remaining().len() < 8 && *final(self) == *old(self) && e
                    == DataLogError::RecordReaderOutOfBounds("f64"),
            },
    {
        match self.uint_inner(8, "f64") {
            Ok(u) => Ok(u.get_value()),
            Err(_) => Err(DataLogError::RecordReaderOutOfBounds("f64")),
        }
    }
}

} // verus!
