//! The record codec: the variable-width frame header, the control and data
//! record grammars, and the chunking of a byte stream into framed records.
use vstd::prelude::*;

use std::collections::HashMap;

use vstd::arithmetic::power2::pow2;
use vstd::string::{StrSliceExecFns, StringExecFns};
use vstd::utf8::{decode_utf8, encode_utf8, valid_utf8};

use crate::error::DataLogError;
use crate::proto::entries::{
    is_supported_serial, spec_is_supported_serial, BOOLEAN_ARRAY_TYPE_SERIAL,
    BOOLEAN_TYPE_SERIAL, DOUBLE_ARRAY_TYPE_SERIAL, DOUBLE_TYPE_SERIAL, FLOAT_ARRAY_TYPE_SERIAL,
    FLOAT_TYPE_SERIAL, INT_ARRAY_TYPE_SERIAL, INT_TYPE_SERIAL, RAW_TYPE_SERIAL,
    STRING_ARRAY_TYPE_SERIAL, STRING_TYPE_SERIAL,
};
use crate::proto::util::{
    bits_to_i64, byte_width, i64_bits, i64_to_bits_exec, le_bytes, le_val, lemma_byte_width,
    lemma_le_bytes_len, RecordByteReader, UInt,
};

verus! {

broadcast use vstd::std_specs::hash::group_hash_axioms;

// ---------------------------------------------------------------------------
// The length bitfield
// ---------------------------------------------------------------------------
/// The entry-id width (1..=4) declared by a bitfield byte.
pub open spec fn spec_id_len(b: u8) -> nat {
    ((b & 0b11) + 1) as nat
}

/// The payload-length width (1..=4) declared by a bitfield byte.
pub open spec fn spec_payload_len_len(b: u8) -> nat {
    (((b >> 2) & 0b11) + 1) as nat
}

/// The timestamp width (1..=8) declared by a bitfield byte.
pub open spec fn spec_ts_len(b: u8) -> nat {
    (((b >> 4) & 0b111) + 1) as nat
}

/// The total width of the three variable header fields.
pub open spec fn spec_header_len(b: u8) -> nat {
    spec_id_len(b) + spec_payload_len_len(b) + spec_ts_len(b)
}

/// The bitfield byte declaring the given widths.
pub open spec fn spec_bitfield(id_w: nat, pl_w: nat, ts_w: nat) -> u8
    recommends
        1 <= id_w <= 4,
        1 <= pl_w <= 4,
        1 <= ts_w <= 8,
{
    ((((id_w - 1) as u8) & 0b11) | ((((pl_w - 1) as u8) & 0b11) << 2) | ((((ts_w - 1) as u8)
        & 0b111) << 4)) as u8
}

/// Packing widths into a bitfield byte and reading them back are inverses,
/// and the reserved bit stays clear.
pub proof fn lemma_bitfield_roundtrip(id_w: nat, pl_w: nat, ts_w: nat)
    requires
        1 <= id_w <= 4,
        1 <= pl_w <= 4,
        1 <= ts_w <= 8,
    ensures
        spec_id_len(spec_bitfield(id_w, pl_w, ts_w)) == id_w,
        spec_payload_len_len(spec_bitfield(id_w, pl_w, ts_w)) == pl_w,
        spec_ts_len(spec_bitfield(id_w, pl_w, ts_w)) == ts_w,
        spec_bitfield(id_w, pl_w, ts_w) < 0x80,
{
    let i1 = (id_w - 1) as u8;
    let p1 = (pl_w - 1) as u8;
    let t1 = (ts_w - 1) as u8;
    let b = ((i1 & 0b11) | ((p1 & 0b11) << 2) | ((t1 & 0b111) << 4)) as u8;
    assert((b & 0b11) == i1 && ((b >> 2) & 0b11) == p1 && ((b >> 4) & 0b111) == t1 && b < 0x80)
        by (bit_vector)
        requires
            i1 < 4,
            p1 < 4,
            t1 < 8,
            b == ((i1 & 0b11) | ((p1 & 0b11) << 2) | ((t1 & 0b111) << 4)) as u8,
    ;
}

/// The header length bitfield: the first byte of every framed record,
/// declaring the widths of the entry id, payload length and timestamp
/// fields.
#[derive(Debug, Clone, Copy, PartialEq, Eq, Structural)]
pub struct RecordElementBitfield {
    /// The raw byte, with the reserved top bit clear.
    pub bits: u8,
}

impl RecordElementBitfield {
    /// The raw bitfield byte.
    pub open spec fn spec_bits(&self) -> u8 {
        self.bits
    }

    /// Keeps the seven meaningful bits of a raw byte; the reserved top bit
    /// is cleared.
    pub fn from_bits_truncate(b: u8) -> (r: Self)
        ensures
            r.spec_bits() == b & 0x7F,
            spec_id_len(r.spec_bits()) == spec_id_len(b),
            spec_payload_len_len(r.spec_bits()) == spec_payload_len_len(b),
            spec_ts_len(r.spec_bits()) == spec_ts_len(b),
    {
        proof {
            let m = (b & 0x7F) as u8;
            assert((m & 0b11) == (b & 0b11) && ((m >> 2) & 0b11) == ((b >> 2) & 0b11) && ((m >> 4)
                & 0b111) == ((b >> 4) & 0b111)) by (bit_vector)
                requires
                    m == (b & 0x7F) as u8,
            ;
        }
        Self { bits: b & 0x7F }
    }

    /// The raw bitfield byte.
    pub fn bits(&self) -> (r: u8)
        ensures
            r == self.spec_bits(),
    {
        self.bits
    }

    /// The declared entry-id width in bytes (1..=4).
    pub fn id_length(&self) -> (r: usize)
        ensures
            r == spec_id_len(self.spec_bits()),
            1 <= r <= 4,
    {
        proof {
            let b = self.bits;
            assert((b & 0b11) < 4) by (bit_vector);
        }
        ((self.bits & 0b11) + 1) as usize
    }

    /// The declared payload-length width in bytes (1..=4).
    pub fn payload_length(&self) -> (r: usize)
        ensures
            r == spec_payload_len_len(self.spec_bits()),
            1 <= r <= 4,
    {
        proof {
            let b = self.bits;
            assert(((b >> 2) & 0b11) < 4) by (bit_vector);
        }
        (((self.bits >> 2) & 0b11) + 1) as usize
    }

    /// The declared timestamp width in bytes (1..=8).
    pub fn timestamp_length(&self) -> (r: usize)
        ensures
            r == spec_ts_len(self.spec_bits()),
            1 <= r <= 8,
    {
        proof {
            let b = self.bits;
            assert(((b >> 4) & 0b111) < 8) by (bit_vector);
        }
        (((self.bits >> 4) & 0b111) + 1) as usize
    }

    /// The total width of the three variable header fields (3..=16).
    pub fn total_length(&self) -> (r: usize)
        ensures
            r == spec_header_len(self.spec_bits()),
            3 <= r <= 16,
    {
        self.id_length() + self.payload_length() + self.timestamp_length()
    }
}

// ---------------------------------------------------------------------------
// Data record values and their views
// ---------------------------------------------------------------------------
/// The mathematical shape of a data record value.  `Float` and `Double`
/// carry IEEE-754 bit patterns, strings are character sequences.
pub enum DataRecordView {
    /// Uninterpreted bytes.
    Raw(Seq<u8>),
    /// A boolean.
    Boolean(bool),
    /// A 64-bit signed integer.
    Integer(i64),
    /// The bit pattern of a 32-bit IEEE-754 number.
    Float(u32),
    /// The bit pattern of a 64-bit IEEE-754 number.
    Double(u64),
    /// A UTF-8 string.
    Str(Seq<char>),
    /// An array of booleans.
    BooleanArray(Seq<bool>),
    /// An array of 64-bit signed integers.
    IntegerArray(Seq<i64>),
    /// An array of 32-bit IEEE-754 bit patterns.
    FloatArray(Seq<u32>),
    /// An array of 64-bit IEEE-754 bit patterns.
    DoubleArray(Seq<u64>),
    /// An array of UTF-8 strings.
    StringArray(Seq<Seq<char>>),
}

/// A data record value: one of the eleven supported payload shapes.
///
/// `Float` and `Double` carry IEEE-754 bit patterns as plain integers, so
/// that every byte of the codec is a function of plain values; callers that
/// want floating-point numbers convert with `f32::from_bits` and
/// `f64::from_bits` at the boundary.
#[derive(Debug, Clone, PartialEq)]
pub enum DataRecord {
    /// Uninterpreted bytes.
    Raw(Vec<u8>),
    /// A boolean.
    Boolean(bool),
    /// A 64-bit signed integer.
    Integer(i64),
    /// The bit pattern of a 32-bit IEEE-754 number.
    Float(u32),
    /// The bit pattern of a 64-bit IEEE-754 number.
    Double(u64),
    /// A UTF-8 string.
    Str(String),
    /// An array of booleans.
    BooleanArray(Vec<bool>),
    /// An array of 64-bit signed integers.
    IntegerArray(Vec<i64>),
    /// An array of 32-bit IEEE-754 bit patterns.
    FloatArray(Vec<u32>),
    /// An array of 64-bit IEEE-754 bit patterns.
    DoubleArray(Vec<u64>),
    /// An array of UTF-8 strings.
    StringArray(Vec<String>),
}

impl View for DataRecord {
    type V = DataRecordView;

    open spec fn view(&self) -> DataRecordView {
        match self {
            DataRecord::Raw(d) => DataRecordView::Raw(d@),
            DataRecord::Boolean(b) => DataRecordView::Boolean(*b),
            DataRecord::Integer(i) => DataRecordView::Integer(*i),
            DataRecord::Float(f) => DataRecordView::Float(*f),
            DataRecord::Double(d) => DataRecordView::Double(*d),
            DataRecord::Str(s) => DataRecordView::Str(s@),
            DataRecord::BooleanArray(v) => DataRecordView::BooleanArray(v@),
            DataRecord::IntegerArray(v) => DataRecordView::IntegerArray(v@),
            DataRecord::FloatArray(v) => DataRecordView::FloatArray(v@),
            DataRecord::DoubleArray(v) => DataRecordView::DoubleArray(v@),
            DataRecord::StringArray(v) => DataRecordView::StringArray(v.deep_view()),
        }
    }
}

// ---------------------------------------------------------------------------
// Payload encodings
// ---------------------------------------------------------------------------
/// The single byte encoding a boolean.
pub open spec fn bool_byte(b: bool) -> u8 {
    if b {
        1
    } else {
        0
    }
}

/// Consecutive 8-byte little-endian two's-complement elements.
pub open spec fn int_array_bytes(v: Seq<i64>) -> Seq<u8>
    decreases v.len(),
{
    if v.len() == 0 {
        Seq::empty()
    } else {
        le_bytes(i64_bits(v[0]) as nat, 8) + int_array_bytes(v.drop_first())
    }
}

/// Consecutive 4-byte little-endian elements.
pub open spec fn float_array_bytes(v: Seq<u32>) -> Seq<u8>
    decreases v.len(),
{
    if v.len() == 0 {
        Seq::empty()
    } else {
        le_bytes(v[0] as nat, 4) + float_array_bytes(v.drop_first())
    }
}

/// Consecutive 8-byte little-endian elements.
pub open spec fn double_array_bytes(v: Seq<u64>) -> Seq<u8>
    decreases v.len(),
{
    if v.len() == 0 {
        Seq::empty()
    } else {
        le_bytes(v[0] as nat, 8) + double_array_bytes(v.drop_first())
    }
}

/// Length-prefixed UTF-8 strings: a 4-byte little-endian byte length, then
/// the bytes, for each element in order.
pub open spec fn string_array_bytes(v: Seq<Seq<char>>) -> Seq<u8>
    decreases v.len(),
{
    if v.len() == 0 {
        Seq::empty()
    } else {
        le_bytes(encode_utf8(v[0]).len(), 4) + encode_utf8(v[0]) + string_array_bytes(
            v.drop_first(),
        )
    }
}

/// The payload bytes of a data record value.
pub open spec fn spec_data_payload(v: DataRecordView) -> Seq<u8> {
    match v {
        DataRecordView::Raw(d) => d,
        DataRecordView::Boolean(b) => seq![bool_byte(b)],
        DataRecordView::Integer(i) => le_bytes(i64_bits(i) as nat, 8),
        DataRecordView::Float(f) => le_bytes(f as nat, 4),
        DataRecordView::Double(d) => le_bytes(d as nat, 8),
        DataRecordView::Str(s) => encode_utf8(s),
        DataRecordView::BooleanArray(bs) => bs.map_values(|b: bool| bool_byte(b)),
        DataRecordView::IntegerArray(is) => int_array_bytes(is),
        DataRecordView::FloatArray(fs) => float_array_bytes(fs),
        DataRecordView::DoubleArray(ds) => double_array_bytes(ds),
        DataRecordView::StringArray(ss) => string_array_bytes(ss),
    }
}

pub proof fn lemma_int_array_bytes_len(v: Seq<i64>)
    ensures
        int_array_bytes(v).len() == 8 * v.len(),
    decreases v.len(),
{
    if v.len() > 0 {
        lemma_le_bytes_len(i64_bits(v[0]) as nat, 8);
        lemma_int_array_bytes_len(v.drop_first());
    }
}

pub proof fn lemma_float_array_bytes_len(v: Seq<u32>)
    ensures
        float_array_bytes(v).len() == 4 * v.len(),
    decreases v.len(),
{
    if v.len() > 0 {
        lemma_le_bytes_len(v[0] as nat, 4);
        lemma_float_array_bytes_len(v.drop_first());
    }
}

pub proof fn lemma_double_array_bytes_len(v: Seq<u64>)
    ensures
        double_array_bytes(v).len() == 8 * v.len(),
    decreases v.len(),
{
    if v.len() > 0 {
        lemma_le_bytes_len(v[0] as nat, 8);
        lemma_double_array_bytes_len(v.drop_first());
    }
}

/// Every element contributes its length prefix and its bytes.
pub proof fn lemma_string_array_bytes_len(v: Seq<Seq<char>>)
    ensures
        v.len() == 0 ==> string_array_bytes(v).len() == 0,
        v.len() > 0 ==> string_array_bytes(v).len() == 4 + encode_utf8(v[0]).len()
            + string_array_bytes(v.drop_first()).len(),
    decreases v.len(),
{
    if v.len() > 0 {
        lemma_le_bytes_len(encode_utf8(v[0]).len(), 4);
    }
}

// ---------------------------------------------------------------------------
// The frame
// ---------------------------------------------------------------------------
/// The framed bytes of a record: the bitfield byte, then the entry id,
/// payload length and timestamp at their minimal widths, then the payload.
pub open spec fn spec_frame(id: u32, ts: u64, payload: Seq<u8>) -> Seq<u8>
    recommends
        payload.len() <= u32::MAX,
{
    let iw = byte_width(id as u64);
    let pw = byte_width(payload.len() as u64);
    let tw = byte_width(ts);
    seq![spec_bitfield(iw, pw, tw)] + le_bytes(id as nat, iw) + le_bytes(payload.len() as nat, pw)
        + le_bytes(ts as nat, tw) + payload
}

/// The framed length is one bitfield byte, the three shrunk header fields
/// and the payload.
pub proof fn lemma_frame_len(id: u32, ts: u64, payload: Seq<u8>)
    ensures
        spec_frame(id, ts, payload).len() == 1 + byte_width(id as u64) + byte_width(
            payload.len() as u64,
        ) + byte_width(ts) + payload.len(),
{
    lemma_le_bytes_len(id as nat, byte_width(id as u64));
    lemma_le_bytes_len(payload.len() as nat, byte_width(payload.len() as u64));
    lemma_le_bytes_len(ts as nat, byte_width(ts));
}

/// The shrunk widths of a record's three header fields, and the bitfield
/// byte that declares them.
#[derive(Debug, Clone, Copy)]
pub struct RecordElementSizes {
    /// The bitfield byte.
    pub bit_field: RecordElementBitfield,
    /// The shrunk timestamp.
    pub timestamp: UInt,
    /// The shrunk entry id.
    pub id: UInt,
    /// The shrunk payload length.
    pub payload: UInt,
}

impl RecordElementSizes {
    /// Shrinks the three header fields and packs their widths.
    pub fn create(timestamp: u64, id: u32, payload: u32) -> (r: Self)
        ensures
            r.timestamp.spec_value() == timestamp,
            r.timestamp.spec_size() == byte_width(timestamp),
            r.id.spec_value() == id as u64,
            r.id.spec_size() == byte_width(id as u64),
            r.payload.spec_value() == payload as u64,
            r.payload.spec_size() == byte_width(payload as u64),
            r.bit_field.spec_bits() == spec_bitfield(
                byte_width(id as u64),
                byte_width(payload as u64),
                byte_width(timestamp),
            ),
    {
        let wrapped_timestamp = UInt::new(8, timestamp);
        let wrapped_id = UInt::new(4, id as u64);
        let wrapped_payload = UInt::new(4, payload as u64);
        proof {
            lemma_byte_width(id as u64);
            lemma_byte_width(payload as u64);
            lemma_byte_width(timestamp);
            vstd::arithmetic::power2::lemma2_to64();
        }
        let i1 = wrapped_id.get_byte_count() - 1;
        let p1 = wrapped_payload.get_byte_count() - 1;
        let t1 = wrapped_timestamp.get_byte_count() - 1;
        let bits: u8 = (i1 & 0b11) | ((p1 & 0b11) << 2) | ((t1 & 0b111) << 4);
        let bit_field = RecordElementBitfield { bits };
        Self { bit_field, timestamp: wrapped_timestamp, id: wrapped_id, payload: wrapped_payload }
    }
}

// ---------------------------------------------------------------------------
// Data record methods
// ---------------------------------------------------------------------------
/// The type string of a data record value.
pub open spec fn spec_data_type_str(v: DataRecordView) -> Seq<char> {
    match v {
        DataRecordView::Raw(_) => "raw"@,
        DataRecordView::Boolean(_) => "boolean"@,
        DataRecordView::Integer(_) => "int64"@,
        DataRecordView::Float(_) => "float"@,
        DataRecordView::Double(_) => "double"@,
        DataRecordView::Str(_) => "string"@,
        DataRecordView::BooleanArray(_) => "boolean[]"@,
        DataRecordView::IntegerArray(_) => "int64[]"@,
        DataRecordView::FloatArray(_) => "float[]"@,
        DataRecordView::DoubleArray(_) => "double[]"@,
        DataRecordView::StringArray(_) => "string[]"@,
    }
}

/// The type serial of a data record value.
pub open spec fn spec_data_serial(v: DataRecordView) -> u32 {
    match v {
        DataRecordView::Raw(_) => RAW_TYPE_SERIAL,
        DataRecordView::Boolean(_) => BOOLEAN_TYPE_SERIAL,
        DataRecordView::Integer(_) => INT_TYPE_SERIAL,
        DataRecordView::Float(_) => FLOAT_TYPE_SERIAL,
        DataRecordView::Double(_) => DOUBLE_TYPE_SERIAL,
        DataRecordView::Str(_) => STRING_TYPE_SERIAL,
        DataRecordView::BooleanArray(_) => BOOLEAN_ARRAY_TYPE_SERIAL,
        DataRecordView::IntegerArray(_) => INT_ARRAY_TYPE_SERIAL,
        DataRecordView::FloatArray(_) => FLOAT_ARRAY_TYPE_SERIAL,
        DataRecordView::DoubleArray(_) => DOUBLE_ARRAY_TYPE_SERIAL,
        DataRecordView::StringArray(_) => STRING_ARRAY_TYPE_SERIAL,
    }
}

impl DataRecord {
    /// The type string of this value.
    pub fn get_data_type(&self) -> (r: String)
        ensures
            r@ == spec_data_type_str(self@),
    {
        match self {
            DataRecord::Raw(_) => String::from_str("raw"),
            DataRecord::Boolean(_) => String::from_str("boolean"),
            DataRecord::Integer(_) => String::from_str("int64"),
            DataRecord::Float(_) => String::from_str("float"),
            DataRecord::Double(_) => String::from_str("double"),
            DataRecord::Str(_) => String::from_str("string"),
            DataRecord::BooleanArray(_) => String::from_str("boolean[]"),
            DataRecord::IntegerArray(_) => String::from_str("int64[]"),
            DataRecord::FloatArray(_) => String::from_str("float[]"),
            DataRecord::DoubleArray(_) => String::from_str("double[]"),
            DataRecord::StringArray(_) => String::from_str("string[]"),
        }
    }

    /// Whether `e_type` is exactly this value's type string.
    pub fn matches_type(&self, e_type: &String) -> (r: bool)
        ensures
            r == (e_type@ == spec_data_type_str(self@)),
    {
        let own = self.get_data_type();
        own == *e_type
    }

    /// The type serial of this value.
    pub fn get_type_serial(&self) -> (r: u32)
        ensures
            r == spec_data_serial(self@),
    {
        match self {
            DataRecord::Raw(_) => RAW_TYPE_SERIAL,
            DataRecord::Boolean(_) => BOOLEAN_TYPE_SERIAL,
            DataRecord::Integer(_) => INT_TYPE_SERIAL,
            DataRecord::Float(_) => FLOAT_TYPE_SERIAL,
            DataRecord::Double(_) => DOUBLE_TYPE_SERIAL,
            DataRecord::Str(_) => STRING_TYPE_SERIAL,
            DataRecord::BooleanArray(_) => BOOLEAN_ARRAY_TYPE_SERIAL,
            DataRecord::IntegerArray(_) => INT_ARRAY_TYPE_SERIAL,
            DataRecord::FloatArray(_) => FLOAT_ARRAY_TYPE_SERIAL,
            DataRecord::DoubleArray(_) => DOUBLE_ARRAY_TYPE_SERIAL,
            DataRecord::StringArray(_) => STRING_ARRAY_TYPE_SERIAL,
        }
    }

    /// The payload size in bytes, or `None` when it does not fit a `u32`.
    pub fn binary_payload_size(&self) -> (r: Option<u32>)
        ensures
            match r {
                Some(n) => n == spec_data_payload(self@).len() && spec_data_payload(self@).len()
                    <= u32::MAX,
                None => spec_data_payload(self@).len() > u32::MAX,
            },
    {
        match self {
            DataRecord::Raw(d) => {
                if d.len() as u64 <= 0xFFFF_FFFFu64 {
                    Some(d.len() as u32)
                } else {
                    None
                }
            },
            DataRecord::Boolean(_) => Some(1),
            DataRecord::Integer(i) => {
                proof {
                    lemma_le_bytes_len(i64_bits(*i) as nat, 8);
                }
                Some(8)
            },
            DataRecord::Float(f) => {
                proof {
                    lemma_le_bytes_len(*f as nat, 4);
                }
                Some(4)
            },
            DataRecord::Double(d) => {
                proof {
                    lemma_le_bytes_len(*d as nat, 8);
                }
                Some(8)
            },
            DataRecord::Str(s) => {
                let b = s.as_str().as_bytes();
                if b.len() as u64 <= 0xFFFF_FFFFu64 {
                    Some(b.len() as u32)
                } else {
                    None
                }
            },
            DataRecord::BooleanArray(v) => {
                if v.len() as u64 <= 0xFFFF_FFFFu64 {
                    Some(v.len() as u32)
                } else {
                    None
                }
            },
            DataRecord::IntegerArray(v) => {
                proof {
                    lemma_int_array_bytes_len(v@);
                }
                if v.len() as u64 <= 536_870_911u64 {
                    Some((v.len() * 8) as u32)
                } else {
                    None
                }
            },
            DataRecord::FloatArray(v) => {
                proof {
                    lemma_float_array_bytes_len(v@);
                }
                if v.len() as u64 <= 1_073_741_823u64 {
                    Some((v.len() * 4) as u32)
                } else {
                    None
                }
            },
            DataRecord::DoubleArray(v) => {
                proof {
                    lemma_double_array_bytes_len(v@);
                }
                if v.len() as u64 <= 536_870_911u64 {
                    Some((v.len() * 8) as u32)
                } else {
                    None
                }
            },
            DataRecord::StringArray(v) => {
                let ghost all = v.deep_view();
                let mut size: u64 = 0;
                let mut i: usize = 0;
                while i < v.len()
                    invariant
                        i <= v@.len(),
                        all == v.deep_view(),
                        all.len() == v@.len(),
                        forall|j: int| 0 <= j < v@.len() ==> all[j] == v@[j]@,
                        spec_data_payload(self@) == string_array_bytes(all),
                        size == string_array_bytes(all.take(i as int)).len(),
                        size <= u32::MAX,
                    decreases v@.len() - i,
                {
                    let s = &v[i];
                    let b = s.as_str().as_bytes();
                    let l = b.len() as u64;
                    proof {
                        lemma_string_array_prefix_step(all, i as int);
                    }
                    if l > 0xFFFF_FFFFu64 - 4 || size + 4 + l > 0xFFFF_FFFFu64 {
                        proof {
                            lemma_string_array_bytes_split(all, i as int);
                            lemma_string_array_bytes_len(all.skip(i as int));
                            assert(all.skip(i as int)[0] == all[i as int]);
                            assert(encode_utf8(all[i as int]).len() == l);
                            assert(string_array_bytes(all.skip(i as int)).len() >= 4 + l);
                            assert(string_array_bytes(all).len() >= size + 4 + l);
                        }
                        return None;
                    }
                    size = size + 4 + l;
                    i = i + 1;
                }
                proof {
                    assert(all.take(v@.len() as int) =~= all);
                }
                Some(size as u32)
            },
        }
    }
}

/// Splitting a string array at `i` splits its bytes.
pub proof fn lemma_string_array_bytes_split(v: Seq<Seq<char>>, i: int)
    requires
        0 <= i <= v.len(),
    ensures
        string_array_bytes(v) == string_array_bytes(v.take(i)) + string_array_bytes(v.skip(i)),
    decreases i,
{
    if i == 0 {
        assert(v.take(0) =~= Seq::<Seq<char>>::empty());
        assert(v.skip(0) =~= v);
        assert(string_array_bytes(v.take(0)) + string_array_bytes(v) =~= string_array_bytes(v));
    } else {
        let head_bytes = le_bytes(encode_utf8(v[0]).len(), 4) + encode_utf8(v[0]);
        lemma_string_array_bytes_split(v.drop_first(), i - 1);
        assert(v.take(i).drop_first() =~= v.drop_first().take(i - 1));
        assert(v.skip(i) =~= v.drop_first().skip(i - 1));
        assert(v.take(i).len() == i && v.take(i)[0] == v[0]);
        assert(string_array_bytes(v.take(i)) == head_bytes + string_array_bytes(
            v.drop_first().take(i - 1),
        ));
        assert(head_bytes + (string_array_bytes(v.drop_first().take(i - 1))
            + string_array_bytes(v.skip(i))) =~= (head_bytes + string_array_bytes(
            v.drop_first().take(i - 1),
        )) + string_array_bytes(v.skip(i)));
    }
}

/// One more element adds its length prefix and its bytes.
pub proof fn lemma_string_array_prefix_step(v: Seq<Seq<char>>, i: int)
    requires
        0 <= i < v.len(),
    ensures
        string_array_bytes(v.take(i + 1)).len() == string_array_bytes(v.take(i)).len() + 4
            + encode_utf8(v[i]).len(),
{
    lemma_string_array_bytes_split(v.take(i + 1), i);
    assert(v.take(i + 1).take(i) =~= v.take(i));
    let tail = v.take(i + 1).skip(i);
    assert(tail =~= seq![v[i]]);
    lemma_string_array_bytes_len(tail);
    assert(tail.drop_first() =~= Seq::<Seq<char>>::empty());
}

/// Appends the `n` low little-endian bytes of `v`.
pub fn push_le_bytes(out: &mut Vec<u8>, v: u64, n: usize)
    requires
        n <= 8,
    ensures
        final(out)@ == old(out)@ + le_bytes(v as nat, n as nat),
{
    let mut cur: u64 = v;
    let mut i: usize = 0;
    proof {
        lemma_le_bytes_len(v as nat, n as nat);
        assert(old(out)@ + le_bytes(v as nat, n as nat).take(0) =~= old(out)@);
    }
    while i < n
        invariant
            i <= n,
            out@.len() == old(out)@.len() + i,
            le_bytes(v as nat, n as nat) == out@.skip(old(out)@.len() as int) + le_bytes(
                cur as nat,
                (n - i) as nat,
            ),
            out@.take(old(out)@.len() as int) == old(out)@,
        decreases n - i,
    {
        let ghost rest = le_bytes(cur as nat, (n - i) as nat);
        out.push((cur & 0xFF) as u8);
        assert(cur & 0xFF == cur % 256) by (bit_vector);
        assert(cur >> 8 == cur / 256) by (bit_vector);
        cur = cur >> 8;
        i = i + 1;
        proof {
            assert(rest == seq![rest[0]] + le_bytes(cur as nat, (n - i) as nat));
            assert(out@.skip(old(out)@.len() as int) =~= out@.skip(old(out)@.len() as int));
            assert(out@.take(old(out)@.len() as int) =~= old(out)@);
            assert(out@.skip(old(out)@.len() as int) + le_bytes(cur as nat, (n - i) as nat)
                =~= (out@.drop_last().skip(old(out)@.len() as int) + rest));
        }
    }
    proof {
        assert(out@ =~= out@.take(old(out)@.len() as int) + out@.skip(old(out)@.len() as int));
        assert(le_bytes(cur as nat, 0) =~= Seq::<u8>::empty());
        assert(out@.skip(old(out)@.len() as int) + le_bytes(cur as nat, 0) =~= out@.skip(
            old(out)@.len() as int,
        ));
    }
}

impl DataRecord {
    /// Appends the payload bytes of this value.
    fn write_payload(self, out: &mut Vec<u8>)
        requires
            spec_data_payload(self@).len() <= u32::MAX,
        ensures
            final(out)@ == old(out)@ + spec_data_payload(self@),
    {
        match self {
            DataRecord::Raw(d) => {
                out.extend_from_slice(d.as_slice());
            },
            DataRecord::Boolean(b) => {
                out.push(if b { 1 } else { 0 });
                proof {
                    assert(out@ =~= old(out)@ + seq![bool_byte(b)]);
                }
            },
            DataRecord::Integer(i) => {
                let bits = i64_to_bits_exec(i);
                push_le_bytes(out, bits, 8);
            },
            DataRecord::Float(f) => {
                push_le_bytes(out, f as u64, 4);
            },
            DataRecord::Double(d) => {
                push_le_bytes(out, d, 8);
            },
            DataRecord::Str(s) => {
                out.extend_from_slice(s.as_str().as_bytes());
            },
            DataRecord::BooleanArray(v) => {
                let ghost bs = v@;
                let mut i: usize = 0;
                proof {
                    assert(out@ =~= old(out)@ + bs.take(0).map_values(|b: bool| bool_byte(b)));
                }
                while i < v.len()
                    invariant
                        i <= bs.len(),
                        bs == v@,
                        out@ == old(out)@ + bs.take(i as int).map_values(
                            |b: bool| bool_byte(b),
                        ),
                    decreases bs.len() - i,
                {
                    out.push(if v[i] { 1 } else { 0 });
                    i = i + 1;
                    proof {
                        assert(bs.take(i as int).map_values(|b: bool| bool_byte(b))
                            =~= bs.take(i - 1).map_values(|b: bool| bool_byte(b)).push(
                            bool_byte(bs[i - 1]),
                        ));
                        assert(out@ =~= old(out)@ + bs.take(i as int).map_values(
                            |b: bool| bool_byte(b),
                        ));
                    }
                }
                proof {
                    assert(bs.take(bs.len() as int) =~= bs);
                }
            },
            DataRecord::IntegerArray(v) => {
                let ghost is = v@;
                let mut i: usize = 0;
                proof {
                    assert(is.skip(0) =~= is);
                }
                while i < v.len()
                    invariant
                        i <= is.len(),
                        is == v@,
                        out@ + int_array_bytes(is.skip(i as int)) == old(out)@ + int_array_bytes(
                            is,
                        ),
                    decreases is.len() - i,
                {
                    let ghost pre = out@;
                    let bits = i64_to_bits_exec(v[i]);
                    push_le_bytes(out, bits, 8);
                    i = i + 1;
                    proof {
                        let tail = is.skip(i - 1);
                        assert(tail.drop_first() =~= is.skip(i as int));
                        assert(int_array_bytes(tail) == le_bytes(i64_bits(is[i - 1]) as nat, 8)
                            + int_array_bytes(is.skip(i as int)));
                        assert(out@ + int_array_bytes(is.skip(i as int)) =~= pre
                            + int_array_bytes(tail));
                    }
                }
                proof {
                    assert(is.skip(is.len() as int) =~= Seq::<i64>::empty());
                    assert(out@ + int_array_bytes(is.skip(is.len() as int)) =~= out@);
                }
            },
            DataRecord::FloatArray(v) => {
                let ghost fs = v@;
                let mut i: usize = 0;
                proof {
                    assert(fs.skip(0) =~= fs);
                }
                while i < v.len()
                    invariant
                        i <= fs.len(),
                        fs == v@,
                        out@ + float_array_bytes(fs.skip(i as int)) == old(out)@
                            + float_array_bytes(fs),
                    decreases fs.len() - i,
                {
                    let ghost pre = out@;
                    push_le_bytes(out, v[i] as u64, 4);
                    i = i + 1;
                    proof {
                        let tail = fs.skip(i - 1);
                        assert(tail.drop_first() =~= fs.skip(i as int));
                        assert(float_array_bytes(tail) == le_bytes(fs[i - 1] as nat, 4)
                            + float_array_bytes(fs.skip(i as int)));
                        assert(out@ + float_array_bytes(fs.skip(i as int)) =~= pre
                            + float_array_bytes(tail));
                    }
                }
                proof {
                    assert(fs.skip(fs.len() as int) =~= Seq::<u32>::empty());
                    assert(out@ + float_array_bytes(fs.skip(fs.len() as int)) =~= out@);
                }
            },
            DataRecord::DoubleArray(v) => {
                let ghost ds = v@;
                let mut i: usize = 0;
                proof {
                    assert(ds.skip(0) =~= ds);
                }
                while i < v.len()
                    invariant
                        i <= ds.len(),
                        ds == v@,
                        out@ + double_array_bytes(ds.skip(i as int)) == old(out)@
                            + double_array_bytes(ds),
                    decreases ds.len() - i,
                {
                    let ghost pre = out@;
                    push_le_bytes(out, v[i], 8);
                    i = i + 1;
                    proof {
                        let tail = ds.skip(i - 1);
                        assert(tail.drop_first() =~= ds.skip(i as int));
                        assert(double_array_bytes(tail) == le_bytes(ds[i - 1] as nat, 8)
                            + double_array_bytes(ds.skip(i as int)));
                        assert(out@ + double_array_bytes(ds.skip(i as int)) =~= pre
                            + double_array_bytes(tail));
                    }
                }
                proof {
                    assert(ds.skip(ds.len() as int) =~= Seq::<u64>::empty());
                    assert(out@ + double_array_bytes(ds.skip(ds.len() as int)) =~= out@);
                }
            },
            DataRecord::StringArray(v) => {
                let ghost ss = v.deep_view();
                let mut i: usize = 0;
                proof {
                    assert(ss.skip(0) =~= ss);
                    assert(spec_data_payload(DataRecord::StringArray(v)@) == string_array_bytes(
                        ss,
                    ));
                }
                while i < v.len()
                    invariant
                        i <= ss.len(),
                        ss == v.deep_view(),
                        ss.len() == v@.len(),
                        forall|j: int| 0 <= j < v@.len() ==> ss[j] == v@[j]@,
                        string_array_bytes(ss).len() <= u32::MAX,
                        out@ + string_array_bytes(ss.skip(i as int)) == old(out)@
                            + string_array_bytes(ss),
                    decreases ss.len() - i,
                {
                    let ghost pre = out@;
                    let s = &v[i];
                    let b = s.as_str().as_bytes();
                    push_le_bytes(out, b.len() as u64, 4);
                    out.extend_from_slice(b);
                    i = i + 1;
                    proof {
                        let tail = ss.skip(i - 1);
                        assert(tail.drop_first() =~= ss.skip(i as int));
                        assert(tail[0] == ss[i - 1]);
                        assert(b@ == encode_utf8(ss[i - 1]));
                        assert(le_bytes(b@.len() as nat, 4) == le_bytes(
                            encode_utf8(ss[i - 1]).len(),
                            4,
                        ));
                        assert(string_array_bytes(tail) == le_bytes(encode_utf8(tail[0]).len(), 4)
                            + encode_utf8(tail[0]) + string_array_bytes(ss.skip(i as int)));
                        assert(out@ + string_array_bytes(ss.skip(i as int)) =~= pre
                            + string_array_bytes(tail));
                    }
                }
                proof {
                    assert(ss.skip(ss.len() as int) =~= Seq::<Seq<char>>::empty());
                    assert(out@ + string_array_bytes(ss.skip(ss.len() as int)) =~= out@);
                }
            },
        }
    }

    /// Appends the framed bytes of this value: the bitfield byte, the entry
    /// id, the payload length and the timestamp at their minimal widths,
    /// then the payload.  Fails with `RecordTooLarge`, appending nothing,
    /// exactly when the payload does not fit a 32-bit length field.
    pub fn write_to(self, timestamp: u64, id: u32, out: &mut Vec<u8>) -> (r: Result<
        (),
        DataLogError,
    >)
        ensures
            match r {
                Ok(_) => spec_data_payload(self@).len() <= u32::MAX && final(out)@ == old(out)@
                    + spec_frame(id, timestamp, spec_data_payload(self@)),
                Err(e) => e == DataLogError::RecordTooLarge && spec_data_payload(self@).len()
                    > u32::MAX && final(out)@ == old(out)@,
            },
    {
        let payload_size = match self.binary_payload_size() {
            Some(n) => n,
            None => {
                return Err(DataLogError::RecordTooLarge);
            },
        };
        let ghost payload = spec_data_payload(self@);
        let sizes = RecordElementSizes::create(timestamp, id, payload_size);
        out.push(sizes.bit_field.bits());
        let ghost after_bf = out@;
        let mut id_b = sizes.id.as_binary();
        out.append(&mut id_b);
        let mut pl_b = sizes.payload.as_binary();
        out.append(&mut pl_b);
        let mut ts_b = sizes.timestamp.as_binary();
        out.append(&mut ts_b);
        let ghost header = out@;
        self.write_payload(out);
        proof {
            assert(byte_width(payload_size as u64) == byte_width(payload.len() as u64));
            assert(after_bf =~= old(out)@ + seq![
                spec_bitfield(
                    byte_width(id as u64),
                    byte_width(payload.len() as u64),
                    byte_width(timestamp),
                ),
            ]);
            assert(out@ =~= old(out)@ + spec_frame(id, timestamp, payload));
        }
        Ok(())
    }
}

// ---------------------------------------------------------------------------
// Control records
// ---------------------------------------------------------------------------
/// The mathematical shape of a control record body.
pub enum ControlRecordView {
    /// Declares an entry: name, type and metadata.
    Start(Seq<char>, Seq<char>, Seq<char>),
    /// Terminates an entry.
    Finish,
    /// Attaches metadata to an entry.
    Metadata(Seq<char>),
}

/// A control record body.  The logical entry id it affects travels beside
/// it, inside the control payload rather than the frame.
#[derive(Debug, Clone, PartialEq)]
pub enum ControlRecord {
    /// Declares an entry: name, type and metadata.
    Start(String, String, String),
    /// Terminates an entry.
    Finish,
    /// Attaches metadata to an entry.
    Metadata(String),
}

impl View for ControlRecord {
    type V = ControlRecordView;

    open spec fn view(&self) -> ControlRecordView {
        match self {
            ControlRecord::Start(n, t, m) => ControlRecordView::Start(n@, t@, m@),
            ControlRecord::Finish => ControlRecordView::Finish,
            ControlRecord::Metadata(m) => ControlRecordView::Metadata(m@),
        }
    }
}

/// The control payload bytes: a discriminator byte, the 4-byte logical
/// entry id, and the variant's fields.  The `Start` string lengths are full
/// 4-byte fields even though the outer frame shrinks its own fields; the
/// `Metadata` variant carries the entry id first, then the length.
pub open spec fn spec_control_payload(c: ControlRecordView, id: u32) -> Seq<u8> {
    match c {
        ControlRecordView::Start(n, t, m) => seq![0u8] + le_bytes(id as nat, 4) + le_bytes(
            encode_utf8(n).len(),
            4,
        ) + encode_utf8(n) + le_bytes(encode_utf8(t).len(), 4) + encode_utf8(t) + le_bytes(
            encode_utf8(m).len(),
            4,
        ) + encode_utf8(m),
        ControlRecordView::Finish => seq![1u8] + le_bytes(id as nat, 4),
        ControlRecordView::Metadata(m) => seq![2u8] + le_bytes(id as nat, 4) + le_bytes(
            encode_utf8(m).len(),
            4,
        ) + encode_utf8(m),
    }
}

/// Every string of the body fits a 4-byte length field.
pub open spec fn spec_control_strings_fit(c: ControlRecordView) -> bool {
    match c {
        ControlRecordView::Start(n, t, m) => encode_utf8(n).len() <= u32::MAX && encode_utf8(
            t,
        ).len() <= u32::MAX && encode_utf8(m).len() <= u32::MAX,
        ControlRecordView::Finish => true,
        ControlRecordView::Metadata(m) => encode_utf8(m).len() <= u32::MAX,
    }
}

impl ControlRecord {
    /// The discriminator byte of this body.
    pub fn get_control_type(&self) -> (r: u8)
        ensures
            self is Start ==> r == 0,
            self is Finish ==> r == 1,
            self is Metadata ==> r == 2,
    {
        match self {
            ControlRecord::Start(_, _, _) => 0,
            ControlRecord::Finish => 1,
            ControlRecord::Metadata(_) => 2,
        }
    }

    /// Whether this body declares an entry.
    pub fn is_start(&self) -> (r: bool)
        ensures
            r == (self is Start),
    {
        match self {
            ControlRecord::Start(_, _, _) => true,
            ControlRecord::Finish | ControlRecord::Metadata(_) => false,
        }
    }

    /// The declared entry name, for a `Start` body.
    pub fn get_entry_name(&self) -> (r: Option<&String>)
        ensures
            match r {
                Some(n) => self is Start && n@ == self->Start_0@,
                None => self is Finish || self is Metadata,
            },
    {
        match self {
            ControlRecord::Start(name, _, _) => Some(name),
            ControlRecord::Finish | ControlRecord::Metadata(_) => None,
        }
    }

    /// The declared entry type, for a `Start` body.
    pub fn get_entry_type(&self) -> (r: Option<&String>)
        ensures
            match r {
                Some(t) => self is Start && t@ == self->Start_1@,
                None => self is Finish || self is Metadata,
            },
    {
        match self {
            ControlRecord::Start(_, entry_type, _) => Some(entry_type),
            ControlRecord::Finish | ControlRecord::Metadata(_) => None,
        }
    }

    /// The carried metadata, for a `Start` or `Metadata` body.
    pub fn get_entry_metadata(&self) -> (r: Option<&String>)
        ensures
            match r {
                Some(m) => (self is Start && m@ == self->Start_2@) || (self is Metadata && m@
                    == self->Metadata_0@),
                None => self is Finish,
            },
    {
        match self {
            ControlRecord::Start(_, _, entry_metadata) => Some(entry_metadata),
            ControlRecord::Metadata(entry_metadata) => Some(entry_metadata),
            ControlRecord::Finish => None,
        }
    }

    /// Appends the framed bytes of this body affecting logical entry `id`:
    /// a frame at entry id 0, carrying the control payload.  Fails with
    /// `IntCast`, appending nothing, when a string exceeds a 4-byte length
    /// field, and with `RecordTooLarge` when the whole payload would.
    pub fn write_to(self, timestamp: u64, id: u32, out: &mut Vec<u8>) -> (r: Result<
        (),
        DataLogError,
    >)
        ensures
            match r {
                Ok(_) => spec_control_strings_fit(self@) && spec_control_payload(self@, id).len()
                    <= u32::MAX && final(out)@ == old(out)@ + spec_frame(
                    0,
                    timestamp,
                    spec_control_payload(self@, id),
                ),
                Err(e) => final(out)@ == old(out)@ && (e == DataLogError::IntCast
                    || e == DataLogError::RecordTooLarge) && (e == DataLogError::IntCast
                    <==> !spec_control_strings_fit(self@)) && (e == DataLogError::RecordTooLarge
                    ==> spec_control_payload(self@, id).len() > u32::MAX),
            },
    {
        let ghost cpayload = spec_control_payload(self@, id);
        match self {
            ControlRecord::Start(name, entry_type, entry_metadata) => {
                let nb = name.as_str().as_bytes();
                let tb = entry_type.as_str().as_bytes();
                let mb = entry_metadata.as_str().as_bytes();
                if nb.len() as u64 > 0xFFFF_FFFFu64 || tb.len() as u64 > 0xFFFF_FFFFu64
                    || mb.len() as u64 > 0xFFFF_FFFFu64 {
                    return Err(DataLogError::IntCast);
                }
                let total: u64 = 17 + nb.len() as u64 + tb.len() as u64 + mb.len() as u64;
                proof {
                    lemma_le_bytes_len(id as nat, 4);
                    lemma_le_bytes_len(encode_utf8(name@).len(), 4);
                    lemma_le_bytes_len(encode_utf8(entry_type@).len(), 4);
                    lemma_le_bytes_len(encode_utf8(entry_metadata@).len(), 4);
                    assert(cpayload.len() == total);
                }
                if total > 0xFFFF_FFFFu64 {
                    return Err(DataLogError::RecordTooLarge);
                }
                let payload_len: u32 = total as u32;
                let sizes = RecordElementSizes::create(timestamp, 0, payload_len);
                write_frame_header(out, &sizes);
                let ghost header = out@;
                out.push(0u8);
                push_le_bytes(out, id as u64, 4);
                push_le_bytes(out, nb.len() as u64, 4);
                out.extend_from_slice(nb);
                push_le_bytes(out, tb.len() as u64, 4);
                out.extend_from_slice(tb);
                push_le_bytes(out, mb.len() as u64, 4);
                out.extend_from_slice(mb);
                proof {
                    assert(out@ =~= header + cpayload);
                    assert(out@ =~= old(out)@ + spec_frame(0, timestamp, cpayload));
                }
                Ok(())
            },
            ControlRecord::Finish => {
                proof {
                    lemma_le_bytes_len(id as nat, 4);
                    assert(cpayload.len() == 5);
                }
                let sizes = RecordElementSizes::create(timestamp, 0, 5);
                write_frame_header(out, &sizes);
                let ghost header = out@;
                out.push(1u8);
                push_le_bytes(out, id as u64, 4);
                proof {
                    assert(out@ =~= header + cpayload);
                    assert(out@ =~= old(out)@ + spec_frame(0, timestamp, cpayload));
                }
                Ok(())
            },
            ControlRecord::Metadata(entry_metadata) => {
                let mb = entry_metadata.as_str().as_bytes();
                if mb.len() as u64 > 0xFFFF_FFFFu64 {
                    return Err(DataLogError::IntCast);
                }
                let total: u64 = 9 + mb.len() as u64;
                proof {
                    lemma_le_bytes_len(id as nat, 4);
                    lemma_le_bytes_len(encode_utf8(entry_metadata@).len(), 4);
                    assert(cpayload.len() == total);
                }
                if total > 0xFFFF_FFFFu64 {
                    return Err(DataLogError::RecordTooLarge);
                }
                let payload_len: u32 = total as u32;
                let sizes = RecordElementSizes::create(timestamp, 0, payload_len);
                write_frame_header(out, &sizes);
                let ghost header = out@;
                out.push(2u8);
                push_le_bytes(out, id as u64, 4);
                push_le_bytes(out, mb.len() as u64, 4);
                out.extend_from_slice(mb);
                proof {
                    assert(out@ =~= header + cpayload);
                    assert(out@ =~= old(out)@ + spec_frame(0, timestamp, cpayload));
                }
                Ok(())
            },
        }
    }
}

/// Appends the frame header bytes declared by `sizes`: the bitfield byte
/// and the three shrunk fields.
fn write_frame_header(out: &mut Vec<u8>, sizes: &RecordElementSizes)
    requires
        sizes.id.spec_size() == byte_width(sizes.id.spec_value()),
        sizes.payload.spec_size() == byte_width(sizes.payload.spec_value()),
        sizes.timestamp.spec_size() == byte_width(sizes.timestamp.spec_value()),
        sizes.bit_field.spec_bits() == spec_bitfield(
            byte_width(sizes.id.spec_value()),
            byte_width(sizes.payload.spec_value()),
            byte_width(sizes.timestamp.spec_value()),
        ),
    ensures
        final(out)@ == old(out)@ + seq![sizes.bit_field.spec_bits()] + le_bytes(
            sizes.id.spec_value() as nat,
            byte_width(sizes.id.spec_value()),
        ) + le_bytes(
            sizes.payload.spec_value() as nat,
            byte_width(sizes.payload.spec_value()),
        ) + le_bytes(sizes.timestamp.spec_value() as nat, byte_width(sizes.timestamp.spec_value())),
{
    out.push(sizes.bit_field.bits());
    let mut id_b = sizes.id.as_binary();
    out.append(&mut id_b);
    let mut pl_b = sizes.payload.as_binary();
    out.append(&mut pl_b);
    let mut ts_b = sizes.timestamp.as_binary();
    out.append(&mut ts_b);
    proof {
        assert(out@ =~= old(out)@ + seq![sizes.bit_field.spec_bits()] + le_bytes(
            sizes.id.spec_value() as nat,
            byte_width(sizes.id.spec_value()),
        ) + le_bytes(
            sizes.payload.spec_value() as nat,
            byte_width(sizes.payload.spec_value()),
        ) + le_bytes(
            sizes.timestamp.spec_value() as nat,
            byte_width(sizes.timestamp.spec_value()),
        ));
    }
}


// ---------------------------------------------------------------------------
// Payload parsing
// ---------------------------------------------------------------------------
/// Consecutive 8-byte little-endian two's-complement elements, greedily,
/// ignoring a trailing fragment shorter than 8 bytes.
pub open spec fn parse_i64s(b: Seq<u8>) -> Seq<i64>
    decreases b.len(),
{
    if b.len() < 8 {
        Seq::empty()
    } else {
        seq![bits_to_i64(le_val(b.take(8)) as u64)] + parse_i64s(b.skip(8))
    }
}

/// Consecutive 4-byte little-endian elements, greedily.
pub open spec fn parse_u32s(b: Seq<u8>) -> Seq<u32>
    decreases b.len(),
{
    if b.len() < 4 {
        Seq::empty()
    } else {
        seq![(le_val(b.take(4)) as u32)] + parse_u32s(b.skip(4))
    }
}

/// Consecutive 8-byte little-endian elements, greedily.
pub open spec fn parse_u64s(b: Seq<u8>) -> Seq<u64>
    decreases b.len(),
{
    if b.len() < 8 {
        Seq::empty()
    } else {
        seq![(le_val(b.take(8)) as u64)] + parse_u64s(b.skip(8))
    }
}

/// Length-prefixed UTF-8 strings, greedily: fails when a length field
/// claims more bytes than remain or the bytes are not UTF-8; a trailing
/// fragment shorter than 4 bytes is ignored.
pub open spec fn parse_strs(b: Seq<u8>) -> Option<Seq<Seq<char>>>
    decreases b.len(),
{
    if b.len() < 4 {
        Some(Seq::empty())
    } else {
        let l = le_val(b.take(4));
        if b.len() - 4 < l {
            None
        } else if !valid_utf8(b.subrange(4, 4 + l as int)) {
            None
        } else {
            match parse_strs(b.skip(4 + l as int)) {
                Some(rest) => Some(seq![decode_utf8(b.subrange(4, 4 + l as int))] + rest),
                None => None,
            }
        }
    }
}

/// The data payload a byte sequence parses to under a type serial: the
/// grammar of section-level type resolution.  `None` when the payload is
/// empty, too short for its type, not UTF-8 where UTF-8 is required, or the
/// serial is not a supported one.
pub open spec fn spec_parse_data(b: Seq<u8>, serial: u32) -> Option<DataRecordView> {
    if b.len() == 0 {
        None
    } else if serial == DOUBLE_TYPE_SERIAL {
        if b.len() >= 8 {
            Some(DataRecordView::Double(le_val(b.take(8)) as u64))
        } else {
            None
        }
    } else if serial == STRING_TYPE_SERIAL {
        if valid_utf8(b) {
            Some(DataRecordView::Str(decode_utf8(b)))
        } else {
            None
        }
    } else if serial == RAW_TYPE_SERIAL {
        Some(DataRecordView::Raw(b))
    } else if serial == BOOLEAN_TYPE_SERIAL {
        Some(DataRecordView::Boolean(b[0] != 0))
    } else if serial == DOUBLE_ARRAY_TYPE_SERIAL {
        Some(DataRecordView::DoubleArray(parse_u64s(b)))
    } else if serial == INT_TYPE_SERIAL {
        if b.len() >= 8 {
            Some(DataRecordView::Integer(bits_to_i64(le_val(b.take(8)) as u64)))
        } else {
            None
        }
    } else if serial == FLOAT_TYPE_SERIAL {
        if b.len() >= 4 {
            Some(DataRecordView::Float(le_val(b.take(4)) as u32))
        } else {
            None
        }
    } else if serial == BOOLEAN_ARRAY_TYPE_SERIAL {
        Some(DataRecordView::BooleanArray(b.map_values(|x: u8| x != 0)))
    } else if serial == INT_ARRAY_TYPE_SERIAL {
        Some(DataRecordView::IntegerArray(parse_i64s(b)))
    } else if serial == FLOAT_ARRAY_TYPE_SERIAL {
        Some(DataRecordView::FloatArray(parse_u32s(b)))
    } else if serial == STRING_ARRAY_TYPE_SERIAL {
        match parse_strs(b) {
            Some(ss) => Some(DataRecordView::StringArray(ss)),
            None => None,
        }
    } else {
        None
    }
}

impl DataRecord {
    /// Parses a data payload under the given type serial.  Succeeds with
    /// exactly the value the payload grammar gives, and fails exactly when
    /// the grammar rejects the payload.
    pub fn from_binary(bytes: &[u8], type_serial: u32) -> (r: Result<Self, DataLogError>)
        ensures
            match r {
                Ok(d) => spec_parse_data(bytes@, type_serial) == Some(d@),
                Err(e) => spec_parse_data(bytes@, type_serial) is None && (if bytes@.len() == 0 {
                    e matches DataLogError::RecordReaderOutOfBounds(_)
                } else if !spec_is_supported_serial(type_serial) {
                    e == DataLogError::RecordType("Unsupported type")
                } else if type_serial == STRING_TYPE_SERIAL {
                    e == DataLogError::Utf8
                } else {
                    e matches DataLogError::RecordReaderOutOfBounds(_)
                }),
            },
    {
        if bytes.len() == 0 {
            return Err(DataLogError::RecordReaderOutOfBounds("Bytes len is 0"));
        }
        let mut reader = RecordByteReader::new(bytes);
        if type_serial == DOUBLE_TYPE_SERIAL {
            match reader.f64_bits() {
                Ok(d) => Ok(DataRecord::Double(d)),
                Err(e) => Err(e),
            }
        } else if type_serial == STRING_TYPE_SERIAL {
            match crate::trusted::bytes_to_string(bytes) {
                Some(s) => {
                    proof {
                        vstd::utf8::encode_utf8_decode_utf8(s@);
                    }
                    Ok(DataRecord::Str(s))
                },
                None => Err(DataLogError::Utf8),
            }
        } else if type_serial == RAW_TYPE_SERIAL {
            Ok(DataRecord::Raw(vstd::slice::slice_to_vec(bytes)))
        } else if type_serial == BOOLEAN_TYPE_SERIAL {
            match reader.bool() {
                Ok(b) => Ok(DataRecord::Boolean(b)),
                Err(e) => Err(e),
            }
        } else if type_serial == DOUBLE_ARRAY_TYPE_SERIAL {
            let mut doubles: Vec<u64> = Vec::new();
            proof {
                assert(parse_u64s(bytes@) =~= doubles@ + parse_u64s(reader.remaining()));
            }
            while reader.bytes_left() >= 8
                invariant
                    reader.wf(),
                    parse_u64s(bytes@) == doubles@ + parse_u64s(reader.remaining()),
                decreases reader.remaining().len(),
            {
                let ghost pre = reader.remaining();
                let d = match reader.f64_bits() {
                    Ok(d) => d,
                    Err(_) => {
                        proof {
                            assert(false);
                        }
                        return Err(DataLogError::RecordReaderOutOfBounds("f64"));
                    },
                };
                doubles.push(d);
                proof {
                    assert(parse_u64s(pre) == seq![d] + parse_u64s(reader.remaining()));
                    assert(doubles@ + parse_u64s(reader.remaining()) =~= doubles@.drop_last()
                        + parse_u64s(pre));
                }
            }
            proof {
                assert(parse_u64s(reader.remaining()) =~= Seq::<u64>::empty());
                assert(doubles@ + parse_u64s(reader.remaining()) =~= doubles@);
            }
            Ok(DataRecord::DoubleArray(doubles))
        } else if type_serial == INT_TYPE_SERIAL {
            match reader.i64() {
                Ok(i) => Ok(DataRecord::Integer(i)),
                Err(e) => Err(e),
            }
        } else if type_serial == FLOAT_TYPE_SERIAL {
            match reader.f32_bits() {
                Ok(f) => Ok(DataRecord::Float(f)),
                Err(e) => Err(e),
            }
        } else if type_serial == BOOLEAN_ARRAY_TYPE_SERIAL {
            let mut bools: Vec<bool> = Vec::new();
            proof {
                assert(bytes@.skip(0) =~= bytes@);
            }
            while reader.bytes_left() >= 1
                invariant
                    reader.wf(),
                    bools@.len() + reader.remaining().len() == bytes@.len(),
                    reader.remaining() == bytes@.skip(bools@.len() as int),
                    forall|j: int|
                        0 <= j < bools@.len() ==> bools@[j] == (bytes@[j] != 0),
                decreases reader.remaining().len(),
            {
                let b = match reader.bool() {
                    Ok(b) => b,
                    Err(_) => {
                        proof {
                            assert(false);
                        }
                        return Err(DataLogError::RecordReaderOutOfBounds("bool"));
                    },
                };
                bools.push(b);
                proof {
                    assert(reader.remaining() =~= bytes@.skip(bools@.len() as int));
                }
            }
            proof {
                assert(bools@ =~= bytes@.map_values(|x: u8| x != 0));
            }
            Ok(DataRecord::BooleanArray(bools))
        } else if type_serial == INT_ARRAY_TYPE_SERIAL {
            let mut ints: Vec<i64> = Vec::new();
            proof {
                assert(parse_i64s(bytes@) =~= ints@ + parse_i64s(reader.remaining()));
            }
            while reader.bytes_left() >= 8
                invariant
                    reader.wf(),
                    parse_i64s(bytes@) == ints@ + parse_i64s(reader.remaining()),
                decreases reader.remaining().len(),
            {
                let ghost pre = reader.remaining();
                let i = match reader.i64() {
                    Ok(i) => i,
                    Err(_) => {
                        proof {
                            assert(false);
                        }
                        return Err(DataLogError::RecordReaderOutOfBounds("i64"));
                    },
                };
                ints.push(i);
                proof {
                    assert(parse_i64s(pre) == seq![i] + parse_i64s(reader.remaining()));
                    assert(ints@ + parse_i64s(reader.remaining()) =~= ints@.drop_last()
                        + parse_i64s(pre));
                }
            }
            proof {
                assert(parse_i64s(reader.remaining()) =~= Seq::<i64>::empty());
                assert(ints@ + parse_i64s(reader.remaining()) =~= ints@);
            }
            Ok(DataRecord::IntegerArray(ints))
        } else if type_serial == FLOAT_ARRAY_TYPE_SERIAL {
            let mut floats: Vec<u32> = Vec::new();
            proof {
                assert(parse_u32s(bytes@) =~= floats@ + parse_u32s(reader.remaining()));
            }
            while reader.bytes_left() >= 4
                invariant
                    reader.wf(),
                    parse_u32s(bytes@) == floats@ + parse_u32s(reader.remaining()),
                decreases reader.remaining().len(),
            {
                let ghost pre = reader.remaining();
                let f = match reader.f32_bits() {
                    Ok(f) => f,
                    Err(_) => {
                        proof {
                            assert(false);
                        }
                        return Err(DataLogError::RecordReaderOutOfBounds("f32"));
                    },
                };
                floats.push(f);
                proof {
                    assert(parse_u32s(pre) == seq![f] + parse_u32s(reader.remaining()));
                    assert(floats@ + parse_u32s(reader.remaining()) =~= floats@.drop_last()
                        + parse_u32s(pre));
                }
            }
            proof {
                assert(parse_u32s(reader.remaining()) =~= Seq::<u32>::empty());
                assert(floats@ + parse_u32s(reader.remaining()) =~= floats@);
            }
            Ok(DataRecord::FloatArray(floats))
        } else if type_serial == STRING_ARRAY_TYPE_SERIAL {
            let mut strings: Vec<String> = Vec::new();
            proof {
                assert(strings.deep_view() + Seq::<Seq<char>>::empty()
                    =~= Seq::<Seq<char>>::empty());
            }
            while reader.bytes_left() >= 4
                invariant
                    reader.wf(),
                    bytes@.len() > 0,
                    type_serial == STRING_ARRAY_TYPE_SERIAL,
                    match parse_strs(reader.remaining()) {
                        Some(rest) => parse_strs(bytes@) == Some(strings.deep_view() + rest),
                        None => parse_strs(bytes@) is None,
                    },
                decreases reader.remaining().len(),
            {
                let ghost pre = reader.remaining();
                let len = match reader.u32() {
                    Ok(l) => l,
                    Err(_) => {
                        proof {
                            assert(false);
                        }
                        return Err(DataLogError::RecordReaderOutOfBounds("u32"));
                    },
                };
                if (reader.bytes_left() as u64) < len as u64 {
                    proof {
                        assert(pre.len() >= 4);
                        assert(le_val(pre.take(4)) == len as nat);
                        assert(reader.remaining() =~= pre.skip(4));
                        assert(pre.len() - 4 < len as nat);
                        assert(parse_strs(pre) is None);
                    }
                    return Err(DataLogError::RecordReaderOutOfBounds("String[]"));
                }
                let ghost before_str = reader.remaining();
                match reader.string(len as usize) {
                    Ok(s) => {
                        let ghost prev = strings.deep_view();
                        strings.push(s);
                        proof {
                            vstd::utf8::encode_utf8_decode_utf8(s@);
                            assert(before_str =~= pre.skip(4));
                            assert(pre.subrange(4, 4 + len as int) =~= before_str.take(len as int));
                            assert(reader.remaining() =~= pre.skip(4 + len as int));
                            assert(strings.deep_view() =~= prev.push(s@));
                            assert(decode_utf8(pre.subrange(4, 4 + len as int)) == s@);
                            match parse_strs(reader.remaining()) {
                                Some(rest) => {
                                    assert(parse_strs(pre) == Some(seq![s@] + rest));
                                    assert(strings.deep_view() + rest =~= prev + (seq![s@]
                                        + rest));
                                },
                                None => {},
                            }
                        }
                    },
                    Err(_) => {
                        proof {
                            assert(pre.len() >= 4);
                            assert(le_val(pre.take(4)) == len as nat);
                            assert(before_str =~= pre.skip(4));
                            assert(before_str.take(len as int) =~= pre.subrange(4, 4 + len as int));
                            assert(before_str.len() >= len as nat);
                            assert(!valid_utf8(pre.subrange(4, 4 + len as int)));
                            assert(parse_strs(pre) is None);
                        }
                        return Err(DataLogError::RecordReaderOutOfBounds("String[]"));
                    },
                }
            }
            proof {
                assert(parse_strs(reader.remaining()) == Some(Seq::<Seq<char>>::empty()));
                assert(strings.deep_view() + Seq::<Seq<char>>::empty() =~= strings.deep_view());
            }
            Ok(DataRecord::StringArray(strings))
        } else {
            Err(DataLogError::RecordType("Unsupported type"))
        }
    }
}


// ---------------------------------------------------------------------------
// Control record parsing
// ---------------------------------------------------------------------------
/// Takes one length-prefixed UTF-8 string: a 4-byte little-endian byte
/// length, then that many bytes, which must be valid UTF-8.  Returns the
/// characters and the rest of the input.
pub open spec fn spec_take_lp_str(b: Seq<u8>) -> Option<(Seq<char>, Seq<u8>)> {
    if b.len() < 4 {
        None
    } else {
        let l = le_val(b.take(4));
        if b.len() - 4 < l {
            None
        } else if !valid_utf8(b.subrange(4, 4 + l as int)) {
            None
        } else {
            Some((decode_utf8(b.subrange(4, 4 + l as int)), b.skip(4 + l as int)))
        }
    }
}

/// The control body and logical entry id a control payload parses to: a
/// discriminator byte, a 4-byte little-endian entry id, then the variant's
/// fields.  A `Start` body may leave trailing bytes; a `Metadata` body must
/// consume the payload exactly.
pub open spec fn spec_parse_control(b: Seq<u8>) -> Option<(ControlRecordView, u32)> {
    if b.len() < 5 {
        None
    } else {
        let ct = b[0];
        let id = le_val(b.subrange(1, 5)) as u32;
        let rest = b.skip(5);
        if ct == 0 {
            match spec_take_lp_str(rest) {
                Some((n, r1)) => match spec_take_lp_str(r1) {
                    Some((t, r2)) => match spec_take_lp_str(r2) {
                        Some((m, _)) => Some((ControlRecordView::Start(n, t, m), id)),
                        None => None,
                    },
                    None => None,
                },
                None => None,
            }
        } else if ct == 1 {
            Some((ControlRecordView::Finish, id))
        } else if ct == 2 {
            if rest.len() < 4 {
                None
            } else {
                let l = le_val(rest.take(4));
                if rest.len() - 4 != l {
                    None
                } else if !valid_utf8(rest.skip(4)) {
                    None
                } else {
                    Some((ControlRecordView::Metadata(decode_utf8(rest.skip(4))), id))
                }
            }
        } else {
            None
        }
    }
}

impl ControlRecord {
    /// Takes one length-prefixed string off the cursor, mirroring
    /// `spec_take_lp_str` on the cursor's remaining bytes.
    fn take_lp_str(reader: &mut RecordByteReader<'_>) -> (r: Result<String, DataLogError>)
        requires
            old(reader).wf(),
        ensures
            final(reader).wf(),
            match r {
                Ok(s) => spec_take_lp_str(old(reader).remaining()) matches Some(p) && p.0 == s@
                    && p.1 == final(reader).remaining(),
                Err(_) => spec_take_lp_str(old(reader).remaining()) is None,
            },
    {
        let ghost pre = reader.remaining();
        let len = match reader.u32() {
            Ok(l) => l,
            Err(_) => {
                return Err(DataLogError::RecordReaderOutOfBounds("string length"));
            },
        };
        proof {
            assert(le_val(pre.take(4)) == len as nat);
        }
        if (reader.bytes_left() as u64) < len as u64 {
            proof {
                assert(reader.remaining() =~= pre.skip(4));
            }
            return Err(DataLogError::RecordReaderOutOfBounds("string"));
        }
        let ghost before_str = reader.remaining();
        match reader.string(len as usize) {
            Ok(s) => {
                proof {
                    vstd::utf8::encode_utf8_decode_utf8(s@);
                    assert(before_str =~= pre.skip(4));
                    assert(before_str.take(len as int) =~= pre.subrange(4, 4 + len as int));
                    assert(reader.remaining() =~= pre.skip(4 + len as int));
                }
                Ok(s)
            },
            Err(e) => {
                proof {
                    assert(before_str =~= pre.skip(4));
                    assert(before_str.take(len as int) =~= pre.subrange(4, 4 + len as int));
                }
                Err(e)
            },
        }
    }

    /// Parses a control payload.  Succeeds with exactly the body and
    /// logical entry id the control grammar gives, and fails exactly when
    /// the grammar rejects the payload.
    pub fn from_binary(bytes: &[u8]) -> (r: Result<(Self, u32), DataLogError>)
        ensures
            match r {
                Ok(p) => spec_parse_control(bytes@) == Some((p.0@, p.1)),
                Err(e) => spec_parse_control(bytes@) is None && (if bytes@.len() >= 5 && bytes@[0]
                    >= 3 {
                    e matches DataLogError::RecordDeserialize(_)
                } else {
                    e matches DataLogError::RecordReaderOutOfBounds(_)
                }),
            },
    {
        let mut reader = RecordByteReader::new(bytes);
        let control_type = match reader.byte() {
            Ok(b) => b,
            Err(e) => {
                return Err(e);
            },
        };
        let entry_id = match reader.u32() {
            Ok(v) => v,
            Err(e) => {
                return Err(e);
            },
        };
        proof {
            assert(bytes@.drop_first().take(4) =~= bytes@.subrange(1, 5));
            assert(reader.remaining() =~= bytes@.skip(5));
        }
        let ghost rest = bytes@.skip(5);
        if control_type == 0 {
            let name = match Self::take_lp_str(&mut reader) {
                Ok(s) => s,
                Err(_) => {
                    return Err(DataLogError::RecordReaderOutOfBounds("Start control record"));
                },
            };
            let entry_type = match Self::take_lp_str(&mut reader) {
                Ok(s) => s,
                Err(_) => {
                    return Err(DataLogError::RecordReaderOutOfBounds("Start control record"));
                },
            };
            let entry_metadata = match Self::take_lp_str(&mut reader) {
                Ok(s) => s,
                Err(_) => {
                    return Err(DataLogError::RecordReaderOutOfBounds("Start control record"));
                },
            };
            Ok((ControlRecord::Start(name, entry_type, entry_metadata), entry_id))
        } else if control_type == 1 {
            Ok((ControlRecord::Finish, entry_id))
        } else if control_type == 2 {
            let ghost pre = reader.remaining();
            let metadata_len = match reader.u32() {
                Ok(v) => v,
                Err(_) => {
                    return Err(DataLogError::RecordReaderOutOfBounds(
                        "Metadata control record length",
                    ));
                },
            };
            proof {
                assert(le_val(rest.take(4)) == metadata_len as nat);
            }
            if reader.bytes_left() != metadata_len as usize {
                proof {
                    assert(reader.remaining() =~= rest.skip(4));
                }
                return Err(DataLogError::RecordReaderOutOfBounds(
                    "Metadata control record string",
                ));
            }
            let ghost before_str = reader.remaining();
            match reader.string(metadata_len as usize) {
                Ok(s) => {
                    proof {
                        vstd::utf8::encode_utf8_decode_utf8(s@);
                        assert(before_str =~= rest.skip(4));
                        assert(before_str.take(metadata_len as int) =~= rest.skip(4));
                    }
                    Ok((ControlRecord::Metadata(s), entry_id))
                },
                Err(_) => {
                    proof {
                        assert(before_str =~= rest.skip(4));
                        assert(before_str.take(metadata_len as int) =~= rest.skip(4));
                    }
                    Err(DataLogError::RecordReaderOutOfBounds("Metadata control record string"))
                },
            }
        } else {
            Err(DataLogError::RecordDeserialize("Unsupported control record type"))
        }
    }
}


// ---------------------------------------------------------------------------
// Whole records
// ---------------------------------------------------------------------------
/// The mathematical shape of a record: a data or control body with its
/// timestamp and (logical) entry id.
pub enum RecordView {
    /// A typed value bound to entry `u32` at timestamp `u64`.
    Data(DataRecordView, u64, u32),
    /// A control body affecting logical entry `u32` at timestamp `u64`.
    Control(ControlRecordView, u64, u32),
}

/// A record: a data or control body with its timestamp and entry id.  For
/// a control record the id is the logical one carried inside the control
/// payload; the frame carries id 0.
#[derive(Debug, Clone, PartialEq)]
pub enum Record {
    /// A typed value bound to entry `u32` at timestamp `u64`.
    Data(DataRecord, u64, u32),
    /// A control body affecting logical entry `u32` at timestamp `u64`.
    Control(ControlRecord, u64, u32),
}

impl View for Record {
    type V = RecordView;

    open spec fn view(&self) -> RecordView {
        match self {
            Record::Data(d, ts, id) => RecordView::Data(d@, *ts, *id),
            Record::Control(c, ts, id) => RecordView::Control(c@, *ts, *id),
        }
    }
}

impl DeepView for Record {
    type V = RecordView;

    open spec fn deep_view(&self) -> RecordView {
        self.view()
    }
}

/// The framed bytes of a record.
pub open spec fn spec_record_bytes(rv: RecordView) -> Seq<u8> {
    match rv {
        RecordView::Data(d, ts, id) => spec_frame(id, ts, spec_data_payload(d)),
        RecordView::Control(c, ts, id) => spec_frame(0, ts, spec_control_payload(c, id)),
    }
}

/// Whether a record can be framed: its payload fits a 32-bit length field
/// (and, for a control record, each string fits its own length field).
pub open spec fn spec_record_encodable(rv: RecordView) -> bool {
    match rv {
        RecordView::Data(d, _, _) => spec_data_payload(d).len() <= u32::MAX,
        RecordView::Control(c, _, id) => spec_control_strings_fit(c) && spec_control_payload(
            c,
            id,
        ).len() <= u32::MAX,
    }
}

/// The serial a data record at `id` is decoded under: the type map's entry
/// when present and supported, `raw` otherwise.
pub open spec fn spec_effective_serial(id: u32, tmap: Map<u32, u32>) -> u32 {
    let s0 = if tmap.contains_key(id) {
        tmap[id]
    } else {
        RAW_TYPE_SERIAL
    };
    if spec_is_supported_serial(s0) {
        s0
    } else {
        RAW_TYPE_SERIAL
    }
}

/// The record a framed byte sequence parses to, under a type map: the
/// bitfield byte declares the header widths; a frame at entry id 0 carries
/// a control payload, any other a data payload decoded under the entry's
/// serial.  `None` when the bytes are shorter than the header or the
/// payload is rejected.
pub open spec fn spec_parse_record(b: Seq<u8>, tmap: Map<u32, u32>) -> Option<RecordView> {
    if b.len() < 1 {
        None
    } else {
        let bf = b[0];
        let il = spec_id_len(bf);
        let pl = spec_payload_len_len(bf);
        let tl = spec_ts_len(bf);
        if b.len() < 1 + il + pl + tl {
            None
        } else {
            let id = le_val(b.subrange(1, 1 + il as int)) as u32;
            let ts = le_val(b.subrange(1 + il as int + pl as int, 1 + il as int + pl as int
                + tl as int)) as u64;
            let payload = b.skip(1 + il as int + pl as int + tl as int);
            if id == 0 {
                match spec_parse_control(payload) {
                    Some(p) => Some(RecordView::Control(p.0, ts, p.1)),
                    None => None,
                }
            } else {
                match spec_parse_data(payload, spec_effective_serial(id, tmap)) {
                    Some(d) => Some(RecordView::Data(d, ts, id)),
                    None => None,
                }
            }
        }
    }
}

impl Record {
    /// The record's timestamp.
    pub fn get_timestamp(&self) -> (r: u64)
        ensures
            r == match self@ {
                RecordView::Data(_, ts, _) => ts,
                RecordView::Control(_, ts, _) => ts,
            },
    {
        match self {
            Record::Data(_, timestamp, _) => *timestamp,
            Record::Control(_, timestamp, _) => *timestamp,
        }
    }

    /// The record's (logical) entry id.
    pub fn get_id(&self) -> (r: u32)
        ensures
            r == match self@ {
                RecordView::Data(_, _, id) => id,
                RecordView::Control(_, _, id) => id,
            },
    {
        match self {
            Record::Data(_, _, id) => *id,
            Record::Control(_, _, id) => *id,
        }
    }

    /// Whether this is a data record.
    pub fn is_data(&self) -> (r: bool)
        ensures
            r == (self is Data),
    {
        match self {
            Record::Data(_, _, _) => true,
            Record::Control(_, _, _) => false,
        }
    }

    /// Whether this is a control record.
    pub fn is_control(&self) -> (r: bool)
        ensures
            r == (self is Control),
    {
        match self {
            Record::Data(_, _, _) => false,
            Record::Control(_, _, _) => true,
        }
    }

    /// The data body, when this is a data record.
    pub fn as_data(&self) -> (r: Option<&DataRecord>)
        ensures
            match r {
                Some(d) => self is Data && d@ == self->Data_0@,
                None => self is Control,
            },
    {
        match self {
            Record::Data(data, _, _) => Some(data),
            Record::Control(_, _, _) => None,
        }
    }

    /// The control body, when this is a control record.
    pub fn as_control(&self) -> (r: Option<&ControlRecord>)
        ensures
            match r {
                Some(c) => self is Control && c@ == self->Control_0@,
                None => self is Data,
            },
    {
        match self {
            Record::Data(_, _, _) => None,
            Record::Control(control, _, _) => Some(control),
        }
    }

    /// Appends the framed bytes of this record.  Fails, appending nothing,
    /// exactly when the record cannot be framed.
    pub fn write_to(self, out: &mut Vec<u8>) -> (r: Result<(), DataLogError>)
        ensures
            match r {
                Ok(_) => spec_record_encodable(self@) && final(out)@ == old(out)@
                    + spec_record_bytes(self@),
                Err(_) => !spec_record_encodable(self@) && final(out)@ == old(out)@,
            },
    {
        match self {
            Record::Control(control, timestamp, id) => control.write_to(timestamp, id, out),
            Record::Data(data, timestamp, id) => data.write_to(timestamp, id, out),
        }
    }

    /// Parses one framed record under a type map.  Succeeds with exactly
    /// the record the frame grammar gives, and fails exactly when the
    /// grammar rejects the bytes.
    pub fn from_binary(bytes: &[u8], type_map: &HashMap<u32, u32>) -> (r: Result<
        Self,
        DataLogError,
    >)
        ensures
            match r {
                Ok(rec) => spec_parse_record(bytes@, type_map@) == Some(rec@),
                Err(e) => spec_parse_record(bytes@, type_map@) is None && (if bytes@.len() < 1 {
                    e matches DataLogError::RecordReaderOutOfBounds(_)
                } else if bytes@.len() < 1 + spec_header_len(bytes@[0]) {
                    e matches DataLogError::RecordReaderOutOfBounds(_)
                } else {
                    e matches DataLogError::RecordDeserialize(_)
                }),
            },
    {
        let mut reader = RecordByteReader::new(bytes);
        let bit_field_byte = match reader.byte() {
            Ok(b) => b,
            Err(_) => {
                return Err(DataLogError::RecordReaderOutOfBounds("Bitfield"));
            },
        };
        let bit_field = RecordElementBitfield::from_bits_truncate(bit_field_byte);
        let id_length = bit_field.id_length();
        let payload_length = bit_field.payload_length();
        let timestamp_length = bit_field.timestamp_length();
        let ghost il = spec_id_len(bytes@[0]);
        let ghost pl = spec_payload_len_len(bytes@[0]);
        let ghost tl = spec_ts_len(bytes@[0]);
        let id_u = match reader.uint(id_length) {
            Ok(u) => u,
            Err(_) => {
                return Err(DataLogError::RecordReaderOutOfBounds("Entry id"));
            },
        };
        proof {
            crate::proto::util::lemma_le_val_bound(bytes@.drop_first().take(il as int));
            vstd::arithmetic::power2::lemma2_to64();
            if 8 * il < 32 {
                vstd::arithmetic::power2::lemma_pow2_strictly_increases(8 * il, 32);
            }
            assert(bytes@.drop_first().take(il as int) =~= bytes@.subrange(1, 1 + il as int));
        }
        let id: u32 = id_u.get_value() as u32;
        if let Err(_) = reader.skip(payload_length) {
            return Err(DataLogError::RecordReaderOutOfBounds("Payload size"));
        }
        let ghost after_skip = reader.remaining();
        let ts_u = match reader.uint(timestamp_length) {
            Ok(u) => u,
            Err(_) => {
                return Err(DataLogError::RecordReaderOutOfBounds("Timestamp"));
            },
        };
        let timestamp: u64 = ts_u.get_value();
        proof {
            assert(after_skip.take(tl as int) =~= bytes@.subrange(
                1 + il as int + pl as int,
                1 + il as int + pl as int + tl as int,
            ));
        }
        let record_payload = reader.the_rest();
        proof {
            assert(record_payload@ =~= bytes@.skip(1 + il as int + pl as int + tl as int));
        }
        let is_control = id == 0u32;
        if is_control {
            match ControlRecord::from_binary(record_payload) {
                Ok(control_record) => Ok(
                    Record::Control(control_record.0, timestamp, control_record.1),
                ),
                Err(_) => Err(DataLogError::RecordDeserialize("Unsupported control record")),
            }
        } else {
            let serial0 = match type_map.get(&id) {
                Some(s) => *s,
                None => RAW_TYPE_SERIAL,
            };
            let type_serial = if is_supported_serial(serial0) {
                serial0
            } else {
                RAW_TYPE_SERIAL
            };
            proof {
                assert(type_serial == spec_effective_serial(id, type_map@));
            }
            match DataRecord::from_binary(record_payload, type_serial) {
                Ok(data_record) => Ok(Record::Data(data_record, timestamp, id)),
                Err(_) => Err(DataLogError::RecordDeserialize("Unsupported data record")),
            }
        }
    }
}


// ---------------------------------------------------------------------------
// Stream chunking and parsing
// ---------------------------------------------------------------------------
/// Cuts a byte stream into framed records: each chunk is one full record
/// (header and declared payload).  The chunking stops at the first point
/// where fewer bytes remain than a full record needs; the trailing
/// fragment is discarded.
pub open spec fn spec_chunks(b: Seq<u8>) -> Seq<Seq<u8>>
    decreases b.len(),
{
    if b.len() == 0 {
        Seq::empty()
    } else {
        let bf = b[0];
        let hl = 1 + spec_header_len(bf);
        if b.len() < hl {
            Seq::empty()
        } else {
            let il = spec_id_len(bf);
            let pl = spec_payload_len_len(bf);
            let psize = le_val(b.subrange(1 + il as int, 1 + il as int + pl as int));
            if b.len() < hl + psize {
                Seq::empty()
            } else {
                seq![b.take((hl + psize) as int)] + spec_chunks(b.skip((hl + psize) as int))
            }
        }
    }
}

/// Cuts a byte stream into framed records, discarding the trailing
/// fragment, if any.
pub fn chunk_by_record(bytes: &[u8]) -> (r: Vec<Vec<u8>>)
    ensures
        r.deep_view() == spec_chunks(bytes@),
{
    let mut chunks: Vec<Vec<u8>> = Vec::new();
    let mut reader = RecordByteReader::new(bytes);
    proof {
        assert(chunks.deep_view() + spec_chunks(reader.remaining()) =~= spec_chunks(bytes@));
    }
    loop
        invariant_except_break
            reader.wf(),
            spec_chunks(bytes@) == chunks.deep_view() + spec_chunks(reader.remaining()),
        ensures
            chunks.deep_view() == spec_chunks(bytes@),
        decreases reader.remaining().len(),
    {
        let ghost pre = reader.remaining();
        if reader.is_empty() {
            proof {
                assert(chunks.deep_view() + spec_chunks(pre) =~= chunks.deep_view());
            }
            break;
        }
        let bit_field_byte = match reader.inspect_byte() {
            Ok(b) => b,
            Err(_) => {
                proof {
                    assert(false);
                }
                break;
            },
        };
        let bit_field = RecordElementBitfield::from_bits_truncate(bit_field_byte);
        let header_len = 1 + bit_field.total_length();
        if reader.bytes_left() < header_len {
            proof {
                assert(spec_chunks(pre) =~= Seq::<Seq<u8>>::empty());
                assert(chunks.deep_view() + spec_chunks(pre) =~= chunks.deep_view());
            }
            break;
        }
        let header = match reader.inspect_bytes(header_len) {
            Ok(h) => h,
            Err(_) => {
                proof {
                    assert(false);
                }
                break;
            },
        };
        let id_len = bit_field.id_length();
        let pl_len = bit_field.payload_length();
        let mut size_reader = RecordByteReader::new(header.as_slice());
        if let Err(_) = size_reader.skip(1 + id_len) {
            proof {
                assert(false);
            }
            break;
        }
        let psize_u = match size_reader.uint(pl_len) {
            Ok(u) => u,
            Err(_) => {
                proof {
                    assert(false);
                }
                break;
            },
        };
        let payload_size: u64 = psize_u.get_value();
        proof {
            assert(header@.skip(1 + id_len as int).take(pl_len as int) =~= pre.subrange(
                1 + id_len as int,
                1 + id_len as int + pl_len as int,
            ));
        }
        proof {
            vstd::arithmetic::power2::lemma2_to64();
            if 8 * pl_len < 32 {
                vstd::arithmetic::power2::lemma_pow2_strictly_increases(8 * pl_len as nat, 32);
            }
            assert(payload_size < 0x1_0000_0000u64);
        }
        let total_size: u64 = header_len as u64 + payload_size;
        if (reader.bytes_left() as u64) < total_size {
            proof {
                assert(spec_chunks(pre) =~= Seq::<Seq<u8>>::empty());
                assert(chunks.deep_view() + spec_chunks(pre) =~= chunks.deep_view());
            }
            break;
        }
        let chunk = match reader.bytes(total_size as usize) {
            Ok(c) => c,
            Err(_) => {
                proof {
                    assert(false);
                }
                break;
            },
        };
        proof {
            assert(spec_chunks(pre) == seq![pre.take(total_size as int)] + spec_chunks(
                pre.skip(total_size as int),
            ));
        }
        let ghost prev_dv = chunks.deep_view();
        let ghost cv = chunk@;
        proof {
            assert(chunk.deep_view() =~= cv);
        }
        chunks.push(chunk);
        proof {
            assert(chunks.deep_view() =~= prev_dv.push(cv));
            assert(chunks.deep_view() + spec_chunks(reader.remaining()) =~= prev_dv + (seq![cv]
                + spec_chunks(reader.remaining())));
        }
    }
    chunks
}

/// One step of the stream's type-map evolution: a `Start` control record
/// binds its logical entry id to the fingerprint of its type string.
pub open spec fn spec_update_type_map(tmap: Map<u32, u32>, rv: RecordView) -> Map<u32, u32> {
    match rv {
        RecordView::Control(ControlRecordView::Start(_, t, _), _, id) => tmap.insert(
            id,
            crate::proto::entries::spec_type_serial(t),
        ),
        _ => tmap,
    }
}

/// Parses a chunked stream left to right: each chunk is parsed under the
/// current type map, a chunk that fails to parse is dropped, and a `Start`
/// record updates the map for the chunks after it.  Yields the parsed
/// records in order, and the final type map.
pub open spec fn spec_parse_stream(chunks: Seq<Seq<u8>>, tmap: Map<u32, u32>) -> (Seq<
    RecordView,
>, Map<u32, u32>)
    decreases chunks.len(),
{
    if chunks.len() == 0 {
        (Seq::empty(), tmap)
    } else {
        match spec_parse_record(chunks[0], tmap) {
            Some(rv) => {
                let t2 = spec_update_type_map(tmap, rv);
                let rest = spec_parse_stream(chunks.drop_first(), t2);
                (seq![rv] + rest.0, rest.1)
            },
            None => spec_parse_stream(chunks.drop_first(), tmap),
        }
    }
}

/// Parses every complete record of a byte stream, in order.
///
/// The stream is first cut into framed records; the trailing fragment, if
/// any, is silently discarded.  Each record is parsed under the type map,
/// records that fail to parse are dropped, and every `Start` control
/// record binds its entry id's type serial in the map for the records
/// after it.  The error case is kept for interface stability; this
/// implementation always returns `Ok`.
pub fn parse_records(bytes: &[u8], type_map: &mut HashMap<u32, u32>) -> (r: Result<
    Vec<Record>,
    DataLogError,
>)
    ensures
        match r {
            Ok(records) => {
                let parsed = spec_parse_stream(spec_chunks(bytes@), old(type_map)@);
                records.deep_view() == parsed.0 && final(type_map)@ == parsed.1
            },
            Err(_) => false,
        },
{
    let chunks = chunk_by_record(bytes);
    let ghost all_chunks = chunks.deep_view();
    let ghost tmap0 = type_map@;
    let mut records: Vec<Record> = Vec::new();
    let mut i: usize = 0;
    proof {
        assert(all_chunks.skip(0) =~= all_chunks);
        assert(Seq::<RecordView>::empty() + spec_parse_stream(all_chunks, tmap0).0
            =~= spec_parse_stream(all_chunks, tmap0).0);
    }
    while i < chunks.len()
        invariant
            i <= chunks@.len(),
            all_chunks == chunks.deep_view(),
            all_chunks.len() == chunks@.len(),
            forall|j: int| 0 <= j < chunks@.len() ==> all_chunks[j] == chunks@[j]@,
            spec_parse_stream(all_chunks, tmap0).0 == records.deep_view() + spec_parse_stream(
                all_chunks.skip(i as int),
                type_map@,
            ).0,
            spec_parse_stream(all_chunks, tmap0).1 == spec_parse_stream(
                all_chunks.skip(i as int),
                type_map@,
            ).1,
        decreases chunks@.len() - i,
    {
        let ghost tcur = type_map@;
        let ghost suffix = all_chunks.skip(i as int);
        proof {
            assert(suffix[0] == all_chunks[i as int]);
            assert(suffix.drop_first() =~= all_chunks.skip(i as int + 1));
        }
        let chunk = &chunks[i];
        match Record::from_binary(chunk.as_slice(), type_map) {
            Ok(record) => {
                let ghost rv = record@;
                if let Record::Control(control, _, _) = &record {
                    if let Some(entry_type) = control.get_entry_type() {
                        let serial = crate::proto::entries::get_str_type_serial(
                            entry_type.as_str(),
                        );
                        let _ = type_map.insert(record.get_id(), serial);
                    }
                }
                proof {
                    assert(type_map@ == spec_update_type_map(tcur, rv));
                }
                let ghost prev = records.deep_view();
                records.push(record);
                proof {
                    assert(records.deep_view() =~= prev.push(rv));
                    assert(records.deep_view() + spec_parse_stream(
                        all_chunks.skip(i as int + 1),
                        type_map@,
                    ).0 =~= prev + (seq![rv] + spec_parse_stream(
                        all_chunks.skip(i as int + 1),
                        type_map@,
                    ).0));
                }
            },
            Err(_) => {
            },
        }
        i = i + 1;
    }
    proof {
        assert(all_chunks.skip(all_chunks.len() as int) =~= Seq::<Seq<u8>>::empty());
        assert(records.deep_view() + Seq::<RecordView>::empty() =~= records.deep_view());
    }
    Ok(records)
}

} // verus!




