//! Type-string fingerprints ("type serials") and the entry life status.
use vstd::prelude::*;

use vstd::arithmetic::div_mod::{lemma_add_mod_noop, lemma_small_mod};
use vstd::string::StrSliceExecFns;
use vstd::utf8::encode_utf8;

use crate::value::ValueType;
use vstd::string::StringExecFns;

verus! {

/// 2^32, the modulus of the wrapping 32-bit fingerprint arithmetic.
pub open spec fn serial_modulus() -> nat {
    0x1_0000_0000
}

/// The weighted codepoint sum of a type string: character at 1-based index
/// `i` contributes `codepoint * (i % 8)`, accumulated modulo 2^32.
pub open spec fn serial_sum(s: Seq<char>) -> nat
    decreases s.len(),
{
    if s.len() == 0 {
        0
    } else {
        (serial_sum(s.drop_last()) + (s.last() as nat) * (s.len() % 8)) % serial_modulus()
    }
}

/// The 32-bit fingerprint of a type string: `sum * L + L` in wrapping 32-bit
/// arithmetic, where `L` is the UTF-8 byte length of the string.
pub open spec fn spec_type_serial(s: Seq<char>) -> u32 {
    let m = serial_modulus();
    let sum = serial_sum(s);
    let l = encode_utf8(s).len() % m;
    (((sum * l) % m + l) % m) as u32
}

/// Fingerprint of `raw`.
pub const RAW_TYPE_SERIAL: u32 = 1998;

/// Fingerprint of `boolean`.
pub const BOOLEAN_TYPE_SERIAL: u32 = 20601;

/// Fingerprint of `int64`.
pub const INT_TYPE_SERIAL: u32 = 5750;

/// Fingerprint of `float`.
pub const FLOAT_TYPE_SERIAL: u32 = 8100;

/// Fingerprint of `double`.
pub const DOUBLE_TYPE_SERIAL: u32 = 13272;

/// Fingerprint of `string`.
pub const STRING_TYPE_SERIAL: u32 = 13668;

/// Fingerprint of `boolean[]`.
pub const BOOLEAN_ARRAY_TYPE_SERIAL: u32 = 27324;

/// Fingerprint of `int64[]`.
pub const INT_ARRAY_TYPE_SERIAL: u32 = 16429;

/// Fingerprint of `float[]`.
pub const FLOAT_ARRAY_TYPE_SERIAL: u32 = 19719;

/// Fingerprint of `double[]`.
pub const DOUBLE_ARRAY_TYPE_SERIAL: u32 = 22792;

/// Fingerprint of `string[]`.
pub const STRING_ARRAY_TYPE_SERIAL: u32 = 23320;

/// A serial is supported when it is the fingerprint of one of the eleven
/// primitive type strings.
pub open spec fn spec_is_supported_serial(x: u32) -> bool {
    ||| x == RAW_TYPE_SERIAL
    ||| x == BOOLEAN_TYPE_SERIAL
    ||| x == INT_TYPE_SERIAL
    ||| x == FLOAT_TYPE_SERIAL
    ||| x == DOUBLE_TYPE_SERIAL
    ||| x == STRING_TYPE_SERIAL
    ||| x == BOOLEAN_ARRAY_TYPE_SERIAL
    ||| x == INT_ARRAY_TYPE_SERIAL
    ||| x == FLOAT_ARRAY_TYPE_SERIAL
    ||| x == DOUBLE_ARRAY_TYPE_SERIAL
    ||| x == STRING_ARRAY_TYPE_SERIAL
}

/// Decides whether a serial belongs to the supported primitive set.
pub fn is_supported_serial(x: u32) -> (r: bool)
    ensures
        r == spec_is_supported_serial(x),
{
    x == RAW_TYPE_SERIAL || x == BOOLEAN_TYPE_SERIAL || x == INT_TYPE_SERIAL
        || x == FLOAT_TYPE_SERIAL || x == DOUBLE_TYPE_SERIAL || x == STRING_TYPE_SERIAL
        || x == BOOLEAN_ARRAY_TYPE_SERIAL || x == INT_ARRAY_TYPE_SERIAL
        || x == FLOAT_ARRAY_TYPE_SERIAL || x == DOUBLE_ARRAY_TYPE_SERIAL
        || x == STRING_ARRAY_TYPE_SERIAL
}

/// Computes the 32-bit fingerprint of a type string.
///
/// This is a non-cryptographic fingerprint used for fast equality checks;
/// collisions are permissible because the authoritative type string is kept
/// alongside wherever it matters.
pub fn get_str_type_serial(ty: &str) -> (r: u32)
    ensures
        r == spec_type_serial(ty@),
{
    let n = ty.unicode_len();
    let mut value: u32 = 0;
    let mut i: usize = 0;
    proof {
        assert(ty@.take(0) =~= Seq::<char>::empty());
    }
    while i < n
        invariant
            i <= n,
            n == ty@.len(),
            value as nat == serial_sum(ty@.take(i as int)),
        decreases n - i,
    {
        let c = ty.get_char(i);
        let c32 = c as u32;
        let mult = ((i + 1) % 8) as u32;
        proof {
            vstd::utf8::char_is_scalar(c);
            assert(c32 <= 0x10FFFF);
            assert(c32 as nat * (mult as nat) <= 0x10FFFF * 7) by (nonlinear_arith)
                requires
                    c32 <= 0x10FFFF,
                    mult as nat <= 7,
            ;
        }
        let term: u32 = c32 * mult;
        proof {
            let prefix = ty@.take(i as int + 1);
            assert(prefix.drop_last() =~= ty@.take(i as int));
            assert(prefix.last() == ty@[i as int]);
            lemma_small_mod(term as nat, serial_modulus());
            lemma_add_mod_noop(serial_sum(ty@.take(i as int)) as int, term as int, serial_modulus() as int);
            lemma_small_mod(value as nat, serial_modulus());
        }
        value = value.wrapping_add(term);
        i = i + 1;
    }
    proof {
        assert(ty@.take(n as int) =~= ty@);
    }
    let byte_len = ty.as_bytes_vec().len();
    let len: u32 = ((byte_len as u64) % 0x1_0000_0000u64) as u32;
    proof {
        let m = serial_modulus();
        let sum = serial_sum(ty@);
        let l = encode_utf8(ty@).len() % m;
        assert(len as nat == l);
        lemma_small_mod(value as nat, m);
        let t = (sum * l) % m;
        assert(value.wrapping_mul(len) as nat == t);
        assert(t < m && l < m);
        assert((t + l) % m == if t + l < m {
            (t + l) as nat
        } else {
            (t + l - m) as nat
        });
    }
    value.wrapping_mul(len).wrapping_add(len)
}


/// The type string a value type is declared with, or `None` for void.
pub open spec fn spec_value_type_name(ty: ValueType) -> Option<Seq<char>> {
    match ty {
        ValueType::Raw => Some("raw"@),
        ValueType::Boolean => Some("boolean"@),
        ValueType::Int => Some("int64"@),
        ValueType::Float => Some("float"@),
        ValueType::Double => Some("double"@),
        ValueType::Str => Some("string"@),
        ValueType::BooleanArray => Some("boolean[]"@),
        ValueType::IntArray => Some("int64[]"@),
        ValueType::FloatArray => Some("float[]"@),
        ValueType::DoubleArray => Some("double[]"@),
        ValueType::StringArray => Some("string[]"@),
        ValueType::Struct(n, _) => Some(n@),
        ValueType::StructArray(n, _) => Some(n@),
        ValueType::Void => None,
    }
}

/// The fingerprint a value type compares under: the fingerprint of its
/// type string, with `u32::MAX` standing in where no usable fingerprint
/// exists (void, or a struct type string that fingerprints to zero).
pub open spec fn spec_value_type_serial(ty: ValueType) -> u32 {
    match ty {
        ValueType::Raw => RAW_TYPE_SERIAL,
        ValueType::Boolean => BOOLEAN_TYPE_SERIAL,
        ValueType::Int => INT_TYPE_SERIAL,
        ValueType::Float => FLOAT_TYPE_SERIAL,
        ValueType::Double => DOUBLE_TYPE_SERIAL,
        ValueType::Str => STRING_TYPE_SERIAL,
        ValueType::BooleanArray => BOOLEAN_ARRAY_TYPE_SERIAL,
        ValueType::IntArray => INT_ARRAY_TYPE_SERIAL,
        ValueType::FloatArray => FLOAT_ARRAY_TYPE_SERIAL,
        ValueType::DoubleArray => DOUBLE_ARRAY_TYPE_SERIAL,
        ValueType::StringArray => STRING_ARRAY_TYPE_SERIAL,
        ValueType::Struct(n, _) => if spec_type_serial(n@) == 0 {
            u32::MAX
        } else {
            spec_type_serial(n@)
        },
        ValueType::StructArray(n, _) => if spec_type_serial(n@) == 0 {
            u32::MAX
        } else {
            spec_type_serial(n@)
        },
        ValueType::Void => u32::MAX,
    }
}

/// The type string a value type is declared with; `None` for void, whose
/// entries cannot be created.
pub fn get_data_type(ty: &ValueType) -> (r: Option<String>)
    ensures
        match r {
            Some(s) => spec_value_type_name(*ty) == Some(s@),
            None => spec_value_type_name(*ty) is None,
        },
{
    match ty {
        ValueType::Raw => Some(String::from_str("raw")),
        ValueType::Boolean => Some(String::from_str("boolean")),
        ValueType::Int => Some(String::from_str("int64")),
        ValueType::Float => Some(String::from_str("float")),
        ValueType::Double => Some(String::from_str("double")),
        ValueType::Str => Some(String::from_str("string")),
        ValueType::BooleanArray => Some(String::from_str("boolean[]")),
        ValueType::IntArray => Some(String::from_str("int64[]")),
        ValueType::FloatArray => Some(String::from_str("float[]")),
        ValueType::DoubleArray => Some(String::from_str("double[]")),
        ValueType::StringArray => Some(String::from_str("string[]")),
        ValueType::Struct(n, _) => Some(n.clone()),
        ValueType::StructArray(n, _) => Some(n.clone()),
        ValueType::Void => None,
    }
}

/// The fingerprint a value type compares under: a faster way of comparing
/// type equality, not immune to fingerprint collisions.
pub fn get_data_type_serial(ty: &ValueType) -> (r: u32)
    ensures
        r == spec_value_type_serial(*ty),
{
    let serials_match: u32 = match ty {
        ValueType::Raw => RAW_TYPE_SERIAL,
        ValueType::Boolean => BOOLEAN_TYPE_SERIAL,
        ValueType::Int => INT_TYPE_SERIAL,
        ValueType::Float => FLOAT_TYPE_SERIAL,
        ValueType::Double => DOUBLE_TYPE_SERIAL,
        ValueType::Str => STRING_TYPE_SERIAL,
        ValueType::BooleanArray => BOOLEAN_ARRAY_TYPE_SERIAL,
        ValueType::IntArray => INT_ARRAY_TYPE_SERIAL,
        ValueType::DoubleArray => DOUBLE_ARRAY_TYPE_SERIAL,
        ValueType::FloatArray => FLOAT_ARRAY_TYPE_SERIAL,
        ValueType::StringArray => STRING_ARRAY_TYPE_SERIAL,
        ValueType::Struct(n, _) => {
            let s = get_str_type_serial(n.as_str());
            if s == 0 {
                u32::MAX
            } else {
                s
            }
        },
        ValueType::StructArray(n, _) => {
            let s = get_str_type_serial(n.as_str());
            if s == 0 {
                u32::MAX
            } else {
                s
            }
        },
        ValueType::Void => u32::MAX,
    };
    serials_match
}

/// The life cycle state of an entry: alive since `start`, or dead over the
/// closed span from `start` to `end`.  Dead is terminal.
#[derive(Debug, Clone, Copy, PartialEq, Eq, Structural)]
pub enum EntryLifeStatus {
    /// The entry has been started and not yet finished.
    Alive {
        /// The timestamp of the Start record.
        start: u64,
    },
    /// The entry has been finished.
    Dead {
        /// The timestamp of the Start record.
        start: u64,
        /// The timestamp of the Finish record.
        end: u64,
    },
}

} // verus!
