//! The value model: the typed values a log carries, their type taxonomy,
//! and their mapping to and from the codec's data records.
//!
//! Floating-point values are carried as IEEE-754 bit patterns in plain
//! integers, so that every operation on them is a function of plain values;
//! the surrounding program converts with `f32::from_bits` and
//! `f64::from_bits` at the boundary.
use vstd::prelude::*;

use crate::proto::records::{DataRecord, DataRecordView};

verus! {

/// A packed structure: the descriptor's type string and byte size, the
/// element count, and the packed bytes.
#[derive(Debug, Clone, PartialEq)]
pub struct StructBytes {
    /// The descriptor's type string.
    pub type_str: String,
    /// The descriptor's byte size.
    pub size: u64,
    /// How many packed elements `data` holds.
    pub count: u64,
    /// The packed bytes.
    pub data: Vec<u8>,
}

/// The mathematical shape of a packed structure.
pub struct StructBytesView {
    /// The descriptor's type string.
    pub type_str: Seq<char>,
    /// The descriptor's byte size.
    pub size: u64,
    /// How many packed elements `data` holds.
    pub count: u64,
    /// The packed bytes.
    pub data: Seq<u8>,
}

impl View for StructBytes {
    type V = StructBytesView;

    open spec fn view(&self) -> StructBytesView {
        StructBytesView {
            type_str: self.type_str@,
            size: self.size,
            count: self.count,
            data: self.data@,
        }
    }
}

/// A value as a log entry carries it: the eleven primitive shapes, packed
/// structures, and the void value that write paths treat as a no-op.
#[derive(Debug, Clone, PartialEq)]
pub enum LogValue {
    /// Uninterpreted bytes.
    Raw(Vec<u8>),
    /// A boolean.
    Boolean(bool),
    /// A 64-bit signed integer.
    Int(i64),
    /// The bit pattern of a 32-bit IEEE-754 number.
    Float(u32),
    /// The bit pattern of a 64-bit IEEE-754 number.
    Double(u64),
    /// A UTF-8 string.
    Str(String),
    /// An array of booleans.
    BooleanArray(Vec<bool>),
    /// An array of 64-bit signed integers.
    IntArray(Vec<i64>),
    /// An array of 32-bit IEEE-754 bit patterns.
    FloatArray(Vec<u32>),
    /// An array of 64-bit IEEE-754 bit patterns.
    DoubleArray(Vec<u64>),
    /// An array of UTF-8 strings.
    StringArray(Vec<String>),
    /// A packed structure.
    Struct(StructBytes),
    /// A packed array of structures.
    StructArray(StructBytes),
    /// The void value.
    Void,
}

/// The mathematical shape of a log value.
pub enum LogValueView {
    /// Uninterpreted bytes.
    Raw(Seq<u8>),
    /// A boolean.
    Boolean(bool),
    /// A 64-bit signed integer.
    Int(i64),
    /// The bit pattern of a 32-bit IEEE-754 number.
    Float(u32),
    /// The bit pattern of a 64-bit IEEE-754 number.
    Double(u64),
    /// A UTF-8 string.
    Str(Seq<char>),
    /// An array of booleans.
    BooleanArray(Seq<bool>),
    /// An array of 64-bit signed integers.
    IntArray(Seq<i64>),
    /// An array of 32-bit IEEE-754 bit patterns.
    FloatArray(Seq<u32>),
    /// An array of 64-bit IEEE-754 bit patterns.
    DoubleArray(Seq<u64>),
    /// An array of UTF-8 strings.
    StringArray(Seq<Seq<char>>),
    /// A packed structure.
    Struct(StructBytesView),
    /// A packed array of structures.
    StructArray(StructBytesView),
    /// The void value.
    Void,
}

impl View for LogValue {
    type V = LogValueView;

    open spec fn view(&self) -> LogValueView {
        match self {
            LogValue::Raw(d) => LogValueView::Raw(d@),
            LogValue::Boolean(b) => LogValueView::Boolean(*b),
            LogValue::Int(i) => LogValueView::Int(*i),
            LogValue::Float(f) => LogValueView::Float(*f),
            LogValue::Double(d) => LogValueView::Double(*d),
            LogValue::Str(s) => LogValueView::Str(s@),
            LogValue::BooleanArray(v) => LogValueView::BooleanArray(v@),
            LogValue::IntArray(v) => LogValueView::IntArray(v@),
            LogValue::FloatArray(v) => LogValueView::FloatArray(v@),
            LogValue::DoubleArray(v) => LogValueView::DoubleArray(v@),
            LogValue::StringArray(v) => LogValueView::StringArray(v.deep_view()),
            LogValue::Struct(sb) => LogValueView::Struct(sb@),
            LogValue::StructArray(sb) => LogValueView::StructArray(sb@),
            LogValue::Void => LogValueView::Void,
        }
    }
}

/// The log value a decoded data record stands for.
pub open spec fn lv_of_data(d: DataRecordView) -> LogValueView {
    match d {
        DataRecordView::Raw(b) => LogValueView::Raw(b),
        DataRecordView::Boolean(b) => LogValueView::Boolean(b),
        DataRecordView::Integer(i) => LogValueView::Int(i),
        DataRecordView::Float(f) => LogValueView::Float(f),
        DataRecordView::Double(x) => LogValueView::Double(x),
        DataRecordView::Str(s) => LogValueView::Str(s),
        DataRecordView::BooleanArray(v) => LogValueView::BooleanArray(v),
        DataRecordView::IntegerArray(v) => LogValueView::IntArray(v),
        DataRecordView::FloatArray(v) => LogValueView::FloatArray(v),
        DataRecordView::DoubleArray(v) => LogValueView::DoubleArray(v),
        DataRecordView::StringArray(v) => LogValueView::StringArray(v),
    }
}

/// The data record a log value is written as: structures are written as
/// their packed bytes, and void as empty raw bytes.
pub open spec fn data_of_lv(v: LogValueView) -> DataRecordView {
    match v {
        LogValueView::Raw(b) => DataRecordView::Raw(b),
        LogValueView::Boolean(b) => DataRecordView::Boolean(b),
        LogValueView::Int(i) => DataRecordView::Integer(i),
        LogValueView::Float(f) => DataRecordView::Float(f),
        LogValueView::Double(x) => DataRecordView::Double(x),
        LogValueView::Str(s) => DataRecordView::Str(s),
        LogValueView::BooleanArray(b) => DataRecordView::BooleanArray(b),
        LogValueView::IntArray(b) => DataRecordView::IntegerArray(b),
        LogValueView::FloatArray(b) => DataRecordView::FloatArray(b),
        LogValueView::DoubleArray(b) => DataRecordView::DoubleArray(b),
        LogValueView::StringArray(b) => DataRecordView::StringArray(b),
        LogValueView::Struct(sb) => DataRecordView::Raw(sb.data),
        LogValueView::StructArray(sb) => DataRecordView::Raw(sb.data),
        LogValueView::Void => DataRecordView::Raw(Seq::empty()),
    }
}

/// A value type: the eleven primitive kinds, struct kinds carrying their
/// descriptor's type string and byte size, and void.
#[derive(Debug, Clone, PartialEq)]
pub enum ValueType {
    /// Uninterpreted bytes.
    Raw,
    /// A boolean.
    Boolean,
    /// A 64-bit signed integer.
    Int,
    /// A 32-bit IEEE-754 number.
    Float,
    /// A 64-bit IEEE-754 number.
    Double,
    /// A UTF-8 string.
    Str,
    /// An array of booleans.
    BooleanArray,
    /// An array of 64-bit signed integers.
    IntArray,
    /// An array of 32-bit IEEE-754 numbers.
    FloatArray,
    /// An array of 64-bit IEEE-754 numbers.
    DoubleArray,
    /// An array of UTF-8 strings.
    StringArray,
    /// A structure: the descriptor's type string and byte size.
    Struct(String, u64),
    /// An array of structures: the descriptor's type string and byte size.
    StructArray(String, u64),
    /// The void type; entries of this type cannot be created.
    Void,
}

impl LogValue {
    /// The value's type.  A structure's type carries its descriptor.
    pub fn get_type(&self) -> (r: ValueType)
        ensures
            self is Raw ==> r is Raw,
            self is Boolean ==> r is Boolean,
            self is Int ==> r is Int,
            self is Float ==> r is Float,
            self is Double ==> r is Double,
            self is Str ==> r is Str,
            self is BooleanArray ==> r is BooleanArray,
            self is IntArray ==> r is IntArray,
            self is FloatArray ==> r is FloatArray,
            self is DoubleArray ==> r is DoubleArray,
            self is StringArray ==> r is StringArray,
            self is Struct ==> (r matches ValueType::Struct(n, s) && n@
                == self->Struct_0.type_str@ && s == self->Struct_0.size),
            self is StructArray ==> (r matches ValueType::StructArray(n, s) && n@
                == self->StructArray_0.type_str@ && s == self->StructArray_0.size),
            self is Void ==> r is Void,
    {
        match self {
            LogValue::Raw(_) => ValueType::Raw,
            LogValue::Boolean(_) => ValueType::Boolean,
            LogValue::Int(_) => ValueType::Int,
            LogValue::Float(_) => ValueType::Float,
            LogValue::Double(_) => ValueType::Double,
            LogValue::Str(_) => ValueType::Str,
            LogValue::BooleanArray(_) => ValueType::BooleanArray,
            LogValue::IntArray(_) => ValueType::IntArray,
            LogValue::FloatArray(_) => ValueType::FloatArray,
            LogValue::DoubleArray(_) => ValueType::DoubleArray,
            LogValue::StringArray(_) => ValueType::StringArray,
            LogValue::Struct(sb) => ValueType::Struct(sb.type_str.clone(), sb.size),
            LogValue::StructArray(sb) => ValueType::StructArray(sb.type_str.clone(), sb.size),
            LogValue::Void => ValueType::Void,
        }
    }
}

impl DataRecord {
    /// The log value this decoded record stands for.
    pub fn into_value(self) -> (r: LogValue)
        ensures
            r@ == lv_of_data(self@),
    {
        match self {
            DataRecord::Raw(d) => LogValue::Raw(d),
            DataRecord::Boolean(b) => LogValue::Boolean(b),
            DataRecord::Integer(i) => LogValue::Int(i),
            DataRecord::Float(f) => LogValue::Float(f),
            DataRecord::Double(d) => LogValue::Double(d),
            DataRecord::Str(s) => LogValue::Str(s),
            DataRecord::BooleanArray(v) => LogValue::BooleanArray(v),
            DataRecord::IntegerArray(v) => LogValue::IntArray(v),
            DataRecord::FloatArray(v) => LogValue::FloatArray(v),
            DataRecord::DoubleArray(v) => LogValue::DoubleArray(v),
            DataRecord::StringArray(v) => LogValue::StringArray(v),
        }
    }

    /// The data record a log value is written as: structures are written
    /// as their packed bytes, and void as empty raw bytes.
    pub fn from_value(v: LogValue) -> (r: Self)
        ensures
            r@ == data_of_lv(v@),
    {
        match v {
            LogValue::Raw(d) => DataRecord::Raw(d),
            LogValue::Boolean(b) => DataRecord::Boolean(b),
            LogValue::Int(i) => DataRecord::Integer(i),
            LogValue::Float(f) => DataRecord::Float(f),
            LogValue::Double(d) => DataRecord::Double(d),
            LogValue::Str(s) => DataRecord::Str(s),
            LogValue::BooleanArray(b) => DataRecord::BooleanArray(b),
            LogValue::IntArray(b) => DataRecord::IntegerArray(b),
            LogValue::FloatArray(b) => DataRecord::FloatArray(b),
            LogValue::DoubleArray(b) => DataRecord::DoubleArray(b),
            LogValue::StringArray(b) => DataRecord::StringArray(b),
            LogValue::Struct(sb) => DataRecord::Raw(sb.data),
            LogValue::StructArray(sb) => DataRecord::Raw(sb.data),
            LogValue::Void => DataRecord::Raw(Vec::new()),
        }
    }
}

impl StructBytes {
    /// A copy whose view is the same.
    pub fn duplicate(&self) -> (r: Self)
        ensures
            r@ == self@,
    {
        let data = self.data.clone();
        proof {
            assert(data@ =~= self.data@);
        }
        StructBytes {
            type_str: self.type_str.clone(),
            size: self.size,
            count: self.count,
            data,
        }
    }
}

impl LogValue {
    /// A copy whose view is the same.
    pub fn duplicate(&self) -> (r: Self)
        ensures
            r@ == self@,
    {
        match self {
            LogValue::Raw(d) => {
                let c = d.clone();
                proof {
                    assert(c@ =~= d@);
                }
                LogValue::Raw(c)
            },
            LogValue::Boolean(b) => LogValue::Boolean(*b),
            LogValue::Int(i) => LogValue::Int(*i),
            LogValue::Float(f) => LogValue::Float(*f),
            LogValue::Double(d) => LogValue::Double(*d),
            LogValue::Str(s) => LogValue::Str(s.clone()),
            LogValue::BooleanArray(v) => {
                let c = v.clone();
                proof {
                    assert(c@ =~= v@);
                }
                LogValue::BooleanArray(c)
            },
            LogValue::IntArray(v) => {
                let c = v.clone();
                proof {
                    assert(c@ =~= v@);
                }
                LogValue::IntArray(c)
            },
            LogValue::FloatArray(v) => {
                let c = v.clone();
                proof {
                    assert(c@ =~= v@);
                }
                LogValue::FloatArray(c)
            },
            LogValue::DoubleArray(v) => {
                let c = v.clone();
                proof {
                    assert(c@ =~= v@);
                }
                LogValue::DoubleArray(c)
            },
            LogValue::StringArray(v) => {
                let c = v.clone();
                proof {
                    assert(c.deep_view() =~= v.deep_view());
                }
                LogValue::StringArray(c)
            },
            LogValue::Struct(sb) => LogValue::Struct(sb.duplicate()),
            LogValue::StructArray(sb) => LogValue::StructArray(sb.duplicate()),
            LogValue::Void => LogValue::Void,
        }
    }
}

} // verus!
