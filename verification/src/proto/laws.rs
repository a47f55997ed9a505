//! The laws of the codec: round trips between encoding and parsing,
//! framed lengths, and how chunking treats concatenation and truncation.
use vstd::prelude::*;

use vstd::arithmetic::power2::{lemma2_to64, lemma2_to64_rest, pow2};
use vstd::utf8::{decode_utf8, encode_utf8, encode_utf8_decode_utf8, encode_utf8_valid_utf8, valid_utf8};

use crate::proto::entries::{
    spec_is_supported_serial, spec_type_serial, BOOLEAN_ARRAY_TYPE_SERIAL, BOOLEAN_TYPE_SERIAL,
    DOUBLE_ARRAY_TYPE_SERIAL, DOUBLE_TYPE_SERIAL, FLOAT_ARRAY_TYPE_SERIAL, FLOAT_TYPE_SERIAL,
    INT_ARRAY_TYPE_SERIAL, INT_TYPE_SERIAL, RAW_TYPE_SERIAL, STRING_ARRAY_TYPE_SERIAL,
    STRING_TYPE_SERIAL,
};
use crate::proto::records::{
    bool_byte, double_array_bytes, float_array_bytes, int_array_bytes, parse_i64s, parse_strs,
    parse_u32s, parse_u64s, spec_bitfield, spec_control_payload, spec_data_payload,
    spec_data_serial, spec_data_type_str, spec_frame, spec_header_len, spec_id_len,
    spec_parse_control, spec_parse_data, spec_parse_record, spec_payload_len_len,
    spec_record_bytes, spec_record_encodable, spec_take_lp_str, spec_ts_len, spec_effective_serial,
    spec_chunks,
    lemma_bitfield_roundtrip, lemma_frame_len, lemma_int_array_bytes_len,
    lemma_float_array_bytes_len, lemma_double_array_bytes_len, lemma_string_array_bytes_len,
    string_array_bytes, ControlRecordView, DataRecordView, RecordView,
};
use crate::proto::util::{
    byte_width, i64_bits, le_bytes, le_val, lemma_byte_width, lemma_le_bytes_len,
    lemma_le_val_le_bytes,
};

verus! {

/// The eleven primitive type strings fingerprint to their named serials.
pub proof fn lemma_primitive_type_serials()
    ensures
        spec_type_serial("raw"@) == RAW_TYPE_SERIAL,
        spec_type_serial("boolean"@) == BOOLEAN_TYPE_SERIAL,
        spec_type_serial("int64"@) == INT_TYPE_SERIAL,
        spec_type_serial("float"@) == FLOAT_TYPE_SERIAL,
        spec_type_serial("double"@) == DOUBLE_TYPE_SERIAL,
        spec_type_serial("string"@) == STRING_TYPE_SERIAL,
        spec_type_serial("boolean[]"@) == BOOLEAN_ARRAY_TYPE_SERIAL,
        spec_type_serial("int64[]"@) == INT_ARRAY_TYPE_SERIAL,
        spec_type_serial("float[]"@) == FLOAT_ARRAY_TYPE_SERIAL,
        spec_type_serial("double[]"@) == DOUBLE_ARRAY_TYPE_SERIAL,
        spec_type_serial("string[]"@) == STRING_ARRAY_TYPE_SERIAL,
{
    reveal_strlit("raw");
    reveal_strlit("boolean");
    reveal_strlit("int64");
    reveal_strlit("float");
    reveal_strlit("double");
    reveal_strlit("string");
    reveal_strlit("boolean[]");
    reveal_strlit("int64[]");
    reveal_strlit("float[]");
    reveal_strlit("double[]");
    reveal_strlit("string[]");
    assert(vstd::utf8::is_ascii_chars("raw"@));
    vstd::utf8::is_ascii_chars_encode_utf8("raw"@);
    assert(vstd::utf8::is_ascii_chars("boolean"@));
    vstd::utf8::is_ascii_chars_encode_utf8("boolean"@);
    assert(vstd::utf8::is_ascii_chars("int64"@));
    vstd::utf8::is_ascii_chars_encode_utf8("int64"@);
    assert(vstd::utf8::is_ascii_chars("float"@));
    vstd::utf8::is_ascii_chars_encode_utf8("float"@);
    assert(vstd::utf8::is_ascii_chars("double"@));
    vstd::utf8::is_ascii_chars_encode_utf8("double"@);
    assert(vstd::utf8::is_ascii_chars("string"@));
    vstd::utf8::is_ascii_chars_encode_utf8("string"@);
    assert(vstd::utf8::is_ascii_chars("boolean[]"@));
    vstd::utf8::is_ascii_chars_encode_utf8("boolean[]"@);
    assert(vstd::utf8::is_ascii_chars("int64[]"@));
    vstd::utf8::is_ascii_chars_encode_utf8("int64[]"@);
    assert(vstd::utf8::is_ascii_chars("float[]"@));
    vstd::utf8::is_ascii_chars_encode_utf8("float[]"@);
    assert(vstd::utf8::is_ascii_chars("double[]"@));
    vstd::utf8::is_ascii_chars_encode_utf8("double[]"@);
    assert(vstd::utf8::is_ascii_chars("string[]"@));
    vstd::utf8::is_ascii_chars_encode_utf8("string[]"@);
    let s_raw = "raw"@;
    assert(s_raw.take(0) =~= Seq::<char>::empty());
    assert(s_raw.take(1) =~= s_raw.take(0).push('r'));
    serial_sum_step(s_raw.take(1), s_raw.take(0), 'r', 0);
    assert(s_raw.take(2) =~= s_raw.take(1).push('a'));
    serial_sum_step(s_raw.take(2), s_raw.take(1), 'a', 114);
    assert(s_raw.take(3) =~= s_raw.take(2).push('w'));
    serial_sum_step(s_raw.take(3), s_raw.take(2), 'w', 308);
    assert(s_raw.take(3) =~= s_raw);
    assert(crate::proto::entries::serial_sum(s_raw) == 665);
    let s_boolean = "boolean"@;
    assert(s_boolean.take(0) =~= Seq::<char>::empty());
    assert(s_boolean.take(1) =~= s_boolean.take(0).push('b'));
    serial_sum_step(s_boolean.take(1), s_boolean.take(0), 'b', 0);
    assert(s_boolean.take(2) =~= s_boolean.take(1).push('o'));
    serial_sum_step(s_boolean.take(2), s_boolean.take(1), 'o', 98);
    assert(s_boolean.take(3) =~= s_boolean.take(2).push('o'));
    serial_sum_step(s_boolean.take(3), s_boolean.take(2), 'o', 320);
    assert(s_boolean.take(4) =~= s_boolean.take(3).push('l'));
    serial_sum_step(s_boolean.take(4), s_boolean.take(3), 'l', 653);
    assert(s_boolean.take(5) =~= s_boolean.take(4).push('e'));
    serial_sum_step(s_boolean.take(5), s_boolean.take(4), 'e', 1085);
    assert(s_boolean.take(6) =~= s_boolean.take(5).push('a'));
    serial_sum_step(s_boolean.take(6), s_boolean.take(5), 'a', 1590);
    assert(s_boolean.take(7) =~= s_boolean.take(6).push('n'));
    serial_sum_step(s_boolean.take(7), s_boolean.take(6), 'n', 2172);
    assert(s_boolean.take(7) =~= s_boolean);
    assert(crate::proto::entries::serial_sum(s_boolean) == 2942);
    let s_int64 = "int64"@;
    assert(s_int64.take(0) =~= Seq::<char>::empty());
    assert(s_int64.take(1) =~= s_int64.take(0).push('i'));
    serial_sum_step(s_int64.take(1), s_int64.take(0), 'i', 0);
    assert(s_int64.take(2) =~= s_int64.take(1).push('n'));
    serial_sum_step(s_int64.take(2), s_int64.take(1), 'n', 105);
    assert(s_int64.take(3) =~= s_int64.take(2).push('t'));
    serial_sum_step(s_int64.take(3), s_int64.take(2), 't', 325);
    assert(s_int64.take(4) =~= s_int64.take(3).push('6'));
    serial_sum_step(s_int64.take(4), s_int64.take(3), '6', 673);
    assert(s_int64.take(5) =~= s_int64.take(4).push('4'));
    serial_sum_step(s_int64.take(5), s_int64.take(4), '4', 889);
    assert(s_int64.take(5) =~= s_int64);
    assert(crate::proto::entries::serial_sum(s_int64) == 1149);
    let s_float = "float"@;
    assert(s_float.take(0) =~= Seq::<char>::empty());
    assert(s_float.take(1) =~= s_float.take(0).push('f'));
    serial_sum_step(s_float.take(1), s_float.take(0), 'f', 0);
    assert(s_float.take(2) =~= s_float.take(1).push('l'));
    serial_sum_step(s_float.take(2), s_float.take(1), 'l', 102);
    assert(s_float.take(3) =~= s_float.take(2).push('o'));
    serial_sum_step(s_float.take(3), s_float.take(2), 'o', 318);
    assert(s_float.take(4) =~= s_float.take(3).push('a'));
    serial_sum_step(s_float.take(4), s_float.take(3), 'a', 651);
    assert(s_float.take(5) =~= s_float.take(4).push('t'));
    serial_sum_step(s_float.take(5), s_float.take(4), 't', 1039);
    assert(s_float.take(5) =~= s_float);
    assert(crate::proto::entries::serial_sum(s_float) == 1619);
    let s_double = "double"@;
    assert(s_double.take(0) =~= Seq::<char>::empty());
    assert(s_double.take(1) =~= s_double.take(0).push('d'));
    serial_sum_step(s_double.take(1), s_double.take(0), 'd', 0);
    assert(s_double.take(2) =~= s_double.take(1).push('o'));
    serial_sum_step(s_double.take(2), s_double.take(1), 'o', 100);
    assert(s_double.take(3) =~= s_double.take(2).push('u'));
    serial_sum_step(s_double.take(3), s_double.take(2), 'u', 322);
    assert(s_double.take(4) =~= s_double.take(3).push('b'));
    serial_sum_step(s_double.take(4), s_double.take(3), 'b', 673);
    assert(s_double.take(5) =~= s_double.take(4).push('l'));
    serial_sum_step(s_double.take(5), s_double.take(4), 'l', 1065);
    assert(s_double.take(6) =~= s_double.take(5).push('e'));
    serial_sum_step(s_double.take(6), s_double.take(5), 'e', 1605);
    assert(s_double.take(6) =~= s_double);
    assert(crate::proto::entries::serial_sum(s_double) == 2211);
    let s_string = "string"@;
    assert(s_string.take(0) =~= Seq::<char>::empty());
    assert(s_string.take(1) =~= s_string.take(0).push('s'));
    serial_sum_step(s_string.take(1), s_string.take(0), 's', 0);
    assert(s_string.take(2) =~= s_string.take(1).push('t'));
    serial_sum_step(s_string.take(2), s_string.take(1), 't', 115);
    assert(s_string.take(3) =~= s_string.take(2).push('r'));
    serial_sum_step(s_string.take(3), s_string.take(2), 'r', 347);
    assert(s_string.take(4) =~= s_string.take(3).push('i'));
    serial_sum_step(s_string.take(4), s_string.take(3), 'i', 689);
    assert(s_string.take(5) =~= s_string.take(4).push('n'));
    serial_sum_step(s_string.take(5), s_string.take(4), 'n', 1109);
    assert(s_string.take(6) =~= s_string.take(5).push('g'));
    serial_sum_step(s_string.take(6), s_string.take(5), 'g', 1659);
    assert(s_string.take(6) =~= s_string);
    assert(crate::proto::entries::serial_sum(s_string) == 2277);
    let s_boolean_arr = "boolean[]"@;
    assert(s_boolean_arr.take(0) =~= Seq::<char>::empty());
    assert(s_boolean_arr.take(1) =~= s_boolean_arr.take(0).push('b'));
    serial_sum_step(s_boolean_arr.take(1), s_boolean_arr.take(0), 'b', 0);
    assert(s_boolean_arr.take(2) =~= s_boolean_arr.take(1).push('o'));
    serial_sum_step(s_boolean_arr.take(2), s_boolean_arr.take(1), 'o', 98);
    assert(s_boolean_arr.take(3) =~= s_boolean_arr.take(2).push('o'));
    serial_sum_step(s_boolean_arr.take(3), s_boolean_arr.take(2), 'o', 320);
    assert(s_boolean_arr.take(4) =~= s_boolean_arr.take(3).push('l'));
    serial_sum_step(s_boolean_arr.take(4), s_boolean_arr.take(3), 'l', 653);
    assert(s_boolean_arr.take(5) =~= s_boolean_arr.take(4).push('e'));
    serial_sum_step(s_boolean_arr.take(5), s_boolean_arr.take(4), 'e', 1085);
    assert(s_boolean_arr.take(6) =~= s_boolean_arr.take(5).push('a'));
    serial_sum_step(s_boolean_arr.take(6), s_boolean_arr.take(5), 'a', 1590);
    assert(s_boolean_arr.take(7) =~= s_boolean_arr.take(6).push('n'));
    serial_sum_step(s_boolean_arr.take(7), s_boolean_arr.take(6), 'n', 2172);
    assert(s_boolean_arr.take(8) =~= s_boolean_arr.take(7).push('['));
    serial_sum_step(s_boolean_arr.take(8), s_boolean_arr.take(7), '[', 2942);
    assert(s_boolean_arr.take(9) =~= s_boolean_arr.take(8).push(']'));
    serial_sum_step(s_boolean_arr.take(9), s_boolean_arr.take(8), ']', 2942);
    assert(s_boolean_arr.take(9) =~= s_boolean_arr);
    assert(crate::proto::entries::serial_sum(s_boolean_arr) == 3035);
    let s_int64_arr = "int64[]"@;
    assert(s_int64_arr.take(0) =~= Seq::<char>::empty());
    assert(s_int64_arr.take(1) =~= s_int64_arr.take(0).push('i'));
    serial_sum_step(s_int64_arr.take(1), s_int64_arr.take(0), 'i', 0);
    assert(s_int64_arr.take(2) =~= s_int64_arr.take(1).push('n'));
    serial_sum_step(s_int64_arr.take(2), s_int64_arr.take(1), 'n', 105);
    assert(s_int64_arr.take(3) =~= s_int64_arr.take(2).push('t'));
    serial_sum_step(s_int64_arr.take(3), s_int64_arr.take(2), 't', 325);
    assert(s_int64_arr.take(4) =~= s_int64_arr.take(3).push('6'));
    serial_sum_step(s_int64_arr.take(4), s_int64_arr.take(3), '6', 673);
    assert(s_int64_arr.take(5) =~= s_int64_arr.take(4).push('4'));
    serial_sum_step(s_int64_arr.take(5), s_int64_arr.take(4), '4', 889);
    assert(s_int64_arr.take(6) =~= s_int64_arr.take(5).push('['));
    serial_sum_step(s_int64_arr.take(6), s_int64_arr.take(5), '[', 1149);
    assert(s_int64_arr.take(7) =~= s_int64_arr.take(6).push(']'));
    serial_sum_step(s_int64_arr.take(7), s_int64_arr.take(6), ']', 1695);
    assert(s_int64_arr.take(7) =~= s_int64_arr);
    assert(crate::proto::entries::serial_sum(s_int64_arr) == 2346);
    let s_float_arr = "float[]"@;
    assert(s_float_arr.take(0) =~= Seq::<char>::empty());
    assert(s_float_arr.take(1) =~= s_float_arr.take(0).push('f'));
    serial_sum_step(s_float_arr.take(1), s_float_arr.take(0), 'f', 0);
    assert(s_float_arr.take(2) =~= s_float_arr.take(1).push('l'));
    serial_sum_step(s_float_arr.take(2), s_float_arr.take(1), 'l', 102);
    assert(s_float_arr.take(3) =~= s_float_arr.take(2).push('o'));
    serial_sum_step(s_float_arr.take(3), s_float_arr.take(2), 'o', 318);
    assert(s_float_arr.take(4) =~= s_float_arr.take(3).push('a'));
    serial_sum_step(s_float_arr.take(4), s_float_arr.take(3), 'a', 651);
    assert(s_float_arr.take(5) =~= s_float_arr.take(4).push('t'));
    serial_sum_step(s_float_arr.take(5), s_float_arr.take(4), 't', 1039);
    assert(s_float_arr.take(6) =~= s_float_arr.take(5).push('['));
    serial_sum_step(s_float_arr.take(6), s_float_arr.take(5), '[', 1619);
    assert(s_float_arr.take(7) =~= s_float_arr.take(6).push(']'));
    serial_sum_step(s_float_arr.take(7), s_float_arr.take(6), ']', 2165);
    assert(s_float_arr.take(7) =~= s_float_arr);
    assert(crate::proto::entries::serial_sum(s_float_arr) == 2816);
    let s_double_arr = "double[]"@;
    assert(s_double_arr.take(0) =~= Seq::<char>::empty());
    assert(s_double_arr.take(1) =~= s_double_arr.take(0).push('d'));
    serial_sum_step(s_double_arr.take(1), s_double_arr.take(0), 'd', 0);
    assert(s_double_arr.take(2) =~= s_double_arr.take(1).push('o'));
    serial_sum_step(s_double_arr.take(2), s_double_arr.take(1), 'o', 100);
    assert(s_double_arr.take(3) =~= s_double_arr.take(2).push('u'));
    serial_sum_step(s_double_arr.take(3), s_double_arr.take(2), 'u', 322);
    assert(s_double_arr.take(4) =~= s_double_arr.take(3).push('b'));
    serial_sum_step(s_double_arr.take(4), s_double_arr.take(3), 'b', 673);
    assert(s_double_arr.take(5) =~= s_double_arr.take(4).push('l'));
    serial_sum_step(s_double_arr.take(5), s_double_arr.take(4), 'l', 1065);
    assert(s_double_arr.take(6) =~= s_double_arr.take(5).push('e'));
    serial_sum_step(s_double_arr.take(6), s_double_arr.take(5), 'e', 1605);
    assert(s_double_arr.take(7) =~= s_double_arr.take(6).push('['));
    serial_sum_step(s_double_arr.take(7), s_double_arr.take(6), '[', 2211);
    assert(s_double_arr.take(8) =~= s_double_arr.take(7).push(']'));
    serial_sum_step(s_double_arr.take(8), s_double_arr.take(7), ']', 2848);
    assert(s_double_arr.take(8) =~= s_double_arr);
    assert(crate::proto::entries::serial_sum(s_double_arr) == 2848);
    let s_string_arr = "string[]"@;
    assert(s_string_arr.take(0) =~= Seq::<char>::empty());
    assert(s_string_arr.take(1) =~= s_string_arr.take(0).push('s'));
    serial_sum_step(s_string_arr.take(1), s_string_arr.take(0), 's', 0);
    assert(s_string_arr.take(2) =~= s_string_arr.take(1).push('t'));
    serial_sum_step(s_string_arr.take(2), s_string_arr.take(1), 't', 115);
    assert(s_string_arr.take(3) =~= s_string_arr.take(2).push('r'));
    serial_sum_step(s_string_arr.take(3), s_string_arr.take(2), 'r', 347);
    assert(s_string_arr.take(4) =~= s_string_arr.take(3).push('i'));
    serial_sum_step(s_string_arr.take(4), s_string_arr.take(3), 'i', 689);
    assert(s_string_arr.take(5) =~= s_string_arr.take(4).push('n'));
    serial_sum_step(s_string_arr.take(5), s_string_arr.take(4), 'n', 1109);
    assert(s_string_arr.take(6) =~= s_string_arr.take(5).push('g'));
    serial_sum_step(s_string_arr.take(6), s_string_arr.take(5), 'g', 1659);
    assert(s_string_arr.take(7) =~= s_string_arr.take(6).push('['));
    serial_sum_step(s_string_arr.take(7), s_string_arr.take(6), '[', 2277);
    assert(s_string_arr.take(8) =~= s_string_arr.take(7).push(']'));
    serial_sum_step(s_string_arr.take(8), s_string_arr.take(7), ']', 2914);
    assert(s_string_arr.take(8) =~= s_string_arr);
    assert(crate::proto::entries::serial_sum(s_string_arr) == 2914);
}

/// A data value's type string fingerprints to its serial, and that serial
/// is a supported one.
pub proof fn lemma_serial_of_type_str(v: DataRecordView)
    ensures
        spec_type_serial(spec_data_type_str(v)) == spec_data_serial(v),
        spec_is_supported_serial(spec_data_serial(v)),
{
    lemma_primitive_type_serials();
}


/// One accumulation step of the fingerprint sum.
proof fn serial_sum_step(s: Seq<char>, prefix: Seq<char>, c: char, acc: nat)
    requires
        s =~= prefix.push(c),
        crate::proto::entries::serial_sum(prefix) == acc,
    ensures
        crate::proto::entries::serial_sum(s) == (acc + (c as nat) * (s.len() % 8))
            % crate::proto::entries::serial_modulus(),
{
    assert(s.drop_last() =~= prefix);
    assert(s.last() == c);
}


// ---------------------------------------------------------------------------
// Frames parse back to their parts
// ---------------------------------------------------------------------------
/// Reading `n` little-endian bytes of a value that fits them gives the
/// value back exactly.
pub proof fn lemma_le_roundtrip_exact(x: u64, n: nat)
    requires
        n <= 8,
        (x as nat) < pow2(8 * n),
    ensures
        le_val(le_bytes(x as nat, n)) == x,
{
    lemma_le_val_le_bytes(x as nat, n);
    vstd::arithmetic::div_mod::lemma_small_mod(x as nat, pow2(8 * n));
}

/// The bytes of a frame split back into the bitfield byte, the three
/// header fields and the payload.
pub proof fn lemma_frame_parts(id: u32, ts: u64, payload: Seq<u8>)
    requires
        payload.len() <= u32::MAX,
    ensures
        ({
            let b = spec_frame(id, ts, payload);
            let iw = byte_width(id as u64);
            let pw = byte_width(payload.len() as u64);
            let tw = byte_width(ts);
            &&& b.len() == 1 + iw + pw + tw + payload.len()
            &&& spec_id_len(b[0]) == iw
            &&& spec_payload_len_len(b[0]) == pw
            &&& spec_ts_len(b[0]) == tw
            &&& b.subrange(1, 1 + iw as int) =~= le_bytes(id as nat, iw)
            &&& b.subrange(1 + iw as int, 1 + iw as int + pw as int) =~= le_bytes(
                payload.len() as nat,
                pw,
            )
            &&& b.subrange(
                1 + iw as int + pw as int,
                1 + iw as int + pw as int + tw as int,
            ) =~= le_bytes(ts as nat, tw)
            &&& b.skip(1 + iw as int + pw as int + tw as int) =~= payload
        }),
{
    let b = spec_frame(id, ts, payload);
    let iw = byte_width(id as u64);
    let pw = byte_width(payload.len() as u64);
    let tw = byte_width(ts);
    lemma_byte_width(id as u64);
    lemma_byte_width(payload.len() as u64);
    lemma_byte_width(ts);
    lemma2_to64();
    assert(pw <= 4);
    lemma_bitfield_roundtrip(iw, pw, tw);
    lemma_le_bytes_len(id as nat, iw);
    lemma_le_bytes_len(payload.len() as nat, pw);
    lemma_le_bytes_len(ts as nat, tw);
    assert(b[0] == spec_bitfield(iw, pw, tw));
}

/// Parsing a frame yields its payload under the right dispatch: entry id 0
/// goes to the control grammar, any other id to the data grammar under the
/// type map's effective serial.
pub proof fn lemma_parse_spec_frame(id: u32, ts: u64, payload: Seq<u8>, tmap: Map<u32, u32>)
    requires
        payload.len() <= u32::MAX,
    ensures
        id != 0 ==> spec_parse_record(spec_frame(id, ts, payload), tmap) == (match spec_parse_data(
            payload,
            spec_effective_serial(id, tmap),
        ) {
            Some(d) => Some(RecordView::Data(d, ts, id)),
            None => None,
        }),
        id == 0 ==> spec_parse_record(spec_frame(id, ts, payload), tmap) == (
        match spec_parse_control(payload) {
            Some(p) => Some(RecordView::Control(p.0, ts, p.1)),
            None => None,
        }),
{
    let b = spec_frame(id, ts, payload);
    let iw = byte_width(id as u64);
    let pw = byte_width(payload.len() as u64);
    let tw = byte_width(ts);
    lemma_frame_parts(id, ts, payload);
    lemma_byte_width(id as u64);
    lemma_byte_width(ts);
    lemma_le_roundtrip_exact(id as u64, iw);
    lemma_le_roundtrip_exact(ts, tw);
    assert(le_val(b.subrange(1, 1 + iw as int)) == id);
    assert(le_val(
        b.subrange(1 + iw as int + pw as int, 1 + iw as int + pw as int + tw as int),
    ) == ts);
}

// ---------------------------------------------------------------------------
// Payload round trips
// ---------------------------------------------------------------------------
pub proof fn lemma_int_array_roundtrip(v: Seq<i64>)
    ensures
        parse_i64s(int_array_bytes(v)) == v,
    decreases v.len(),
{
    lemma_int_array_bytes_len(v);
    if v.len() == 0 {
        assert(parse_i64s(int_array_bytes(v)) =~= v);
    } else {
        let bits = i64_bits(v[0]);
        let b = int_array_bytes(v);
        lemma_le_bytes_len(bits as nat, 8);
        lemma_int_array_bytes_len(v.drop_first());
        assert(b.take(8) =~= le_bytes(bits as nat, 8));
        assert(b.skip(8) =~= int_array_bytes(v.drop_first()));
        lemma2_to64_rest();
        lemma_le_roundtrip_exact(bits, 8);
        lemma_int_array_roundtrip(v.drop_first());
        assert(parse_i64s(b) =~= seq![v[0]] + v.drop_first());
        assert(seq![v[0]] + v.drop_first() =~= v);
    }
}

pub proof fn lemma_float_array_roundtrip(v: Seq<u32>)
    ensures
        parse_u32s(float_array_bytes(v)) == v,
    decreases v.len(),
{
    lemma_float_array_bytes_len(v);
    if v.len() == 0 {
        assert(parse_u32s(float_array_bytes(v)) =~= v);
    } else {
        let b = float_array_bytes(v);
        lemma_le_bytes_len(v[0] as nat, 4);
        lemma_float_array_bytes_len(v.drop_first());
        assert(b.take(4) =~= le_bytes(v[0] as nat, 4));
        assert(b.skip(4) =~= float_array_bytes(v.drop_first()));
        lemma2_to64();
        lemma_le_roundtrip_exact(v[0] as u64, 4);
        lemma_float_array_roundtrip(v.drop_first());
        assert(parse_u32s(b) =~= seq![v[0]] + v.drop_first());
        assert(seq![v[0]] + v.drop_first() =~= v);
    }
}

pub proof fn lemma_double_array_roundtrip(v: Seq<u64>)
    ensures
        parse_u64s(double_array_bytes(v)) == v,
    decreases v.len(),
{
    lemma_double_array_bytes_len(v);
    if v.len() == 0 {
        assert(parse_u64s(double_array_bytes(v)) =~= v);
    } else {
        let b = double_array_bytes(v);
        lemma_le_bytes_len(v[0] as nat, 8);
        lemma_double_array_bytes_len(v.drop_first());
        assert(b.take(8) =~= le_bytes(v[0] as nat, 8));
        assert(b.skip(8) =~= double_array_bytes(v.drop_first()));
        lemma2_to64_rest();
        lemma_le_roundtrip_exact(v[0], 8);
        lemma_double_array_roundtrip(v.drop_first());
        assert(parse_u64s(b) =~= seq![v[0]] + v.drop_first());
        assert(seq![v[0]] + v.drop_first() =~= v);
    }
}

pub proof fn lemma_string_array_roundtrip(v: Seq<Seq<char>>)
    requires
        string_array_bytes(v).len() <= u32::MAX,
    ensures
        parse_strs(string_array_bytes(v)) == Some(v),
    decreases v.len(),
{
    lemma_string_array_bytes_len(v);
    let b = string_array_bytes(v);
    if v.len() == 0 {
        assert(parse_strs(b) == Some(Seq::<Seq<char>>::empty()));
        assert(Seq::<Seq<char>>::empty() =~= v);
    } else {
        let e = encode_utf8(v[0]);
        let l = e.len();
        lemma_le_bytes_len(l, 4);
        assert(b.len() == 4 + l + string_array_bytes(v.drop_first()).len());
        assert(l <= u32::MAX);
        assert(b.take(4) =~= le_bytes(l, 4));
        lemma2_to64();
        lemma_le_roundtrip_exact(l as u64, 4);
        assert(le_val(b.take(4)) == l);
        assert(b.subrange(4, 4 + l as int) =~= e);
        encode_utf8_valid_utf8(v[0]);
        encode_utf8_decode_utf8(v[0]);
        assert(b.skip(4 + l as int) =~= string_array_bytes(v.drop_first()));
        lemma_string_array_roundtrip(v.drop_first());
        assert(parse_strs(b) == Some(seq![v[0]] + v.drop_first()));
        assert(seq![v[0]] + v.drop_first() =~= v);
    }
}

/// Round trip for every data payload: parsing the payload bytes of a value
/// under the value's own serial gives the value back.
pub proof fn lemma_data_payload_roundtrip(v: DataRecordView)
    requires
        1 <= spec_data_payload(v).len() <= u32::MAX,
    ensures
        spec_parse_data(spec_data_payload(v), spec_data_serial(v)) == Some(v),
{
    let b = spec_data_payload(v);
    match v {
        DataRecordView::Raw(_) => {},
        DataRecordView::Boolean(x) => {
            assert(b[0] == bool_byte(x));
        },
        DataRecordView::Integer(x) => {
            lemma_le_bytes_len(i64_bits(x) as nat, 8);
            assert(b.take(8) =~= b);
            lemma2_to64_rest();
            lemma_le_roundtrip_exact(i64_bits(x), 8);
        },
        DataRecordView::Float(x) => {
            lemma_le_bytes_len(x as nat, 4);
            assert(b.take(4) =~= b);
            lemma2_to64();
            lemma_le_roundtrip_exact(x as u64, 4);
        },
        DataRecordView::Double(x) => {
            lemma_le_bytes_len(x as nat, 8);
            assert(b.take(8) =~= b);
            lemma2_to64_rest();
            lemma_le_roundtrip_exact(x, 8);
        },
        DataRecordView::Str(s) => {
            encode_utf8_valid_utf8(s);
            encode_utf8_decode_utf8(s);
        },
        DataRecordView::BooleanArray(bs) => {
            assert(b.map_values(|x: u8| x != 0) =~= bs);
        },
        DataRecordView::IntegerArray(is) => {
            lemma_int_array_roundtrip(is);
        },
        DataRecordView::FloatArray(fs) => {
            lemma_float_array_roundtrip(fs);
        },
        DataRecordView::DoubleArray(ds) => {
            lemma_double_array_roundtrip(ds);
        },
        DataRecordView::StringArray(ss) => {
            lemma_string_array_roundtrip(ss);
        },
    }
}

// ---------------------------------------------------------------------------
// Record round trips
// ---------------------------------------------------------------------------
/// Round trip for data records: the framed bytes of a data record, decoded
/// under a type map that binds its entry id to the fingerprint of its type
/// string, yield the same value, timestamp and entry id.  The payload must
/// be non-empty (an empty payload is dropped by the decoder) and fit a
/// 32-bit length field.
pub proof fn lemma_data_record_roundtrip(v: DataRecordView, ts: u64, id: u32, tmap: Map<u32, u32>)
    requires
        id >= 1,
        1 <= spec_data_payload(v).len() <= u32::MAX,
        tmap.contains_key(id),
        tmap[id] == spec_type_serial(spec_data_type_str(v)),
    ensures
        spec_parse_record(spec_record_bytes(RecordView::Data(v, ts, id)), tmap) == Some(
            RecordView::Data(v, ts, id),
        ),
{
    lemma_serial_of_type_str(v);
    lemma_parse_spec_frame(id, ts, spec_data_payload(v), tmap);
    lemma_data_payload_roundtrip(v);
}

/// Taking one length-prefixed string off its own encoding gives the string
/// and the rest back.
pub proof fn lemma_take_lp_str(s: Seq<char>, rest: Seq<u8>)
    requires
        encode_utf8(s).len() <= u32::MAX,
    ensures
        spec_take_lp_str(le_bytes(encode_utf8(s).len(), 4) + encode_utf8(s) + rest) == Some(
            (s, rest),
        ),
{
    let e = encode_utf8(s);
    let l = e.len();
    let b = le_bytes(l, 4) + e + rest;
    lemma_le_bytes_len(l, 4);
    assert(b.take(4) =~= le_bytes(l, 4));
    lemma2_to64();
    lemma_le_roundtrip_exact(l as u64, 4);
    assert(le_val(b.take(4)) == l);
    assert(b.subrange(4, 4 + l as int) =~= e);
    encode_utf8_valid_utf8(s);
    encode_utf8_decode_utf8(s);
    assert(b.skip(4 + l as int) =~= rest);
}

/// Round trip for control payloads: parsing the payload bytes of a control
/// body gives the body and its logical entry id back.
pub proof fn lemma_control_payload_roundtrip(c: ControlRecordView, id: u32)
    requires
        crate::proto::records::spec_control_strings_fit(c),
    ensures
        spec_parse_control(spec_control_payload(c, id)) == Some((c, id)),
{
    let b = spec_control_payload(c, id);
    lemma_le_bytes_len(id as nat, 4);
    lemma2_to64();
    match c {
        ControlRecordView::Start(n, t, m) => {
            let en = encode_utf8(n);
            let et = encode_utf8(t);
            let em = encode_utf8(m);
            lemma_le_bytes_len(en.len(), 4);
            lemma_le_bytes_len(et.len(), 4);
            lemma_le_bytes_len(em.len(), 4);
            assert(b.len() >= 5);
            assert(b[0] == 0u8);
            assert(b.subrange(1, 5) =~= le_bytes(id as nat, 4));
            lemma_le_roundtrip_exact(id as u64, 4);
            let rest = b.skip(5);
            let r1 = le_bytes(et.len(), 4) + et + (le_bytes(em.len(), 4) + em);
            let r2 = le_bytes(em.len(), 4) + em;
            assert(rest =~= le_bytes(en.len(), 4) + en + r1);
            lemma_take_lp_str(n, r1);
            assert(r1 =~= le_bytes(et.len(), 4) + et + r2);
            lemma_take_lp_str(t, r2);
            assert(r2 =~= le_bytes(em.len(), 4) + em + Seq::<u8>::empty());
            lemma_take_lp_str(m, Seq::<u8>::empty());
        },
        ControlRecordView::Finish => {
            assert(b.len() == 5);
            assert(b[0] == 1u8);
            assert(b.subrange(1, 5) =~= le_bytes(id as nat, 4));
            lemma_le_roundtrip_exact(id as u64, 4);
        },
        ControlRecordView::Metadata(m) => {
            let em = encode_utf8(m);
            lemma_le_bytes_len(em.len(), 4);
            assert(b.len() >= 5);
            assert(b[0] == 2u8);
            assert(b.subrange(1, 5) =~= le_bytes(id as nat, 4));
            lemma_le_roundtrip_exact(id as u64, 4);
            let rest = b.skip(5);
            assert(rest.take(4) =~= le_bytes(em.len(), 4));
            lemma_le_roundtrip_exact(em.len() as u64, 4);
            assert(le_val(rest.take(4)) == em.len());
            assert(rest.len() - 4 == em.len());
            assert(rest.skip(4) =~= em);
            encode_utf8_valid_utf8(m);
            encode_utf8_decode_utf8(m);
        },
    }
}

/// Round trip for control records: the framed bytes of a control record,
/// decoded under any type map, yield the same body, timestamp and logical
/// entry id.
pub proof fn lemma_control_record_roundtrip(
    c: ControlRecordView,
    ts: u64,
    id: u32,
    tmap: Map<u32, u32>,
)
    requires
        crate::proto::records::spec_control_strings_fit(c),
        spec_control_payload(c, id).len() <= u32::MAX,
    ensures
        spec_parse_record(spec_record_bytes(RecordView::Control(c, ts, id)), tmap) == Some(
            RecordView::Control(c, ts, id),
        ),
{
    lemma_parse_spec_frame(0, ts, spec_control_payload(c, id), tmap);
    lemma_control_payload_roundtrip(c, id);
}

/// The framed length of a record is one bitfield byte, the three shrunk
/// header widths, and the payload length; a control record's entry-id
/// field always has width 1.
pub proof fn lemma_encoded_record_length(rv: RecordView)
    ensures
        rv matches RecordView::Data(v, ts, id) ==> spec_record_bytes(rv).len() == 1 + byte_width(
            id as u64,
        ) + byte_width(spec_data_payload(v).len() as u64) + byte_width(ts) + spec_data_payload(
            v,
        ).len(),
        rv matches RecordView::Control(c, ts, id) ==> spec_record_bytes(rv).len() == 1 + 1
            + byte_width(spec_control_payload(c, id).len() as u64) + byte_width(ts)
            + spec_control_payload(c, id).len(),
{
    match rv {
        RecordView::Data(v, ts, id) => {
            lemma_frame_len(id, ts, spec_data_payload(v));
        },
        RecordView::Control(c, ts, id) => {
            lemma_frame_len(0, ts, spec_control_payload(c, id));
        },
    }
}


// ---------------------------------------------------------------------------
// Chunking: concatenation and truncation
// ---------------------------------------------------------------------------
/// A full frame at the head of a stream is cut off as one chunk, whatever
/// follows it.
pub proof fn lemma_chunks_of_frame_concat(id: u32, ts: u64, payload: Seq<u8>, rest: Seq<u8>)
    requires
        payload.len() <= u32::MAX,
    ensures
        spec_chunks(spec_frame(id, ts, payload) + rest) == seq![spec_frame(id, ts, payload)]
            + spec_chunks(rest),
{
    let enc = spec_frame(id, ts, payload);
    let b = enc + rest;
    let iw = byte_width(id as u64);
    let pw = byte_width(payload.len() as u64);
    let tw = byte_width(ts);
    lemma_frame_parts(id, ts, payload);
    assert(b[0] == enc[0]);
    let hl = 1 + spec_header_len(b[0]);
    assert(hl == 1 + iw + pw + tw);
    assert(b.len() >= hl);
    assert(b.subrange(1 + iw as int, 1 + iw as int + pw as int) =~= enc.subrange(
        1 + iw as int,
        1 + iw as int + pw as int,
    ));
    lemma_byte_width(payload.len() as u64);
    lemma2_to64();
    lemma_le_roundtrip_exact(payload.len() as u64, pw);
    let psize = le_val(b.subrange(1 + iw as int, 1 + iw as int + pw as int));
    assert(psize == payload.len());
    assert(hl + psize == enc.len());
    assert(b.take(enc.len() as int) =~= enc);
    assert(b.skip(enc.len() as int) =~= rest);
}

/// The frame entry id of a record: the record's own id for data, 0 for
/// control.
pub open spec fn frame_id_of(rv: RecordView) -> u32 {
    match rv {
        RecordView::Data(_, _, id) => id,
        RecordView::Control(_, _, _) => 0,
    }
}

/// The timestamp of a record.
pub open spec fn ts_of(rv: RecordView) -> u64 {
    match rv {
        RecordView::Data(_, ts, _) => ts,
        RecordView::Control(_, ts, _) => ts,
    }
}

/// The payload bytes of a record.
pub open spec fn payload_of(rv: RecordView) -> Seq<u8> {
    match rv {
        RecordView::Data(v, _, _) => spec_data_payload(v),
        RecordView::Control(c, _, id) => spec_control_payload(c, id),
    }
}

/// A record's bytes are the frame over its payload.
pub proof fn lemma_record_bytes_is_frame(rv: RecordView)
    ensures
        spec_record_bytes(rv) == spec_frame(frame_id_of(rv), ts_of(rv), payload_of(rv)),
{
}

/// A full record at the head of a stream is cut off as one chunk,
/// whatever follows it.
pub proof fn lemma_chunks_of_record_concat(rv: RecordView, rest: Seq<u8>)
    requires
        spec_record_encodable(rv),
    ensures
        spec_chunks(spec_record_bytes(rv) + rest) == seq![spec_record_bytes(rv)] + spec_chunks(
            rest,
        ),
{
    lemma_record_bytes_is_frame(rv);
    lemma_chunks_of_frame_concat(frame_id_of(rv), ts_of(rv), payload_of(rv), rest);
}

/// One encoded record chunks to itself alone.
pub proof fn lemma_chunks_of_record(rv: RecordView)
    requires
        spec_record_encodable(rv),
    ensures
        spec_chunks(spec_record_bytes(rv)) == seq![spec_record_bytes(rv)],
{
    let enc = spec_record_bytes(rv);
    assert(enc + Seq::<u8>::empty() =~= enc);
    lemma_chunks_of_record_concat(rv, Seq::empty());
    assert(spec_chunks(Seq::<u8>::empty()) =~= Seq::<Seq<u8>>::empty());
    assert(seq![enc] + Seq::<Seq<u8>>::empty() =~= seq![enc]);
}

/// Parsing a two-chunk stream whose chunks parse to `rv1` and `rv2` yields
/// exactly those records.
proof fn lemma_parse_stream_two(c1: Seq<u8>, c2: Seq<u8>, rv1: RecordView, rv2: RecordView, tmap: Map<u32, u32>)
    requires
        spec_parse_record(c1, tmap) == Some(rv1),
        spec_parse_record(c2, crate::proto::records::spec_update_type_map(tmap, rv1)) == Some(rv2),
    ensures
        crate::proto::records::spec_parse_stream(seq![c1, c2], tmap).0 == seq![rv1, rv2],
{
    reveal_with_fuel(crate::proto::records::spec_parse_stream, 3);
    let chunks = seq![c1, c2];
    let t2 = crate::proto::records::spec_update_type_map(tmap, rv1);
    assert(chunks[0] == c1);
    assert(seq![c2][0] == c2);
    assert(chunks.drop_first() =~= seq![c2]);
    assert(seq![c2].drop_first() =~= Seq::<Seq<u8>>::empty());
    assert(crate::proto::records::spec_parse_stream(seq![c2], t2).0 =~= seq![rv2] + Seq::<
        RecordView,
    >::empty());
    assert(crate::proto::records::spec_parse_stream(chunks, tmap).0 =~= seq![rv1, rv2]);
}

/// Concatenating two encodings and chunking-then-parsing the result yields
/// both records, in order; the first record's `Start` binding, if any, is
/// in force when the second is parsed.
pub proof fn lemma_concat_two_records(rv1: RecordView, rv2: RecordView, tmap: Map<u32, u32>)
    requires
        spec_record_encodable(rv1),
        spec_record_encodable(rv2),
        spec_parse_record(spec_record_bytes(rv1), tmap) == Some(rv1),
        spec_parse_record(
            spec_record_bytes(rv2),
            crate::proto::records::spec_update_type_map(tmap, rv1),
        ) == Some(rv2),
    ensures
        crate::proto::records::spec_parse_stream(
            spec_chunks(spec_record_bytes(rv1) + spec_record_bytes(rv2)),
            tmap,
        ).0 == seq![rv1, rv2],
{
    let enc1 = spec_record_bytes(rv1);
    let enc2 = spec_record_bytes(rv2);
    lemma_chunks_of_record_concat(rv1, enc2);
    lemma_chunks_of_record(rv2);
    assert(spec_chunks(enc1 + enc2) =~= seq![enc1, enc2]);
    lemma_parse_stream_two(enc1, enc2, rv1, rv2, tmap);
}

/// Truncating a stream behind a frame: a cut inside the first frame leaves
/// no chunk at all, and a cut at or past its end keeps it whole and
/// truncates only what follows.  Applied inductively, any truncation of a
/// valid stream chunks to exactly its complete leading frames.
pub proof fn lemma_truncated_frame(id: u32, ts: u64, payload: Seq<u8>, rest: Seq<u8>, k: int)
    requires
        payload.len() <= u32::MAX,
        0 <= k <= spec_frame(id, ts, payload).len() + rest.len(),
    ensures
        k < spec_frame(id, ts, payload).len() ==> spec_chunks(
            (spec_frame(id, ts, payload) + rest).take(k),
        ) == Seq::<Seq<u8>>::empty(),
        k >= spec_frame(id, ts, payload).len() ==> spec_chunks(
            (spec_frame(id, ts, payload) + rest).take(k),
        ) == seq![spec_frame(id, ts, payload)] + spec_chunks(
            rest.take(k - spec_frame(id, ts, payload).len()),
        ),
{
    let enc = spec_frame(id, ts, payload);
    let iw = byte_width(id as u64);
    let pw = byte_width(payload.len() as u64);
    let tw = byte_width(ts);
    lemma_frame_parts(id, ts, payload);
    if k >= enc.len() {
        assert((enc + rest).take(k) =~= enc + rest.take(k - enc.len() as int));
        lemma_chunks_of_frame_concat(id, ts, payload, rest.take(k - enc.len() as int));
    } else {
        let b = (enc + rest).take(k);
        if k == 0 {
            assert(spec_chunks(b) =~= Seq::<Seq<u8>>::empty());
        } else {
            assert(b[0] == enc[0]);
            let hl = 1 + spec_header_len(b[0]);
            assert(hl == 1 + iw + pw + tw);
            if b.len() < hl {
                assert(spec_chunks(b) =~= Seq::<Seq<u8>>::empty());
            } else {
                assert(b.subrange(1 + iw as int, 1 + iw as int + pw as int) =~= enc.subrange(
                    1 + iw as int,
                    1 + iw as int + pw as int,
                ));
                lemma_byte_width(payload.len() as u64);
                lemma2_to64();
                lemma_le_roundtrip_exact(payload.len() as u64, pw);
                let psize = le_val(b.subrange(1 + iw as int, 1 + iw as int + pw as int));
                assert(psize == payload.len());
                assert(hl + psize == enc.len());
                assert(b.len() < hl + psize);
                assert(spec_chunks(b) =~= Seq::<Seq<u8>>::empty());
            }
        }
    }
}


// ---------------------------------------------------------------------------
// Whole streams: concatenation, truncation, dropped records
// ---------------------------------------------------------------------------
/// The bytes of a record stream: each record's framed encoding, in order.
pub open spec fn spec_stream_bytes(rs: Seq<RecordView>) -> Seq<u8>
    decreases rs.len(),
{
    if rs.len() == 0 {
        Seq::empty()
    } else {
        spec_record_bytes(rs[0]) + spec_stream_bytes(rs.drop_first())
    }
}

/// The chunks of a record stream: each record's encoding as one chunk.
pub open spec fn spec_stream_chunks(rs: Seq<RecordView>) -> Seq<Seq<u8>>
    decreases rs.len(),
{
    if rs.len() == 0 {
        Seq::empty()
    } else {
        seq![spec_record_bytes(rs[0])] + spec_stream_chunks(rs.drop_first())
    }
}

/// Every record of the stream can be framed.
pub open spec fn all_encodable(rs: Seq<RecordView>) -> bool {
    forall|i: int| 0 <= i < rs.len() ==> spec_record_encodable(#[trigger] rs[i])
}

/// Chunking a valid stream followed by anything cuts off exactly the
/// stream's records and then chunks the remainder.
pub proof fn lemma_chunks_of_stream_concat(rs: Seq<RecordView>, rest: Seq<u8>)
    requires
        all_encodable(rs),
    ensures
        spec_chunks(spec_stream_bytes(rs) + rest) == spec_stream_chunks(rs) + spec_chunks(rest),
    decreases rs.len(),
{
    if rs.len() == 0 {
        assert(spec_stream_bytes(rs) + rest =~= rest);
        assert(spec_stream_chunks(rs) + spec_chunks(rest) =~= spec_chunks(rest));
    } else {
        let head = spec_record_bytes(rs[0]);
        let tail = rs.drop_first();
        assert(all_encodable(tail)) by {
            assert(forall|i: int| 0 <= i < tail.len() ==> tail[i] == rs[i + 1]);
        }
        lemma_chunks_of_stream_concat(tail, rest);
        assert(spec_stream_bytes(rs) + rest =~= head + (spec_stream_bytes(tail) + rest));
        lemma_chunks_of_record_concat(rs[0], spec_stream_bytes(tail) + rest);
        assert(spec_stream_chunks(rs) + spec_chunks(rest) =~= seq![head] + (spec_stream_chunks(
            tail,
        ) + spec_chunks(rest)));
    }
}

/// A trailing fragment that holds no complete record is ignored: the
/// chunking of the stream with the fragment appended equals the clean
/// stream's, so the parsed records and everything built from them agree.
pub proof fn lemma_trailing_fragment_ignored(rs: Seq<RecordView>, junk: Seq<u8>)
    requires
        all_encodable(rs),
        spec_chunks(junk) == Seq::<Seq<u8>>::empty(),
    ensures
        spec_chunks(spec_stream_bytes(rs) + junk) == spec_chunks(spec_stream_bytes(rs)),
{
    lemma_chunks_of_stream_concat(rs, junk);
    lemma_chunks_of_stream_concat(rs, Seq::empty());
    assert(spec_stream_bytes(rs) + Seq::<u8>::empty() =~= spec_stream_bytes(rs));
    assert(spec_chunks(Seq::<u8>::empty()) =~= Seq::<Seq<u8>>::empty());
    assert(spec_stream_chunks(rs) + spec_chunks(junk) =~= spec_stream_chunks(rs) + Seq::<Seq<
        u8,
    >>::empty());
}

/// Cutting a stream behind one record: a cut inside the record leaves no
/// chunk, a cut at or past its end keeps it whole and truncates only what
/// follows.
pub proof fn lemma_truncated_record(rv: RecordView, rest: Seq<u8>, k: int)
    requires
        spec_record_encodable(rv),
        0 <= k <= spec_record_bytes(rv).len() + rest.len(),
    ensures
        k < spec_record_bytes(rv).len() ==> spec_chunks(
            (spec_record_bytes(rv) + rest).take(k),
        ) == Seq::<Seq<u8>>::empty(),
        k >= spec_record_bytes(rv).len() ==> spec_chunks(
            (spec_record_bytes(rv) + rest).take(k),
        ) == seq![spec_record_bytes(rv)] + spec_chunks(
            rest.take(k - spec_record_bytes(rv).len()),
        ),
{
    lemma_record_bytes_is_frame(rv);
    lemma_truncated_frame(frame_id_of(rv), ts_of(rv), payload_of(rv), rest, k);
}

/// The chunks of the records whose complete encodings lie within the
/// first `k` bytes of a stream.
pub open spec fn spec_chunks_within(rs: Seq<RecordView>, k: int) -> Seq<Seq<u8>>
    decreases rs.len(),
{
    if rs.len() == 0 || k < spec_record_bytes(rs[0]).len() {
        Seq::empty()
    } else {
        seq![spec_record_bytes(rs[0])] + spec_chunks_within(
            rs.drop_first(),
            k - spec_record_bytes(rs[0]).len(),
        )
    }
}

/// Truncating a valid stream anywhere chunks to exactly the records whose
/// complete encodings lie within the kept prefix; the trailing fragment is
/// discarded.
pub proof fn lemma_stream_truncation(rs: Seq<RecordView>, k: int)
    requires
        all_encodable(rs),
        0 <= k <= spec_stream_bytes(rs).len(),
    ensures
        spec_chunks(spec_stream_bytes(rs).take(k)) == spec_chunks_within(rs, k),
    decreases rs.len(),
{
    if rs.len() == 0 {
        assert(spec_stream_bytes(rs).take(k) =~= Seq::<u8>::empty());
        assert(spec_chunks(Seq::<u8>::empty()) =~= Seq::<Seq<u8>>::empty());
    } else {
        let head = spec_record_bytes(rs[0]);
        let tail = rs.drop_first();
        let rest = spec_stream_bytes(tail);
        assert(all_encodable(tail)) by {
            assert(forall|i: int| 0 <= i < tail.len() ==> tail[i] == rs[i + 1]);
        }
        assert(spec_stream_bytes(rs) =~= head + rest);
        lemma_truncated_record(rs[0], rest, k);
        assert(spec_stream_bytes(rs).take(k) =~= (head + rest).take(k));
        if k >= head.len() {
            lemma_stream_truncation(tail, k - head.len() as int);
        }
    }
}

/// The running type map after a stream of records.
pub open spec fn spec_stream_tmap(rs: Seq<RecordView>, tmap: Map<u32, u32>) -> Map<u32, u32>
    decreases rs.len(),
{
    if rs.len() == 0 {
        tmap
    } else {
        spec_stream_tmap(
            rs.drop_first(),
            crate::proto::records::spec_update_type_map(tmap, rs[0]),
        )
    }
}

/// Every record of the stream parses back from its own encoding, each
/// under the type map in force where it stands.
pub open spec fn all_parse_back(rs: Seq<RecordView>, tmap: Map<u32, u32>) -> bool
    decreases rs.len(),
{
    if rs.len() == 0 {
        true
    } else {
        &&& spec_parse_record(spec_record_bytes(rs[0]), tmap) == Some(rs[0])
        &&& all_parse_back(
            rs.drop_first(),
            crate::proto::records::spec_update_type_map(tmap, rs[0]),
        )
    }
}

/// The records whose complete encodings lie within the first `k` bytes of
/// a stream.
pub open spec fn spec_records_within(rs: Seq<RecordView>, k: int) -> Seq<RecordView>
    decreases rs.len(),
{
    if rs.len() == 0 || k < spec_record_bytes(rs[0]).len() {
        Seq::empty()
    } else {
        seq![rs[0]] + spec_records_within(rs.drop_first(), k - spec_record_bytes(rs[0]).len())
    }
}

/// Truncating a valid stream anywhere and parsing what remains yields
/// exactly the records whose complete encodings lie within the kept
/// prefix, in order; the trailing fragment is dropped without effect.
pub proof fn lemma_truncated_stream_parses(rs: Seq<RecordView>, k: int, tmap: Map<u32, u32>)
    requires
        all_encodable(rs),
        all_parse_back(rs, tmap),
        0 <= k <= spec_stream_bytes(rs).len(),
    ensures
        crate::proto::records::spec_parse_stream(
            spec_chunks(spec_stream_bytes(rs).take(k)),
            tmap,
        ).0 == spec_records_within(rs, k),
    decreases rs.len(),
{
    lemma_stream_truncation(rs, k);
    lemma_parse_of_chunks_within(rs, k, tmap);
}

/// Parsing the chunks of a stream prefix yields the prefix's records.
proof fn lemma_parse_of_chunks_within(rs: Seq<RecordView>, k: int, tmap: Map<u32, u32>)
    requires
        all_encodable(rs),
        all_parse_back(rs, tmap),
    ensures
        crate::proto::records::spec_parse_stream(spec_chunks_within(rs, k), tmap).0
            == spec_records_within(rs, k),
    decreases rs.len(),
{
    reveal_with_fuel(crate::proto::records::spec_parse_stream, 2);
    if rs.len() == 0 || k < spec_record_bytes(rs[0]).len() {
        assert(spec_chunks_within(rs, k) =~= Seq::<Seq<u8>>::empty());
        assert(spec_records_within(rs, k) =~= Seq::<RecordView>::empty());
    } else {
        let head = spec_record_bytes(rs[0]);
        let tail = rs.drop_first();
        let t2 = crate::proto::records::spec_update_type_map(tmap, rs[0]);
        assert(all_encodable(tail)) by {
            assert(forall|i: int| 0 <= i < tail.len() ==> tail[i] == rs[i + 1]);
        }
        lemma_parse_of_chunks_within(tail, k - head.len() as int, t2);
        let chunks = spec_chunks_within(rs, k);
        assert(chunks[0] == head);
        assert(chunks.drop_first() =~= spec_chunks_within(tail, k - head.len() as int));
        assert(crate::proto::records::spec_parse_stream(chunks, tmap).0 =~= spec_records_within(
            rs,
            k,
        ));
    }
}

/// Parsing a three-chunk stream whose middle chunk the grammar rejects
/// yields the first and last records alone; the rejected chunk leaves the
/// type map as it was.
proof fn lemma_parse_stream_skips_bad(
    c1: Seq<u8>,
    c2: Seq<u8>,
    c3: Seq<u8>,
    rv1: RecordView,
    rv2: RecordView,
    tmap: Map<u32, u32>,
)
    requires
        spec_parse_record(c1, tmap) == Some(rv1),
        spec_parse_record(c2, crate::proto::records::spec_update_type_map(tmap, rv1)) is None,
        spec_parse_record(c3, crate::proto::records::spec_update_type_map(tmap, rv1)) == Some(
            rv2,
        ),
    ensures
        crate::proto::records::spec_parse_stream(seq![c1, c2, c3], tmap).0 == seq![rv1, rv2],
{
    reveal_with_fuel(crate::proto::records::spec_parse_stream, 4);
    let chunks = seq![c1, c2, c3];
    let t2 = crate::proto::records::spec_update_type_map(tmap, rv1);
    assert(chunks[0] == c1);
    assert(chunks.drop_first() =~= seq![c2, c3]);
    assert(seq![c2, c3][0] == c2);
    assert(seq![c2, c3].drop_first() =~= seq![c3]);
    assert(seq![c3][0] == c3);
    assert(seq![c3].drop_first() =~= Seq::<Seq<u8>>::empty());
    assert(crate::proto::records::spec_parse_stream(seq![c3], t2).0 =~= seq![rv2] + Seq::<
        RecordView,
    >::empty());
    assert(crate::proto::records::spec_parse_stream(chunks, tmap).0 =~= seq![rv1, rv2]);
}

/// A record whose frame is complete but whose payload the grammar rejects
/// is dropped: the records before and after it are kept, in order, and
/// the type map the bad record saw stays in force for what follows.
#[verifier::spinoff_prover]
#[verifier::rlimit(100)]
pub proof fn lemma_bad_record_dropped(
    rv1: RecordView,
    bad_id: u32,
    bad_ts: u64,
    bad_payload: Seq<u8>,
    rv2: RecordView,
    tmap: Map<u32, u32>,
)
    requires
        spec_record_encodable(rv1),
        spec_record_encodable(rv2),
        bad_payload.len() <= u32::MAX,
        spec_parse_record(spec_record_bytes(rv1), tmap) == Some(rv1),
        spec_parse_record(
            spec_frame(bad_id, bad_ts, bad_payload),
            crate::proto::records::spec_update_type_map(tmap, rv1),
        ) is None,
        spec_parse_record(
            spec_record_bytes(rv2),
            crate::proto::records::spec_update_type_map(tmap, rv1),
        ) == Some(rv2),
    ensures
        crate::proto::records::spec_parse_stream(
            spec_chunks(
                spec_record_bytes(rv1) + spec_frame(bad_id, bad_ts, bad_payload)
                    + spec_record_bytes(rv2),
            ),
            tmap,
        ).0 == seq![rv1, rv2],
{
    let enc1 = spec_record_bytes(rv1);
    let bad = spec_frame(bad_id, bad_ts, bad_payload);
    let enc2 = spec_record_bytes(rv2);
    assert(enc1 + bad + enc2 =~= enc1 + (bad + enc2));
    lemma_chunks_of_record_concat(rv1, bad + enc2);
    lemma_chunks_of_frame_concat(bad_id, bad_ts, bad_payload, enc2);
    lemma_chunks_of_record(rv2);
    assert(spec_chunks(enc1 + bad + enc2) =~= seq![enc1, bad, enc2]);
    lemma_parse_stream_skips_bad(enc1, bad, enc2, rv1, rv2, tmap);
}

} // verus!
