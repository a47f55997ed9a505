//! The few places where the library leans on code it does not verify:
//! UTF-8 decoding from `std`, and the time source and struct-descriptor
//! registry of `frclib_core`.  Each wrapper's contract states only what the
//! callee's source or documentation shows.
use vstd::prelude::*;

use vstd::utf8::{encode_utf8, valid_utf8};

verus! {

/// Relies on `std::str::from_utf8`: it succeeds exactly on valid UTF-8, and
/// the characters it returns re-encode to the given bytes.
#[verifier::external_body]
pub fn bytes_to_string(bytes: &[u8]) -> (r: Option<String>)
    ensures
        r is Some <==> valid_utf8(bytes@),
        r matches Some(s) ==> encode_utf8(s@) == bytes@,
{
    match std::str::from_utf8(bytes) {
        Ok(s) => Some(s.to_string()),
        Err(_) => None,
    }
}

/// Relies on `frclib_core::time::uptime`: the program's uptime in
/// microseconds.  Nothing can be promised of a clock reading.
#[verifier::external_body]
pub fn now() -> u64 {
    let micros = frclib_core::time::uptime().as_micros();
    u64::try_from(micros).unwrap_or(u64::MAX)
}

/// Relies on `frclib_core::structure::FrcStructDescDB::get`: it looks the
/// type string up in the process-wide registry and, when found, returns a
/// descriptor whose `type_str` equals the argument, along with its byte
/// size.  The registry can grow at run time, so nothing is promised about
/// when the lookup succeeds.
#[verifier::external_body]
pub fn struct_desc_lookup(type_str: &str) -> (r: Option<(String, u64)>)
    ensures
        r matches Some(d) ==> d.0@ == type_str@,
{
    frclib_core::structure::FrcStructDescDB::get(type_str).map(|desc| {
        (desc.type_str.to_string(), desc.size as u64)
    })
}

} // verus!
