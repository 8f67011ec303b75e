//! Reading typed values out of a cache hash: a list of field/value strings.
//!
//! A hash read from the cache arrives as field/value pairs.  Every accessor
//! mirrors the reading convention of the service: a missing field or an
//! unparsable value falls back to the type's zero value.

use vstd::prelude::*;
use crate::kv::{assoc_s, get_s};
use crate::num::{all_dec_digits, dec_val, parse_bool, parse_u128, parse_u32, parse_u64};

verus! {

/// A cache hash: field names paired with value strings.
pub type Fields = Vec<(String, String)>;

/// The value string of a field, or the empty string when absent.
pub open spec fn field_str(f: Seq<(String, String)>, name: Seq<char>) -> Seq<char> {
    match assoc_s(f, name) {
        Some(v) => v,
        None => Seq::<char>::empty(),
    }
}

/// Parsing a value string as an unsigned integer no wider than the given
/// bound, with anything unparsable reading as zero.
pub open spec fn field_uint(f: Seq<(String, String)>, name: Seq<char>, bound: int) -> int {
    let s = field_str(f, name);
    if all_dec_digits(s) && dec_val(s) <= bound {
        dec_val(s)
    } else {
        0
    }
}

/// Parsing a value string as a boolean, with anything unparsable reading as
/// false.
pub open spec fn field_flag(f: Seq<(String, String)>, name: Seq<char>) -> bool {
    field_str(f, name) == seq!['t', 'r', 'u', 'e']
}

/// The field's value string, or an empty string when the field is absent.
pub fn get_field_string(f: &Fields, name: &String) -> (r: String)
    ensures
        r@ == field_str(f@, name@),
{
    match get_s(f, name) {
        Some(v) => v.clone(),
        None => String::new(),
    }
}

/// The field parsed as a `u128`; 0 when absent or unparsable.
pub fn get_field_u128(f: &Fields, name: &String) -> (r: u128)
    ensures
        r == field_uint(f@, name@, u128::MAX as int),
{
    match get_s(f, name) {
        Some(v) => match parse_u128(v.as_str()) {
            Some(n) => n,
            None => 0,
        },
        None => 0,
    }
}

/// The field parsed as a `u64`; 0 when absent or unparsable.
pub fn get_field_u64(f: &Fields, name: &String) -> (r: u64)
    ensures
        r == field_uint(f@, name@, u64::MAX as int),
{
    match get_s(f, name) {
        Some(v) => match parse_u64(v.as_str()) {
            Some(n) => n,
            None => 0,
        },
        None => 0,
    }
}

/// The field parsed as a `u32`; 0 when absent or unparsable.
pub fn get_field_u32(f: &Fields, name: &String) -> (r: u32)
    ensures
        r == field_uint(f@, name@, u32::MAX as int),
{
    match get_s(f, name) {
        Some(v) => match parse_u32(v.as_str()) {
            Some(n) => n,
            None => 0,
        },
        None => 0,
    }
}

/// The field parsed as a `u8`; 0 when absent or unparsable.
pub fn get_field_u8(f: &Fields, name: &String) -> (r: u8)
    ensures
        r == field_uint(f@, name@, u8::MAX as int),
{
    match get_s(f, name) {
        Some(v) => match parse_u32(v.as_str()) {
            Some(n) => if n <= u8::MAX as u32 {
                n as u8
            } else {
                0
            },
            None => 0,
        },
        None => 0,
    }
}

/// The field parsed as a boolean; false when absent or unparsable.
pub fn get_field_bool(f: &Fields, name: &String) -> (r: bool)
    ensures
        r == field_flag(f@, name@),
{
    proof {
        reveal_strlit("true");
        reveal_strlit("false");
        assert("true"@ =~= seq!['t', 'r', 'u', 'e']);
        assert("false"@ =~= seq!['f', 'a', 'l', 's', 'e']);
    }
    match get_s(f, name) {
        Some(v) => match parse_bool(v.as_str()) {
            Some(b) => {
                proof {
                    assert(field_str(f@, name@) == v@);
                    if b {
                        assert(v@ == "true"@);
                        assert(field_flag(f@, name@));
                    } else {
                        assert(v@ == "false"@);
                        assert(v@ !~= seq!['t', 'r', 'u', 'e']);
                    }
                }
                b
            },
            None => {
                proof {
                    assert(field_str(f@, name@) == v@);
                    assert(!(v@ == "true"@));
                }
                false
            },
        },
        None => {
            proof {
                assert(field_str(f@, name@) =~= Seq::<char>::empty());
            }
            false
        },
    }
}

} // verus!
