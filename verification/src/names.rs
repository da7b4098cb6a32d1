//! Classification of the bytes that may appear in XML element and attribute
//! names.
//!
//! The classifiers work on single bytes of the UTF-8 encoding of a name, so a
//! byte that is only conditionally legal in the XML name grammar (a digit, for
//! instance, which may not start a name) is treated as invalid for element
//! names and valid for attribute names.

use vstd::prelude::*;
use vstd::string::StringSliceAdditionalSpecFns;

verus! {

/// `a`
pub const B_LOWER_A: u8 = 0x61;

/// `z`
pub const B_LOWER_Z: u8 = 0x7a;

/// `A`
pub const B_UPPER_A: u8 = 0x41;

/// `Z`
pub const B_UPPER_Z: u8 = 0x5a;

/// `_`
pub const B_UNDERSCORE: u8 = 0x5f;

/// `:`
pub const B_COLON: u8 = 0x3a;

/// `-`
pub const B_DASH: u8 = 0x2d;

/// `.`
pub const B_DOT: u8 = 0x2e;

/// `0`
pub const B_ZERO: u8 = 0x30;

/// `9`
pub const B_NINE: u8 = 0x39;

/// A byte that may appear anywhere in an element name or prefix: ASCII
/// letters, `_`, `:`, `-`, `.`, and every byte of a multi-byte UTF-8
/// sequence.
pub open spec fn name_byte_ok(b: u8) -> bool {
    (B_LOWER_A <= b && b <= B_LOWER_Z) || (B_UPPER_A <= b && b <= B_UPPER_Z) || b == B_UNDERSCORE
        || b == B_COLON || b == B_DASH || b == B_DOT || b >= 0x80
}

/// A byte that may appear anywhere in an attribute name: the attribute
/// classifier is more permissive than the element one and also accepts ASCII
/// digits.
pub open spec fn attr_name_byte_ok(b: u8) -> bool {
    name_byte_ok(b) || (B_ZERO <= b && b <= B_NINE)
}

/// Every byte of `s` is acceptable in an element name or prefix.
pub open spec fn all_name_bytes_ok(s: Seq<u8>) -> bool {
    forall|i: int| 0 <= i < s.len() ==> name_byte_ok(s[i])
}

/// Every byte of `s` is acceptable in an attribute name.
pub open spec fn all_attr_name_bytes_ok(s: Seq<u8>) -> bool {
    forall|i: int| 0 <= i < s.len() ==> attr_name_byte_ok(s[i])
}

/// A valid element name: non-empty, and made of name bytes only.
pub open spec fn element_name_ok(s: Seq<u8>) -> bool {
    s.len() > 0 && all_name_bytes_ok(s)
}

/// A valid (optional) element prefix: if present, made of name bytes only.
pub open spec fn prefix_ok(p: Option<&str>) -> bool {
    match p {
        Some(p) => all_name_bytes_ok(p.spec_bytes()),
        None => true,
    }
}

/// Decides `name_byte_ok` for one byte.
pub fn is_invalid_name_byte(b: u8) -> (r: bool)
    ensures
        r == !name_byte_ok(b),
{
    !((B_LOWER_A <= b && b <= B_LOWER_Z) || (B_UPPER_A <= b && b <= B_UPPER_Z) || b == B_UNDERSCORE
        || b == B_COLON || b == B_DASH || b == B_DOT || b >= 0x80)
}

/// Decides `attr_name_byte_ok` for one byte.
pub fn is_invalid_attr_name_byte(b: u8) -> (r: bool)
    ensures
        r == !attr_name_byte_ok(b),
{
    is_invalid_name_byte(b) && !(B_ZERO <= b && b <= B_NINE)
}

/// Decides `all_name_bytes_ok` for a byte slice.
pub fn name_bytes_are_ok(s: &[u8]) -> (r: bool)
    ensures
        r == all_name_bytes_ok(s@),
{
    let mut i: usize = 0;
    while i < s.len()
        invariant
            0 <= i <= s@.len(),
            forall|j: int| 0 <= j < i ==> name_byte_ok(s@[j]),
        decreases s@.len() - i,
    {
        if is_invalid_name_byte(s[i]) {
            return false;
        }
        i += 1;
    }
    true
}

/// Decides `element_name_ok` for a byte slice.
pub fn element_name_is_ok(s: &[u8]) -> (r: bool)
    ensures
        r == element_name_ok(s@),
{
    s.len() > 0 && name_bytes_are_ok(s)
}

/// Decides `all_attr_name_bytes_ok` for a byte slice.
pub fn attr_name_bytes_are_ok(s: &[u8]) -> (r: bool)
    ensures
        r == all_attr_name_bytes_ok(s@),
{
    let mut i: usize = 0;
    while i < s.len()
        invariant
            0 <= i <= s@.len(),
            forall|j: int| 0 <= j < i ==> attr_name_byte_ok(s@[j]),
        decreases s@.len() - i,
    {
        if is_invalid_attr_name_byte(s[i]) {
            return false;
        }
        i += 1;
    }
    true
}

/// True when some byte of `s` is `b1` or `b2`.
pub open spec fn has_either_byte(s: Seq<u8>, b1: u8, b2: u8) -> bool {
    exists|i: int| 0 <= i < s.len() && (s[i] == b1 || s[i] == b2)
}

/// Decides `has_either_byte` for a byte slice.
pub fn contains_either_byte(s: &[u8], b1: u8, b2: u8) -> (r: bool)
    ensures
        r == has_either_byte(s@, b1, b2),
{
    let mut i: usize = 0;
    while i < s.len()
        invariant
            0 <= i <= s@.len(),
            forall|j: int| 0 <= j < i ==> s@[j] != b1 && s@[j] != b2,
        decreases s@.len() - i,
    {
        if s[i] == b1 || s[i] == b2 {
            assert(has_either_byte(s@, b1, b2));
            return true;
        }
        i += 1;
    }
    false
}

} // verus!
