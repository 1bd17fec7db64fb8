//! The wire tags.

use vstd::prelude::*;

verus! {

pub const TAG_END: u8 = 0;
pub const TAG_BYTE: u8 = 1;
pub const TAG_SHORT: u8 = 2;
pub const TAG_INT: u8 = 3;
pub const TAG_LONG: u8 = 4;
pub const TAG_FLOAT: u8 = 5;
pub const TAG_DOUBLE: u8 = 6;
pub const TAG_BYTE_ARRAY: u8 = 7;
pub const TAG_STRING: u8 = 8;
pub const TAG_LIST: u8 = 9;
pub const TAG_COMPOUND: u8 = 10;
pub const TAG_INT_ARRAY: u8 = 11;
pub const TAG_LONG_ARRAY: u8 = 12;

/// A tag that introduces a value: every tag of the format but `TAG_END`.
pub open spec fn is_value_tag(tag: u8) -> bool {
    TAG_BYTE <= tag <= TAG_LONG_ARRAY
}

/// Tells whether `tag` introduces a value.
pub fn value_tag(tag: u8) -> (r: bool)
    ensures
        r == is_value_tag(tag),
{
    TAG_BYTE <= tag && tag <= TAG_LONG_ARRAY
}

} // verus!
