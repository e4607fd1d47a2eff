//! File attributes.
use vstd::prelude::*;

verus! {

pub const FILE_ATTRIBUTE_READONLY: u32 = 0x00000001;

pub const FILE_ATTRIBUTE_HIDDEN: u32 = 0x00000002;

pub const FILE_ATTRIBUTE_SYSTEM: u32 = 0x00000004;

pub const FILE_ATTRIBUTE_DIRECTORY: u32 = 0x00000010;

pub const FILE_ATTRIBUTE_ARCHIVE: u32 = 0x00000020;

pub const FILE_ATTRIBUTE_NORMAL: u32 = 0x00000080;

pub const FILE_ATTRIBUTE_TEMPORARY: u32 = 0x00000100;

pub const FILE_ATTRIBUTE_OFFLINE: u32 = 0x00001000;

pub const FILE_ATTRIBUTE_NOT_CONTENT_INDEXED: u32 = 0x00002000;

/// The attributes that an entry keeps.
pub const SUPPORTED_ATTRS: u32 = FILE_ATTRIBUTE_ARCHIVE | FILE_ATTRIBUTE_HIDDEN
    | FILE_ATTRIBUTE_NOT_CONTENT_INDEXED | FILE_ATTRIBUTE_OFFLINE | FILE_ATTRIBUTE_READONLY
    | FILE_ATTRIBUTE_SYSTEM | FILE_ATTRIBUTE_TEMPORARY;

/// `value` holds supported attributes only.
pub open spec fn supported(value: u32) -> bool {
    value & SUPPORTED_ATTRS == value
}

pub proof fn lemma_masked_supported(value: u32)
    ensures
        supported(value & SUPPORTED_ATTRS),
{
    assert((value & SUPPORTED_ATTRS) & SUPPORTED_ATTRS == value & SUPPORTED_ATTRS) by (bit_vector);
}

pub proof fn lemma_archive_supported(value: u32)
    requires
        supported(value),
    ensures
        supported(value | FILE_ATTRIBUTE_ARCHIVE),
{
    assert(value & SUPPORTED_ATTRS == value ==> (value | FILE_ATTRIBUTE_ARCHIVE) & SUPPORTED_ATTRS
        == value | FILE_ATTRIBUTE_ARCHIVE) by (bit_vector);
}

/// Whether a bit of `flag` is set in `value`.
pub open spec fn has(value: u32, flag: u32) -> bool {
    value & flag != 0
}

/// Whether a bit of `flag` is set in `value`.
pub fn has_flag(value: u32, flag: u32) -> (r: bool)
    ensures
        r == has(value, flag),
{
    value & flag != 0
}

/// The attributes that are reported for an entry whose own attributes are `value`.
pub open spec fn output_attrs(value: u32, is_dir: bool) -> u32 {
    let attrs = if is_dir {
        value | FILE_ATTRIBUTE_DIRECTORY
    } else {
        value
    };
    if attrs == 0 {
        FILE_ATTRIBUTE_NORMAL
    } else {
        attrs
    }
}

#[derive(Clone, Copy, Debug, PartialEq, Eq, Structural)]
pub struct Attributes {
    pub value: u32,
}

impl Attributes {
    /// The supported ones of `attrs`.
    pub fn new(attrs: u32) -> (r: Self)
        ensures
            r.value == attrs & SUPPORTED_ATTRS,
    {
        Self { value: attrs & SUPPORTED_ATTRS }
    }

    pub fn get_output_attrs(&self, is_dir: bool) -> (r: u32)
        ensures
            r == output_attrs(self.value, is_dir),
    {
        let mut attrs: u32 = self.value;
        if is_dir {
            attrs |= FILE_ATTRIBUTE_DIRECTORY;
        }
        if attrs == 0 {
            attrs = FILE_ATTRIBUTE_NORMAL;
        }
        attrs
    }
}

} // verus!
