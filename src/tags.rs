//! The fixed byte tags that mark the structures of a save file.
use vstd::prelude::*;

verus! {

/// `"SAV3"`, the inner header magic.
pub open spec fn inner_magic() -> Seq<u8> {
    seq![0x53u8, 0x41, 0x56, 0x33]
}

/// `"SE"`, the inner footer magic.
pub open spec fn footer_magic() -> Seq<u8> {
    seq![0x53u8, 0x45]
}

/// `"NM"`, the tag of the string section.
pub open spec fn names_tag() -> Seq<u8> {
    seq![0x4eu8, 0x4d]
}

/// `"RB"`, the tag of the index section.
pub open spec fn index_tag() -> Seq<u8> {
    seq![0x52u8, 0x42]
}

/// `"MANU"`, which opens the string pool.
pub open spec fn pool_open_tag() -> Seq<u8> {
    seq![0x4du8, 0x41, 0x4e, 0x55]
}

/// `"ENOD"`, which closes the string pool.
pub open spec fn pool_close_tag() -> Seq<u8> {
    seq![0x45u8, 0x4e, 0x4f, 0x44]
}

pub fn inner_magic_bytes() -> (r: Vec<u8>)
    ensures
        r@ == inner_magic(),
{
    vec![0x53u8, 0x41, 0x56, 0x33]
}

pub fn footer_magic_bytes() -> (r: Vec<u8>)
    ensures
        r@ == footer_magic(),
{
    vec![0x53u8, 0x45]
}

pub fn names_tag_bytes() -> (r: Vec<u8>)
    ensures
        r@ == names_tag(),
{
    vec![0x4eu8, 0x4d]
}

pub fn index_tag_bytes() -> (r: Vec<u8>)
    ensures
        r@ == index_tag(),
{
    vec![0x52u8, 0x42]
}

pub fn pool_open_tag_bytes() -> (r: Vec<u8>)
    ensures
        r@ == pool_open_tag(),
{
    vec![0x4du8, 0x41, 0x4e, 0x55]
}

pub fn pool_close_tag_bytes() -> (r: Vec<u8>)
    ensures
        r@ == pool_close_tag(),
{
    vec![0x45u8, 0x4e, 0x4f, 0x44]
}

} // verus!
