//! A directory's content: the ordered list of its items, stored encoded
//! as block 0 of the directory's inode.

use vstd::prelude::*;
use crate::error::FsError;
use crate::reply::DirItem;
use crate::serialize::{
    decode_dir, dir_ok, dir_parseable, enc_dir, enc_item, encode_dir, item_end, item_ok,
    item_parseable,
};

verus! {

pub type Directory = Vec<DirItem>;

/// Encodes a directory for storage.
pub fn encode(dir: &Directory) -> (r: Result<Vec<u8>, FsError>)
    ensures
        r matches Ok(b) && b@ == enc_dir(dir@),
{
    Ok(encode_dir(dir))
}

/// Decodes a stored directory.
pub fn decode(bytes: &[u8]) -> (r: Result<Directory, FsError>)
    ensures
        match r {
            Ok(v) => dir_ok(bytes@, v@),
            Err(e) => !dir_parseable(bytes@) && e is Serialize,
        },
{
    decode_dir(bytes)
}

/// Encodes one directory item on its own.
pub fn encode_item(item: &DirItem) -> (r: Result<Vec<u8>, FsError>)
    ensures
        r matches Ok(b) && b@ == enc_item(*item),
{
    item.serialize()
}

/// Decodes one directory item on its own.
pub fn decode_item(bytes: &[u8]) -> (r: Result<DirItem, FsError>)
    ensures
        match r {
            Ok(v) => item_ok(bytes@, 0, v) && item_end(bytes@, 0) == bytes@.len(),
            Err(e) => !(item_parseable(bytes@, 0) && item_end(bytes@, 0) == bytes@.len())
                && e is Serialize,
        },
{
    DirItem::deserialize(bytes)
}

} // verus!
