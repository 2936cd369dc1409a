use vstd::prelude::*;

use crate::rc4::{advance, apply_at, initial, RC4};
use crate::superblock::{
    decode_result, decode_superblock, le_field, read_u64, DecodeError, Superblock,
    SUPERBLOCK_SIZE,
};

verus! {

/// Number of bytes of a lookup pointer.
pub const POINTER_SIZE: usize = 8;

/// Number of bytes of the length prefix in front of the fragment and export tables.
pub const LENGTH_PREFIX_SIZE: usize = 2;

/// Why a table could not be located.
#[derive(Debug, Clone, Copy, PartialEq, Eq)]
pub enum TableError {
    /// The lookup pointer lies past the end of the image.
    LookupOutOfBounds,
    /// The table's length prefix lies past the end of the image.
    TableOutOfBounds,
}

/// Why an image could not be opened.
#[derive(Debug, Clone, Copy, PartialEq, Eq)]
pub enum UnlockError {
    Header(DecodeError),
    Table(TableError),
}

/// Where the auxiliary tables start in the image; absent tables are `None`.
#[derive(Debug, Clone, Copy, PartialEq, Eq)]
pub struct TableOffsets {
    pub fragment: Option<u64>,
    pub export: Option<u64>,
    pub id: u64,
}

/// Resolving one table: a fresh engine keyed with `key` deciphers the 8-byte pointer at
/// `lookup`, then, continuing the same keystream, the `prefix` bytes at the table start
/// that the pointer gives. Returns the table start and the image after it.
pub open spec fn resolve_spec(img: Seq<u8>, key: Seq<u8>, lookup: nat, prefix: nat) -> (
    Result<u64, TableError>,
    Seq<u8>,
) {
    let s0 = initial(key);
    if lookup + 8 > img.len() {
        (Err(TableError::LookupOutOfBounds), img)
    } else {
        let img1 = apply_at(s0, img, lookup as int, 8);
        let ptr = le_field(img1, lookup as int, 8);
        if ptr + prefix > img.len() {
            (Err(TableError::TableOutOfBounds), img1)
        } else {
            (Ok(ptr as u64), apply_at(advance(s0, 8), img1, ptr as int, prefix as int))
        }
    }
}

/// Resolving a table whose lookup pointer may be absent: nothing is done for `None`.
pub open spec fn resolve_optional_spec(
    img: Seq<u8>,
    key: Seq<u8>,
    lookup: Option<u64>,
    prefix: nat,
) -> (Result<Option<u64>, TableError>, Seq<u8>) {
    match lookup {
        None => (Ok(None), img),
        Some(p) => {
            let (r, img1) = resolve_spec(img, key, p as nat, prefix);
            match r {
                Ok(v) => (Ok(Some(v)), img1),
                Err(e) => (Err(e), img1),
            }
        },
    }
}

/// Resolving the fragment, export and id tables of `sb`, in that order, each with its own
/// keystream; the fragment and export tables have a 2-byte length prefix, the id table none.
pub open spec fn tables_spec(img: Seq<u8>, key: Seq<u8>, sb: Superblock) -> (
    Result<TableOffsets, TableError>,
    Seq<u8>,
) {
    let (f, img1) = resolve_optional_spec(img, key, sb.frag_table, 2);
    match f {
        Err(e) => (Err(e), img1),
        Ok(fragment) => {
            let (x, img2) = resolve_optional_spec(img1, key, sb.export_table, 2);
            match x {
                Err(e) => (Err(e), img2),
                Ok(export) => {
                    let (i, img3) = resolve_spec(img2, key, sb.id_table as nat, 0);
                    match i {
                        Err(e) => (Err(e), img3),
                        Ok(id) => (Ok(TableOffsets { fragment, export, id }), img3),
                    }
                },
            }
        },
    }
}

/// Opening an image: the header is deciphered from the start of the keystream and decoded,
/// then the tables are resolved. Returns the result and the image after it.
pub open spec fn unlock_spec(img: Seq<u8>, key: Seq<u8>) -> (
    Result<(Superblock, TableOffsets), UnlockError>,
    Seq<u8>,
) {
    if img.len() < 96 {
        (Err(UnlockError::Header(DecodeError::TruncatedBuffer)), img)
    } else {
        let img1 = apply_at(initial(key), img, 0, 96);
        match decode_result(img1) {
            Err(e) => (Err(UnlockError::Header(e)), img1),
            Ok(sb) => {
                let (t, img2) = tables_spec(img1, key, sb);
                match t {
                    Err(e) => (Err(UnlockError::Table(e)), img2),
                    Ok(offsets) => (Ok((sb, offsets)), img2),
                }
            },
        }
    }
}

/// Deciphers the header at the start of `image` in place, from the start of the keystream,
/// and decodes it. An image shorter than the header is left as it is.
pub fn decrypt_header(image: &mut [u8], key: &[u8]) -> (r: Result<Superblock, DecodeError>)
    requires
        key@.len() > 0,
    ensures
        old(image)@.len() < 96 ==> r == Err::<Superblock, DecodeError>(
            DecodeError::TruncatedBuffer,
        ) && final(image)@ == old(image)@,
        old(image)@.len() >= 96 ==> final(image)@ == apply_at(initial(key@), old(image)@, 0, 96)
            && r == decode_result(final(image)@),
{
    if image.len() < SUPERBLOCK_SIZE {
        return Err(DecodeError::TruncatedBuffer);
    }
    let mut rc4 = RC4::new(key);
    rc4.process_range(image, 0, SUPERBLOCK_SIZE);
    decode_superblock(image)
}

/// Locates one table: deciphers its lookup pointer at `lookup` with a fresh engine, then the
/// `prefix` bytes at the table start with the same engine, without re-keying in between.
pub fn resolve_table(image: &mut [u8], key: &[u8], lookup: u64, prefix: usize) -> (r: Result<
    u64,
    TableError,
>)
    requires
        key@.len() > 0,
    ensures
        (r, final(image)@) == resolve_spec(old(image)@, key@, lookup as nat, prefix as nat),
{
    let len = image.len();
    if lookup > len as u64 || (len as u64) - lookup < POINTER_SIZE as u64 {
        return Err(TableError::LookupOutOfBounds);
    }
    let at = lookup as usize;
    let mut rc4 = RC4::new(key);
    rc4.process_range(image, at, POINTER_SIZE);
    let ptr = read_u64(image, at);
    if ptr > len as u64 || (len as u64) - ptr < prefix as u64 {
        return Err(TableError::TableOutOfBounds);
    }
    rc4.process_range(image, ptr as usize, prefix);
    Ok(ptr)
}

/// Locates a table whose lookup pointer may be absent; an absent one leaves the image as it is.
pub fn resolve_optional_table(image: &mut [u8], key: &[u8], lookup: Option<u64>, prefix: usize) -> (r:
    Result<Option<u64>, TableError>)
    requires
        key@.len() > 0,
    ensures
        (r, final(image)@) == resolve_optional_spec(old(image)@, key@, lookup, prefix as nat),
{
    match lookup {
        None => Ok(None),
        Some(p) => match resolve_table(image, key, p, prefix) {
            Ok(v) => Ok(Some(v)),
            Err(e) => Err(e),
        },
    }
}

/// Locates the fragment, export and id tables of `sb`, in that order, each from a fresh
/// engine keyed with `key`.
pub fn resolve_tables(image: &mut [u8], key: &[u8], sb: &Superblock) -> (r: Result<
    TableOffsets,
    TableError,
>)
    requires
        key@.len() > 0,
    ensures
        (r, final(image)@) == tables_spec(old(image)@, key@, *sb),
{
    let fragment = match resolve_optional_table(image, key, sb.frag_table, LENGTH_PREFIX_SIZE) {
        Ok(v) => v,
        Err(e) => {
            return Err(e);
        },
    };
    let export = match resolve_optional_table(image, key, sb.export_table, LENGTH_PREFIX_SIZE) {
        Ok(v) => v,
        Err(e) => {
            return Err(e);
        },
    };
    let id = match resolve_table(image, key, sb.id_table, 0) {
        Ok(v) => v,
        Err(e) => {
            return Err(e);
        },
    };
    Ok(TableOffsets { fragment, export, id })
}

/// Opens an image in place: deciphers and decodes the header, then locates the tables.
pub fn unlock_image(image: &mut [u8], key: &[u8]) -> (r: Result<
    (Superblock, TableOffsets),
    UnlockError,
>)
    requires
        key@.len() > 0,
    ensures
        (r, final(image)@) == unlock_spec(old(image)@, key@),
{
    let sb = match decrypt_header(image, key) {
        Ok(sb) => sb,
        Err(e) => {
            return Err(UnlockError::Header(e));
        },
    };
    match resolve_tables(image, key, &sb) {
        Ok(offsets) => Ok((sb, offsets)),
        Err(e) => Err(UnlockError::Table(e)),
    }
}

} // verus!
