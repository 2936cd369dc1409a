use vstd::prelude::*;

verus! {

/// Size in bytes of the fixed header at the start of an image.
pub const SUPERBLOCK_SIZE: usize = 96;

/// The only supported major version.
pub const VERSION_MAJOR: u16 = 4;

/// The only supported minor version.
pub const VERSION_MINOR: u16 = 0;

/// Smallest block size, as a power of two.
pub const MIN_BLOCK_LOG: u16 = 12;

/// Largest block size, as a power of two.
pub const MAX_BLOCK_LOG: u16 = 20;

/// The value that marks an optional table pointer as absent.
pub const NOT_PRESENT: u64 = 0xffff_ffff_ffff_ffff;

/// The decoded header of an image.
#[derive(Debug, Clone, Copy, PartialEq, Eq)]
pub struct Superblock {
    pub inode_count: u32,
    pub mod_time: u32,
    pub block_size: u32,
    pub frag_count: u32,
    pub compressor: u16,
    pub block_log: u16,
    pub flags: u16,
    pub id_count: u16,
    pub version_major: u16,
    pub version_minor: u16,
    pub root_inode: u64,
    pub bytes_used: u64,
    pub id_table: u64,
    pub xattr_table: Option<u64>,
    pub inode_table: u64,
    pub dir_table: u64,
    pub frag_table: Option<u64>,
    pub export_table: Option<u64>,
}

/// Why a header could not be decoded.
#[derive(Debug, Clone, Copy, PartialEq, Eq)]
pub enum DecodeError {
    /// The buffer is shorter than the header.
    TruncatedBuffer,
    /// The first four bytes are not `hsqs`.
    MagicMismatch,
    /// The version is not 4.0.
    VersionUnsupported,
    /// The block size is not a power of two between 4 KiB and 1 MiB, or the block log
    /// does not match it.
    BlockSizeInvalid,
}

/// `256` raised to `n`.
pub open spec fn pow256(n: nat) -> nat
    decreases n,
{
    if n == 0 {
        1
    } else {
        256 * pow256((n - 1) as nat)
    }
}

/// `2` raised to `n`.
pub open spec fn pow2(n: nat) -> nat
    decreases n,
{
    if n == 0 {
        1
    } else {
        2 * pow2((n - 1) as nat)
    }
}

/// The unsigned little-endian value of `s`.
pub open spec fn le_value(s: Seq<u8>) -> nat
    decreases s.len(),
{
    if s.len() == 0 {
        0
    } else {
        s[0] as nat + 256 * le_value(s.drop_first())
    }
}

/// The little-endian field of `width` bytes at `off` in `b`.
pub open spec fn le_field(b: Seq<u8>, off: int, width: int) -> nat {
    le_value(b.subrange(off, off + width))
}

/// The magic `hsqs` opens the header.
pub open spec fn magic_ok(b: Seq<u8>) -> bool {
    b[0] == 0x68u8 && b[1] == 0x73u8 && b[2] == 0x71u8 && b[3] == 0x73u8
}

/// The header carries version 4.0.
pub open spec fn version_ok(b: Seq<u8>) -> bool {
    le_field(b, 28, 2) == 4 && le_field(b, 30, 2) == 0
}

/// `size` is a power of two from 4096 to 1048576 and `log` is its base-2 logarithm.
pub open spec fn block_size_ok(size: nat, log: nat) -> bool {
    12 <= log <= 20 && size == pow2(log)
}

/// An optional table pointer: the all-ones value marks it absent.
pub open spec fn optional_ptr(v: nat) -> Option<u64> {
    if v == 0xffff_ffff_ffff_ffffnat {
        None
    } else {
        Some(v as u64)
    }
}

/// The header's fields as the fixed little-endian layout places them in `b`.
pub open spec fn superblock_fields(b: Seq<u8>) -> Superblock {
    Superblock {
        inode_count: le_field(b, 4, 4) as u32,
        mod_time: le_field(b, 8, 4) as u32,
        block_size: le_field(b, 12, 4) as u32,
        frag_count: le_field(b, 16, 4) as u32,
        compressor: le_field(b, 20, 2) as u16,
        block_log: le_field(b, 22, 2) as u16,
        flags: le_field(b, 24, 2) as u16,
        id_count: le_field(b, 26, 2) as u16,
        version_major: le_field(b, 28, 2) as u16,
        version_minor: le_field(b, 30, 2) as u16,
        root_inode: le_field(b, 32, 8) as u64,
        bytes_used: le_field(b, 40, 8) as u64,
        id_table: le_field(b, 48, 8) as u64,
        xattr_table: optional_ptr(le_field(b, 56, 8)),
        inode_table: le_field(b, 64, 8) as u64,
        dir_table: le_field(b, 72, 8) as u64,
        frag_table: optional_ptr(le_field(b, 80, 8)),
        export_table: optional_ptr(le_field(b, 88, 8)),
    }
}

/// What decoding the header at the start of `b` gives: the first check that fails, in
/// the order length, magic, version, block size; else the header's fields.
pub open spec fn decode_result(b: Seq<u8>) -> Result<Superblock, DecodeError> {
    if b.len() < 96 {
        Err(DecodeError::TruncatedBuffer)
    } else if !magic_ok(b) {
        Err(DecodeError::MagicMismatch)
    } else if !version_ok(b) {
        Err(DecodeError::VersionUnsupported)
    } else if !block_size_ok(le_field(b, 12, 4), le_field(b, 22, 2)) {
        Err(DecodeError::BlockSizeInvalid)
    } else {
        Ok(superblock_fields(b))
    }
}

/// `n` is a power of two.
pub open spec fn is_power_of_two(n: nat) -> bool {
    exists|e: nat| n == #[trigger] pow2(e)
}

/// A header of full length fails to decode when its magic differs, its version is not
/// 4.0, its block size is not a power of two, or its block log is not the base-2
/// logarithm of its block size.
pub proof fn lemma_decode_rejects(b: Seq<u8>)
    requires
        b.len() >= 96,
        !magic_ok(b) || !version_ok(b) || !is_power_of_two(le_field(b, 12, 4)) || le_field(b, 12, 4)
            != pow2(le_field(b, 22, 2)),
    ensures
        decode_result(b) is Err,
{
}

proof fn lemma_pow256_mono(a: nat, b: nat)
    requires
        a <= b,
    ensures
        pow256(a) <= pow256(b),
    decreases b,
{
    if a < b {
        lemma_pow256_mono(a, (b - 1) as nat);
    }
}

proof fn lemma_le_value_bound(s: Seq<u8>)
    ensures
        le_value(s) < pow256(s.len()),
    decreases s.len(),
{
    if s.len() > 0 {
        lemma_le_value_bound(s.drop_first());
        let rest = le_value(s.drop_first());
        let p = pow256((s.len() - 1) as nat);
        assert(s[0] as nat + 256 * rest < 256 * p) by (nonlinear_arith)
            requires
                rest < p,
                s[0] < 256,
        ;
    }
}

/// Reads the little-endian value of `width` bytes at `off`.
fn read_le(buf: &[u8], off: usize, width: usize) -> (r: u64)
    requires
        off + width <= buf@.len(),
        width <= 8,
    ensures
        r as nat == le_field(buf@, off as int, width as int),
        (r as nat) < pow256(width as nat),
{
    let ghost b = buf@;
    let mut acc: u64 = 0;
    let n = buf.len();
    let mut k: usize = width;
    proof {
        assert(b.subrange(off + width, off + width) =~= Seq::<u8>::empty());
    }
    while k > 0
        invariant
            0 <= k <= width <= 8,
            off + width <= b.len(),
            n == b.len(),
            b == buf@,
            acc as nat == le_value(b.subrange(off + k, off + width)),
            (acc as nat) < pow256((width - k) as nat),
        decreases k,
    {
        let ghost tail = b.subrange(off + k, off + width);
        let byte = buf[off + k - 1];
        proof {
            let s = b.subrange(off + k - 1, off + width);
            assert(s.drop_first() =~= tail);
            lemma_pow256_mono((width - k + 1) as nat, 8);
            reveal_with_fuel(pow256, 9);
            let p = pow256((width - k) as nat);
            assert((acc as nat) * 256 + (byte as nat) < 256 * p) by (nonlinear_arith)
                requires
                    (acc as nat) < p,
                    byte < 256,
            ;
        }
        acc = acc * 256 + byte as u64;
        k = k - 1;
    }
    acc
}

/// Reads a little-endian `u16` at `off`.
fn read_u16(buf: &[u8], off: usize) -> (r: u16)
    requires
        off + 2 <= buf@.len(),
    ensures
        r as nat == le_field(buf@, off as int, 2),
{
    proof {
        reveal_with_fuel(pow256, 3);
    }
    read_le(buf, off, 2) as u16
}

/// Reads a little-endian `u32` at `off`.
fn read_u32(buf: &[u8], off: usize) -> (r: u32)
    requires
        off + 4 <= buf@.len(),
    ensures
        r as nat == le_field(buf@, off as int, 4),
{
    proof {
        reveal_with_fuel(pow256, 5);
    }
    read_le(buf, off, 4) as u32
}

/// Reads a little-endian `u64` at `off`.
pub fn read_u64(buf: &[u8], off: usize) -> (r: u64)
    requires
        off + 8 <= buf@.len(),
    ensures
        r as nat == le_field(buf@, off as int, 8),
{
    read_le(buf, off, 8)
}

/// Maps the all-ones marker to `None`.
fn read_optional(buf: &[u8], off: usize) -> (r: Option<u64>)
    requires
        off + 8 <= buf@.len(),
    ensures
        r == optional_ptr(le_field(buf@, off as int, 8)),
{
    let v = read_u64(buf, off);
    if v == NOT_PRESENT {
        None
    } else {
        Some(v)
    }
}

/// Checks that `size` is `2` raised to `log`, with `log` from 12 to 20.
pub fn check_block_size(size: u32, log: u16) -> (r: bool)
    ensures
        r == block_size_ok(size as nat, log as nat),
{
    if log < MIN_BLOCK_LOG || log > MAX_BLOCK_LOG {
        return false;
    }
    let mut p: u32 = 1;
    let mut e: u16 = 0;
    while e < log
        invariant
            0 <= e <= log <= 20,
            p as nat == pow2(e as nat),
            p <= 0x10_0000,
        decreases log - e,
    {
        proof {
            assert(pow2((e + 1) as nat) == 2 * pow2(e as nat));
            lemma_pow2_small((e + 1) as nat);
        }
        p = p * 2;
        e = e + 1;
    }
    size == p
}

proof fn lemma_pow2_small(e: nat)
    requires
        e <= 20,
    ensures
        pow2(e) <= 0x10_0000,
    decreases e,
{
    reveal_with_fuel(pow2, 21);
    lemma_pow2_mono(e, 20);
}

proof fn lemma_pow2_mono(a: nat, b: nat)
    requires
        a <= b,
    ensures
        pow2(a) <= pow2(b),
    decreases b,
{
    if a < b {
        lemma_pow2_mono(a, (b - 1) as nat);
    }
}

/// Decodes the header at the start of `buf`, checking length, magic, version and block
/// size in that order.
pub fn decode_superblock(buf: &[u8]) -> (r: Result<Superblock, DecodeError>)
    ensures
        r == decode_result(buf@),
{
    if buf.len() < SUPERBLOCK_SIZE {
        return Err(DecodeError::TruncatedBuffer);
    }
    if !(buf[0] == 0x68u8 && buf[1] == 0x73u8 && buf[2] == 0x71u8 && buf[3] == 0x73u8) {
        return Err(DecodeError::MagicMismatch);
    }
    let inode_count = read_u32(buf, 4);
    let mod_time = read_u32(buf, 8);
    let block_size = read_u32(buf, 12);
    let frag_count = read_u32(buf, 16);
    let compressor = read_u16(buf, 20);
    let block_log = read_u16(buf, 22);
    let flags = read_u16(buf, 24);
    let id_count = read_u16(buf, 26);
    let version_major = read_u16(buf, 28);
    let version_minor = read_u16(buf, 30);
    if version_major != VERSION_MAJOR || version_minor != VERSION_MINOR {
        return Err(DecodeError::VersionUnsupported);
    }
    let root_inode = read_u64(buf, 32);
    let bytes_used = read_u64(buf, 40);
    let id_table = read_u64(buf, 48);
    let xattr_table = read_optional(buf, 56);
    let inode_table = read_u64(buf, 64);
    let dir_table = read_u64(buf, 72);
    let frag_table = read_optional(buf, 80);
    let export_table = read_optional(buf, 88);
    if !check_block_size(block_size, block_log) {
        return Err(DecodeError::BlockSizeInvalid);
    }
    Ok(
        Superblock {
            inode_count,
            mod_time,
            block_size,
            frag_count,
            compressor,
            block_log,
            flags,
            id_count,
            version_major,
            version_minor,
            root_inode,
            bytes_used,
            id_table,
            xattr_table,
            inode_table,
            dir_table,
            frag_table,
            export_table,
        },
    )
}

} // verus!
