use vstd::prelude::*;
use vstd::slice::slice_to_vec;

use backhand::compression::{CompressionAction, Compressor, DefaultCompressor};
use backhand::BackhandError;

use crate::rc4::{apply, initial, RC4};

verus! {

#[verifier::external_type_specification]
#[verifier::external_body]
pub struct ExBackhandError(BackhandError);

/// The compression kinds that a header can name, by their on-disk id.
#[derive(Debug, Clone, Copy, PartialEq, Eq)]
pub enum CompressorKind {
    Uncompressed,
    Gzip,
    Lzma,
    Lzo,
    Xz,
    Lz4,
    Zstd,
}

/// The on-disk id of a compression kind.
pub open spec fn kind_id(k: CompressorKind) -> u16 {
    match k {
        CompressorKind::Uncompressed => 0,
        CompressorKind::Gzip => 1,
        CompressorKind::Lzma => 2,
        CompressorKind::Lzo => 3,
        CompressorKind::Xz => 4,
        CompressorKind::Lz4 => 5,
        CompressorKind::Zstd => 6,
    }
}

impl CompressorKind {
    /// The kind with on-disk id `id`, if there is one.
    pub fn from_id(id: u16) -> (r: Option<CompressorKind>)
        ensures
            id <= 6 ==> r is Some && kind_id(r->Some_0) == id,
            id > 6 ==> r is None,
    {
        match id {
            0 => Some(CompressorKind::Uncompressed),
            1 => Some(CompressorKind::Gzip),
            2 => Some(CompressorKind::Lzma),
            3 => Some(CompressorKind::Lzo),
            4 => Some(CompressorKind::Xz),
            5 => Some(CompressorKind::Lz4),
            6 => Some(CompressorKind::Zstd),
            _ => None,
        }
    }
}

/// Largest output, in bytes, that a gzip or xz block is always decompressed to in full.
pub const MAX_DECOMPRESSED_LEN: usize = 4194304;

/// The kinds whose decoded stream is appended to what the output already holds.
pub open spec fn appends(k: CompressorKind) -> bool {
    k == CompressorKind::Gzip || k == CompressorKind::Xz
}

/// The kinds whose decoded stream replaces what the output held.
pub open spec fn replaces(k: CompressorKind) -> bool {
    k == CompressorKind::Lz4 || k == CompressorKind::Zstd
}

/// The kinds that this build cannot decompress.
pub open spec fn unsupported(k: CompressorKind) -> bool {
    k == CompressorKind::Lzma || k == CompressorKind::Lzo
}

/// The bytes that the stream `b`, compressed with the kind of id `kind`, decompresses to.
pub uninterp spec fn decompressed(kind: u16, b: Seq<u8>) -> Seq<u8>;

/// The stream `b` is complete and well formed for the kind of id `kind`.
pub uninterp spec fn stream_accepted(kind: u16, b: Seq<u8>) -> bool;

/// Relies on backhand's `DefaultCompressor::decompress`: raw blocks are appended; gzip and
/// xz streams are appended, and fail only when malformed or over four times the largest
/// block; lz4 and zstd output replaces `out`; lzma and lzo are not built in.
#[verifier::external_body]
fn default_decompress(bytes: &[u8], out: &mut Vec<u8>, kind: CompressorKind) -> (r: Result<
    (),
    BackhandError,
>)
    ensures
        kind == CompressorKind::Uncompressed ==> r is Ok && final(out)@ == old(out)@ + bytes@,
        appends(kind) && r is Ok ==> final(out)@ == old(out)@ + decompressed(kind_id(kind), bytes@),
        appends(kind) && stream_accepted(kind_id(kind), bytes@) && decompressed(kind_id(kind), bytes@).len()
            <= MAX_DECOMPRESSED_LEN ==> r is Ok,
        replaces(kind) && r is Ok ==> final(out)@ == decompressed(kind_id(kind), bytes@),
        unsupported(kind) ==> r is Err,
{
    let c = match kind {
        CompressorKind::Uncompressed => Compressor::Uncompressed,
        CompressorKind::Gzip => Compressor::Gzip,
        CompressorKind::Lzma => Compressor::Lzma,
        CompressorKind::Lzo => Compressor::Lzo,
        CompressorKind::Xz => Compressor::Xz,
        CompressorKind::Lz4 => Compressor::Lz4,
        CompressorKind::Zstd => Compressor::Zstd,
    };
    DefaultCompressor.decompress(bytes, out, c)
}

/// Relies on std's `Box::leak`: the returned reference points at the boxed value, which is
/// never freed.
#[verifier::external_body]
pub(crate) fn leak<T: 'static>(b: Box<T>) -> (r: &'static T)
    ensures
        *r == *b,
{
    Box::leak(b)
}

/// A block decompressor that deciphers each block with a fresh keystream before
/// decompressing it.
#[derive(Copy, Clone)]
pub struct CustomCompressor {
    key: [u8; 16],
}

impl View for CustomCompressor {
    type V = Seq<u8>;

    closed spec fn view(&self) -> Seq<u8> {
        self.key@
    }
}

impl CustomCompressor {
    /// A decompressor for blocks enciphered with `key`.
    pub fn new(key: [u8; 16]) -> (r: Self)
        ensures
            r@ == key@,
    {
        CustomCompressor { key }
    }

    /// A decompressor for blocks enciphered with `key` that lives as long as the program,
    /// as a filesystem reader that keeps it for its whole run needs.
    pub fn new_static(key: [u8; 16]) -> (r: &'static Self)
        ensures
            r@ == key@,
    {
        leak(Box::new(CustomCompressor { key }))
    }

    /// Deciphers one block with a keystream that starts afresh from the key.
    pub fn decrypt_block(&self, bytes: &[u8]) -> (r: Vec<u8>)
        ensures
            r@ == apply(initial(self@), bytes@),
    {
        let mut buffer = slice_to_vec(bytes);
        let mut rc4 = RC4::new(&self.key);
        rc4.process(buffer.as_mut_slice());
        buffer
    }

    /// Deciphers one block with a fresh keystream, then decompresses it as `kind`: raw
    /// blocks are appended and always succeed; a gzip or xz stream is appended, and succeeds
    /// when well formed and at most `MAX_DECOMPRESSED_LEN` bytes long once decoded; lz4 and
    /// zstd output replaces `out`; lzma and lzo always fail.
    pub fn decompress(&self, bytes: &[u8], out: &mut Vec<u8>, kind: CompressorKind) -> (r: Result<
        (),
        BackhandError,
    >)
        ensures
            kind == CompressorKind::Uncompressed ==> r is Ok && final(out)@ == old(out)@ + apply(initial(self@), bytes@),
            appends(kind) && r is Ok ==> final(out)@ == old(out)@ + decompressed(kind_id(kind), apply(initial(self@), bytes@)),
            appends(kind) && stream_accepted(kind_id(kind), apply(initial(self@), bytes@)) && decompressed(kind_id(kind), apply(initial(self@), bytes@)).len()
                <= MAX_DECOMPRESSED_LEN ==> r is Ok,
            replaces(kind) && r is Ok ==> final(out)@ == decompressed(kind_id(kind), apply(initial(self@), bytes@)),
            unsupported(kind) ==> r is Err,
    {
        let buffer = self.decrypt_block(bytes);
        default_decompress(buffer.as_slice(), out, kind)
    }
}

} // verus!
