use squashfs_rc4::compressor::{CompressorKind, CustomCompressor};
use squashfs_rc4::rc4::RC4;
use squashfs_rc4::transformer::CustomTransformer;

const KEY: [u8; 16] = *b"0123456789abcdef";

// "hello squashfs" as a zlib stream
const ZLIB_HELLO: [u8; 22] = [
    120, 156, 203, 72, 205, 201, 201, 87, 40, 46, 44, 77, 44, 206, 72, 43, 6, 0, 41, 158, 5, 163,
];

#[test]
fn compressor_deciphers_then_inflates() {
    let mut block = ZLIB_HELLO.to_vec();
    RC4::new(&KEY).process(&mut block);
    let c = CustomCompressor::new_static(KEY);
    let mut out = b"prefix:".to_vec();
    c.decompress(&block, &mut out, CompressorKind::Gzip).unwrap();
    assert_eq!(out, b"prefix:hello squashfs".to_vec());
}

// "hello squashfs" as an xz stream
const XZ_HELLO: [u8; 72] = [
    253, 55, 122, 88, 90, 0, 0, 4, 230, 214, 180, 70, 2, 0, 33, 1, 22, 0, 0, 0, 116, 47, 229, 163,
    1, 0, 13, 104, 101, 108, 108, 111, 32, 115, 113, 117, 97, 115, 104, 102, 115, 0, 0, 0, 41, 218,
    81, 43, 224, 248, 14, 252, 0, 1, 38, 14, 8, 27, 224, 4, 31, 182, 243, 125, 1, 0, 0, 0, 0, 4,
    89, 90,
];

#[test]
fn compressor_uses_declared_kind_xz() {
    let mut block = XZ_HELLO.to_vec();
    RC4::new(&KEY).process(&mut block);
    let c = CustomCompressor::new(KEY);
    let mut out = b"x:".to_vec();
    c.decompress(&block, &mut out, CompressorKind::Xz).unwrap();
    assert_eq!(out, b"x:hello squashfs".to_vec());
    let mut out = Vec::new();
    assert!(c.decompress(&block, &mut out, CompressorKind::Gzip).is_err());
}

#[test]
fn compressor_uncompressed_appends_deciphered_block() {
    let mut block = b"raw block".to_vec();
    RC4::new(&KEY).process(&mut block);
    let c = CustomCompressor::new(KEY);
    let mut out = b"[".to_vec();
    c.decompress(&block, &mut out, CompressorKind::Uncompressed).unwrap();
    assert_eq!(out, b"[raw block".to_vec());
}

#[test]
fn compressor_unsupported_kinds_fail() {
    let c = CustomCompressor::new(KEY);
    let mut out = Vec::new();
    assert!(c.decompress(&ZLIB_HELLO, &mut out, CompressorKind::Lzma).is_err());
    assert!(c.decompress(&ZLIB_HELLO, &mut out, CompressorKind::Lzo).is_err());
}

#[test]
fn compressor_kind_from_id() {
    assert_eq!(CompressorKind::from_id(0), Some(CompressorKind::Uncompressed));
    assert_eq!(CompressorKind::from_id(1), Some(CompressorKind::Gzip));
    assert_eq!(CompressorKind::from_id(4), Some(CompressorKind::Xz));
    assert_eq!(CompressorKind::from_id(6), Some(CompressorKind::Zstd));
    assert_eq!(CompressorKind::from_id(7), None);
}

#[test]
fn compressor_rejects_garbage() {
    let c = CustomCompressor::new(KEY);
    let mut out = Vec::new();
    assert!(c.decompress(&ZLIB_HELLO, &mut out, CompressorKind::Gzip).is_err());
}

#[test]
fn compressor_decrypt_block_uses_fresh_keystream() {
    let c = CustomCompressor::new(KEY);
    let mut block = ZLIB_HELLO.to_vec();
    RC4::new(&KEY).process(&mut block);
    assert_eq!(c.decrypt_block(&block), ZLIB_HELLO.to_vec());
    assert_eq!(c.decrypt_block(&block), ZLIB_HELLO.to_vec());
}

#[test]
fn transformer_without_skip() {
    let t = CustomTransformer::new_static(KEY);
    let mut buf = b"plain block".to_vec();
    RC4::new(&KEY).process(&mut buf);
    t.from(&mut buf, None).unwrap();
    assert_eq!(buf, b"plain block".to_vec());
}

#[test]
fn transformer_with_skip() {
    let t = CustomTransformer::new(KEY);
    let mut whole = b"0123456789the tail".to_vec();
    RC4::new(&KEY).process(&mut whole);
    let mut tail = whole[10..].to_vec();
    t.from(&mut tail, Some(10)).unwrap();
    assert_eq!(tail, b"the tail".to_vec());
    let mut empty: Vec<u8> = Vec::new();
    t.from(&mut empty, Some(0)).unwrap();
    assert!(empty.is_empty());
}
