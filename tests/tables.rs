use squashfs_rc4::rc4::RC4;
use squashfs_rc4::tables::{
    decrypt_header, resolve_table, unlock_image, TableError, TableOffsets, UnlockError,
};
use squashfs_rc4::superblock::DecodeError;

const KEY: [u8; 16] = [1, 2, 3, 4, 5, 6, 7, 8, 9, 10, 11, 12, 13, 14, 15, 16];

fn plain_image() -> Vec<u8> {
    let mut b: Vec<u8> = Vec::new();
    b.extend_from_slice(b"hsqs");
    b.extend_from_slice(&5u32.to_le_bytes());
    b.extend_from_slice(&0u32.to_le_bytes());
    b.extend_from_slice(&131072u32.to_le_bytes());
    b.extend_from_slice(&1u32.to_le_bytes());
    b.extend_from_slice(&1u16.to_le_bytes());
    b.extend_from_slice(&17u16.to_le_bytes());
    b.extend_from_slice(&0u16.to_le_bytes());
    b.extend_from_slice(&1u16.to_le_bytes());
    b.extend_from_slice(&4u16.to_le_bytes());
    b.extend_from_slice(&0u16.to_le_bytes());
    b.extend_from_slice(&0u64.to_le_bytes());
    b.extend_from_slice(&200u64.to_le_bytes());
    b.extend_from_slice(&150u64.to_le_bytes()); // id lookup
    b.extend_from_slice(&u64::MAX.to_le_bytes()); // no xattr table
    b.extend_from_slice(&96u64.to_le_bytes());
    b.extend_from_slice(&100u64.to_le_bytes());
    b.extend_from_slice(&120u64.to_le_bytes()); // fragment lookup
    b.extend_from_slice(&u64::MAX.to_le_bytes()); // no export table
    b.resize(200, 0x5a);
    b[120..128].copy_from_slice(&170u64.to_le_bytes());
    b[170..172].copy_from_slice(&0x8010u16.to_le_bytes());
    b[150..158].copy_from_slice(&180u64.to_le_bytes());
    b
}

fn enciphered_image() -> Vec<u8> {
    let mut b = plain_image();
    RC4::new(&KEY).process(&mut b[..96]);
    let mut rc4 = RC4::new(&KEY);
    rc4.process(&mut b[120..128]);
    rc4.process(&mut b[170..172]);
    RC4::new(&KEY).process(&mut b[150..158]);
    b
}

#[test]
fn unlock_recovers_header_and_tables() {
    let mut image = enciphered_image();
    let (sb, offsets) = unlock_image(&mut image, &KEY).unwrap();
    assert_eq!(sb.block_size, 131072);
    assert_eq!(sb.frag_table, Some(120));
    assert_eq!(sb.export_table, None);
    assert_eq!(sb.id_table, 150);
    assert_eq!(offsets, TableOffsets { fragment: Some(170), export: None, id: 180 });
    assert_eq!(image, plain_image());
}

#[test]
fn unlock_with_wrong_key_fails_on_header() {
    let mut image = enciphered_image();
    let wrong = [9u8; 16];
    assert!(matches!(unlock_image(&mut image, &wrong), Err(UnlockError::Header(_))));
}

#[test]
fn unlock_short_image_is_truncated() {
    let mut image = vec![0u8; 50];
    assert_eq!(
        unlock_image(&mut image, &KEY),
        Err(UnlockError::Header(DecodeError::TruncatedBuffer))
    );
    assert_eq!(image, vec![0u8; 50]);
}

#[test]
fn decrypt_header_deciphers_first_bytes_only() {
    let mut image = enciphered_image();
    let before = image.clone();
    let sb = decrypt_header(&mut image, &KEY).unwrap();
    assert_eq!(sb.inode_count, 5);
    assert_eq!(&image[..96], &plain_image()[..96]);
    assert_eq!(&image[96..], &before[96..]);
}

#[test]
fn resolve_table_continues_keystream_into_length() {
    let mut image = enciphered_image();
    assert_eq!(resolve_table(&mut image, &KEY, 120, 2), Ok(170));
    assert_eq!(&image[170..172], &0x8010u16.to_le_bytes());
}

#[test]
fn resolve_table_lookup_past_end() {
    let mut image = enciphered_image();
    assert_eq!(resolve_table(&mut image, &KEY, 195, 2), Err(TableError::LookupOutOfBounds));
    assert_eq!(resolve_table(&mut image, &KEY, u64::MAX, 0), Err(TableError::LookupOutOfBounds));
    assert_eq!(image, enciphered_image());
}

#[test]
fn resolve_table_target_past_end() {
    let mut image = vec![0u8; 64];
    image[0..8].copy_from_slice(&63u64.to_le_bytes());
    RC4::new(&KEY).process(&mut image[0..8]);
    assert_eq!(resolve_table(&mut image, &KEY, 0, 2), Err(TableError::TableOutOfBounds));
    assert_eq!(&image[0..8], &63u64.to_le_bytes());
}
