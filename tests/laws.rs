use squashfs_rc4::rc4::RC4;

fn process_with(key: &[u8], data: &[u8]) -> Vec<u8> {
    let mut rc4 = RC4::new(key);
    let mut out = data.to_vec();
    rc4.process(&mut out);
    out
}

#[test]
fn process_twice_restores_bytes() {
    let data: Vec<u8> = (0..=255u8).chain(0..=255u8).collect();
    for key in [&[0x42u8][..], b"a longer key with many bytes", &[0u8; 256][..]] {
        let once = process_with(key, &data);
        assert_ne!(once, data);
        assert_eq!(process_with(key, &once), data);
    }
}

#[test]
fn chunked_processing_matches_one_call() {
    let key = b"ChunkKey";
    let data: Vec<u8> = (0..100u8).collect();
    let whole = process_with(key, &data);
    let mut rc4 = RC4::new(key);
    let mut out = Vec::new();
    for chunk in data.chunks(7) {
        let mut c = chunk.to_vec();
        rc4.process(&mut c);
        out.extend_from_slice(&c);
    }
    assert_eq!(out, whole);
    let mut rc4 = RC4::new(key);
    let mut c = data.clone();
    rc4.process(&mut c[..10]);
    rc4.process(&mut c[10..10]);
    rc4.process(&mut c[10..]);
    assert_eq!(c, whole);
}

#[test]
fn skip_ahead_recovers_suffix() {
    let key = b"SkipAhead";
    let a = b"header bytes that get skipped";
    let b = b"then the part we want";
    let mut joined = a.to_vec();
    joined.extend_from_slice(b);
    let cipher = process_with(key, &joined);
    let mut rc4 = RC4::new(key);
    let mut discard = vec![0xffu8; a.len()];
    rc4.process(&mut discard);
    let mut suffix = cipher[a.len()..].to_vec();
    rc4.process(&mut suffix);
    assert_eq!(suffix, b.to_vec());
}

#[test]
fn process_range_leaves_other_bytes() {
    let key = b"RangeKey";
    let data: Vec<u8> = (0..40u8).collect();
    let mut rc4 = RC4::new(key);
    let mut out = data.clone();
    rc4.process_range(&mut out, 10, 5);
    assert_eq!(&out[..10], &data[..10]);
    assert_eq!(&out[15..], &data[15..]);
    assert_eq!(&out[10..15], &process_with(key, &data[10..15])[..]);
}

#[test]
fn init_resets_the_keystream() {
    let key = b"ResetKey";
    let mut rc4 = RC4::new(key);
    let mut first = vec![0u8; 16];
    rc4.process(&mut first);
    rc4.init(key);
    let mut again = vec![0u8; 16];
    rc4.process(&mut again);
    assert_eq!(first, again);
}

#[test]
fn known_answer_second_key() {
    // 40-bit key from the same published vector set.
    let mut rc4 = RC4::new(&[0x01, 0x02, 0x03, 0x04, 0x05]);
    let mut data = [0u8; 16];
    rc4.process(&mut data);
    assert_eq!(
        data,
        [0xb2, 0x39, 0x63, 0x05, 0xf0, 0x3d, 0xc0, 0x27, 0xcc, 0xc3, 0x52, 0x4a, 0x0a, 0x11, 0x18, 0xa8]
    );
}

#[test]
fn repeated_key_gives_same_keystream() {
    // Key scheduling reads the key cyclically, so a key and its repetition agree.
    let plain = b"Same plaintext".to_vec();
    assert_eq!(process_with(b"ab", &plain), process_with(b"abab", &plain));
    assert_ne!(process_with(b"ab", &plain), process_with(b"ba", &plain));
}

#[test]
fn chunked_prefix_then_data_matches_one_call() {
    let key = b"ChunkedPrefix";
    let prefix: Vec<u8> = (0..50u8).collect();
    let data: Vec<u8> = (100..130u8).collect();
    let mut whole = prefix.clone();
    whole.extend_from_slice(&data);
    let mut e1 = RC4::new(key);
    e1.process(&mut whole);
    let mut e2 = RC4::new(key);
    let mut out = Vec::new();
    for chunk in prefix.chunks(3) {
        let mut c = chunk.to_vec();
        e2.process(&mut c);
        out.extend_from_slice(&c);
    }
    let mut d = data.clone();
    e2.process(&mut d);
    out.extend_from_slice(&d);
    assert_eq!(out, whole);
    let mut n1 = vec![0u8; 8];
    let mut n2 = vec![0u8; 8];
    e1.process(&mut n1);
    e2.process(&mut n2);
    assert_eq!(n1, n2);
}
