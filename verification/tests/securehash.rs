use bead::securehash::{calculate_content_id, frame, hash_bytes, listing};
use sha2::Digest;

#[test]
fn test_hash_bytes() {
    let data = b"test content";
    let hash = hash_bytes(data);

    // Should be a valid SHA-512 hex string (128 chars)
    assert_eq!(hash.len(), 128);
    assert!(hash.chars().all(|c| c.is_ascii_hexdigit()));
}

#[test]
fn test_hash_bytes_consistency() {
    let data = b"test content";
    let hash1 = hash_bytes(data);
    let hash2 = hash_bytes(data);

    // Same data should produce same hash
    assert_eq!(hash1, hash2);
}

#[test]
fn test_hash_bytes_different() {
    let data1 = b"content1";
    let data2 = b"content2";
    let hash1 = hash_bytes(data1);
    let hash2 = hash_bytes(data2);

    // Different data should produce different hashes
    assert_ne!(hash1, hash2);
}

#[test]
fn test_calculate_content_id() {
    let file_hashes =
        vec![("file1.txt".to_string(), "hash1".to_string()), ("file2.txt".to_string(), "hash2".to_string())];

    let content_id = calculate_content_id(&file_hashes);

    // Should be a valid SHA-512 hex string
    assert_eq!(content_id.len(), 128);
    assert!(content_id.chars().all(|c| c.is_ascii_hexdigit()));
}

#[test]
fn test_calculate_content_id_order_matters() {
    let hashes1 =
        vec![("file1.txt".to_string(), "hash1".to_string()), ("file2.txt".to_string(), "hash2".to_string())];

    let hashes2 =
        vec![("file2.txt".to_string(), "hash2".to_string()), ("file1.txt".to_string(), "hash1".to_string())];

    let id1 = calculate_content_id(&hashes1);
    let id2 = calculate_content_id(&hashes2);

    // Order should matter
    assert_ne!(id1, id2);
}

#[test]
fn the_digest_is_that_of_the_content_between_its_length() {
    // SHA-512 of `12:test content;12`
    assert_eq!(hash_bytes(b"test content"), "0062ebe38e0765993bba3ca43d77c2d5129459238eceb8c4fa586f342c402efadd6eb11a226efc3d5f7739e8a92f0612c4a57e9b305d548db0bfdff8f58b8011");
    // SHA-512 of `0:;0`
    assert_eq!(hash_bytes(b""), "5b60b8cea7aad166b6156699f603f8a539019b1fd3cccaa269ad9a3cf2e8c6bd74aad43ba9cb0d0d2fe62f6780fe219ab7c8e7555c7bb409631bca1215777574");
    // the frame is part of what is hashed
    assert_ne!(hash_bytes(b""), "cf83e1357eefb8bdf1542850d66d8007d620e4050b5715dc83f4a921d36ce9ce47d0d13c5d85f2b0ff8318d2877eec2f63b931bd47417a81a538327af927da3e");
}

#[test]
fn the_content_id_is_the_digest_of_one_line_per_file() {
    // SHA-512 of `file1.txt:hash1\nfile2.txt:hash2\n`
    let files = vec![("file1.txt".to_string(), "hash1".to_string()), ("file2.txt".to_string(), "hash2".to_string())];
    assert_eq!(calculate_content_id(&files), "0603ffb5a85087baf90064a8ae0344995292e02ddbc8bb1e2ec15ac9ba409cd6e9e02bdb9d7774abc1631a8a599eb546aedcc02ac6bfdee3b0a05801fbe1d63a");
    // SHA-512 of nothing
    assert_eq!(calculate_content_id(&[]), "cf83e1357eefb8bdf1542850d66d8007d620e4050b5715dc83f4a921d36ce9ce47d0d13c5d85f2b0ff8318d2877eec2f63b931bd47417a81a538327af927da3e");
}

#[test]
fn lengths_of_several_digits_are_written_in_decimal() {
    let long = vec![b'x'; 1234];
    let mut framed = b"1234:".to_vec();
    framed.extend_from_slice(&long);
    framed.extend_from_slice(b";1234");
    assert_eq!(hash_bytes(&long), format!("{:x}", sha2::Sha512::digest(&framed)));
}

#[test]
fn what_is_hashed_is_the_content_between_its_length() {
    assert_eq!(frame(b"test content"), b"12:test content;12".to_vec());
    assert_eq!(frame(b""), b"0:;0".to_vec());
    assert_eq!(frame(&[0u8; 10]).len(), 3 + 10 + 3);
    assert_eq!(&frame(&vec![1u8; 100500])[..7], b"100500:");
    let files = vec![("a/b.txt".to_string(), "h1".to_string()), ("ü".to_string(), "h2".to_string())];
    assert_eq!(listing(&files), "a/b.txt:h1\nü:h2\n".as_bytes().to_vec());
    assert_eq!(listing(&[]), Vec::<u8>::new());
}
