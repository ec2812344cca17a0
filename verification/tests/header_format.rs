use sdcore::header::{hash_password, FileHeader001, FileHeaderObject001, Keyslot001};
use sdcore::types::{
    Aad, Algorithm, EncryptedKey, Error, HashingAlgorithm, HeaderObjectType, Key, Nonce, Params,
    Protected, Salt,
};

fn key(fill: u8) -> Key {
    Key::new(vec![fill; 32]).unwrap()
}

fn fixed_header(algorithm: Algorithm) -> FileHeader001 {
    FileHeader001 {
        aad: Aad::new(vec![0xaa; 32]).unwrap(),
        algorithm,
        nonce: Nonce::new(algorithm, vec![0xbb; algorithm.nonce_len()]).unwrap(),
        keyslots: vec![],
        objects: vec![],
    }
}

fn fixed_keyslot(algorithm: Algorithm) -> Keyslot001 {
    Keyslot001 {
        hashing_algorithm: HashingAlgorithm::Argon2id(Params::Paranoid),
        salt: Salt::new(vec![1; 16]).unwrap(),
        content_salt: Salt::new(vec![2; 16]).unwrap(),
        master_key: EncryptedKey::new(vec![3; 48]).unwrap(),
        nonce: Nonce::new(algorithm, vec![4; algorithm.nonce_len()]).unwrap(),
    }
}

fn fixed_object(algorithm: Algorithm) -> FileHeaderObject001 {
    FileHeaderObject001 {
        object_type: HeaderObjectType::PreviewMedia,
        nonce: Nonce::new(algorithm, vec![5; algorithm.nonce_len()]).unwrap(),
        data: vec![6, 7, 8],
    }
}

fn assert_same(a: &FileHeader001, b: &FileHeader001) {
    assert_eq!(a.aad.expose(), b.aad.expose());
    assert_eq!(a.algorithm, b.algorithm);
    assert_eq!(a.nonce.expose(), b.nonce.expose());
    assert_eq!(a.keyslots.len(), b.keyslots.len());
    for (x, y) in a.keyslots.iter().zip(b.keyslots.iter()) {
        assert_eq!(x.hashing_algorithm, y.hashing_algorithm);
        assert_eq!(x.salt.expose(), y.salt.expose());
        assert_eq!(x.content_salt.expose(), y.content_salt.expose());
        assert_eq!(x.master_key.expose(), y.master_key.expose());
        assert_eq!(x.nonce.expose(), y.nonce.expose());
    }
    assert_eq!(a.objects.len(), b.objects.len());
    for (x, y) in a.objects.iter().zip(b.objects.iter()) {
        assert_eq!(x.object_type, y.object_type);
        assert_eq!(x.nonce.expose(), y.nonce.expose());
        assert_eq!(x.data, y.data);
    }
}

#[test]
fn empty_header_bytes_are_exact() {
    let bytes = fixed_header(Algorithm::Aes256GcmSiv).serialize().unwrap();
    let mut expected = b"SDFH".to_vec();
    expected.push(1);
    expected.extend_from_slice(&[0xaa; 32]);
    expected.push(1);
    expected.extend_from_slice(&[0xbb; 12]);
    expected.extend_from_slice(&[0; 8]);
    expected.extend_from_slice(&[0; 8]);
    assert_eq!(bytes, expected);
    assert_eq!(bytes.len(), 66);
}

#[test]
fn full_header_bytes_are_exact() {
    let algorithm = Algorithm::XChaCha20Poly1305;
    let mut header = fixed_header(algorithm);
    header.keyslots.push(fixed_keyslot(algorithm));
    header.objects.push(fixed_object(algorithm));
    let bytes = header.serialize().unwrap();
    let mut expected = vec![0x53, 0x44, 0x46, 0x48, 1];
    expected.extend_from_slice(&[0xaa; 32]);
    expected.push(0);
    expected.extend_from_slice(&[0xbb; 20]);
    expected.extend_from_slice(&[1, 0, 0, 0, 0, 0, 0, 0]);
    expected.extend_from_slice(&[0, 2]);
    expected.extend_from_slice(&[1; 16]);
    expected.extend_from_slice(&[2; 16]);
    expected.extend_from_slice(&[3; 48]);
    expected.extend_from_slice(&[4; 20]);
    expected.extend_from_slice(&[1, 0, 0, 0, 0, 0, 0, 0]);
    expected.push(1);
    expected.extend_from_slice(&[5; 20]);
    expected.extend_from_slice(&[3, 0, 0, 0, 0, 0, 0, 0]);
    expected.extend_from_slice(&[6, 7, 8]);
    assert_eq!(bytes, expected);
}

#[test]
fn data_length_is_little_endian() {
    let algorithm = Algorithm::Aes256GcmSiv;
    let mut header = fixed_header(algorithm);
    let mut object = fixed_object(algorithm);
    object.data = vec![9; 0x0102];
    header.objects.push(object);
    let bytes = header.serialize().unwrap();
    let at = 5 + 32 + 1 + 12 + 8 + 8 + 1 + 12;
    assert_eq!(&bytes[at..at + 8], &[0x02, 0x01, 0, 0, 0, 0, 0, 0]);
    assert_eq!(bytes.len(), at + 8 + 0x0102);
    assert_same(&FileHeader001::deserialize(&bytes).unwrap(), &header);
}

#[test]
fn header_round_trips_field_for_field() {
    for algorithm in [Algorithm::XChaCha20Poly1305, Algorithm::Aes256GcmSiv] {
        for keyslots in 0..=2usize {
            for objects in 0..=2usize {
                let mut header = fixed_header(algorithm);
                for i in 0..keyslots {
                    let mut k = fixed_keyslot(algorithm);
                    k.salt = Salt::new(vec![i as u8 + 10; 16]).unwrap();
                    header.keyslots.push(k);
                }
                for i in 0..objects {
                    let mut o = fixed_object(algorithm);
                    o.data = vec![i as u8; i * 300];
                    header.objects.push(o);
                }
                let bytes = header.serialize().unwrap();
                let back = FileHeader001::deserialize(&bytes).unwrap();
                assert_same(&back, &header);
                assert_eq!(back.serialize().unwrap(), bytes);
            }
        }
    }
}

#[test]
fn headers_that_differ_in_a_field_differ_in_bytes() {
    let algorithm = Algorithm::XChaCha20Poly1305;
    let base = fixed_header(algorithm).serialize().unwrap();
    let mut other = fixed_header(algorithm);
    other.aad = Aad::new(vec![0xab; 32]).unwrap();
    assert_ne!(other.serialize().unwrap(), base);
    let mut other = fixed_header(algorithm);
    other.keyslots.push(fixed_keyslot(algorithm));
    assert_ne!(other.serialize().unwrap(), base);
    assert_eq!(fixed_header(algorithm).serialize().unwrap(), base);
}

#[test]
fn unknown_version_is_refused() {
    let mut bytes = fixed_header(Algorithm::XChaCha20Poly1305).serialize().unwrap();
    bytes[4] = 2;
    assert!(matches!(FileHeader001::deserialize(&bytes), Err(Error::UnsupportedVersion)));
    bytes[4] = 0;
    assert!(matches!(FileHeader001::deserialize(&bytes), Err(Error::UnsupportedVersion)));
}

#[test]
fn unknown_algorithm_is_refused() {
    let mut bytes = fixed_header(Algorithm::XChaCha20Poly1305).serialize().unwrap();
    bytes[37] = 2;
    assert!(matches!(FileHeader001::deserialize(&bytes), Err(Error::UnsupportedAlgorithm)));
    assert!(matches!(Algorithm::from_tag(7), Err(Error::UnsupportedAlgorithm)));
    assert!(matches!(Algorithm::from_tag(0), Ok(Algorithm::XChaCha20Poly1305)));
    assert!(matches!(Algorithm::from_tag(1), Ok(Algorithm::Aes256GcmSiv)));
}

#[test]
fn bad_magic_short_or_long_input_is_malformed() {
    let good = fixed_header(Algorithm::XChaCha20Poly1305).serialize().unwrap();
    let mut bytes = good.clone();
    bytes[0] = b'X';
    assert!(matches!(FileHeader001::deserialize(&bytes), Err(Error::Malformed)));
    assert!(matches!(FileHeader001::deserialize(&[]), Err(Error::Malformed)));
    assert!(matches!(FileHeader001::deserialize(b"SDFH"), Err(Error::Malformed)));
    for cut in 5..good.len() {
        assert!(matches!(FileHeader001::deserialize(&good[..cut]), Err(Error::Malformed)));
    }
    let mut bytes = good.clone();
    bytes.push(0);
    assert!(matches!(FileHeader001::deserialize(&bytes), Err(Error::Malformed)));
    assert!(FileHeader001::deserialize(&good).is_ok());
}

#[test]
fn counts_over_two_are_refused() {
    let good = fixed_header(Algorithm::Aes256GcmSiv).serialize().unwrap();
    let mut bytes = good.clone();
    bytes[50] = 3;
    assert!(matches!(FileHeader001::deserialize(&bytes), Err(Error::TooManyKeyslots)));
    let mut bytes = good.clone();
    bytes[58] = 3;
    assert!(matches!(FileHeader001::deserialize(&bytes), Err(Error::TooManyObjects)));
    let mut bytes = good.clone();
    bytes[57] = 1;
    assert!(matches!(FileHeader001::deserialize(&bytes), Err(Error::TooManyKeyslots)));
}

#[test]
fn unknown_tags_inside_are_malformed() {
    let algorithm = Algorithm::Aes256GcmSiv;
    let mut header = fixed_header(algorithm);
    header.keyslots.push(fixed_keyslot(algorithm));
    header.objects.push(fixed_object(algorithm));
    let good = header.serialize().unwrap();
    let slot = 5 + 32 + 1 + 12 + 8;
    let mut bytes = good.clone();
    bytes[slot] = 1;
    assert!(matches!(FileHeader001::deserialize(&bytes), Err(Error::Malformed)));
    let mut bytes = good.clone();
    bytes[slot + 1] = 3;
    assert!(matches!(FileHeader001::deserialize(&bytes), Err(Error::Malformed)));
    let object = slot + 2 + 16 + 16 + 48 + 12 + 8;
    let mut bytes = good.clone();
    bytes[object] = 2;
    assert!(matches!(FileHeader001::deserialize(&bytes), Err(Error::Malformed)));
    let mut bytes = good.clone();
    bytes[object + 1 + 12] = 4;
    assert!(matches!(FileHeader001::deserialize(&bytes), Err(Error::Malformed)));
}

#[test]
fn encrypt_decrypt_header_with_password() {
    let algorithm = Algorithm::XChaCha20Poly1305;
    let hashing = HashingAlgorithm::Argon2id(Params::Standard);
    let master = Key::generate().unwrap();
    let content_salt = Salt::generate().unwrap();
    let hashed = hash_password(hashing, &Protected::new(b"correct horse".to_vec()), &content_salt).unwrap();
    let mut header = FileHeader001::new(algorithm).unwrap();
    header.add_keyslot(hashing, content_salt, hashed, master.clone()).unwrap();
    header.add_object(HeaderObjectType::Metadata, master.clone(), b"hello").unwrap();
    let bytes = header.serialize().unwrap();
    let back = FileHeader001::deserialize(&bytes).unwrap();
    let found = back.decrypt_master_key_with_password(Protected::new(b"correct horse".to_vec())).unwrap();
    assert_eq!(found.expose(), master.expose());
    assert_eq!(back.decrypt_object(0, found).unwrap().expose().as_slice(), b"hello");
    assert!(matches!(
        back.decrypt_master_key_with_password(Protected::new(b"wrong".to_vec())),
        Err(Error::IncorrectPassword)
    ));
}

#[test]
fn bounded_capacity_keeps_serialized_bytes() {
    let mut header = FileHeader001::new(Algorithm::XChaCha20Poly1305).unwrap();
    header.add_object(HeaderObjectType::Metadata, key(1), b"a").unwrap();
    header.add_object(HeaderObjectType::Metadata, key(1), b"b").unwrap();
    let before = header.serialize().unwrap();
    assert!(matches!(
        header.add_object(HeaderObjectType::Metadata, key(1), b"c"),
        Err(Error::TooManyObjects)
    ));
    assert_eq!(header.serialize().unwrap(), before);
}

#[test]
fn password_hash_failure_is_reported() {
    let short = Salt { bytes: vec![1; 4] };
    assert!(matches!(
        hash_password(HashingAlgorithm::Argon2id(Params::Standard), &Protected::new(b"pw".to_vec()), &short),
        Err(Error::PasswordHash)
    ));
}
