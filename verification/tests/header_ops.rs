use sdcore::crypto::{decrypt_bytes, encrypt_bytes};
use sdcore::header::{hash_password, FileHeader001, FileHeaderObject001, Keyslot001};
use sdcore::types::{
    Aad, Algorithm, EncryptedKey, Error, HashingAlgorithm, HeaderObjectType, Key, Nonce, Params,
    Protected, Salt,
};

fn key(fill: u8) -> Key {
    Key::new(vec![fill; 32]).unwrap()
}

fn salt(fill: u8) -> Salt {
    Salt::new(vec![fill; 16]).unwrap()
}

const ALGORITHMS: [Algorithm; 2] = [Algorithm::XChaCha20Poly1305, Algorithm::Aes256GcmSiv];

#[test]
fn nonce_lengths_follow_the_cipher() {
    assert_eq!(Algorithm::XChaCha20Poly1305.nonce_len(), 20);
    assert_eq!(Algorithm::Aes256GcmSiv.nonce_len(), 12);
    assert_eq!(Nonce::generate(Algorithm::XChaCha20Poly1305).unwrap().expose().len(), 20);
    assert_eq!(Nonce::generate(Algorithm::Aes256GcmSiv).unwrap().expose().len(), 12);
}

#[test]
fn fixed_width_wrappers_refuse_other_lengths() {
    assert!(Key::new(vec![0; 32]).is_ok());
    assert!(matches!(Key::new(vec![0; 31]), Err(Error::LengthMismatch)));
    assert!(matches!(Salt::new(vec![0; 17]), Err(Error::LengthMismatch)));
    assert!(matches!(Aad::new(vec![0; 0]), Err(Error::LengthMismatch)));
    assert!(matches!(EncryptedKey::new(vec![0; 32]), Err(Error::LengthMismatch)));
    assert!(EncryptedKey::new(vec![0; 48]).is_ok());
    assert!(matches!(
        Nonce::new(Algorithm::XChaCha20Poly1305, vec![0; 12]),
        Err(Error::LengthMismatch)
    ));
    assert!(Nonce::new(Algorithm::Aes256GcmSiv, vec![0; 12]).is_ok());
}

#[test]
fn generated_values_have_their_width_and_differ() {
    let a = Key::generate().unwrap();
    let b = Key::generate().unwrap();
    assert_eq!(a.expose().len(), 32);
    assert_ne!(a.expose(), b.expose());
    assert_eq!(Salt::generate().unwrap().expose().len(), 16);
    assert_eq!(Aad::generate().unwrap().expose().len(), 32);
}

#[test]
fn derive_is_deterministic_and_depends_on_each_input() {
    let base = Key::derive(&key(1), &salt(2), "context a");
    assert_eq!(base.expose().len(), 32);
    assert_ne!(base.expose(), key(1).expose());
    assert_eq!(base.expose(), Key::derive(&key(1), &salt(2), "context a").expose());
    assert_ne!(base.expose(), Key::derive(&key(3), &salt(2), "context a").expose());
    assert_ne!(base.expose(), Key::derive(&key(1), &salt(3), "context a").expose());
    assert_ne!(base.expose(), Key::derive(&key(1), &salt(2), "context b").expose());
}

#[test]
fn derive_matches_blake3_on_key_then_salt() {
    let mut material = vec![1u8; 32];
    material.extend_from_slice(&[2u8; 16]);
    let expected = blake3::derive_key("context a", &material);
    assert_eq!(Key::derive(&key(1), &salt(2), "context a").expose().as_slice(), &expected[..]);
}

#[test]
fn encrypt_appends_a_tag_and_decrypt_inverts() {
    for algorithm in ALGORITHMS {
        let nonce = Nonce::generate(algorithm).unwrap();
        let sealed = encrypt_bytes(&key(7), &nonce, algorithm, b"hello", b"aad").unwrap();
        assert_eq!(sealed.len(), 5 + 16);
        assert_ne!(&sealed[..5], b"hello");
        let opened = decrypt_bytes(&key(7), &nonce, algorithm, &sealed, b"aad").unwrap();
        assert_eq!(opened.expose().as_slice(), b"hello");
    }
}

#[test]
fn decrypt_refuses_wrong_key_aad_or_tampering() {
    for algorithm in ALGORITHMS {
        let nonce = Nonce::generate(algorithm).unwrap();
        let sealed = encrypt_bytes(&key(7), &nonce, algorithm, b"hello", b"aad").unwrap();
        assert!(matches!(
            decrypt_bytes(&key(8), &nonce, algorithm, &sealed, b"aad"),
            Err(Error::AuthError)
        ));
        assert!(matches!(
            decrypt_bytes(&key(7), &nonce, algorithm, &sealed, b"other"),
            Err(Error::AuthError)
        ));
        let mut bent = sealed.clone();
        bent[0] ^= 1;
        assert!(matches!(
            decrypt_bytes(&key(7), &nonce, algorithm, &bent, b"aad"),
            Err(Error::AuthError)
        ));
    }
}

#[test]
fn the_two_ciphers_give_different_ciphertexts() {
    let x = encrypt_bytes(
        &key(7),
        &Nonce::new(Algorithm::XChaCha20Poly1305, vec![0; 20]).unwrap(),
        Algorithm::XChaCha20Poly1305,
        b"hello",
        b"",
    )
    .unwrap();
    let a = encrypt_bytes(
        &key(7),
        &Nonce::new(Algorithm::Aes256GcmSiv, vec![0; 12]).unwrap(),
        Algorithm::Aes256GcmSiv,
        b"hello",
        b"",
    )
    .unwrap();
    assert_ne!(x, a);
}

#[test]
fn keyslot_gives_the_master_key_to_the_right_hashed_key_only() {
    for algorithm in ALGORITHMS {
        let slot = Keyslot001::new(
            algorithm,
            HashingAlgorithm::Argon2id(Params::Standard),
            salt(1),
            key(2),
            key(3),
        )
        .unwrap();
        assert_eq!(slot.master_key.expose().len(), 48);
        assert_eq!(slot.content_salt.expose(), salt(1).expose());
        let out = slot.decrypt(algorithm, key(2)).unwrap();
        assert_eq!(out.expose(), key(3).expose());
        assert!(matches!(slot.decrypt(algorithm, key(4)), Err(Error::AuthError)));
    }
}

#[test]
fn keyslot_seal_is_a_function_of_its_parts() {
    let algorithm = Algorithm::XChaCha20Poly1305;
    let make = || {
        Keyslot001::seal(
            algorithm,
            HashingAlgorithm::Argon2id(Params::Hardened),
            salt(9),
            salt(1),
            Nonce::new(algorithm, vec![5; 20]).unwrap(),
            &key(2),
            &key(3),
        )
        .unwrap()
    };
    let a = make();
    let b = make();
    assert_eq!(a.master_key.expose(), b.master_key.expose());
    assert_eq!(a.salt.expose(), salt(9).expose());
    assert_eq!(a.nonce.expose(), &vec![5u8; 20]);
    assert_eq!(a.hashing_algorithm, HashingAlgorithm::Argon2id(Params::Hardened));
    assert_eq!(a.decrypt(algorithm, key(2)).unwrap().expose(), key(3).expose());
}

#[test]
fn object_opens_to_what_was_sealed() {
    for algorithm in ALGORITHMS {
        let aad = Aad::generate().unwrap();
        let object = FileHeaderObject001::new(
            HeaderObjectType::Metadata,
            algorithm,
            key(3),
            aad.clone(),
            b"hello",
        )
        .unwrap();
        assert_eq!(object.object_type, HeaderObjectType::Metadata);
        assert_eq!(object.data.len(), 21);
        assert_eq!(object.decrypt(algorithm, aad.clone(), key(3)).unwrap().expose().as_slice(), b"hello");
        assert!(matches!(object.decrypt(algorithm, aad, key(4)), Err(Error::AuthError)));
        let other = Aad::new(vec![0; 32]).unwrap();
        assert!(matches!(object.decrypt(algorithm, other, key(3)), Err(Error::AuthError)));
    }
}

#[test]
fn new_header_is_empty() {
    for algorithm in ALGORITHMS {
        let header = FileHeader001::new(algorithm).unwrap();
        assert_eq!(header.get_algorithm(), algorithm);
        assert_eq!(header.count_keyslots(), 0);
        assert_eq!(header.count_objects(), 0);
        assert_eq!(header.get_aad().expose().len(), 32);
        assert_eq!(header.get_nonce().expose().len(), algorithm.nonce_len());
    }
}

#[test]
fn empty_header_has_no_keyslots_to_try() {
    let header = FileHeader001::new(Algorithm::XChaCha20Poly1305).unwrap();
    assert!(matches!(header.decrypt_master_key(vec![key(1)]), Err(Error::NoKeyslots)));
    assert!(matches!(header.decrypt_master_key(vec![]), Err(Error::NoKeyslots)));
    assert!(matches!(
        header.decrypt_master_key_with_password(Protected::new(b"pw".to_vec())),
        Err(Error::NoKeyslots)
    ));
}

#[test]
fn third_keyslot_is_refused_and_header_unchanged() {
    let mut header = FileHeader001::new(Algorithm::XChaCha20Poly1305).unwrap();
    let h = HashingAlgorithm::Argon2id(Params::Standard);
    header.add_keyslot(h, salt(1), key(1), key(9)).unwrap();
    header.add_keyslot(h, salt(2), key(2), key(9)).unwrap();
    assert_eq!(header.count_keyslots(), 2);
    let before: Vec<Vec<u8>> =
        header.keyslots.iter().map(|k| k.master_key.expose().clone()).collect();
    assert!(matches!(header.add_keyslot(h, salt(3), key(3), key(9)), Err(Error::TooManyKeyslots)));
    assert_eq!(header.count_keyslots(), 2);
    let after: Vec<Vec<u8>> =
        header.keyslots.iter().map(|k| k.master_key.expose().clone()).collect();
    assert_eq!(before, after);
}

#[test]
fn third_object_is_refused_and_header_unchanged() {
    let mut header = FileHeader001::new(Algorithm::Aes256GcmSiv).unwrap();
    header.add_object(HeaderObjectType::Metadata, key(9), b"one").unwrap();
    header.add_object(HeaderObjectType::PreviewMedia, key(9), b"two").unwrap();
    let before: Vec<Vec<u8>> = header.objects.iter().map(|o| o.data.clone()).collect();
    assert!(matches!(
        header.add_object(HeaderObjectType::Metadata, key(9), b"three"),
        Err(Error::TooManyObjects)
    ));
    assert_eq!(header.count_objects(), 2);
    let after: Vec<Vec<u8>> = header.objects.iter().map(|o| o.data.clone()).collect();
    assert_eq!(before, after);
}

#[test]
fn objects_are_addressed_by_index() {
    let mut header = FileHeader001::new(Algorithm::XChaCha20Poly1305).unwrap();
    assert!(matches!(header.decrypt_object(0, key(9)), Err(Error::Index)));
    header.add_object(HeaderObjectType::Metadata, key(9), b"one").unwrap();
    header.add_object(HeaderObjectType::PreviewMedia, key(9), b"two").unwrap();
    assert_eq!(header.decrypt_object(0, key(9)).unwrap().expose().as_slice(), b"one");
    assert_eq!(header.decrypt_object(1, key(9)).unwrap().expose().as_slice(), b"two");
    assert!(matches!(header.decrypt_object(2, key(9)), Err(Error::Index)));
    assert!(matches!(header.decrypt_object(0, key(8)), Err(Error::AuthError)));
}

#[test]
fn trial_decryption_returns_first_success() {
    let mut header = FileHeader001::new(Algorithm::XChaCha20Poly1305).unwrap();
    let h = HashingAlgorithm::Argon2id(Params::Standard);
    header.add_keyslot(h, salt(1), key(1), key(10)).unwrap();
    header.add_keyslot(h, salt(2), key(2), key(20)).unwrap();
    let out = header.decrypt_master_key(vec![key(5), key(2), key(1)]).unwrap();
    assert_eq!(out.expose(), key(20).expose());
    let out = header.decrypt_master_key(vec![key(1), key(2)]).unwrap();
    assert_eq!(out.expose(), key(10).expose());
    assert!(matches!(
        header.decrypt_master_key(vec![key(5), key(6)]),
        Err(Error::IncorrectPassword)
    ));
    assert!(matches!(header.decrypt_master_key(vec![]), Err(Error::IncorrectPassword)));
}

#[test]
fn object_opens_with_master_key_from_trial_decryption() {
    let mut header = FileHeader001::new(Algorithm::Aes256GcmSiv).unwrap();
    let master = Key::generate().unwrap();
    let h = HashingAlgorithm::Argon2id(Params::Standard);
    header.add_keyslot(h, salt(1), key(1), master.clone()).unwrap();
    header.add_object(HeaderObjectType::Metadata, master.clone(), b"payload").unwrap();
    let found = header.decrypt_master_key(vec![key(1)]).unwrap();
    assert_eq!(found.expose(), master.expose());
    assert_eq!(header.decrypt_object(0, found).unwrap().expose().as_slice(), b"payload");
}

#[test]
fn password_hash_is_argon2id_with_the_level_costs() {
    let hashed =
        hash_password(HashingAlgorithm::Argon2id(Params::Standard), &Protected::new(b"pw".to_vec()), &salt(4))
            .unwrap();
    let params = argon2::Params::new(19_456, 2, 1, Some(32)).unwrap();
    let reference = argon2::Argon2::new(argon2::Algorithm::Argon2id, argon2::Version::V0x13, params);
    let mut expected = [0u8; 32];
    reference.hash_password_into(b"pw", &[4u8; 16], &mut expected).unwrap();
    assert_eq!(hashed.expose().as_slice(), &expected[..]);
    assert_eq!(Params::Standard.argon2_m_cost(), 19_456);
    assert_eq!(Params::Standard.argon2_t_cost(), 2);
    assert_eq!(Params::Standard.argon2_p_cost(), 1);
    assert_eq!(Params::Hardened.argon2_m_cost(), 65_536);
    assert_eq!(Params::Paranoid.argon2_m_cost(), 262_144);
}

#[test]
fn two_keyslots_second_wins() {
    let algorithm = Algorithm::XChaCha20Poly1305;
    let h = HashingAlgorithm::Argon2id(Params::Standard);
    let master = Key::generate().unwrap();
    let mut header = FileHeader001::new(algorithm).unwrap();
    let salt_a = Salt::generate().unwrap();
    let salt_b = Salt::generate().unwrap();
    let hashed_a = hash_password(h, &Protected::new(b"password A".to_vec()), &salt_a).unwrap();
    let hashed_b = hash_password(h, &Protected::new(b"password B".to_vec()), &salt_b).unwrap();
    header.add_keyslot(h, salt_a, hashed_a, master.clone()).unwrap();
    header.add_keyslot(h, salt_b, hashed_b, master.clone()).unwrap();
    let found = header.decrypt_master_key_with_password(Protected::new(b"password B".to_vec())).unwrap();
    assert_eq!(found.expose(), master.expose());
    let found = header.decrypt_master_key_with_password(Protected::new(b"password A".to_vec())).unwrap();
    assert_eq!(found.expose(), master.expose());
    assert!(matches!(
        header.decrypt_master_key_with_password(Protected::new(b"password C".to_vec())),
        Err(Error::IncorrectPassword)
    ));
}

#[test]
fn keys_compare_by_content() {
    assert!(key(1).ct_eq(&key(1)));
    assert!(!key(1).ct_eq(&key(2)));
    let mut other = vec![1u8; 32];
    other[31] = 0;
    assert!(!key(1).ct_eq(&Key::new(other).unwrap()));
    let a = Key::generate().unwrap();
    assert!(a.ct_eq(&a.clone()));
}

#[test]
fn cloned_header_has_the_same_fields() {
    let mut header = FileHeader001::new(Algorithm::XChaCha20Poly1305).unwrap();
    let h = HashingAlgorithm::Argon2id(Params::Standard);
    header.add_keyslot(h, salt(1), key(1), key(10)).unwrap();
    header.add_object(HeaderObjectType::Metadata, key(10), b"one").unwrap();
    let copy = header.clone();
    assert_eq!(copy.serialize().unwrap(), header.serialize().unwrap());
    assert_eq!(copy.decrypt_object(0, key(10)).unwrap().expose().as_slice(), b"one");
}

#[test]
fn header_from_parts_holds_the_parts() {
    let algorithm = Algorithm::Aes256GcmSiv;
    let header = FileHeader001::from_parts(
        algorithm,
        Aad::new(vec![7; 32]).unwrap(),
        Nonce::new(algorithm, vec![8; 12]).unwrap(),
    );
    assert_eq!(header.get_aad().expose(), &vec![7u8; 32]);
    assert_eq!(header.get_nonce().expose(), &vec![8u8; 12]);
    assert_eq!(header.get_algorithm(), algorithm);
    assert_eq!(header.count_keyslots(), 0);
    assert_eq!(header.count_objects(), 0);
}

#[test]
fn sealed_lengths_carry_the_tag() {
    for algorithm in ALGORITHMS {
        for n in [0usize, 1, 100] {
            let nonce = Nonce::generate(algorithm).unwrap();
            let sealed = encrypt_bytes(&key(7), &nonce, algorithm, &vec![3; n], b"").unwrap();
            assert_eq!(sealed.len(), n + 16);
            let opened = decrypt_bytes(&key(7), &nonce, algorithm, &sealed, b"").unwrap();
            assert_eq!(opened.expose().len() + 16, sealed.len());
        }
        let mut header = FileHeader001::new(algorithm).unwrap();
        header.add_object(HeaderObjectType::Metadata, key(1), b"hello").unwrap();
        assert_eq!(header.objects[0].data.len(), 5 + 16);
        header
            .add_keyslot(HashingAlgorithm::Argon2id(Params::Standard), salt(1), key(2), key(1))
            .unwrap();
        assert_eq!(header.keyslots[0].master_key.expose().len(), 32 + 16);
    }
}
