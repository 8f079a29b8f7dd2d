use espresso_core::keygen::{
    key_env_lines, parse_seed, seed_from_bytes, InvalidSeedLength, Scheme, SeedError,
};

#[test]
fn scheme_names_and_keys() {
    assert_eq!(Scheme::default(), Scheme::All);
    assert_eq!(Scheme::All.name(), "all");
    assert_eq!(Scheme::Bls.name(), "bls");
    assert_eq!(Scheme::Schnorr.name(), "schnorr");
    assert!(Scheme::All.makes_staking_key() && Scheme::All.makes_state_key());
    assert!(Scheme::Bls.makes_staking_key() && !Scheme::Bls.makes_state_key());
    assert!(!Scheme::Schnorr.makes_staking_key() && Scheme::Schnorr.makes_state_key());
}

#[test]
fn env_lines_of_a_key_set() {
    assert_eq!(
        key_env_lines(Some(("BLS_VER_KEY~x", "BLS_SIGNING_KEY~y")), Some(("SCHNORR_VER_KEY~z", "SCHNORR_SIGNING_KEY~w"))),
        vec![
            "ESPRESSO_SEQUENCER_PUBLIC_STAKING_KEY=BLS_VER_KEY~x".to_string(),
            "ESPRESSO_SEQUENCER_PRIVATE_STAKING_KEY=BLS_SIGNING_KEY~y".to_string(),
            "ESPRESSO_SEQUENCER_PUBLIC_STATE_KEY=SCHNORR_VER_KEY~z".to_string(),
            "ESPRESSO_SEQUENCER_PRIVATE_STATE_KEY=SCHNORR_SIGNING_KEY~w".to_string(),
        ]
    );
    assert_eq!(
        key_env_lines(None, Some(("a", "b"))),
        vec![
            "ESPRESSO_SEQUENCER_PUBLIC_STATE_KEY=a".to_string(),
            "ESPRESSO_SEQUENCER_PRIVATE_STATE_KEY=b".to_string(),
        ]
    );
    assert!(key_env_lines(None, None).is_empty());
}

#[test]
fn seeds_must_be_32_bytes() {
    let bytes: Vec<u8> = (0u8..32).collect();
    let seed = seed_from_bytes(&bytes).unwrap();
    assert_eq!(seed.to_vec(), bytes);
    assert_eq!(seed_from_bytes(&[1, 2, 3]), Err(InvalidSeedLength { len: 3 }));
    assert_eq!(seed_from_bytes(&[0u8; 33]), Err(InvalidSeedLength { len: 33 }));
}

#[test]
fn seeds_from_hex() {
    let hex: String = (0u8..32).map(|b| format!("{b:02x}")).collect();
    let expected: Vec<u8> = (0u8..32).collect();
    assert_eq!(parse_seed(&hex).unwrap().to_vec(), expected);
    assert_eq!(parse_seed(&format!("0x{hex}")).unwrap().to_vec(), expected);
    assert_eq!(
        parse_seed("0102"),
        Err(SeedError::InvalidLength(InvalidSeedLength { len: 2 }))
    );
    assert!(matches!(parse_seed("zz"), Err(SeedError::InvalidHex(_))));
    assert_eq!(parse_seed("123"), Err(SeedError::InvalidHex("odd number of digits".to_string())));
    let upper: String = (0u8..32).map(|b| format!("{b:02X}")).collect();
    assert_eq!(parse_seed(&format!("0X{upper}")).unwrap().to_vec(), expected);
}
