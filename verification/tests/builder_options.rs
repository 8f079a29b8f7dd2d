use espresso_core::builder_options::{
    env_value, key_file_keys, key_source, KeySource, PrivateKeysError,
};

fn vars(pairs: &[(&str, &str)]) -> Vec<(String, String)> {
    pairs.iter().map(|(k, v)| (k.to_string(), v.to_string())).collect()
}

#[test]
fn key_sources() {
    assert_eq!(key_source(true, Some(1u8), None::<u8>), Ok(KeySource::KeyFile));
    assert_eq!(key_source(false, Some(1u8), Some(2u8)), Ok(KeySource::Given(1, 2)));
    assert_eq!(key_source(false, Some(1u8), None::<u8>), Err(PrivateKeysError::NoKeys));
    assert_eq!(key_source::<u8, u8>(false, None, None), Err(PrivateKeysError::NoKeys));
}

#[test]
fn later_assignments_win() {
    let v = vars(&[("A", "1"), ("B", "2"), ("A", "3")]);
    assert_eq!(env_value(&v, &"A".to_string()), Some("3".to_string()));
    assert_eq!(env_value(&v, &"B".to_string()), Some("2".to_string()));
    assert_eq!(env_value(&v, &"C".to_string()), None);
}

#[test]
fn key_file_variables() {
    let full = vars(&[
        ("ESPRESSO_BUILDER_PRIVATE_STAKING_KEY", "BLS_SIGNING_KEY~a"),
        ("ESPRESSO_BUILDER_PRIVATE_STATE_KEY", "SCHNORR_SIGNING_KEY~b"),
    ]);
    assert_eq!(
        key_file_keys(&full),
        Ok(("BLS_SIGNING_KEY~a".to_string(), "SCHNORR_SIGNING_KEY~b".to_string()))
    );
    let no_state = vars(&[("ESPRESSO_BUILDER_PRIVATE_STAKING_KEY", "x")]);
    assert_eq!(
        key_file_keys(&no_state),
        Err(PrivateKeysError::KeyFileMissing("ESPRESSO_BUILDER_PRIVATE_STATE_KEY".to_string()))
    );
    assert_eq!(
        key_file_keys(&vars(&[])),
        Err(PrivateKeysError::KeyFileMissing("ESPRESSO_BUILDER_PRIVATE_STAKING_KEY".to_string()))
    );
}
