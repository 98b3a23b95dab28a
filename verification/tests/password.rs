use django_auth::{django_auth, django_encode_password, Error};

#[test]
fn test_django_auth() {
    let res = django_auth(
        "hello",
        "pbkdf2_sha256$180000$btQDcwXF2RoK6Q$D4cC7bgbaIZGHsTdw9TYhRfuLfLGbsZlI4Rp802e7kU=",
    )
    .unwrap();

    assert!(res);

    let res = django_auth(
        "hello",
        "pbkdf2_sha256$180000$btQDcwXF2RoK6Q$D4cC7bgbaIZGHsTdw9TYhRfuLfLGbsZlI4Rp802e7kU",
    )
    .unwrap();
    assert!(!res);

    let res = django_auth("world", "abc$edf");
    assert!(res.is_err());
}

#[test]
fn test_djaongo_encode_password() {
    let password = "hello";
    let encoded_password = django_encode_password(password, "btQDcwXF2RoK6Q", 0)
        .expect("django_encode_password failed");
    assert_eq!(
        encoded_password,
        "pbkdf2_sha256$180000$btQDcwXF2RoK6Q$D4cC7bgbaIZGHsTdw9TYhRfuLfLGbsZlI4Rp802e7kU="
    );
    let res = django_auth(password, &encoded_password).expect("auth failed");
    assert!(res);

    let password = "hello";
    let res = django_encode_password(password, "btQDcwXF$2RoK6Q", 0);
    assert!(res.is_err());

    let password = "hello";
    let encoded_password = django_encode_password(password, "btQDcwXF2RoK6Q", 10)
        .expect("django_encode_password failed");
    assert_ne!(
        encoded_password,
        "pbkdf2_sha256$180000$btQDcwXF2RoK6Q$D4cC7bgbaIZGHsTdw9TYhRfuLfLGbsZlI4Rp802e7kU="
    );

    let password = "hello";
    let encoded_password = django_encode_password(password, "btQDcwXF2RoK6Qx", 0)
        .expect("django_encode_password failed");
    assert_ne!(
        encoded_password,
        "pbkdf2_sha256$180000$btQDcwXF2RoK6Q$D4cC7bgbaIZGHsTdw9TYhRfuLfLGbsZlI4Rp802e7kU="
    );
}

#[test]
fn round_trip() {
    let encoded = django_encode_password("secret", "NaClNaCl", 10).unwrap();
    assert!(django_auth("secret", &encoded).unwrap());
}

#[test]
fn round_trip_empty_password_and_salt() {
    let encoded = django_encode_password("", "", 3).unwrap();
    assert!(django_auth("", &encoded).unwrap());
}

#[test]
fn encoded_record_shape() {
    let encoded = django_encode_password("secret", "NaClNaCl", 10).unwrap();
    let fields: Vec<&str> = encoded.split('$').collect();
    assert_eq!(fields.len(), 4);
    assert_eq!(fields[0], "pbkdf2_sha256");
    assert_eq!(fields[1], "10");
    assert_eq!(fields[2], "NaClNaCl");
    assert_eq!(fields[3].len(), 44);
}

#[test]
fn zero_iterations_means_default() {
    let implicit = django_encode_password("pw", "somesalt", 0).unwrap();
    let explicit = django_encode_password("pw", "somesalt", 180000).unwrap();
    assert_eq!(implicit, explicit);
    let fields: Vec<&str> = implicit.split('$').collect();
    assert_eq!(fields[1], "180000");
}

#[test]
fn wrong_password_is_false() {
    let encoded = django_encode_password("hello", "NaClNaCl", 10).unwrap();
    assert_eq!(django_auth("other", &encoded).unwrap(), false);
}

#[test]
fn tampered_digest_is_false() {
    let encoded = django_encode_password("hello", "NaClNaCl", 10).unwrap();
    let mut tampered = String::from(&encoded[..encoded.len() - 1]);
    let last = encoded.chars().last().unwrap();
    tampered.push(if last == 'A' { 'B' } else { 'A' });
    assert_eq!(django_auth("hello", &tampered).unwrap(), false);
}

#[test]
fn tampered_digest_with_dollar_is_false() {
    let encoded = django_encode_password("hello", "NaClNaCl", 10).unwrap();
    let mut tampered = String::from(&encoded[..encoded.len() - 1]);
    tampered.push('$');
    assert_eq!(django_auth("hello", &tampered).unwrap(), false);
}

#[test]
fn truncated_digest_is_false() {
    let encoded = django_auth(
        "hello",
        "pbkdf2_sha256$180000$btQDcwXF2RoK6Q$D4cC7bgbaIZGHsTdw9TYhRfuLfLGbsZlI4Rp802e7kU",
    );
    assert_eq!(encoded.unwrap(), false);
}

#[test]
fn salt_with_dollar_is_invalid() {
    let res = django_encode_password("anything", "a$b", 7);
    assert!(matches!(res, Err(Error::InvalidSalt(_))));
}

#[test]
fn unsupported_algorithm_is_reported() {
    let res = django_auth("pw", "bcrypt$12$somesalt$somedigest");
    match res {
        Err(Error::UnsupportedAlgorithm(alg)) => assert_eq!(alg, "bcrypt"),
        _ => panic!("expected UnsupportedAlgorithm"),
    }
}

#[test]
fn too_few_fields_is_invalid() {
    let res = django_auth("world", "abc$edf");
    assert!(matches!(res, Err(Error::InvalidEncodedPassword(_))));
}

#[test]
fn non_numeric_iterations_is_invalid() {
    let res = django_auth("pw", "pbkdf2_sha256$abc$somesalt$somedigest");
    assert!(matches!(res, Err(Error::InvalidEncodedPassword(_))));
}

#[test]
fn overflowing_iterations_is_invalid() {
    let res = django_auth("pw", "pbkdf2_sha256$99999999999$somesalt$somedigest");
    assert!(matches!(res, Err(Error::InvalidEncodedPassword(_))));
}

#[test]
fn plus_signed_iterations_parse_but_mismatch() {
    let encoded = django_encode_password("pw", "somesalt", 10).unwrap();
    let signed = encoded.replacen("$10$", "$+10$", 1);
    assert_eq!(django_auth("pw", &signed).unwrap(), false);
}

#[test]
fn extra_fields_are_taken_but_record_mismatches() {
    let mut extended = django_encode_password("pw", "somesalt", 10).unwrap();
    extended.push_str("$junk");
    assert_eq!(django_auth("pw", &extended).unwrap(), false);
}
