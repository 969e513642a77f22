use velos::auth::{
    authentication_verdict, bootstrap_expiry, ADMIN_NAME, bootstrap_verdict, credential_record, credential_verdict, fresh_token, issued_credential, split_credential,
    token_record, AuthError, Identity, Secret,
};
use velos::clock::UtcTime;
use velos::json::Json;

#[test]
fn secret_never_leaks_through_debug() {
    let s = Secret::new("super-secret");
    assert_eq!(s.debug_text(), "Secret(***)");
    assert!(!s.debug_text().contains("super-secret"));
}

#[test]
fn hash_is_hex_sha256_of_the_secret() {
    assert_eq!(
        Secret::new("abc").hash(),
        "ba7816bf8f01cfea414140de5dae2223b00361a396177a9cb410ff61f20015ad"
    );
    assert_eq!(
        Secret::new("").hash(),
        "e3b0c44298fc1c149afbf4c8996fb92427ae41e4649b934ca495991b7852b855"
    );
    assert_eq!(Secret::new("abc").expose(), "abc");
}

#[test]
fn generated_secrets_are_32_lowercase_hex_digits() {
    let a = Secret::generate();
    let b = Secret::generate();
    assert_eq!(a.expose().len(), 32);
    assert!(a.expose().chars().all(|c| c.is_ascii_digit() || ('a'..='f').contains(&c)));
    assert_ne!(a.expose(), b.expose());
    assert_eq!(fresh_token().len(), 32);
}

#[test]
fn credentials_split_at_the_first_dot() {
    let (id, secret) = split_credential("w1.abc").unwrap();
    assert_eq!(id, "w1");
    assert_eq!(secret.expose(), "abc");
    let (id, secret) = split_credential("w1.a.b").unwrap();
    assert_eq!(id, "w1");
    assert_eq!(secret.expose(), "a.b");
    assert!(split_credential("nodot").is_none());
    assert!(split_credential(".secret").is_none());
    assert!(split_credential("id.").is_none());
    assert!(split_credential("").is_none());
}

#[test]
fn issued_credential_authenticates_its_worker_only_with_its_secret() {
    let secret = Secret::generate();
    let cred = issued_credential("w1", &secret);
    assert_eq!(cred, format!("w1.{}", secret.expose()));
    let record = credential_record(&secret);
    let (who, presented) = split_credential(&cred).unwrap();
    assert_eq!(
        credential_verdict(&who, Some(&record), &presented),
        Some(Identity::Worker("w1".to_string()))
    );
    assert_eq!(credential_verdict("w1", Some(&record), &Secret::new("wrong")), None);
    assert_eq!(credential_verdict("w1", None, &presented), None);
    assert_eq!(credential_verdict("w1", Some(&Json::Null), &presented), None);
}

fn at(secs: i64) -> UtcTime {
    UtcTime { secs, nanos: 0 }
}

#[test]
fn bootstrap_token_is_accepted_until_it_expires() {
    let secret = Secret::new("s3cret");
    let record = token_record(&secret, at(1_800_000_060));
    assert!(bootstrap_verdict(Some(&record), &secret, at(1_800_000_000)).is_ok());
    assert!(matches!(
        bootstrap_verdict(Some(&record), &Secret::new("nope"), at(1_800_000_000)),
        Err(AuthError::Invalid)
    ));
    assert!(matches!(
        bootstrap_verdict(Some(&record), &secret, at(1_800_000_060)),
        Err(AuthError::Expired)
    ));
    assert!(matches!(
        bootstrap_verdict(Some(&record), &Secret::new("nope"), at(1_800_000_061)),
        Err(AuthError::Expired)
    ));
    assert!(matches!(bootstrap_verdict(None, &secret, at(0)), Err(AuthError::Invalid)));
}

#[test]
fn bootstrap_record_without_expiry_is_invalid() {
    let secret = Secret::new("s");
    let record = credential_record(&secret);
    assert!(matches!(bootstrap_verdict(Some(&record), &secret, at(0)), Err(AuthError::Invalid)));
}

#[test]
fn admin_credential_wins_but_a_worker_named_admin_still_authenticates() {
    let admin = Secret::new("a-secret");
    let worker = Secret::new("w-secret");
    let admin_rec = credential_record(&admin);
    let worker_rec = credential_record(&worker);
    assert_eq!(ADMIN_NAME, "admin");
    assert_eq!(authentication_verdict("admin", &admin, Some(&admin_rec), Some(&worker_rec)), Some(Identity::Admin));
    assert_eq!(
        authentication_verdict("admin", &worker, Some(&admin_rec), Some(&worker_rec)),
        Some(Identity::Worker("admin".to_string()))
    );
    assert_eq!(authentication_verdict("w1", &admin, Some(&admin_rec), Some(&worker_rec)), None);
    assert_eq!(
        authentication_verdict("w1", &worker, Some(&admin_rec), Some(&worker_rec)),
        Some(Identity::Worker("w1".to_string()))
    );
    assert_eq!(authentication_verdict("w1", &worker, None, None), None);
}

#[test]
fn bootstrap_expiry_adds_the_time_to_live() {
    assert_eq!(bootstrap_expiry(UtcTime { secs: 100, nanos: 5 }, 60), Some(UtcTime { secs: 160, nanos: 5 }));
    assert_eq!(bootstrap_expiry(UtcTime { secs: 100, nanos: 0 }, -1), Some(UtcTime { secs: 99, nanos: 0 }));
    assert_eq!(bootstrap_expiry(UtcTime { secs: 100, nanos: 0 }, i64::MAX), None);
    let record = token_record(&Secret::new("s"), bootstrap_expiry(at(1_800_000_000), -1).unwrap());
    assert!(matches!(bootstrap_verdict(Some(&record), &Secret::new("s"), at(1_800_000_000)), Err(AuthError::Expired)));
}
