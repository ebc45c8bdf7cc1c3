use project_tracker::passwords::{hash_password, verify_password, PasswordError};

#[test]
fn verify_accepts_hash_of_same_password() {
    let hash = hash_password("pw123").expect("hashing should succeed");
    assert_eq!(verify_password("pw123", &hash), Ok(true));
}

#[test]
fn verify_rejects_hash_of_other_password() {
    let hash = hash_password("correct horse").expect("hashing should succeed");
    assert_eq!(verify_password("battery staple", &hash), Ok(false));
}

#[test]
fn hash_is_not_the_password_itself() {
    let hash = hash_password("pw123").expect("hashing should succeed");
    assert_ne!(hash, "pw123");
    // a raw password is no bcrypt hash string, so verifying against it
    // reports a backend failure rather than a mismatch
    assert_eq!(
        verify_password("pw123", "pw123"),
        Err(PasswordError::VerifyError)
    );
}

#[test]
fn verify_rejects_malformed_stored_hash() {
    assert_eq!(
        verify_password("pw123", "not-a-bcrypt-hash"),
        Err(PasswordError::VerifyError)
    );
}

#[test]
fn password_error_messages() {
    assert_eq!(PasswordError::HashError.message(), "Error hashing password");
    assert_eq!(
        PasswordError::VerifyError.message(),
        "Error verifying password"
    );
}
