use userauth::credentail::{
    AddMfaError, UserCredentail, UserMfaState, VarifyMfaState, VarifyMfaStateError,
    VarifyPasswordState,
};
use userauth::user::{User, UserState};

fn fresh_credentail(password: &str) -> UserCredentail {
    let user = User::new(String::from("alice@example.com"));
    UserCredentail::new(user, String::from(password))
}

#[test]
fn correct_password_verifies() {
    let cred = fresh_credentail("correct-horse");
    let r = cred.varify_password(String::from("correct-horse"));
    assert_eq!(r.state, VarifyPasswordState::Success);
    assert!(r.password_set.is_none());
}

#[test]
fn password_lifecycle_scenario() {
    let mut cred = fresh_credentail("correct-horse");
    assert_eq!(
        cred.varify_password(String::from("correct-horse")).state,
        VarifyPasswordState::Success
    );

    cred.update_password(String::from("battery-staple"));

    let old = cred.varify_password(String::from("correct-horse"));
    assert_eq!(old.state, VarifyPasswordState::FailedPreviousPassword);
    assert!(old.password_set.is_some());

    let wrong = cred.varify_password(String::from("wrong"));
    assert_eq!(wrong.state, VarifyPasswordState::Failed);
    assert!(wrong.password_set.is_none());

    let new = cred.varify_password(String::from("battery-staple"));
    assert_eq!(new.state, VarifyPasswordState::Success);
}

#[test]
fn history_never_exceeds_capacity() {
    let mut cred = fresh_credentail("pw-start");
    assert_eq!(cred.password_history_len(), 0);
    for i in 0..12 {
        cred.update_password(format!("pw-{}", i));
        let expected = if i + 1 < 10 { i + 1 } else { 10 };
        assert_eq!(cred.password_history_len(), expected);
    }
    assert_eq!(cred.password_history_len(), 10);
}

#[test]
fn unconfigured_mfa_reports_not_configured() {
    let mut cred = fresh_credentail("pw");
    let r = cred.check_mfa(String::from("000000"), 1_650_000_000);
    assert!(matches!(r, Ok(VarifyMfaState::NotConfigured)));
    let r2 = cred.check_mfa(String::from("anything at all"), 0);
    assert!(matches!(r2, Ok(VarifyMfaState::NotConfigured)));
    let r3 = cred.check_mfa(String::new(), u64::MAX);
    assert!(matches!(r3, Ok(VarifyMfaState::NotConfigured)));
}

#[test]
fn enroll_none_is_rejected() {
    let mut cred = fresh_credentail("pw");
    let r = cred.add_mfa(UserMfaState::Disabled);
    assert!(matches!(r, Err(AddMfaError::MfaTypeNone)));
    assert_eq!(cred.user_mfa_state, UserMfaState::Disabled);
    assert!(cred.user_mfa_store.is_none());
}

#[test]
fn totp_code_round_trip() {
    let mut cred = fresh_credentail("pw");
    let secret = cred.add_mfa(UserMfaState::OTP).expect("enrolment failed");
    assert_eq!(cred.user_mfa_state, UserMfaState::OTP);
    assert_eq!(cred.user_mfa_store.as_deref(), Some(secret.as_str()));

    let t: u64 = 1_650_000_000;
    let totp = totp_rs::TOTP::new(
        totp_rs::Algorithm::SHA1,
        6,
        1,
        30,
        secret.as_bytes().to_vec(),
    )
    .expect("totp setup failed");
    let code = totp.generate(t);

    let ok = cred.check_mfa(code.clone(), t);
    assert!(matches!(ok, Ok(VarifyMfaState::Success)));

    let stale = cred.check_mfa(code, t + 3600);
    assert!(matches!(stale, Ok(VarifyMfaState::Failed)));
}

#[test]
fn remove_mfa_clears_the_factor() {
    let mut cred = fresh_credentail("pw");
    cred.add_mfa(UserMfaState::OTP).expect("enrolment failed");
    cred.remove_mfa();
    assert_eq!(cred.user_mfa_state, UserMfaState::Disabled);
    assert!(cred.user_mfa_store.is_none());
    let r = cred.check_mfa(String::from("123456"), 1_650_000_000);
    assert!(matches!(r, Ok(VarifyMfaState::NotConfigured)));
}

#[test]
fn missing_secret_is_a_server_fault() {
    let mut cred = fresh_credentail("pw");
    cred.user_mfa_state = UserMfaState::OTP;
    cred.user_mfa_store = None;
    let r = cred.check_mfa(String::from("123456"), 1_650_000_000);
    assert!(matches!(r, Err(VarifyMfaStateError::MissingMfaStore)));
}

#[test]
fn new_user_starts_unactivated() {
    let user = User::new(String::from("bob@example.com"));
    assert_eq!(user.user_uuid.len(), 36);
    assert_eq!(user.user_state, UserState::NotActivated);
    assert_eq!(user.user_email, "bob@example.com");
    assert_eq!(user.user_claims.user_name, "bob@example.com");
    assert_eq!(user.user_claims.user_uuid, user.user_uuid);
    assert!(user.user_claims.group_uuid.is_empty());
}
