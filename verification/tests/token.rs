use userauth::claims::{Claims, ClaimsUserType};
use userauth::codec::{encode_claims, parse_claims};
use userauth::policy::{
    achieved_auth_type, authorize_hidden, login_decision, GetHiddenError, PasswordError,
};
use userauth::credentail::{UserMfaState, VarifyPasswordState};
use userauth::token::{
    IssueError, Token, TokenAuthType, TokenClaims, TokenKeys, ValidateError,
};
use userauth::user::UserState;

fn test_keys() -> TokenKeys {
    let pair = rcgen::KeyPair::generate().expect("key generation failed");
    TokenKeys {
        private_pem: pair.serialize_pem().into_bytes(),
        public_pem: pair.public_key_pem().into_bytes(),
    }
}

fn sample_claims() -> Claims {
    Claims {
        user_type: ClaimsUserType::User,
        user_uuid: String::from("3f2f7a44-9c1d-4e8a-b2ce-0a54ad59a0f1"),
        user_name: String::from("alice@example.com"),
        group_uuid: vec![String::from("g-one"), String::from("g-two")],
    }
}

#[test]
fn issue_and_validate_round_trip() {
    let keys = test_keys();
    let issued = Token::new(
        String::from("subject-1"),
        180,
        sample_claims(),
        TokenAuthType::Full,
        &keys,
    )
    .expect("issuing failed");

    let claims = issued.claims.as_ref().expect("claims missing");
    assert_eq!(claims.sub, "subject-1");
    assert_eq!(claims.auth_type, TokenAuthType::Full);
    assert_eq!(claims.nbf, claims.iat);
    assert_eq!(claims.exp, claims.iat + 180 * 60);
    assert_eq!(claims.token_uuid.len(), 36);

    let wire = issued.token.clone().expect("wire form missing");
    let mut presented = Token::new_from_authorization(wire);
    let r = presented.validate_jwt_token(&keys.public_pem);
    assert_eq!(r, Ok(true));

    let recovered = presented.claims.as_ref().expect("claims not recovered");
    assert_eq!(recovered.sub, "subject-1");
    assert_eq!(recovered.auth_type, TokenAuthType::Full);
    assert_eq!(recovered.user_claim.user_name, "alice@example.com");
    assert_eq!(recovered.user_claim.group_uuid, vec![
        String::from("g-one"),
        String::from("g-two")
    ]);
    assert_eq!(presented.user_id.as_deref(), Some("subject-1"));
    assert_eq!(presented.token_uuid.as_deref(), Some(claims.token_uuid.as_str()));
}

#[test]
fn expired_token_is_rejected_despite_valid_signature() {
    let keys = test_keys();
    let now: i64 = 1_650_000_000;
    let issued = Token::new_at(
        String::from("subject-2"),
        1,
        sample_claims(),
        TokenAuthType::Full,
        &keys,
        now,
    )
    .expect("issuing failed");

    let mut presented = Token::new_from_authorization(issued.token.clone().unwrap());
    let late = presented.validate_jwt_token_at(&keys.public_pem, now + 61);
    assert_eq!(late, Err(ValidateError::ExpiredOrNotYetValid));

    let mut early = Token::new_from_authorization(issued.token.clone().unwrap());
    let premature = early.validate_jwt_token_at(&keys.public_pem, now - 1);
    assert_eq!(premature, Err(ValidateError::ExpiredOrNotYetValid));

    let mut in_window = Token::new_from_authorization(issued.token.unwrap());
    let fine = in_window.validate_jwt_token_at(&keys.public_pem, now + 30);
    assert_eq!(fine, Ok(true));
}

#[test]
fn tampered_signature_is_rejected() {
    let keys = test_keys();
    let now: i64 = 1_650_000_000;
    let issued = Token::new_at(
        String::from("subject-3"),
        10,
        sample_claims(),
        TokenAuthType::Full,
        &keys,
        now,
    )
    .expect("issuing failed");

    let wire = issued.token.unwrap();
    let dot = wire.find('.').expect("no separator in wire form");
    assert!(dot > 0);
    let mut bytes = wire.clone().into_bytes();
    // flip one bit of the first signature character
    bytes[0] ^= 0x01;
    let tampered = String::from_utf8(bytes).unwrap();
    assert_ne!(tampered, wire);

    let mut presented = Token::new_from_authorization(tampered);
    let r = presented.validate_jwt_token_at(&keys.public_pem, now + 5);
    assert_eq!(r, Err(ValidateError::BadSignature));
    assert!(presented.claims.is_none());
}

#[test]
fn missing_and_malformed_tokens() {
    let keys = test_keys();
    let mut no_token = Token {
        token: None,
        token_uuid: None,
        user_id: None,
        expires_in: None,
        claims: None,
    };
    assert_eq!(
        no_token.validate_jwt_token(&keys.public_pem),
        Err(ValidateError::NoToken)
    );

    let mut no_dot = Token::new_from_authorization(String::from("garbage-without-separator"));
    assert_eq!(
        no_dot.validate_jwt_token_at(&keys.public_pem, 1_650_000_000),
        Err(ValidateError::Malformed)
    );

    let mut junk = Token::new_from_authorization(String::from("sig.payload-junk"));
    assert_eq!(
        junk.validate_jwt_token_at(&keys.public_pem, 1_650_000_000),
        Err(ValidateError::Malformed)
    );
}

#[test]
fn mismatched_keys_surface_as_signing_failure() {
    let keys = test_keys();
    let other = test_keys();
    let crossed = TokenKeys {
        private_pem: keys.private_pem.clone(),
        public_pem: other.public_pem.clone(),
    };
    let r = Token::new_at(
        String::from("subject-4"),
        10,
        sample_claims(),
        TokenAuthType::Full,
        &crossed,
        1_650_000_000,
    );
    assert!(matches!(r, Err(IssueError::SigningFailure)));

    let unreadable = TokenKeys {
        private_pem: b"not a pem".to_vec(),
        public_pem: keys.public_pem.clone(),
    };
    let r2 = Token::new_at(
        String::from("subject-4"),
        10,
        sample_claims(),
        TokenAuthType::Full,
        &unreadable,
        1_650_000_000,
    );
    assert!(matches!(r2, Err(IssueError::SigningFailure)));
}

#[test]
fn wire_encoding_is_canonical() {
    let claims = TokenClaims {
        sub: String::from("bob"),
        token_uuid: String::from("tid"),
        user_claim: Claims {
            user_type: ClaimsUserType::User,
            user_uuid: String::from("u1"),
            user_name: String::from("bob2"),
            group_uuid: vec![String::from("g1"), String::from("g22")],
        },
        exp: 120,
        iat: 100,
        nbf: 110,
        auth_type: TokenAuthType::Full,
    };
    let encoded: String = encode_claims(&claims).into_iter().collect();
    assert_eq!(encoded, "120;100;110;F3:bob3:tidU2:u14:bob22;2:g13:g22");

    let back = parse_claims(&encoded.chars().collect::<Vec<char>>()).expect("canonical form did not parse");
    assert_eq!(back.sub, "bob");
    assert_eq!(back.token_uuid, "tid");
    assert_eq!(back.exp, 120);
    assert_eq!(back.iat, 100);
    assert_eq!(back.nbf, 110);
    assert_eq!(back.auth_type, TokenAuthType::Full);
    assert_eq!(back.user_claim.user_type, ClaimsUserType::User);
    assert_eq!(back.user_claim.user_uuid, "u1");
    assert_eq!(back.user_claim.user_name, "bob2");
    assert_eq!(back.user_claim.group_uuid, vec![
        String::from("g1"),
        String::from("g22")
    ]);
}

#[test]
fn non_canonical_wire_forms_are_rejected() {
    for bad in [
        "",
        "120;100;110;F3:bob3:tidU2:u14:bob22;2:g13:g2",
        "120;100;110;F3:bob3:tidU2:u14:bob22;2:g13:g22X",
        "0120;100;110;F3:bob3:tidU2:u14:bob22;2:g13:g22",
        "120;100;110;Z3:bob3:tidU2:u14:bob22;2:g13:g22",
        "-1;100;110;F3:bob3:tidU2:u14:bob22;2:g13:g22",
    ] {
        assert!(parse_claims(&bad.chars().collect::<Vec<char>>()).is_none(), "accepted: {bad}");
    }
}

#[test]
fn round_trip_with_awkward_characters() {
    let keys = test_keys();
    let claims = Claims {
        user_type: ClaimsUserType::Admin,
        user_uuid: String::from("id.with;separators:inside"),
        user_name: String::from("\u{410}\u{43b}\u{438}\u{441}\u{430} \u{1F600}"),
        group_uuid: vec![String::from(""), String::from("g.1;2:3")],
    };
    let now: i64 = 1_650_000_000;
    let issued = Token::new_at(
        String::from("sub.ject;1"),
        5,
        claims.clone(),
        TokenAuthType::RequiresMFA,
        &keys,
        now,
    )
    .expect("issuing failed");

    let mut presented = Token::new_from_authorization(issued.token.unwrap());
    assert_eq!(presented.validate_jwt_token_at(&keys.public_pem, now + 10), Ok(true));
    let recovered = presented.claims.expect("claims not recovered");
    assert_eq!(recovered.sub, "sub.ject;1");
    assert_eq!(recovered.auth_type, TokenAuthType::RequiresMFA);
    assert_eq!(recovered.user_claim.user_type, ClaimsUserType::Admin);
    assert_eq!(recovered.user_claim.user_uuid, claims.user_uuid);
    assert_eq!(recovered.user_claim.user_name, claims.user_name);
    assert_eq!(recovered.user_claim.group_uuid, claims.group_uuid);
}

#[test]
fn hidden_route_policy() {
    let full_user = TokenClaims {
        sub: String::from("s"),
        token_uuid: String::from("t"),
        user_claim: sample_claims(),
        exp: 1,
        iat: 0,
        nbf: 0,
        auth_type: TokenAuthType::Full,
    };
    assert!(authorize_hidden(&full_user).is_ok());

    let mut guest = full_user.clone();
    guest.user_claim.user_type = ClaimsUserType::Guest;
    assert_eq!(authorize_hidden(&guest), Err(GetHiddenError::NotAuthorized));

    let mut weak = full_user.clone();
    weak.auth_type = TokenAuthType::RequiresMFA;
    assert_eq!(authorize_hidden(&weak), Err(GetHiddenError::NotAuthorized));
}

#[test]
fn password_only_strength_reflects_the_enrolled_factor() {
    assert_eq!(achieved_auth_type(&UserMfaState::Disabled), TokenAuthType::Full);
    assert_eq!(achieved_auth_type(&UserMfaState::OTP), TokenAuthType::RequiresMFA);
}

#[test]
fn login_policy() {
    assert_eq!(
        login_decision(&UserState::Disabled, &VarifyPasswordState::Success),
        Err(PasswordError::AccountLocked)
    );
    assert_eq!(
        login_decision(&UserState::Active, &VarifyPasswordState::Failed),
        Err(PasswordError::IncorrectPassword)
    );
    assert_eq!(
        login_decision(&UserState::Active, &VarifyPasswordState::FailedPreviousPassword),
        Err(PasswordError::IncorrectPassword)
    );
    assert_eq!(
        login_decision(&UserState::Active, &VarifyPasswordState::Success),
        Ok(())
    );
}

#[test]
fn authorization_wrapper_keeps_the_raw_string() {
    let t = Token::new_from_authorization(String::from("abc.def"));
    assert_eq!(t.token.as_deref(), Some("abc.def"));
    assert!(t.claims.is_none());
    assert!(t.user_id.is_none());
    assert!(t.token_uuid.is_none());
    assert!(t.expires_in.is_none());
}
