//! The caller-facing access decisions layered on the verifier and the
//! token component: which login outcomes turn into which denials, and
//! what a validated token must carry to reach a protected resource.

use vstd::prelude::*;
use crate::credentail::{UserMfaState, VarifyPasswordState};
use crate::claims::ClaimsUserType;
use crate::token::{TokenAuthType, TokenClaims};
use crate::user::UserState;

verus! {

#[derive(PartialEq, Eq, Structural, Clone, Copy, Debug)]
pub enum PasswordError {
    IncorrectPassword,
    AccountLocked,
    ServerError,
    BadRequest,
    UserDoesntExist,
}

#[derive(PartialEq, Eq, Structural, Clone, Copy, Debug)]
pub enum GetHiddenError {
    NotAuthorized,
    NoToken,
    MalformedRequest,
}

/// Whether a password login may proceed: a disabled account is locked
/// out before its password is even considered, and anything short of a
/// full match is an incorrect password.
pub fn login_decision(user_state: &UserState, verify: &VarifyPasswordState) -> (r: Result<
    (),
    PasswordError,
>)
    ensures
        user_state == UserState::Disabled <==> r == Err::<(), PasswordError>(
            PasswordError::AccountLocked,
        ),
        (user_state != UserState::Disabled && verify != VarifyPasswordState::Success) <==> r
            == Err::<(), PasswordError>(PasswordError::IncorrectPassword),
        r is Ok <==> (user_state != UserState::Disabled && verify
            == VarifyPasswordState::Success),
{
    if *user_state == UserState::Disabled {
        Err(PasswordError::AccountLocked)
    } else if *verify == VarifyPasswordState::Failed || *verify
        == VarifyPasswordState::FailedPreviousPassword {
        Err(PasswordError::IncorrectPassword)
    } else {
        Ok(())
    }
}

/// Whether a validated token clears the protected route: only a fully
/// authenticated, non-guest caller passes.
pub fn authorize_hidden(claims: &TokenClaims) -> (r: Result<(), GetHiddenError>)
    ensures
        r is Ok <==> (claims.auth_type == TokenAuthType::Full && claims.user_claim.user_type
            != ClaimsUserType::Guest),
        r is Err ==> r == Err::<(), GetHiddenError>(GetHiddenError::NotAuthorized),
{
    if !(claims.auth_type == TokenAuthType::Full) {
        return Err(GetHiddenError::NotAuthorized);
    }
    if claims.user_claim.user_type == ClaimsUserType::Guest {
        return Err(GetHiddenError::NotAuthorized);
    }
    Ok(())
}

/// The authentication strength a password-only login actually achieves:
/// full strength only when no second factor is enrolled; an enrolled
/// one-time-password factor still has to be checked.
pub fn achieved_auth_type(mfa_state: &UserMfaState) -> (r: TokenAuthType)
    ensures
        mfa_state == UserMfaState::Disabled <==> r == TokenAuthType::Full,
        mfa_state == UserMfaState::OTP <==> r == TokenAuthType::RequiresMFA,
{
    match mfa_state {
        UserMfaState::Disabled => TokenAuthType::Full,
        UserMfaState::OTP => TokenAuthType::RequiresMFA,
    }
}

} // verus!
