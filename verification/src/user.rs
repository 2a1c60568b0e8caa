//! The user account record: identity, state and the claims handed to the
//! token issuer after a successful login.

use vstd::prelude::*;
use crate::claims::{Claims, ClaimsUserType};
use crate::crypto::{fresh_uuid, now_millis};

verus! {

#[derive(PartialEq, Eq, Structural, Clone, Copy, Debug)]
pub enum UserState {
    Active,
    Disabled,
    NoSubscription,
    NotActivated,
    VarifyingMFA,
}

#[derive(Clone, Debug)]
pub struct User {
    pub user_uuid: String,
    pub user_email: String,
    pub user_state: UserState,
    pub last_login: i64,
    pub user_claims: Claims,
}

impl User {
    /// A fresh, not yet activated account: a new random identifier, the
    /// given address as both mail and display name, ordinary role, no
    /// group memberships.
    pub fn new(user_email: String) -> (u: User)
        ensures
            u.user_uuid@.len() == 36,
            u.user_email@ == user_email@,
            u.user_state == UserState::NotActivated,
            u.user_claims@.user_type == ClaimsUserType::User,
            u.user_claims@.user_uuid == u.user_uuid@,
            u.user_claims@.user_name == user_email@,
            u.user_claims@.group_uuid.len() == 0,
    {
        let uuid = fresh_uuid();
        let now = now_millis();
        let claims = Claims {
            user_type: ClaimsUserType::User,
            user_uuid: uuid.clone(),
            user_name: user_email.clone(),
            group_uuid: Vec::new(),
        };
        User {
            user_uuid: uuid,
            user_email,
            user_state: UserState::NotActivated,
            last_login: now,
            user_claims: claims,
        }
    }

    /// Stamp a login: only the last-login time changes.
    pub fn login(&mut self)
        ensures
            final(self).user_uuid == old(self).user_uuid,
            final(self).user_email == old(self).user_email,
            final(self).user_state == old(self).user_state,
            final(self).user_claims == old(self).user_claims,
    {
        self.last_login = now_millis();
    }
}

} // verus!
