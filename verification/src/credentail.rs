//! The credential record and its verifier: password checks against the
//! current and the rotated hashes, bounded rotation history, and the
//! optional one-time-password second factor.

use vstd::prelude::*;
use crate::crypto::{
    bcrypt_check, bcrypt_hash, bcrypt_matches, now_millis, totp_accepts, totp_check,
    totp_generate_secret,
};
use crate::user::User;

verus! {

/// The rotation history never holds more than this many retired hashes.
pub const HISTORY_CAPACITY: usize = 10;

#[derive(PartialEq, Eq, Structural, Clone, Copy, Debug)]
pub enum UserMfaState {
    Disabled,
    OTP,
}

#[derive(PartialEq, Eq, Structural, Clone, Copy, Debug)]
pub enum VarifyMfaState {
    Failed,
    Success,
    NotConfigured,
}

#[derive(PartialEq, Eq, Structural, Clone, Copy, Debug)]
pub enum VarifyMfaStateError {
    MissingMfaStore,
    MfaTypeNotImplimented,
}

#[derive(PartialEq, Eq, Structural, Clone, Copy, Debug)]
pub enum AddMfaError {
    Failed,
    MfaTypeNotImplimented,
    MfaTypeNone,
}

#[derive(PartialEq, Eq, Structural, Clone, Copy, Debug)]
pub enum VarifyPasswordState {
    Success,
    Failed,
    FailedPreviousPassword,
}

/// Outcome of a password check: the state, and for a match against a
/// retired password the time that password was rotated out.
pub struct VarifyPassword {
    pub state: VarifyPasswordState,
    pub password_set: Option<i64>,
}

#[derive(Clone, Debug)]
pub struct UserCredentailsExistingPasswords {
    password: String,
    changed_date: i64,
}

/// Model of one history entry: the retired hash and its rotation time.
pub struct HistoryEntryView {
    pub password: Seq<char>,
    pub changed_date: i64,
}

impl View for UserCredentailsExistingPasswords {
    type V = HistoryEntryView;

    closed spec fn view(&self) -> HistoryEntryView {
        HistoryEntryView { password: self.password@, changed_date: self.changed_date }
    }
}

#[derive(Clone, Debug)]
pub struct UserCredentail {
    pub user_uuid: String,
    user_password: String,
    pub user_mfa_state: UserMfaState,
    pub user_mfa_store: Option<String>,
    exsting_passwords: Vec<UserCredentailsExistingPasswords>,
}

/// Model of a credential record.
pub struct UserCredentailView {
    pub user_uuid: Seq<char>,
    pub user_password: Seq<char>,
    pub user_mfa_state: UserMfaState,
    pub user_mfa_store: Option<Seq<char>>,
    pub exsting_passwords: Seq<HistoryEntryView>,
}

impl View for UserCredentail {
    type V = UserCredentailView;

    closed spec fn view(&self) -> UserCredentailView {
        UserCredentailView {
            user_uuid: self.user_uuid@,
            user_password: self.user_password@,
            user_mfa_state: self.user_mfa_state,
            user_mfa_store: match self.user_mfa_store {
                Some(ref s) => Some(s@),
                None => None,
            },
            exsting_passwords: self.exsting_passwords@.map_values(
                |e: UserCredentailsExistingPasswords| e@,
            ),
        }
    }
}

/// Some retired hash still matches the presented password.
pub open spec fn history_match(h: Seq<HistoryEntryView>, p: Seq<char>) -> bool {
    exists|i: int| 0 <= i < h.len() && bcrypt_matches(p, #[trigger] h[i].password)
}

/// What a password check reports for a credential in this state.
pub open spec fn spec_verify_state(c: UserCredentailView, p: Seq<char>) -> VarifyPasswordState {
    if bcrypt_matches(p, c.user_password) {
        VarifyPasswordState::Success
    } else if history_match(c.exsting_passwords, p) {
        VarifyPasswordState::FailedPreviousPassword
    } else {
        VarifyPasswordState::Failed
    }
}

impl UserCredentail {
    /// The record's invariant: the shared secret is present exactly when
    /// the second factor is enabled, and the history is bounded.
    pub open spec fn wf(&self) -> bool {
        &&& (self@.user_mfa_state == UserMfaState::OTP <==> self@.user_mfa_store is Some)
        &&& self@.exsting_passwords.len() <= HISTORY_CAPACITY
    }

    /// A fresh credential for `user`: the password freshly hashed, no
    /// second factor, empty history.
    pub fn new(user: User, plain_password: String) -> (c: UserCredentail)
        ensures
            c@.user_uuid == user.user_uuid@,
            bcrypt_matches(plain_password@, c@.user_password),
            c@.user_mfa_state == UserMfaState::Disabled,
            c@.user_mfa_store is None,
            c@.exsting_passwords.len() == 0,
            c.wf(),
    {
        let c = UserCredentail {
            user_uuid: user.user_uuid,
            user_password: bcrypt_hash(plain_password.as_str()),
            user_mfa_state: UserMfaState::Disabled,
            user_mfa_store: None,
            exsting_passwords: Vec::new(),
        };
        proof {
            assert(c@.exsting_passwords =~= Seq::<HistoryEntryView>::empty());
        }
        c
    }

    /// Check a presented password: success against the current hash;
    /// otherwise every retired hash is tried, and the first match
    /// reports when that old password was rotated out; else failure.
    pub fn varify_password(&self, plain_password: String) -> (r: VarifyPassword)
        ensures
            r.state == spec_verify_state(self@, plain_password@),
            r.state == VarifyPasswordState::Success ==> r.password_set is None,
            r.state == VarifyPasswordState::Failed ==> r.password_set is None,
            r.state == VarifyPasswordState::FailedPreviousPassword ==> (exists|i: int|
                {
                    &&& 0 <= i < self@.exsting_passwords.len()
                    &&& bcrypt_matches(plain_password@, #[trigger] self@.exsting_passwords[i].password)
                    &&& (forall|j: int| 0 <= j < i ==> !bcrypt_matches(
                        plain_password@,
                        #[trigger] self@.exsting_passwords[j].password,
                    ))
                    &&& r.password_set == Some(self@.exsting_passwords[i].changed_date)
                }),
    {
        if bcrypt_check(plain_password.as_str(), self.user_password.as_str()) {
            return VarifyPassword { state: VarifyPasswordState::Success, password_set: None };
        }
        let n = self.exsting_passwords.len();
        let mut k: usize = 0;
        while k < n
            invariant
                n == self.exsting_passwords@.len(),
                0 <= k <= n,
                !bcrypt_matches(plain_password@, self@.user_password),
                forall|j: int| 0 <= j < k ==> !bcrypt_matches(
                    plain_password@,
                    #[trigger] self@.exsting_passwords[j].password,
                ),
            decreases n - k,
        {
            let entry = &self.exsting_passwords[k];
            if bcrypt_check(plain_password.as_str(), entry.password.as_str()) {
                proof {
                    assert(self@.exsting_passwords[k as int].password == entry.password@);
                }
                return VarifyPassword {
                    state: VarifyPasswordState::FailedPreviousPassword,
                    password_set: Some(entry.changed_date),
                };
            }
            proof {
                assert(self@.exsting_passwords[k as int].password == entry.password@);
            }
            k = k + 1;
        }
        proof {
            assert(!history_match(self@.exsting_passwords, plain_password@));
        }
        VarifyPassword { state: VarifyPasswordState::Failed, password_set: None }
    }

    /// Rotate the password: the current hash moves into the history with
    /// the rotation time, the oldest entry leaves once the capacity is
    /// reached, and the new password is freshly hashed.
    pub fn update_password(&mut self, plain_password: String)
        requires
            old(self).wf(),
        ensures
            final(self).wf(),
            bcrypt_matches(plain_password@, final(self)@.user_password),
            final(self)@.exsting_passwords.len() == if old(self)@.exsting_passwords.len()
                < HISTORY_CAPACITY {
                old(self)@.exsting_passwords.len() + 1
            } else {
                HISTORY_CAPACITY as nat
            },
            final(self)@.exsting_passwords.last().password == old(self)@.user_password,
            old(self)@.exsting_passwords.len() < HISTORY_CAPACITY ==> forall|i: int|
                0 <= i < old(self)@.exsting_passwords.len() ==> final(self)@.exsting_passwords[i]
                    == old(self)@.exsting_passwords[i],
            old(self)@.exsting_passwords.len() == HISTORY_CAPACITY ==> forall|i: int|
                0 <= i < HISTORY_CAPACITY - 1 ==> final(self)@.exsting_passwords[i] == old(
                    self,
                )@.exsting_passwords[i + 1],
            final(self)@.user_uuid == old(self)@.user_uuid,
            final(self)@.user_mfa_state == old(self)@.user_mfa_state,
            final(self)@.user_mfa_store == old(self)@.user_mfa_store,
    {
        let entry = UserCredentailsExistingPasswords {
            password: self.user_password.clone(),
            changed_date: now_millis(),
        };
        self.exsting_passwords.push(entry);
        if self.exsting_passwords.len() >= HISTORY_CAPACITY + 1 {
            self.exsting_passwords.remove(0);
        }
        self.user_password = bcrypt_hash(plain_password.as_str());
    }

    /// Drop the second factor unconditionally.
    pub fn remove_mfa(&mut self)
        ensures
            final(self)@.user_mfa_state == UserMfaState::Disabled,
            final(self)@.user_mfa_store is None,
            final(self)@.user_uuid == old(self)@.user_uuid,
            final(self)@.user_password == old(self)@.user_password,
            final(self)@.exsting_passwords == old(self)@.exsting_passwords,
            old(self)@.exsting_passwords.len() <= HISTORY_CAPACITY ==> final(self).wf(),
    {
        self.user_mfa_state = UserMfaState::Disabled;
        self.user_mfa_store = None;
    }

    /// Enroll a second factor. Asking for none is rejected; for the
    /// one-time-password factor a fresh shared secret is generated,
    /// stored, and returned for out-of-band delivery.
    pub fn add_mfa(&mut self, mfa_type: UserMfaState) -> (r: Result<String, AddMfaError>)
        requires
            old(self).wf(),
        ensures
            final(self).wf(),
            mfa_type == UserMfaState::Disabled ==> (r matches Err(e) && e
                == AddMfaError::MfaTypeNone && final(self)@ == old(self)@),
            mfa_type == UserMfaState::OTP ==> (r matches Ok(s) && {
                &&& s@.len() == 40
                &&& final(self)@.user_mfa_state == UserMfaState::OTP
                &&& final(self)@.user_mfa_store == Some(s@)
                &&& final(self)@.user_uuid == old(self)@.user_uuid
                &&& final(self)@.user_password == old(self)@.user_password
                &&& final(self)@.exsting_passwords == old(self)@.exsting_passwords
            }),
    {
        match mfa_type {
            UserMfaState::Disabled => Err(AddMfaError::MfaTypeNone),
            UserMfaState::OTP => {
                let secret = totp_generate_secret();
                self.user_mfa_store = Some(secret.clone());
                self.user_mfa_state = UserMfaState::OTP;
                Ok(secret)
            },
        }
    }

    /// Check a one-time code. Without an enrolled factor the outcome is
    /// `NotConfigured` whatever the code and time say; an enabled factor
    /// with no stored secret is an internal fault; otherwise the code is
    /// checked against the secret at the submitted time. Only that last
    /// path runs the underlying step arithmetic, so only there the time
    /// must keep it inside `u64`.
    pub fn check_mfa(&mut self, mfa_code: String, submit_time: u64) -> (r: Result<
        VarifyMfaState,
        VarifyMfaStateError,
    >)
        requires
            (old(self)@.user_mfa_state == UserMfaState::OTP && old(self)@.user_mfa_store is Some)
                ==> 30 <= submit_time <= u64::MAX - 30,
        ensures
            final(self)@ == old(self)@,
            old(self)@.user_mfa_state == UserMfaState::Disabled ==> (r matches Ok(v) && v
                == VarifyMfaState::NotConfigured),
            old(self)@.user_mfa_state == UserMfaState::OTP && old(self)@.user_mfa_store is None
                ==> (r matches Err(e) && e == VarifyMfaStateError::MissingMfaStore),
            old(self)@.user_mfa_state == UserMfaState::OTP ==> (old(
                self,
            )@.user_mfa_store matches Some(sec) ==> (r matches Ok(v) && (v
                == VarifyMfaState::Success <==> totp_accepts(sec, mfa_code@, submit_time)) && (v
                == VarifyMfaState::Failed <==> !totp_accepts(sec, mfa_code@, submit_time)))),
    {
        match self.user_mfa_state {
            UserMfaState::Disabled => Ok(VarifyMfaState::NotConfigured),
            UserMfaState::OTP => {
                match &self.user_mfa_store {
                    None => Err(VarifyMfaStateError::MissingMfaStore),
                    Some(secret) => {
                        if totp_check(secret.as_str(), mfa_code.as_str(), submit_time) {
                            Ok(VarifyMfaState::Success)
                        } else {
                            Ok(VarifyMfaState::Failed)
                        }
                    },
                }
            },
        }
    }

    /// How many retired hashes the history holds.
    pub fn password_history_len(&self) -> (n: usize)
        ensures
            n == self@.exsting_passwords.len(),
    {
        self.exsting_passwords.len()
    }
}

/// A credential always verifies the password it was created from or
/// rotated to: matching the current hash is reported as success.
pub proof fn lemma_correct_password_verifies(c: UserCredentailView, p: Seq<char>)
    requires
        bcrypt_matches(p, c.user_password),
    ensures
        spec_verify_state(c, p) == VarifyPasswordState::Success,
{
}

/// After a rotation the retired password is recognised as a previous
/// password, not as a plain failure, as long as it does not also match
/// the new hash.
pub proof fn lemma_rotated_password_detected(
    before: UserCredentailView,
    after: UserCredentailView,
    p1: Seq<char>,
)
    requires
        bcrypt_matches(p1, before.user_password),
        !bcrypt_matches(p1, after.user_password),
        after.exsting_passwords.len() >= 1,
        after.exsting_passwords.last().password == before.user_password,
    ensures
        spec_verify_state(after, p1) == VarifyPasswordState::FailedPreviousPassword,
{
    assert(bcrypt_matches(
        p1,
        after.exsting_passwords[after.exsting_passwords.len() - 1].password,
    ));
}

/// One rotation step keeps the history at the minimum of the rotation
/// count and the capacity: `update_password` adds one entry below the
/// capacity and holds the length there afterwards.
pub proof fn lemma_rotation_count_caps_history(rotations: nat, before: nat, after: nat)
    requires
        before == vstd::math::min(rotations as int, HISTORY_CAPACITY as int),
        after == if before < HISTORY_CAPACITY {
            before + 1
        } else {
            HISTORY_CAPACITY as nat
        },
    ensures
        after == vstd::math::min((rotations + 1) as int, HISTORY_CAPACITY as int),
{
}

} // verus!
