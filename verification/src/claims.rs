//! The authorization payload a token carries: role, identifiers, display
//! name and group memberships. The token component treats it as opaque
//! input at issuance and hands it back at validation.

use vstd::prelude::*;

verus! {

#[derive(PartialEq, Eq, Structural, Clone, Copy, Debug)]
pub enum ClaimsUserType {
    Admin,
    User,
    Guest,
}

#[derive(Clone, Debug)]
pub struct Claims {
    pub user_type: ClaimsUserType,
    pub user_uuid: String,
    pub user_name: String,
    pub group_uuid: Vec<String>,
}

/// Mathematical model of `Claims`.
#[verifier::ext_equal]
pub struct ClaimsView {
    pub user_type: ClaimsUserType,
    pub user_uuid: Seq<char>,
    pub user_name: Seq<char>,
    pub group_uuid: Seq<Seq<char>>,
}

impl View for Claims {
    type V = ClaimsView;

    open spec fn view(&self) -> ClaimsView {
        ClaimsView {
            user_type: self.user_type,
            user_uuid: self.user_uuid@,
            user_name: self.user_name@,
            group_uuid: self.group_uuid@.map_values(|g: String| g@),
        }
    }
}

} // verus!
