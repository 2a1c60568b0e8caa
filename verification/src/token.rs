//! Session tokens: a signed, time-bounded wire form carrying the claims.
//!
//! The wire form is this crate's own canonical claims encoding with an
//! ES256 signature over it; it is deliberately not a JWT, so only this
//! validator can read it.

use vstd::prelude::*;
use vstd::string::StringExecFns;
use crate::chars::{chars_of_str, string_of_chars};
use crate::claims::{Claims, ClaimsView};
use crate::codec::{enc_claims, encode_claims, lemma_enc_injective, parse_claims, seg_at};
use crate::crypto::{es256_sign, es256_verify, fresh_uuid, now_millis, sig_valid};

verus! {

/// The authentication strength actually achieved at issuance; distinct
/// from the user's role, and never to be upgraded after minting.
#[derive(PartialEq, Eq, Structural, Clone, Copy, Debug)]
pub enum TokenAuthType {
    Full,
    RequiresMFA,
    RequiresValidation,
}

/// The structure a token asserts: subject, token identifier, the user's
/// claims, the temporal window and the achieved strength.
#[derive(Clone, Debug)]
pub struct TokenClaims {
    pub sub: String,
    pub token_uuid: String,
    pub user_claim: Claims,
    pub exp: i64,
    pub iat: i64,
    pub nbf: i64,
    pub auth_type: TokenAuthType,
}

/// Mathematical model of `TokenClaims`.
#[verifier::ext_equal]
pub struct TokenClaimsView {
    pub sub: Seq<char>,
    pub token_uuid: Seq<char>,
    pub user_claim: ClaimsView,
    pub exp: int,
    pub iat: int,
    pub nbf: int,
    pub auth_type: TokenAuthType,
}

impl View for TokenClaims {
    type V = TokenClaimsView;

    open spec fn view(&self) -> TokenClaimsView {
        TokenClaimsView {
            sub: self.sub@,
            token_uuid: self.token_uuid@,
            user_claim: self.user_claim@,
            exp: self.exp as int,
            iat: self.iat as int,
            nbf: self.nbf as int,
            auth_type: self.auth_type,
        }
    }
}

/// What the canonical wire form can carry: temporal fields are
/// non-negative, and every length field fits the wire's number width.
pub open spec fn wf_claims(c: TokenClaimsView) -> bool {
    &&& 0 <= c.exp <= i64::MAX
    &&& 0 <= c.iat <= i64::MAX
    &&& 0 <= c.nbf <= i64::MAX
    &&& c.sub.len() <= u64::MAX
    &&& c.token_uuid.len() <= u64::MAX
    &&& c.user_claim.user_uuid.len() <= u64::MAX
    &&& c.user_claim.user_name.len() <= u64::MAX
    &&& c.user_claim.group_uuid.len() <= u64::MAX
    &&& forall|i: int|
        0 <= i < c.user_claim.group_uuid.len() ==> #[trigger] c.user_claim.group_uuid[i].len()
            <= u64::MAX
}

/// The issuer's key material, loaded once at startup and passed in so
/// that tests can inject ephemeral keys: the private half signs, the
/// public half verifies, and only the public half is needed to validate.
pub struct TokenKeys {
    pub private_pem: Vec<u8>,
    pub public_pem: Vec<u8>,
}

/// A session token: the signed wire form, and the structured claims for
/// the immediate caller's convenience.
#[derive(Clone, Debug)]
pub struct Token {
    pub token: Option<String>,
    pub token_uuid: Option<String>,
    pub user_id: Option<String>,
    pub expires_in: Option<i64>,
    pub claims: Option<TokenClaims>,
}

#[derive(PartialEq, Eq, Structural, Clone, Copy, Debug)]
pub enum ValidateError {
    NoToken,
    Malformed,
    ExpiredOrNotYetValid,
    BadSignature,
}

/// Issuing can fail only on unusable key material: a server-side
/// configuration fault.
#[derive(PartialEq, Eq, Structural, Clone, Copy, Debug)]
pub enum IssueError {
    SigningFailure,
}

pub open spec fn dot_free(s: Seq<char>) -> bool {
    forall|i: int| 0 <= i < s.len() ==> s[i] != '.'
}

/// `t` is the signature, a dot, then the payload; the signature itself
/// carries no dot, so the split is at the first dot.
pub open spec fn token_split(t: Seq<char>, sig: Seq<char>, payload: Seq<char>) -> bool {
    &&& t == sig + seq!['.'] + payload
    &&& dot_free(sig)
}

pub proof fn lemma_token_split_unique(
    t: Seq<char>,
    s1: Seq<char>,
    p1: Seq<char>,
    s2: Seq<char>,
    p2: Seq<char>,
)
    requires
        token_split(t, s1, p1),
        token_split(t, s2, p2),
    ensures
        s1 == s2,
        p1 == p2,
{
    if s1.len() < s2.len() {
        assert(t[s1.len() as int] == '.');
        assert(t[s1.len() as int] == s2[s1.len() as int]);
        assert(false);
    }
    if s2.len() < s1.len() {
        assert(t[s2.len() as int] == '.');
        assert(t[s2.len() as int] == s1[s2.len() as int]);
        assert(false);
    }
    assert(s1 =~= s2) by {
        assert(forall|i: int| 0 <= i < s1.len() ==> s1[i] == t[i] && s2[i] == t[i]);
    }
    assert(t.len() == s1.len() + 1 + p1.len());
    assert(t.len() == s2.len() + 1 + p2.len());
    assert(p1.len() == p2.len());
    assert forall|i: int| 0 <= i < p1.len() implies p1[i] == p2[i] by {
        assert(p1[i] == t[s1.len() + 1 + i]);
        assert(p2[i] == t[s2.len() + 1 + i]);
    }
    assert(p1 =~= p2);
}

/// Some well-formed record's canonical encoding, signed, makes up `t`.
pub open spec fn token_decodes(t: Seq<char>) -> bool {
    exists|sig: Seq<char>, c: TokenClaimsView|
        #[trigger] token_split(t, sig, enc_claims(c)) && wf_claims(c)
}

/// What validation returns: a pure function of the public key, the
/// presented token and the current time.
pub open spec fn spec_validate(pub_pem: Seq<u8>, token: Option<Seq<char>>, now: int) -> Result<
    TokenClaimsView,
    ValidateError,
> {
    match token {
        None => Err(ValidateError::NoToken),
        Some(t) => if !token_decodes(t) {
            Err(ValidateError::Malformed)
        } else {
            let (sig, c) = choose|sig: Seq<char>, c: TokenClaimsView|
                #[trigger] token_split(t, sig, enc_claims(c)) && wf_claims(c);
            if !(c.nbf <= now < c.exp) {
                Err(ValidateError::ExpiredOrNotYetValid)
            } else if !sig_valid(pub_pem, enc_claims(c), sig) {
                Err(ValidateError::BadSignature)
            } else {
                Ok(c)
            }
        },
    }
}

pub open spec fn opt_str_view(o: Option<String>) -> Option<Seq<char>> {
    match o {
        Some(s) => Some(s@),
        None => None,
    }
}

impl Token {
    /// Wrap a bearer string presented by a caller, with nothing
    /// validated yet.
    pub fn new_from_authorization(authorization: String) -> (t: Token)
        ensures
            opt_str_view(t.token) == Some(authorization@),
            t.token_uuid is None,
            t.user_id is None,
            t.expires_in is None,
            t.claims is None,
    {
        Token {
            token: Some(authorization),
            token_uuid: None,
            user_id: None,
            expires_in: None,
            claims: None,
        }
    }

    /// Mint a token at a known time: a fresh token identifier, the
    /// window `[now, now + 60 * ttl)`, the claims encoded canonically
    /// and signed. The signature is checked against the public half
    /// before the token leaves, so unusable or mismatched key material
    /// surfaces as `SigningFailure`.
    #[verifier::rlimit(100)]
    pub fn new_at(
        user_id: String,
        ttl: i64,
        user_claims: Claims,
        auth_type: TokenAuthType,
        keys: &TokenKeys,
        now: i64,
    ) -> (r: Result<Token, IssueError>)
        requires
            0 <= now,
            0 < ttl,
            now + 60 * ttl <= i64::MAX,
        ensures
            r matches Ok(t) ==> (t.claims matches Some(c) && {
                &&& c@.sub == user_id@
                &&& c@.iat == now
                &&& c@.nbf == now
                &&& c@.exp == now + 60 * ttl
                &&& c@.auth_type == auth_type
                &&& c@.user_claim == user_claims@
                &&& c@.token_uuid.len() == 36
                &&& wf_claims(c@)
                &&& opt_str_view(t.user_id) == Some(user_id@)
                &&& opt_str_view(t.token_uuid) == Some(c@.token_uuid)
                &&& t.expires_in == Some(c.exp)
                &&& (t.token matches Some(tok) && (exists|sig: Seq<char>|
                    #[trigger] token_split(tok@, sig, enc_claims(c@)) && sig_valid(
                        keys.public_pem@,
                        enc_claims(c@),
                        sig,
                    )))
            }),
    {
        let token_uuid = fresh_uuid();
        let exp: i64 = now + ttl * 60;
        let claims = TokenClaims {
            sub: user_id.clone(),
            token_uuid: token_uuid.clone(),
            user_claim: user_claims,
            exp,
            iat: now,
            nbf: now,
            auth_type,
        };
        let payload = encode_claims(&claims);
        let payload_str = string_of_chars(&payload);
        let sig = match es256_sign(&keys.private_pem, payload_str.as_str()) {
            Some(sg) => sg,
            None => {
                return Err(IssueError::SigningFailure);
            },
        };
        if !es256_verify(&keys.public_pem, payload_str.as_str(), sig.as_str()) {
            return Err(IssueError::SigningFailure);
        }
        let mut wire = sig.clone();
        wire.append(".");
        wire.append(payload_str.as_str());
        proof {
            reveal_strlit(".");
            assert(wire@ =~= sig@ + seq!['.'] + enc_claims(claims@));
            assert(token_split(wire@, sig@, enc_claims(claims@)));
        }
        let t = Token {
            token: Some(wire),
            token_uuid: Some(token_uuid),
            user_id: Some(user_id),
            expires_in: Some(exp),
            claims: Some(claims),
        };
        proof {
            assert(t.claims matches Some(c) && c@ == claims@);
            assert(t.token matches Some(tok) && token_split(tok@, sig@, enc_claims(claims@)));
            assert(sig_valid(keys.public_pem@, enc_claims(claims@), sig@));
            assert(t.token matches Some(tok) && (exists|sg: Seq<char>|
                #[trigger] token_split(tok@, sg, enc_claims(claims@)) && sig_valid(
                    keys.public_pem@,
                    enc_claims(claims@),
                    sg,
                )));
        }
        Ok(t)
    }

    /// Mint a token now. The bound on `ttl` keeps the expiry inside
    /// `i64` for any clock reading the platform can report.
    pub fn new(
        user_id: String,
        ttl: i64,
        user_claims: Claims,
        auth_type: TokenAuthType,
        keys: &TokenKeys,
    ) -> (r: Result<Token, IssueError>)
        requires
            0 < ttl <= 100_000_000,
        ensures
            r matches Ok(t) ==> (t.claims matches Some(c) && {
                &&& c@.sub == user_id@
                &&& c@.nbf == c@.iat
                &&& c@.exp == c@.iat + 60 * ttl
                &&& c@.auth_type == auth_type
                &&& c@.user_claim == user_claims@
                &&& c@.token_uuid.len() == 36
                &&& wf_claims(c@)
                &&& opt_str_view(t.user_id) == Some(user_id@)
                &&& opt_str_view(t.token_uuid) == Some(c@.token_uuid)
                &&& t.expires_in == Some(c.exp)
                &&& (t.token matches Some(tok) && (exists|sig: Seq<char>|
                    #[trigger] token_split(tok@, sig, enc_claims(c@)) && sig_valid(
                        keys.public_pem@,
                        enc_claims(c@),
                        sig,
                    )))
            }),
    {
        let ms = now_millis();
        if ms < 0 {
            return Err(IssueError::SigningFailure);
        }
        let now = ms / 1000;
        if now > 253_402_300_799i64 {
            return Err(IssueError::SigningFailure);
        }
        Token::new_at(user_id, ttl, user_claims, auth_type, keys, now)
    }

    /// Validate the held token against the public key at a known time:
    /// the wire form must split at its first dot, the payload must be
    /// the canonical encoding of a well-formed record, the time must
    /// fall in the record's window, and the signature must verify. On
    /// success the recovered claims are stored on the token, and the
    /// user-id field receives the subject the token asserts.
    #[verifier::rlimit(100)]
    pub fn validate_jwt_token_at(&mut self, public_pem: &Vec<u8>, now: i64) -> (r: Result<
        bool,
        ValidateError,
    >)
        ensures
            r matches Ok(b) ==> b == true,
            r matches Ok(b) <==> spec_validate(
                public_pem@,
                opt_str_view(old(self).token),
                now as int,
            ) is Ok,
            r matches Err(e) ==> spec_validate(
                public_pem@,
                opt_str_view(old(self).token),
                now as int,
            ) == Err::<TokenClaimsView, ValidateError>(e),
            spec_validate(public_pem@, opt_str_view(old(self).token), now as int) matches Ok(c)
                ==> (final(self).claims matches Some(cl) && cl@ == c && opt_str_view(
                final(self).user_id,
            ) == Some(c.sub) && opt_str_view(final(self).token_uuid) == Some(
                c.token_uuid,
            ) && final(self).token == old(self).token
                && final(self).expires_in == old(self).expires_in),
            spec_validate(public_pem@, opt_str_view(old(self).token), now as int) is Err
                ==> *final(self) == *old(self),
    {
        let tok = match &self.token {
            None => {
                return Err(ValidateError::NoToken);
            },
            Some(t) => t,
        };
        let cs = chars_of_str(tok.as_str());
        let n = cs.len();
        let mut i: usize = 0;
        while i < n && cs[i] != '.'
            invariant
                0 <= i <= n,
                n == cs@.len(),
                forall|j: int| 0 <= j < i ==> cs@[j] != '.',
            decreases n - i,
        {
            i = i + 1;
        }
        if i == n {
            proof {
                let t = cs@;
                assert(!token_decodes(t)) by {
                    if token_decodes(t) {
                        let (sig, c) = choose|sig: Seq<char>, c: TokenClaimsView|
                            #[trigger] token_split(t, sig, enc_claims(c)) && wf_claims(c);
                        assert(t[sig.len() as int] == '.');
                    }
                }
            }
            return Err(ValidateError::Malformed);
        }
        let mut sigv: Vec<char> = Vec::new();
        let mut j: usize = 0;
        while j < i
            invariant
                0 <= j <= i < n,
                n == cs@.len(),
                sigv@ == cs@.subrange(0, j as int),
            decreases i - j,
        {
            sigv.push(cs[j]);
            proof {
                assert(sigv@ =~= cs@.subrange(0, j + 1));
            }
            j = j + 1;
        }
        let mut payv: Vec<char> = Vec::new();
        let mut k: usize = i + 1;
        while k < n
            invariant
                i < n,
                i + 1 <= k <= n,
                n == cs@.len(),
                payv@ == cs@.subrange(i + 1, k as int),
            decreases n - k,
        {
            payv.push(cs[k]);
            proof {
                assert(payv@ =~= cs@.subrange(i + 1, k + 1));
            }
            k = k + 1;
        }
        proof {
            assert(cs@ =~= sigv@ + seq!['.'] + payv@);
            assert(dot_free(sigv@));
        }
        let parsed = parse_claims(&payv);
        let c = match parsed {
            None => {
                proof {
                    let t = cs@;
                    assert(!token_decodes(t)) by {
                        if token_decodes(t) {
                            let (sig, cc) = choose|sig: Seq<char>, cc: TokenClaimsView|
                                #[trigger] token_split(t, sig, enc_claims(cc)) && wf_claims(cc);
                            lemma_token_split_unique(t, sig, enc_claims(cc), sigv@, payv@);
                            assert(payv@ == enc_claims(cc));
                        }
                    }
                }
                return Err(ValidateError::Malformed);
            },
            Some(c) => c,
        };
        proof {
            let t = cs@;
            assert(token_split(t, sigv@, enc_claims(c@)));
            assert(token_decodes(t));
            let (sigx, cx) = choose|sigx: Seq<char>, cx: TokenClaimsView|
                #[trigger] token_split(t, sigx, enc_claims(cx)) && wf_claims(cx);
            lemma_token_split_unique(t, sigx, enc_claims(cx), sigv@, payv@);
            assert(enc_claims(cx) == payv@);
            assert(seg_at(payv@, 0, enc_claims(cx))) by {
                assert(payv@.subrange(0, payv@.len() as int) =~= payv@);
            }
            assert(seg_at(payv@, 0, enc_claims(c@))) by {
                assert(payv@.subrange(0, payv@.len() as int) =~= payv@);
            }
            lemma_enc_injective(payv@, 0, cx, c@);
            assert(cx == c@);
            assert(sigx == sigv@);
        }
        if now < c.nbf || now >= c.exp {
            return Err(ValidateError::ExpiredOrNotYetValid);
        }
        let pay_str = string_of_chars(&payv);
        let sig_str = string_of_chars(&sigv);
        if !es256_verify(public_pem, pay_str.as_str(), sig_str.as_str()) {
            return Err(ValidateError::BadSignature);
        }
        self.user_id = Some(c.sub.clone());
        self.token_uuid = Some(c.token_uuid.clone());
        self.claims = Some(c);
        Ok(true)
    }

    /// Validate the held token against the public key at the clock's
    /// current reading.
    pub fn validate_jwt_token(&mut self, public_pem: &Vec<u8>) -> (r: Result<bool, ValidateError>)
        ensures
            r matches Ok(b) ==> b == true,
            old(self).token is None ==> r == Err::<bool, ValidateError>(ValidateError::NoToken)
                && *final(self) == *old(self),
            r is Ok ==> (old(self).token matches Some(tk) && final(self).claims matches Some(cl)
                && {
                &&& wf_claims(cl@)
                &&& (exists|sig: Seq<char>|
                    #[trigger] token_split(tk@, sig, enc_claims(cl@)) && sig_valid(
                        public_pem@,
                        enc_claims(cl@),
                        sig,
                    ))
                &&& opt_str_view(final(self).user_id) == Some(cl@.sub)
                &&& opt_str_view(final(self).token_uuid) == Some(cl@.token_uuid)
                &&& final(self).token == old(self).token
            }),
            r is Err ==> *final(self) == *old(self),
    {
        let ms = now_millis();
        let now: i64 = if ms >= 0 {
            ms / 1000
        } else {
            -1
        };
        let r = self.validate_jwt_token_at(public_pem, now);
        proof {
            if r is Ok {
                let sv = spec_validate(public_pem@, opt_str_view(old(self).token), now as int);
                assert(sv is Ok);
                let c = sv->Ok_0;
                assert(token_decodes(old(self).token->Some_0@));
            }
        }
        r
    }
}

/// A token built from a well-formed record, signed so the public key
/// accepts its payload, validates to exactly that record at any time in
/// its window.
pub proof fn lemma_issue_validate_round_trip(
    pub_pem: Seq<u8>,
    sig: Seq<char>,
    c: TokenClaimsView,
    now: int,
)
    requires
        wf_claims(c),
        token_split(sig + seq!['.'] + enc_claims(c), sig, enc_claims(c)),
        sig_valid(pub_pem, enc_claims(c), sig),
        c.nbf <= now < c.exp,
    ensures
        spec_validate(pub_pem, Some(sig + seq!['.'] + enc_claims(c)), now) == Ok::<
            TokenClaimsView,
            ValidateError,
        >(c),
{
    let t = sig + seq!['.'] + enc_claims(c);
    assert(token_decodes(t));
    let (sigx, cx) = choose|sigx: Seq<char>, cx: TokenClaimsView|
        #[trigger] token_split(t, sigx, enc_claims(cx)) && wf_claims(cx);
    lemma_token_split_unique(t, sigx, enc_claims(cx), sig, enc_claims(c));
    assert(seg_at(enc_claims(c), 0, enc_claims(cx))) by {
        assert(enc_claims(c).subrange(0, enc_claims(c).len() as int) =~= enc_claims(c));
    }
    assert(seg_at(enc_claims(c), 0, enc_claims(c))) by {
        assert(enc_claims(c).subrange(0, enc_claims(c).len() as int) =~= enc_claims(c));
    }
    lemma_enc_injective(enc_claims(c), 0, cx, c);
}

/// A token whose signature the public key does not verify is rejected
/// as a bad signature, never accepted, however sound its payload and
/// its window are.
pub proof fn lemma_bad_signature_rejected(
    pub_pem: Seq<u8>,
    t: Seq<char>,
    sig: Seq<char>,
    c: TokenClaimsView,
    now: int,
)
    requires
        wf_claims(c),
        token_split(t, sig, enc_claims(c)),
        c.nbf <= now < c.exp,
        !sig_valid(pub_pem, enc_claims(c), sig),
    ensures
        spec_validate(pub_pem, Some(t), now) == Err::<TokenClaimsView, ValidateError>(
            ValidateError::BadSignature,
        ),
{
    assert(token_decodes(t));
    let (sigx, cx) = choose|sigx: Seq<char>, cx: TokenClaimsView|
        #[trigger] token_split(t, sigx, enc_claims(cx)) && wf_claims(cx);
    lemma_token_split_unique(t, sigx, enc_claims(cx), sig, enc_claims(c));
    assert(seg_at(enc_claims(c), 0, enc_claims(cx))) by {
        assert(enc_claims(c).subrange(0, enc_claims(c).len() as int) =~= enc_claims(c));
    }
    assert(seg_at(enc_claims(c), 0, enc_claims(c))) by {
        assert(enc_claims(c).subrange(0, enc_claims(c).len() as int) =~= enc_claims(c));
    }
    lemma_enc_injective(enc_claims(c), 0, cx, c);
}

/// A token presented strictly after its expiry is rejected as expired,
/// whatever its signature says.
pub proof fn lemma_expired_token_rejected(
    pub_pem: Seq<u8>,
    t: Seq<char>,
    sig: Seq<char>,
    c: TokenClaimsView,
    now: int,
)
    requires
        wf_claims(c),
        token_split(t, sig, enc_claims(c)),
        now >= c.exp,
    ensures
        spec_validate(pub_pem, Some(t), now) == Err::<TokenClaimsView, ValidateError>(
            ValidateError::ExpiredOrNotYetValid,
        ),
{
    assert(token_decodes(t));
    let (sigx, cx) = choose|sigx: Seq<char>, cx: TokenClaimsView|
        #[trigger] token_split(t, sigx, enc_claims(cx)) && wf_claims(cx);
    lemma_token_split_unique(t, sigx, enc_claims(cx), sig, enc_claims(c));
    assert(seg_at(enc_claims(c), 0, enc_claims(cx))) by {
        assert(enc_claims(c).subrange(0, enc_claims(c).len() as int) =~= enc_claims(c));
    }
    assert(seg_at(enc_claims(c), 0, enc_claims(c))) by {
        assert(enc_claims(c).subrange(0, enc_claims(c).len() as int) =~= enc_claims(c));
    }
    lemma_enc_injective(enc_claims(c), 0, cx, c);
}

} // verus!
