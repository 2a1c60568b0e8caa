//! The token's wire form for its claims: a canonical, self-delimiting
//! character encoding. Numbers are canonical decimals closed by a
//! separator, strings carry their length, the group list its count.
//! The encoder and the parser are proved inverse to each other: a parse
//! succeeds exactly on the canonical encoding of a well-formed claims
//! record, and then returns that record.

use vstd::prelude::*;
use crate::chars::{chars_of_str, string_of_chars};
use crate::claims::{Claims, ClaimsUserType};
use crate::text::{
    dec_at, is_digit, lemma_dec_at_unique, lemma_dec_shape, parse_u64, push_dec_u64, spec_dec,
};
use crate::token::{wf_claims, TokenAuthType, TokenClaims, TokenClaimsView};

verus! {

/// `seg` appears in `s` at `pos`.
pub open spec fn seg_at(s: Seq<char>, pos: int, seg: Seq<char>) -> bool {
    &&& 0 <= pos
    &&& pos + seg.len() <= s.len()
    &&& s.subrange(pos, pos + seg.len()) == seg
}

pub proof fn lemma_seg_split(s: Seq<char>, pos: int, a: Seq<char>, b: Seq<char>)
    ensures
        seg_at(s, pos, a + b) <==> (seg_at(s, pos, a) && seg_at(s, pos + a.len(), b)),
{
    if seg_at(s, pos, a + b) {
        assert(s.subrange(pos, pos + a.len()) =~= a) by {
            assert(forall|i: int| 0 <= i < a.len() ==> s.subrange(
                pos,
                pos + (a + b).len(),
            )[i] == (a + b)[i]);
        }
        assert(s.subrange(pos + a.len(), pos + a.len() + b.len()) =~= b) by {
            assert forall|i: int| 0 <= i < b.len() implies s.subrange(
                pos + a.len(),
                pos + a.len() + b.len(),
            )[i] == b[i] by {
                assert(s.subrange(pos, pos + (a + b).len())[a.len() + i] == (a + b)[a.len() + i]);
            }
        }
    }
    if seg_at(s, pos, a) && seg_at(s, pos + a.len(), b) {
        assert(s.subrange(pos, pos + (a + b).len()) =~= a + b);
    }
}

/// A number segment: canonical decimal closed by `sep`.
pub open spec fn num_seg(n: nat, sep: char) -> Seq<char> {
    spec_dec(n).push(sep)
}

/// A string segment: its length in characters, a colon, the characters.
pub open spec fn str_seg(t: Seq<char>) -> Seq<char> {
    num_seg(t.len(), ':') + t
}

/// One tag character for each authentication strength.
pub open spec fn auth_char(a: TokenAuthType) -> char {
    match a {
        TokenAuthType::Full => 'F',
        TokenAuthType::RequiresMFA => 'M',
        TokenAuthType::RequiresValidation => 'V',
    }
}

/// One tag character for each role.
pub open spec fn role_char(t: ClaimsUserType) -> char {
    match t {
        ClaimsUserType::Admin => 'A',
        ClaimsUserType::User => 'U',
        ClaimsUserType::Guest => 'G',
    }
}

/// The group list's string segments, in order.
pub open spec fn strs_cat(gs: Seq<Seq<char>>) -> Seq<char>
    decreases gs.len(),
{
    if gs.len() == 0 {
        Seq::empty()
    } else {
        str_seg(gs[0]) + strs_cat(gs.drop_first())
    }
}

/// A list segment: the count, then each string segment.
pub open spec fn list_seg(gs: Seq<Seq<char>>) -> Seq<char> {
    num_seg(gs.len(), ';') + strs_cat(gs)
}

/// The canonical wire form of a claims record.
pub open spec fn enc_claims(c: TokenClaimsView) -> Seq<char> {
    num_seg(c.exp as nat, ';') + num_seg(c.iat as nat, ';') + num_seg(c.nbf as nat, ';') + seq![
        auth_char(c.auth_type),
    ] + str_seg(c.sub) + str_seg(c.token_uuid) + seq![role_char(c.user_claim.user_type)]
        + str_seg(c.user_claim.user_uuid) + str_seg(c.user_claim.user_name) + list_seg(
        c.user_claim.group_uuid,
    )
}

pub proof fn lemma_strs_cat_snoc(gs: Seq<Seq<char>>, g: Seq<char>)
    ensures
        strs_cat(gs.push(g)) == strs_cat(gs) + str_seg(g),
    decreases gs.len(),
{
    if gs.len() == 0 {
        assert(gs.push(g).drop_first() =~= Seq::<Seq<char>>::empty());
        assert(strs_cat(gs.push(g)) == str_seg(g) + strs_cat(Seq::<Seq<char>>::empty()));
        assert(str_seg(g) + Seq::<char>::empty() =~= str_seg(g));
        assert(strs_cat(gs) + str_seg(g) =~= str_seg(g));
    } else {
        assert(gs.push(g).drop_first() =~= gs.drop_first().push(g));
        lemma_strs_cat_snoc(gs.drop_first(), g);
        assert(gs.push(g)[0] == gs[0]);
        assert(strs_cat(gs.push(g)) == str_seg(gs[0]) + (strs_cat(gs.drop_first()) + str_seg(g)));
        assert(str_seg(gs[0]) + (strs_cat(gs.drop_first()) + str_seg(g)) =~= (str_seg(gs[0])
            + strs_cat(gs.drop_first())) + str_seg(g));
    }
}

/// The list's encoding splits after any prefix of the list.
pub proof fn lemma_strs_cat_split(gs: Seq<Seq<char>>, k: int)
    requires
        0 <= k <= gs.len(),
    ensures
        strs_cat(gs) == strs_cat(gs.take(k)) + strs_cat(gs.skip(k)),
    decreases k,
{
    if k == 0 {
        assert(gs.take(0) =~= Seq::<Seq<char>>::empty());
        assert(gs.skip(0) =~= gs);
        assert(Seq::<char>::empty() + strs_cat(gs) =~= strs_cat(gs));
    } else {
        assert(gs.len() > 0);
        lemma_strs_cat_split(gs.drop_first(), k - 1);
        assert(gs.take(k)[0] == gs[0]);
        assert(gs.take(k).drop_first() =~= gs.drop_first().take(k - 1));
        assert(gs.skip(k) =~= gs.drop_first().skip(k - 1));
        assert(strs_cat(gs.take(k)) == str_seg(gs[0]) + strs_cat(gs.drop_first().take(k - 1)));
        assert(str_seg(gs[0]) + (strs_cat(gs.drop_first().take(k - 1)) + strs_cat(
            gs.drop_first().skip(k - 1),
        )) =~= (str_seg(gs[0]) + strs_cat(gs.drop_first().take(k - 1))) + strs_cat(
            gs.drop_first().skip(k - 1),
        ));
    }
}

/// Append a number segment.
fn push_num_seg(out: &mut Vec<char>, n: u64, sep: char)
    ensures
        final(out)@ == old(out)@ + num_seg(n as nat, sep),
{
    push_dec_u64(out, n);
    out.push(sep);
    assert(out@ =~= old(out)@ + num_seg(n as nat, sep));
}

/// Append a string segment. (The length call also witnesses that the
/// string is short enough for the wire's number width.)
fn push_str_seg(out: &mut Vec<char>, t: &String)
    ensures
        final(out)@ == old(out)@ + str_seg(t@),
        t@.len() <= u64::MAX,
{
    let mut content = chars_of_str(t.as_str());
    let n: u64 = content.len() as u64;
    push_num_seg(out, n, ':');
    out.append(&mut content);
    assert(out@ =~= old(out)@ + str_seg(t@));
}

/// Write a claims record in its canonical wire form.
pub fn encode_claims(c: &TokenClaims) -> (out: Vec<char>)
    requires
        0 <= c.exp,
        0 <= c.iat,
        0 <= c.nbf,
    ensures
        out@ == enc_claims(c@),
        wf_claims(c@),
{
    let mut out: Vec<char> = Vec::new();
    push_num_seg(&mut out, c.exp as u64, ';');
    proof {
        assert(Seq::<char>::empty() + num_seg(c.exp as nat, ';') =~= num_seg(c.exp as nat, ';'));
    }
    push_num_seg(&mut out, c.iat as u64, ';');
    push_num_seg(&mut out, c.nbf as u64, ';');
    let a = match c.auth_type {
        TokenAuthType::Full => 'F',
        TokenAuthType::RequiresMFA => 'M',
        TokenAuthType::RequiresValidation => 'V',
    };
    let ghost before_auth = out@;
    out.push(a);
    proof {
        assert(out@ =~= before_auth + seq![auth_char(c@.auth_type)]);
    }
    push_str_seg(&mut out, &c.sub);
    push_str_seg(&mut out, &c.token_uuid);
    let rc = match c.user_claim.user_type {
        ClaimsUserType::Admin => 'A',
        ClaimsUserType::User => 'U',
        ClaimsUserType::Guest => 'G',
    };
    let ghost before_role = out@;
    out.push(rc);
    proof {
        assert(out@ =~= before_role + seq![role_char(c@.user_claim.user_type)]);
    }
    push_str_seg(&mut out, &c.user_claim.user_uuid);
    push_str_seg(&mut out, &c.user_claim.user_name);
    let ghost head = out@;
    let count: u64 = c.user_claim.group_uuid.len() as u64;
    push_num_seg(&mut out, count, ';');
    let ghost after_count = out@;
    proof {
        assert(after_count + strs_cat(Seq::<Seq<char>>::empty()) =~= after_count);
        assert(c@.user_claim.group_uuid.take(0) =~= Seq::<Seq<char>>::empty());
    }
    let mut k: usize = 0;
    while k < c.user_claim.group_uuid.len()
        invariant
            0 <= k <= c.user_claim.group_uuid@.len(),
            out@ == after_count + strs_cat(c@.user_claim.group_uuid.take(k as int)),
            forall|j: int| 0 <= j < k ==> #[trigger] c@.user_claim.group_uuid[j].len() <= u64::MAX,
        decreases c.user_claim.group_uuid@.len() - k,
    {
        push_str_seg(&mut out, &c.user_claim.group_uuid[k]);
        proof {
            let gs = c@.user_claim.group_uuid;
            assert(c.user_claim.group_uuid@[k as int]@ == gs[k as int]);
            assert(gs.take(k + 1) =~= gs.take(k as int).push(gs[k as int]));
            lemma_strs_cat_snoc(gs.take(k as int), gs[k as int]);
            assert((after_count + strs_cat(gs.take(k as int))) + str_seg(gs[k as int])
                =~= after_count + (strs_cat(gs.take(k as int)) + str_seg(gs[k as int])));
        }
        k = k + 1;
    }
    proof {
        let gs = c@.user_claim.group_uuid;
        assert(gs.take(c.user_claim.group_uuid@.len() as int) =~= gs);
        assert(out@ == (head + num_seg(gs.len(), ';')) + strs_cat(gs));
        assert((head + num_seg(gs.len(), ';')) + strs_cat(gs) =~= head + (num_seg(gs.len(), ';')
            + strs_cat(gs)));
        assert(out@ == head + list_seg(gs));
        assert(out@ == enc_claims(c@));
        assert(gs.len() <= u64::MAX);
        assert(wf_claims(c@));
    }
    out
}

/// A number segment sits at `pos` exactly when the canonical decimal
/// sits there, maximally, with the separator right after it.
pub proof fn lemma_num_seg_at(s: Seq<char>, pos: int, m: nat, sep: char)
    requires
        !is_digit(sep),
        0 <= pos,
    ensures
        seg_at(s, pos, num_seg(m, sep)) <==> (dec_at(s, pos, m) && pos + spec_dec(m).len()
            < s.len() && s[pos + spec_dec(m).len()] == sep),
{
    lemma_dec_shape(m);
    assert(num_seg(m, sep) =~= spec_dec(m) + seq![sep]);
    lemma_seg_split(s, pos, spec_dec(m), seq![sep]);
    let l = spec_dec(m).len() as int;
    if seg_at(s, pos, num_seg(m, sep)) {
        assert(s.subrange(pos + l, pos + l + 1)[0] == sep);
        assert(s[pos + l] == sep);
        assert(s.subrange(pos, pos + l) == spec_dec(m));
    }
    if dec_at(s, pos, m) && pos + l < s.len() && s[pos + l] == sep {
        assert(s.subrange(pos + l, pos + l + 1) =~= seq![sep]);
        assert(seg_at(s, pos + l, seq![sep]));
    }
}

/// Read a number segment: a canonical decimal closed by `sep`.
pub fn parse_num_field(s: &Vec<char>, pos: usize, sep: char) -> (r: Option<(u64, usize)>)
    requires
        pos <= s@.len(),
        !is_digit(sep),
    ensures
        r matches Some(v) ==> {
            &&& seg_at(s@, pos as int, num_seg(v.0 as nat, sep))
            &&& v.1 as int == pos + num_seg(v.0 as nat, sep).len()
            &&& pos < v.1 <= s@.len()
        },
        r matches Some(v) ==> forall|m: nat|
            m <= u64::MAX && #[trigger] seg_at(s@, pos as int, num_seg(m, sep)) ==> m == v.0 as nat,
        r is None ==> forall|m: nat|
            m <= u64::MAX ==> !#[trigger] seg_at(s@, pos as int, num_seg(m, sep)),
{
    let n = s.len();
    match parse_u64(s, pos) {
        None => {
            proof {
                assert forall|m: nat|
                    m <= u64::MAX implies !#[trigger] seg_at(s@, pos as int, num_seg(m, sep)) by {
                    lemma_num_seg_at(s@, pos as int, m, sep);
                    if seg_at(s@, pos as int, num_seg(m, sep)) {
                        assert((m as u64) as nat == m);
                        assert(dec_at(s@, pos as int, (m as u64) as nat));
                    }
                }
            }
            None
        },
        Some((v, end)) => {
            let has_sep: bool = end < n && s[end] == sep;
            if has_sep {
                proof {
                    lemma_num_seg_at(s@, pos as int, v as nat, sep);
                    assert(seg_at(s@, pos as int, num_seg(v as nat, sep)));
                    assert forall|m: nat|
                        m <= u64::MAX && #[trigger] seg_at(s@, pos as int, num_seg(m, sep))
                        implies m == v as nat by {
                        lemma_num_seg_at(s@, pos as int, m, sep);
                        lemma_dec_at_unique(s@, pos as int, m, v as nat);
                    }
                }
                Some((v, end + 1))
            } else {
                proof {
                    assert forall|m: nat|
                        m <= u64::MAX implies !#[trigger] seg_at(s@, pos as int, num_seg(m, sep)) by {
                        lemma_num_seg_at(s@, pos as int, m, sep);
                        if seg_at(s@, pos as int, num_seg(m, sep)) {
                            lemma_dec_at_unique(s@, pos as int, m, v as nat);
                        }
                    }
                }
                None
            }
        },
    }
}

/// Read one tag character for the authentication strength.
fn parse_auth(s: &Vec<char>, pos: usize) -> (r: Option<TokenAuthType>)
    requires
        pos <= s@.len(),
    ensures
        r matches Some(a) ==> seg_at(s@, pos as int, seq![auth_char(a)]),
        r matches Some(a) ==> forall|b: TokenAuthType|
            #[trigger] seg_at(s@, pos as int, seq![auth_char(b)]) ==> b == a,
        r is None ==> forall|b: TokenAuthType| !#[trigger] seg_at(
            s@,
            pos as int,
            seq![auth_char(b)],
        ),
{
    proof {
        assert forall|b: TokenAuthType|
            #[trigger] seg_at(s@, pos as int, seq![auth_char(b)]) implies (pos < s@.len()
            && s@[pos as int] == auth_char(b)) by {
            assert(s@.subrange(pos as int, pos + 1)[0] == auth_char(b));
        }
    }
    if pos < s.len() {
        let c0 = s[pos];
        proof {
            assert(s@.subrange(pos as int, pos + 1) =~= seq![s@[pos as int]]);
        }
        if c0 == 'F' {
            Some(TokenAuthType::Full)
        } else if c0 == 'M' {
            Some(TokenAuthType::RequiresMFA)
        } else if c0 == 'V' {
            Some(TokenAuthType::RequiresValidation)
        } else {
            None
        }
    } else {
        None
    }
}

/// Read one tag character for the role.
fn parse_role(s: &Vec<char>, pos: usize) -> (r: Option<ClaimsUserType>)
    requires
        pos <= s@.len(),
    ensures
        r matches Some(a) ==> seg_at(s@, pos as int, seq![role_char(a)]),
        r matches Some(a) ==> forall|b: ClaimsUserType|
            #[trigger] seg_at(s@, pos as int, seq![role_char(b)]) ==> b == a,
        r is None ==> forall|b: ClaimsUserType| !#[trigger] seg_at(
            s@,
            pos as int,
            seq![role_char(b)],
        ),
{
    proof {
        assert forall|b: ClaimsUserType|
            #[trigger] seg_at(s@, pos as int, seq![role_char(b)]) implies (pos < s@.len()
            && s@[pos as int] == role_char(b)) by {
            assert(s@.subrange(pos as int, pos + 1)[0] == role_char(b));
        }
    }
    if pos < s.len() {
        let c0 = s[pos];
        proof {
            assert(s@.subrange(pos as int, pos + 1) =~= seq![s@[pos as int]]);
        }
        if c0 == 'A' {
            Some(ClaimsUserType::Admin)
        } else if c0 == 'U' {
            Some(ClaimsUserType::User)
        } else if c0 == 'G' {
            Some(ClaimsUserType::Guest)
        } else {
            None
        }
    } else {
        None
    }
}

/// Read a string segment: a length, a colon, that many characters.
pub fn parse_str_field(s: &Vec<char>, pos: usize) -> (r: Option<(String, usize)>)
    requires
        pos <= s@.len(),
    ensures
        r matches Some(v) ==> {
            &&& seg_at(s@, pos as int, str_seg(v.0@))
            &&& v.1 as int == pos + str_seg(v.0@).len()
            &&& pos <= v.1 <= s@.len()
            &&& v.0@.len() <= u64::MAX
        },
        r matches Some(v) ==> forall|u: Seq<char>|
            u.len() <= u64::MAX && #[trigger] seg_at(s@, pos as int, str_seg(u)) ==> u == v.0@,
        r is None ==> forall|u: Seq<char>|
            u.len() <= u64::MAX ==> !#[trigger] seg_at(s@, pos as int, str_seg(u)),
{
    let n = s.len();
    match parse_num_field(s, pos, ':') {
        None => {
            proof {
                assert forall|u: Seq<char>|
                    u.len() <= u64::MAX implies !#[trigger] seg_at(s@, pos as int, str_seg(u)) by {
                    lemma_seg_split(s@, pos as int, num_seg(u.len(), ':'), u);
                }
            }
            None
        },
        Some((len64, p)) => {
            let room = n - p;
            if len64 > room as u64 {
                proof {
                    assert forall|u: Seq<char>|
                        u.len() <= u64::MAX implies !#[trigger] seg_at(s@, pos as int, str_seg(u)) by {
                        lemma_seg_split(s@, pos as int, num_seg(u.len(), ':'), u);
                        if seg_at(s@, pos as int, str_seg(u)) {
                            assert(u.len() == len64 as nat);
                        }
                    }
                }
                None
            } else {
                let len_us: usize = len64 as usize;
                let end: usize = p + len_us;
                let mut content: Vec<char> = Vec::new();
                let mut j: usize = p;
                while j < end
                    invariant
                        p <= j <= end <= n,
                        n == s@.len(),
                        content@ == s@.subrange(p as int, j as int),
                    decreases end - j,
                {
                    content.push(s[j]);
                    proof {
                        assert(content@ =~= s@.subrange(p as int, j + 1));
                    }
                    j = j + 1;
                }
                let st = string_of_chars(&content);
                proof {
                    assert(st@ == s@.subrange(p as int, end as int));
                    assert(st@.len() == len64 as nat);
                    assert(seg_at(s@, p as int, st@)) by {
                        assert(s@.subrange(p as int, p + st@.len()) =~= st@);
                    }
                    lemma_seg_split(s@, pos as int, num_seg(st@.len(), ':'), st@);
                    assert(seg_at(s@, pos as int, str_seg(st@)));
                    assert forall|u: Seq<char>|
                        u.len() <= u64::MAX && #[trigger] seg_at(s@, pos as int, str_seg(u))
                        implies u == st@ by {
                        lemma_seg_split(s@, pos as int, num_seg(u.len(), ':'), u);
                        assert(u.len() == len64 as nat);
                        assert(u =~= st@) by {
                            assert(u == s@.subrange(p as int, p + u.len()));
                        }
                    }
                }
                Some((st, end))
            }
        },
    }
}

/// The character sequences of a vector of strings.
pub open spec fn strs_view(v: Seq<String>) -> Seq<Seq<char>> {
    v.map_values(|g: String| g@)
}

/// Lists the wire can carry: count and each length fit the number width.
pub open spec fn bounded_gs(gs: Seq<Seq<char>>) -> bool {
    &&& gs.len() <= u64::MAX
    &&& forall|i: int| 0 <= i < gs.len() ==> #[trigger] gs[i].len() <= u64::MAX
}

/// Read a list segment: a count, then that many string segments.
pub fn parse_list(s: &Vec<char>, pos: usize) -> (r: Option<(Vec<String>, usize)>)
    requires
        pos <= s@.len(),
    ensures
        r matches Some(v) ==> {
            &&& seg_at(s@, pos as int, list_seg(strs_view(v.0@)))
            &&& v.1 as int == pos + list_seg(strs_view(v.0@)).len()
            &&& pos < v.1 <= s@.len()
            &&& bounded_gs(strs_view(v.0@))
        },
        r matches Some(v) ==> forall|gs: Seq<Seq<char>>|
            bounded_gs(gs) && #[trigger] seg_at(s@, pos as int, list_seg(gs)) ==> gs == strs_view(
                v.0@,
            ),
        r is None ==> forall|gs: Seq<Seq<char>>|
            bounded_gs(gs) ==> !#[trigger] seg_at(s@, pos as int, list_seg(gs)),
{
    let n = s.len();
    match parse_num_field(s, pos, ';') {
        None => {
            proof {
                assert forall|gs: Seq<Seq<char>>|
                    bounded_gs(gs) implies !#[trigger] seg_at(s@, pos as int, list_seg(gs)) by {
                    lemma_seg_split(s@, pos as int, num_seg(gs.len(), ';'), strs_cat(gs));
                }
            }
            None
        },
        Some((m, p)) => {
            let mut out: Vec<String> = Vec::new();
            let mut cur: usize = p;
            let mut k: u64 = 0;
            proof {
                assert(strs_view(out@) =~= Seq::<Seq<char>>::empty());
                assert(seg_at(s@, p as int, strs_cat(strs_view(out@)))) by {
                    assert(s@.subrange(p as int, p as int) =~= Seq::<char>::empty());
                }
            }
            while k < m
                invariant
                    0 <= k <= m,
                    p <= cur <= n,
                    n == s@.len(),
                    pos <= p,
                    out@.len() == k,
                    seg_at(s@, pos as int, num_seg(m as nat, ';')),
                    p as int == pos + num_seg(m as nat, ';').len(),
                    forall|m2: nat|
                        m2 <= u64::MAX && #[trigger] seg_at(s@, pos as int, num_seg(m2, ';'))
                            ==> m2 == m as nat,
                    seg_at(s@, p as int, strs_cat(strs_view(out@))),
                    cur as int == p + strs_cat(strs_view(out@)).len(),
                    bounded_gs(strs_view(out@)),
                    forall|gs: Seq<Seq<char>>|
                        bounded_gs(gs) && gs.len() == m as nat && #[trigger] seg_at(
                            s@,
                            p as int,
                            strs_cat(gs),
                        ) ==> gs.take(k as int) == strs_view(out@),
                decreases m - k,
            {
                let ghost prev_view = strs_view(out@);
                match parse_str_field(s, cur) {
                    None => {
                        proof {
                            assert forall|gs: Seq<Seq<char>>|
                                bounded_gs(gs) implies !#[trigger] seg_at(
                                s@,
                                pos as int,
                                list_seg(gs),
                            ) by {
                                lemma_seg_split(
                                    s@,
                                    pos as int,
                                    num_seg(gs.len(), ';'),
                                    strs_cat(gs),
                                );
                                if seg_at(s@, pos as int, list_seg(gs)) {
                                    assert(gs.len() == m as nat);
                                    assert(gs.take(k as int) == prev_view);
                                    lemma_strs_cat_split(gs, k as int);
                                    lemma_seg_split(
                                        s@,
                                        p as int,
                                        strs_cat(gs.take(k as int)),
                                        strs_cat(gs.skip(k as int)),
                                    );
                                    assert(seg_at(s@, cur as int, strs_cat(gs.skip(k as int))));
                                    assert(gs.skip(k as int).len() > 0);
                                    assert(strs_cat(gs.skip(k as int)) == str_seg(
                                        gs.skip(k as int)[0],
                                    ) + strs_cat(gs.skip(k as int).drop_first()));
                                    lemma_seg_split(
                                        s@,
                                        cur as int,
                                        str_seg(gs.skip(k as int)[0]),
                                        strs_cat(gs.skip(k as int).drop_first()),
                                    );
                                    assert(gs.skip(k as int)[0] == gs[k as int]);
                                    assert(seg_at(s@, cur as int, str_seg(gs[k as int])));
                                    assert(gs[k as int].len() <= u64::MAX);
                                }
                            }
                        }
                        return None;
                    },
                    Some((t, end)) => {
                        proof {
                            assert(strs_view(out@.push(t)) =~= prev_view.push(t@));
                            lemma_strs_cat_snoc(prev_view, t@);
                            lemma_seg_split(s@, p as int, strs_cat(prev_view), str_seg(t@));
                            assert(seg_at(s@, p as int, strs_cat(prev_view.push(t@))));
                            assert forall|gs: Seq<Seq<char>>|
                                bounded_gs(gs) && gs.len() == m as nat && #[trigger] seg_at(
                                s@,
                                p as int,
                                strs_cat(gs),
                            ) implies gs.take(k + 1) == prev_view.push(t@) by {
                                assert(gs.take(k as int) == prev_view);
                                lemma_strs_cat_split(gs, k as int);
                                lemma_seg_split(
                                    s@,
                                    p as int,
                                    strs_cat(gs.take(k as int)),
                                    strs_cat(gs.skip(k as int)),
                                );
                                assert(seg_at(s@, cur as int, strs_cat(gs.skip(k as int))));
                                assert(gs.skip(k as int).len() > 0);
                                assert(strs_cat(gs.skip(k as int)) == str_seg(gs.skip(k as int)[0])
                                    + strs_cat(gs.skip(k as int).drop_first()));
                                lemma_seg_split(
                                    s@,
                                    cur as int,
                                    str_seg(gs.skip(k as int)[0]),
                                    strs_cat(gs.skip(k as int).drop_first()),
                                );
                                assert(gs.skip(k as int)[0] == gs[k as int]);
                                assert(seg_at(s@, cur as int, str_seg(gs[k as int])));
                                assert(gs[k as int].len() <= u64::MAX);
                                assert(gs[k as int] == t@);
                                assert(gs.take(k + 1) =~= prev_view.push(t@));
                            }
                        }
                        out.push(t);
                        cur = end;
                        proof {
                            assert(strs_view(out@) == prev_view.push(t@));
                        }
                        k = k + 1;
                    },
                }
            }
            proof {
                let view = strs_view(out@);
                assert(view.len() == m as nat);
                lemma_seg_split(s@, pos as int, num_seg(m as nat, ';'), strs_cat(view));
                assert(seg_at(s@, pos as int, list_seg(view)));
                assert forall|gs: Seq<Seq<char>>|
                    bounded_gs(gs) && #[trigger] seg_at(s@, pos as int, list_seg(gs)) implies gs
                    == view by {
                    lemma_seg_split(s@, pos as int, num_seg(gs.len(), ';'), strs_cat(gs));
                    assert(gs.len() == m as nat);
                    assert(gs.take(m as int) == view);
                    assert(gs.take(m as int) =~= gs);
                }
            }
            Some((out, cur))
        },
    }
}

/// Offsets of the record's fields inside its encoding.
pub open spec fn enc_p1(c: TokenClaimsView) -> int {
    num_seg(c.exp as nat, ';').len() as int
}

pub open spec fn enc_p2(c: TokenClaimsView) -> int {
    enc_p1(c) + num_seg(c.iat as nat, ';').len()
}

pub open spec fn enc_p3(c: TokenClaimsView) -> int {
    enc_p2(c) + num_seg(c.nbf as nat, ';').len()
}

pub open spec fn enc_p4(c: TokenClaimsView) -> int {
    enc_p3(c) + 1
}

pub open spec fn enc_p5(c: TokenClaimsView) -> int {
    enc_p4(c) + str_seg(c.sub).len()
}

pub open spec fn enc_p6(c: TokenClaimsView) -> int {
    enc_p5(c) + str_seg(c.token_uuid).len()
}

pub open spec fn enc_p7(c: TokenClaimsView) -> int {
    enc_p6(c) + 1
}

pub open spec fn enc_p8(c: TokenClaimsView) -> int {
    enc_p7(c) + str_seg(c.user_claim.user_uuid).len()
}

pub open spec fn enc_p9(c: TokenClaimsView) -> int {
    enc_p8(c) + str_seg(c.user_claim.user_name).len()
}

/// The encoding sits at `pos` exactly when each field's segment sits at
/// its offset.
pub proof fn lemma_enc_structure(c: TokenClaimsView, s: Seq<char>, pos: int)
    requires
        0 <= pos,
    ensures
        seg_at(s, pos, enc_claims(c)) <==> {
            &&& seg_at(s, pos, num_seg(c.exp as nat, ';'))
            &&& seg_at(s, pos + enc_p1(c), num_seg(c.iat as nat, ';'))
            &&& seg_at(s, pos + enc_p2(c), num_seg(c.nbf as nat, ';'))
            &&& seg_at(s, pos + enc_p3(c), seq![auth_char(c.auth_type)])
            &&& seg_at(s, pos + enc_p4(c), str_seg(c.sub))
            &&& seg_at(s, pos + enc_p5(c), str_seg(c.token_uuid))
            &&& seg_at(s, pos + enc_p6(c), seq![role_char(c.user_claim.user_type)])
            &&& seg_at(s, pos + enc_p7(c), str_seg(c.user_claim.user_uuid))
            &&& seg_at(s, pos + enc_p8(c), str_seg(c.user_claim.user_name))
            &&& seg_at(s, pos + enc_p9(c), list_seg(c.user_claim.group_uuid))
        },
        enc_claims(c).len() == enc_p9(c) + list_seg(c.user_claim.group_uuid).len(),
{
    let s1 = num_seg(c.exp as nat, ';');
    let s2 = num_seg(c.iat as nat, ';');
    let s3 = num_seg(c.nbf as nat, ';');
    let s4 = seq![auth_char(c.auth_type)];
    let s5 = str_seg(c.sub);
    let s6 = str_seg(c.token_uuid);
    let s7 = seq![role_char(c.user_claim.user_type)];
    let s8 = str_seg(c.user_claim.user_uuid);
    let s9 = str_seg(c.user_claim.user_name);
    let s10 = list_seg(c.user_claim.group_uuid);
    lemma_seg_split(s, pos, s1 + s2 + s3 + s4 + s5 + s6 + s7 + s8 + s9, s10);
    lemma_seg_split(s, pos, s1 + s2 + s3 + s4 + s5 + s6 + s7 + s8, s9);
    lemma_seg_split(s, pos, s1 + s2 + s3 + s4 + s5 + s6 + s7, s8);
    lemma_seg_split(s, pos, s1 + s2 + s3 + s4 + s5 + s6, s7);
    lemma_seg_split(s, pos, s1 + s2 + s3 + s4 + s5, s6);
    lemma_seg_split(s, pos, s1 + s2 + s3 + s4, s5);
    lemma_seg_split(s, pos, s1 + s2 + s3, s4);
    lemma_seg_split(s, pos, s1 + s2, s3);
    lemma_seg_split(s, pos, s1, s2);
}


/// The head of the encoding: the three temporal fields and the
/// strength tag.
pub open spec fn head_seg(e: nat, i: nat, nb: nat, a: TokenAuthType) -> Seq<char> {
    num_seg(e, ';') + num_seg(i, ';') + num_seg(nb, ';') + seq![auth_char(a)]
}

/// The middle of the encoding: subject, token identifier, role tag and
/// the user's identifier.
pub open spec fn mid_seg(su: Seq<char>, tu: Seq<char>, ro: ClaimsUserType, uu: Seq<char>) -> Seq<
    char,
> {
    str_seg(su) + str_seg(tu) + seq![role_char(ro)] + str_seg(uu)
}

/// Read the temporal fields and the strength tag, and pin down what any
/// whole-record candidate must start with.
#[verifier::rlimit(100)]
fn parse_head(s: &Vec<char>) -> (r: Option<(i64, i64, i64, TokenAuthType, usize)>)
    ensures
        r matches Some(v) ==> {
            &&& 0 <= v.0 && 0 <= v.1 && 0 <= v.2
            &&& seg_at(s@, 0, head_seg(v.0 as nat, v.1 as nat, v.2 as nat, v.3))
            &&& v.4 as int == head_seg(v.0 as nat, v.1 as nat, v.2 as nat, v.3).len()
            &&& v.4 <= s@.len()
        },
        r matches Some(v) ==> forall|c: TokenClaimsView|
            wf_claims(c) && #[trigger] seg_at(s@, 0, enc_claims(c)) ==> c.exp == v.0 && c.iat
                == v.1 && c.nbf == v.2 && c.auth_type == v.3 && enc_p4(c) == v.4,
        r is None ==> forall|c: TokenClaimsView| wf_claims(c) ==> !#[trigger] seg_at(
            s@,
            0,
            enc_claims(c),
        ),
{
    let n = s.len();
    let r_exp = parse_num_field(s, 0, ';');
    let (exp64, q1) = match r_exp {
        Some(v) => v,
        None => {
            proof {
                assert forall|c: TokenClaimsView| wf_claims(c) implies !#[trigger] seg_at(
                    s@,
                    0,
                    enc_claims(c),
                ) by {
                    if seg_at(s@, 0, enc_claims(c)) {
                        lemma_enc_structure(c, s@, 0);
                        assert(seg_at(s@, 0, num_seg(c.exp as nat, ';')));
                    }
                }
            }
            return None;
        },
    };
    if exp64 > i64::MAX as u64 {
        proof {
            assert forall|c: TokenClaimsView| wf_claims(c) implies !#[trigger] seg_at(
                s@,
                0,
                enc_claims(c),
            ) by {
                if seg_at(s@, 0, enc_claims(c)) {
                    lemma_enc_structure(c, s@, 0);
                    assert(seg_at(s@, 0, num_seg(c.exp as nat, ';')));
                    assert(c.exp as nat == exp64 as nat);
                }
            }
        }
        return None;
    }
    let r_iat = parse_num_field(s, q1, ';');
    let (iat64, q2) = match r_iat {
        Some(v) => v,
        None => {
            proof {
                assert forall|c: TokenClaimsView| wf_claims(c) implies !#[trigger] seg_at(
                    s@,
                    0,
                    enc_claims(c),
                ) by {
                    if seg_at(s@, 0, enc_claims(c)) {
                        lemma_enc_structure(c, s@, 0);
                        assert(seg_at(s@, 0, num_seg(c.exp as nat, ';')));
                        assert(c.exp as nat == exp64 as nat);
                        assert(enc_p1(c) == q1 as int);
                        assert(seg_at(s@, q1 as int, num_seg(c.iat as nat, ';')));
                    }
                }
            }
            return None;
        },
    };
    if iat64 > i64::MAX as u64 {
        proof {
            assert forall|c: TokenClaimsView| wf_claims(c) implies !#[trigger] seg_at(
                s@,
                0,
                enc_claims(c),
            ) by {
                if seg_at(s@, 0, enc_claims(c)) {
                    lemma_enc_structure(c, s@, 0);
                    assert(seg_at(s@, 0, num_seg(c.exp as nat, ';')));
                    assert(c.exp as nat == exp64 as nat);
                    assert(enc_p1(c) == q1 as int);
                    assert(seg_at(s@, q1 as int, num_seg(c.iat as nat, ';')));
                    assert(c.iat as nat == iat64 as nat);
                }
            }
        }
        return None;
    }
    let r_nbf = parse_num_field(s, q2, ';');
    let (nbf64, q3) = match r_nbf {
        Some(v) => v,
        None => {
            proof {
                assert forall|c: TokenClaimsView| wf_claims(c) implies !#[trigger] seg_at(
                    s@,
                    0,
                    enc_claims(c),
                ) by {
                    if seg_at(s@, 0, enc_claims(c)) {
                        lemma_enc_structure(c, s@, 0);
                        assert(seg_at(s@, 0, num_seg(c.exp as nat, ';')));
                        assert(c.exp as nat == exp64 as nat);
                        assert(enc_p1(c) == q1 as int);
                        assert(seg_at(s@, q1 as int, num_seg(c.iat as nat, ';')));
                        assert(c.iat as nat == iat64 as nat);
                        assert(enc_p2(c) == q2 as int);
                        assert(seg_at(s@, q2 as int, num_seg(c.nbf as nat, ';')));
                    }
                }
            }
            return None;
        },
    };
    if nbf64 > i64::MAX as u64 {
        proof {
            assert forall|c: TokenClaimsView| wf_claims(c) implies !#[trigger] seg_at(
                s@,
                0,
                enc_claims(c),
            ) by {
                if seg_at(s@, 0, enc_claims(c)) {
                    lemma_enc_structure(c, s@, 0);
                    assert(seg_at(s@, 0, num_seg(c.exp as nat, ';')));
                    assert(c.exp as nat == exp64 as nat);
                    assert(enc_p1(c) == q1 as int);
                    assert(seg_at(s@, q1 as int, num_seg(c.iat as nat, ';')));
                    assert(c.iat as nat == iat64 as nat);
                    assert(enc_p2(c) == q2 as int);
                    assert(seg_at(s@, q2 as int, num_seg(c.nbf as nat, ';')));
                    assert(c.nbf as nat == nbf64 as nat);
                }
            }
        }
        return None;
    }
    let r_auth = parse_auth(s, q3);
    let a = match r_auth {
        Some(a) => a,
        None => {
            proof {
                assert forall|c: TokenClaimsView| wf_claims(c) implies !#[trigger] seg_at(
                    s@,
                    0,
                    enc_claims(c),
                ) by {
                    if seg_at(s@, 0, enc_claims(c)) {
                        lemma_enc_structure(c, s@, 0);
                        assert(seg_at(s@, 0, num_seg(c.exp as nat, ';')));
                        assert(c.exp as nat == exp64 as nat);
                        assert(enc_p1(c) == q1 as int);
                        assert(seg_at(s@, q1 as int, num_seg(c.iat as nat, ';')));
                        assert(c.iat as nat == iat64 as nat);
                        assert(enc_p2(c) == q2 as int);
                        assert(seg_at(s@, q2 as int, num_seg(c.nbf as nat, ';')));
                        assert(c.nbf as nat == nbf64 as nat);
                        assert(enc_p3(c) == q3 as int);
                        assert(seg_at(s@, q3 as int, seq![auth_char(c.auth_type)]));
                    }
                }
            }
            return None;
        },
    };
    proof {
        assert(q3 as int + 1 <= n as int);
    }
    let q4 = q3 + 1;
    proof {
        let e = exp64 as nat;
        let i = iat64 as nat;
        let nb = nbf64 as nat;
        lemma_seg_split(s@, 0, num_seg(e, ';'), num_seg(i, ';'));
        lemma_seg_split(s@, 0, num_seg(e, ';') + num_seg(i, ';'), num_seg(nb, ';'));
        lemma_seg_split(
            s@,
            0,
            num_seg(e, ';') + num_seg(i, ';') + num_seg(nb, ';'),
            seq![auth_char(a)],
        );
        assert(seg_at(s@, 0, head_seg(e, i, nb, a)));
        assert forall|c: TokenClaimsView|
            wf_claims(c) && #[trigger] seg_at(s@, 0, enc_claims(c)) implies c.exp == exp64 as int
            && c.iat == iat64 as int && c.nbf == nbf64 as int && c.auth_type == a && enc_p4(c)
            == q4 as int by {
            lemma_enc_structure(c, s@, 0);
            assert(seg_at(s@, 0, num_seg(c.exp as nat, ';')));
            assert(c.exp as nat == exp64 as nat);
            assert(enc_p1(c) == q1 as int);
            assert(seg_at(s@, q1 as int, num_seg(c.iat as nat, ';')));
            assert(c.iat as nat == iat64 as nat);
            assert(enc_p2(c) == q2 as int);
            assert(seg_at(s@, q2 as int, num_seg(c.nbf as nat, ';')));
            assert(c.nbf as nat == nbf64 as nat);
            assert(enc_p3(c) == q3 as int);
            assert(seg_at(s@, q3 as int, seq![auth_char(c.auth_type)]));
            assert(c.auth_type == a);
        }
    }
    Some((exp64 as i64, iat64 as i64, nbf64 as i64, a, q4))
}

/// Read the subject, token identifier, role and user identifier, given
/// where the head ended.
#[verifier::rlimit(100)]
fn parse_mid(s: &Vec<char>, q4: usize) -> (r: Option<(String, String, ClaimsUserType, String, usize)>)
    requires
        q4 <= s@.len(),
    ensures
        r matches Some(v) ==> {
            &&& seg_at(s@, q4 as int, mid_seg(v.0@, v.1@, v.2, v.3@))
            &&& v.4 as int == q4 + mid_seg(v.0@, v.1@, v.2, v.3@).len()
            &&& v.4 <= s@.len()
        },
        r matches Some(v) ==> forall|c: TokenClaimsView|
            wf_claims(c) && #[trigger] seg_at(s@, 0, enc_claims(c)) && enc_p4(c) == q4 as int
                ==> c.sub == v.0@ && c.token_uuid == v.1@ && c.user_claim.user_type == v.2
                && c.user_claim.user_uuid == v.3@ && enc_p8(c) == v.4 as int,
        r is None ==> forall|c: TokenClaimsView|
            wf_claims(c) && #[trigger] seg_at(s@, 0, enc_claims(c)) ==> enc_p4(c) != q4 as int,
{
    let n = s.len();
    let r_sub = parse_str_field(s, q4);
    let (sub, q5) = match r_sub {
        Some(v) => v,
        None => {
            proof {
                assert forall|c: TokenClaimsView|
                    wf_claims(c) && #[trigger] seg_at(s@, 0, enc_claims(c)) implies enc_p4(c)
                    != q4 as int by {
                    if enc_p4(c) == q4 as int {
                        lemma_enc_structure(c, s@, 0);
                        assert(seg_at(s@, q4 as int, str_seg(c.sub)));
                    }
                }
            }
            return None;
        },
    };
    let r_tuid = parse_str_field(s, q5);
    let (tuid, q6) = match r_tuid {
        Some(v) => v,
        None => {
            proof {
                assert forall|c: TokenClaimsView|
                    wf_claims(c) && #[trigger] seg_at(s@, 0, enc_claims(c)) implies enc_p4(c)
                    != q4 as int by {
                    if enc_p4(c) == q4 as int {
                        lemma_enc_structure(c, s@, 0);
                        assert(seg_at(s@, q4 as int, str_seg(c.sub)));
                        assert(c.sub == sub@);
                        assert(enc_p5(c) == q5 as int);
                        assert(seg_at(s@, q5 as int, str_seg(c.token_uuid)));
                    }
                }
            }
            return None;
        },
    };
    let r_role = parse_role(s, q6);
    let ro = match r_role {
        Some(v) => v,
        None => {
            proof {
                assert forall|c: TokenClaimsView|
                    wf_claims(c) && #[trigger] seg_at(s@, 0, enc_claims(c)) implies enc_p4(c)
                    != q4 as int by {
                    if enc_p4(c) == q4 as int {
                        lemma_enc_structure(c, s@, 0);
                        assert(seg_at(s@, q4 as int, str_seg(c.sub)));
                        assert(c.sub == sub@);
                        assert(enc_p5(c) == q5 as int);
                        assert(seg_at(s@, q5 as int, str_seg(c.token_uuid)));
                        assert(c.token_uuid == tuid@);
                        assert(enc_p6(c) == q6 as int);
                        assert(seg_at(s@, q6 as int, seq![role_char(c.user_claim.user_type)]));
                    }
                }
            }
            return None;
        },
    };
    proof {
        assert(q6 as int + 1 <= n as int);
    }
    let q7 = q6 + 1;
    let r_uuid = parse_str_field(s, q7);
    let (uuid, q8) = match r_uuid {
        Some(v) => v,
        None => {
            proof {
                assert forall|c: TokenClaimsView|
                    wf_claims(c) && #[trigger] seg_at(s@, 0, enc_claims(c)) implies enc_p4(c)
                    != q4 as int by {
                    if enc_p4(c) == q4 as int {
                        lemma_enc_structure(c, s@, 0);
                        assert(seg_at(s@, q4 as int, str_seg(c.sub)));
                        assert(c.sub == sub@);
                        assert(enc_p5(c) == q5 as int);
                        assert(seg_at(s@, q5 as int, str_seg(c.token_uuid)));
                        assert(c.token_uuid == tuid@);
                        assert(enc_p6(c) == q6 as int);
                        assert(seg_at(s@, q6 as int, seq![role_char(c.user_claim.user_type)]));
                        assert(c.user_claim.user_type == ro);
                        assert(enc_p7(c) == q7 as int);
                        assert(seg_at(s@, q7 as int, str_seg(c.user_claim.user_uuid)));
                    }
                }
            }
            return None;
        },
    };
    proof {
        lemma_seg_split(s@, q4 as int, str_seg(sub@), str_seg(tuid@));
        lemma_seg_split(s@, q4 as int, str_seg(sub@) + str_seg(tuid@), seq![role_char(ro)]);
        lemma_seg_split(
            s@,
            q4 as int,
            str_seg(sub@) + str_seg(tuid@) + seq![role_char(ro)],
            str_seg(uuid@),
        );
        assert(seg_at(s@, q4 as int, mid_seg(sub@, tuid@, ro, uuid@)));
        assert forall|c: TokenClaimsView|
            wf_claims(c) && #[trigger] seg_at(s@, 0, enc_claims(c)) && enc_p4(c) == q4 as int
            implies c.sub == sub@ && c.token_uuid == tuid@ && c.user_claim.user_type == ro
            && c.user_claim.user_uuid == uuid@ && enc_p8(c) == q8 as int by {
            lemma_enc_structure(c, s@, 0);
            assert(seg_at(s@, q4 as int, str_seg(c.sub)));
            assert(c.sub == sub@);
            assert(enc_p5(c) == q5 as int);
            assert(seg_at(s@, q5 as int, str_seg(c.token_uuid)));
            assert(c.token_uuid == tuid@);
            assert(enc_p6(c) == q6 as int);
            assert(seg_at(s@, q6 as int, seq![role_char(c.user_claim.user_type)]));
            assert(c.user_claim.user_type == ro);
            assert(enc_p7(c) == q7 as int);
            assert(seg_at(s@, q7 as int, str_seg(c.user_claim.user_uuid)));
            assert(c.user_claim.user_uuid == uuid@);
        }
    }
    Some((sub, tuid, ro, uuid, q8))
}

/// Read a whole claims record: every field in order, consuming the
/// entire input. Succeeds exactly on the canonical encoding of a
/// well-formed record, and then returns that record.
#[verifier::rlimit(100)]
pub fn parse_claims(s: &Vec<char>) -> (r: Option<TokenClaims>)
    ensures
        r matches Some(c) ==> wf_claims(c@) && s@ == enc_claims(c@),
        r is None ==> forall|c: TokenClaimsView| wf_claims(c) ==> s@ != enc_claims(c),
{
    let n = s.len();
    proof {
        assert forall|c: TokenClaimsView| s@ == enc_claims(c) implies seg_at(s@, 0, enc_claims(c))
            && enc_claims(c).len() == n as int by {
            assert(s@.subrange(0, s@.len() as int) =~= s@);
        }
    }
    let r_head = parse_head(s);
    let (exp, iat, nbf, auth, q4) = match r_head {
        Some(v) => v,
        None => {
            return None;
        },
    };
    let r_mid = parse_mid(s, q4);
    let (sub, token_uuid, role, user_uuid, q8) = match r_mid {
        Some(v) => v,
        None => {
            return None;
        },
    };
    let r_name = parse_str_field(s, q8);
    let (user_name, q9) = match r_name {
        Some(v) => v,
        None => {
            proof {
                assert forall|c: TokenClaimsView| wf_claims(c) implies s@ != enc_claims(c) by {
                    if s@ == enc_claims(c) {
                        lemma_enc_structure(c, s@, 0);
                        assert(enc_p8(c) == q8 as int);
                        assert(seg_at(s@, q8 as int, str_seg(c.user_claim.user_name)));
                    }
                }
            }
            return None;
        },
    };
    let r_groups = parse_list(s, q9);
    let (groups, q10) = match r_groups {
        Some(v) => v,
        None => {
            proof {
                assert forall|c: TokenClaimsView| wf_claims(c) implies s@ != enc_claims(c) by {
                    if s@ == enc_claims(c) {
                        lemma_enc_structure(c, s@, 0);
                        assert(enc_p8(c) == q8 as int);
                        assert(seg_at(s@, q8 as int, str_seg(c.user_claim.user_name)));
                        assert(c.user_claim.user_name == user_name@);
                        assert(enc_p9(c) == q9 as int);
                        assert(seg_at(s@, q9 as int, list_seg(c.user_claim.group_uuid)));
                        assert(bounded_gs(c.user_claim.group_uuid));
                    }
                }
            }
            return None;
        },
    };
    if q10 != n {
        proof {
            assert forall|c: TokenClaimsView| wf_claims(c) implies s@ != enc_claims(c) by {
                if s@ == enc_claims(c) {
                    lemma_enc_structure(c, s@, 0);
                    assert(enc_p8(c) == q8 as int);
                    assert(seg_at(s@, q8 as int, str_seg(c.user_claim.user_name)));
                    assert(c.user_claim.user_name == user_name@);
                    assert(enc_p9(c) == q9 as int);
                    assert(seg_at(s@, q9 as int, list_seg(c.user_claim.group_uuid)));
                    assert(bounded_gs(c.user_claim.group_uuid));
                    assert(c.user_claim.group_uuid == strs_view(groups@));
                    assert(q9 + list_seg(c.user_claim.group_uuid).len() == q10 as int);
                    assert(enc_claims(c).len() == q10 as int);
                }
            }
        }
        return None;
    }
    let out = TokenClaims {
        sub,
        token_uuid,
        user_claim: Claims { user_type: role, user_uuid, user_name, group_uuid: groups },
        exp,
        iat,
        nbf,
        auth_type: auth,
    };
    proof {
        let ha = head_seg(exp as nat, iat as nat, nbf as nat, auth);
        let s5 = str_seg(sub@);
        let s6 = str_seg(token_uuid@);
        let r7 = seq![role_char(role)];
        let s8 = str_seg(user_uuid@);
        let s9 = str_seg(user_name@);
        let lt = list_seg(strs_view(groups@));
        lemma_seg_split(s@, q4 as int, s5, s6);
        lemma_seg_split(s@, q4 as int, s5 + s6, r7);
        lemma_seg_split(s@, q4 as int, s5 + s6 + r7, s8);
        lemma_seg_split(s@, 0, ha, s5);
        lemma_seg_split(s@, 0, ha + s5, s6);
        lemma_seg_split(s@, 0, ha + s5 + s6, r7);
        lemma_seg_split(s@, 0, ha + s5 + s6 + r7, s8);
        lemma_seg_split(s@, 0, ha + s5 + s6 + r7 + s8, s9);
        lemma_seg_split(s@, 0, ha + s5 + s6 + r7 + s8 + s9, lt);
        assert(seg_at(s@, 0, ha + s5 + s6 + r7 + s8 + s9 + lt));
        assert(out@.user_claim.group_uuid =~= strs_view(groups@));
        assert(out@.exp as nat == exp as nat);
        assert(out@.iat as nat == iat as nat);
        assert(out@.nbf as nat == nbf as nat);
        assert(enc_claims(out@) == ha + s5 + s6 + r7 + s8 + s9 + lt);
        assert(s@ =~= enc_claims(out@));
    }
    Some(out)
}



/// Two string segments at one position are the same segment.
pub proof fn lemma_str_seg_at_unique(s: Seq<char>, pos: int, u1: Seq<char>, u2: Seq<char>)
    requires
        seg_at(s, pos, str_seg(u1)),
        seg_at(s, pos, str_seg(u2)),
    ensures
        u1 == u2,
{
    lemma_seg_split(s, pos, num_seg(u1.len(), ':'), u1);
    lemma_seg_split(s, pos, num_seg(u2.len(), ':'), u2);
    lemma_num_seg_at(s, pos, u1.len(), ':');
    lemma_num_seg_at(s, pos, u2.len(), ':');
    lemma_dec_at_unique(s, pos, u1.len(), u2.len());
    assert(u1 =~= u2) by {
        assert(u1 == s.subrange(pos + num_seg(u1.len(), ':').len(), pos + str_seg(u1).len()));
        assert(u2 == s.subrange(pos + num_seg(u2.len(), ':').len(), pos + str_seg(u2).len()));
    }
}

/// Two equally long lists of string segments at one position are equal.
pub proof fn lemma_strs_cat_at_unique(s: Seq<char>, pos: int, g1: Seq<Seq<char>>, g2: Seq<Seq<char>>)
    requires
        g1.len() == g2.len(),
        seg_at(s, pos, strs_cat(g1)),
        seg_at(s, pos, strs_cat(g2)),
    ensures
        g1 == g2,
    decreases g1.len(),
{
    if g1.len() == 0 {
        assert(g1 =~= g2);
    } else {
        assert(strs_cat(g1) == str_seg(g1[0]) + strs_cat(g1.drop_first()));
        assert(strs_cat(g2) == str_seg(g2[0]) + strs_cat(g2.drop_first()));
        lemma_seg_split(s, pos, str_seg(g1[0]), strs_cat(g1.drop_first()));
        lemma_seg_split(s, pos, str_seg(g2[0]), strs_cat(g2.drop_first()));
        lemma_str_seg_at_unique(s, pos, g1[0], g2[0]);
        lemma_strs_cat_at_unique(
            s,
            pos + str_seg(g1[0]).len(),
            g1.drop_first(),
            g2.drop_first(),
        );
        assert forall|i: int| 0 <= i < g1.len() implies g1[i] == g2[i] by {
            if i > 0 {
                assert(g1.drop_first()[i - 1] == g1[i]);
                assert(g2.drop_first()[i - 1] == g2[i]);
            }
        }
        assert(g1 =~= g2);
    }
}

/// Two list segments at one position are the same list.
pub proof fn lemma_list_seg_at_unique(s: Seq<char>, pos: int, g1: Seq<Seq<char>>, g2: Seq<Seq<char>>)
    requires
        seg_at(s, pos, list_seg(g1)),
        seg_at(s, pos, list_seg(g2)),
    ensures
        g1 == g2,
{
    lemma_seg_split(s, pos, num_seg(g1.len(), ';'), strs_cat(g1));
    lemma_seg_split(s, pos, num_seg(g2.len(), ';'), strs_cat(g2));
    lemma_num_seg_at(s, pos, g1.len(), ';');
    lemma_num_seg_at(s, pos, g2.len(), ';');
    lemma_dec_at_unique(s, pos, g1.len(), g2.len());
    lemma_strs_cat_at_unique(s, pos + num_seg(g1.len(), ';').len(), g1, g2);
}

/// The canonical encoding is injective: two well-formed records with
/// the same wire form are the same record.
#[verifier::rlimit(100)]
pub proof fn lemma_enc_injective(s: Seq<char>, pos: int, c1: TokenClaimsView, c2: TokenClaimsView)
    requires
        0 <= pos,
        wf_claims(c1),
        wf_claims(c2),
        seg_at(s, pos, enc_claims(c1)),
        seg_at(s, pos, enc_claims(c2)),
    ensures
        c1 == c2,
{
    lemma_enc_structure(c1, s, pos);
    lemma_enc_structure(c2, s, pos);
    lemma_num_seg_at(s, pos, c1.exp as nat, ';');
    lemma_num_seg_at(s, pos, c2.exp as nat, ';');
    lemma_dec_at_unique(s, pos, c1.exp as nat, c2.exp as nat);
    assert(c1.exp == c2.exp);
    assert(enc_p1(c1) == enc_p1(c2));
    lemma_num_seg_at(s, pos + enc_p1(c1), c1.iat as nat, ';');
    lemma_num_seg_at(s, pos + enc_p1(c1), c2.iat as nat, ';');
    lemma_dec_at_unique(s, pos + enc_p1(c1), c1.iat as nat, c2.iat as nat);
    assert(c1.iat == c2.iat);
    assert(enc_p2(c1) == enc_p2(c2));
    lemma_num_seg_at(s, pos + enc_p2(c1), c1.nbf as nat, ';');
    lemma_num_seg_at(s, pos + enc_p2(c1), c2.nbf as nat, ';');
    lemma_dec_at_unique(s, pos + enc_p2(c1), c1.nbf as nat, c2.nbf as nat);
    assert(c1.nbf == c2.nbf);
    assert(enc_p3(c1) == enc_p3(c2));
    assert(s.subrange(pos + enc_p3(c1), pos + enc_p3(c1) + 1)[0] == auth_char(c1.auth_type));
    assert(s.subrange(pos + enc_p3(c2), pos + enc_p3(c2) + 1)[0] == auth_char(c2.auth_type));
    assert(c1.auth_type == c2.auth_type);
    assert(enc_p4(c1) == enc_p4(c2));
    lemma_str_seg_at_unique(s, pos + enc_p4(c1), c1.sub, c2.sub);
    assert(enc_p5(c1) == enc_p5(c2));
    lemma_str_seg_at_unique(s, pos + enc_p5(c1), c1.token_uuid, c2.token_uuid);
    assert(enc_p6(c1) == enc_p6(c2));
    assert(s.subrange(pos + enc_p6(c1), pos + enc_p6(c1) + 1)[0] == role_char(
        c1.user_claim.user_type,
    ));
    assert(s.subrange(pos + enc_p6(c2), pos + enc_p6(c2) + 1)[0] == role_char(
        c2.user_claim.user_type,
    ));
    assert(c1.user_claim.user_type == c2.user_claim.user_type);
    assert(enc_p7(c1) == enc_p7(c2));
    lemma_str_seg_at_unique(s, pos + enc_p7(c1), c1.user_claim.user_uuid, c2.user_claim.user_uuid);
    assert(enc_p8(c1) == enc_p8(c2));
    lemma_str_seg_at_unique(s, pos + enc_p8(c1), c1.user_claim.user_name, c2.user_claim.user_name);
    assert(enc_p9(c1) == enc_p9(c2));
    lemma_list_seg_at_unique(
        s,
        pos + enc_p9(c1),
        c1.user_claim.group_uuid,
        c2.user_claim.group_uuid,
    );
    assert(c1.user_claim =~= c2.user_claim);
    assert(c1 =~= c2);
}

} // verus!
