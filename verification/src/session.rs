//! Who may open a connection: the access token in the cookie header, its signature
//! and expiry, and what its claims allow.
//!
//! The token's `sub` claim holds the person's claims as JSON; they are read outside the
//! library and handed here as a `TokenData`.
use vstd::prelude::*;

use crate::cookie::{access_token, marker, second_piece};
use crate::queue::MAX_TABLE;

verus! {

/// How many times `c` occurs in `s`.
pub open spec fn count_char(s: Seq<char>, c: char) -> nat
    decreases s.len(),
{
    if s.len() == 0 {
        0
    } else {
        count_char(s.drop_last(), c) + if s.last() == c {
            1nat
        } else {
            0nat
        }
    }
}

/// The claims of a token that decide whether it opens a session: its subject, where
/// that is a string, and its expiry, where that is a whole number.
pub struct TokenClaims {
    pub sub: Option<String>,
    pub exp: Option<u64>,
}

/// The view of `TokenClaims`.
pub struct ClaimsView {
    pub sub: Option<Seq<char>>,
    pub exp: Option<u64>,
}

impl View for TokenClaims {
    type V = ClaimsView;

    open spec fn view(&self) -> ClaimsView {
        ClaimsView {
            sub: match &self.sub {
                Some(s) => Some(s@),
                None => None,
            },
            exp: self.exp,
        }
    }
}

/// The claims that `token` carries, where it is a JSON Web Token that
/// `jsonwebtoken::decode` accepts with the HMAC secret `secret` and the default
/// validation, leaving aside the one check that reads the clock (that its `exp` is not
/// past): an HS256 signature that checks with `secret`, a payload of JSON claims with an
/// `exp` that is a number, and no `aud` claim. None where it is not such a token.
pub uninterp spec fn signed_claims(token: Seq<char>, secret: Seq<char>) -> Option<ClaimsView>;

/// Checks the JSON Web Token `token` with `jsonwebtoken::decode`, keyed by the HMAC
/// secret `secret` and with the default validation (HS256 signature, an `exp` claim that
/// has not passed), and hands back its `sub` claim where that is a string and its `exp`
/// claim where that is a whole number of at most 64 bits.
/// Claimed of it: what it hands back are the claims of the token as its signature under
/// `secret` vouches for them (`signed_claims`); `decode` splits the token at its last
/// two dots and refuses a token with fewer, or whose first part still holds a dot (not
/// a base64url character), so a token without exactly two dots gives none; and the
/// expiry check refuses a token only where `exp` is below the current time less a
/// minute's leeway, which an `exp` of `u64::MAX` never is, so such a token that
/// `signed_claims` accepts passes whatever the clock says (with the clock past 1970 and
/// a minute, as `decode` needs). Whether any other token passes rests on the clock, and
/// is left unsaid.
#[verifier::external_body]
fn decode_claims(token: &str, secret: &str) -> (claims: Option<TokenClaims>)
    ensures
        count_char(token@, '.') != 2 ==> claims is None,
        claims matches Some(c) ==> signed_claims(token@, secret@) == Some(c@),
        (signed_claims(token@, secret@) matches Some(c) && c.exp == Some(u64::MAX)) ==> claims is Some,
{
    let key = jsonwebtoken::DecodingKey::from_secret(secret.as_bytes());
    let validation = jsonwebtoken::Validation::default();
    match jsonwebtoken::decode::<serde_json::Value>(token, &key, &validation) {
        Ok(data) => Some(TokenClaims {
            sub: match data.claims.get("sub") {
                Some(serde_json::Value::String(sub)) => Some(sub.clone()),
                _ => None,
            },
            exp: match data.claims.get("exp") {
                Some(serde_json::Value::Number(exp)) => exp.as_u64(),
                _ => None,
            },
        }),
        Err(_) => None,
    }
}

/// The text of an optional string.
pub open spec fn text_of(s: Option<String>) -> Option<Seq<char>> {
    match s {
        Some(t) => Some(t@),
        None => None,
    }
}

/// The subject that checked claims grant: their `sub`, where it is a string and their
/// `exp` is a whole number that fits in a `usize`, as the claims type of the server
/// demands; none otherwise.
pub open spec fn granted(c: ClaimsView) -> Option<Seq<char>> {
    match c.exp {
        Some(e) => if e <= usize::MAX {
            c.sub
        } else {
            None
        },
        None => None,
    }
}

/// The subject that the claims of a checked token grant, or none without a checked
/// token.
pub fn claims_subject(claims: Option<TokenClaims>) -> (sub: Option<String>)
    ensures
        sub is None <==> (claims is None || granted(claims->0@) is None),
        sub matches Some(s) ==> (claims matches Some(c) && granted(c@) == Some(s@)),
{
    match claims {
        None => None,
        Some(c) => match c.exp {
            Some(e) => {
                if e <= usize::MAX as u64 {
                    c.sub
                } else {
                    None
                }
            },
            None => None,
        },
    }
}

/// The subject of the access token in a cookie header, checked with the HMAC secret
/// `secret`: none without a header, without a token in it, or where the token does not
/// check. A subject comes only from a token in the header whose signature checks with
/// `secret`, and is the one that its claims grant; and where the token cannot expire, the
/// subject is the one its claims grant, whatever else the header holds.
pub fn cookie_subject(cookie: Option<&str>, secret: &str) -> (sub: Option<String>)
    ensures
        cookie is None ==> sub is None,
        cookie matches Some(c) && second_piece(c@, marker()) is None ==> sub is None,
        cookie matches Some(c) && (second_piece(c@, marker()) matches Some(t) && count_char(
            t,
            '.',
        ) != 2) ==> sub is None,
        sub matches Some(s) ==> (cookie matches Some(c) && second_piece(c@, marker()) matches Some(
            t,
        ) && signed_claims(t, secret@) matches Some(cl) && granted(cl) == Some(s@)),
        cookie matches Some(c) ==> (second_piece(c@, marker()) matches Some(t) ==> (signed_claims(
            t,
            secret@,
        ) matches Some(cl) ==> (cl.exp == Some(u64::MAX) ==> granted(cl) == text_of(sub)))),
{
    match cookie {
        None => None,
        Some(c) => match access_token(c) {
            None => None,
            Some(token) => claims_subject(decode_claims(token.as_str(), secret)),
        },
    }
}

/// What an access token says about the person who holds it.
#[derive(Debug, PartialEq, Eq)]
pub struct TokenData {
    pub ta: bool,
    pub table_number: u8,
    pub name: String,
    pub task: String,
    pub helped_by: String,
}

/// Whether a student with these claims sits at a table of the room.
pub open spec fn student_table_ok(t: TokenData) -> bool {
    1 <= t.table_number <= MAX_TABLE
}

/// The student session that a decoded token opens: the token's claims where its table
/// number is one of the room's tables, 1 to 30; none otherwise, and none without a token.
pub fn admit_student(claims: Option<TokenData>) -> (r: Option<TokenData>)
    ensures
        r == (if claims matches Some(t) && student_table_ok(t) {
            claims
        } else {
            None
        }),
{
    match claims {
        Some(t) => {
            if 1 <= t.table_number && t.table_number <= MAX_TABLE {
                Some(t)
            } else {
                None
            }
        },
        None => None,
    }
}

/// The teaching-assistant session that a decoded token opens: the token's claims where
/// they name a teaching assistant; none otherwise, and none without a token.
pub fn admit_ta(claims: Option<TokenData>) -> (r: Option<TokenData>)
    ensures
        r == (if claims matches Some(t) && t.ta {
            claims
        } else {
            None
        }),
{
    match claims {
        Some(t) => {
            if t.ta {
                Some(t)
            } else {
                None
            }
        },
        None => None,
    }
}

} // verus!
