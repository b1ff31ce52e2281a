//! The guard in front of every handler: no request passes without a bearer
//! token that was verified.

use vstd::prelude::*;
use vstd::string::*;

verus! {

/// The status of every refusal at the guard.
pub const UNAUTHORIZED: u16 = 401;

/// What a token says beyond the standard claims.
#[derive(Debug, Clone)]
pub struct CshClaims {
    pub groups: Vec<String>,
    pub uuid: u128,
}

/// The identity that a verified token stands for.
#[derive(Debug, Clone)]
pub struct AuthenticatedUser {
    pub preferred_username: Option<String>,
    pub claims: CshClaims,
}

/// The settings of the guard.
#[derive(Debug, Clone)]
pub struct CSHAuth {
    pub client_id: String,
}

/// What the verifier found of a token.
#[derive(Debug, Clone)]
pub enum TokenCheck {
    /// The text is no identity token.
    Unparseable(String),
    /// Signature, issuer or audience did not hold.
    Rejected(String),
    Verified(AuthenticatedUser),
}

/// What the guard does with a request once it has seen the header.
#[derive(Debug, Clone, Copy)]
pub enum GateStep<'a> {
    /// Answer 401 with an empty body; the handler is not called.
    Refuse,
    /// Have this token verified.
    Verify(&'a str),
}

/// What the guard does with a request once the token was looked at.
#[derive(Debug, Clone)]
pub enum GateVerdict {
    /// Answer 401 with an empty body; the handler is not called.
    Refuse,
    /// Attach the identity, call the handler, hand its response on.
    Admit(AuthenticatedUser),
}

/// The token of an `Authorization` header of the form `Bearer <token>`.
pub open spec fn bearer_of(header: Seq<char>) -> Option<Seq<char>> {
    if "Bearer "@.is_prefix_of(header) {
        Some(header.skip("Bearer "@.len() as int))
    } else {
        None
    }
}

/// The audience that is accepted beside the guard's own client id.
pub open spec fn shared_audience() -> Seq<char> {
    "account"@
}

impl CSHAuth {
    pub fn new(client_id: String) -> (gate: CSHAuth)
        ensures
            gate.client_id == client_id,
    {
        CSHAuth { client_id }
    }

    /// Whether an audience other than the client id may stand in a token.
    pub fn trusts_audience(audience: &str) -> (b: bool)
        ensures
            b == (audience@ == shared_audience()),
    {
        audience.to_owned() == "account".to_owned()
    }
}

/// Takes the token out of an `Authorization` header.
pub fn bearer_token<'a>(header: &'a str) -> (t: Option<&'a str>)
    ensures
        match t {
            Some(token) => bearer_of(header@) == Some(token@) && header@ == "Bearer "@ + token@,
            None => bearer_of(header@) is None,
        },
{
    let prefix = "Bearer ";
    let n: usize = header.unicode_len();
    let m: usize = prefix.unicode_len();
    if n < m {
        return None;
    }
    let head = header.substring_char(0, m);
    if head.to_owned() == prefix.to_owned() {
        let token = header.substring_char(m, n);
        proof {
            assert(header@.subrange(m as int, n as int) =~= header@.skip(m as int));
            assert(header@ =~= prefix@ + token@);
        }
        Some(token)
    } else {
        None
    }
}

/// The first decision at the guard. A request without the header, or with a
/// header of another form, is refused; else its token is to be verified.
pub fn open_gate<'a>(header: Option<&'a str>) -> (step: GateStep<'a>)
    ensures
        match step {
            GateStep::Refuse => header is None || bearer_of(header->0@) is None,
            GateStep::Verify(token) => header is Some && bearer_of(header->0@) == Some(token@),
        },
{
    match header {
        None => GateStep::Refuse,
        Some(text) => match bearer_token(text) {
            None => GateStep::Refuse,
            Some(token) => GateStep::Verify(token),
        },
    }
}

/// The second decision at the guard: only a verified token admits, and it
/// admits as the identity that the verifier found.
pub fn close_gate(check: TokenCheck) -> (verdict: GateVerdict)
    ensures
        match check {
            TokenCheck::Verified(user) => verdict == GateVerdict::Admit(user),
            _ => verdict == GateVerdict::Refuse,
        },
{
    match check {
        TokenCheck::Verified(user) => GateVerdict::Admit(user),
        _ => GateVerdict::Refuse,
    }
}

impl AuthenticatedUser {
    /// The identity that the guard attached to a request, for a handler that
    /// asks for it; status 401 where there is none.
    pub fn from_request(attached: Option<AuthenticatedUser>) -> (r: Result<AuthenticatedUser, u16>)
        ensures
            match attached {
                Some(user) => r == Ok::<AuthenticatedUser, u16>(user),
                None => r == Err::<AuthenticatedUser, u16>(UNAUTHORIZED),
            },
    {
        match attached {
            Some(user) => Ok(user),
            None => Err(UNAUTHORIZED),
        }
    }
}

} // verus!
