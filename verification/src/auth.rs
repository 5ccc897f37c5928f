use vstd::prelude::*;
use vstd::string::StringExecFns;
use crate::json::str_to_chars;

verus! {

/// Caller identity recovered from a verified token's subject claim: a
/// 128-bit unique identifier.
#[derive(Clone, Copy, PartialEq, Eq, Structural, Debug)]
pub struct Identity {
    pub id: u128,
}

/// How authentication can fail.
#[derive(Clone, Copy, PartialEq, Eq, Structural, Debug)]
pub enum AuthError {
    /// The shared secret was never provided: the auth subsystem is not ready.
    ConfigurationError,
    /// No bearer token accompanied the request.
    MissingToken,
    /// The token failed verification, or its subject claim is not a
    /// well-formed 128-bit identifier.
    InvalidToken,
}

impl AuthError {
    pub open spec fn message_spec(&self) -> Seq<char> {
        match *self {
            AuthError::ConfigurationError => "JWT secret not set"@,
            AuthError::MissingToken => "auth token required"@,
            AuthError::InvalidToken => "invalid auth token"@,
        }
    }

    /// Human-readable description of the failure.
    pub fn message(&self) -> (r: String)
        ensures
            r@ == self.message_spec(),
    {
        match *self {
            AuthError::ConfigurationError => String::from_str("JWT secret not set"),
            AuthError::MissingToken => String::from_str("auth token required"),
            AuthError::InvalidToken => String::from_str("invalid auth token"),
        }
    }
}

/// The subject claim that token verification recovers from `token` under
/// `secret`, if verification succeeds. Verification is a pure computation
/// over the secret and the token text.
pub uninterp spec fn verify_subject(secret: Seq<u8>, token: Seq<char>) -> Option<Seq<char>>;

/// Relies on cnctd_server::auth::CnctdAuth::verify_auth_token: it checks the
/// token's HMAC-SHA256 signature against the secret and returns the token's
/// subject claim as text; the outcome depends only on the secret bytes and
/// the token text.
#[verifier::external_body]
fn verify_token(secret: &Vec<u8>, token: &str) -> (r: Option<String>)
    ensures
        (r matches Some(s) ==> verify_subject(secret@, token@) == Some(s@)),
        (r is None ==> verify_subject(secret@, token@) is None),
{
    match cnctd_server::auth::CnctdAuth::verify_auth_token(secret.clone(), token) {
        Ok(s) => Some(s),
        Err(_) => None,
    }
}

pub open spec fn is_hex(c: char) -> bool {
    (48 <= c as u32 <= 57) || (97 <= c as u32 <= 102) || (65 <= c as u32 <= 70)
}

pub open spec fn hexv(c: char) -> int {
    if 48 <= c as u32 <= 57 {
        c as u32 - 48
    } else if 97 <= c as u32 <= 102 {
        c as u32 - 87
    } else if 65 <= c as u32 <= 70 {
        c as u32 - 55
    } else {
        0
    }
}

pub open spec fn pow16(k: nat) -> int
    decreases k,
{
    if k == 0 {
        1
    } else {
        16 * pow16((k - 1) as nat)
    }
}

/// The value of a big-endian string of hexadecimal digits.
pub open spec fn hex_val(t: Seq<char>) -> int
    decreases t.len(),
{
    if t.len() == 0 {
        0
    } else {
        hex_val(t.drop_last()) * 16 + hexv(t.last())
    }
}

proof fn lemma_hex_val_bound(t: Seq<char>)
    ensures
        0 <= hex_val(t) < pow16(t.len()),
    decreases t.len(),
{
    if t.len() > 0 {
        lemma_hex_val_bound(t.drop_last());
        assert(hexv(t.last()) <= 15);
    }
}

proof fn lemma_pow16_mono(a: nat, b: nat)
    requires
        a <= b,
    ensures
        pow16(a) <= pow16(b),
    decreases b,
{
    if a < b {
        lemma_pow16_mono(a, (b - 1) as nat);
        lemma_pow16_pos((b - 1) as nat);
    }
}

proof fn lemma_pow16_pos(k: nat)
    ensures
        pow16(k) >= 1,
    decreases k,
{
    if k > 0 {
        lemma_pow16_pos((k - 1) as nat);
    }
}

proof fn lemma_pow16_32()
    ensures
        pow16(32) == 0x100000000000000000000000000000000,
{
    reveal_with_fuel(pow16, 33);
}

/// The 32 hexadecimal digits of a hyphenated identifier, hyphens removed.
pub open spec fn uuid_strip(s: Seq<char>) -> Seq<char> {
    s.subrange(0, 8) + s.subrange(9, 13) + s.subrange(14, 18) + s.subrange(19, 23) + s.subrange(
        24,
        36,
    )
}

pub open spec fn uuid_of_digits(t: Seq<char>) -> Option<int> {
    if t.len() == 32 && (forall|k: int| 0 <= k < 32 ==> is_hex(t[k])) {
        Some(hex_val(t))
    } else {
        None
    }
}

/// The 128-bit value that a subject claim denotes: either 32 hexadecimal
/// digits, or the hyphenated 8-4-4-4-12 form of the same digits.
pub open spec fn uuid_of(s: Seq<char>) -> Option<int> {
    if s.len() == 36 && s[8] == '-' && s[13] == '-' && s[18] == '-' && s[23] == '-' {
        uuid_of_digits(uuid_strip(s))
    } else if s.len() == 32 {
        uuid_of_digits(s)
    } else {
        None
    }
}

fn take_sub(cs: &Vec<char>, a: usize, b: usize) -> (v: Vec<char>)
    requires
        a <= b <= cs@.len(),
    ensures
        v@ == cs@.subrange(a as int, b as int),
{
    let mut v: Vec<char> = Vec::new();
    let mut i: usize = a;
    while i < b
        invariant
            a <= i <= b <= cs@.len(),
            v@ == cs@.subrange(a as int, i as int),
        decreases b - i,
    {
        v.push(cs[i]);
        proof {
            assert(v@ =~= cs@.subrange(a as int, i + 1 as int));
        }
        i += 1;
    }
    v
}

/// Parses a subject claim into a 128-bit identifier.
pub fn parse_uuid(s: &str) -> (r: Option<u128>)
    ensures
        (r matches Some(u) ==> uuid_of(s@) == Some(u as int)),
        (r is None ==> uuid_of(s@) is None),
{
    let cs = str_to_chars(s);
    let digits: Vec<char>;
    if cs.len() == 36 {
        if !(cs[8] == '-' && cs[13] == '-' && cs[18] == '-' && cs[23] == '-') {
            return None;
        }
        let mut d = take_sub(&cs, 0, 8);
        let mut t1 = take_sub(&cs, 9, 13);
        d.append(&mut t1);
        let mut t2 = take_sub(&cs, 14, 18);
        d.append(&mut t2);
        let mut t3 = take_sub(&cs, 19, 23);
        d.append(&mut t3);
        let mut t4 = take_sub(&cs, 24, 36);
        d.append(&mut t4);
        proof {
            assert(d@ =~= uuid_strip(cs@));
        }
        digits = d;
    } else if cs.len() == 32 {
        digits = cs;
    } else {
        return None;
    }
    proof {
        assert(uuid_of(s@) == uuid_of_digits(digits@));
    }
    let mut acc: u128 = 0;
    let mut k: usize = 0;
    while k < 32
        invariant
            digits@.len() == 32,
            0 <= k <= 32,
            uuid_of(s@) == uuid_of_digits(digits@),
            forall|j: int| 0 <= j < k ==> is_hex(digits@[j]),
            acc == hex_val(digits@.subrange(0, k as int)),
            acc < pow16(k as nat),
        decreases 32 - k,
    {
        let c = digits[k];
        let u = c as u32;
        let d: u32;
        if 48 <= u && u <= 57 {
            d = u - 48;
        } else if 97 <= u && u <= 102 {
            d = u - 87;
        } else if 65 <= u && u <= 70 {
            d = u - 55;
        } else {
            proof {
                assert(!is_hex(digits@[k as int]));
                assert(uuid_of_digits(digits@) is None);
            }
            return None;
        }
        proof {
            lemma_pow16_mono((k + 1) as nat, 32);
            lemma_pow16_32();
            assert(pow16((k + 1) as nat) == 16 * pow16(k as nat));
            assert(acc * 16 + d <= (pow16(k as nat) - 1) * 16 + 15);
            let pre = digits@.subrange(0, (k + 1) as int);
            assert(pre.drop_last() =~= digits@.subrange(0, k as int));
            assert(pre.last() == digits@[k as int]);
            assert(hexv(digits@[k as int]) == d);
        }
        acc = acc * 16 + (d as u128);
        k += 1;
    }
    proof {
        assert(digits@.subrange(0, 32) =~= digits@);
        assert(uuid_of_digits(digits@) == Some(hex_val(digits@)));
    }
    Some(acc)
}

/// Authentication outcome, as a function of the shared secret, the token,
/// the subject that verification recovers, and the identifier that the
/// subject denotes.
pub open spec fn auth_spec(secret: Option<Seq<u8>>, token: Option<Seq<char>>) -> Result<
    int,
    AuthError,
> {
    match secret {
        None => Err(AuthError::ConfigurationError),
        Some(sec) => match token {
            None => Err(AuthError::MissingToken),
            Some(t) => match verify_subject(sec, t) {
                None => Err(AuthError::InvalidToken),
                Some(sub) => match uuid_of(sub) {
                    None => Err(AuthError::InvalidToken),
                    Some(u) => Ok(u),
                },
            },
        },
    }
}

pub open spec fn opt_bytes_view(s: Option<Vec<u8>>) -> Option<Seq<u8>> {
    match s {
        Some(x) => Some(x@),
        None => None,
    }
}

/// Validates an optional bearer token against the shared secret and recovers
/// the caller's identity from the verified token's subject claim.
pub fn authenticate(secret: &Option<Vec<u8>>, token: &Option<String>) -> (r: Result<
    Identity,
    AuthError,
>)
    ensures
        ({
            let a = auth_spec(opt_bytes_view(*secret), crate::response::opt_str_view(*token));
            match r {
                Ok(id) => a == Ok::<int, AuthError>(id.id as int),
                Err(e) => a == Err::<int, AuthError>(e),
            }
        }),
{
    match secret {
        None => Err(AuthError::ConfigurationError),
        Some(sec) => match token {
            None => Err(AuthError::MissingToken),
            Some(t) => match verify_token(sec, t.as_str()) {
                None => Err(AuthError::InvalidToken),
                Some(sub) => match parse_uuid(sub.as_str()) {
                    None => Err(AuthError::InvalidToken),
                    Some(u) => Ok(Identity { id: u }),
                },
            },
        },
    }
}

} // verus!
