//! Optional API-key authentication: credential extraction and the
//! admission decision for one request.

use vstd::prelude::*;
use vstd::string::*;

use crate::api::Principal;
use crate::digest::{fingerprint, fingerprint_of};
use crate::problem::{problem_new_view, Problem, ProblemCode};
use crate::text::{concat2, to_string_of};

verus! {

/// `subtle::ConstantTimeEq::ct_eq` on byte slices, read out as a `bool`.
/// Trusted: true exactly when both slices have the same length and bytes
/// (the slice impl compares lengths first, then every byte).
#[verifier::external_body]
fn ct_bytes_eq(a: &[u8], b: &[u8]) -> (r: bool)
    ensures
        r == (a@ == b@),
{
    subtle::ConstantTimeEq::ct_eq(a, b).into()
}

/// Whether `s` starts with `prefix`.
pub open spec fn starts_with(s: Seq<char>, prefix: Seq<char>) -> bool {
    prefix.len() <= s.len() && s.subrange(0, prefix.len() as int) == prefix
}

/// The presented credential: the `Authorization` value after a
/// `Bearer ` prefix, else the `x-api-key` value.
pub open spec fn credential_spec(authorization: Option<Seq<char>>, x_api_key: Option<Seq<char>>) -> Option<Seq<char>> {
    match authorization {
        Some(a) if starts_with(a, "Bearer "@) => Some(a.subrange(7, a.len() as int)),
        _ => x_api_key,
    }
}

/// The optional string's characters.
pub open spec fn opt_view(s: Option<&str>) -> Option<Seq<char>> {
    match s {
        Some(x) => Some(x@),
        None => None,
    }
}

/// Extract the presented credential from the `Authorization` and
/// `x-api-key` header values.
pub fn credential_of(authorization: Option<&str>, x_api_key: Option<&str>) -> (r: Option<String>)
    ensures
        match r {
            Some(k) => credential_spec(opt_view(authorization), opt_view(x_api_key)) == Some(k@),
            None => credential_spec(opt_view(authorization), opt_view(x_api_key)) is None,
        },
{
    proof {
        reveal_strlit("Bearer ");
    }
    if let Some(a) = authorization {
        let chars = crate::text::chars_of(a);
        let bearer: Vec<char> = vec!['B', 'e', 'a', 'r', 'e', 'r', ' '];
        assert(bearer@ =~= "Bearer "@);
        if chars.len() >= 7 {
            let mut ok = true;
            let mut i: usize = 0;
            while i < 7
                invariant
                    i <= 7 <= chars@.len(),
                    bearer@.len() == 7,
                    ok == forall|j: int| 0 <= j < i ==> chars@[j] == bearer@[j],
                decreases 7 - i,
            {
                if chars[i] != bearer[i] {
                    ok = false;
                }
                i = i + 1;
            }
            proof {
                if ok {
                    assert(chars@.subrange(0, 7) =~= bearer@);
                } else {
                    let j = choose|j: int| 0 <= j < 7 && chars@[j] != bearer@[j];
                    assert(chars@.subrange(0, 7)[j] != bearer@[j]);
                }
            }
            if ok {
                let mut rest: Vec<char> = Vec::new();
                let mut j: usize = 7;
                while j < chars.len()
                    invariant
                        7 <= j <= chars@.len(),
                        rest@ == chars@.subrange(7, j as int),
                    decreases chars.len() - j,
                {
                    rest.push(chars[j]);
                    j = j + 1;
                    assert(rest@ =~= chars@.subrange(7, j as int));
                }
                return Some(crate::text::string_from_chars(&rest));
            }
        }
    }
    match x_api_key {
        Some(k) => Some(to_string_of(k)),
        None => None,
    }
}

/// Some configured key equals `key` byte for byte.
pub open spec fn key_listed(keys: Seq<String>, key: Seq<char>) -> bool {
    exists|i: int| 0 <= i < keys.len() && (#[trigger] keys[i])@ == key
}

/// Whether `key` is one of `keys` (constant-time comparison per key).
fn key_in(keys: &Vec<String>, key: &str) -> (r: bool)
    ensures
        r == key_listed(keys@, key@),
{
    let kb = key.as_bytes();
    let mut found = false;
    let mut i: usize = 0;
    while i < keys.len()
        invariant
            i <= keys@.len(),
            kb@ == vstd::utf8::encode_utf8(key@),
            found == exists|j: int| 0 <= j < i && (#[trigger] keys@[j])@ == key@,
        decreases keys.len() - i,
    {
        let eq = ct_bytes_eq(keys[i].as_str().as_bytes(), kb);
        proof {
            if eq {
                assert(keys@[i as int]@ == key@) by {
                    vstd::utf8::encode_utf8_decode_utf8(keys@[i as int]@);
                    vstd::utf8::encode_utf8_decode_utf8(key@);
                }
            }
            if keys@[i as int]@ == key@ {
                assert(eq);
            }
        }
        if eq {
            found = true;
        }
        i = i + 1;
    }
    found
}

/// Outcome of authenticating one request.
#[derive(Debug)]
pub enum AuthOutcome {
    /// Admitted as this principal.
    Allow(Principal),
    /// Refused with this problem.
    Reject(Problem),
}

/// The admission decision: with no keys configured every request is
/// principal `local`; otherwise a full-access key admits as
/// `key:<fingerprint>`, a read-only key admits GET/HEAD as
/// `ro:<fingerprint>` (403 otherwise), a missing credential is a 401
/// `missing credentials` and an unknown one a 401 `invalid credentials`.
pub open spec fn auth_spec(
    api_keys: Seq<String>,
    ro_keys: Seq<String>,
    credential: Option<Seq<char>>,
    read_method: bool,
) -> Result<Seq<char>, (u16, Seq<char>, Seq<char>)> {
    if api_keys.len() == 0 && ro_keys.len() == 0 {
        Ok("local"@)
    } else {
        match credential {
            None => Err((401, "Unauthorized"@, "missing credentials"@)),
            Some(k) => if key_listed(api_keys, k) {
                Ok("key:"@ + fingerprint_of(k))
            } else if key_listed(ro_keys, k) {
                if read_method {
                    Ok("ro:"@ + fingerprint_of(k))
                } else {
                    Err((403, "Forbidden"@, "read-only key may only call GET/HEAD"@))
                }
            } else {
                Err((401, "Unauthorized"@, "invalid credentials"@))
            },
        }
    }
}

/// Authenticate one request (`read_method`: GET or HEAD).
pub fn authenticate(
    api_keys: &Vec<String>,
    read_only_keys: &Vec<String>,
    credential: Option<&str>,
    read_method: bool,
) -> (r: AuthOutcome)
    ensures
        match auth_spec(api_keys@, read_only_keys@, opt_view(credential), read_method) {
            Ok(p) => r matches AuthOutcome::Allow(pr) && pr.0@ == p,
            Err((status, title, detail)) => r matches AuthOutcome::Reject(pb) && pb@ == problem_new_view(
                ProblemCode::Unauthorized,
                status,
                title,
            ).with_detail(detail),
        },
{
    if api_keys.len() == 0 && read_only_keys.len() == 0 {
        return AuthOutcome::Allow(Principal(String::from_str("local")));
    }
    let key = match credential {
        None => {
            return AuthOutcome::Reject(
                Problem::new(ProblemCode::Unauthorized, 401, "Unauthorized").detail(String::from_str("missing credentials")),
            );
        },
        Some(k) => k,
    };
    if key_in(api_keys, key) {
        let f = fingerprint(key);
        return AuthOutcome::Allow(Principal(concat2("key:", f.as_str())));
    }
    if key_in(read_only_keys, key) {
        if !read_method {
            return AuthOutcome::Reject(
                Problem::new(ProblemCode::Unauthorized, 403, "Forbidden").detail(
                    String::from_str("read-only key may only call GET/HEAD"),
                ),
            );
        }
        let f = fingerprint(key);
        return AuthOutcome::Allow(Principal(concat2("ro:", f.as_str())));
    }
    AuthOutcome::Reject(
        Problem::new(ProblemCode::Unauthorized, 401, "Unauthorized").detail(String::from_str("invalid credentials")),
    )
}

} // verus!
