//! `POST /api/auth/login`: checks the front end's access password.
//! Success is 200 `{ok:true}`, failure 401 `{error:"invalid password"}`.
use vstd::prelude::*;
use vstd::string::StringSliceAdditionalSpecFns;
use vstd::utf8::encode_utf8_decode_utf8;
use subtle::ConstantTimeEq;

verus! {

/// Body: `{password}`.
#[derive(Debug, Clone)]
pub struct LoginRequest {
    pub password: String,
}

/// `subtle::ConstantTimeEq::ct_eq` on byte slices, turned into a `bool`:
/// equal lengths and equal bytes, compared in time independent of the
/// contents.
#[verifier::external_body]
fn ct_eq_bytes(a: &[u8], b: &[u8]) -> (r: bool)
    ensures
        r == (a@ == b@),
{
    bool::from(a.ct_eq(b))
}

/// Whether the password sent equals the configured one (compared in
/// constant time).
pub fn handle_login(frontend_password: &str, req: &LoginRequest) -> (ok: bool)
    ensures
        ok == (req.password@ == frontend_password@),
{
    let provided = req.password.as_str().as_bytes();
    let expected = frontend_password.as_bytes();
    let ok = ct_eq_bytes(provided, expected);
    proof {
        encode_utf8_decode_utf8(req.password@);
        encode_utf8_decode_utf8(frontend_password@);
    }
    ok
}

} // verus!
