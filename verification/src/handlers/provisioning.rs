//! `GET /api/config`: the server address and device token, used by the
//! front end to fill in the Web Serial provisioning form.  No
//! authentication: the token must reach the firmware.
use vstd::prelude::*;

verus! {

/// Reply: `{server, token}`.
#[derive(Debug, Clone)]
pub struct ConfigResponse {
    pub server: String,
    pub token: String,
}

/// The listening address (`host:port`) and the configured token.
pub fn handle_get_config(server_addr: &str, token: &str) -> (r: ConfigResponse)
    ensures
        r.server@ == server_addr@,
        r.token@ == token@,
{
    ConfigResponse { server: server_addr.to_string(), token: token.to_string() }
}

} // verus!
