//! Process-wide configuration, read once at startup and immutable
//! afterwards.  The service core receives it by reference; no global
//! state exists inside the library.

use vstd::prelude::*;

verus! {

/// Everything the service needs from its environment: listen port,
/// mail relay credentials, the token signing secret, and the two
/// downstream endpoints.
#[derive(Debug)]
pub struct Config {
    pub port: u16,
    pub smtp_host: Vec<u8>,
    pub smtp_username: Vec<u8>,
    pub smtp_password: Vec<u8>,
    pub email_from: Vec<u8>,
    pub jwt_secret: Vec<u8>,
    pub scan_webhook_url: Vec<u8>,
    pub argo_workflow_host: Vec<u8>,
    pub argo_workflow_token: Vec<u8>,
}

} // verus!
