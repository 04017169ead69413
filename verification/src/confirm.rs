//! The confirmation handler: takes the token from a clicked link,
//! decodes and validates it, and on success prepares the one webhook
//! call that actually starts the workflow.  Issuing the call is the
//! caller's I/O; the decision and the body are verified.

use vstd::prelude::*;

use crate::bytes::subvec;
use crate::codec::{decode_token, spec_decode_token};
use crate::config::Config;
use crate::errors::{AppError, ErrorKind};
use crate::json::{emit_data_bytes, spec_emit_data};

verus! {

/// The downstream trigger call a confirmed request turns into.
pub struct WebhookRequest {
    pub url: Vec<u8>,
    pub body: Vec<u8>,
}

/// Handles a clicked confirmation link: decodes the token under the
/// configured secret at instant `now` and, exactly when the token is
/// genuine and unexpired, returns the webhook call whose body is the
/// serialized embedded request with its identity.  Any bad token is
/// answered with one indistinguishable error.
pub fn confirm(token: &Vec<u8>, now: u64, config: &Config) -> (res: Result<
    WebhookRequest,
    AppError,
>)
    ensures
        match res {
            Ok(w) => {
                &&& spec_decode_token(token@, config.jwt_secret@, now) is Some
                &&& w.body@ == spec_emit_data(
                    spec_decode_token(token@, config.jwt_secret@, now).unwrap().data,
                )
                &&& w.url@ == config.scan_webhook_url@
            },
            Err(e) => {
                &&& spec_decode_token(token@, config.jwt_secret@, now) is None
                &&& e == AppError(ErrorKind::InvalidToken)
            },
        },
{
    let claims = match decode_token(token, &config.jwt_secret, now) {
        Ok(c) => c,
        Err(_) => {
            return Err(AppError(ErrorKind::InvalidToken));
        },
    };
    let body = emit_data_bytes(&claims.data);
    let url = subvec(&config.scan_webhook_url, 0, config.scan_webhook_url.len());
    proof {
        assert(url@ =~= config.scan_webhook_url@);
    }
    Ok(WebhookRequest { url, body })
}

} // verus!
