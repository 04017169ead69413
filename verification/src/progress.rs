//! The progress relay: builds the authenticated status query for a job
//! and passes the orchestrator's answer through unchanged.  The HTTP
//! exchange itself is the caller's I/O.

use vstd::prelude::*;

use crate::bytes::{ascii_of, extend, lit_bytes, subvec};
use crate::config::Config;
use crate::errors::{AppError, ErrorKind};

verus! {

/// The status endpoint for a job identity under an orchestrator host.
pub open spec fn spec_progress_url(host: Seq<u8>, id: Seq<u8>) -> Seq<u8> {
    ascii_of("https://"@) + host + ascii_of("/api/v1/workflows/argo/scan-"@) + id
}

/// An authenticated GET for a job's status document.
pub struct ProgressRequest {
    pub url: Vec<u8>,
    pub bearer: Vec<u8>,
}

/// Builds the status query for a job identity: the orchestrator URL
/// for that job and the configured bearer credential.
pub fn progress_request(id: &Vec<u8>, config: &Config) -> (r: ProgressRequest)
    ensures
        r.url@ == spec_progress_url(config.argo_workflow_host@, id@),
        r.bearer@ == config.argo_workflow_token@,
{
    proof {
        reveal_strlit("https://");
        reveal_strlit("/api/v1/workflows/argo/scan-");
    }
    let mut url = lit_bytes("https://");
    extend(&mut url, &config.argo_workflow_host);
    let mid = lit_bytes("/api/v1/workflows/argo/scan-");
    extend(&mut url, &mid);
    extend(&mut url, id);
    let bearer = subvec(&config.argo_workflow_token, 0, config.argo_workflow_token.len());
    proof {
        assert(url@ =~= spec_progress_url(config.argo_workflow_host@, id@));
        assert(bearer@ =~= config.argo_workflow_token@);
    }
    ProgressRequest { url, bearer }
}

/// Classifies the orchestrator's answer: a success status passes the
/// body through verbatim, anything else is surfaced as a downstream
/// error, never replaced by an invented document.
pub fn progress_result(status: u16, body: Vec<u8>) -> (res: Result<Vec<u8>, AppError>)
    ensures
        match res {
            Ok(b) => 200 <= status < 300 && b@ == body@,
            Err(e) => !(200 <= status < 300) && e == AppError(ErrorKind::Downstream),
        },
{
    if 200 <= status && status < 300 {
        Ok(body)
    } else {
        Err(AppError(ErrorKind::Downstream))
    }
}

} // verus!
