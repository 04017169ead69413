//! The request payload carried inside a confirmation token, with its
//! mathematical mirror used in contracts.

use vstd::prelude::*;

verus! {

/// Target configuration for a port-scan step: an opaque URI.
#[derive(Debug)]
pub struct RustscanConfig {
    pub uri: Vec<u8>,
}

/// Target configuration for a web-scan step: an opaque URI.
#[derive(Debug)]
pub struct ZapConfig {
    pub uri: Vec<u8>,
}

/// Short identity assigned to a scan job, drawn from `[a-z0-9]`.
#[derive(Debug)]
pub struct ScanID(pub Vec<u8>);

/// A scan request as submitted by a client: an email address and at
/// least conceptually optional target sub-configurations.
#[derive(Debug)]
pub struct ScanRequest {
    pub email: Vec<u8>,
    pub rustscan: Option<RustscanConfig>,
    pub zap: Option<ZapConfig>,
}

/// A scan request together with its assigned job identity.
#[derive(Debug)]
pub struct ScanRequestWithID {
    pub id: ScanID,
    pub req: ScanRequest,
}

/// Claims envelope of a confirmation token: the payload plus an absolute
/// expiry instant in epoch seconds.
#[derive(Debug)]
pub struct JWTClaims {
    pub data: ScanRequestWithID,
    pub exp: u64,
}

/// Mathematical mirror of `ScanRequest`.
#[verifier::ext_equal]
pub ghost struct SpecScanRequest {
    pub email: Seq<u8>,
    pub rustscan: Option<Seq<u8>>,
    pub zap: Option<Seq<u8>>,
}

/// Mathematical mirror of `ScanRequestWithID`.
#[verifier::ext_equal]
pub ghost struct SpecScanData {
    pub id: Seq<u8>,
    pub req: SpecScanRequest,
}

/// Mathematical mirror of `JWTClaims`.
#[verifier::ext_equal]
pub ghost struct SpecClaims {
    pub data: SpecScanData,
    pub exp: u64,
}

impl View for RustscanConfig {
    type V = Seq<u8>;

    open spec fn view(&self) -> Seq<u8> {
        self.uri@
    }
}

impl View for ZapConfig {
    type V = Seq<u8>;

    open spec fn view(&self) -> Seq<u8> {
        self.uri@
    }
}

impl View for ScanRequest {
    type V = SpecScanRequest;

    open spec fn view(&self) -> SpecScanRequest {
        SpecScanRequest {
            email: self.email@,
            rustscan: match self.rustscan {
                Some(c) => Some(c.uri@),
                None => None,
            },
            zap: match self.zap {
                Some(c) => Some(c.uri@),
                None => None,
            },
        }
    }
}

impl View for ScanRequestWithID {
    type V = SpecScanData;

    open spec fn view(&self) -> SpecScanData {
        SpecScanData { id: self.id.0@, req: self.req@ }
    }
}

impl View for JWTClaims {
    type V = SpecClaims;

    open spec fn view(&self) -> SpecClaims {
        SpecClaims { data: self.data@, exp: self.exp }
    }
}

} // verus!
