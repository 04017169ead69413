//! The confirmation orchestrator: accepts a raw scan request, assigns a
//! job identity, seals both into a one-day confirmation token, and
//! renders the message that carries the confirmation link.  Actually
//! dispatching the message through a mail transport is the caller's
//! I/O; everything decided here is verified.

use vstd::prelude::*;

use crate::bytes::{ascii_of, extend, lit_bytes, subvec};
use crate::codec::{encode_token, spec_encode_token};
use crate::config::Config;
use crate::errors::{AppError, ErrorKind};
use crate::identity::{generate, is_id_byte};
use crate::model::{JWTClaims, ScanID, ScanRequest, ScanRequestWithID, SpecClaims, SpecScanData};

verus! {

/// Whether a byte string is a syntactically valid recipient address in
/// the mail transport's book.  Defined by the parser relied on below.
pub uninterp spec fn is_mailbox(s: Seq<u8>) -> bool;

/// Relies on lettre's `Mailbox` `FromStr` parser: whether the bytes
/// form a valid recipient address (`user@domain` or `Name <user@domain>`),
/// a function of the bytes alone; bytes that are not UTF-8 are no
/// address.  `from_utf8` only converts the argument for the parser.
#[verifier::external_body]
fn mailbox_ok(s: &Vec<u8>) -> (r: bool)
    ensures
        r == is_mailbox(s@),
{
    match core::str::from_utf8(s.as_slice()) {
        Ok(text) => text.parse::<lettre::message::Mailbox>().is_ok(),
        Err(_) => false,
    }
}

/// A rendered confirmation message, ready for a mail transport.
pub struct EmailMessage {
    pub to: Vec<u8>,
    pub subject: Vec<u8>,
    pub body: Vec<u8>,
}

/// What a successful submission hands back: the job identity returned
/// to the caller, the confirmation token, and the rendered message.
pub struct Submission {
    pub id: Vec<u8>,
    pub token: Vec<u8>,
    pub email: EmailMessage,
}

/// The confirmation message body around a token: a short text whose
/// last line is the confirmation link.
pub open spec fn spec_confirmation_body(token: Seq<u8>) -> Seq<u8> {
    ascii_of(
        "Hi,\n\nPlease confirm your scan request by clicking the link below:\n\nhttp://localhost:4000/scans/confirm/"@,
    ) + token + ascii_of("\n"@)
}

/// Renders the confirmation message for a token and recipient.
fn render_confirmation_email(token: &Vec<u8>, to: Vec<u8>) -> (r: EmailMessage)
    ensures
        r.to@ == to@,
        r.subject@ == ascii_of("Confirm Scan Request"@),
        r.body@ == spec_confirmation_body(token@),
{
    proof {
        reveal_strlit("Confirm Scan Request");
    }
    let subject = lit_bytes("Confirm Scan Request");
    proof {
        reveal_strlit(
            "Hi,\n\nPlease confirm your scan request by clicking the link below:\n\nhttp://localhost:4000/scans/confirm/",
        );
        reveal_strlit("\n");
    }
    let mut body = lit_bytes(
        "Hi,\n\nPlease confirm your scan request by clicking the link below:\n\nhttp://localhost:4000/scans/confirm/",
    );
    extend(&mut body, token);
    let tail = lit_bytes("\n");
    extend(&mut body, &tail);
    EmailMessage { to, subject, body }
}

/// Handles a submitted scan request: checks the recipient address,
/// assigns a fresh ten-character identity, seals identity and request
/// into a token expiring one day after `now`, and renders the
/// confirmation message.  Succeeds exactly when the address is valid;
/// a rejected address is the caller's fault and reported as such.
pub fn submit(req: ScanRequest, now: u64, config: &Config) -> (res: Result<Submission, AppError>)
    requires
        now <= u64::MAX - crate::TOKEN_TTL_SECONDS,
    ensures
        match res {
            Ok(s) => {
                &&& is_mailbox(req.email@)
                &&& s.id@.len() == 10
                &&& (forall|i: int| 0 <= i < s.id@.len() ==> is_id_byte(#[trigger] s.id@[i]))
                &&& s.token@ == spec_encode_token(
                    SpecClaims {
                        data: SpecScanData { id: s.id@, req: req@ },
                        exp: (now + crate::TOKEN_TTL_SECONDS) as u64,
                    },
                    config.jwt_secret@,
                )
                &&& s.email.to@ == req.email@
                &&& s.email.subject@ == ascii_of("Confirm Scan Request"@)
                &&& s.email.body@ == spec_confirmation_body(s.token@)
            },
            Err(e) => !is_mailbox(req.email@) && e == AppError(ErrorKind::Validation),
        },
{
    if !mailbox_ok(&req.email) {
        return Err(AppError(ErrorKind::Validation));
    }
    let to = subvec(&req.email, 0, req.email.len());
    let id = generate();
    let id_copy = subvec(&id, 0, id.len());
    let claims = JWTClaims {
        data: ScanRequestWithID { id: ScanID(id_copy), req },
        exp: now + crate::TOKEN_TTL_SECONDS,
    };
    let token = encode_token(&claims, &config.jwt_secret);
    let token_copy = subvec(&token, 0, token.len());
    let email = render_confirmation_email(&token, to);
    proof {
        assert(id_copy@ =~= id@);
        assert(to@ =~= claims.data.req.email@);
        assert(token_copy@ =~= token@);
    }
    Ok(Submission { id, token: token_copy, email })
}

} // verus!
