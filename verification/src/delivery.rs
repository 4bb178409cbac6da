//! The delivery step: a completed message is checked for MIME
//! well-formedness, assembled into an [`Email`], handed to the operator's
//! handler, and the handler's verdict is turned into the reply the client
//! sees.

use vstd::prelude::*;

use crate::connection::{ClientError, ClientErrorModel};
use crate::flow::{Flow, FlowModel};
use crate::text::{sanitize_line, spec_sanitize};

verus! {

/// What `mailparse::parse_mail` decides about a byte sequence: nothing
/// when the bytes form a parseable MIME message, otherwise the
/// diagnostic text. The outcome depends on the bytes alone.
pub uninterp spec fn mime_parse_outcome(body: Seq<u8>) -> Option<Seq<char>>;

/// Relies on mailparse::parse_mail: it accepts or rejects a byte
/// sequence as a MIME message depending on the bytes alone.
#[verifier::external_body]
fn check_mime(body: &Vec<u8>) -> (r: Result<(), String>)
    ensures
        r is Ok <==> mime_parse_outcome(body@) is None,
        r matches Err(m) ==> mime_parse_outcome(body@) == Some(m@),
{
    match mailparse::parse_mail(body.as_slice()) {
        Ok(_) => Ok(()),
        Err(e) => Err(format!("{:?}", e)),
    }
}

/// A completed message on its way to the handler. The MIME tree stays
/// opaque to the library; the handler may reparse the raw bytes.
pub struct Email {
    pub peer_addr: String,
    pub used_ssl: bool,
    pub sender: String,
    pub recipient: String,
    pub raw_body: Vec<u8>,
}

impl Email {
    /// Assemble a message, provided its raw bytes form a parseable MIME
    /// message; otherwise report the parse failure, which the session
    /// survives.
    pub fn parse(
        peer_addr: String,
        used_ssl: bool,
        sender: String,
        recipient: String,
        body: Vec<u8>,
    ) -> (r: Result<Email, ClientError>)
        ensures
            match r {
                Ok(em) => mime_parse_outcome(body@) is None && em.peer_addr == peer_addr
                    && em.used_ssl == used_ssl && em.sender == sender && em.recipient == recipient
                    && em.raw_body == body,
                Err(e) => match mime_parse_outcome(body@) {
                    Some(m) => e@ == ClientErrorModel::EmailParse(m),
                    None => false,
                },
            },
    {
        match check_mime(&body) {
            Ok(()) => Ok(Email { peer_addr, used_ssl, sender, recipient, raw_body: body }),
            Err(m) => Err(ClientError::EmailParse(m)),
        }
    }
}

/// The reply owed to the client once the delivery attempt has finished:
/// a success confirmation, or the failure surfaced as an error reply
/// whose text is flattened onto one line, so that a handler's message
/// cannot inject extra wire lines.
pub fn delivery_reply(result: Result<(), ClientError>) -> (r: Flow)
    ensures
        match result {
            Ok(_) => r@ == FlowModel::Reply(250, "Email received, over and out!"@),
            Err(e) => r@ == FlowModel::Reply(
                500,
                spec_sanitize(crate::connection::spec_client_error_text(e@)),
            ),
        },
{
    match result {
        Ok(()) => Flow::Reply(Flow::status_ok(), "Email received, over and out!".to_owned()),
        Err(e) => {
            let d: String = e.description();
            Flow::Reply(Flow::status_err(), sanitize_line(d.as_str()))
        },
    }
}

} // verus!
