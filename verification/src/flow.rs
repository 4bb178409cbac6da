//! The action a state transition asks the connection driver to perform.

use vstd::prelude::*;

verus! {

/// What the connection driver must do after a command was handled: send a
/// reply, run the delivery pipeline, upgrade the transport, or hang up.
#[derive(Debug)]
pub enum Flow {
    Reply(u32, String),
    ReplyMultiline(u32, Vec<String>),
    EmailReceived { sender: String, recipient: String, body: Vec<u8> },
    UpgradeTls,
    Quit,
}

/// The mathematical model of a [`Flow`]: every string as a character
/// sequence, every buffer as a byte sequence.
pub enum FlowModel {
    Reply(u32, Seq<char>),
    ReplyMultiline(u32, Seq<Seq<char>>),
    EmailReceived { sender: Seq<char>, recipient: Seq<char>, body: Seq<u8> },
    UpgradeTls,
    Quit,
}

/// The views of a sequence of strings.
pub open spec fn lines_view(v: Seq<String>) -> Seq<Seq<char>> {
    v.map_values(|s: String| s@)
}

impl View for Flow {
    type V = FlowModel;

    open spec fn view(&self) -> FlowModel {
        match self {
            Flow::Reply(code, text) => FlowModel::Reply(*code, text@),
            Flow::ReplyMultiline(code, lines) => FlowModel::ReplyMultiline(
                *code,
                lines_view(lines@),
            ),
            Flow::EmailReceived { sender, recipient, body } => FlowModel::EmailReceived {
                sender: sender@,
                recipient: recipient@,
                body: body@,
            },
            Flow::UpgradeTls => FlowModel::UpgradeTls,
            Flow::Quit => FlowModel::Quit,
        }
    }
}

impl Flow {
    /// The SMTP status code for a successful command.
    pub fn status_ok() -> (r: u32)
        ensures
            r == 250,
    {
        250
    }

    /// The SMTP status code inviting the client to send the message body.
    pub fn status_body_started() -> (r: u32)
        ensures
            r == 354,
    {
        354
    }

    /// The SMTP status code for any error the session survives.
    pub fn status_err() -> (r: u32)
        ensures
            r == 500,
    {
        500
    }
}

} // verus!
