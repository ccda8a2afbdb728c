//! The two plain endpoints that exchange a status and a text.

use vstd::prelude::*;
use vstd::string::StringExecFns;

verus! {

/// A status word and a text, as both endpoints send and take them.
#[derive(Debug)]
pub struct Message {
    pub status: String,
    pub content: String,
}

/// The status code for a request that was taken.
pub const OK: u16 = 200;

/// The status code for a request that was refused.
pub const BAD_REQUEST: u16 = 400;

/// The one status word that a sender's message is taken under.
pub open spec fn accepted_status() -> Seq<char> {
    "success"@
}

/// The status word of the answer: `received` for a message that was taken,
/// `error` for any other.
pub open spec fn reply_status(status: Seq<char>) -> Seq<char> {
    if status == accepted_status() {
        "received"@
    } else {
        "error"@
    }
}

/// The status code of the answer: 200 for a message that was taken, 400 for
/// any other.
pub open spec fn reply_code(status: Seq<char>) -> u16 {
    if status == accepted_status() {
        OK
    } else {
        BAD_REQUEST
    }
}

/// The text of the answer: the sender's text behind a fixed opening.
pub open spec fn reply_content(content: Seq<char>) -> Seq<char> {
    "Mensagem recebida: "@ + content
}

/// The message that is handed out on request.
pub fn message() -> (msg: Message)
    ensures
        msg.status@ == accepted_status(),
        msg.content@ == "Esta é uma mensagem JSON."@,
{
    Message {
        status: String::from_str("success"),
        content: String::from_str("Esta é uma mensagem JSON."),
    }
}

/// Answers a message that was sent in: the status code and the message to
/// send back. The answer repeats the text; its status word and the code say
/// whether the message came under the accepted status.
pub fn input_message(payload: Message) -> (reply: (u16, Message))
    ensures
        reply.0 == reply_code(payload.status@),
        reply.1.status@ == reply_status(payload.status@),
        reply.1.content@ == reply_content(payload.content@),
{
    let accepted = String::from_str("success");
    let status = if payload.status != accepted {
        String::from_str("error")
    } else {
        String::from_str("received")
    };
    let response = Message {
        status,
        content: String::from_str("Mensagem recebida: ").concat(payload.content.as_str()),
    };
    if payload.status != accepted {
        (BAD_REQUEST, response)
    } else {
        (OK, response)
    }
}

} // verus!
