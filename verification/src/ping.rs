//! The simplest reactive handler: a fixed reply to a fixed probe message.

use vstd::prelude::*;
use crate::models::{IncomingMessage, Message, MessageView};
use crate::text::str_eq;

verus! {

/// Replies `pong!` to a message reading exactly `ping?`, and stays silent on
/// everything else.
pub fn ping(message: &IncomingMessage) -> (r: Option<Message>)
    ensures
        match r {
            Some(rep) => message.1.content@ == "ping?"@ && rep@ == (MessageView {
                content: "pong!"@,
                ..message.1@
            }),
            None => message.1.content@ != "ping?"@,
        },
{
    if str_eq(message.1.content.as_str(), "ping?") {
        Some(message.1.reply("pong!"))
    } else {
        None
    }
}

} // verus!
