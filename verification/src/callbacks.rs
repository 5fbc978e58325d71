//! An in-memory implementation of the platform callbacks: sends and deletes
//! are recorded, fetches are served from preloaded data.

use vstd::prelude::*;
use vstd::string::*;
use crate::handler::{Action, CallbackError, ResponseCallbacks};
use crate::models::{Channel, Message};

verus! {

/// Records every send and delete request and serves fetches from preloaded
/// data. This is the safe default integration — every operation succeeds or
/// returns nothing — and doubles as the observable platform for tests.
pub struct RecordingCallbacks {
    /// Messages passed to send, in order.
    pub sent: Vec<Message>,
    /// Channel and message identifier pairs passed to delete, in order.
    pub deleted: Vec<(u64, u64)>,
    /// When set, a send is still recorded but refused.
    pub fail_sends: bool,
    /// Channels served to fetch requests.
    pub channels: Vec<Channel>,
    /// Messages served to fetch requests, keyed by channel and message
    /// identifier.
    pub messages: Vec<(u64, u64, Message)>,
    /// The requests issued so far, as the callback contract records them.
    pub issued: Ghost<Seq<Action>>,
}

impl RecordingCallbacks {
    /// Fresh callbacks with nothing recorded and nothing preloaded.
    pub fn new() -> (r: Self)
        ensures
            r.log() =~= Seq::<Action>::empty(),
            r.sent@.len() == 0,
            r.deleted@.len() == 0,
            !r.fail_sends,
            r.channels@.len() == 0,
            r.messages@.len() == 0,
    {
        RecordingCallbacks {
            sent: Vec::new(),
            deleted: Vec::new(),
            fail_sends: false,
            channels: Vec::new(),
            messages: Vec::new(),
            issued: Ghost(Seq::empty()),
        }
    }
}

impl ResponseCallbacks for RecordingCallbacks {
    closed spec fn log(&self) -> Seq<Action> {
        self.issued@
    }

    fn send_message(&mut self, message: Message) -> (r: Result<(), CallbackError>) {
        proof {
            assert(old(self).issued@.push(Action::Send(message@)) == old(self).log().push(
                Action::Send(message@),
            ));
        }
        self.issued = Ghost(self.issued@.push(Action::Send(message@)));
        self.sent.push(message);
        if self.fail_sends {
            Err(CallbackError { message: String::from_str("send refused") })
        } else {
            Ok(())
        }
    }

    fn delete_message(&mut self, channel_id: u64, message_id: u64) -> (r: Result<
        (),
        CallbackError,
    >) {
        self.issued = Ghost(self.issued@.push(Action::Delete { channel_id, message_id }));
        self.deleted.push((channel_id, message_id));
        Ok(())
    }

    fn fetch_message(&mut self, channel_id: u64, message_id: u64) -> (r: Option<Message>) {
        self.issued = Ghost(
            self.issued@.push(Action::FetchMessage { channel_id, message_id }),
        );
        let mut i: usize = 0;
        while i < self.messages.len()
            invariant
                i <= self.messages@.len(),
                self.issued@ == old(self).issued@.push(
                    Action::FetchMessage { channel_id, message_id },
                ),
            decreases self.messages@.len() - i,
        {
            if self.messages[i].0 == channel_id && self.messages[i].1 == message_id {
                return Some(self.messages[i].2.clone());
            }
            i = i + 1;
        }
        None
    }

    fn fetch_channel(&mut self, channel_id: u64) -> (r: Option<Channel>) {
        self.issued = Ghost(self.issued@.push(Action::FetchChannel { channel_id }));
        let mut i: usize = 0;
        while i < self.channels.len()
            invariant
                i <= self.channels@.len(),
                self.issued@ == old(self).issued@.push(Action::FetchChannel { channel_id }),
            decreases self.channels@.len() - i,
        {
            if self.channels[i].id == channel_id {
                return Some(self.channels[i].clone());
            }
            i = i + 1;
        }
        None
    }
}

} // verus!
