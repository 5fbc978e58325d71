//! The in-memory history-window variant: per-channel bounded circular
//! buffers of message identifiers, shared between a reactive pruning half
//! and a `meslimit` configurator half.

use vstd::prelude::*;
use crate::handler::{
    CommandHandler, Context, CoreState, HandlerError, MessageHandler, ResponseCallbacks,
};
use crate::handler::Action;
use crate::history_window::reply_sent;
use crate::models::IncomingMessage;
use crate::queue::{queue_step, QueueModel};
use crate::text::{parse_i32, spec_parse_i32, str_eq};

verus! {

/// What the reactive in-memory half does. A channel with no queue is left
/// alone. Otherwise the message identifier is pushed into the channel's
/// queue; when the push evicts the oldest identifier, one best-effort
/// delete request is issued for it. Eviction order is strict
/// first-in-first-out.
pub open spec fn memory_window_spec(
    message: IncomingMessage,
    pre: CoreState,
    post: CoreState,
    r: Result<(), HandlerError>,
) -> bool {
    let c = message.1.channel_id;
    if !pre.queues.contains_key(c) {
        &&& post == pre
        &&& r is Ok
    } else {
        let m = pre.queues[c];
        let st = queue_step(m.cap, m.items, message.0);
        let queues2 = pre.queues.insert(c, QueueModel { cap: m.cap, items: st.0 });
        match st.1 {
            None => {
                &&& post == (CoreState { queues: queues2, ..pre })
                &&& r is Ok
            },
            Some(evicted) => {
                &&& post == (CoreState {
                    queues: queues2,
                    log: pre.log.push(Action::Delete { channel_id: c, message_id: evicted }),
                    ..pre
                })
                &&& r is Ok
            },
        }
    }
}

/// The reactive half of the in-memory history window.
#[derive(Clone, Copy)]
pub struct MemoryHistoryWindow;

impl<C: ResponseCallbacks> MessageHandler<C> for MemoryHistoryWindow {
    open spec fn valid(&self) -> bool {
        true
    }

    open spec fn on_message_spec(
        &self,
        post: Self,
        message: IncomingMessage,
        pre: CoreState,
        post_state: CoreState,
        r: Result<(), HandlerError>,
    ) -> bool {
        memory_window_spec(message, pre, post_state, r)
    }

    fn on_message(&mut self, message: &IncomingMessage, context: &mut Context<C>) -> (r: Result<
        (),
        HandlerError,
    >) {
        let channel_id = message.1.channel_id;
        match context.queues.push_message(channel_id, message.0) {
            None => Ok(()),
            Some(None) => Ok(()),
            Some(Some(evicted)) => {
                let _ = context.callbacks.delete_message(channel_id, evicted);
                Ok(())
            },
        }
    }
}

/// What the in-memory `meslimit` command does. `enable <size>` with a
/// positive size installs a fresh, empty queue of that capacity for the
/// invoking channel, replacing any prior queue — switching window size
/// forgets prior history state — and confirms; any other argument shape
/// draws the invalid-command reply and changes nothing. This variant has no
/// `disable`: only reconfiguration by atomic replacement.
pub open spec fn memory_configure_spec(
    args: Seq<Seq<char>>,
    message: IncomingMessage,
    pre: CoreState,
    post: CoreState,
    r: Result<(), HandlerError>,
) -> bool {
    let c = message.1.channel_id;
    if args.len() == 2 && args[0] == "enable"@ {
        match spec_parse_i32(args[1]) {
            Some(size) => if size >= 1 {
                &&& post.queues == pre.queues.insert(
                    c,
                    QueueModel { cap: size as nat, items: Seq::<u64>::empty() },
                )
                &&& post.store == pre.store
                &&& reply_sent(message, "有効化しました。"@, pre, post, r)
            } else {
                &&& post.queues == pre.queues
                &&& post.store == pre.store
                &&& reply_sent(message, "不正なコマンドです。"@, pre, post, r)
            },
            None => {
                &&& post.queues == pre.queues
                &&& post.store == pre.store
                &&& reply_sent(message, "不正なコマンドです。"@, pre, post, r)
            },
        }
    } else {
        &&& post.queues == pre.queues
        &&& post.store == pre.store
        &&& reply_sent(message, "不正なコマンドです。"@, pre, post, r)
    }
}

/// The configurator half of the in-memory history window: the `meslimit`
/// command handler.
#[derive(Clone, Copy)]
pub struct MemoryHistoryWindowConfigurator;

impl<C: ResponseCallbacks> CommandHandler<C> for MemoryHistoryWindowConfigurator {
    open spec fn accepts_spec(&self, command_name: Seq<char>) -> bool {
        command_name == "meslimit"@
    }

    open spec fn command_valid(&self) -> bool {
        true
    }

    open spec fn handler_spec(
        &self,
        post: Self,
        args: Seq<Seq<char>>,
        message: IncomingMessage,
        pre: CoreState,
        post_state: CoreState,
        r: Result<(), HandlerError>,
    ) -> bool {
        memory_configure_spec(args, message, pre, post_state, r)
    }

    fn accepts(&self, command_name: &str) -> (r: bool) {
        str_eq(command_name, "meslimit")
    }

    fn handler(
        &mut self,
        args: &Vec<String>,
        message: &IncomingMessage,
        context: &mut Context<C>,
    ) -> (r: Result<(), HandlerError>) {
        let reply_text: &str = if args.len() == 2 && str_eq(args[0].as_str(), "enable") {
            match parse_i32(args[1].as_str()) {
                Some(size) => {
                    if size >= 1 {
                        context.queues.install(message.1.channel_id, size as usize);
                        "有効化しました。"
                    } else {
                        "不正なコマンドです。"
                    }
                },
                None => "不正なコマンドです。",
            }
        } else {
            "不正なコマンドです。"
        };
        let rep = message.1.reply(reply_text);
        match context.callbacks.send_message(rep) {
            Ok(()) => Ok(()),
            Err(e) => Err(HandlerError::Callback(e.message)),
        }
    }
}

} // verus!
