//! The persisted history-window variant: a reactive half that records each
//! message and prunes everything beyond the channel's window, and a
//! configurator half driven by the `meslimit` command.

use vstd::prelude::*;
use crate::handler::{
    Action, CommandHandler, Context, CoreState, HandlerError, MessageHandler, ResponseCallbacks,
};
use crate::models::{IncomingMessage, MessageView};
use crate::store::{
    excess_rows, has_message_id, insert_desc, lemma_remove_ids_take_step, remove_ids, History,
    StoreError, StoreView,
};
use crate::text::{parse_i32, spec_parse_i32, str_eq};

verus! {

/// The message identifiers of `rows`, in order.
pub open spec fn ids_of(rows: Seq<History>) -> Seq<u64> {
    rows.map(|i: int, h: History| h.message_id)
}

/// The delete requests pruning issues for `rows`, in order.
pub open spec fn delete_actions(rows: Seq<History>) -> Seq<Action> {
    rows.map(
        |i: int, h: History| Action::Delete { channel_id: h.channel_id, message_id: h.message_id },
    )
}

/// What the reactive pruning half does. With no window configured for the
/// channel, nothing happens and nothing is recorded. Otherwise the message
/// is appended to the history; every history row of the channel beyond the
/// newest `window_size` is deleted from the store, and a best-effort delete
/// request is issued for each, in the store's newest-first order. A message
/// identifier already recorded violates the primary key: the store is left
/// unchanged and the failure is propagated.
pub open spec fn prune_spec(
    message: IncomingMessage,
    pre: CoreState,
    post: CoreState,
    r: Result<(), HandlerError>,
) -> bool {
    let c = message.1.channel_id;
    if !pre.store.config.contains_key(c) {
        &&& post == pre
        &&& r is Ok
    } else {
        let w = pre.store.config[c] as int;
        let row = History { message_id: message.0, channel_id: c };
        if has_message_id(pre.store.rows, message.0) {
            &&& post == pre
            &&& r matches Err(HandlerError::Store(StoreError::DuplicateMessageId))
        } else {
            let rows1 = insert_desc(pre.store.rows, row);
            let excess = excess_rows(rows1, c, w);
            &&& post.store == (StoreView {
                rows: remove_ids(rows1, ids_of(excess)),
                config: pre.store.config,
            })
            &&& post.queues == pre.queues
            &&& post.log == pre.log + delete_actions(excess)
            &&& r is Ok
        }
    }
}

/// The reactive half of the persisted history window.
#[derive(Clone, Copy)]
pub struct HistoryWindow;

impl<C: ResponseCallbacks> MessageHandler<C> for HistoryWindow {
    open spec fn valid(&self) -> bool {
        true
    }

    open spec fn on_message_spec(
        &self,
        post: Self,
        message: IncomingMessage,
        pre: CoreState,
        post_state: CoreState,
        r: Result<(), HandlerError>,
    ) -> bool {
        prune_spec(message, pre, post_state, r)
    }

    fn on_message(&mut self, message: &IncomingMessage, context: &mut Context<C>) -> (r: Result<
        (),
        HandlerError,
    >) {
        let channel_id = message.1.channel_id;
        let w = match context.store.window_size(channel_id) {
            None => {
                return Ok(());
            },
            Some(w) => w,
        };
        proof {
            old(context).store.lemma_config_positive();
        }
        let row = History { message_id: message.0, channel_id };
        match context.store.insert_history(row) {
            Err(e) => {
                return Err(HandlerError::Store(e));
            },
            Ok(()) => {},
        }
        let ghost rows1 = context.store@.rows;
        let excess = context.store.channel_history_desc(channel_id, w as usize);
        let ghost excess_v = excess@;
        let mut i: usize = 0;
        while i < excess.len()
            invariant
                i <= excess_v.len(),
                excess@ == excess_v,
                context.store.wf(),
                context.queues == old(context).queues,
                context.queues.wf(),
                context.callbacks.log() == old(context).callbacks.log(),
                context.store@.config == old(context).store@.config,
                context.store@.rows == remove_ids(rows1, ids_of(excess_v).take(i as int)),
            decreases excess_v.len() - i,
        {
            let mid = excess[i].message_id;
            proof {
                lemma_remove_ids_take_step(rows1, ids_of(excess_v), i as int);
                assert(ids_of(excess_v)[i as int] == mid);
            }
            context.store.delete_history(mid);
            i = i + 1;
        }
        proof {
            assert(ids_of(excess_v).take(excess_v.len() as int) =~= ids_of(excess_v));
        }
        let ghost log_mid = context.callbacks.log();
        let ghost store_mid = context.store@;
        let mut i: usize = 0;
        while i < excess.len()
            invariant
                i <= excess_v.len(),
                excess@ == excess_v,
                context.store.wf(),
                context.store@ == store_mid,
                context.queues == old(context).queues,
                context.queues.wf(),
                context.callbacks.log() == log_mid + delete_actions(excess_v).take(i as int),
            decreases excess_v.len() - i,
        {
            let c = excess[i].channel_id;
            let m = excess[i].message_id;
            let _ = context.callbacks.delete_message(c, m);
            proof {
                assert(delete_actions(excess_v).take(i as int + 1) =~= delete_actions(
                    excess_v,
                ).take(i as int).push(Action::Delete { channel_id: c, message_id: m }));
            }
            i = i + 1;
        }
        proof {
            assert(delete_actions(excess_v).take(excess_v.len() as int) =~= delete_actions(
                excess_v,
            ));
            assert(context.store@ =~= (StoreView {
                rows: remove_ids(rows1, ids_of(excess_v)),
                config: old(context).store@.config,
            }));
        }
        Ok(())
    }
}

/// The view of the configurator's reply to `message`: the same message with
/// only the content replaced by `text`.
pub open spec fn reply_view(message: IncomingMessage, text: Seq<char>) -> MessageView {
    MessageView { content: text, ..message.1@ }
}

/// A reply carrying `text` was sent, and the invocation failed only if that
/// send failed.
pub open spec fn reply_sent(
    message: IncomingMessage,
    text: Seq<char>,
    pre: CoreState,
    post: CoreState,
    r: Result<(), HandlerError>,
) -> bool {
    &&& post.log == pre.log.push(Action::Send(reply_view(message, text)))
    &&& (r is Err ==> r matches Err(HandlerError::Callback(_)))
}

/// What the `meslimit` command does, given its parsed arguments.
/// `enable <size>` with `1 <= size <= 10000` upserts the channel's window
/// size and confirms; a parsed but out-of-range size draws the range error,
/// distinct from the parse error an unparsable size draws; `disable`
/// deletes the channel's configuration row outright; any other argument
/// shape draws the generic invalid-command reply. No failed validation
/// mutates the store.
pub open spec fn configure_spec(
    args: Seq<Seq<char>>,
    message: IncomingMessage,
    pre: CoreState,
    post: CoreState,
    r: Result<(), HandlerError>,
) -> bool {
    let c = message.1.channel_id;
    if args.len() == 2 && args[0] == "enable"@ {
        match spec_parse_i32(args[1]) {
            Some(size) => if 1 <= size <= 10000 {
                &&& post.store == (StoreView {
                    rows: pre.store.rows,
                    config: pre.store.config.insert(c, size),
                })
                &&& post.queues == pre.queues
                &&& reply_sent(message, "有効化しました。"@, pre, post, r)
            } else {
                &&& post.store == pre.store
                &&& post.queues == pre.queues
                &&& reply_sent(
                    message,
                    "1以上10000以下の範囲で指定してください。"@,
                    pre,
                    post,
                    r,
                )
            },
            None => {
                &&& post.store == pre.store
                &&& post.queues == pre.queues
                &&& reply_sent(message, "不正なパラメータです。"@, pre, post, r)
            },
        }
    } else if args.len() == 1 && args[0] == "disable"@ {
        &&& post.store == (StoreView {
            rows: pre.store.rows,
            config: pre.store.config.remove(c),
        })
        &&& post.queues == pre.queues
        &&& reply_sent(message, "無効化しました。"@, pre, post, r)
    } else {
        &&& post.store == pre.store
        &&& post.queues == pre.queues
        &&& reply_sent(message, "不正なコマンドです。"@, pre, post, r)
    }
}

/// The configurator half of the persisted history window: the `meslimit`
/// command handler.
#[derive(Clone, Copy)]
pub struct HistoryWindowConfigurator;

impl<C: ResponseCallbacks> CommandHandler<C> for HistoryWindowConfigurator {
    open spec fn accepts_spec(&self, command_name: Seq<char>) -> bool {
        command_name == "meslimit"@
    }

    open spec fn command_valid(&self) -> bool {
        true
    }

    open spec fn handler_spec(
        &self,
        post: Self,
        args: Seq<Seq<char>>,
        message: IncomingMessage,
        pre: CoreState,
        post_state: CoreState,
        r: Result<(), HandlerError>,
    ) -> bool {
        configure_spec(args, message, pre, post_state, r)
    }

    fn accepts(&self, command_name: &str) -> (r: bool) {
        str_eq(command_name, "meslimit")
    }

    fn handler(
        &mut self,
        args: &Vec<String>,
        message: &IncomingMessage,
        context: &mut Context<C>,
    ) -> (r: Result<(), HandlerError>) {
        let reply_text: &str = if args.len() == 2 && str_eq(args[0].as_str(), "enable") {
            match parse_i32(args[1].as_str()) {
                Some(size) => {
                    if 1 <= size && size <= 10000 {
                        context.store.set_window_size(message.1.channel_id, size);
                        "有効化しました。"
                    } else {
                        "1以上10000以下の範囲で指定してください。"
                    }
                },
                None => "不正なパラメータです。",
            }
        } else if args.len() == 1 && str_eq(args[0].as_str(), "disable") {
            context.store.remove_window(message.1.channel_id);
            "無効化しました。"
        } else {
            "不正なコマンドです。"
        };
        let rep = message.1.reply(reply_text);
        match context.callbacks.send_message(rep) {
            Ok(()) => Ok(()),
            Err(e) => Err(HandlerError::Callback(e.message)),
        }
    }
}

} // verus!
