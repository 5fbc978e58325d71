//! The handler abstractions and the shared context: the platform callback
//! capability with its ghost request log, the two handler shapes, and the
//! rule unifying command handlers under the one dispatch contract.

use vstd::prelude::*;
use crate::models::{Channel, IncomingMessage, Message, MessageView};
use crate::queue::{ChannelQueues, QueueModel};
use crate::store::{HistoryStore, StoreError, StoreView};
use crate::text::{parse_command, strings_view, tokens};

verus! {

/// One request issued through the platform callbacks, in the order the core
/// issued it.
pub ghost enum Action {
    Send(MessageView),
    Delete { channel_id: u64, message_id: u64 },
    FetchMessage { channel_id: u64, message_id: u64 },
    FetchChannel { channel_id: u64 },
}

/// The error a platform callback can produce.
#[derive(Debug)]
pub struct CallbackError {
    pub message: String,
}

/// The error one handler invocation can produce: a failed platform call, or
/// a refused store operation.
#[derive(Debug)]
pub enum HandlerError {
    Callback(String),
    Store(StoreError),
}

/// The platform interface consumed by the core: sending and deleting
/// messages, and fetching channel or message metadata. Each operation is
/// independently optional — an integration implements what it uses and lets
/// the rest refuse or return nothing.
///
/// The ghost [`ResponseCallbacks::log`] records every request issued, in
/// order; each operation appends exactly its own request, whatever its
/// outcome.
pub trait ResponseCallbacks: Sized {
    /// The requests issued so far, in order. The default — an empty log
    /// forever — suits only integrations outside the verifier's reach: a
    /// verified implementation must give the log a body of its own to meet
    /// the operations' contracts.
    open spec fn log(&self) -> Seq<Action> {
        Seq::empty()
    }

    /// Requests the platform to deliver `message` to its channel.
    fn send_message(&mut self, message: Message) -> (r: Result<(), CallbackError>)
        ensures
            final(self).log() == old(self).log().push(Action::Send(message@)),
    ;

    /// Requests the platform to delete one message.
    fn delete_message(&mut self, channel_id: u64, message_id: u64) -> (r: Result<
        (),
        CallbackError,
    >)
        ensures
            final(self).log() == old(self).log().push(
                Action::Delete { channel_id, message_id },
            ),
    ;

    /// Fetches one message, or nothing when it cannot be resolved.
    fn fetch_message(&mut self, channel_id: u64, message_id: u64) -> (r: Option<Message>)
        ensures
            final(self).log() == old(self).log().push(
                Action::FetchMessage { channel_id, message_id },
            ),
    ;

    /// Fetches one channel's metadata, or nothing when it cannot be resolved.
    fn fetch_channel(&mut self, channel_id: u64) -> (r: Option<Channel>)
        ensures
            final(self).log() == old(self).log().push(Action::FetchChannel { channel_id }),
    ;
}

/// The context shared by every handler: the platform callbacks and the
/// state of both history-window backends.
pub struct Context<C: ResponseCallbacks> {
    pub callbacks: C,
    pub store: HistoryStore,
    pub queues: ChannelQueues,
}

/// The shared state a handler invocation reads and writes, as one
/// mathematical value: the request log and both history-window backends.
#[verifier::ext_equal]
pub ghost struct CoreState {
    pub log: Seq<Action>,
    pub store: StoreView,
    pub queues: Map<u64, QueueModel>,
}

impl<C: ResponseCallbacks> Context<C> {
    /// Structural invariant of the shared state.
    pub open spec fn wf(&self) -> bool {
        &&& self.store.wf()
        &&& self.queues.wf()
    }

    /// The context's shared state as one mathematical value.
    pub open spec fn state(&self) -> CoreState {
        CoreState { log: self.callbacks.log(), store: self.store@, queues: self.queues@ }
    }

    /// A context around the given callbacks, with an empty store and no
    /// channel queues.
    pub fn new(callbacks: C) -> (r: Self)
        ensures
            r.wf(),
            r.callbacks == callbacks,
            r.store@.rows =~= Seq::<crate::store::History>::empty(),
            r.store@.config =~= Map::<u64, i32>::empty(),
            r.queues@ =~= Map::<u64, QueueModel>::empty(),
    {
        Context { callbacks, store: HistoryStore::new(), queues: ChannelQueues::new() }
    }
}

/// The one dispatch contract every handler meets. A handler reads the
/// incoming message, may read and write the shared state, and reports
/// success or failure; what it did is pinned by its
/// [`MessageHandler::on_message_spec`] relation.
pub trait MessageHandler<C: ResponseCallbacks>: Sized {
    /// Handler-specific well-formedness a caller must establish before
    /// dispatching to it.
    spec fn valid(&self) -> bool;

    /// The relation between the handler and shared state before and after
    /// one invocation, and the invocation's result.
    spec fn on_message_spec(
        &self,
        post: Self,
        message: IncomingMessage,
        pre: CoreState,
        post_state: CoreState,
        r: Result<(), HandlerError>,
    ) -> bool;

    /// Handles one incoming message.
    fn on_message(&mut self, message: &IncomingMessage, context: &mut Context<C>) -> (r: Result<
        (),
        HandlerError,
    >)
        requires
            old(self).valid(),
            old(context).wf(),
        ensures
            final(self).valid(),
            final(context).wf(),
            old(self).on_message_spec(
                *final(self),
                *message,
                old(context).state(),
                final(context).state(),
                r,
            ),
    ;
}

/// A command handler: it names the commands it accepts and acts only on
/// messages whose first token is such a command. The blanket rule below
/// turns every command handler into a [`MessageHandler`].
pub trait CommandHandler<C: ResponseCallbacks>: Sized {
    /// Which command names this handler accepts.
    spec fn accepts_spec(&self, command_name: Seq<char>) -> bool;

    /// Handler-specific well-formedness.
    spec fn command_valid(&self) -> bool;

    /// The relation for one invocation of the command body.
    spec fn handler_spec(
        &self,
        post: Self,
        args: Seq<Seq<char>>,
        message: IncomingMessage,
        pre: CoreState,
        post_state: CoreState,
        r: Result<(), HandlerError>,
    ) -> bool;

    /// Whether this handler accepts the given command name. Matching is
    /// exact and case-sensitive.
    fn accepts(&self, command_name: &str) -> (r: bool)
        ensures
            r == self.accepts_spec(command_name@),
    ;

    /// The command body, given the parsed positional arguments.
    fn handler(
        &mut self,
        args: &Vec<String>,
        message: &IncomingMessage,
        context: &mut Context<C>,
    ) -> (r: Result<(), HandlerError>)
        requires
            old(self).command_valid(),
            old(context).wf(),
        ensures
            final(self).command_valid(),
            final(context).wf(),
            old(self).handler_spec(
                *final(self),
                strings_view(args@),
                *message,
                old(context).state(),
                final(context).state(),
                r,
            ),
    ;
}

/// The adapter translating `accepts` plus command body into the uniform
/// dispatch contract: the wrapped command handler handles a message by
/// parsing its content; when the content has no token, or the command name
/// is not accepted, the call is a no-op that changes nothing and succeeds;
/// otherwise the command body runs on the remaining tokens and its result is
/// propagated.
pub struct CommandAdapter<T>(pub T);

impl<C: ResponseCallbacks, T: CommandHandler<C>> MessageHandler<C> for CommandAdapter<T> {
    open spec fn valid(&self) -> bool {
        self.0.command_valid()
    }

    open spec fn on_message_spec(
        &self,
        post: Self,
        message: IncomingMessage,
        pre: CoreState,
        post_state: CoreState,
        r: Result<(), HandlerError>,
    ) -> bool {
        let toks = tokens(message.1.content@);
        if toks.len() == 0 {
            &&& post_state == pre
            &&& post.0 == self.0
            &&& r is Ok
        } else if self.0.accepts_spec(toks[0]) {
            self.0.handler_spec(post.0, toks.skip(1), message, pre, post_state, r)
        } else {
            &&& post_state == pre
            &&& post.0 == self.0
            &&& r is Ok
        }
    }

    fn on_message(&mut self, message: &IncomingMessage, context: &mut Context<C>) -> (r: Result<
        (),
        HandlerError,
    >) {
        let content = &message.1.content;
        if let Some(parsed) = parse_command(content.as_str()) {
            let (command, args) = parsed;
            if self.0.accepts(command.as_str()) {
                let r = self.0.handler(&args, message, context);
                proof {
                    assert(strings_view(args@) =~= tokens(message.1.content@).skip(1));
                }
                return r;
            }
        }
        Ok(())
    }
}

/// The universal adapter for stateless reply logic: wraps a function from
/// incoming message to optional reply; when the function yields a reply the
/// handler sends it, otherwise the call is a no-op.
pub struct FnMessageHandler<T: Fn(&IncomingMessage) -> Option<Message>>(pub T);

impl<C: ResponseCallbacks, T: Fn(&IncomingMessage) -> Option<Message>> MessageHandler<
    C,
> for FnMessageHandler<T> {
    /// The wrapped function must be callable on every message.
    open spec fn valid(&self) -> bool {
        forall|m: &IncomingMessage| call_requires(self.0, (m,))
    }

    open spec fn on_message_spec(
        &self,
        post: Self,
        message: IncomingMessage,
        pre: CoreState,
        post_state: CoreState,
        r: Result<(), HandlerError>,
    ) -> bool {
        exists|m: &IncomingMessage, rep: Option<Message>|
            {
                &&& *m == message
                &&& #[trigger] call_ensures(self.0, (m,), rep)
                &&& match rep {
                    None => post_state == pre && r is Ok,
                    Some(reply) => {
                        &&& post_state == (CoreState {
                            log: pre.log.push(Action::Send(reply@)),
                            ..pre
                        })
                        &&& (r is Err ==> r matches Err(HandlerError::Callback(_)))
                    },
                }
            }
    }

    fn on_message(&mut self, message: &IncomingMessage, context: &mut Context<C>) -> (r: Result<
        (),
        HandlerError,
    >) {
        let rep = (self.0)(message);
        proof {
            assert(call_ensures(self.0, (message,), rep));
        }
        match rep {
            Some(reply) => {
                let ghost replyv = reply@;
                let sent = context.callbacks.send_message(reply);
                let r: Result<(), HandlerError> = match sent {
                    Ok(()) => Ok(()),
                    Err(e) => Err(HandlerError::Callback(e.message)),
                };
                proof {
                    assert(context.state() == (CoreState {
                        log: old(context).state().log.push(Action::Send(replyv)),
                        ..old(context).state()
                    }));
                }
                r
            },
            None => Ok(()),
        }
    }
}

} // verus!
