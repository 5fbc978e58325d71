//! The dispatcher: an ordered list of registered handlers and the shared
//! context. Each message-created event is routed to every handler in
//! registration order, sequentially; a handler's failure is captured and
//! never stops the handlers after it.

use vstd::prelude::*;
use crate::handler::{
    Action, CommandAdapter, Context, CoreState, HandlerError, MessageHandler, ResponseCallbacks,
};
use crate::history_window::{configure_spec, prune_spec, HistoryWindow, HistoryWindowConfigurator};
use crate::memory_window::{
    memory_configure_spec, memory_window_spec, MemoryHistoryWindow, MemoryHistoryWindowConfigurator,
};
use crate::models::{Event, IncomingMessage, MessageView};
use crate::ping::ping;
use crate::quote::{quote_spec, Quote};
use crate::text::tokens;

verus! {

/// What the ping handler does: the probe draws its fixed reply, anything
/// else is left alone.
pub open spec fn ping_step(
    message: IncomingMessage,
    pre: CoreState,
    post: CoreState,
    r: Result<(), HandlerError>,
) -> bool {
    if message.1.content@ == "ping?"@ {
        &&& post == (CoreState {
            log: pre.log.push(Action::Send(MessageView { content: "pong!"@, ..message.1@ })),
            ..pre
        })
        &&& (r is Err ==> r matches Err(HandlerError::Callback(_)))
    } else {
        &&& post == pre
        &&& r is Ok
    }
}

/// The persisted configurator behind the command gate: only a message whose
/// first token is `meslimit` reaches the command body.
pub open spec fn persisted_config_step(
    message: IncomingMessage,
    pre: CoreState,
    post: CoreState,
    r: Result<(), HandlerError>,
) -> bool {
    let toks = tokens(message.1.content@);
    if toks.len() == 0 {
        post == pre && r is Ok
    } else if toks[0] == "meslimit"@ {
        configure_spec(toks.skip(1), message, pre, post, r)
    } else {
        post == pre && r is Ok
    }
}

/// The in-memory configurator behind the same command gate.
pub open spec fn memory_config_step(
    message: IncomingMessage,
    pre: CoreState,
    post: CoreState,
    r: Result<(), HandlerError>,
) -> bool {
    let toks = tokens(message.1.content@);
    if toks.len() == 0 {
        post == pre && r is Ok
    } else if toks[0] == "meslimit"@ {
        memory_configure_spec(toks.skip(1), message, pre, post, r)
    } else {
        post == pre && r is Ok
    }
}

/// A registered handler: one of the library's handler kinds.
#[derive(Clone, Copy)]
pub enum Handler {
    /// The reactive ping probe.
    Ping,
    /// The quoting handler.
    Quote(Quote),
    /// The reactive half of the persisted history window.
    HistoryWindow(HistoryWindow),
    /// The configurator half of the persisted history window.
    HistoryWindowConfigurator(HistoryWindowConfigurator),
    /// The reactive half of the in-memory history window.
    MemoryHistoryWindow(MemoryHistoryWindow),
    /// The configurator half of the in-memory history window.
    MemoryHistoryWindowConfigurator(MemoryHistoryWindowConfigurator),
}

/// What one invocation of a handler does to the shared state.
pub open spec fn handler_step(
    h: Handler,
    message: IncomingMessage,
    pre: CoreState,
    post: CoreState,
    r: Result<(), HandlerError>,
) -> bool {
    match h {
        Handler::Ping => ping_step(message, pre, post, r),
        Handler::Quote(_) => quote_spec(message, pre, post, r),
        Handler::HistoryWindow(_) => prune_spec(message, pre, post, r),
        Handler::HistoryWindowConfigurator(_) => persisted_config_step(message, pre, post, r),
        Handler::MemoryHistoryWindow(_) => memory_window_spec(message, pre, post, r),
        Handler::MemoryHistoryWindowConfigurator(_) => memory_config_step(
            message,
            pre,
            post,
            r,
        ),
    }
}

impl<C: ResponseCallbacks> MessageHandler<C> for Handler {
    open spec fn valid(&self) -> bool {
        true
    }

    open spec fn on_message_spec(
        &self,
        post: Self,
        message: IncomingMessage,
        pre: CoreState,
        post_state: CoreState,
        r: Result<(), HandlerError>,
    ) -> bool {
        handler_step(*self, message, pre, post_state, r)
    }

    fn on_message(&mut self, message: &IncomingMessage, context: &mut Context<C>) -> (r: Result<
        (),
        HandlerError,
    >) {
        match self {
            Handler::Ping => {
                match ping(message) {
                    Some(rep) => {
                        let ghost repv = rep@;
                        let sent = context.callbacks.send_message(rep);
                        proof {
                            assert(context.state() =~= (CoreState {
                                log: old(context).state().log.push(Action::Send(repv)),
                                ..old(context).state()
                            }));
                        }
                        match sent {
                            Ok(()) => Ok(()),
                            Err(e) => Err(HandlerError::Callback(e.message)),
                        }
                    },
                    None => Ok(()),
                }
            },
            Handler::Quote(q) => q.on_message(message, context),
            Handler::HistoryWindow(h) => h.on_message(message, context),
            Handler::HistoryWindowConfigurator(h) => {
                let mut a = CommandAdapter(*h);
                a.on_message(message, context)
            },
            Handler::MemoryHistoryWindow(h) => h.on_message(message, context),
            Handler::MemoryHistoryWindowConfigurator(h) => {
                let mut a = CommandAdapter(*h);
                a.on_message(message, context)
            },
        }
    }
}

/// The sequential dispatch relation. `dispatch_ok(hs, pre, post, message,
/// errs)` holds when running the handlers `hs`, in order, starting from
/// `pre`, can reach `post`, with `errs` the failures the handlers returned,
/// in order. Every handler takes one step — an earlier failure never stops
/// a later handler — and each handler's step starts exactly where the
/// previous handler's step ended.
pub open spec fn dispatch_ok(
    hs: Seq<Handler>,
    pre: CoreState,
    post: CoreState,
    message: IncomingMessage,
    errs: Seq<HandlerError>,
) -> bool
    decreases hs.len(),
{
    if hs.len() == 0 {
        &&& post == pre
        &&& errs == Seq::<HandlerError>::empty()
    } else {
        exists|mid: CoreState, r: Result<(), HandlerError>|
            {
                &&& #[trigger] handler_step(hs.last(), message, mid, post, r)
                &&& match r {
                    Ok(_) => dispatch_ok(hs.drop_last(), pre, mid, message, errs),
                    Err(e) => errs.len() > 0 && errs.last() == e && dispatch_ok(
                        hs.drop_last(),
                        pre,
                        mid,
                        message,
                        errs.drop_last(),
                    ),
                }
            }
    }
}

/// One handler step only appends to the request log: what stood in the log
/// before the handler ran still stands, unchanged and in place, after it.
pub proof fn lemma_handler_step_log_grows(
    h: Handler,
    message: IncomingMessage,
    pre: CoreState,
    post: CoreState,
    r: Result<(), HandlerError>,
)
    requires
        handler_step(h, message, pre, post, r),
    ensures
        pre.log.is_prefix_of(post.log),
{
    match h {
        Handler::Quote(_) => {
            let links = crate::quote::links_of(message.1.content@);
            let (mid_log, quotes, extra) = choose|
                mid_log: Seq<Action>,
                quotes: Seq<crate::models::EmbedView>,
                extra: Seq<crate::models::EmbedView>,
            |
                {
                    &&& #[trigger] crate::quote::quote_links_trace(
                        links,
                        pre.log,
                        mid_log,
                        quotes,
                        extra,
                    )
                    &&& if quotes.len() == 0 {
                        post.log == mid_log && r is Ok
                    } else {
                        let first = MessageView {
                            content: ""@,
                            embeds: quotes,
                            ..message.1@
                        };
                        let second = MessageView {
                            content: "embeds:"@,
                            embeds: extra,
                            ..message.1@
                        };
                        ||| (post.log == mid_log.push(Action::Send(first)) && r matches Err(
                            HandlerError::Callback(_),
                        ))
                        ||| (extra.len() == 0 && post.log == mid_log.push(Action::Send(first))
                            && r is Ok)
                        ||| (extra.len() > 0 && post.log == mid_log.push(
                            Action::Send(first),
                        ).push(Action::Send(second)) && (r is Err ==> r matches Err(
                            HandlerError::Callback(_),
                        )))
                    }
                };
            crate::quote::lemma_quote_trace_log_grows(links, pre.log, mid_log, quotes, extra);
            assert(pre.log =~= post.log.subrange(0, pre.log.len() as int));
        },
        _ => {
            assert(pre.log =~= post.log.subrange(0, pre.log.len() as int));
        },
    }
}

/// Sequential dispatch only appends to the request log: the requests of
/// every handler land after those already in the log, so handlers
/// registered earlier have their requests stand earlier.
pub proof fn lemma_dispatch_log_grows(
    hs: Seq<Handler>,
    pre: CoreState,
    post: CoreState,
    message: IncomingMessage,
    errs: Seq<HandlerError>,
)
    requires
        dispatch_ok(hs, pre, post, message, errs),
    ensures
        pre.log.is_prefix_of(post.log),
    decreases hs.len(),
{
    if hs.len() == 0 {
        assert(pre.log =~= post.log.subrange(0, pre.log.len() as int));
    } else {
        let (mid, r) = choose|mid: CoreState, r: Result<(), HandlerError>|
            {
                &&& #[trigger] handler_step(hs.last(), message, mid, post, r)
                &&& match r {
                    Ok(_) => dispatch_ok(hs.drop_last(), pre, mid, message, errs),
                    Err(e) => errs.len() > 0 && errs.last() == e && dispatch_ok(
                        hs.drop_last(),
                        pre,
                        mid,
                        message,
                        errs.drop_last(),
                    ),
                }
            };
        match r {
            Ok(_) => {
                lemma_dispatch_log_grows(hs.drop_last(), pre, mid, message, errs);
            },
            Err(_) => {
                lemma_dispatch_log_grows(hs.drop_last(), pre, mid, message, errs.drop_last());
            },
        }
        lemma_handler_step_log_grows(hs.last(), message, mid, post, r);
        assert(pre.log =~= post.log.subrange(0, pre.log.len() as int));
    }
}

proof fn lemma_dispatch_snoc(
    hs: Seq<Handler>,
    h: Handler,
    pre: CoreState,
    mid: CoreState,
    post: CoreState,
    message: IncomingMessage,
    sub: Seq<HandlerError>,
    r: Result<(), HandlerError>,
)
    requires
        dispatch_ok(hs, pre, mid, message, sub),
        handler_step(h, message, mid, post, r),
    ensures
        dispatch_ok(
            hs.push(h),
            pre,
            post,
            message,
            match r {
                Ok(_) => sub,
                Err(e) => sub.push(e),
            },
        ),
{
    let hs2 = hs.push(h);
    assert(hs2.drop_last() =~= hs);
    assert(hs2.last() == h);
    let errs2 = match r {
        Ok(_) => sub,
        Err(e) => sub.push(e),
    };
    assert(handler_step(hs2.last(), message, mid, post, r));
    match r {
        Ok(_) => {
            assert(dispatch_ok(hs2.drop_last(), pre, mid, message, errs2));
        },
        Err(e) => {
            assert(errs2.last() == e);
            assert(errs2.drop_last() =~= sub);
            assert(dispatch_ok(hs2.drop_last(), pre, mid, message, errs2.drop_last()));
        },
    }
    assert(dispatch_ok(hs2, pre, post, message, errs2));
}

/// The dispatcher. It owns the ordered handler list — insertion order is
/// dispatch order, never reordered — and the context shared by every
/// handler.
pub struct Bot<C: ResponseCallbacks> {
    pub message_handlers: Vec<Handler>,
    pub context: Context<C>,
}

impl<C: ResponseCallbacks> Bot<C> {
    /// A dispatcher with no handlers, around the given callbacks, with an
    /// empty store and no channel queues.
    pub fn new(callbacks: C) -> (r: Self)
        ensures
            r.message_handlers@ =~= Seq::<Handler>::empty(),
            r.context.wf(),
            r.context.state() == (CoreState {
                log: callbacks.log(),
                store: crate::store::StoreView {
                    rows: Seq::<crate::store::History>::empty(),
                    config: Map::<u64, i32>::empty(),
                },
                queues: Map::<u64, crate::queue::QueueModel>::empty(),
            }),
    {
        let context = Context::new(callbacks);
        proof {
            assert(context.state().store.rows =~= Seq::<crate::store::History>::empty());
        }
        Bot { message_handlers: Vec::new(), context }
    }

    /// Appends a handler to the dispatch order. No deduplication and no
    /// validation: a handler registered twice is invoked twice.
    pub fn on_message(&mut self, handler: Handler)
        ensures
            final(self).message_handlers@ == old(self).message_handlers@.push(handler),
            final(self).context == old(self).context,
    {
        self.message_handlers.push(handler)
    }

    /// Handles one inbound event. Anything but a created message is a
    /// deliberate no-op. On a created message, every registered handler is
    /// invoked in registration order, sequentially; a failing handler's
    /// error is captured in the returned list — in order — and the chain
    /// goes on to the next handler.
    pub fn handle(&mut self, event: Event) -> (errors: Vec<HandlerError>)
        requires
            old(self).context.wf(),
        ensures
            final(self).message_handlers@ == old(self).message_handlers@,
            final(self).context.wf(),
            match event {
                Event::MessageCreate(incoming) => dispatch_ok(
                    old(self).message_handlers@,
                    old(self).context.state(),
                    final(self).context.state(),
                    incoming,
                    errors@,
                ),
                Event::Other => final(self).context.state() == old(self).context.state()
                    && errors@.len() == 0,
            },
    {
        let mut errors: Vec<HandlerError> = Vec::new();
        match event {
            Event::MessageCreate(incoming) => {
                let n = self.message_handlers.len();
                let mut i: usize = 0;
                proof {
                    assert(self.message_handlers@.take(0)
                        =~= Seq::<Handler>::empty());
                }
                while i < n
                    invariant
                        n == self.message_handlers@.len(),
                        self.message_handlers@ == old(self).message_handlers@,
                        i <= n,
                        self.context.wf(),
                        dispatch_ok(
                            self.message_handlers@.take(i as int),
                            old(self).context.state(),
                            self.context.state(),
                            incoming,
                            errors@,
                        ),
                    decreases n - i,
                {
                    let ghost mid = self.context.state();
                    let ghost sub = errors@;
                    let mut h = self.message_handlers[i];
                    let r = h.on_message(&incoming, &mut self.context);
                    let ghost rg = r;
                    if let Err(e) = r {
                        errors.push(e);
                    }
                    proof {
                        let hs = self.message_handlers@;
                        assert(handler_step(hs[i as int], incoming, mid, self.context.state(), rg));
                        lemma_dispatch_snoc(
                            hs.take(i as int),
                            hs[i as int],
                            old(self).context.state(),
                            mid,
                            self.context.state(),
                            incoming,
                            sub,
                            rg,
                        );
                        assert(hs.take(i as int).push(hs[i as int]) =~= hs.take(i as int + 1));
                        assert(errors@ == (match rg {
                            Ok(_) => sub,
                            Err(e) => sub.push(e),
                        }));
                    }
                    i = i + 1;
                }
                proof {
                    assert(self.message_handlers@.take(n as int) =~= self.message_handlers@);
                }
                errors
            },
            Event::Other => errors,
        }
    }
}

} // verus!
