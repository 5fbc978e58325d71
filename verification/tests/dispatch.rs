use petroleum::bot::{Bot, Handler};
use petroleum::callbacks::RecordingCallbacks;
use petroleum::handler::{
    CommandAdapter, Context, FnMessageHandler, HandlerError, MessageHandler,
};
use petroleum::history_window::HistoryWindow;
use petroleum::memory_window::{MemoryHistoryWindow, MemoryHistoryWindowConfigurator};
use petroleum::models::{Event, IncomingMessage, Message, User};
use petroleum::ping::ping;
use petroleum::store::History;

fn msg(channel_id: u64, content: &str) -> Message {
    Message {
        attachments: Vec::new(),
        author: User { id: 1, name: "user".to_string(), avatar: None },
        channel_id,
        content: content.to_string(),
        embeds: Vec::new(),
    }
}

#[test]
fn ping_replies_pong_to_the_probe_only() {
    let probe: IncomingMessage = (1, msg(2, "ping?"));
    let reply = ping(&probe).expect("the probe draws a reply");
    assert_eq!(reply.content, "pong!");
    assert_eq!(reply.channel_id, 2);
    assert!(ping(&(2, msg(2, "ping"))).is_none());
    assert!(ping(&(3, msg(2, " ping?"))).is_none());
}

#[test]
fn handlers_run_in_registration_order_even_when_one_fails() {
    let mut bot = Bot::new(RecordingCallbacks::new());
    // A: persisted window (will delete message 1); B: ping (its send will
    // fail); C: in-memory window (will delete message 2)
    bot.on_message(Handler::HistoryWindow(HistoryWindow));
    bot.on_message(Handler::Ping);
    bot.on_message(Handler::MemoryHistoryWindow(MemoryHistoryWindow));
    let channel = 5;
    bot.context.store.set_window_size(channel, 1);
    assert!(bot.context.store.insert_history(History { message_id: 1, channel_id: channel }).is_ok());
    bot.context.queues.install(channel, 1);
    assert_eq!(bot.context.queues.push_message(channel, 2), Some(None));
    bot.context.callbacks.fail_sends = true;

    let errors = bot.handle(Event::MessageCreate((10, msg(channel, "ping?"))));

    // B failed, but both A (before) and C (after) still took effect, in order
    assert_eq!(errors.len(), 1);
    assert!(matches!(errors[0], HandlerError::Callback(_)));
    assert_eq!(bot.context.callbacks.deleted, vec![(channel, 1), (channel, 2)]);
    assert_eq!(bot.context.callbacks.sent.len(), 1);
    assert_eq!(bot.context.callbacks.sent[0].content, "pong!");
}

#[test]
fn other_events_are_a_deliberate_no_op() {
    let mut bot = Bot::new(RecordingCallbacks::new());
    bot.on_message(Handler::Ping);
    let errors = bot.handle(Event::Other);
    assert!(errors.is_empty());
    assert!(bot.context.callbacks.sent.is_empty());
    assert!(bot.context.callbacks.deleted.is_empty());
}

#[test]
fn command_handler_ignores_other_and_case_different_commands() {
    let mut context = Context::new(RecordingCallbacks::new());
    let mut handler = CommandAdapter(MemoryHistoryWindowConfigurator);
    for content in ["bar enable 1", "Meslimit enable 1", "", "   "] {
        let r = handler.on_message(&(1, msg(2, content)), &mut context);
        assert!(r.is_ok());
    }
    // none of the calls reached the command body: nothing was ever sent
    assert!(context.callbacks.sent.is_empty());
}

#[test]
fn command_handler_runs_only_on_its_command_name() {
    let mut context = Context::new(RecordingCallbacks::new());
    let mut handler = CommandAdapter(MemoryHistoryWindowConfigurator);
    let r = handler.on_message(&(1, msg(2, "meslimit enable 1")), &mut context);
    assert!(r.is_ok());
    assert_eq!(context.callbacks.sent.len(), 1);
    assert_eq!(context.callbacks.sent[0].content, "有効化しました。");
}

#[test]
fn fn_message_handler_sends_the_reply_it_is_given() {
    let mut context = Context::new(RecordingCallbacks::new());
    let mut handler = FnMessageHandler(ping);
    assert!(handler.on_message(&(1, msg(4, "ping?")), &mut context).is_ok());
    assert!(handler.on_message(&(2, msg(4, "hello")), &mut context).is_ok());
    assert_eq!(context.callbacks.sent.len(), 1);
    assert_eq!(context.callbacks.sent[0].content, "pong!");
    assert_eq!(context.callbacks.sent[0].channel_id, 4);
}

#[test]
fn a_handler_registered_twice_runs_twice() {
    let mut bot = Bot::new(RecordingCallbacks::new());
    bot.on_message(Handler::Ping);
    bot.on_message(Handler::Ping);
    assert!(bot.handle(Event::MessageCreate((1, msg(2, "ping?")))).is_empty());
    assert_eq!(bot.context.callbacks.sent.len(), 2);
}
