use petroleum::bot::{Bot, Handler};
use petroleum::callbacks::RecordingCallbacks;
use petroleum::handler::HandlerError;
use petroleum::history_window::{HistoryWindow, HistoryWindowConfigurator};
use petroleum::memory_window::{MemoryHistoryWindow, MemoryHistoryWindowConfigurator};
use petroleum::models::{Event, Message, User};
use petroleum::queue::LimitedQueue;
use petroleum::store::{History, StoreError};

fn msg(channel_id: u64, content: &str) -> Message {
    Message {
        attachments: Vec::new(),
        author: User { id: 1, name: "user".to_string(), avatar: None },
        channel_id,
        content: content.to_string(),
        embeds: Vec::new(),
    }
}

#[test]
fn limited_queue_evicts_in_fifo_order() {
    let mut q: LimitedQueue<u64> = LimitedQueue::new(2);
    assert_eq!(q.push(1), None);
    assert_eq!(q.push(2), None);
    assert_eq!(q.push(3), Some(1));
    assert_eq!(q.push(4), Some(2));
    assert_eq!(q.push(5), Some(3));
}

#[test]
fn limited_queue_of_capacity_one_always_evicts_after_first() {
    let mut q: LimitedQueue<u64> = LimitedQueue::new(1);
    assert_eq!(q.push(7), None);
    assert_eq!(q.push(8), Some(7));
    assert_eq!(q.push(9), Some(8));
}

#[test]
fn persisted_window_prunes_beyond_window_size() {
    let mut bot = Bot::new(RecordingCallbacks::new());
    bot.on_message(Handler::HistoryWindow(HistoryWindow));
    let channel = 42;
    bot.context.store.set_window_size(channel, 2);
    for (id, text) in [(1, "a"), (2, "b"), (3, "c"), (4, "d")] {
        let errors = bot.handle(Event::MessageCreate((id, msg(channel, text))));
        assert!(errors.is_empty());
    }
    // exactly messages 1 and 2 were deleted, in order, via the callback
    assert_eq!(bot.context.callbacks.deleted, vec![(channel, 1), (channel, 2)]);
    // and only 3 and 4 remain in the store for that channel, newest first
    let remaining: Vec<u64> = bot
        .context
        .store
        .channel_history_desc(channel, 0)
        .iter()
        .map(|row| row.message_id)
        .collect();
    assert_eq!(remaining, vec![4, 3]);
}

#[test]
fn persisted_window_ignores_unconfigured_channels() {
    let mut bot = Bot::new(RecordingCallbacks::new());
    bot.on_message(Handler::HistoryWindow(HistoryWindow));
    let errors = bot.handle(Event::MessageCreate((1, msg(9, "hello"))));
    assert!(errors.is_empty());
    assert!(bot.context.callbacks.deleted.is_empty());
    assert!(bot.context.store.channel_history_desc(9, 0).is_empty());
}

#[test]
fn persisted_window_propagates_a_duplicate_message_id() {
    let mut bot = Bot::new(RecordingCallbacks::new());
    bot.on_message(Handler::HistoryWindow(HistoryWindow));
    bot.context.store.set_window_size(9, 5);
    assert!(bot.handle(Event::MessageCreate((1, msg(9, "a")))).is_empty());
    let errors = bot.handle(Event::MessageCreate((1, msg(9, "b"))));
    assert_eq!(errors.len(), 1);
    assert!(matches!(errors[0], HandlerError::Store(StoreError::DuplicateMessageId)));
}

#[test]
fn meslimit_enable_validates_its_size_argument() {
    let mut bot = Bot::new(RecordingCallbacks::new());
    bot.on_message(Handler::HistoryWindowConfigurator(HistoryWindowConfigurator));
    let cases = [
        ("meslimit enable 10000", "有効化しました。"),
        ("meslimit enable 10001", "1以上10000以下の範囲で指定してください。"),
        ("meslimit enable 0", "1以上10000以下の範囲で指定してください。"),
        ("meslimit enable ten", "不正なパラメータです。"),
        ("meslimit enable", "不正なコマンドです。"),
        ("meslimit enable 1 2", "不正なコマンドです。"),
        ("meslimit disable", "無効化しました。"),
    ];
    for (i, (content, reply)) in cases.iter().enumerate() {
        let errors = bot.handle(Event::MessageCreate((i as u64 + 1, msg(5, content))));
        assert!(errors.is_empty());
        assert_eq!(bot.context.callbacks.sent[i].content, *reply);
        assert_eq!(bot.context.callbacks.sent[i].channel_id, 5);
    }
}

#[test]
fn meslimit_disable_stops_pruning_but_keeps_history() {
    let mut bot = Bot::new(RecordingCallbacks::new());
    bot.on_message(Handler::HistoryWindowConfigurator(HistoryWindowConfigurator));
    let channel = 7;
    assert!(bot.handle(Event::MessageCreate((10, msg(channel, "meslimit enable 1")))).is_empty());
    // a row recorded while windowing was enabled
    assert!(bot.context.store.insert_history(History { message_id: 11, channel_id: channel }).is_ok());
    assert!(bot.handle(Event::MessageCreate((12, msg(channel, "meslimit disable")))).is_empty());
    // the configuration row is gone, but the history rows are left orphaned
    assert_eq!(bot.context.store.window_size(channel), None);
    let remaining: Vec<u64> = bot
        .context
        .store
        .channel_history_desc(channel, 0)
        .iter()
        .map(|row| row.message_id)
        .collect();
    assert_eq!(remaining, vec![11]);
    // and the reactive half no longer records or prunes for the channel
    bot.on_message(Handler::HistoryWindow(HistoryWindow));
    assert!(bot.handle(Event::MessageCreate((13, msg(channel, "b")))).is_empty());
    assert_eq!(bot.context.store.channel_history_desc(channel, 0).len(), 1);
    assert!(bot.context.callbacks.deleted.is_empty());
}

#[test]
fn memory_window_evicts_the_oldest_message() {
    let mut bot = Bot::new(RecordingCallbacks::new());
    // the reactive half runs first, so the enabling command itself is not
    // yet tracked
    bot.on_message(Handler::MemoryHistoryWindow(MemoryHistoryWindow));
    bot.on_message(Handler::MemoryHistoryWindowConfigurator(MemoryHistoryWindowConfigurator));
    let channel = 3;
    assert!(bot.handle(Event::MessageCreate((50, msg(channel, "meslimit enable 2")))).is_empty());
    assert_eq!(bot.context.callbacks.sent[0].content, "有効化しました。");
    for id in [1, 2, 3, 4] {
        assert!(bot.handle(Event::MessageCreate((id, msg(channel, "x")))).is_empty());
    }
    assert_eq!(bot.context.callbacks.deleted, vec![(channel, 1), (channel, 2)]);
}

#[test]
fn memory_window_reinstall_forgets_prior_state() {
    let mut bot = Bot::new(RecordingCallbacks::new());
    bot.on_message(Handler::MemoryHistoryWindow(MemoryHistoryWindow));
    let channel = 3;
    bot.context.queues.install(channel, 1);
    assert!(bot.handle(Event::MessageCreate((1, msg(channel, "x")))).is_empty());
    // reinstalling replaces the queue outright: the stored id is forgotten
    bot.context.queues.install(channel, 1);
    assert!(bot.handle(Event::MessageCreate((2, msg(channel, "y")))).is_empty());
    assert!(bot.context.callbacks.deleted.is_empty());
    assert!(bot.handle(Event::MessageCreate((3, msg(channel, "z")))).is_empty());
    assert_eq!(bot.context.callbacks.deleted, vec![(channel, 2)]);
}

#[test]
fn memory_configurator_rejects_bad_sizes() {
    let mut bot = Bot::new(RecordingCallbacks::new());
    bot.on_message(Handler::MemoryHistoryWindowConfigurator(MemoryHistoryWindowConfigurator));
    for (i, content) in ["meslimit enable 0", "meslimit enable ten", "meslimit disable"]
        .iter()
        .enumerate()
    {
        assert!(bot.handle(Event::MessageCreate((i as u64 + 1, msg(2, content)))).is_empty());
        assert_eq!(bot.context.callbacks.sent[i].content, "不正なコマンドです。");
    }
}

#[test]
fn history_row_fields_round_trip() {
    let row = History { message_id: 8, channel_id: 4 };
    assert_eq!(row.message_id, 8);
    assert_eq!(row.channel_id, 4);
}
