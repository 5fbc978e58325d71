use petroleum::bot::{Bot, Handler};
use petroleum::callbacks::RecordingCallbacks;
use petroleum::models::{Attachment, Channel, Embed, Event, Message, User};
use petroleum::quote::{scan_links, Quote};

fn msg(channel_id: u64, content: &str) -> Message {
    Message {
        attachments: Vec::new(),
        author: User { id: 1, name: "user".to_string(), avatar: None },
        channel_id,
        content: content.to_string(),
        embeds: Vec::new(),
    }
}

#[test]
fn scan_links_finds_permalinks_in_both_spellings() {
    assert_eq!(
        scan_links("see https://discord.com/channels/1/22/333 there"),
        vec![(Some(22), Some(333))],
    );
    assert_eq!(
        scan_links("https://discordapp.com/channels/1/22/333"),
        vec![(Some(22), Some(333))],
    );
    assert_eq!(
        scan_links("a discord.com/channels/9/8/7 b discord.com/channels/6/5/4"),
        vec![(Some(8), Some(7)), (Some(5), Some(4))],
    );
}

#[test]
fn scan_links_ignores_malformed_patterns() {
    assert!(scan_links("no links here").is_empty());
    assert!(scan_links("discord.com/channels/1/2").is_empty());
    assert!(scan_links("discord.com/channels//2/3").is_empty());
    assert!(scan_links("discordx.com/channels/1/2/3").is_empty());
}

#[test]
fn scan_links_keeps_overflowing_ids_as_unparsed() {
    assert_eq!(
        scan_links("discord.com/channels/1/99999999999999999999/3"),
        vec![(None, Some(3))],
    );
}

#[test]
fn quote_builds_an_embed_from_the_fetched_message() {
    let mut bot = Bot::new(RecordingCallbacks::new());
    bot.on_message(Handler::Quote(Quote));
    bot.context.callbacks.channels.push(Channel { id: 22, name: "general".to_string() });
    let quoted = Message {
        attachments: vec![Attachment {
            filename: "photo.png".to_string(),
            url: "https://example.test/photo.png".to_string(),
        }],
        author: User { id: 77, name: "alice".to_string(), avatar: Some("abc".to_string()) },
        channel_id: 22,
        content: "the original words".to_string(),
        embeds: Vec::new(),
    };
    bot.context.callbacks.messages.push((22, 333, quoted));

    let content = "look at https://discord.com/channels/1/22/333";
    let errors = bot.handle(Event::MessageCreate((50, msg(9, content))));
    assert!(errors.is_empty());

    assert_eq!(bot.context.callbacks.sent.len(), 1);
    let reply = &bot.context.callbacks.sent[0];
    assert_eq!(reply.channel_id, 9);
    assert_eq!(reply.content, "");
    assert_eq!(reply.embeds.len(), 1);
    let embed = &reply.embeds[0];
    assert_eq!(embed.author_name.as_deref(), Some("alice"));
    assert_eq!(
        embed.avatar_url.as_deref(),
        Some("https://cdn.discordapp.com/avatars/77/abc.png"),
    );
    assert_eq!(embed.description.as_deref(), Some("the original words"));
    assert!(embed.footer.as_deref().unwrap().starts_with("#general - "));
    assert_eq!(embed.image.as_deref(), Some("https://example.test/photo.png"));
}

#[test]
fn quote_skips_spoiler_attachments_and_missing_avatars() {
    let mut bot = Bot::new(RecordingCallbacks::new());
    bot.on_message(Handler::Quote(Quote));
    bot.context.callbacks.channels.push(Channel { id: 2, name: "c".to_string() });
    let quoted = Message {
        attachments: vec![Attachment {
            filename: "SPOILER_photo.png".to_string(),
            url: "https://example.test/spoiler.png".to_string(),
        }],
        author: User { id: 8, name: "bob".to_string(), avatar: None },
        channel_id: 2,
        content: "hidden".to_string(),
        embeds: Vec::new(),
    };
    bot.context.callbacks.messages.push((2, 3, quoted));

    let errors = bot.handle(Event::MessageCreate((60, msg(9, "discord.com/channels/1/2/3"))));
    assert!(errors.is_empty());
    let embed = &bot.context.callbacks.sent[0].embeds[0];
    assert_eq!(embed.image, None);
    assert_eq!(
        embed.avatar_url.as_deref(),
        Some("https://cdn.discordapp.com/embed/avatars/0.png"),
    );
}

#[test]
fn quote_resends_the_quoted_messages_own_embeds() {
    let mut bot = Bot::new(RecordingCallbacks::new());
    bot.on_message(Handler::Quote(Quote));
    bot.context.callbacks.channels.push(Channel { id: 2, name: "c".to_string() });
    let own_embed = Embed {
        author_name: None,
        avatar_url: None,
        description: Some("carried along".to_string()),
        footer: None,
        image: None,
    };
    let mut quoted = msg(2, "with an embed");
    quoted.embeds = vec![own_embed];
    bot.context.callbacks.messages.push((2, 3, quoted));

    let errors = bot.handle(Event::MessageCreate((61, msg(9, "discord.com/channels/1/2/3"))));
    assert!(errors.is_empty());
    assert_eq!(bot.context.callbacks.sent.len(), 2);
    assert_eq!(bot.context.callbacks.sent[1].content, "embeds:");
    assert_eq!(bot.context.callbacks.sent[1].embeds.len(), 1);
    assert_eq!(
        bot.context.callbacks.sent[1].embeds[0].description.as_deref(),
        Some("carried along"),
    );
}

#[test]
fn quote_stays_silent_when_nothing_resolves() {
    let mut bot = Bot::new(RecordingCallbacks::new());
    bot.on_message(Handler::Quote(Quote));
    // no channels or messages preloaded: the fetches return nothing
    let errors = bot.handle(Event::MessageCreate((70, msg(9, "discord.com/channels/1/2/3"))));
    assert!(errors.is_empty());
    assert!(bot.context.callbacks.sent.is_empty());
}

#[test]
fn quote_keeps_the_quotes_that_did_resolve() {
    let mut bot = Bot::new(RecordingCallbacks::new());
    bot.on_message(Handler::Quote(Quote));
    bot.context.callbacks.channels.push(Channel { id: 2, name: "c".to_string() });
    bot.context.callbacks.messages.push((2, 3, msg(2, "resolved")));
    let content = "discord.com/channels/1/7/8 and discord.com/channels/1/2/3";
    let errors = bot.handle(Event::MessageCreate((71, msg(9, content))));
    assert!(errors.is_empty());
    assert_eq!(bot.context.callbacks.sent.len(), 1);
    assert_eq!(bot.context.callbacks.sent[0].embeds.len(), 1);
    assert_eq!(
        bot.context.callbacks.sent[0].embeds[0].description.as_deref(),
        Some("resolved"),
    );
}
