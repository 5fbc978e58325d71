use petroleum::models::{Attachment, Embed, Message, User};

fn sample() -> Message {
    Message {
        attachments: vec![Attachment {
            filename: "f.txt".to_string(),
            url: "https://example.test/f.txt".to_string(),
        }],
        author: User { id: 5, name: "alice".to_string(), avatar: Some("av".to_string()) },
        channel_id: 77,
        content: "original".to_string(),
        embeds: vec![Embed {
            author_name: Some("bob".to_string()),
            avatar_url: None,
            description: Some("d".to_string()),
            footer: None,
            image: None,
        }],
    }
}

#[test]
fn reply_replaces_only_the_content() {
    let original = sample();
    let reply = original.reply("x");
    assert_eq!(reply.content, "x");
    assert_eq!(reply.channel_id, original.channel_id);
    assert_eq!(reply.embeds.len(), 1);
    assert_eq!(reply.embeds[0].author_name.as_deref(), Some("bob"));
    assert_eq!(reply.embeds[0].description.as_deref(), Some("d"));
    assert_eq!(reply.attachments.len(), 1);
    assert_eq!(reply.attachments[0].filename, "f.txt");
    assert_eq!(reply.author.id, 5);
    assert_eq!(reply.author.name, "alice");
    // the original is untouched
    assert_eq!(original.content, "original");
}

#[test]
fn set_embeds_replaces_the_embeds() {
    let replaced = sample().set_embeds(Vec::new());
    assert!(replaced.embeds.is_empty());
    assert_eq!(replaced.content, "original");
    assert_eq!(replaced.channel_id, 77);
}

#[test]
fn embed_builder_sets_each_field() {
    let embed = Embed::new()
        .author_name("a".to_string())
        .avatar_url("b".to_string())
        .description("c".to_string())
        .footer("d".to_string())
        .image("e".to_string());
    assert_eq!(embed.author_name.as_deref(), Some("a"));
    assert_eq!(embed.avatar_url.as_deref(), Some("b"));
    assert_eq!(embed.description.as_deref(), Some("c"));
    assert_eq!(embed.footer.as_deref(), Some("d"));
    assert_eq!(embed.image.as_deref(), Some("e"));
}

#[test]
fn a_new_embed_is_empty() {
    let embed = Embed::new();
    assert_eq!(embed.author_name, None);
    assert_eq!(embed.avatar_url, None);
    assert_eq!(embed.description, None);
    assert_eq!(embed.footer, None);
    assert_eq!(embed.image, None);
}
