//! Value types for messages and their metadata, produced by translating
//! platform-native events, together with their mathematical views.

use vstd::prelude::*;

verus! {

/// Mathematical view of a [`User`].
#[verifier::ext_equal]
pub ghost struct UserView {
    pub id: u64,
    pub name: Seq<char>,
    pub avatar: Option<Seq<char>>,
}

/// Mathematical view of an [`Attachment`].
#[verifier::ext_equal]
pub ghost struct AttachmentView {
    pub filename: Seq<char>,
    pub url: Seq<char>,
}

/// Mathematical view of a [`Channel`].
#[verifier::ext_equal]
pub ghost struct ChannelView {
    pub id: u64,
    pub name: Seq<char>,
}

/// Mathematical view of an [`Embed`].
#[verifier::ext_equal]
pub ghost struct EmbedView {
    pub author_name: Option<Seq<char>>,
    pub avatar_url: Option<Seq<char>>,
    pub description: Option<Seq<char>>,
    pub footer: Option<Seq<char>>,
    pub image: Option<Seq<char>>,
}

/// Mathematical view of a [`Message`].
#[verifier::ext_equal]
pub ghost struct MessageView {
    pub attachments: Seq<AttachmentView>,
    pub author: UserView,
    pub channel_id: u64,
    pub content: Seq<char>,
    pub embeds: Seq<EmbedView>,
}

/// View of an optional piece of text.
pub open spec fn opt_text_view(o: Option<String>) -> Option<Seq<char>> {
    match o {
        Some(s) => Some(s@),
        None => None,
    }
}

/// View of a sequence of attachments.
pub open spec fn attachments_view(s: Seq<Attachment>) -> Seq<AttachmentView> {
    s.map(|i: int, a: Attachment| a@)
}

/// View of a sequence of embeds.
pub open spec fn embeds_view(s: Seq<Embed>) -> Seq<EmbedView> {
    s.map(|i: int, e: Embed| e@)
}

/// The author of a message.
pub struct User {
    pub id: u64,
    pub name: String,
    pub avatar: Option<String>,
}

impl View for User {
    type V = UserView;

    open spec fn view(&self) -> UserView {
        UserView { id: self.id, name: self.name@, avatar: opt_text_view(self.avatar) }
    }
}

impl Clone for User {
    fn clone(&self) -> (res: Self)
        ensures
            res@ == self@,
    {
        User { id: self.id, name: self.name.clone(), avatar: clone_opt_string(&self.avatar) }
    }
}

/// A file attached to a message.
pub struct Attachment {
    pub filename: String,
    pub url: String,
}

impl View for Attachment {
    type V = AttachmentView;

    open spec fn view(&self) -> AttachmentView {
        AttachmentView { filename: self.filename@, url: self.url@ }
    }
}

impl Clone for Attachment {
    fn clone(&self) -> (res: Self)
        ensures
            res@ == self@,
    {
        Attachment { filename: self.filename.clone(), url: self.url.clone() }
    }
}

/// Read-only metadata of a channel, fetched on demand.
pub struct Channel {
    pub id: u64,
    pub name: String,
}

impl View for Channel {
    type V = ChannelView;

    open spec fn view(&self) -> ChannelView {
        ChannelView { id: self.id, name: self.name@ }
    }
}

impl Clone for Channel {
    fn clone(&self) -> (res: Self)
        ensures
            res@ == self@,
    {
        Channel { id: self.id, name: self.name.clone() }
    }
}

/// A display-only composite attached to a message; every field is optional.
pub struct Embed {
    pub author_name: Option<String>,
    pub avatar_url: Option<String>,
    pub description: Option<String>,
    pub footer: Option<String>,
    pub image: Option<String>,
}

impl View for Embed {
    type V = EmbedView;

    open spec fn view(&self) -> EmbedView {
        EmbedView {
            author_name: opt_text_view(self.author_name),
            avatar_url: opt_text_view(self.avatar_url),
            description: opt_text_view(self.description),
            footer: opt_text_view(self.footer),
            image: opt_text_view(self.image),
        }
    }
}

impl Clone for Embed {
    fn clone(&self) -> (res: Self)
        ensures
            res@ == self@,
    {
        Embed {
            author_name: clone_opt_string(&self.author_name),
            avatar_url: clone_opt_string(&self.avatar_url),
            description: clone_opt_string(&self.description),
            footer: clone_opt_string(&self.footer),
            image: clone_opt_string(&self.image),
        }
    }
}

impl Default for Embed {
    fn default() -> (res: Self)
        ensures
            res@.author_name is None,
            res@.avatar_url is None,
            res@.description is None,
            res@.footer is None,
            res@.image is None,
    {
        Embed { author_name: None, avatar_url: None, description: None, footer: None, image: None }
    }
}

impl Embed {
    /// An embed with every field absent.
    pub fn new() -> (res: Self)
        ensures
            res@.author_name is None,
            res@.avatar_url is None,
            res@.description is None,
            res@.footer is None,
            res@.image is None,
    {
        Embed::default()
    }

    /// Replaces the author name, keeping every other field.
    pub fn author_name(self, author_name: String) -> (res: Self)
        ensures
            res@ == (EmbedView { author_name: Some(author_name@), ..self@ }),
    {
        Embed { author_name: Some(author_name), ..self }
    }

    /// Replaces the avatar reference, keeping every other field.
    pub fn avatar_url(self, avatar_url: String) -> (res: Self)
        ensures
            res@ == (EmbedView { avatar_url: Some(avatar_url@), ..self@ }),
    {
        Embed { avatar_url: Some(avatar_url), ..self }
    }

    /// Replaces the description, keeping every other field.
    pub fn description(self, description: String) -> (res: Self)
        ensures
            res@ == (EmbedView { description: Some(description@), ..self@ }),
    {
        Embed { description: Some(description), ..self }
    }

    /// Replaces the footer, keeping every other field.
    pub fn footer(self, footer: String) -> (res: Self)
        ensures
            res@ == (EmbedView { footer: Some(footer@), ..self@ }),
    {
        Embed { footer: Some(footer), ..self }
    }

    /// Replaces the image reference, keeping every other field.
    pub fn image(self, image: String) -> (res: Self)
        ensures
            res@ == (EmbedView { image: Some(image@), ..self@ }),
    {
        Embed { image: Some(image), ..self }
    }
}

/// A chat message, immutable by convention.
pub struct Message {
    pub attachments: Vec<Attachment>,
    pub author: User,
    pub channel_id: u64,
    pub content: String,
    pub embeds: Vec<Embed>,
}

impl View for Message {
    type V = MessageView;

    open spec fn view(&self) -> MessageView {
        MessageView {
            attachments: attachments_view(self.attachments@),
            author: self.author@,
            channel_id: self.channel_id,
            content: self.content@,
            embeds: embeds_view(self.embeds@),
        }
    }
}

impl Clone for Message {
    fn clone(&self) -> (res: Self)
        ensures
            res@ == self@,
    {
        let res = Message {
            attachments: clone_attachments(&self.attachments),
            author: self.author.clone(),
            channel_id: self.channel_id,
            content: self.content.clone(),
            embeds: clone_embeds(&self.embeds),
        };
        proof {
            assert(res@.attachments =~= self@.attachments);
            assert(res@.embeds =~= self@.embeds);
        }
        res
    }
}

impl Message {
    /// A copy of this message with only the content replaced: an outbound
    /// reply keeps the channel, author, attachments and embeds of the
    /// original.
    pub fn reply(&self, content: &str) -> (res: Self)
        ensures
            res@ == (MessageView { content: content@, ..self@ }),
    {
        let res = Message {
            attachments: clone_attachments(&self.attachments),
            author: self.author.clone(),
            channel_id: self.channel_id,
            content: content.to_owned(),
            embeds: clone_embeds(&self.embeds),
        };
        proof {
            assert(res@.attachments =~= self@.attachments);
            assert(res@.embeds =~= self@.embeds);
        }
        res
    }

    /// This message with its embeds replaced.
    pub fn set_embeds(self, embeds: Vec<Embed>) -> (res: Self)
        ensures
            res@ == (MessageView { embeds: embeds_view(embeds@), ..self@ }),
    {
        Message { embeds, ..self }
    }
}

/// An inbound message paired with its platform-wide unique identifier,
/// required to delete or reference the exact message later.
pub type IncomingMessage = (u64, Message);

/// An inbound platform event. Only message creation is meaningful to the
/// dispatcher; every other event kind is carried as [`Event::Other`].
pub enum Event {
    MessageCreate(IncomingMessage),
    Other,
}

fn clone_opt_string(o: &Option<String>) -> (res: Option<String>)
    ensures
        opt_text_view(res) == opt_text_view(*o),
{
    match o {
        Some(s) => Some(s.clone()),
        None => None,
    }
}

fn clone_attachments(v: &Vec<Attachment>) -> (res: Vec<Attachment>)
    ensures
        res@.len() == v@.len(),
        forall|i: int| 0 <= i < v@.len() ==> #[trigger] res@[i]@ == v@[i]@,
{
    let mut res: Vec<Attachment> = Vec::new();
    let mut i: usize = 0;
    while i < v.len()
        invariant
            i <= v@.len(),
            res@.len() == i,
            forall|j: int| 0 <= j < i ==> #[trigger] res@[j]@ == v@[j]@,
        decreases v@.len() - i,
    {
        res.push(v[i].clone());
        i = i + 1;
    }
    res
}

fn clone_embeds(v: &Vec<Embed>) -> (res: Vec<Embed>)
    ensures
        res@.len() == v@.len(),
        forall|i: int| 0 <= i < v@.len() ==> #[trigger] res@[i]@ == v@[i]@,
{
    let mut res: Vec<Embed> = Vec::new();
    let mut i: usize = 0;
    while i < v.len()
        invariant
            i <= v@.len(),
            res@.len() == i,
            forall|j: int| 0 <= j < i ==> #[trigger] res@[j]@ == v@[j]@,
        decreases v@.len() - i,
    {
        res.push(v[i].clone());
        i = i + 1;
    }
    res
}

} // verus!
