//! The quoting handler: message text is scanned for message-permalink
//! patterns; each is resolved to a channel and a message through the
//! callback capability and summarized as a display embed.

use vstd::prelude::*;
use vstd::string::*;
use crate::handler::{
    Action, Context, CoreState, HandlerError, MessageHandler, ResponseCallbacks,
};
use crate::models::{
    embeds_view, Channel, ChannelView, Embed, EmbedView, IncomingMessage, Message, MessageView,
};
use crate::text::{
    dec_digits, has_prefix, is_digit_char, parse_u64, spec_parse_u64, u64_to_string,
};

verus! {

/// Whether the literal `lit` stands at position `i` of `s`.
pub open spec fn lit_at(s: Seq<char>, i: int, lit: Seq<char>) -> bool {
    &&& 0 <= i
    &&& i + lit.len() <= s.len()
    &&& s.subrange(i, i + lit.len()) == lit
}

/// The index of the first non-digit at or after `i`, or the end of `s`.
pub open spec fn digits_end(s: Seq<char>, i: int) -> int
    decreases s.len() - i when 0 <= i <= s.len()
{
    if i >= s.len() {
        i
    } else if is_digit_char(s[i]) {
        digits_end(s, i + 1)
    } else {
        i
    }
}

proof fn lemma_digits_end(s: Seq<char>, i: int)
    requires
        0 <= i <= s.len(),
    ensures
        i <= digits_end(s, i) <= s.len(),
        forall|j: int| i <= j < digits_end(s, i) ==> is_digit_char(s[j]),
        digits_end(s, i) < s.len() ==> !is_digit_char(s[digits_end(s, i)]),
    decreases s.len() - i,
{
    if i < s.len() && is_digit_char(s[i]) {
        lemma_digits_end(s, i + 1);
    }
}

/// Where the fixed permalink head ending in `channels/` at position `i`
/// ends, if it stands there. The host may carry the older `discordapp`
/// spelling or the plain `discord` one.
pub open spec fn permalink_head_end(s: Seq<char>, i: int) -> Option<int> {
    if lit_at(s, i, "discordapp.com/channels/"@) {
        Some(i + "discordapp.com/channels/"@.len())
    } else if lit_at(s, i, "discord.com/channels/"@) {
        Some(i + "discord.com/channels/"@.len())
    } else {
        None
    }
}

/// A message permalink at position `i` of `s`: the head, then three
/// non-empty digit runs separated by slashes — guild, channel and message.
/// Yields the end of the match, the channel digits and the message digits.
pub open spec fn link_at(s: Seq<char>, i: int) -> Option<(int, Seq<char>, Seq<char>)> {
    match permalink_head_end(s, i) {
        None => None,
        Some(p) => {
            let d1 = digits_end(s, p);
            if d1 > p && d1 < s.len() && s[d1] == '/' {
                let d2 = digits_end(s, d1 + 1);
                if d2 > d1 + 1 && d2 < s.len() && s[d2] == '/' {
                    let d3 = digits_end(s, d2 + 1);
                    if d3 > d2 + 1 {
                        Some((d3, s.subrange(d1 + 1, d2), s.subrange(d2 + 1, d3)))
                    } else {
                        None
                    }
                } else {
                    None
                }
            } else {
                None
            }
        },
    }
}

proof fn lemma_link_at_bounds(s: Seq<char>, i: int)
    requires
        0 <= i <= s.len(),
        link_at(s, i) is Some,
    ensures
        i < link_at(s, i).unwrap().0 <= s.len(),
{
    reveal_strlit("discordapp.com/channels/");
    reveal_strlit("discord.com/channels/");
    let p = permalink_head_end(s, i).unwrap();
    lemma_digits_end(s, p);
    let d1 = digits_end(s, p);
    lemma_digits_end(s, d1 + 1);
    let d2 = digits_end(s, d1 + 1);
    lemma_digits_end(s, d2 + 1);
}

/// The channel and message identifiers of every permalink of `s` at or
/// after `i`, scanned left to right without overlap, each digit run parsed
/// as an unsigned 64-bit number or nothing on overflow.
pub open spec fn links_from(s: Seq<char>, i: int) -> Seq<(Option<u64>, Option<u64>)>
    decreases s.len() - i when 0 <= i <= s.len() via links_from_decreases
{
    if i >= s.len() {
        Seq::empty()
    } else {
        match link_at(s, i) {
            Some(m) => seq![(spec_parse_u64(m.1), spec_parse_u64(m.2))] + links_from(s, m.0),
            None => links_from(s, i + 1),
        }
    }
}

#[via_fn]
proof fn links_from_decreases(s: Seq<char>, i: int) {
    if 0 <= i < s.len() && link_at(s, i) is Some {
        lemma_link_at_bounds(s, i);
    }
}

/// The permalinks of `s`, scanned from the start.
pub open spec fn links_of(s: Seq<char>) -> Seq<(Option<u64>, Option<u64>)> {
    links_from(s, 0)
}

fn lit_matches_at(s: &str, i: usize, lit: &str) -> (r: bool)
    requires
        i <= s@.len(),
    ensures
        r == lit_at(s@, i as int, lit@),
{
    let n = s.unicode_len();
    let m = lit.unicode_len();
    if m > n - i {
        return false;
    }
    let mut j: usize = 0;
    while j < m
        invariant
            n == s@.len(),
            m == lit@.len(),
            i + m <= n,
            j <= m,
            forall|k: int| 0 <= k < j ==> s@[i + k] == lit@[k],
        decreases m - j,
    {
        if s.get_char(i + j) != lit.get_char(j) {
            proof {
                assert(s@.subrange(i as int, i + lit@.len())[j as int] == s@[i + j]);
            }
            return false;
        }
        j = j + 1;
    }
    proof {
        assert(s@.subrange(i as int, i + lit@.len()) =~= lit@);
    }
    true
}

fn is_digit(c: char) -> (r: bool)
    ensures
        r == is_digit_char(c),
{
    let cv = c as u32;
    48 <= cv && cv <= 57
}

fn digits_end_exec(s: &str, i: usize) -> (r: usize)
    requires
        i <= s@.len(),
    ensures
        r == digits_end(s@, i as int),
        i <= r <= s@.len(),
{
    let n = s.unicode_len();
    let mut j: usize = i;
    while j < n && is_digit(s.get_char(j))
        invariant
            n == s@.len(),
            i <= j <= n,
            digits_end(s@, i as int) == digits_end(s@, j as int),
        decreases n - j,
    {
        j = j + 1;
    }
    proof {
        lemma_digits_end(s@, j as int);
    }
    j
}

fn try_link_at(s: &str, i: usize) -> (r: Option<(usize, Option<u64>, Option<u64>)>)
    requires
        i < s@.len(),
    ensures
        match r {
            None => link_at(s@, i as int) is None,
            Some(t) => link_at(s@, i as int) matches Some(m) && m.0 == t.0 && i < t.0 <= s@.len()
                && t.1 == spec_parse_u64(m.1) && t.2 == spec_parse_u64(m.2),
        },
{
    proof {
        reveal_strlit("discordapp.com/channels/");
        reveal_strlit("discord.com/channels/");
    }
    let n = s.unicode_len();
    let p: usize = if lit_matches_at(s, i, "discordapp.com/channels/") {
        i + 24
    } else if lit_matches_at(s, i, "discord.com/channels/") {
        i + 21
    } else {
        return None;
    };
    let d1 = digits_end_exec(s, p);
    if !(d1 > p && d1 < n && s.get_char(d1) == '/') {
        return None;
    }
    let d2 = digits_end_exec(s, d1 + 1);
    if !(d2 > d1 + 1 && d2 < n && s.get_char(d2) == '/') {
        return None;
    }
    let d3 = digits_end_exec(s, d2 + 1);
    if !(d3 > d2 + 1) {
        return None;
    }
    let channel_digits = s.substring_char(d1 + 1, d2);
    let message_digits = s.substring_char(d2 + 1, d3);
    let cid = parse_u64(channel_digits);
    let mid = parse_u64(message_digits);
    Some((d3, cid, mid))
}

/// Scans message text for permalinks, left to right without overlap, and
/// parses each link's channel and message identifiers.
pub fn scan_links(s: &str) -> (r: Vec<(Option<u64>, Option<u64>)>)
    ensures
        r@ == links_of(s@),
{
    let n = s.unicode_len();
    let mut r: Vec<(Option<u64>, Option<u64>)> = Vec::new();
    let mut i: usize = 0;
    while i < n
        invariant
            n == s@.len(),
            i <= n,
            links_of(s@) == r@ + links_from(s@, i as int),
        decreases n - i,
    {
        match try_link_at(s, i) {
            Some(t) => {
                r.push((t.1, t.2));
                proof {
                    assert(links_of(s@) =~= r@ + links_from(s@, t.0 as int));
                }
                i = t.0;
            },
            None => {
                i = i + 1;
            },
        }
    }
    proof {
        assert(links_of(s@) =~= r@);
    }
    r
}

/// Relies on chrono's local clock reading and date-time formatting for the
/// quote footer timestamp. The result depends on the clock, so nothing is
/// promised of it.
#[verifier::external_body]
fn local_now_string() -> String {
    chrono::Local::now().format("%Y/%m/%d %H:%M:%D").to_string()
}

/// The avatar reference shown for a quoted author who has one.
pub open spec fn avatar_url_of(id: u64, avatar: Seq<char>) -> Seq<char> {
    "https://cdn.discordapp.com/avatars/"@ + dec_digits(id as nat) + "/"@ + avatar + ".png"@
}

/// The avatar reference shown for a quoted author without one.
pub open spec fn default_avatar_url() -> Seq<char> {
    "https://cdn.discordapp.com/embed/avatars/0.png"@
}

/// The footer of a quote embed: the originating channel and a timestamp.
pub open spec fn quote_footer(channel_name: Seq<char>, now: Seq<char>) -> Seq<char> {
    "#"@ + channel_name + " - "@ + now
}

/// The display embed summarizing a quoted message: author and avatar, the
/// quoted content, the originating channel with a timestamp, and the first
/// attachment as image unless its name marks it as a spoiler.
pub open spec fn quote_embed_of(channel: ChannelView, message: MessageView, now: Seq<char>) -> EmbedView {
    EmbedView {
        author_name: Some(message.author.name),
        avatar_url: Some(
            match message.author.avatar {
                Some(av) => avatar_url_of(message.author.id, av),
                None => default_avatar_url(),
            },
        ),
        description: Some(message.content),
        footer: Some(quote_footer(channel.name, now)),
        image: if message.attachments.len() > 0 && !"SPOILER_"@.is_prefix_of(
            message.attachments[0].filename,
        ) {
            Some(message.attachments[0].url)
        } else {
            None
        },
    }
}

fn build_quote_embed(channel: &Channel, message: &Message, now: String) -> (e: Embed)
    ensures
        e@ == quote_embed_of(channel@, message@, now@),
{
    let avatar_url: String = match &message.author.avatar {
        Some(av) => {
            let mut u = String::from_str("https://cdn.discordapp.com/avatars/");
            let digits = u64_to_string(message.author.id);
            u.append(digits.as_str());
            u.append("/");
            u.append(av.as_str());
            u.append(".png");
            u
        },
        None => String::from_str("https://cdn.discordapp.com/embed/avatars/0.png"),
    };
    let mut footer = String::from_str("#");
    footer.append(channel.name.as_str());
    footer.append(" - ");
    footer.append(now.as_str());
    let mut e = Embed::new()
        .author_name(message.author.name.clone())
        .avatar_url(avatar_url)
        .description(message.content.clone())
        .footer(footer);
    if message.attachments.len() > 0 {
        if !has_prefix(message.attachments[0].filename.as_str(), "SPOILER_") {
            e = e.image(message.attachments[0].url.clone());
        }
    }
    e
}

/// The view of what one resolved permalink yields: the quote embed and the
/// quoted message's own embeds.
pub open spec fn quote_res_view(res: Option<(Embed, Vec<Embed>)>) -> Option<
    (EmbedView, Seq<EmbedView>),
> {
    match res {
        None => None,
        Some(p) => Some((p.0@, embeds_view(p.1@))),
    }
}

/// The fetch trace and outcome of resolving one permalink. A missing
/// channel identifier resolves to nothing without a fetch. Otherwise the
/// channel is fetched; with the channel unresolved or the message
/// identifier missing nothing more happens; otherwise the message is
/// fetched, and when it resolves the quote embed summarizes some fetched
/// channel and message at some timestamp, alongside that message's own
/// embeds.
pub open spec fn quote_link_spec(
    cid: Option<u64>,
    mid: Option<u64>,
    pre_log: Seq<Action>,
    post_log: Seq<Action>,
    res: Option<(EmbedView, Seq<EmbedView>)>,
) -> bool {
    match cid {
        None => post_log == pre_log && res is None,
        Some(c) => {
            let l1 = pre_log.push(Action::FetchChannel { channel_id: c });
            match mid {
                None => post_log == l1 && res is None,
                Some(m_id) => {
                    ||| (post_log == l1 && res is None)
                    ||| ({
                        let l2 = l1.push(
                            Action::FetchMessage { channel_id: c, message_id: m_id },
                        );
                        &&& post_log == l2
                        &&& match res {
                            None => true,
                            Some(pair) => exists|ch: ChannelView, mv: MessageView, now: Seq<char>|
                                pair.0 == quote_embed_of(ch, mv, now) && pair.1 == mv.embeds,
                        }
                    })
                },
            }
        },
    }
}

/// Resolves one permalink to a quote embed and the quoted message's own
/// embeds, through the callback fetches; an unresolvable link yields
/// nothing.
fn message_to_quote<C: ResponseCallbacks>(
    context: &mut Context<C>,
    channel_id: Option<u64>,
    message_id: Option<u64>,
) -> (res: Option<(Embed, Vec<Embed>)>)
    requires
        old(context).wf(),
    ensures
        final(context).wf(),
        final(context).state().store == old(context).state().store,
        final(context).state().queues == old(context).state().queues,
        quote_link_spec(
            channel_id,
            message_id,
            old(context).state().log,
            final(context).state().log,
            quote_res_view(res),
        ),
{
    let c = match channel_id {
        None => {
            return None;
        },
        Some(c) => c,
    };
    let channel = match context.callbacks.fetch_channel(c) {
        None => {
            return None;
        },
        Some(ch) => ch,
    };
    let m_id = match message_id {
        None => {
            return None;
        },
        Some(m) => m,
    };
    let msg = match context.callbacks.fetch_message(c, m_id) {
        None => {
            return None;
        },
        Some(m) => m,
    };
    let now = local_now_string();
    let ghost nowv = now@;
    let embed = build_quote_embed(&channel, &msg, now);
    let res = Some((embed, msg.embeds));
    proof {
        assert(quote_res_view(res) == Some((embed@, embeds_view(msg.embeds@))));
        assert(embed@ == quote_embed_of(channel@, msg@, nowv));
        assert(embeds_view(msg.embeds@) == msg@.embeds);
    }
    res
}

/// The cumulative trace of resolving a run of permalinks, in order: how the
/// request log grew, and which quote embeds and gathered message embeds
/// accumulated, each resolved link contributing its quote in link order.
pub open spec fn quote_links_trace(
    links: Seq<(Option<u64>, Option<u64>)>,
    pre_log: Seq<Action>,
    post_log: Seq<Action>,
    quotes: Seq<EmbedView>,
    extra: Seq<EmbedView>,
) -> bool
    decreases links.len(),
{
    if links.len() == 0 {
        &&& post_log == pre_log
        &&& quotes == Seq::<EmbedView>::empty()
        &&& extra == Seq::<EmbedView>::empty()
    } else {
        exists|mid_log: Seq<Action>, res: Option<(EmbedView, Seq<EmbedView>)>|
            {
                &&& #[trigger] quote_link_spec(links[0].0, links[0].1, pre_log, mid_log, res)
                &&& match res {
                    None => quote_links_trace(links.drop_first(), mid_log, post_log, quotes, extra),
                    Some(pair) => {
                        &&& quotes.len() > 0
                        &&& quotes[0] == pair.0
                        &&& pair.1.len() <= extra.len()
                        &&& extra.take(pair.1.len() as int) == pair.1
                        &&& quote_links_trace(
                            links.drop_first(),
                            mid_log,
                            post_log,
                            quotes.drop_first(),
                            extra.skip(pair.1.len() as int),
                        )
                    },
                }
            }
    }
}

proof fn lemma_quote_trace_snoc(
    links: Seq<(Option<u64>, Option<u64>)>,
    l: (Option<u64>, Option<u64>),
    pre_log: Seq<Action>,
    mid_log: Seq<Action>,
    post_log: Seq<Action>,
    quotes: Seq<EmbedView>,
    extra: Seq<EmbedView>,
    res: Option<(EmbedView, Seq<EmbedView>)>,
)
    requires
        quote_links_trace(links, pre_log, mid_log, quotes, extra),
        quote_link_spec(l.0, l.1, mid_log, post_log, res),
    ensures
        quote_links_trace(
            links.push(l),
            pre_log,
            post_log,
            match res {
                None => quotes,
                Some(p) => quotes.push(p.0),
            },
            match res {
                None => extra,
                Some(p) => extra + p.1,
            },
        ),
    decreases links.len(),
{
    let quotes2 = match res {
        None => quotes,
        Some(p) => quotes.push(p.0),
    };
    let extra2 = match res {
        None => extra,
        Some(p) => extra + p.1,
    };
    if links.len() == 0 {
        assert(links.push(l)[0] == l);
        assert(links.push(l).drop_first() =~= Seq::<(Option<u64>, Option<u64>)>::empty());
        assert(mid_log == pre_log);
        match res {
            None => {
                assert(quote_links_trace(
                    links.push(l).drop_first(),
                    post_log,
                    post_log,
                    quotes2,
                    extra2,
                ));
            },
            Some(p) => {
                assert(quotes2.len() > 0 && quotes2[0] == p.0);
                assert(extra2.take(p.1.len() as int) =~= p.1);
                assert(quotes2.drop_first() =~= Seq::<EmbedView>::empty());
                assert(extra2.skip(p.1.len() as int) =~= Seq::<EmbedView>::empty());
                assert(quote_links_trace(
                    links.push(l).drop_first(),
                    post_log,
                    post_log,
                    quotes2.drop_first(),
                    extra2.skip(p.1.len() as int),
                ));
            },
        }
        assert(quote_link_spec(links.push(l)[0].0, links.push(l)[0].1, pre_log, post_log, res));
        assert(quote_links_trace(links.push(l), pre_log, post_log, quotes2, extra2));
    } else {
        let (m1, r1) = choose|m1: Seq<Action>, r1: Option<(EmbedView, Seq<EmbedView>)>|
            {
                &&& #[trigger] quote_link_spec(links[0].0, links[0].1, pre_log, m1, r1)
                &&& match r1 {
                    None => quote_links_trace(links.drop_first(), m1, mid_log, quotes, extra),
                    Some(pair) => {
                        &&& quotes.len() > 0
                        &&& quotes[0] == pair.0
                        &&& pair.1.len() <= extra.len()
                        &&& extra.take(pair.1.len() as int) == pair.1
                        &&& quote_links_trace(
                            links.drop_first(),
                            m1,
                            mid_log,
                            quotes.drop_first(),
                            extra.skip(pair.1.len() as int),
                        )
                    },
                }
            };
        assert(links.push(l).drop_first() =~= links.drop_first().push(l));
        assert(links.push(l)[0] == links[0]);
        match r1 {
            None => {
                lemma_quote_trace_snoc(
                    links.drop_first(),
                    l,
                    m1,
                    mid_log,
                    post_log,
                    quotes,
                    extra,
                    res,
                );
                assert(quote_links_trace(links.push(l), pre_log, post_log, quotes2, extra2));
            },
            Some(p1) => {
                let n1 = p1.1.len() as int;
                lemma_quote_trace_snoc(
                    links.drop_first(),
                    l,
                    m1,
                    mid_log,
                    post_log,
                    quotes.drop_first(),
                    extra.skip(n1),
                    res,
                );
                assert(quotes2.len() > 0 && quotes2[0] == p1.0);
                assert(extra2.take(n1) =~= p1.1);
                match res {
                    None => {
                        assert(quotes2.drop_first() =~= quotes.drop_first());
                        assert(extra2.skip(n1) =~= extra.skip(n1));
                    },
                    Some(p) => {
                        assert(quotes2.drop_first() =~= quotes.drop_first().push(p.0));
                        assert(extra2.skip(n1) =~= extra.skip(n1) + p.1);
                    },
                }
                assert(quote_links_trace(links.push(l), pre_log, post_log, quotes2, extra2));
            },
        }
    }
}

/// Resolving one permalink only appends fetch requests to the log.
pub proof fn lemma_quote_link_log_grows(
    cid: Option<u64>,
    mid: Option<u64>,
    pre_log: Seq<Action>,
    post_log: Seq<Action>,
    res: Option<(EmbedView, Seq<EmbedView>)>,
)
    requires
        quote_link_spec(cid, mid, pre_log, post_log, res),
    ensures
        pre_log.is_prefix_of(post_log),
{
    assert(pre_log =~= post_log.subrange(0, pre_log.len() as int));
}

/// Resolving a run of permalinks only appends fetch requests to the log.
pub proof fn lemma_quote_trace_log_grows(
    links: Seq<(Option<u64>, Option<u64>)>,
    pre_log: Seq<Action>,
    post_log: Seq<Action>,
    quotes: Seq<EmbedView>,
    extra: Seq<EmbedView>,
)
    requires
        quote_links_trace(links, pre_log, post_log, quotes, extra),
    ensures
        pre_log.is_prefix_of(post_log),
    decreases links.len(),
{
    if links.len() == 0 {
        assert(pre_log =~= post_log.subrange(0, pre_log.len() as int));
    } else {
        let (m1, r1) = choose|m1: Seq<Action>, r1: Option<(EmbedView, Seq<EmbedView>)>|
            {
                &&& #[trigger] quote_link_spec(links[0].0, links[0].1, pre_log, m1, r1)
                &&& match r1 {
                    None => quote_links_trace(links.drop_first(), m1, post_log, quotes, extra),
                    Some(pair) => {
                        &&& quotes.len() > 0
                        &&& quotes[0] == pair.0
                        &&& pair.1.len() <= extra.len()
                        &&& extra.take(pair.1.len() as int) == pair.1
                        &&& quote_links_trace(
                            links.drop_first(),
                            m1,
                            post_log,
                            quotes.drop_first(),
                            extra.skip(pair.1.len() as int),
                        )
                    },
                }
            };
        lemma_quote_link_log_grows(links[0].0, links[0].1, pre_log, m1, r1);
        match r1 {
            None => {
                lemma_quote_trace_log_grows(links.drop_first(), m1, post_log, quotes, extra);
            },
            Some(pair) => {
                lemma_quote_trace_log_grows(
                    links.drop_first(),
                    m1,
                    post_log,
                    quotes.drop_first(),
                    extra.skip(pair.1.len() as int),
                );
            },
        }
        assert(pre_log =~= post_log.subrange(0, pre_log.len() as int));
    }
}

/// What the quoting handler does. Every permalink of the message content is
/// resolved in scan order, unresolvable links silently skipped. With no
/// quote resolved, nothing is sent. Otherwise one reply with empty content
/// carries the quote embeds; when the quoted messages carried embeds of
/// their own and that reply went through, those are re-sent as a second,
/// distinctly labeled reply. A failed send is propagated and stops the
/// remainder.
pub open spec fn quote_spec(
    message: IncomingMessage,
    pre: CoreState,
    post: CoreState,
    r: Result<(), HandlerError>,
) -> bool {
    let links = links_of(message.1.content@);
    &&& post.store == pre.store
    &&& post.queues == pre.queues
    &&& exists|mid_log: Seq<Action>, quotes: Seq<EmbedView>, extra: Seq<EmbedView>|
        {
            &&& #[trigger] quote_links_trace(links, pre.log, mid_log, quotes, extra)
            &&& if quotes.len() == 0 {
                post.log == mid_log && r is Ok
            } else {
                let first = MessageView { content: ""@, embeds: quotes, ..message.1@ };
                let second = MessageView { content: "embeds:"@, embeds: extra, ..message.1@ };
                ||| (post.log == mid_log.push(Action::Send(first)) && r matches Err(
                    HandlerError::Callback(_),
                ))
                ||| (extra.len() == 0 && post.log == mid_log.push(Action::Send(first))
                    && r is Ok)
                ||| (extra.len() > 0 && post.log == mid_log.push(Action::Send(first)).push(
                    Action::Send(second),
                ) && (r is Err ==> r matches Err(HandlerError::Callback(_))))
            }
        }
}

/// The quoting handler.
#[derive(Clone, Copy)]
pub struct Quote;

impl<C: ResponseCallbacks> MessageHandler<C> for Quote {
    open spec fn valid(&self) -> bool {
        true
    }

    open spec fn on_message_spec(
        &self,
        post: Self,
        message: IncomingMessage,
        pre: CoreState,
        post_state: CoreState,
        r: Result<(), HandlerError>,
    ) -> bool {
        quote_spec(message, pre, post_state, r)
    }

    fn on_message(&mut self, message: &IncomingMessage, context: &mut Context<C>) -> (r: Result<
        (),
        HandlerError,
    >) {
        let links = scan_links(message.1.content.as_str());
        let mut quotes: Vec<Embed> = Vec::new();
        let mut quoted_embeds: Vec<Embed> = Vec::new();
        let n = links.len();
        let mut i: usize = 0;
        proof {
            assert(links@.take(0) =~= Seq::<(Option<u64>, Option<u64>)>::empty());
            assert(embeds_view(quotes@) =~= Seq::<EmbedView>::empty());
            assert(embeds_view(quoted_embeds@) =~= Seq::<EmbedView>::empty());
        }
        while i < n
            invariant
                n == links@.len(),
                links@ == links_of(message.1.content@),
                i <= n,
                context.wf(),
                context.state().store == old(context).state().store,
                context.state().queues == old(context).state().queues,
                quote_links_trace(
                    links@.take(i as int),
                    old(context).state().log,
                    context.state().log,
                    embeds_view(quotes@),
                    embeds_view(quoted_embeds@),
                ),
            decreases n - i,
        {
            let ghost log_before = context.state().log;
            let ghost qv0 = embeds_view(quotes@);
            let ghost ev0 = embeds_view(quoted_embeds@);
            let l = links[i];
            let res = message_to_quote(context, l.0, l.1);
            let ghost resv = quote_res_view(res);
            match res {
                Some(pair) => {
                    let (q, mut embeds) = pair;
                    quotes.push(q);
                    quoted_embeds.append(&mut embeds);
                },
                None => {},
            }
            proof {
                match resv {
                    None => {
                        assert(embeds_view(quotes@) =~= qv0);
                        assert(embeds_view(quoted_embeds@) =~= ev0);
                    },
                    Some(p) => {
                        assert(embeds_view(quotes@) =~= qv0.push(p.0));
                        assert(embeds_view(quoted_embeds@) =~= ev0 + p.1);
                    },
                }
                lemma_quote_trace_snoc(
                    links@.take(i as int),
                    links@[i as int],
                    old(context).state().log,
                    log_before,
                    context.state().log,
                    qv0,
                    ev0,
                    resv,
                );
                assert(links@.take(i as int + 1) =~= links@.take(i as int).push(
                    links@[i as int],
                ));
            }
            i = i + 1;
        }
        proof {
            assert(links@.take(n as int) =~= links@);
        }
        let ghost mid_log = context.state().log;
        let ghost qv = embeds_view(quotes@);
        let ghost ev = embeds_view(quoted_embeds@);
        if quotes.len() == 0 {
            proof {
                assert(quote_links_trace(
                    links_of(message.1.content@),
                    old(context).state().log,
                    mid_log,
                    qv,
                    ev,
                ));
            }
            return Ok(());
        }
        let reply = message.1.reply("").set_embeds(quotes);
        proof {
            assert(reply@ == (MessageView { content: ""@, embeds: qv, ..message.1@ }));
        }
        match context.callbacks.send_message(reply) {
            Err(e) => {
                return Err(HandlerError::Callback(e.message));
            },
            Ok(()) => {},
        }
        if quoted_embeds.len() > 0 {
            let reply2 = message.1.reply("embeds:").set_embeds(quoted_embeds);
            proof {
                assert(reply2@ == (MessageView { content: "embeds:"@, embeds: ev, ..message.1@ }));
            }
            match context.callbacks.send_message(reply2) {
                Err(e) => {
                    return Err(HandlerError::Callback(e.message));
                },
                Ok(()) => {},
            }
        }
        Ok(())
    }
}

} // verus!
