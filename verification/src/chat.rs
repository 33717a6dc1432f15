//! YouTube Live Chat: API URLs, message formatting and the text of the
//! chat overlay.
//!
//! The chat source favors `liveChatMessages.streamList` when OAuth/API
//! support is available and can fall back to polling `liveChatMessages.list`
//! at YouTube's advertised `pollingIntervalMillis`.
use vstd::prelude::*;

use crate::text::{join, push_chars};
use crate::types::ChatMessage;

verus! {

/// How many of the most recent messages the overlay shows.
pub const MAX_VISIBLE_MESSAGES: usize = 10;

/// `Duration::from_millis`, named by its argument.
pub uninterp spec fn duration_of_millis(ms: u64) -> std::time::Duration;

/// `Duration::from_millis`: a duration of `ms` milliseconds.
#[verifier::external_body]
fn duration_from_millis(ms: u64) -> (d: std::time::Duration)
    ensures
        d == duration_of_millis(ms),
{
    std::time::Duration::from_millis(ms)
}

pub open spec fn stream_list_url_spec(live_chat_id: Seq<char>) -> Seq<char> {
    "https://www.googleapis.com/youtube/v3/liveChat/messages:stream?part=snippet,authorDetails&liveChatId="@
        + live_chat_id
}

/// The `liveChatMessages.streamList` URL for a chat.
pub fn stream_list_url(live_chat_id: &str) -> (r: String)
    ensures
        r@ == stream_list_url_spec(live_chat_id@),
{
    let mut url = String::from_str(
        "https://www.googleapis.com/youtube/v3/liveChat/messages:stream?part=snippet,authorDetails&liveChatId=",
    );
    url.push_str(live_chat_id);
    url
}

pub open spec fn poll_list_url_spec(live_chat_id: Seq<char>, page_token: Option<Seq<char>>) -> Seq<
    char,
> {
    let base =
        "https://www.googleapis.com/youtube/v3/liveChat/messages?part=snippet,authorDetails&liveChatId="@
        + live_chat_id;
    match page_token {
        Some(t) => base + "&pageToken="@ + t,
        None => base,
    }
}

/// The `liveChatMessages.list` URL for a chat, continuing at `page_token`.
pub fn poll_list_url(live_chat_id: &str, page_token: Option<&str>) -> (r: String)
    ensures
        r@ == poll_list_url_spec(
            live_chat_id@,
            match page_token {
                Some(t) => Some(t@),
                None => None,
            },
        ),
{
    let mut url = String::from_str(
        "https://www.googleapis.com/youtube/v3/liveChat/messages?part=snippet,authorDetails&liveChatId=",
    );
    url.push_str(live_chat_id);
    if let Some(token) = page_token {
        url.push_str("&pageToken=");
        url.push_str(token);
    }
    url
}

/// `author [role] amount: message`; the role part only with a role, the
/// amount only for a Super Chat with an amount.
pub open spec fn chat_line(m: ChatMessage) -> Seq<char> {
    let role = match m.role {
        Some(r) => " ["@ + r@ + "]"@,
        None => Seq::empty(),
    };
    let amount = match m.amount_display {
        Some(a) => if m.is_super_chat {
            " "@ + a@
        } else {
            Seq::empty()
        },
        None => Seq::empty(),
    };
    m.author@ + role + amount + ": "@ + m.message@
}

pub fn format_chat_message(message: &ChatMessage) -> (r: String)
    ensures
        r@ == chat_line(*message),
{
    let mut s = message.author.clone();
    if let Some(role) = &message.role {
        s.push_str(" [");
        s.push_str(role.as_str());
        s.push_str("]");
    }
    if let Some(amount) = &message.amount_display {
        if message.is_super_chat {
            s.push_str(" ");
            s.push_str(amount.as_str());
        }
    }
    s.push_str(": ");
    s.push_str(message.message.as_str());
    s
}

/// The most recent `MAX_VISIBLE_MESSAGES` messages, oldest first.
pub open spec fn visible_messages(ms: Seq<ChatMessage>) -> Seq<ChatMessage> {
    if ms.len() > 10 {
        ms.subrange(ms.len() - 10, ms.len() as int)
    } else {
        ms
    }
}

/// The visible messages, one formatted message per line.
pub open spec fn chat_overlay_spec(ms: Seq<ChatMessage>) -> Seq<char> {
    join(visible_messages(ms).map_values(|m: ChatMessage| chat_line(m)), "\n"@)
}

pub fn format_chat_overlay(messages: &[ChatMessage]) -> (r: String)
    ensures
        r@ == chat_overlay_spec(messages@),
{
    let n = messages.len();
    let start = if n > MAX_VISIBLE_MESSAGES {
        n - MAX_VISIBLE_MESSAGES
    } else {
        0
    };
    let ghost vis = visible_messages(messages@);
    let ghost lines = vis.map_values(|m: ChatMessage| chat_line(m));
    assert(vis == messages@.subrange(start as int, n as int));
    let mut out = String::new();
    let mut i = start;
    while i < n
        invariant
            start <= i <= n,
            n == messages@.len(),
            vis == messages@.subrange(start as int, n as int),
            lines == vis.map_values(|m: ChatMessage| chat_line(m)),
            out@ == join(lines.take(i - start), "\n"@),
        decreases n - i,
    {
        let line = format_chat_message(&messages[i]);
        assert(lines.take(i + 1 - start).drop_last() == lines.take(i - start));
        assert(lines[i - start] == chat_line(messages@[i as int]));
        if i > start {
            out.push_str("\n");
        }
        out.push_str(line.as_str());
        i = i + 1;
    }
    assert(lines.take(n - start) == lines);
    out
}

/// What the overlay file shows: the chat, or that the chat is disconnected
/// when there are no messages.
pub fn chat_overlay_display(messages: &[ChatMessage]) -> (r: String)
    ensures
        r@ == (if messages@.len() == 0 {
            "YouTube chat disconnected"@
        } else {
            chat_overlay_spec(messages@)
        }),
{
    if messages.len() == 0 {
        String::from_str("YouTube chat disconnected")
    } else {
        format_chat_overlay(messages)
    }
}

/// The polling interval: YouTube's value (2000 ms when absent) kept within
/// 500..=30000 ms.
pub open spec fn polling_interval_ms(value: Option<u64>) -> u64 {
    let v = match value {
        Some(x) => x,
        None => 2000,
    };
    if v < 500 {
        500
    } else if v > 30000 {
        30000
    } else {
        v
    }
}

pub fn parse_polling_interval_millis(value: Option<u64>) -> (r: std::time::Duration)
    ensures
        r == duration_of_millis(polling_interval_ms(value)),
        500 <= polling_interval_ms(value) <= 30000,
{
    let v = match value {
        Some(x) => x,
        None => 2000,
    };
    let clamped = if v < 500 {
        500
    } else if v > 30000 {
        30000
    } else {
        v
    };
    duration_from_millis(clamped)
}


/// The overlay shows the most recent messages, oldest first, and never more
/// than `MAX_VISIBLE_MESSAGES` of them.
pub proof fn law_overlay_shows_latest_messages(ms: Seq<ChatMessage>)
    ensures
        visible_messages(ms).len() == if ms.len() > MAX_VISIBLE_MESSAGES {
            MAX_VISIBLE_MESSAGES as int
        } else {
            ms.len() as int
        },
        forall|i: int|
            0 <= i < visible_messages(ms).len() ==> #[trigger] visible_messages(ms)[i] == ms[ms.len()
                - visible_messages(ms).len() + i],
{
}

} // verus!
