//! Data carried through the LLM fan-out layer: chat contexts handed in,
//! prompt-call shapes on the wire, and the briefing, summary and draft
//! responses handed back.

use vstd::prelude::*;
use crate::strutil::{lower_ascii, lower_ascii_x, chars_of, str_eq, string_from_chars};

verus! {

/// Message in a chat context for AI processing.
#[derive(Debug)]
pub struct ChatMessage {
    pub id: i64,
    pub sender_name: String,
    pub text: String,
    pub date: i64,
    pub is_outgoing: bool,
}

/// Chat context for briefing generation. The hours since the last
/// activity arrive pre-rendered, one decimal place, so the context
/// carries plain values only.
#[derive(Debug)]
pub struct ChatContext {
    pub chat_id: i64,
    pub chat_title: String,
    pub chat_type: String,
    pub messages: Vec<ChatMessage>,
    pub unread_count: i32,
    pub last_message_is_outgoing: bool,
    pub has_unanswered_question: bool,
    pub hours_since_last_activity: String,
    pub is_private_chat: bool,
}

/// Chat context for summary generation.
#[derive(Debug)]
pub struct ChatSummaryContext {
    pub chat_id: i64,
    pub chat_title: String,
    pub chat_type: String,
    pub messages: Vec<ChatMessage>,
    pub unread_count: i32,
}

/// Message format for draft generation.
#[derive(Debug)]
pub struct DraftMessage {
    pub sender_name: String,
    pub text: String,
    pub is_outgoing: bool,
}

/// Priority classification for briefing items.
#[derive(Debug, Clone, Copy, PartialEq, Eq, Structural)]
pub enum Priority {
    Urgent,
    NeedsReply,
    Fyi,
}

/// Sentiment classification for summaries.
#[derive(Debug, Clone, Copy, PartialEq, Eq, Structural)]
pub enum Sentiment {
    Positive,
    Neutral,
    Negative,
}

impl Default for Sentiment {
    fn default() -> (r: Self)
        ensures
            r == Sentiment::Neutral,
    {
        Sentiment::Neutral
    }
}

/// The default sentiment string used when a summary reply names none.
pub fn default_sentiment() -> (r: String)
    ensures
        r@ == "neutral"@,
{
    "neutral".to_owned()
}

/// Chat type classification.
#[derive(Debug, Clone, Copy, PartialEq, Eq, Structural)]
pub enum ChatType {
    Dm,
    Group,
    Channel,
}

/// The chat type a kind string names, lower-cased first; unknown kinds
/// count as direct messages.
pub open spec fn chat_type_of(s: Seq<char>) -> ChatType {
    let low = lower_ascii(s);
    if low == "private"@ || low == "dm"@ || low == "user"@ {
        ChatType::Dm
    } else if low == "group"@ || low == "supergroup"@ || low == "megagroup"@ {
        ChatType::Group
    } else if low == "channel"@ || low == "broadcast"@ {
        ChatType::Channel
    } else {
        ChatType::Dm
    }
}

/// The canonical string of a chat type.
pub open spec fn chat_type_text(t: ChatType) -> Seq<char> {
    match t {
        ChatType::Dm => "dm"@,
        ChatType::Group => "group"@,
        ChatType::Channel => "channel"@,
    }
}

impl ChatType {
    /// Classify a kind string, case-blind; unknown kinds count as
    /// direct messages.
    pub fn from_str(s: &str) -> (r: Self)
        ensures
            r == chat_type_of(s@),
    {
        let cs = chars_of(s);
        let low_chars = lower_ascii_x(&cs);
        let low = string_from_chars(&low_chars);
        if str_eq(low.as_str(), "private") || str_eq(low.as_str(), "dm") || str_eq(
            low.as_str(),
            "user",
        ) {
            ChatType::Dm
        } else if str_eq(low.as_str(), "group") || str_eq(low.as_str(), "supergroup") || str_eq(
            low.as_str(),
            "megagroup",
        ) {
            ChatType::Group
        } else if str_eq(low.as_str(), "channel") || str_eq(low.as_str(), "broadcast") {
            ChatType::Channel
        } else {
            ChatType::Dm
        }
    }

    /// The canonical string of this chat type.
    pub fn to_string(&self) -> (r: String)
        ensures
            r@ == chat_type_text(*self),
    {
        match self {
            ChatType::Dm => "dm".to_owned(),
            ChatType::Group => "group".to_owned(),
            ChatType::Channel => "channel".to_owned(),
        }
    }
}

/// Item requiring response in a briefing.
#[derive(Debug)]
pub struct ResponseItem {
    pub id: i32,
    pub chat_id: i64,
    pub chat_name: String,
    pub chat_type: String,
    pub unread_count: i32,
    pub last_message: Option<String>,
    pub last_message_date: Option<String>,
    pub priority: String,
    pub summary: String,
    pub suggested_reply: Option<String>,
}

/// FYI item in a briefing.
#[derive(Debug)]
pub struct FYIItem {
    pub id: i32,
    pub chat_id: i64,
    pub chat_name: String,
    pub chat_type: String,
    pub unread_count: i32,
    pub last_message: Option<String>,
    pub last_message_date: Option<String>,
    pub priority: String,
    pub summary: String,
}

/// Statistics for a briefing.
#[derive(Debug, Clone, Copy, PartialEq, Eq, Structural)]
pub struct BriefingStats {
    pub needs_response_count: i32,
    pub fyi_count: i32,
    pub total_unread: i32,
}

/// A complete briefing response.
#[derive(Debug)]
pub struct BriefingV2Response {
    pub needs_response: Vec<ResponseItem>,
    pub fyi_summaries: Vec<FYIItem>,
    pub stats: BriefingStats,
    pub generated_at: String,
    pub cached: bool,
    pub cache_age: Option<String>,
}

/// One chat's summary.
#[derive(Debug)]
pub struct ChatSummaryResult {
    pub chat_id: i64,
    pub chat_title: String,
    pub chat_type: String,
    pub summary: String,
    pub key_points: Vec<String>,
    pub action_items: Vec<String>,
    pub sentiment: String,
    pub needs_response: bool,
    pub message_count: i32,
    pub last_message_date: i64,
}

/// The batch-summary response.
#[derive(Debug)]
pub struct BatchSummaryResponse {
    pub summaries: Vec<ChatSummaryResult>,
    pub total_count: i32,
    pub generated_at: i64,
    pub cached: bool,
}

/// The draft-generation response.
#[derive(Debug)]
pub struct DraftResponse {
    pub draft: String,
    pub chat_id: i64,
}

/// A chat-completion message on the wire.
#[derive(Debug)]
pub struct OpenAIMessage {
    pub role: String,
    pub content: String,
}

/// A chat-completion request. The temperature travels in tenths, so the
/// request holds integers only; the caller renders it as a decimal
/// fraction on the wire.
#[derive(Debug)]
pub struct OpenAIRequest {
    pub model: String,
    pub messages: Vec<OpenAIMessage>,
    pub temperature_tenths: u32,
    pub max_tokens: i32,
    pub response_format: Option<ResponseFormat>,
}

/// Response format directive for JSON mode.
#[derive(Debug)]
pub struct ResponseFormat {
    pub format_type: String,
}

/// A chat-completion response.
#[derive(Debug)]
pub struct OpenAIResponse {
    pub choices: Vec<OpenAIChoice>,
}

/// One choice of a chat-completion response.
#[derive(Debug)]
pub struct OpenAIChoice {
    pub message: OpenAIResponseMessage,
}

/// The message of a choice.
#[derive(Debug)]
pub struct OpenAIResponseMessage {
    pub content: String,
}

/// The parsed shape of a briefing reply.
#[derive(Debug)]
pub struct AIBriefingResponse {
    pub priority: String,
    pub summary: String,
    pub suggested_reply: Option<String>,
}

/// The parsed shape of a summary reply.
#[derive(Debug)]
pub struct AISummaryResponse {
    pub summary: String,
    pub key_points: Vec<String>,
    pub action_items: Vec<String>,
    pub sentiment: String,
    pub needs_response: bool,
}

} // verus!
