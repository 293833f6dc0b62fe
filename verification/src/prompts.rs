//! The fixed system prompts that carry the domain contract with the
//! LLM, and the user-prompt builders that lay chat content out for it.

use vstd::prelude::*;
use crate::strutil::{chars_of, string_from_chars, append_chars, dec_rep_i64, i64_dec_chars};

verus! {

/// System prompt for the briefing: classifies chats by priority.
pub const BRIEFING_V2_SYSTEM_PROMPT: &'static str = r#"You analyze Telegram chats and classify their priority.

You will receive:
- Chat messages (with sender, text, date, is_outgoing flag)
- Pre-computed signals about the conversation

CLASSIFICATION RULES:

**URGENT** - Requires immediate action:
- Contains: "urgent", "asap", "deadline", "emergency", "critical", "important"
- Mentions specific dates/times for something due soon
- Multiple rapid messages showing frustration or urgency

**NEEDS_REPLY** - Someone is waiting for your response:
- last_message_is_outgoing=false AND is_private_chat=true (they messaged you in DM)
- has_unanswered_question=true (they asked a question you haven't answered)
- Clear requests: "can you", "please", "let me know", "waiting for", "need your"
- You're directly addressed or asked for input

**FYI** - No action needed:
- last_message_is_outgoing=true (you already replied)
- Channel broadcasts or announcements
- Group discussions where you're not addressed
- Automated messages or notifications
- General news/updates

IMPORTANT: If last_message_is_outgoing=true, it's almost always FYI (you already responded).
If is_private_chat=true AND last_message_is_outgoing=false, it's almost always NEEDS_REPLY.

Respond in JSON:
{
  "priority": "urgent" | "needs_reply" | "fyi",
  "summary": "1-2 sentence summary",
  "suggested_reply": "natural reply text or null if fyi"
}"#;

/// System prompt for detailed summary generation.
pub const DETAILED_SUMMARY_PROMPT: &'static str = r#"You are an AI assistant that provides detailed summaries of Telegram conversations.

Analyze the conversation and provide:
1. A concise summary (2-3 sentences)
2. Key points discussed (up to 3)
3. Action items mentioned (up to 3)
4. Overall sentiment: "positive", "neutral", or "negative"
5. Whether the conversation needs a response from the user (true/false)

Respond in JSON format:
{
  "summary": "string",
  "key_points": ["string"],
  "action_items": ["string"],
  "sentiment": "positive" | "neutral" | "negative",
  "needs_response": boolean
}"#;

/// System prompt for draft generation.
pub const DRAFT_SYSTEM_PROMPT: &'static str = r#"You are an AI assistant helping a user draft a message in Telegram.

IMPORTANT: You are writing a message on behalf of "You" (the user). The conversation shows messages between "You" and other participants.

Your task:
- Write a draft message that "You" will send
- If the last message is from someone else, respond to their message
- If the last message is from "You", help continue or follow up naturally
- Match the tone and style of the conversation
- Address any questions or requests from the other person
- Be concise and natural

Do NOT:
- Respond as if you are the other person
- Be overly formal unless the conversation is formal
- Include placeholders like [name] or [topic]
- Be robotic or generic
- Make up information

Output ONLY the draft message text, nothing else."#;

/// One `sender: text` line.
pub open spec fn plain_line(p: (Seq<char>, Seq<char>)) -> Seq<char> {
    p.0 + ": "@ + p.1
}

/// One `[sender]: text` line.
pub open spec fn bracket_line(p: (Seq<char>, Seq<char>)) -> Seq<char> {
    "["@ + p.0 + "]: "@ + p.1
}

/// Lines joined with newlines.
pub open spec fn joined_lines(ls: Seq<Seq<char>>) -> Seq<char>
    decreases ls.len(),
{
    if ls.len() == 0 {
        Seq::empty()
    } else if ls.len() == 1 {
        ls[0]
    } else {
        joined_lines(ls.drop_last()) + "\n"@ + ls.last()
    }
}

pub open spec fn pair_views(ms: Seq<(String, String)>) -> Seq<(Seq<char>, Seq<char>)> {
    ms.map_values(|p: (String, String)| (p.0@, p.1@))
}

/// The text `true` or `false`.
pub open spec fn bool_text(b: bool) -> Seq<char> {
    if b {
        "true"@
    } else {
        "false"@
    }
}

fn bool_str(b: bool) -> (r: &'static str)
    ensures
        r@ == bool_text(b),
{
    if b {
        "true"
    } else {
        "false"
    }
}

fn join_mapped(
    messages: &Vec<(String, String)>,
    bracketed: bool,
) -> (r: Vec<char>)
    ensures
        r@ == joined_lines(
            pair_views(messages@).map_values(
                |p: (Seq<char>, Seq<char>)|
                    if bracketed {
                        bracket_line(p)
                    } else {
                        plain_line(p)
                    },
            ),
        ),
{
    let ghost lines = pair_views(messages@).map_values(
        |p: (Seq<char>, Seq<char>)|
            if bracketed {
                bracket_line(p)
            } else {
                plain_line(p)
            },
    );
    let mut out: Vec<char> = Vec::new();
    let mut i: usize = 0;
    let n = messages.len();
    assert(messages@.len() == n <= usize::MAX);
    proof {
        assert(lines.take(0) =~= Seq::<Seq<char>>::empty());
        assert(out@ =~= joined_lines(lines.take(0)));
    }
    while i < n
        invariant
            n == messages@.len() <= usize::MAX,
            lines == pair_views(messages@).map_values(
                |p: (Seq<char>, Seq<char>)|
                    if bracketed {
                        bracket_line(p)
                    } else {
                        plain_line(p)
                    },
            ),
            lines.len() == n,
            0 <= i <= n,
            out@ == joined_lines(lines.take(i as int)),
        decreases n - i,
    {
        proof {
            assert(lines.take(i + 1).drop_last() =~= lines.take(i as int));
            assert(lines.take(i + 1).last() == lines[i as int]);
            assert(pair_views(messages@)[i as int] == (
                messages@[i as int].0@,
                messages@[i as int].1@,
            ));
        }
        if i > 0 {
            let nl = chars_of("\n");
            append_chars(&mut out, &nl);
        }
        if bracketed {
            let open = chars_of("[");
            append_chars(&mut out, &open);
            let sender = chars_of(messages[i].0.as_str());
            append_chars(&mut out, &sender);
            let sep = chars_of("]: ");
            append_chars(&mut out, &sep);
            let text = chars_of(messages[i].1.as_str());
            append_chars(&mut out, &text);
        } else {
            let sender = chars_of(messages[i].0.as_str());
            append_chars(&mut out, &sender);
            let sep = chars_of(": ");
            append_chars(&mut out, &sep);
            let text = chars_of(messages[i].1.as_str());
            append_chars(&mut out, &text);
        }
        proof {
            if i == 0 {
                assert(out@ =~= joined_lines(lines.take(1)));
            } else {
                assert(out@ =~= joined_lines(lines.take(i as int)) + "\n"@ + lines[i as int]);
                assert(out@ =~= joined_lines(lines.take(i + 1)));
            }
        }
        i += 1;
    }
    proof {
        assert(lines.take(i as int) =~= lines);
    }
    out
}

fn join_plain(messages: &Vec<(String, String)>) -> (r: Vec<char>)
    ensures
        r@ == joined_lines(pair_views(messages@).map_values(|p: (Seq<char>, Seq<char>)| plain_line(p))),
{
    let r = join_mapped(messages, false);
    proof {
        let bracketed = false;
        assert(pair_views(messages@).map_values(
            |p: (Seq<char>, Seq<char>)|
                if bracketed {
                    bracket_line(p)
                } else {
                    plain_line(p)
                },
        ) =~= pair_views(messages@).map_values(|p: (Seq<char>, Seq<char>)| plain_line(p)));
    }
    r
}

fn join_bracket(messages: &Vec<(String, String)>) -> (r: Vec<char>)
    ensures
        r@ == joined_lines(pair_views(messages@).map_values(|p: (Seq<char>, Seq<char>)| bracket_line(p))),
{
    let r = join_mapped(messages, true);
    proof {
        let bracketed = true;
        assert(pair_views(messages@).map_values(
            |p: (Seq<char>, Seq<char>)|
                if bracketed {
                    bracket_line(p)
                } else {
                    plain_line(p)
                },
        ) =~= pair_views(messages@).map_values(|p: (Seq<char>, Seq<char>)| bracket_line(p)));
    }
    r
}

/// What the summary user prompt reads for a chat.
pub open spec fn summary_prompt_text(
    title: Seq<char>,
    chat_type: Seq<char>,
    ms: Seq<(String, String)>,
) -> Seq<char> {
    "Analyze this conversation and provide a detailed summary:\n\nChat: "@ + title + " ("@
        + chat_type + ")\n\nMessages:\n"@ + joined_lines(
        pair_views(ms).map_values(|p: (Seq<char>, Seq<char>)| plain_line(p)),
    ) + "\n\nProvide your analysis in JSON format."@
}

/// Format the summary user prompt: the chat heading and the message
/// lines, one `sender: text` per line.
pub fn format_summary_user_prompt(
    chat_title: &str,
    chat_type: &str,
    messages: &Vec<(String, String)>,
) -> (r: String)
    ensures
        r@ == summary_prompt_text(chat_title@, chat_type@, messages@),
{
    let mut out = chars_of("Analyze this conversation and provide a detailed summary:\n\nChat: ");
    let title = chars_of(chat_title);
    append_chars(&mut out, &title);
    let open = chars_of(" (");
    append_chars(&mut out, &open);
    let ctype = chars_of(chat_type);
    append_chars(&mut out, &ctype);
    let mid = chars_of(")\n\nMessages:\n");
    append_chars(&mut out, &mid);
    let lines = join_plain(messages);
    append_chars(&mut out, &lines);
    let tail = chars_of("\n\nProvide your analysis in JSON format.");
    append_chars(&mut out, &tail);
    assert(out@ =~= summary_prompt_text(chat_title@, chat_type@, messages@));
    string_from_chars(&out)
}

/// The hint appended to a draft prompt about its last message.
pub open spec fn draft_hint_text(ms: Seq<(String, String, bool)>) -> Seq<char> {
    if ms.len() == 0 {
        "Start the conversation naturally."@
    } else if ms.last().2 {
        "The last message was from You. Write a follow-up or continue the conversation."@
    } else {
        "The last message was from "@ + ms.last().0@ + ". Write a reply to them."@
    }
}

pub open spec fn triple_views(ms: Seq<(String, String, bool)>) -> Seq<(Seq<char>, Seq<char>)> {
    ms.map_values(|p: (String, String, bool)| (p.0@, p.1@))
}

/// What the draft user prompt reads for a chat.
pub open spec fn draft_prompt_text(title: Seq<char>, ms: Seq<(String, String, bool)>) -> Seq<
    char,
> {
    "Generate a draft message for this conversation:\n\nChat with: "@ + title
        + "\n\nRecent messages:\n"@ + joined_lines(
        triple_views(ms).map_values(|p: (Seq<char>, Seq<char>)| plain_line(p)),
    ) + "\n\n"@ + draft_hint_text(ms) + "\n\nWrite the draft message that \"You\" will send:"@
}

/// Format the draft user prompt: the conversation lines and a hint
/// derived from who sent the last message.
pub fn format_draft_user_prompt(
    chat_title: &str,
    messages: &Vec<(String, String, bool)>,
) -> (r: String)
    ensures
        r@ == draft_prompt_text(chat_title@, messages@),
{
    let mut out = chars_of("Generate a draft message for this conversation:\n\nChat with: ");
    let title = chars_of(chat_title);
    append_chars(&mut out, &title);
    let mid = chars_of("\n\nRecent messages:\n");
    append_chars(&mut out, &mid);

    let mut pairs: Vec<(String, String)> = Vec::new();
    let mut i: usize = 0;
    let n = messages.len();
    assert(messages@.len() == n <= usize::MAX);
    while i < n
        invariant
            n == messages@.len() <= usize::MAX,
            0 <= i <= n,
            pairs@.len() == i,
            forall|k: int|
                0 <= k < i ==> (#[trigger] pairs@[k]).0@ == messages@[k].0@ && pairs@[k].1@
                    == messages@[k].1@,
        decreases n - i,
    {
        let sender = crate::auth::clone_string(&messages[i].0);
        let text = crate::auth::clone_string(&messages[i].1);
        pairs.push((sender, text));
        i += 1;
    }
    let lines = join_plain(&pairs);
    proof {
        assert(pair_views(pairs@) =~= triple_views(messages@));
        assert(pair_views(pairs@).map_values(|p: (Seq<char>, Seq<char>)| plain_line(p))
            =~= triple_views(messages@).map_values(|p: (Seq<char>, Seq<char>)| plain_line(p)));
    }
    append_chars(&mut out, &lines);
    let gap = chars_of("\n\n");
    append_chars(&mut out, &gap);
    if messages.len() == 0 {
        let hint = chars_of("Start the conversation naturally.");
        append_chars(&mut out, &hint);
    } else if messages[messages.len() - 1].2 {
        let hint = chars_of(
            "The last message was from You. Write a follow-up or continue the conversation.",
        );
        append_chars(&mut out, &hint);
    } else {
        let hint_head = chars_of("The last message was from ");
        append_chars(&mut out, &hint_head);
        let sender = chars_of(messages[messages.len() - 1].0.as_str());
        append_chars(&mut out, &sender);
        let hint_tail = chars_of(". Write a reply to them.");
        append_chars(&mut out, &hint_tail);
    }
    let tail = chars_of("\n\nWrite the draft message that \"You\" will send:");
    append_chars(&mut out, &tail);
    assert(out@ =~= draft_prompt_text(chat_title@, messages@));
    string_from_chars(&out)
}

/// What the briefing user prompt reads for a chat: the heading, the
/// pre-computed signals, and the message lines.
pub open spec fn briefing_prompt_text(
    title: Seq<char>,
    chat_type: Seq<char>,
    unread_count: i32,
    last_message_is_outgoing: bool,
    has_unanswered_question: bool,
    hours_since_last_activity: Seq<char>,
    is_private_chat: bool,
    ms: Seq<(String, String)>,
) -> Seq<char> {
    "Chat: "@ + title + " ("@ + chat_type + ")\n\nSIGNALS:\n- unread_count: "@ + dec_rep_i64(
        unread_count as i64,
    ) + "\n- last_message_is_outgoing: "@ + bool_text(last_message_is_outgoing)
        + "\n- has_unanswered_question: "@ + bool_text(has_unanswered_question)
        + "\n- hours_since_last_activity: "@ + hours_since_last_activity
        + "\n- is_private_chat: "@ + bool_text(is_private_chat) + "\n\nMESSAGES:\n"@
        + joined_lines(pair_views(ms).map_values(|p: (Seq<char>, Seq<char>)| bracket_line(p)))
}

/// Format the briefing user prompt. The hours since the last activity
/// arrive pre-rendered so the prompt is a pure function of plain values.
pub fn format_briefing_v2_user_prompt(
    chat_title: &str,
    chat_type: &str,
    unread_count: i32,
    last_message_is_outgoing: bool,
    has_unanswered_question: bool,
    hours_since_last_activity: &str,
    is_private_chat: bool,
    messages: &Vec<(String, String)>,
) -> (r: String)
    ensures
        r@ == briefing_prompt_text(
            chat_title@,
            chat_type@,
            unread_count,
            last_message_is_outgoing,
            has_unanswered_question,
            hours_since_last_activity@,
            is_private_chat,
            messages@,
        ),
{
    let mut out = chars_of("Chat: ");
    let title = chars_of(chat_title);
    append_chars(&mut out, &title);
    let open = chars_of(" (");
    append_chars(&mut out, &open);
    let ctype = chars_of(chat_type);
    append_chars(&mut out, &ctype);
    let sig1 = chars_of(")\n\nSIGNALS:\n- unread_count: ");
    append_chars(&mut out, &sig1);
    let unread = i64_dec_chars(unread_count as i64);
    append_chars(&mut out, &unread);
    let sig2 = chars_of("\n- last_message_is_outgoing: ");
    append_chars(&mut out, &sig2);
    let b1 = chars_of(bool_str(last_message_is_outgoing));
    append_chars(&mut out, &b1);
    let sig3 = chars_of("\n- has_unanswered_question: ");
    append_chars(&mut out, &sig3);
    let b2 = chars_of(bool_str(has_unanswered_question));
    append_chars(&mut out, &b2);
    let sig4 = chars_of("\n- hours_since_last_activity: ");
    append_chars(&mut out, &sig4);
    let hours = chars_of(hours_since_last_activity);
    append_chars(&mut out, &hours);
    let sig5 = chars_of("\n- is_private_chat: ");
    append_chars(&mut out, &sig5);
    let b3 = chars_of(bool_str(is_private_chat));
    append_chars(&mut out, &b3);
    let sig6 = chars_of("\n\nMESSAGES:\n");
    append_chars(&mut out, &sig6);
    let lines = join_bracket(messages);
    append_chars(&mut out, &lines);
    assert(out@ =~= briefing_prompt_text(
        chat_title@,
        chat_type@,
        unread_count,
        last_message_is_outgoing,
        has_unanswered_question,
        hours_since_last_activity@,
        is_private_chat,
        messages@,
    ));
    string_from_chars(&out)
}

} // verus!
