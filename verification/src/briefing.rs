//! Assembly of the AI orchestrators' results: per-chat briefing rows
//! from parsed replies, the partition into needs-response and FYI lists
//! with urgent entries first, batch summaries in submission order, draft
//! responses, the character-safe message windows handed to the prompts,
//! and the caches the orchestrators share.

use vstd::prelude::*;
use crate::ai_types::{
    AIBriefingResponse, AISummaryResponse, BatchSummaryResponse, BriefingStats,
    BriefingV2Response, ChatMessage, ChatSummaryContext, ChatSummaryResult, DraftMessage,
    DraftResponse, FYIItem, ResponseItem,
};
use crate::cache::TTLCache;
use crate::contacts::ContactWithMetadata;
use crate::sanitize::{sanitize_content, sanitize_message_text, sanitize_sender_name};
use crate::strutil::{chars_of, string_from_chars, append_chars, lower_ascii, lower_ascii_x, trimmed, trim_str};
use crate::auth::clone_string;
use crate::chats::clone_opt_string;

verus! {

/// The cache of briefing responses, keyed by chat-id set.
pub struct BriefingCache(pub TTLCache<BriefingV2Response>);

impl BriefingCache {
    /// An empty cache.
    pub fn new() -> (r: Self)
        ensures
            r.0@ == Map::<Seq<char>, crate::cache::CacheEntry<BriefingV2Response>>::empty(),
    {
        BriefingCache(TTLCache::new())
    }
}

/// The cache of batch-summary responses, keyed by chat-id set.
pub struct SummaryCache(pub TTLCache<BatchSummaryResponse>);

impl SummaryCache {
    /// An empty cache.
    pub fn new() -> (r: Self)
        ensures
            r.0@ == Map::<Seq<char>, crate::cache::CacheEntry<BatchSummaryResponse>>::empty(),
    {
        SummaryCache(TTLCache::new())
    }
}

/// The cache of the enriched contact list.
pub struct ContactsCache(pub TTLCache<Vec<ContactWithMetadata>>);

impl ContactsCache {
    /// An empty cache.
    pub fn new() -> (r: Self)
        ensures
            r.0@ == Map::<
                Seq<char>,
                crate::cache::CacheEntry<Vec<ContactWithMetadata>>,
            >::empty(),
    {
        ContactsCache(TTLCache::new())
    }
}

/// One chat's briefing classification, before partitioning.
#[derive(Debug)]
pub struct BriefingResult {
    pub id: i32,
    pub chat_id: i64,
    pub chat_name: String,
    pub chat_type: String,
    pub unread_count: i32,
    pub last_message: Option<String>,
    pub last_message_date: Option<String>,
    pub priority: String,
    pub summary: String,
    pub suggested_reply: Option<String>,
}

/// The needs-response row a briefing result becomes.
pub open spec fn response_item_of(r: BriefingResult) -> ResponseItem {
    ResponseItem {
        id: r.id,
        chat_id: r.chat_id,
        chat_name: r.chat_name,
        chat_type: r.chat_type,
        unread_count: r.unread_count,
        last_message: r.last_message,
        last_message_date: r.last_message_date,
        priority: r.priority,
        summary: r.summary,
        suggested_reply: r.suggested_reply,
    }
}

impl BriefingResult {
    /// The needs-response row of this result.
    pub fn into_response_item(self) -> (r: ResponseItem)
        ensures
            r == response_item_of(self),
    {
        ResponseItem {
            id: self.id,
            chat_id: self.chat_id,
            chat_name: self.chat_name,
            chat_type: self.chat_type,
            unread_count: self.unread_count,
            last_message: self.last_message,
            last_message_date: self.last_message_date,
            priority: self.priority,
            summary: self.summary,
            suggested_reply: self.suggested_reply,
        }
    }

    /// The FYI row of this result; the priority reads `fyi` whatever
    /// the classification said.
    pub fn into_fyi_item(self) -> (r: FYIItem)
        ensures
            r.id == self.id,
            r.chat_id == self.chat_id,
            r.chat_name == self.chat_name,
            r.chat_type == self.chat_type,
            r.unread_count == self.unread_count,
            r.last_message == self.last_message,
            r.last_message_date == self.last_message_date,
            r.priority@ == "fyi"@,
            r.summary == self.summary,
    {
        FYIItem {
            id: self.id,
            chat_id: self.chat_id,
            chat_name: self.chat_name,
            chat_type: self.chat_type,
            unread_count: self.unread_count,
            last_message: self.last_message,
            last_message_date: self.last_message_date,
            priority: "fyi".to_owned(),
            summary: self.summary,
        }
    }
}

/// One chat's briefing row, from the parsed reply when there is one and
/// the unable-to-analyze FYI fallback when there is none.
pub fn briefing_result_of_reply(
    id: i32,
    chat_id: i64,
    chat_name: String,
    chat_type: String,
    unread_count: i32,
    last_message: Option<String>,
    last_message_date: Option<String>,
    parsed: Option<AIBriefingResponse>,
) -> (r: BriefingResult)
    ensures
        r.id == id,
        r.chat_id == chat_id,
        r.chat_name == chat_name,
        r.chat_type == chat_type,
        r.unread_count == unread_count,
        r.last_message == last_message,
        r.last_message_date == last_message_date,
        match parsed {
            Some(p) => {
                &&& r.priority@ == lower_ascii(p.priority@)
                &&& r.summary == p.summary
                &&& r.suggested_reply == p.suggested_reply
            },
            None => {
                &&& r.priority@ == "fyi"@
                &&& r.summary@ == "Unable to analyze this chat"@
                &&& r.suggested_reply is None
            },
        },
{
    match parsed {
        Some(p) => {
            let cs = chars_of(p.priority.as_str());
            let low = lower_ascii_x(&cs);
            BriefingResult {
                id,
                chat_id,
                chat_name,
                chat_type,
                unread_count,
                last_message,
                last_message_date,
                priority: string_from_chars(&low),
                summary: p.summary,
                suggested_reply: p.suggested_reply,
            }
        },
        None => BriefingResult {
            id,
            chat_id,
            chat_name,
            chat_type,
            unread_count,
            last_message,
            last_message_date,
            priority: "fyi".to_owned(),
            summary: "Unable to analyze this chat".to_owned(),
            suggested_reply: None,
        },
    }
}

/// The needs-response rows of the results carrying priority `p`, in
/// arrival order.
pub open spec fn items_with_priority(rs: Seq<BriefingResult>, p: Seq<char>) -> Seq<ResponseItem>
    decreases rs.len(),
{
    if rs.len() == 0 {
        Seq::empty()
    } else {
        items_with_priority(rs.drop_last(), p) + if rs.last().priority@ == p {
            seq![response_item_of(rs.last())]
        } else {
            Seq::empty()
        }
    }
}

/// The results that end in the FYI list: neither urgent nor
/// needs-reply.
pub open spec fn fyi_sources(rs: Seq<BriefingResult>) -> Seq<BriefingResult>
    decreases rs.len(),
{
    if rs.len() == 0 {
        Seq::empty()
    } else {
        fyi_sources(rs.drop_last()) + if rs.last().priority@ != "urgent"@ && rs.last().priority@
            != "needs_reply"@ {
            seq![rs.last()]
        } else {
            Seq::empty()
        }
    }
}

/// The total unread count over all results.
pub open spec fn total_unread_of(rs: Seq<BriefingResult>) -> int
    decreases rs.len(),
{
    if rs.len() == 0 {
        0
    } else {
        total_unread_of(rs.drop_last()) + rs.last().unread_count
    }
}

/// The FYI row `f` renders the result `s`.
pub open spec fn fyi_item_matches(f: FYIItem, s: BriefingResult) -> bool {
    &&& f.id == s.id
    &&& f.chat_id == s.chat_id
    &&& f.chat_name == s.chat_name
    &&& f.chat_type == s.chat_type
    &&& f.unread_count == s.unread_count
    &&& f.last_message == s.last_message
    &&& f.last_message_date == s.last_message_date
    &&& f.priority@ == "fyi"@
    &&& f.summary == s.summary
}

proof fn lemma_partition_lengths(rs: Seq<BriefingResult>)
    ensures
        items_with_priority(rs, "urgent"@).len() + items_with_priority(rs, "needs_reply"@).len()
            + fyi_sources(rs).len() == rs.len(),
        ({
            let low = -(rs.len() * 0x8000_0000int);
            let high = rs.len() * 0x8000_0000int;
            low <= total_unread_of(rs) <= high
        }),
    decreases rs.len(),
{
    reveal_strlit("urgent");
    reveal_strlit("needs_reply");
    assert("urgent"@.len() == 6 && "needs_reply"@.len() == 11);
    if rs.len() > 0 {
        lemma_partition_lengths(rs.drop_last());
    }
}

/// Assemble a briefing from the per-chat results: urgent rows first,
/// then needs-reply rows, each group in arrival order; everything else
/// becomes an FYI row; the statistics count the two lists and total the
/// unread messages of every result.
#[verifier::rlimit(60)]
pub fn assemble_briefing(results: Vec<BriefingResult>, generated_at: String) -> (r:
    BriefingV2Response)
    requires
        results@.len() <= i32::MAX,
        -0x8000_0000 <= total_unread_of(results@) <= 0x7fff_ffff,
    ensures
        r.needs_response@ == items_with_priority(results@, "urgent"@) + items_with_priority(
            results@,
            "needs_reply"@,
        ),
        r.fyi_summaries@.len() == fyi_sources(results@).len(),
        forall|k: int|
            0 <= k < r.fyi_summaries@.len() ==> fyi_item_matches(
                #[trigger] r.fyi_summaries@[k],
                fyi_sources(results@)[k],
            ),
        r.stats.needs_response_count == r.needs_response@.len(),
        r.stats.fyi_count == r.fyi_summaries@.len(),
        r.stats.total_unread == total_unread_of(results@),
        r.generated_at == generated_at,
        !r.cached,
        r.cache_age is None,
{
    let ghost orig = results@;
    let mut src = results;
    let mut urgent: Vec<ResponseItem> = Vec::new();
    let mut needs_reply: Vec<ResponseItem> = Vec::new();
    let mut fyi: Vec<FYIItem> = Vec::new();
    let mut total_unread: i64 = 0;
    let mut i: usize = 0;
    let n = src.len();
    proof {
        lemma_partition_lengths(orig);
        assert(orig.take(0) =~= Seq::<BriefingResult>::empty());
        assert(orig.skip(0) =~= orig);
        reveal_strlit("urgent");
        reveal_strlit("needs_reply");
        assert("urgent"@.len() == 6 && "needs_reply"@.len() == 11);
    }
    while src.len() > 0
        invariant
            n == orig.len() <= i32::MAX,
            0 <= i <= n,
            src@ == orig.skip(i as int),
            urgent@ == items_with_priority(orig.take(i as int), "urgent"@),
            needs_reply@ == items_with_priority(orig.take(i as int), "needs_reply"@),
            fyi@.len() == fyi_sources(orig.take(i as int)).len(),
            forall|k: int|
                0 <= k < fyi@.len() ==> fyi_item_matches(
                    #[trigger] fyi@[k],
                    fyi_sources(orig.take(i as int))[k],
                ),
            total_unread == total_unread_of(orig.take(i as int)),
            -(i as int) * 0x8000_0000 <= total_unread <= (i as int) * 0x8000_0000,
        decreases src@.len(),
    {
        let ghost src_before = src@;
        let entry = src.remove(0);
        proof {
            reveal_strlit("urgent");
            reveal_strlit("needs_reply");
            assert("urgent"@.len() == 6 && "needs_reply"@.len() == 11);
            assert(entry == src_before[0]);
            assert(src_before[0] == orig[i as int]);
            assert(src@ =~= orig.skip(i + 1));
            assert(orig.take(i + 1).drop_last() =~= orig.take(i as int));
            assert(orig.take(i + 1).last() == orig[i as int]);
            lemma_partition_lengths(orig.take(i as int));
        }
        total_unread = total_unread + entry.unread_count as i64;
        let is_urgent = crate::strutil::str_eq(entry.priority.as_str(), "urgent");
        let is_needs = crate::strutil::str_eq(entry.priority.as_str(), "needs_reply");
        if is_urgent {
            let ghost before = urgent@;
            urgent.push(entry.into_response_item());
            proof {
                assert(urgent@ =~= before.push(response_item_of(orig[i as int])));
                assert(urgent@ =~= items_with_priority(orig.take(i + 1), "urgent"@));
                assert(needs_reply@ =~= items_with_priority(orig.take(i + 1), "needs_reply"@));
                assert(fyi_sources(orig.take(i + 1)) =~= fyi_sources(orig.take(i as int)));
            }
        } else if is_needs {
            let ghost before = needs_reply@;
            needs_reply.push(entry.into_response_item());
            proof {
                assert(needs_reply@ =~= before.push(response_item_of(orig[i as int])));
                assert(urgent@ =~= items_with_priority(orig.take(i + 1), "urgent"@));
                assert(needs_reply@ =~= items_with_priority(orig.take(i + 1), "needs_reply"@));
                assert(fyi_sources(orig.take(i + 1)) =~= fyi_sources(orig.take(i as int)));
            }
        } else {
            let ghost before = fyi@;
            fyi.push(entry.into_fyi_item());
            proof {
                assert(fyi@ =~= before.push(fyi@[fyi@.len() - 1]));
                assert(fyi_sources(orig.take(i + 1)) =~= fyi_sources(orig.take(i as int)).push(
                    orig[i as int],
                ));
                assert(fyi_item_matches(fyi@[fyi@.len() - 1], orig[i as int]));
                assert(urgent@ =~= items_with_priority(orig.take(i + 1), "urgent"@));
                assert(needs_reply@ =~= items_with_priority(orig.take(i + 1), "needs_reply"@));
            }
        }
        i += 1;
    }
    proof {
        assert(orig.take(i as int) =~= orig);
    }
    let mut needs_response = urgent;
    let mut tail = needs_reply;
    needs_response.append(&mut tail);
    proof {
        lemma_partition_lengths(orig);
    }
    let needs_count = needs_response.len();
    let fyi_count = fyi.len();
    let stats = BriefingStats {
        needs_response_count: needs_count as i32,
        fyi_count: fyi_count as i32,
        total_unread: total_unread as i32,
    };
    BriefingV2Response {
        needs_response,
        fyi_summaries: fyi,
        stats,
        generated_at,
        cached: false,
        cache_age: None,
    }
}

/// The summary row for a chat whose reply could not be had or parsed.
pub fn create_fallback_summary(
    chat: ChatSummaryContext,
    chat_type: String,
    message_count: i32,
    last_message_date: i64,
) -> (r: ChatSummaryResult)
    ensures
        r.chat_id == chat.chat_id,
        r.chat_title == chat.chat_title,
        r.chat_type == chat_type,
        r.summary@ == "Unable to generate summary"@,
        r.key_points@.len() == 0,
        r.action_items@.len() == 0,
        r.sentiment@ == "neutral"@,
        !r.needs_response,
        r.message_count == message_count,
        r.last_message_date == last_message_date,
{
    ChatSummaryResult {
        chat_id: chat.chat_id,
        chat_title: chat.chat_title,
        chat_type,
        summary: "Unable to generate summary".to_owned(),
        key_points: Vec::new(),
        action_items: Vec::new(),
        sentiment: "neutral".to_owned(),
        needs_response: false,
        message_count,
        last_message_date,
    }
}

/// The summary row for a chat from its parsed reply.
pub fn summary_result_of_reply(
    chat: ChatSummaryContext,
    chat_type: String,
    parsed: AISummaryResponse,
    message_count: i32,
    last_message_date: i64,
) -> (r: ChatSummaryResult)
    ensures
        r.chat_id == chat.chat_id,
        r.chat_title == chat.chat_title,
        r.chat_type == chat_type,
        r.summary == parsed.summary,
        r.key_points == parsed.key_points,
        r.action_items == parsed.action_items,
        r.sentiment == parsed.sentiment,
        r.needs_response == parsed.needs_response,
        r.message_count == message_count,
        r.last_message_date == last_message_date,
{
    ChatSummaryResult {
        chat_id: chat.chat_id,
        chat_title: chat.chat_title,
        chat_type,
        summary: parsed.summary,
        key_points: parsed.key_points,
        action_items: parsed.action_items,
        sentiment: parsed.sentiment,
        needs_response: parsed.needs_response,
        message_count,
        last_message_date,
    }
}

/// Assemble the batch-summary response: the rows in submission order,
/// counted, stamped, not cached.
pub fn assemble_batch_summary(summaries: Vec<ChatSummaryResult>, generated_at: i64) -> (r:
    BatchSummaryResponse)
    requires
        summaries@.len() <= i32::MAX,
    ensures
        r.summaries == summaries,
        r.total_count == summaries@.len(),
        r.generated_at == generated_at,
        !r.cached,
{
    let total = summaries.len();
    BatchSummaryResponse { summaries, total_count: total as i32, generated_at, cached: false }
}

/// The draft response: the reply content trimmed, nothing else.
pub fn draft_response_of(content: &str, chat_id: i64) -> (r: DraftResponse)
    ensures
        r.draft@ == trimmed(content@),
        r.chat_id == chat_id,
{
    DraftResponse { draft: trim_str(content), chat_id }
}

/// A shortened preview of a message text: over long content is cut at a
/// character boundary and marked.
pub open spec fn preview_text(s: Seq<char>) -> Seq<char> {
    if s.len() > 300 {
        s.take(300) + "..."@
    } else {
        s
    }
}

/// Shorten a sanitized message text for display, character-safely.
pub fn message_preview(text: &str) -> (r: String)
    ensures
        r@ == preview_text(text@),
{
    let cs = chars_of(text);
    if cs.len() > 300 {
        let mut out = crate::strutil::sub_chars(&cs, 0, 300);
        let marker = chars_of("...");
        append_chars(&mut out, &marker);
        proof {
            assert(cs@.subrange(0, 300) =~= cs@.take(300));
        }
        string_from_chars(&out)
    } else {
        string_from_chars(&cs)
    }
}

/// The last `n` messages as sanitized `(sender, text)` pairs, oldest
/// first.
pub fn tail_message_pairs(messages: &Vec<ChatMessage>, n: usize) -> (r: Vec<(String, String)>)
    ensures
        ({
            let len = messages@.len();
            let m: int = if len <= n {
                len as int
            } else {
                n as int
            };
            &&& r@.len() == m
            &&& forall|k: int|
                0 <= k < m ==> {
                    let src = messages@[len - m + k];
                    &&& (#[trigger] r@[k]).0@ == sanitize_content(src.sender_name@)
                    &&& r@[k].1@ == sanitize_content(src.text@)
                }
        }),
{
    let len = messages.len();
    let start = if len <= n {
        0
    } else {
        len - n
    };
    let mut r: Vec<(String, String)> = Vec::new();
    let mut i = start;
    while i < len
        invariant
            len == messages@.len() <= usize::MAX,
            start <= i <= len,
            r@.len() == i - start,
            forall|k: int|
                0 <= k < i - start ==> {
                    let src = messages@[start + k];
                    &&& (#[trigger] r@[k]).0@ == sanitize_content(src.sender_name@)
                    &&& r@[k].1@ == sanitize_content(src.text@)
                },
        decreases len - i,
    {
        let sender = sanitize_sender_name(messages[i].sender_name.as_str());
        let text = sanitize_message_text(messages[i].text.as_str());
        r.push((sender, text));
        i += 1;
    }
    r
}

/// The last `n` draft messages as `(sender, text, is_outgoing)`
/// triples: outgoing messages speak as `You`, the rest under their
/// sanitized sender names, texts sanitized, oldest first.
pub fn tail_draft_triples(messages: &Vec<DraftMessage>, n: usize) -> (r: Vec<
    (String, String, bool),
>)
    ensures
        ({
            let len = messages@.len();
            let m: int = if len <= n {
                len as int
            } else {
                n as int
            };
            &&& r@.len() == m
            &&& forall|k: int|
                0 <= k < m ==> {
                    let src = messages@[len - m + k];
                    &&& (#[trigger] r@[k]).0@ == if src.is_outgoing {
                        "You"@
                    } else {
                        sanitize_content(src.sender_name@)
                    }
                    &&& r@[k].1@ == sanitize_content(src.text@)
                    &&& r@[k].2 == src.is_outgoing
                }
        }),
{
    let len = messages.len();
    let start = if len <= n {
        0
    } else {
        len - n
    };
    let mut r: Vec<(String, String, bool)> = Vec::new();
    let mut i = start;
    while i < len
        invariant
            len == messages@.len() <= usize::MAX,
            start <= i <= len,
            r@.len() == i - start,
            forall|k: int|
                0 <= k < i - start ==> {
                    let src = messages@[start + k];
                    &&& (#[trigger] r@[k]).0@ == if src.is_outgoing {
                        "You"@
                    } else {
                        sanitize_content(src.sender_name@)
                    }
                    &&& r@[k].1@ == sanitize_content(src.text@)
                    &&& r@[k].2 == src.is_outgoing
                },
        decreases len - i,
    {
        let sender: String = if messages[i].is_outgoing {
            "You".to_owned()
        } else {
            sanitize_sender_name(messages[i].sender_name.as_str())
        };
        let text = sanitize_message_text(messages[i].text.as_str());
        let outgoing = messages[i].is_outgoing;
        r.push((sender, text, outgoing));
        i += 1;
    }
    r
}

/// Names what chrono renders for an epoch second in RFC 3339 form (or
/// the empty string outside chrono's range): a fixed function of the
/// second alone.
pub uninterp spec fn rfc3339_text(secs: int) -> Seq<char>;

/// Relies on `chrono::DateTime::from_timestamp` and `to_rfc3339`: the
/// RFC 3339 rendering of the epoch second, empty when the second lies
/// outside chrono's documented range. The rendering depends on the
/// second alone.
#[verifier::external_body]
pub fn rfc3339_of_epoch(secs: i64) -> (r: String)
    ensures
        r@ == rfc3339_text(secs as int),
{
    chrono::DateTime::from_timestamp(secs, 0).map(|dt| dt.to_rfc3339()).unwrap_or_default()
}

fn clone_response_item(item: &ResponseItem) -> (r: ResponseItem)
    ensures
        r.id == item.id,
        r.chat_id == item.chat_id,
        r.chat_name@ == item.chat_name@,
        r.chat_type@ == item.chat_type@,
        r.unread_count == item.unread_count,
        crate::auth::opt_string_chars(r.last_message) == crate::auth::opt_string_chars(
            item.last_message,
        ),
        crate::auth::opt_string_chars(r.last_message_date) == crate::auth::opt_string_chars(
            item.last_message_date,
        ),
        r.priority@ == item.priority@,
        r.summary@ == item.summary@,
        crate::auth::opt_string_chars(r.suggested_reply) == crate::auth::opt_string_chars(
            item.suggested_reply,
        ),
{
    ResponseItem {
        id: item.id,
        chat_id: item.chat_id,
        chat_name: clone_string(&item.chat_name),
        chat_type: clone_string(&item.chat_type),
        unread_count: item.unread_count,
        last_message: clone_opt_string(&item.last_message),
        last_message_date: clone_opt_string(&item.last_message_date),
        priority: clone_string(&item.priority),
        summary: clone_string(&item.summary),
        suggested_reply: clone_opt_string(&item.suggested_reply),
    }
}

fn clone_fyi_item(item: &FYIItem) -> (r: FYIItem)
    ensures
        r.id == item.id,
        r.chat_id == item.chat_id,
        r.chat_name@ == item.chat_name@,
        r.chat_type@ == item.chat_type@,
        r.unread_count == item.unread_count,
        crate::auth::opt_string_chars(r.last_message) == crate::auth::opt_string_chars(
            item.last_message,
        ),
        crate::auth::opt_string_chars(r.last_message_date) == crate::auth::opt_string_chars(
            item.last_message_date,
        ),
        r.priority@ == item.priority@,
        r.summary@ == item.summary@,
{
    FYIItem {
        id: item.id,
        chat_id: item.chat_id,
        chat_name: clone_string(&item.chat_name),
        chat_type: clone_string(&item.chat_type),
        unread_count: item.unread_count,
        last_message: clone_opt_string(&item.last_message),
        last_message_date: clone_opt_string(&item.last_message_date),
        priority: clone_string(&item.priority),
        summary: clone_string(&item.summary),
    }
}

/// A briefing response served from the cache: the same rows and
/// statistics, marked cached with the formatted age of the entry.
pub fn cached_briefing(resp: &BriefingV2Response, age_secs: u64) -> (r: BriefingV2Response)
    ensures
        r.needs_response@.len() == resp.needs_response@.len(),
        r.fyi_summaries@.len() == resp.fyi_summaries@.len(),
        r.stats == resp.stats,
        r.generated_at@ == resp.generated_at@,
        r.cached,
        r.cache_age matches Some(a) && a@ == crate::cache::cache_age_text(age_secs),
{
    let mut needs: Vec<ResponseItem> = Vec::new();
    let mut i: usize = 0;
    let n = resp.needs_response.len();
    while i < n
        invariant
            n == resp.needs_response@.len() <= usize::MAX,
            0 <= i <= n,
            needs@.len() == i,
        decreases n - i,
    {
        needs.push(clone_response_item(&resp.needs_response[i]));
        i += 1;
    }
    let mut fyi: Vec<FYIItem> = Vec::new();
    let mut j: usize = 0;
    let m = resp.fyi_summaries.len();
    while j < m
        invariant
            m == resp.fyi_summaries@.len() <= usize::MAX,
            0 <= j <= m,
            fyi@.len() == j,
        decreases m - j,
    {
        fyi.push(clone_fyi_item(&resp.fyi_summaries[j]));
        j += 1;
    }
    BriefingV2Response {
        needs_response: needs,
        fyi_summaries: fyi,
        stats: resp.stats,
        generated_at: clone_string(&resp.generated_at),
        cached: true,
        cache_age: Some(crate::cache::format_cache_age(age_secs)),
    }
}

} // verus!
