use telegram_copilot::ai_types::{
    default_sentiment, AIBriefingResponse, AISummaryResponse, ChatMessage, ChatSummaryContext,
    ChatType, DraftMessage, OpenAIMessage, Sentiment,
};
use telegram_copilot::briefing::{
    assemble_batch_summary, assemble_briefing, briefing_result_of_reply, cached_briefing,
    create_fallback_summary, draft_response_of, message_preview, summary_result_of_reply,
    tail_draft_triples, tail_message_pairs, BriefingCache,
};
use telegram_copilot::cache::generate_chat_ids_key;
use telegram_copilot::contacts::enrich_contacts;
use telegram_copilot::extract::{extract_json, json_parse_failure, parse_json_reply};
use telegram_copilot::llm::{
    build_chat_request, chat_completions_url, ollama_tags_url, resolve_config_update,
    retry_delay_ms, should_retry, LLMConfig, LLMProvider, MASKED_API_KEY,
};
use telegram_copilot::prompts::{
    format_briefing_v2_user_prompt, format_draft_user_prompt, format_summary_user_prompt,
    BRIEFING_V2_SYSTEM_PROMPT, DETAILED_SUMMARY_PROMPT, DRAFT_SYSTEM_PROMPT,
};
use telegram_copilot::store::{ContactStore, ScopeConfig, ScopeProfile, ScopeStore};

#[test]
fn chat_types_normalize() {
    assert_eq!(ChatType::from_str("Supergroup"), ChatType::Group);
    assert_eq!(ChatType::from_str("PRIVATE"), ChatType::Dm);
    assert_eq!(ChatType::from_str("broadcast"), ChatType::Channel);
    assert_eq!(ChatType::from_str("???"), ChatType::Dm);
    assert_eq!(ChatType::Group.to_string(), "group");
    assert_eq!(Sentiment::default(), Sentiment::Neutral);
    assert_eq!(default_sentiment(), "neutral");
}

#[test]
fn llm_configuration_rules() {
    let mut config = LLMConfig::default();
    assert_eq!(config.provider, LLMProvider::OpenAI);
    assert!(!config.is_configured());
    config.api_key = Some("sk-test".to_string());
    assert!(config.is_configured());
    config.provider = LLMProvider::Ollama;
    config.api_key = None;
    assert!(config.is_configured());

    let masked = LLMConfig {
        provider: LLMProvider::OpenAI,
        base_url: "https://api.openai.com".to_string(),
        api_key: Some("secret".to_string()),
        model: "gpt-4o-mini".to_string(),
    }
    .masked();
    assert_eq!(masked.api_key.as_deref(), Some(MASKED_API_KEY));

    let update = LLMConfig {
        provider: LLMProvider::OpenAI,
        base_url: "https://api.openai.com".to_string(),
        api_key: Some(MASKED_API_KEY.to_string()),
        model: "gpt-4o".to_string(),
    };
    let merged = resolve_config_update(update, Some("secret".to_string()));
    assert_eq!(merged.api_key.as_deref(), Some("secret"));
    assert_eq!(merged.model, "gpt-4o");
}

#[test]
fn llm_urls_drop_trailing_slashes() {
    assert_eq!(
        chat_completions_url("http://localhost:11434/"),
        "http://localhost:11434/v1/chat/completions"
    );
    assert_eq!(chat_completions_url("https://api.openai.com"), "https://api.openai.com/v1/chat/completions");
    assert_eq!(ollama_tags_url("http://localhost:11434//"), "http://localhost:11434/api/tags");
}

#[test]
fn retryable_errors_and_delays() {
    assert!(should_retry("API error (429): slow down"));
    assert!(should_retry("API error (503): unavailable"));
    assert!(should_retry("Connection refused"));
    assert!(should_retry("request Timed Out"));
    assert!(!should_retry("API error (400): bad request"));
    assert_eq!(retry_delay_ms(0), 1000);
    assert_eq!(retry_delay_ms(1), 2000);
    assert_eq!(retry_delay_ms(2), 4000);
}

#[test]
fn json_mode_shapes_requests_per_provider() {
    let messages = vec![
        OpenAIMessage { role: "system".to_string(), content: "be brief".to_string() },
        OpenAIMessage { role: "user".to_string(), content: "hi".to_string() },
    ];
    let model = "m".to_string();
    let remote = build_chat_request(LLMProvider::OpenAI, &model, messages, 3, 500, true);
    assert_eq!(remote.temperature_tenths, 3);
    assert_eq!(remote.max_tokens, 500);
    assert_eq!(remote.response_format.as_ref().map(|f| f.format_type.as_str()), Some("json_object"));
    assert_eq!(remote.messages[0].content, "be brief");

    let messages = vec![
        OpenAIMessage { role: "system".to_string(), content: "be brief".to_string() },
        OpenAIMessage { role: "user".to_string(), content: "hi".to_string() },
    ];
    let local = build_chat_request(LLMProvider::Ollama, &model, messages, 3, 500, true);
    assert!(local.response_format.is_none());
    assert!(local.messages[0].content.starts_with("be brief"));
    assert!(local.messages[0].content.contains("raw JSON object"));
    assert_eq!(local.messages[1].content, "hi");
}

#[test]
fn json_extraction_round_trips() {
    let payload = "{\"priority\": \"fyi\", \"summary\": \"ok\"}";

    // Raw content that is already the object.
    assert_eq!(extract_json(payload).as_deref(), Some(payload));

    // One layer of fencing with a language tag.
    let fenced = format!("```json\n{}\n```", payload);
    assert_eq!(extract_json(&fenced).as_deref(), Some(payload));

    // Surrounding prose.
    let wrapped = format!("prefix {} suffix", payload);
    assert_eq!(extract_json(&wrapped).as_deref(), Some(payload));

    assert_eq!(extract_json("no object here"), None);
}

#[test]
fn prompts_lay_out_messages() {
    let ms = vec![
        ("Ada".to_string(), "hello".to_string()),
        ("Bob".to_string(), "hi".to_string()),
    ];
    let summary = format_summary_user_prompt("Team", "group", &ms);
    assert_eq!(
        summary,
        "Analyze this conversation and provide a detailed summary:\n\nChat: Team (group)\n\nMessages:\nAda: hello\nBob: hi\n\nProvide your analysis in JSON format."
    );

    let briefing = format_briefing_v2_user_prompt("Team", "group", 2, false, true, "3.5", true, &ms);
    assert!(briefing.starts_with("Chat: Team (group)\n\nSIGNALS:\n- unread_count: 2\n"));
    assert!(briefing.contains("- last_message_is_outgoing: false\n"));
    assert!(briefing.contains("- has_unanswered_question: true\n"));
    assert!(briefing.contains("- hours_since_last_activity: 3.5\n"));
    assert!(briefing.ends_with("MESSAGES:\n[Ada]: hello\n[Bob]: hi"));

    let triples = vec![
        ("You".to_string(), "hey".to_string(), true),
        ("Ada".to_string(), "yo".to_string(), false),
    ];
    let draft = format_draft_user_prompt("Ada", &triples);
    assert!(draft.contains("Chat with: Ada"));
    assert!(draft.contains("You: hey\nAda: yo"));
    assert!(draft.contains("The last message was from Ada. Write a reply to them."));

    assert!(BRIEFING_V2_SYSTEM_PROMPT.contains("NEEDS_REPLY"));
    assert!(DETAILED_SUMMARY_PROMPT.contains("key_points"));
    assert!(DRAFT_SYSTEM_PROMPT.contains("draft"));
}

fn briefing_source(id: i32, chat_id: i64, priority: &str, unread: i32) -> telegram_copilot::briefing::BriefingResult {
    briefing_result_of_reply(
        id,
        chat_id,
        format!("chat {}", chat_id),
        "dm".to_string(),
        unread,
        None,
        None,
        Some(AIBriefingResponse {
            priority: priority.to_string(),
            summary: "s".to_string(),
            suggested_reply: None,
        }),
    )
}

#[test]
fn briefing_partitions_and_orders_by_priority() {
    let results = vec![
        briefing_source(1, 10, "FYI", 1),
        briefing_source(2, 20, "needs_reply", 2),
        briefing_source(3, 30, "Urgent", 4),
        briefing_source(4, 40, "needs_reply", 8),
    ];
    let resp = assemble_briefing(results, "now".to_string());
    let ids: Vec<i32> = resp.needs_response.iter().map(|i| i.id).collect();
    assert_eq!(ids, vec![3, 2, 4]);
    assert_eq!(resp.needs_response[0].priority, "urgent");
    assert_eq!(resp.fyi_summaries.len(), 1);
    assert_eq!(resp.fyi_summaries[0].id, 1);
    assert_eq!(resp.fyi_summaries[0].priority, "fyi");
    assert_eq!(resp.stats.needs_response_count, 3);
    assert_eq!(resp.stats.fyi_count, 1);
    assert_eq!(resp.stats.total_unread, 15);
    assert!(!resp.cached);
    assert!(resp.cache_age.is_none());
}

#[test]
fn unparsed_replies_fall_back_to_fyi() {
    let r = briefing_result_of_reply(
        1,
        7,
        "c".to_string(),
        "dm".to_string(),
        0,
        None,
        None,
        None,
    );
    assert_eq!(r.priority, "fyi");
    assert_eq!(r.summary, "Unable to analyze this chat");
    assert!(r.suggested_reply.is_none());
}

#[test]
fn briefing_cache_reuse_is_order_blind() {
    let mut cache = BriefingCache::new();
    let results = vec![briefing_source(1, 10, "urgent", 1)];
    let resp = assemble_briefing(results, "t0".to_string());

    let key_one = generate_chat_ids_key(&vec![10, 20, 30]);
    cache.0.set(&key_one, resp, 100);

    // The permuted id list reaches the same entry.
    let key_two = generate_chat_ids_key(&vec![30, 20, 10]);
    let (hit, age) = cache.0.get(&key_two, 600, 160).expect("fresh entry");
    assert_eq!(age, 60);
    let served = cached_briefing(hit, age);
    assert!(served.cached);
    assert_eq!(served.cache_age.as_deref(), Some("1m ago"));
    assert_eq!(served.needs_response.len(), 1);

    // Past the TTL the entry no longer serves.
    assert!(cache.0.get(&key_two, 600, 701).is_none());
}

#[test]
fn summaries_keep_submission_order() {
    let chat = ChatSummaryContext {
        chat_id: 5,
        chat_title: "T".to_string(),
        chat_type: "group".to_string(),
        messages: vec![],
        unread_count: 0,
    };
    let parsed = AISummaryResponse {
        summary: "all good".to_string(),
        key_points: vec!["a".to_string()],
        action_items: vec![],
        sentiment: "positive".to_string(),
        needs_response: true,
    };
    let row = summary_result_of_reply(chat, "group".to_string(), parsed, 3, 999);
    assert_eq!(row.summary, "all good");
    assert!(row.needs_response);

    let fallback_chat = ChatSummaryContext {
        chat_id: 6,
        chat_title: "U".to_string(),
        chat_type: "group".to_string(),
        messages: vec![],
        unread_count: 0,
    };
    let fallback = create_fallback_summary(fallback_chat, "group".to_string(), 0, 1);
    assert_eq!(fallback.summary, "Unable to generate summary");
    assert_eq!(fallback.sentiment, "neutral");
    assert!(!fallback.needs_response);

    let resp = assemble_batch_summary(vec![row, fallback], 12345);
    assert_eq!(resp.total_count, 2);
    assert_eq!(resp.summaries[0].chat_id, 5);
    assert_eq!(resp.summaries[1].chat_id, 6);
    assert_eq!(resp.generated_at, 12345);
    assert!(!resp.cached);
}

#[test]
fn drafts_are_trimmed_verbatim() {
    let resp = draft_response_of("  Sure, tomorrow works!  \n", 77);
    assert_eq!(resp.draft, "Sure, tomorrow works!");
    assert_eq!(resp.chat_id, 77);
}

#[test]
fn previews_cut_at_character_boundaries() {
    let short = message_preview("hello");
    assert_eq!(short, "hello");
    let long: String = "é".repeat(400);
    let preview = message_preview(&long);
    assert_eq!(preview.chars().count(), 303);
    assert!(preview.ends_with("..."));
    assert!(preview.starts_with("ééé"));
}

#[test]
fn message_windows_take_the_tail() {
    let messages: Vec<ChatMessage> = (0..5)
        .map(|i| ChatMessage {
            id: i,
            sender_name: format!("s{}", i),
            text: format!("m{}", i),
            date: i,
            is_outgoing: false,
        })
        .collect();
    let pairs = tail_message_pairs(&messages, 2);
    assert_eq!(pairs.len(), 2);
    assert_eq!(pairs[0], ("s3".to_string(), "m3".to_string()));
    assert_eq!(pairs[1], ("s4".to_string(), "m4".to_string()));

    let drafts = vec![
        DraftMessage { sender_name: "Ada".to_string(), text: "q".to_string(), is_outgoing: false },
        DraftMessage { sender_name: "Me".to_string(), text: "a".to_string(), is_outgoing: true },
    ];
    let triples = tail_draft_triples(&drafts, 15);
    assert_eq!(triples[0], ("Ada".to_string(), "q".to_string(), false));
    assert_eq!(triples[1], ("You".to_string(), "a".to_string(), true));
}

#[test]
fn contact_store_tracks_tags_notes_and_dates() {
    let mut store = ContactStore::new();
    store.add_contact_tag(1, "vip");
    store.add_contact_tag(1, "vip");
    store.add_contact_tag(1, "work");
    store.add_contact_tag(2, "vip");
    assert_eq!(store.get_contact_tags(1), vec!["vip".to_string(), "work".to_string()]);

    let all = store.get_all_tags();
    assert_eq!(all[0], ("vip".to_string(), 2));
    assert_eq!(all[1], ("work".to_string(), 1));

    store.remove_contact_tag(1, "vip");
    assert_eq!(store.get_contact_tags(1), vec!["work".to_string()]);

    assert_eq!(store.get_contact_notes(1), "");
    store.update_contact_notes(1, "met at the meetup");
    assert_eq!(store.get_contact_notes(1), "met at the meetup");

    assert_eq!(store.get_last_contact_date(1), None);
    store.update_last_contact_date(1, 500);
    store.update_last_contact_date(1, 300);
    // The stored date never moves backwards.
    assert_eq!(store.get_last_contact_date(1), Some(500));
}

#[test]
fn scope_store_updates_by_id_and_lists_sorted() {
    let mut scopes = ScopeStore::new();
    let make = |id: &str, name: &str, included: Vec<i64>| ScopeProfile {
        id: id.to_string(),
        name: name.to_string(),
        config: ScopeConfig {
            folder_ids: vec![3],
            chat_types: vec!["group".to_string()],
            excluded_chat_ids: vec![],
            included_chat_ids: included,
        },
        is_default: false,
        created_at: 1,
        updated_at: 1,
    };
    assert!(scopes.save_scope(make("id-1", "work", vec![10])).is_ok());
    assert!(scopes.save_scope(make("id-2", "family", vec![20])).is_ok());

    // Names come back ascending whatever the save order was.
    assert_eq!(scopes.list_scopes(), vec!["family".to_string(), "work".to_string()]);

    // A fresh id may not take a name that is already in use.
    assert!(scopes.save_scope(make("id-3", "work", vec![])).is_err());

    // The same id updates its profile, renaming included.
    assert!(scopes.save_scope(make("id-1", "clients", vec![11])).is_ok());
    assert_eq!(
        scopes.list_scopes(),
        vec!["clients".to_string(), "family".to_string()]
    );
    assert!(scopes.load_scope("work").is_none());
    assert_eq!(
        scopes.load_scope("clients").map(|p| p.config.included_chat_ids.clone()),
        Some(vec![11])
    );
    // Renaming onto another profile's name is refused.
    assert!(scopes.save_scope(make("id-1", "family", vec![])).is_err());

    scopes.delete_scope("clients");
    assert!(scopes.load_scope("clients").is_none());
    assert_eq!(scopes.list_scopes(), vec!["family".to_string()]);
}

#[test]
fn json_parse_errors_carry_the_content() {
    let ok = parse_json_reply("{\"a\": 1}", "briefing");
    assert_eq!(ok.as_deref(), Ok("{\"a\": 1}"));
    let err = parse_json_reply("no json here", "briefing").unwrap_err();
    assert_eq!(
        err,
        "JSON parse error for briefing: could not extract valid JSON from content: no json here"
    );
    assert_eq!(
        json_parse_failure("summary", "xyz"),
        "JSON parse error for summary: could not extract valid JSON from content: xyz"
    );
}

#[test]
fn contacts_are_enriched_from_scan_and_store() {
    let mut store = ContactStore::new();
    store.add_contact_tag(1, "vip");
    store.update_contact_notes(1, "friend");
    store.update_last_contact_date(2, 1000);

    let users = vec![
        telegram_copilot::auth::User {
            id: 1,
            first_name: "Ada".to_string(),
            last_name: "L".to_string(),
            username: Some("ada".to_string()),
            phone_number: None,
            profile_photo_url: None,
        },
        telegram_copilot::auth::User {
            id: 2,
            first_name: "Bob".to_string(),
            last_name: String::new(),
            username: None,
            phone_number: None,
            profile_photo_url: None,
        },
    ];
    let chats = vec![telegram_copilot::chats::Chat {
        id: 1,
        chat_type: "private".to_string(),
        title: "Ada L".to_string(),
        unread_count: 3,
        is_pinned: false,
        order: -2000,
        photo: None,
        last_message: Some(telegram_copilot::chats::Message {
            id: 9,
            chat_id: 1,
            sender_id: 1,
            sender_name: "Ada".to_string(),
            content: telegram_copilot::chats::MessageContent::Text { text: "hi".to_string() },
            date: 2000,
            is_outgoing: false,
            is_read: true,
        }),
        member_count: None,
        is_muted: false,
        is_archived: false,
        is_bot: false,
        is_contact: true,
    }];

    let rows = enrich_contacts(&users, &chats, &store, 2000 + 86400 * 2);
    assert_eq!(rows.len(), 2);
    assert_eq!(rows[0].tags, vec!["vip".to_string()]);
    assert_eq!(rows[0].notes, "friend");
    assert_eq!(rows[0].last_contact_date, Some(2000));
    assert_eq!(rows[0].days_since_contact, Some(2));
    assert_eq!(rows[0].unread_count, Some(3));
    // No private chat for the second user: the store date stands in.
    assert_eq!(rows[1].last_contact_date, Some(1000));
    assert_eq!(rows[1].unread_count, None);
    assert_eq!(rows[1].notes, "");
}
