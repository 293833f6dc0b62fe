use telegram_copilot::auth::{
    AuthMachine, AuthState, PasswordOutcome, SessionAction, SignInOutcome, User,
};
use telegram_copilot::chats::{
    chat_passes_filters, convert_folders, dialog_to_chat, is_connection_error, Chat, ChatCache,
    ChatFilters, ChatKind, DialogFilterRecord, DialogRecord, PeerRef, TelegramConfig,
};
use telegram_copilot::errors::TelegramError;
use telegram_copilot::outreach::{
    build_queue, build_recipients, extract_flood_wait_seconds, flood_wait_for_error,
    personalize_message, validate_outreach_request, DriverAction, OutreachManager,
    OutreachRecipient,
};
use telegram_copilot::offboard::{
    kick_plan, summarize_common_chat, ChatDataCache, KickAction, RawChat, UserAccessHashCache,
};
use telegram_copilot::rate_limiter::RateLimiter;

fn sample_user(id: i64, first: &str, last: &str) -> User {
    User {
        id,
        first_name: first.to_string(),
        last_name: last.to_string(),
        username: None,
        phone_number: None,
        profile_photo_url: None,
    }
}

#[test]
fn first_time_login_reaches_ready() {
    let mut machine = AuthMachine::new();
    assert!(matches!(machine.auth_state(), AuthState::WaitPhoneNumber));

    let act = machine.phone_accepted("+15550100".to_string());
    assert_eq!(act, SessionAction::Keep);
    match machine.auth_state() {
        AuthState::WaitCode { phone_number } => assert_eq!(phone_number, "+15550100"),
        other => panic!("unexpected state {:?}", other),
    }

    let me = sample_user(9, "Ada", "L");
    let r = machine.code_checked(SignInOutcome::SignedIn(me), true);
    assert!(r.is_ok());
    assert!(matches!(machine.auth_state(), AuthState::Ready));
    assert!(machine.current_user().is_some());
}

#[test]
fn second_factor_flow_reaches_ready() {
    let mut machine = AuthMachine::new();
    machine.phone_accepted("+15550100".to_string());
    let r = machine.code_checked(
        SignInOutcome::PasswordRequired { hint: "family pet".to_string() },
        true,
    );
    match r {
        Err(TelegramError::TwoFactorRequired { hint }) => assert_eq!(hint, "family pet"),
        other => panic!("unexpected result {:?}", other),
    }
    match machine.auth_state() {
        AuthState::WaitPassword { hint } => assert_eq!(hint, "family pet"),
        other => panic!("unexpected state {:?}", other),
    }

    let me = sample_user(9, "Ada", "L");
    let r = machine.password_checked(PasswordOutcome::Accepted(me), true);
    assert!(r.is_ok());
    assert!(matches!(machine.auth_state(), AuthState::Ready));
}

#[test]
fn invalid_code_keeps_state_and_token() {
    let mut machine = AuthMachine::new();
    machine.phone_accepted("+15550100".to_string());
    let r = machine.code_checked(SignInOutcome::InvalidCode, true);
    assert!(matches!(r, Err(TelegramError::InvalidCode)));
    assert!(matches!(machine.auth_state(), AuthState::WaitCode { .. }));
    // The login token survives, so the code can be retried.
    let me = sample_user(9, "Ada", "L");
    assert!(machine.code_checked(SignInOutcome::SignedIn(me), true).is_ok());
}

#[test]
fn ready_needs_a_persisted_session() {
    let mut machine = AuthMachine::new();
    machine.phone_accepted("+15550100".to_string());
    let me = sample_user(9, "Ada", "L");
    let r = machine.code_checked(SignInOutcome::SignedIn(me), false);
    assert!(matches!(r, Err(TelegramError::Session(_))));
    assert!(matches!(machine.auth_state(), AuthState::WaitCode { .. }));
}

#[test]
fn logout_returns_to_start_and_removes_session() {
    let mut machine = AuthMachine::new();
    let _ = machine.connect_completed(true, Some(sample_user(9, "Ada", "L")));
    assert!(matches!(machine.auth_state(), AuthState::Ready));
    let act = machine.logged_out();
    assert_eq!(act, SessionAction::Remove);
    assert!(matches!(machine.auth_state(), AuthState::WaitPhoneNumber));
    assert!(machine.current_user().is_none());
}

#[test]
fn personalization_replaces_placeholders() {
    assert_eq!(personalize_message("Hi {first_name}", "Alice", "Smith"), "Hi Alice");
    assert_eq!(personalize_message("Hi {name} {last_name}", "Alice", "Smith"), "Hi Alice Smith");
    assert_eq!(personalize_message("Dear {full_name}", "Alice", "Smith"), "Dear Alice Smith");
    assert_eq!(personalize_message("Dear {full_name}", "Alice", ""), "Dear Alice");
    assert_eq!(personalize_message("Hi {name}", "", "Smith"), "Hi there");
}

#[test]
fn flood_wait_seconds_are_extracted() {
    assert_eq!(extract_flood_wait_seconds("rpc error: FLOOD_WAIT_30"), Some(30));
    assert_eq!(extract_flood_wait_seconds("please wait for 45 seconds"), Some(45));
    assert_eq!(extract_flood_wait_seconds("no numbers at all"), Some(60));
    assert_eq!(extract_flood_wait_seconds("huge 99999999 ignored, use 120"), Some(120));
}

#[test]
fn outreach_queue_runs_in_submission_order() {
    let mut manager = OutreachManager::new();
    let mut limiter = RateLimiter::new(2);
    let contacts = vec![sample_user(1, "Alice", ""), sample_user(2, "Bob", "Stone")];
    let recipients = build_recipients(&vec![1, 2], &contacts);
    assert_eq!(recipients.len(), 2);
    assert_eq!(recipients[0].first_name, "Alice");
    assert_eq!(recipients[1].last_name, "Stone");

    let queue = build_queue(recipients, "Hi {first_name}".to_string(), 1000);
    let queue_id = queue.id.clone();
    assert_eq!(queue_id.len(), 36);
    assert_eq!(queue.status, "running");
    assert_eq!(queue.started_at, Some(1000));
    // The caller persists the built queue first; only then does it
    // enter the ledger.
    manager.create_queue(queue);

    match manager.next_driver_action(&queue_id, &limiter, 0) {
        DriverAction::SendTo { user_id, message } => {
            assert_eq!(user_id, 1);
            assert_eq!(message, "Hi Alice");
        },
        other => panic!("unexpected action {:?}", other),
    }
    limiter.record_send(1, 0);
    manager.update_recipient_status(&queue_id, 1, "sent", None, 1000);

    match manager.next_driver_action(&queue_id, &limiter, 0) {
        DriverAction::SendTo { user_id, message } => {
            assert_eq!(user_id, 2);
            assert_eq!(message, "Hi Bob");
        },
        other => panic!("unexpected action {:?}", other),
    }
    limiter.record_send(2, 0);
    manager.update_recipient_status(&queue_id, 2, "sent", None, 1002);

    assert!(matches!(manager.next_driver_action(&queue_id, &limiter, 2), DriverAction::Finish));
    manager.complete_queue(&queue_id, 1002);

    let q = manager.get_status(&queue_id).expect("queue");
    assert_eq!(q.status, "completed");
    assert_eq!(q.sent_count, 2);
    assert_eq!(q.failed_count, 0);
    assert_eq!(q.recipients[0].status, "sent");
    assert_eq!(q.recipients[1].status, "sent");
    assert_eq!(q.recipients[0].sent_at, Some(1000));
}

#[test]
fn outreach_cancellation_stops_the_driver() {
    let mut manager = OutreachManager::new();
    let limiter = RateLimiter::new(60);
    let contacts = vec![sample_user(1, "A", ""), sample_user(2, "B", ""), sample_user(3, "C", "")];
    let recipients = build_recipients(&vec![1, 2, 3], &contacts);
    let queue = build_queue(recipients, "hello {name}".to_string(), 0);
    let queue_id = queue.id.clone();
    manager.create_queue(queue);

    manager.update_recipient_status(&queue_id, 1, "sent", None, 0);
    assert!(manager.cancel(&queue_id, 5).is_ok());
    assert!(manager.is_cancelled(&queue_id));
    assert!(matches!(manager.next_driver_action(&queue_id, &limiter, 6), DriverAction::Stop));

    let q = manager.get_status(&queue_id).expect("queue");
    assert_eq!(q.status, "cancelled");
    assert_eq!(q.recipients[1].status, "pending");
    assert_eq!(q.recipients[2].status, "pending");
    assert_eq!(q.sent_count, 1);
}

#[test]
fn outreach_failure_is_recorded_per_recipient() {
    let mut manager = OutreachManager::new();
    let contacts = vec![sample_user(1, "A", "")];
    let recipients = build_recipients(&vec![1], &contacts);
    let queue = build_queue(recipients, "x".to_string(), 0);
    let queue_id = queue.id.clone();
    manager.create_queue(queue);
    manager.update_recipient_status(&queue_id, 1, "failed", Some("FLOOD_WAIT_30".to_string()), 9);
    let q = manager.get_status(&queue_id).expect("queue");
    assert_eq!(q.failed_count, 1);
    assert_eq!(q.sent_count, 0);
    assert_eq!(q.recipients[0].status, "failed");
    assert_eq!(q.recipients[0].error.as_deref(), Some("FLOOD_WAIT_30"));
    assert_eq!(q.recipients[0].sent_at, None);

    assert!(matches!(
        manager.cancel("no-such-queue", 0),
        Err(telegram_copilot::errors::OutreachError::QueueNotFound(_))
    ));
}

#[test]
fn restored_queues_recount_from_rows() {
    let mut manager = OutreachManager::new();
    let queue = telegram_copilot::outreach::OutreachQueue {
        id: "q1".to_string(),
        template: "t".to_string(),
        recipients: vec![
            OutreachRecipient {
                user_id: 1,
                first_name: String::new(),
                last_name: String::new(),
                status: "sent".to_string(),
                error: None,
                sent_at: Some(5),
            },
            OutreachRecipient {
                user_id: 2,
                first_name: String::new(),
                last_name: String::new(),
                status: "pending".to_string(),
                error: None,
                sent_at: None,
            },
        ],
        status: "running".to_string(),
        started_at: Some(1),
        completed_at: None,
        sent_count: 0,
        failed_count: 0,
    };
    manager.restore_queue(queue);
    let q = manager.get_status("q1").expect("queue");
    assert_eq!(q.sent_count, 1);
    assert_eq!(q.failed_count, 0);
}

fn dialog(id: i64, kind: ChatKind) -> DialogRecord {
    DialogRecord {
        is_folder_entry: false,
        folder_id: None,
        kind,
        id,
        title: format!("chat {}", id),
        unread_count: 1,
        pinned: false,
        mute_until: None,
        silent: None,
        member_count: None,
        last_message: None,
    }
}

#[test]
fn dialog_scan_filters_and_caches() {
    let mut cache = ChatCache::new();
    assert!(!cache.loaded());
    let dialogs = vec![
        dialog(1, ChatKind::Private { is_bot: false, is_contact: true }),
        dialog(2, ChatKind::Private { is_bot: true, is_contact: false }),
        dialog(3, ChatKind::Group),
        dialog(4, ChatKind::Channel),
    ];
    let filters = ChatFilters::default();
    let shown = cache.scan_dialogs(&dialogs, &filters, 10, 0);
    // Default filters leave the bot conversation out but cache it anyway.
    let ids: Vec<i64> = shown.iter().map(|c| c.id).collect();
    assert_eq!(ids, vec![1, 3, 4]);
    assert!(cache.loaded());
    assert!(cache.lookup(2).is_some());
    assert_eq!(cache.lookup(3).map(|c| c.chat_type.as_str()), Some("group"));

    // Invalidation on logout empties the cache until the next scan.
    cache.invalidate_cache();
    assert!(cache.lookup(1).is_none());
    assert!(cache.lookup(2).is_none());
    assert!(!cache.loaded());
}

#[test]
fn scan_respects_the_limit() {
    let mut cache = ChatCache::new();
    let dialogs = vec![dialog(1, ChatKind::Group), dialog(2, ChatKind::Group), dialog(3, ChatKind::Group)];
    let shown = cache.scan_dialogs(&dialogs, &ChatFilters::default(), 2, 0);
    assert_eq!(shown.len(), 2);
    assert_eq!(shown[0].id, 1);
    assert_eq!(shown[1].id, 2);
    // The third dialog was never read, so it is not cached either.
    assert!(cache.lookup(3).is_none());
}

#[test]
fn folder_selection_is_additive() {
    let mut muted_bot = dialog(42, ChatKind::Private { is_bot: true, is_contact: false });
    muted_bot.mute_until = Some(1);
    muted_bot.folder_id = Some(1);
    let chat = dialog_to_chat(&muted_bot, 0);
    assert!(chat.is_muted);
    assert!(chat.is_archived);
    assert!(chat.is_bot);

    let mut filters = ChatFilters::default();
    assert!(!chat_passes_filters(&chat, &filters));
    filters.folder_chat_ids = vec![42];
    assert!(chat_passes_filters(&chat, &filters));
    filters.folder_chat_ids = vec![41];
    assert!(!chat_passes_filters(&chat, &filters));
}

#[test]
fn size_and_unread_gates_apply_to_groups() {
    let mut d = dialog(7, ChatKind::Group);
    d.member_count = Some(50);
    let chat = dialog_to_chat(&d, 0);
    let mut filters = ChatFilters::default();
    filters.group_size_min = Some(100);
    assert!(!chat_passes_filters(&chat, &filters));
    filters.group_size_min = Some(10);
    filters.group_size_max = Some(40);
    assert!(!chat_passes_filters(&chat, &filters));
    // A bound above one thousand means no upper limit.
    filters.group_size_max = Some(1001);
    assert!(chat_passes_filters(&chat, &filters));

    let mut read_dialog = dialog(8, ChatKind::Group);
    read_dialog.unread_count = 0;
    let read_chat = dialog_to_chat(&read_dialog, 0);
    let mut unread_only = ChatFilters::default();
    unread_only.include_unread_only = true;
    assert!(!chat_passes_filters(&read_chat, &unread_only));
}

#[test]
fn titles_are_trimmed_and_order_is_recency() {
    let mut d = dialog(7, ChatKind::Private { is_bot: false, is_contact: true });
    d.title = "  Ada L  ".to_string();
    d.last_message = Some(telegram_copilot::chats::Message {
        id: 1,
        chat_id: 7,
        sender_id: 7,
        sender_name: "Ada".to_string(),
        content: telegram_copilot::chats::MessageContent::Text { text: "hi".to_string() },
        date: 1000,
        is_outgoing: false,
        is_read: true,
    });
    let chat = dialog_to_chat(&d, 0);
    assert_eq!(chat.title, "Ada L");
    assert_eq!(chat.order, -1000);
    assert_eq!(chat.chat_type, "private");
}

#[test]
fn folders_skip_default_and_chatlists() {
    let records = vec![
        DialogFilterRecord::DefaultList,
        DialogFilterRecord::Named {
            id: 3,
            title: "Work".to_string(),
            emoticon: None,
            include_peers: vec![PeerRef::ChatPeer(10), PeerRef::UserPeer(20), PeerRef::Other],
            exclude_peers: vec![PeerRef::ChannelPeer(30)],
            contacts: true,
            non_contacts: false,
            groups: true,
            broadcasts: false,
            bots: false,
        },
        DialogFilterRecord::Chatlist,
    ];
    let folders = convert_folders(&records);
    assert_eq!(folders.len(), 1);
    assert_eq!(folders[0].id, 3);
    assert_eq!(folders[0].title, "Work");
    assert_eq!(folders[0].included_chat_ids, vec![10, 20]);
    assert_eq!(folders[0].excluded_chat_ids, vec![30]);
}

#[test]
fn transport_reset_texts_are_recognized() {
    assert!(is_connection_error("read 0 bytes"));
    assert!(is_connection_error("IO failed: broken pipe"));
    assert!(is_connection_error("connection reset by peer"));
    assert!(is_connection_error("request timed out"));
    assert!(!is_connection_error("PHONE_NUMBER_INVALID"));
    let config = TelegramConfig::default();
    assert_eq!(config.session_file, "telegram.session");
    assert_eq!(config.api_id, 0);
}

#[test]
fn offboard_kick_depends_on_chat_kind() {
    let basic = RawChat::Basic {
        id: 5,
        title: "G".to_string(),
        participants_count: 4,
        has_admin_rights: true,
        is_creator: false,
    };
    assert_eq!(
        kick_plan(&basic, 9, 77),
        Ok(KickAction::DeleteFromBasicGroup { chat_id: 5, user_id: 9, user_access_hash: 77 })
    );

    let channel = RawChat::Broadcast {
        id: 6,
        title: "C".to_string(),
        participants_count: Some(100),
        access_hash: Some(123),
        has_admin_rights: false,
        is_creator: true,
    };
    assert_eq!(
        kick_plan(&channel, 9, 77),
        Ok(KickAction::BanInBroadcast {
            channel_id: 6,
            channel_access_hash: 123,
            user_id: 9,
            user_access_hash: 77,
        })
    );

    let forbidden = RawChat::Forbidden { id: 7, title: "F".to_string() };
    assert!(matches!(kick_plan(&forbidden, 9, 77), Err(TelegramError::Api(_))));

    let group = summarize_common_chat(&basic);
    assert!(group.can_remove);
    assert_eq!(group.member_count, Some(4));
    let no_rights = summarize_common_chat(&forbidden);
    assert!(!no_rights.can_remove);
}

#[test]
fn offboard_caches_hold_hashes_and_raw_chats() {
    let mut hashes = UserAccessHashCache::new();
    assert_eq!(hashes.get(1), None);
    hashes.populate_from_contacts(&vec![(1, 11), (2, 22)]);
    assert_eq!(hashes.get(1), Some(11));
    assert_eq!(hashes.get(2), Some(22));
    hashes.set(1, 99);
    assert_eq!(hashes.get(1), Some(99));

    let mut chats = ChatDataCache::new();
    assert!(chats.get(5).is_none());
    chats.set(5, RawChat::EmptyChat { id: 5 });
    assert!(matches!(chats.get(5), Some(RawChat::EmptyChat { id: 5 })));
}

#[test]
fn parse_auth_state_recognizes_nothing() {
    assert!(telegram_copilot::auth::parse_auth_state_from_tdlib("anything").is_none());
}

#[test]
fn chat_equality_is_not_claimed_for_untouched_fields() {
    // A converted chat keeps the raw last message.
    let mut d = dialog(1, ChatKind::Group);
    d.last_message = None;
    let chat: Chat = dialog_to_chat(&d, 0);
    assert!(chat.last_message.is_none());
    assert!(chat.photo.is_none());
}

#[test]
fn flood_pattern_without_digits_falls_back() {
    // The first pattern finds `flood_wait_` but no digits follow, so the
    // bare-number scan takes over.
    assert_eq!(extract_flood_wait_seconds("rpc: FLOOD_WAIT_ then 77"), Some(77));
    // Numbers outside the plausible range never win.
    assert_eq!(extract_flood_wait_seconds("0 and 86400 are out"), Some(60));
}

#[test]
fn connect_outcomes_set_state_and_session_action() {
    let mut machine = AuthMachine::new();
    let act = machine.connect_completed(false, None);
    assert_eq!(act, SessionAction::Save);
    assert!(matches!(machine.auth_state(), AuthState::WaitPhoneNumber));
    let act = machine.connect_completed(true, Some(sample_user(4, "E", "F")));
    assert_eq!(act, SessionAction::Save);
    assert!(matches!(machine.auth_state(), AuthState::Ready));
}

#[test]
fn folder_entries_are_skipped_by_scans() {
    let mut cache = ChatCache::new();
    let mut folder_entry = dialog(9, ChatKind::Group);
    folder_entry.is_folder_entry = true;
    let dialogs = vec![folder_entry, dialog(10, ChatKind::Group)];
    let shown = cache.scan_dialogs(&dialogs, &ChatFilters::default(), 10, 0);
    assert_eq!(shown.len(), 1);
    assert_eq!(shown[0].id, 10);
    assert!(cache.lookup(9).is_none());
}


#[test]
fn mutes_expire_with_the_clock() {
    let mut d = dialog(3, ChatKind::Group);
    d.mute_until = Some(500);
    // Still muted while the mute lies ahead of the clock, not after.
    assert!(dialog_to_chat(&d, 400).is_muted);
    assert!(!dialog_to_chat(&d, 500).is_muted);
    assert!(!dialog_to_chat(&d, 600).is_muted);
}

#[test]
fn terminal_queue_statuses_stand() {
    let mut manager = OutreachManager::new();
    let contacts = vec![sample_user(1, "A", ""), sample_user(2, "B", "")];
    let recipients = build_recipients(&vec![1, 2], &contacts);
    let queue = build_queue(recipients, "x".to_string(), 0);
    let queue_id = queue.id.clone();
    manager.create_queue(queue);

    assert!(manager.cancel(&queue_id, 5).is_ok());
    // A completion racing in after the cancellation cannot overwrite it.
    manager.complete_queue(&queue_id, 6);
    assert_eq!(manager.get_status(&queue_id).expect("queue").status, "cancelled");
    // A second cancellation is refused as already cancelled.
    assert!(matches!(
        manager.cancel(&queue_id, 7),
        Err(telegram_copilot::errors::OutreachError::AlreadyCancelled)
    ));

    // A completed queue is terminal too: cancelling it changes nothing.
    let recipients = build_recipients(&vec![1], &contacts);
    let queue = build_queue(recipients, "y".to_string(), 0);
    let done_id = queue.id.clone();
    manager.create_queue(queue);
    manager.update_recipient_status(&done_id, 1, "sent", None, 1);
    manager.complete_queue(&done_id, 2);
    assert!(manager.cancel(&done_id, 3).is_ok());
    assert_eq!(manager.get_status(&done_id).expect("queue").status, "completed");
}

#[test]
fn outreach_requests_are_validated() {
    assert_eq!(
        validate_outreach_request(&vec![], "hello"),
        Err(telegram_copilot::errors::OutreachError::NoRecipients)
    );
    assert_eq!(
        validate_outreach_request(&vec![1], "   \t  "),
        Err(telegram_copilot::errors::OutreachError::EmptyTemplate)
    );
    assert_eq!(validate_outreach_request(&vec![1], " hi "), Ok(()));
}

#[test]
fn flood_gate_fires_only_on_named_waits() {
    // The driver pauses globally only when the text names a wait.
    assert_eq!(flood_wait_for_error("FLOOD_WAIT_30"), Some(30));
    assert_eq!(flood_wait_for_error("retry in 45"), Some(45));
    assert_eq!(flood_wait_for_error("PEER_ID_INVALID"), None);
    // The compatibility extractor still defaults to a minute.
    assert_eq!(extract_flood_wait_seconds("PEER_ID_INVALID"), Some(60));
}
