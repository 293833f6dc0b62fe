//! Chats, messages, folders, the composable chat filters applied during
//! dialog scans, and the chat object cache filled by those scans.
//!
//! A dialog scan is modeled as a list of plain [`DialogRecord`] values:
//! the surrounding program reads them off the transport and hands them
//! in, and the verified scan filters them, converts them, and fills the
//! cache, exactly as the filter semantics prescribe.

use vstd::prelude::*;
use std::collections::HashMap;
use crate::strutil::{trimmed, trim_str, contains_seq, str_contains, str_eq};
use crate::auth::{AuthState, User};

verus! {

broadcast use vstd::std_specs::hash::group_hash_axioms;

/// Content of a message, by kind.
#[derive(Debug, Clone)]
pub enum MessageContent {
    Text { text: String },
    Photo { caption: Option<String> },
    Video { caption: Option<String> },
    Document { file_name: String },
    Voice { duration: i32 },
    Sticker { emoji: Option<String> },
    Unknown,
}

/// Spec-level content of a message.
pub enum ContentView {
    Text(Seq<char>),
    Photo(Option<Seq<char>>),
    Video(Option<Seq<char>>),
    Document(Seq<char>),
    Voice(i32),
    Sticker(Option<Seq<char>>),
    Unknown,
}

pub open spec fn opt_str_view(o: Option<String>) -> Option<Seq<char>> {
    match o {
        Some(s) => Some(s@),
        None => None,
    }
}

impl View for MessageContent {
    type V = ContentView;

    open spec fn view(&self) -> ContentView {
        match self {
            MessageContent::Text { text } => ContentView::Text(text@),
            MessageContent::Photo { caption } => ContentView::Photo(opt_str_view(*caption)),
            MessageContent::Video { caption } => ContentView::Video(opt_str_view(*caption)),
            MessageContent::Document { file_name } => ContentView::Document(file_name@),
            MessageContent::Voice { duration } => ContentView::Voice(*duration),
            MessageContent::Sticker { emoji } => ContentView::Sticker(opt_str_view(*emoji)),
            MessageContent::Unknown => ContentView::Unknown,
        }
    }
}

/// A message of a chat.
#[derive(Debug, Clone)]
pub struct Message {
    pub id: i64,
    pub chat_id: i64,
    pub sender_id: i64,
    pub sender_name: String,
    pub content: MessageContent,
    pub date: i64,
    pub is_outgoing: bool,
    pub is_read: bool,
}

/// Spec-level message.
pub struct MessageView {
    pub id: i64,
    pub chat_id: i64,
    pub sender_id: i64,
    pub sender_name: Seq<char>,
    pub content: ContentView,
    pub date: i64,
    pub is_outgoing: bool,
    pub is_read: bool,
}

impl View for Message {
    type V = MessageView;

    open spec fn view(&self) -> MessageView {
        MessageView {
            id: self.id,
            chat_id: self.chat_id,
            sender_id: self.sender_id,
            sender_name: self.sender_name@,
            content: self.content@,
            date: self.date,
            is_outgoing: self.is_outgoing,
            is_read: self.is_read,
        }
    }
}

pub open spec fn opt_message_view(o: Option<Message>) -> Option<MessageView> {
    match o {
        Some(m) => Some(m@),
        None => None,
    }
}

/// A chat as produced by a dialog scan.
#[derive(Debug, Clone)]
pub struct Chat {
    pub id: i64,
    pub chat_type: String,
    pub title: String,
    pub unread_count: i32,
    pub is_pinned: bool,
    pub order: i64,
    pub photo: Option<String>,
    pub last_message: Option<Message>,
    pub member_count: Option<i32>,
    pub is_muted: bool,
    pub is_archived: bool,
    pub is_bot: bool,
    pub is_contact: bool,
}

/// Spec-level chat.
pub struct ChatView {
    pub id: i64,
    pub chat_type: Seq<char>,
    pub title: Seq<char>,
    pub unread_count: i32,
    pub is_pinned: bool,
    pub order: i64,
    pub photo: Option<Seq<char>>,
    pub last_message: Option<MessageView>,
    pub member_count: Option<i32>,
    pub is_muted: bool,
    pub is_archived: bool,
    pub is_bot: bool,
    pub is_contact: bool,
}

impl View for Chat {
    type V = ChatView;

    open spec fn view(&self) -> ChatView {
        ChatView {
            id: self.id,
            chat_type: self.chat_type@,
            title: self.title@,
            unread_count: self.unread_count,
            is_pinned: self.is_pinned,
            order: self.order,
            photo: opt_str_view(self.photo),
            last_message: opt_message_view(self.last_message),
            member_count: self.member_count,
            is_muted: self.is_muted,
            is_archived: self.is_archived,
            is_bot: self.is_bot,
            is_contact: self.is_contact,
        }
    }
}

/// The predicate set applied during dialog scans.
#[derive(Debug, Clone)]
pub struct ChatFilters {
    pub include_private_chats: bool,
    pub include_non_contacts: bool,
    pub include_groups: bool,
    pub include_channels: bool,
    pub include_bots: bool,
    pub include_archived: bool,
    pub include_muted: bool,
    pub group_size_min: Option<i32>,
    pub group_size_max: Option<i32>,
    pub selected_folder_ids: Vec<i32>,
    pub folder_chat_ids: Vec<i64>,
    pub include_unread_only: bool,
}

/// Spec-level chat filters.
pub struct FiltersView {
    pub include_private_chats: bool,
    pub include_non_contacts: bool,
    pub include_groups: bool,
    pub include_channels: bool,
    pub include_bots: bool,
    pub include_archived: bool,
    pub include_muted: bool,
    pub group_size_min: Option<i32>,
    pub group_size_max: Option<i32>,
    pub selected_folder_ids: Seq<i32>,
    pub folder_chat_ids: Seq<i64>,
    pub include_unread_only: bool,
}

impl View for ChatFilters {
    type V = FiltersView;

    open spec fn view(&self) -> FiltersView {
        FiltersView {
            include_private_chats: self.include_private_chats,
            include_non_contacts: self.include_non_contacts,
            include_groups: self.include_groups,
            include_channels: self.include_channels,
            include_bots: self.include_bots,
            include_archived: self.include_archived,
            include_muted: self.include_muted,
            group_size_min: self.group_size_min,
            group_size_max: self.group_size_max,
            selected_folder_ids: self.selected_folder_ids@,
            folder_chat_ids: self.folder_chat_ids@,
            include_unread_only: self.include_unread_only,
        }
    }
}

impl Default for ChatFilters {
    /// The default filter set: private chats, non-contacts, groups and
    /// channels are in; bots, archived and muted dialogs are out; no
    /// size bounds, no folder selection, read chats included.
    fn default() -> (r: Self)
        ensures
            r.include_private_chats && r.include_non_contacts && r.include_groups
                && r.include_channels,
            !r.include_bots && !r.include_archived && !r.include_muted,
            r.group_size_min is None && r.group_size_max is None,
            r@.selected_folder_ids.len() == 0 && r@.folder_chat_ids.len() == 0,
            !r.include_unread_only,
    {
        ChatFilters {
            include_private_chats: true,
            include_non_contacts: true,
            include_groups: true,
            include_channels: true,
            include_bots: false,
            include_archived: false,
            include_muted: false,
            group_size_min: None,
            group_size_max: None,
            selected_folder_ids: Vec::new(),
            folder_chat_ids: Vec::new(),
            include_unread_only: false,
        }
    }
}

/// A server-defined chat folder.
#[derive(Debug)]
pub struct Folder {
    pub id: i32,
    pub title: String,
    pub emoticon: Option<String>,
    pub included_chat_ids: Vec<i64>,
    pub excluded_chat_ids: Vec<i64>,
    pub include_contacts: bool,
    pub include_non_contacts: bool,
    pub include_groups: bool,
    pub include_channels: bool,
    pub include_bots: bool,
}

/// Spec-level folder.
pub struct FolderView {
    pub id: i32,
    pub title: Seq<char>,
    pub emoticon: Option<Seq<char>>,
    pub included_chat_ids: Seq<i64>,
    pub excluded_chat_ids: Seq<i64>,
    pub include_contacts: bool,
    pub include_non_contacts: bool,
    pub include_groups: bool,
    pub include_channels: bool,
    pub include_bots: bool,
}

impl View for Folder {
    type V = FolderView;

    open spec fn view(&self) -> FolderView {
        FolderView {
            id: self.id,
            title: self.title@,
            emoticon: opt_str_view(self.emoticon),
            included_chat_ids: self.included_chat_ids@,
            excluded_chat_ids: self.excluded_chat_ids@,
            include_contacts: self.include_contacts,
            include_non_contacts: self.include_non_contacts,
            include_groups: self.include_groups,
            include_channels: self.include_channels,
            include_bots: self.include_bots,
        }
    }
}

/// Events emitted to subscribers of the client.
#[derive(Debug, Clone)]
pub enum TelegramEvent {
    AuthStateChanged(AuthState),
    NewMessage(Message),
    ChatUpdated(Chat),
    UserUpdated(User),
    Error(String),
}

/// Static configuration of the client.
#[derive(Debug, Clone)]
pub struct TelegramConfig {
    pub api_id: i32,
    pub api_hash: String,
    pub session_file: String,
    pub use_test_dc: bool,
}

impl Default for TelegramConfig {
    /// An unconfigured client talking to nothing, with a relative
    /// session-file name to be replaced before connecting.
    fn default() -> (r: Self)
        ensures
            r.api_id == 0,
            r.api_hash@.len() == 0,
            r.session_file@ == "telegram.session"@,
            !r.use_test_dc,
    {
        TelegramConfig {
            api_id: 0,
            api_hash: String::new(),
            session_file: "telegram.session".to_owned(),
            use_test_dc: false,
        }
    }
}

/// What the scan reads off one dialog entry, as plain values.
#[derive(Debug)]
pub struct DialogRecord {
    /// Folder entries stand in the dialog list but are no chats.
    pub is_folder_entry: bool,
    /// Server-side folder of the dialog; folder 1 is the archive.
    pub folder_id: Option<i32>,
    pub kind: ChatKind,
    pub id: i64,
    pub title: String,
    pub unread_count: i32,
    pub pinned: bool,
    /// Raw notify settings: muted until this epoch second.
    pub mute_until: Option<i32>,
    /// Raw notify settings: sticky silent flag.
    pub silent: Option<bool>,
    pub member_count: Option<i32>,
    pub last_message: Option<Message>,
}

/// The kind of chat behind a dialog.
#[derive(Debug, Clone, Copy, PartialEq, Eq, Structural)]
pub enum ChatKind {
    Private { is_bot: bool, is_contact: bool },
    Group,
    Channel,
}

/// Spec-level dialog record.
pub struct DialogView {
    pub is_folder_entry: bool,
    pub folder_id: Option<i32>,
    pub kind: ChatKind,
    pub id: i64,
    pub title: Seq<char>,
    pub unread_count: i32,
    pub pinned: bool,
    pub mute_until: Option<i32>,
    pub silent: Option<bool>,
    pub member_count: Option<i32>,
    pub last_message: Option<MessageView>,
}

impl View for DialogRecord {
    type V = DialogView;

    open spec fn view(&self) -> DialogView {
        DialogView {
            is_folder_entry: self.is_folder_entry,
            folder_id: self.folder_id,
            kind: self.kind,
            id: self.id,
            title: self.title@,
            unread_count: self.unread_count,
            pinned: self.pinned,
            mute_until: self.mute_until,
            silent: self.silent,
            member_count: self.member_count,
            last_message: opt_message_view(self.last_message),
        }
    }
}

/// A dialog is muted when it is muted until a time still ahead of the
/// clock or carries the sticky silent flag.
pub open spec fn muted_of(d: DialogView, now: i64) -> bool {
    ||| (d.mute_until matches Some(t) && t > now)
    ||| d.silent == Some(true)
}

/// A dialog in server folder 1 is archived.
pub open spec fn archived_of(d: DialogView) -> bool {
    d.folder_id == Some(1i32)
}

/// The sort key reported for a chat: the negative of its last message's
/// epoch second, so ascending order is most-recent first.
pub open spec fn order_of(d: DialogView) -> i64 {
    match d.last_message {
        Some(m) => if m.date == i64::MIN {
            i64::MAX
        } else {
            (-(m.date as int)) as i64
        },
        None => 0,
    }
}

/// The kind string reported for a chat.
pub open spec fn kind_text(k: ChatKind) -> Seq<char> {
    match k {
        ChatKind::Private { .. } => "private"@,
        ChatKind::Group => "group"@,
        ChatKind::Channel => "channel"@,
    }
}

pub open spec fn kind_is_bot(k: ChatKind) -> bool {
    k matches ChatKind::Private { is_bot: true, .. }
}

pub open spec fn kind_is_contact(k: ChatKind) -> bool {
    k matches ChatKind::Private { is_contact: true, .. }
}

/// The chat a dialog record converts to, judged at epoch second `now`.
pub open spec fn chat_of_dialog(d: DialogView, now: i64) -> ChatView {
    ChatView {
        id: d.id,
        chat_type: kind_text(d.kind),
        title: trimmed(d.title),
        unread_count: d.unread_count,
        is_pinned: d.pinned,
        order: order_of(d),
        photo: None,
        last_message: d.last_message,
        member_count: d.member_count,
        is_muted: muted_of(d, now),
        is_archived: archived_of(d),
        is_bot: kind_is_bot(d.kind),
        is_contact: kind_is_contact(d.kind),
    }
}

/// The kind, contact, bot, archive, mute, size and unread gates, without
/// the folder override.
pub open spec fn gates_accept(c: ChatView, f: FiltersView) -> bool {
    &&& !(c.is_archived && !f.include_archived)
    &&& if c.chat_type == "private"@ {
        if c.is_bot {
            f.include_bots
        } else if c.is_contact {
            f.include_private_chats
        } else {
            f.include_non_contacts
        }
    } else if c.chat_type == "group"@ {
        f.include_groups
    } else if c.chat_type == "channel"@ {
        f.include_channels
    } else {
        true
    }
    &&& !(c.is_muted && !f.include_muted)
    &&& if (c.chat_type == "group"@ || c.chat_type == "channel"@) && c.member_count is Some {
        let n = c.member_count.unwrap();
        &&& (f.group_size_min matches Some(mn) ==> n >= mn)
        &&& !(f.group_size_max matches Some(mx) && mx <= 1000 && n > mx)
    } else {
        true
    }
    &&& !(f.include_unread_only && c.unread_count == 0)
}

/// Whether a scan shows the chat: membership in a selected folder
/// includes it outright, whatever the other flags say; otherwise the
/// ordinary gates decide.
pub open spec fn filter_accepts(c: ChatView, f: FiltersView) -> bool {
    if f.folder_chat_ids.len() > 0 && f.folder_chat_ids.contains(c.id) {
        true
    } else {
        gates_accept(c, f)
    }
}

/// A folder selection is an additive inclusion: any chat whose id is in
/// the selected folders passes the filters, whatever its kind, mute,
/// archive, size or unread state.
pub proof fn lemma_folder_override_includes(c: ChatView, f: FiltersView)
    requires
        f.folder_chat_ids.len() > 0,
        f.folder_chat_ids.contains(c.id),
    ensures
        filter_accepts(c, f),
{
}

/// With no folder selected, the filters are exactly the kind-and-flag
/// gates.
pub proof fn lemma_no_folder_selection_is_gates(c: ChatView, f: FiltersView)
    requires
        f.folder_chat_ids.len() == 0,
    ensures
        filter_accepts(c, f) == gates_accept(c, f),
{
}

fn contains_i64(v: &Vec<i64>, x: i64) -> (r: bool)
    ensures
        r == v@.contains(x),
{
    let mut i: usize = 0;
    while i < v.len()
        invariant
            0 <= i <= v@.len(),
            forall|j: int| 0 <= j < i ==> v@[j] != x,
        decreases v@.len() - i,
    {
        if v[i] == x {
            return true;
        }
        i += 1;
    }
    false
}

/// Whether a scan with filters `f` shows the chat `c`.
pub fn chat_passes_filters(c: &Chat, f: &ChatFilters) -> (r: bool)
    ensures
        r == filter_accepts(c@, f@),
{
    if f.folder_chat_ids.len() > 0 && contains_i64(&f.folder_chat_ids, c.id) {
        return true;
    }
    if c.is_archived && !f.include_archived {
        return false;
    }
    let kind_ok: bool = if str_eq(c.chat_type.as_str(), "private") {
        if c.is_bot {
            f.include_bots
        } else if c.is_contact {
            f.include_private_chats
        } else {
            f.include_non_contacts
        }
    } else if str_eq(c.chat_type.as_str(), "group") {
        f.include_groups
    } else if str_eq(c.chat_type.as_str(), "channel") {
        f.include_channels
    } else {
        true
    };
    if !kind_ok {
        return false;
    }
    if c.is_muted && !f.include_muted {
        return false;
    }
    if str_eq(c.chat_type.as_str(), "group") || str_eq(c.chat_type.as_str(), "channel") {
        if let Some(n) = c.member_count {
            if let Some(mn) = f.group_size_min {
                if n < mn {
                    return false;
                }
            }
            if let Some(mx) = f.group_size_max {
                if mx <= 1000 && n > mx {
                    return false;
                }
            }
        }
    }
    if f.include_unread_only && c.unread_count == 0 {
        return false;
    }
    true
}

/// A copy of the option with the same characters.
pub fn clone_opt_string(o: &Option<String>) -> (r: Option<String>)
    ensures
        opt_str_view(r) == opt_str_view(*o),
{
    match o {
        Some(s) => Some(crate::auth::clone_string(s)),
        None => None,
    }
}

/// A copy of the content with the same view.
pub fn clone_content(c: &MessageContent) -> (r: MessageContent)
    ensures
        r@ == c@,
{
    match c {
        MessageContent::Text { text } => MessageContent::Text {
            text: crate::auth::clone_string(text),
        },
        MessageContent::Photo { caption } => MessageContent::Photo {
            caption: clone_opt_string(caption),
        },
        MessageContent::Video { caption } => MessageContent::Video {
            caption: clone_opt_string(caption),
        },
        MessageContent::Document { file_name } => MessageContent::Document {
            file_name: crate::auth::clone_string(file_name),
        },
        MessageContent::Voice { duration } => MessageContent::Voice { duration: *duration },
        MessageContent::Sticker { emoji } => MessageContent::Sticker {
            emoji: clone_opt_string(emoji),
        },
        MessageContent::Unknown => MessageContent::Unknown,
    }
}

/// A copy of the message with the same view.
pub fn clone_message(m: &Message) -> (r: Message)
    ensures
        r@ == m@,
{
    Message {
        id: m.id,
        chat_id: m.chat_id,
        sender_id: m.sender_id,
        sender_name: crate::auth::clone_string(&m.sender_name),
        content: clone_content(&m.content),
        date: m.date,
        is_outgoing: m.is_outgoing,
        is_read: m.is_read,
    }
}

/// A copy of the option with the same view.
pub fn clone_opt_message(o: &Option<Message>) -> (r: Option<Message>)
    ensures
        opt_message_view(r) == opt_message_view(*o),
{
    match o {
        Some(m) => Some(clone_message(m)),
        None => None,
    }
}

/// A copy of the chat with the same view.
pub fn clone_chat(c: &Chat) -> (r: Chat)
    ensures
        r@ == c@,
{
    Chat {
        id: c.id,
        chat_type: crate::auth::clone_string(&c.chat_type),
        title: crate::auth::clone_string(&c.title),
        unread_count: c.unread_count,
        is_pinned: c.is_pinned,
        order: c.order,
        photo: clone_opt_string(&c.photo),
        last_message: clone_opt_message(&c.last_message),
        member_count: c.member_count,
        is_muted: c.is_muted,
        is_archived: c.is_archived,
        is_bot: c.is_bot,
        is_contact: c.is_contact,
    }
}

/// Convert one dialog record into the chat a scan reports for it:
/// trimmed title, kind string, mute and archive flags read off the raw
/// settings against the wall clock, and the recency sort key.
pub fn dialog_to_chat(d: &DialogRecord, now: i64) -> (c: Chat)
    ensures
        c@ == chat_of_dialog(d@, now),
{
    let chat_type: String = match d.kind {
        ChatKind::Private { .. } => "private".to_owned(),
        ChatKind::Group => "group".to_owned(),
        ChatKind::Channel => "channel".to_owned(),
    };
    let title = trim_str(d.title.as_str());
    let order: i64 = match &d.last_message {
        Some(m) => if m.date == i64::MIN {
            i64::MAX
        } else {
            -m.date
        },
        None => 0,
    };
    let is_muted = match d.mute_until {
        Some(t) => (t as i64) > now,
        None => false,
    } || match d.silent {
        Some(b) => b,
        None => false,
    };
    let is_archived = match d.folder_id {
        Some(f) => f == 1,
        None => false,
    };
    let (is_bot, is_contact): (bool, bool) = match d.kind {
        ChatKind::Private { is_bot, is_contact } => (is_bot, is_contact),
        _ => (false, false),
    };
    Chat {
        id: d.id,
        chat_type,
        title,
        unread_count: d.unread_count,
        is_pinned: d.pinned,
        order,
        photo: None,
        last_message: clone_opt_message(&d.last_message),
        member_count: d.member_count,
        is_muted,
        is_archived,
        is_bot,
        is_contact,
    }
}

/// The chats a scan over `ds` shows, in scan order, stopping once
/// `limit` chats have been accepted.
pub open spec fn scan_shown(ds: Seq<DialogView>, f: FiltersView, limit: int, now: i64) -> Seq<
    ChatView,
>
    decreases ds.len(),
{
    if ds.len() == 0 || limit <= 0 {
        Seq::empty()
    } else if ds[0].is_folder_entry {
        scan_shown(ds.drop_first(), f, limit, now)
    } else {
        let c = chat_of_dialog(ds[0], now);
        if filter_accepts(c, f) {
            seq![c] + scan_shown(ds.drop_first(), f, limit - 1, now)
        } else {
            scan_shown(ds.drop_first(), f, limit, now)
        }
    }
}

/// The cache contents after a scan over `ds`: every non-folder dialog
/// the scan reads enters the cache, shown or not.
pub open spec fn scan_cached(
    m: Map<i64, ChatView>,
    ds: Seq<DialogView>,
    f: FiltersView,
    limit: int,
    now: i64,
) -> Map<i64, ChatView>
    decreases ds.len(),
{
    if ds.len() == 0 || limit <= 0 {
        m
    } else if ds[0].is_folder_entry {
        scan_cached(m, ds.drop_first(), f, limit, now)
    } else {
        let c = chat_of_dialog(ds[0], now);
        let m2 = m.insert(ds[0].id, c);
        if filter_accepts(c, f) {
            scan_cached(m2, ds.drop_first(), f, limit - 1, now)
        } else {
            scan_cached(m2, ds.drop_first(), f, limit, now)
        }
    }
}

/// The chat object cache: hydrated chats keyed by chat id, with a flag
/// marking that a full dialog scan has filled it.
pub struct ChatCache {
    chats: HashMap<i64, Chat>,
    loaded: bool,
}

proof fn lemma_model_insert(m: Map<i64, Chat>, k: i64, v: Chat)
    ensures
        m.insert(k, v).map_values(|c: Chat| c@) =~= m.map_values(|c: Chat| c@).insert(k, v@),
{
}

impl ChatCache {
    /// The chats the cache holds, by id.
    pub closed spec fn model(&self) -> Map<i64, ChatView> {
        self.chats@.map_values(|c: Chat| c@)
    }

    /// Whether a full dialog scan has filled the cache.
    pub closed spec fn is_loaded(&self) -> bool {
        self.loaded
    }

    /// An empty, unloaded cache.
    pub fn new() -> (r: Self)
        ensures
            r.model() == Map::<i64, ChatView>::empty(),
            !r.is_loaded(),
    {
        let r = ChatCache { chats: HashMap::new(), loaded: false };
        proof {
            assert(r.model() =~= Map::<i64, ChatView>::empty());
        }
        r
    }

    /// Whether a scan has filled the cache since it was last cleared.
    pub fn loaded(&self) -> (r: bool)
        ensures
            r == self.is_loaded(),
    {
        self.loaded
    }

    /// Mark the cache as filled.
    pub fn mark_loaded(&mut self)
        ensures
            final(self).is_loaded(),
            final(self).model() == old(self).model(),
    {
        self.loaded = true;
    }

    /// The cached chat under `chat_id`, if present.
    pub fn lookup(&self, chat_id: i64) -> (r: Option<&Chat>)
        ensures
            match r {
                Some(c) => self.model().contains_key(chat_id) && c@ == self.model()[chat_id],
                None => !self.model().contains_key(chat_id),
            },
    {
        let r = self.chats.get(&chat_id);
        proof {
            match r {
                Some(c) => {
                    assert(self.chats@.contains_key(chat_id));
                    assert(self.model().contains_key(chat_id));
                },
                None => {
                    assert(!self.chats@.contains_key(chat_id));
                    if self.model().contains_key(chat_id) {
                        assert(self.chats@.contains_key(chat_id));
                    }
                },
            }
        }
        r
    }

    /// Put one chat into the cache under its id.
    pub fn insert_chat(&mut self, chat: Chat)
        ensures
            final(self).model() == old(self).model().insert(chat.id, chat@),
            final(self).is_loaded() == old(self).is_loaded(),
    {
        let id = chat.id;
        let ghost chat_g = chat;
        self.chats.insert(id, chat);
        proof {
            lemma_model_insert(old(self).chats@, id, chat_g);
        }
    }

    /// Clear the cache and the loaded flag; a lookup after this returns
    /// nothing until a scan repopulates it.
    pub fn invalidate_cache(&mut self)
        ensures
            final(self).model() == Map::<i64, ChatView>::empty(),
            !final(self).is_loaded(),
    {
        self.chats.clear();
        self.loaded = false;
        proof {
            assert(final(self).model() =~= Map::<i64, ChatView>::empty());
        }
    }

    /// Scan a list of dialog records at epoch second `now`: convert and
    /// cache every non-folder entry, and report, in scan order, those
    /// the filters accept, up to `limit` of them. Afterwards the cache
    /// counts as loaded.
    pub fn scan_dialogs(
        &mut self,
        dialogs: &Vec<DialogRecord>,
        filters: &ChatFilters,
        limit: usize,
        now: i64,
    ) -> (shown: Vec<Chat>)
        ensures
            shown@.map_values(|c: Chat| c@) == scan_shown(
                dialogs@.map_values(|d: DialogRecord| d@),
                filters@,
                limit as int,
                now,
            ),
            final(self).model() == scan_cached(
                old(self).model(),
                dialogs@.map_values(|d: DialogRecord| d@),
                filters@,
                limit as int,
                now,
            ),
            final(self).is_loaded(),
    {
        let ghost dsv = dialogs@.map_values(|d: DialogRecord| d@);
        let ghost f = filters@;
        let ghost orig_model = self.model();
        let n = dialogs.len();
        let mut shown: Vec<Chat> = Vec::new();
        let mut i: usize = 0;
        proof {
            assert(dsv.skip(0) =~= dsv);
            assert(shown@.map_values(|c: Chat| c@) =~= Seq::<ChatView>::empty());
        }
        while i < n && shown.len() < limit
            invariant
                n == dialogs@.len() <= usize::MAX,
                dsv == dialogs@.map_values(|d: DialogRecord| d@),
                f == filters@,
                0 <= i <= n,
                shown@.len() <= limit,
                scan_shown(dsv, f, limit as int, now) == shown@.map_values(|c: Chat| c@)
                    + scan_shown(dsv.skip(i as int), f, limit - shown@.len(), now),
                scan_cached(orig_model, dsv, f, limit as int, now) == scan_cached(
                    self.model(),
                    dsv.skip(i as int),
                    f,
                    limit - shown@.len(),
                    now,
                ),
            decreases n - i,
        {
            let ghost tail = dsv.skip(i as int);
            let ghost rem = limit - shown@.len();
            proof {
                assert(tail[0] == dsv[i as int]);
                assert(dsv[i as int] == dialogs@[i as int]@);
                assert(tail.drop_first() =~= dsv.skip(i + 1));
                assert(tail.len() > 0);
                assert(rem > 0);
            }
            if dialogs[i].is_folder_entry {
                proof {
                    assert(tail[0].is_folder_entry);
                    assert(scan_shown(tail, f, rem, now) == scan_shown(
                        tail.drop_first(),
                        f,
                        rem,
                        now,
                    ));
                    assert(scan_cached(self.model(), tail, f, rem, now) == scan_cached(
                        self.model(),
                        tail.drop_first(),
                        f,
                        rem,
                        now,
                    ));
                }
                i += 1;
                continue;
            }
            let c = dialog_to_chat(&dialogs[i], now);
            let accepted = chat_passes_filters(&c, filters);
            let cache_copy = clone_chat(&c);
            let ghost model_before = self.model();
            proof {
                assert(!tail[0].is_folder_entry);
                assert(c@ == chat_of_dialog(tail[0], now));
                assert(accepted == filter_accepts(chat_of_dialog(tail[0], now), f));
                assert(scan_cached(model_before, tail, f, rem, now) == if accepted {
                    scan_cached(
                        model_before.insert(tail[0].id, chat_of_dialog(tail[0], now)),
                        tail.drop_first(),
                        f,
                        rem - 1,
                        now,
                    )
                } else {
                    scan_cached(
                        model_before.insert(tail[0].id, chat_of_dialog(tail[0], now)),
                        tail.drop_first(),
                        f,
                        rem,
                        now,
                    )
                });
            }
            self.insert_chat(cache_copy);
            proof {
                assert(cache_copy.id == dialogs[i as int].id);
                assert(tail[0].id == dialogs[i as int].id);
                assert(self.model() == model_before.insert(
                    tail[0].id,
                    chat_of_dialog(tail[0], now),
                ));
            }
            if accepted {
                let ghost shown_before = shown@;
                proof {
                    assert(scan_shown(tail, f, rem, now) == seq![chat_of_dialog(tail[0], now)]
                        + scan_shown(tail.drop_first(), f, rem - 1, now));
                }
                shown.push(c);
                proof {
                    assert(shown@ =~= shown_before.push(c));
                    assert(shown@.map_values(|cc: Chat| cc@) =~= shown_before.map_values(
                        |cc: Chat| cc@,
                    ).push(c@));
                    assert(shown_before.map_values(|cc: Chat| cc@).push(c@) + scan_shown(
                        tail.drop_first(),
                        f,
                        rem - 1,
                        now,
                    ) =~= shown_before.map_values(|cc: Chat| cc@) + (seq![c@] + scan_shown(
                        tail.drop_first(),
                        f,
                        rem - 1,
                        now,
                    )));
                }
            } else {
                proof {
                    assert(scan_shown(tail, f, rem, now) == scan_shown(
                        tail.drop_first(),
                        f,
                        rem,
                        now,
                    ));
                }
            }
            i += 1;
        }
        self.loaded = true;
        proof {
            let suffix = dsv.skip(i as int);
            let rem = limit - shown@.len();
            if i < n {
                assert(shown@.len() == limit);
                assert(rem == 0);
                assert(scan_shown(suffix, f, 0, now) =~= Seq::<ChatView>::empty());
            } else {
                assert(suffix =~= Seq::<DialogView>::empty());
                assert(scan_shown(suffix, f, rem, now) =~= Seq::<ChatView>::empty());
            }
            assert(shown@.map_values(|c: Chat| c@) + Seq::<ChatView>::empty() =~= shown@.map_values(
                |c: Chat| c@,
            ));
        }
        shown
    }
}

/// A reference to a peer in a server-side dialog filter.
#[derive(Debug, Clone, Copy, PartialEq, Eq, Structural)]
pub enum PeerRef {
    ChatPeer(i64),
    ChannelPeer(i64),
    UserPeer(i64),
    Other,
}

/// One entry of the server's dialog-filter list, as plain values.
#[derive(Debug)]
pub enum DialogFilterRecord {
    Named {
        id: i32,
        title: String,
        emoticon: Option<String>,
        include_peers: Vec<PeerRef>,
        exclude_peers: Vec<PeerRef>,
        contacts: bool,
        non_contacts: bool,
        groups: bool,
        broadcasts: bool,
        bots: bool,
    },
    /// The default "all chats" list.
    DefaultList,
    /// A shared folder; not consumed.
    Chatlist,
}

/// Spec-level dialog-filter entry.
pub enum FilterRecordView {
    Named {
        id: i32,
        title: Seq<char>,
        emoticon: Option<Seq<char>>,
        include_peers: Seq<PeerRef>,
        exclude_peers: Seq<PeerRef>,
        contacts: bool,
        non_contacts: bool,
        groups: bool,
        broadcasts: bool,
        bots: bool,
    },
    DefaultList,
    Chatlist,
}

impl View for DialogFilterRecord {
    type V = FilterRecordView;

    open spec fn view(&self) -> FilterRecordView {
        match self {
            DialogFilterRecord::Named {
                id,
                title,
                emoticon,
                include_peers,
                exclude_peers,
                contacts,
                non_contacts,
                groups,
                broadcasts,
                bots,
            } => FilterRecordView::Named {
                id: *id,
                title: title@,
                emoticon: opt_str_view(*emoticon),
                include_peers: include_peers@,
                exclude_peers: exclude_peers@,
                contacts: *contacts,
                non_contacts: *non_contacts,
                groups: *groups,
                broadcasts: *broadcasts,
                bots: *bots,
            },
            DialogFilterRecord::DefaultList => FilterRecordView::DefaultList,
            DialogFilterRecord::Chatlist => FilterRecordView::Chatlist,
        }
    }
}

/// The chat ids a peer list names; peers of other shapes contribute
/// nothing.
pub open spec fn peer_chat_ids(ps: Seq<PeerRef>) -> Seq<i64>
    decreases ps.len(),
{
    if ps.len() == 0 {
        Seq::empty()
    } else {
        peer_chat_ids(ps.drop_last()) + match ps.last() {
            PeerRef::ChatPeer(id) => seq![id],
            PeerRef::ChannelPeer(id) => seq![id],
            PeerRef::UserPeer(id) => seq![id],
            PeerRef::Other => Seq::empty(),
        }
    }
}

/// The folder a named dialog-filter entry converts to.
pub open spec fn folder_of_record(r: FilterRecordView) -> FolderView
    recommends
        r is Named,
{
    match r {
        FilterRecordView::Named {
            id,
            title,
            emoticon,
            include_peers,
            exclude_peers,
            contacts,
            non_contacts,
            groups,
            broadcasts,
            bots,
        } => FolderView {
            id,
            title,
            emoticon,
            included_chat_ids: peer_chat_ids(include_peers),
            excluded_chat_ids: peer_chat_ids(exclude_peers),
            include_contacts: contacts,
            include_non_contacts: non_contacts,
            include_groups: groups,
            include_channels: broadcasts,
            include_bots: bots,
        },
        _ => FolderView {
            id: 0,
            title: Seq::empty(),
            emoticon: None,
            included_chat_ids: Seq::empty(),
            excluded_chat_ids: Seq::empty(),
            include_contacts: false,
            include_non_contacts: false,
            include_groups: false,
            include_channels: false,
            include_bots: false,
        },
    }
}

/// The folders a dialog-filter list yields: named entries in order, the
/// default list and shared chatlists ignored.
pub open spec fn folders_of(rs: Seq<FilterRecordView>) -> Seq<FolderView>
    decreases rs.len(),
{
    if rs.len() == 0 {
        Seq::empty()
    } else {
        folders_of(rs.drop_last()) + if rs.last() is Named {
            seq![folder_of_record(rs.last())]
        } else {
            Seq::empty()
        }
    }
}

fn peer_ids_x(ps: &Vec<PeerRef>) -> (r: Vec<i64>)
    ensures
        r@ == peer_chat_ids(ps@),
{
    let mut r: Vec<i64> = Vec::new();
    let mut i: usize = 0;
    let pslen = ps.len();
    assert(ps@.len() == pslen <= usize::MAX);
    proof {
        assert(ps@.take(0) =~= Seq::<PeerRef>::empty());
        assert(r@ =~= peer_chat_ids(ps@.take(0)));
    }
    while i < ps.len()
        invariant
            0 <= i <= ps@.len(),
            ps@.len() <= usize::MAX,
            r@ == peer_chat_ids(ps@.take(i as int)),
        decreases ps@.len() - i,
    {
        proof {
            assert(ps@.take(i + 1).drop_last() =~= ps@.take(i as int));
            assert(ps@.take(i + 1).last() == ps@[i as int]);
        }
        match ps[i] {
            PeerRef::ChatPeer(id) => {
                r.push(id);
                assert(r@ =~= peer_chat_ids(ps@.take(i + 1)));
            },
            PeerRef::ChannelPeer(id) => {
                r.push(id);
                assert(r@ =~= peer_chat_ids(ps@.take(i + 1)));
            },
            PeerRef::UserPeer(id) => {
                r.push(id);
                assert(r@ =~= peer_chat_ids(ps@.take(i + 1)));
            },
            PeerRef::Other => {
                assert(r@ =~= peer_chat_ids(ps@.take(i + 1)));
            },
        }
        i += 1;
    }
    proof {
        assert(ps@.take(i as int) =~= ps@);
    }
    r
}

/// Convert the server's dialog-filter list into folders, skipping the
/// default "all chats" entry and shared chatlists.
pub fn convert_folders(records: &Vec<DialogFilterRecord>) -> (r: Vec<Folder>)
    ensures
        r@.map_values(|x: Folder| x@) == folders_of(
            records@.map_values(|x: DialogFilterRecord| x@),
        ),
{
    let ghost rv = records@.map_values(|x: DialogFilterRecord| x@);
    let mut out: Vec<Folder> = Vec::new();
    let mut i: usize = 0;
    let reclen = records.len();
    assert(records@.len() == reclen <= usize::MAX);
    proof {
        assert(rv.take(0) =~= Seq::<FilterRecordView>::empty());
        assert(out@.map_values(|x: Folder| x@) =~= folders_of(rv.take(0)));
    }
    while i < records.len()
        invariant
            0 <= i <= records@.len(),
            records@.len() <= usize::MAX,
            rv == records@.map_values(|x: DialogFilterRecord| x@),
            out@.map_values(|x: Folder| x@) == folders_of(rv.take(i as int)),
        decreases records@.len() - i,
    {
        proof {
            assert(rv.take(i + 1).drop_last() =~= rv.take(i as int));
            assert(rv.take(i + 1).last() == rv[i as int]);
            assert(rv[i as int] == records@[i as int]@);
        }
        match &records[i] {
            DialogFilterRecord::Named {
                id,
                title,
                emoticon,
                include_peers,
                exclude_peers,
                contacts,
                non_contacts,
                groups,
                broadcasts,
                bots,
            } => {
                let ghost out_before = out@;
                let folder = Folder {
                    id: *id,
                    title: crate::auth::clone_string(title),
                    emoticon: clone_opt_string(emoticon),
                    included_chat_ids: peer_ids_x(include_peers),
                    excluded_chat_ids: peer_ids_x(exclude_peers),
                    include_contacts: *contacts,
                    include_non_contacts: *non_contacts,
                    include_groups: *groups,
                    include_channels: *broadcasts,
                    include_bots: *bots,
                };
                proof {
                    assert(folder@ == folder_of_record(rv[i as int]));
                }
                out.push(folder);
                proof {
                    assert(out@ =~= out_before.push(folder));
                    assert(out@.map_values(|x: Folder| x@) =~= out_before.map_values(
                        |x: Folder| x@,
                    ).push(folder@));
                    assert(out@.map_values(|x: Folder| x@) =~= folders_of(rv.take(i + 1)));
                }
            },
            DialogFilterRecord::DefaultList => {
                assert(out@.map_values(|x: Folder| x@) =~= folders_of(rv.take(i + 1)));
            },
            DialogFilterRecord::Chatlist => {
                assert(out@.map_values(|x: Folder| x@) =~= folders_of(rv.take(i + 1)));
            },
        }
        i += 1;
    }
    proof {
        assert(rv.take(i as int) =~= rv);
    }
    out
}

/// An error text that signals a transport reset worth one silent
/// reconnect-and-retry pass.
pub open spec fn connection_error_text(s: Seq<char>) -> bool {
    ||| contains_seq(s, "read error"@)
    ||| contains_seq(s, "IO failed"@)
    ||| contains_seq(s, "read 0 bytes"@)
    ||| contains_seq(s, "connection"@)
    ||| contains_seq(s, "timed out"@)
    ||| contains_seq(s, "broken pipe"@)
}

/// Whether an error message indicates a connection failure that can be
/// retried after a reconnect.
pub fn is_connection_error(error: &str) -> (r: bool)
    ensures
        r == connection_error_text(error@),
{
    str_contains(error, "read error") || str_contains(error, "IO failed") || str_contains(
        error,
        "read 0 bytes",
    ) || str_contains(error, "connection") || str_contains(error, "timed out") || str_contains(
        error,
        "broken pipe",
    )
}

} // verus!
