//! Contacts enriched with local metadata: tags, notes, and recency
//! derived from the private-chat scan and the store.

use vstd::prelude::*;
use crate::auth::{User, clone_string};
use crate::chats::{Chat, ChatView, clone_opt_string};
use crate::store::{ContactStore, tags_of};

verus! {

/// The cache key under which the enriched contact list is stored.
pub const CONTACTS_CACHE_KEY: &'static str = "contacts:all";

/// A contact together with its local metadata.
#[derive(Debug)]
pub struct ContactWithMetadata {
    pub user_id: i64,
    pub first_name: String,
    pub last_name: String,
    pub username: Option<String>,
    pub phone_number: Option<String>,
    pub tags: Vec<String>,
    pub notes: String,
    pub last_contact_date: Option<i64>,
    pub days_since_contact: Option<i64>,
    pub unread_count: Option<i32>,
}

/// The enriched contact list with its cache provenance.
#[derive(Debug)]
pub struct ContactsResponse {
    pub contacts: Vec<ContactWithMetadata>,
    pub cached: bool,
    pub cache_age: Option<String>,
}

/// The last message date and unread count the private-chat scan shows
/// for chat `id`: the latest matching scan entry with a last message.
pub open spec fn chat_recency_of(chats: Seq<ChatView>, id: i64) -> Option<(i64, i32)>
    decreases chats.len(),
{
    if chats.len() == 0 {
        None
    } else if chats.last().chat_type == "private"@ && chats.last().id == id
        && chats.last().last_message is Some {
        Some((chats.last().last_message.unwrap().date, chats.last().unread_count))
    } else {
        chat_recency_of(chats.drop_last(), id)
    }
}

/// `a - b` clamped to the range of `i64`.
pub open spec fn sub_clamped(a: i64, b: i64) -> i64 {
    if a - b > i64::MAX {
        i64::MAX
    } else if a - b < i64::MIN {
        i64::MIN
    } else {
        (a - b) as i64
    }
}

fn saturating_sub_i64(a: i64, b: i64) -> (r: i64)
    ensures
        r == sub_clamped(a, b),
{
    if b >= 0 {
        if a >= i64::MIN + b {
            a - b
        } else {
            i64::MIN
        }
    } else {
        if a <= i64::MAX + b {
            a - b
        } else {
            i64::MAX
        }
    }
}

/// Whole days from `d` to `now`, the fraction dropped; negative when
/// `now` lies before `d`.
pub open spec fn days_between(now: i64, d: i64) -> i64 {
    if now >= d {
        (sub_clamped(now, d) / 86400) as i64
    } else {
        (0 - (sub_clamped(d, now) / 86400)) as i64
    }
}

fn days_between_x(now: i64, d: i64) -> (r: i64)
    ensures
        r == days_between(now, d),
{
    if now >= d {
        saturating_sub_i64(now, d) / 86400
    } else {
        0 - (saturating_sub_i64(d, now) / 86400)
    }
}

/// The last-contact date used for a user: the one the chat scan shows,
/// else the one the store remembers.
pub open spec fn last_contact_of(
    chats: Seq<ChatView>,
    store_date: Option<i64>,
    id: i64,
) -> Option<i64> {
    match chat_recency_of(chats, id) {
        Some(p) => Some(p.0),
        None => store_date,
    }
}

fn chat_recency_x(chats: &Vec<Chat>, id: i64) -> (r: Option<(i64, i32)>)
    ensures
        r == chat_recency_of(chats@.map_values(|c: Chat| c@), id),
{
    let ghost cv = chats@.map_values(|c: Chat| c@);
    let n = chats.len();
    let mut i: usize = n;
    proof {
        assert(cv.take(n as int) =~= cv);
    }
    while i > 0
        invariant
            n == chats@.len() <= usize::MAX,
            cv == chats@.map_values(|c: Chat| c@),
            0 <= i <= n,
            chat_recency_of(cv, id) == chat_recency_of(cv.take(i as int), id),
        decreases i,
    {
        i -= 1;
        proof {
            assert(cv.take(i + 1).drop_last() =~= cv.take(i as int));
            assert(cv.take(i + 1).last() == cv[i as int]);
            assert(cv[i as int] == chats@[i as int]@);
        }
        let c = &chats[i];
        if crate::strutil::str_eq(c.chat_type.as_str(), "private") && c.id == id {
            match &c.last_message {
                Some(m) => {
                    return Some((m.date, c.unread_count));
                },
                None => {},
            }
        }
    }
    proof {
        assert(cv.take(0) =~= Seq::<ChatView>::empty());
    }
    None
}

/// Build the enriched contact rows: one per fetched user, in order,
/// carrying the user's tags and notes from the store, the last-contact
/// date from the private-chat scan (falling back to the store), the
/// days since then, and the unread count of the private chat.
pub fn enrich_contacts(
    users: &Vec<User>,
    chats: &Vec<Chat>,
    store: &ContactStore,
    now: i64,
) -> (r: Vec<ContactWithMetadata>)
    ensures
        r@.len() == users@.len(),
        forall|i: int|
            0 <= i < r@.len() ==> {
                let row = #[trigger] r@[i];
                let u = users@[i];
                let cv = chats@.map_values(|c: Chat| c@);
                let date = last_contact_of(
                    cv,
                    if store.last_contact_map().contains_key(u.id) {
                        Some(store.last_contact_map()[u.id])
                    } else {
                        None
                    },
                    u.id,
                );
                &&& row.user_id == u.id
                &&& row.first_name@ == u.first_name@
                &&& row.last_name@ == u.last_name@
                &&& crate::auth::opt_string_chars(row.username) == crate::auth::opt_string_chars(
                    u.username,
                )
                &&& row.tags@.map_values(|s: String| s@) == tags_of(store.tags(), u.id)
                &&& row.notes@ == if store.notes_map().contains_key(u.id) {
                    store.notes_map()[u.id]
                } else {
                    Seq::<char>::empty()
                }
                &&& row.last_contact_date == date
                &&& row.days_since_contact == match date {
                    Some(d) => Some(days_between(now, d)),
                    None => None::<i64>,
                }
                &&& row.unread_count == match chat_recency_of(cv, u.id) {
                    Some(p) => Some(p.1),
                    None => None::<i32>,
                }
            },
{
    let mut r: Vec<ContactWithMetadata> = Vec::new();
    let mut i: usize = 0;
    let n = users.len();
    while i < n
        invariant
            n == users@.len() <= usize::MAX,
            0 <= i <= n,
            r@.len() == i,
            forall|k: int|
                0 <= k < i ==> {
                    let row = #[trigger] r@[k];
                    let u = users@[k];
                    let cv = chats@.map_values(|c: Chat| c@);
                    let date = last_contact_of(
                        cv,
                        if store.last_contact_map().contains_key(u.id) {
                            Some(store.last_contact_map()[u.id])
                        } else {
                            None
                        },
                        u.id,
                    );
                    &&& row.user_id == u.id
                    &&& row.first_name@ == u.first_name@
                    &&& row.last_name@ == u.last_name@
                    &&& crate::auth::opt_string_chars(row.username)
                        == crate::auth::opt_string_chars(u.username)
                    &&& row.tags@.map_values(|s: String| s@) == tags_of(store.tags(), u.id)
                    &&& row.notes@ == if store.notes_map().contains_key(u.id) {
                        store.notes_map()[u.id]
                    } else {
                        Seq::<char>::empty()
                    }
                    &&& row.last_contact_date == date
                    &&& row.days_since_contact == match date {
                        Some(d) => Some(days_between(now, d)),
                        None => None::<i64>,
                    }
                    &&& row.unread_count == match chat_recency_of(cv, u.id) {
                        Some(p) => Some(p.1),
                        None => None::<i32>,
                    }
                },
        decreases n - i,
    {
        let u = &users[i];
        let tags = store.get_contact_tags(u.id);
        let notes = store.get_contact_notes(u.id);
        let recency = chat_recency_x(chats, u.id);
        let store_date = store.get_last_contact_date(u.id);
        let (last_contact_date, unread_count): (Option<i64>, Option<i32>) = match recency {
            Some((date, unread)) => (Some(date), Some(unread)),
            None => (store_date, None),
        };
        let days_since_contact: Option<i64> = match last_contact_date {
            Some(d) => Some(days_between_x(now, d)),
            None => None,
        };
        let row = ContactWithMetadata {
            user_id: u.id,
            first_name: clone_string(&u.first_name),
            last_name: clone_string(&u.last_name),
            username: clone_opt_string(&u.username),
            phone_number: clone_opt_string(&u.phone_number),
            tags,
            notes,
            last_contact_date,
            days_since_contact,
            unread_count,
        };
        r.push(row);
        i += 1;
    }
    r
}

} // verus!
