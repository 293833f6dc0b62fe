//! The offboard tool's state and decisions: the per-process cache of
//! user access hashes, the cache of raw chat records from common-group
//! lookups, the summary shown for each common group, and the choice of
//! removal call per chat kind.

use vstd::prelude::*;
use std::collections::HashMap;
use crate::auth::clone_string;
use crate::errors::TelegramError;

verus! {

broadcast use vstd::std_specs::hash::group_hash_axioms;

/// A raw chat record from a common-group lookup, as plain values.
#[derive(Debug)]
pub enum RawChat {
    /// A basic group.
    Basic { id: i64, title: String, participants_count: i32, has_admin_rights: bool, is_creator: bool },
    /// A channel or supergroup.
    Broadcast {
        id: i64,
        title: String,
        participants_count: Option<i32>,
        access_hash: Option<i64>,
        has_admin_rights: bool,
        is_creator: bool,
    },
    /// A group the account may no longer see.
    Forbidden { id: i64, title: String },
    /// A channel the account may no longer see.
    BroadcastForbidden { id: i64, title: String },
    /// A deleted chat.
    EmptyChat { id: i64 },
}

/// A common group as shown to the caller.
#[derive(Debug)]
pub struct CommonGroup {
    pub id: i64,
    pub title: String,
    pub can_remove: bool,
    pub member_count: Option<i32>,
}

pub open spec fn raw_chat_id(raw: RawChat) -> i64 {
    match raw {
        RawChat::Basic { id, .. } => id,
        RawChat::Broadcast { id, .. } => id,
        RawChat::Forbidden { id, .. } => id,
        RawChat::BroadcastForbidden { id, .. } => id,
        RawChat::EmptyChat { id } => id,
    }
}

pub open spec fn raw_chat_title(raw: RawChat) -> Seq<char> {
    match raw {
        RawChat::Basic { title, .. } => title@,
        RawChat::Broadcast { title, .. } => title@,
        RawChat::Forbidden { title, .. } => title@,
        RawChat::BroadcastForbidden { title, .. } => title@,
        RawChat::EmptyChat { .. } => Seq::empty(),
    }
}

pub open spec fn raw_chat_member_count(raw: RawChat) -> Option<i32> {
    match raw {
        RawChat::Basic { participants_count, .. } => Some(participants_count),
        RawChat::Broadcast { participants_count, .. } => participants_count,
        _ => None,
    }
}

/// The current account may remove members: it holds admin rights or
/// created the chat.
pub open spec fn raw_chat_can_remove(raw: RawChat) -> bool {
    match raw {
        RawChat::Basic { has_admin_rights, is_creator, .. } => has_admin_rights || is_creator,
        RawChat::Broadcast { has_admin_rights, is_creator, .. } => has_admin_rights || is_creator,
        _ => false,
    }
}

/// The summary shown for one raw chat of a common-group lookup.
pub fn summarize_common_chat(raw: &RawChat) -> (r: CommonGroup)
    ensures
        r.id == raw_chat_id(*raw),
        r.title@ == raw_chat_title(*raw),
        r.member_count == raw_chat_member_count(*raw),
        r.can_remove == raw_chat_can_remove(*raw),
{
    match raw {
        RawChat::Basic { id, title, participants_count, has_admin_rights, is_creator } => {
            CommonGroup {
                id: *id,
                title: clone_string(title),
                can_remove: *has_admin_rights || *is_creator,
                member_count: Some(*participants_count),
            }
        },
        RawChat::Broadcast {
            id,
            title,
            participants_count,
            has_admin_rights,
            is_creator,
            ..
        } => {
            CommonGroup {
                id: *id,
                title: clone_string(title),
                can_remove: *has_admin_rights || *is_creator,
                member_count: *participants_count,
            }
        },
        RawChat::Forbidden { id, title } => {
            CommonGroup {
                id: *id,
                title: clone_string(title),
                can_remove: false,
                member_count: None,
            }
        },
        RawChat::BroadcastForbidden { id, title } => {
            CommonGroup {
                id: *id,
                title: clone_string(title),
                can_remove: false,
                member_count: None,
            }
        },
        RawChat::EmptyChat { id } => CommonGroup {
            id: *id,
            title: String::new(),
            can_remove: false,
            member_count: None,
        },
    }
}

/// The remote call that removes a user from a chat.
#[derive(Debug, Clone, Copy, PartialEq, Eq, Structural)]
pub enum KickAction {
    /// Remove the user from a basic group, without revoking history.
    DeleteFromBasicGroup { chat_id: i64, user_id: i64, user_access_hash: i64 },
    /// Ban the user in a channel or supergroup with every restriction
    /// set and no end date, which removes them permanently.
    BanInBroadcast {
        channel_id: i64,
        channel_access_hash: i64,
        user_id: i64,
        user_access_hash: i64,
    },
}

/// Decide how to remove `user_id` from the chat: the delete-user call
/// for a basic group, the permanent ban for a channel that has its
/// access hash, and a refusal for every other kind.
pub fn kick_plan(raw: &RawChat, user_id: i64, user_access_hash: i64) -> (r: Result<
    KickAction,
    TelegramError,
>)
    ensures
        match *raw {
            RawChat::Basic { id, .. } => r == Ok::<_, TelegramError>(
                KickAction::DeleteFromBasicGroup { chat_id: id, user_id, user_access_hash },
            ),
            RawChat::Broadcast { id, access_hash, .. } => match access_hash {
                Some(h) => r == Ok::<_, TelegramError>(
                    KickAction::BanInBroadcast {
                        channel_id: id,
                        channel_access_hash: h,
                        user_id,
                        user_access_hash,
                    },
                ),
                None => r matches Err(TelegramError::Api(_)),
            },
            _ => r matches Err(TelegramError::Api(_)),
        },
{
    match raw {
        RawChat::Basic { id, .. } => Ok(KickAction::DeleteFromBasicGroup {
            chat_id: *id,
            user_id,
            user_access_hash,
        }),
        RawChat::Broadcast { id, access_hash, .. } => match access_hash {
            Some(h) => Ok(KickAction::BanInBroadcast {
                channel_id: *id,
                channel_access_hash: *h,
                user_id,
                user_access_hash,
            }),
            None => Err(TelegramError::Api(
                "channel is missing its access hash, cannot remove user".to_owned(),
            )),
        },
        _ => Err(TelegramError::Api("cannot remove user from this type of chat".to_owned())),
    }
}

/// Per-process cache of user access hashes, seeded from the contact
/// list.
pub struct UserAccessHashCache {
    cache: HashMap<i64, i64>,
}

/// The map after storing each pair in order.
pub open spec fn with_pairs(m: Map<i64, i64>, pairs: Seq<(i64, i64)>) -> Map<i64, i64>
    decreases pairs.len(),
{
    if pairs.len() == 0 {
        m
    } else {
        with_pairs(m, pairs.drop_last()).insert(pairs.last().0, pairs.last().1)
    }
}

impl UserAccessHashCache {
    pub closed spec fn model(&self) -> Map<i64, i64> {
        self.cache@
    }

    /// An empty cache.
    pub fn new() -> (r: Self)
        ensures
            r.model() == Map::<i64, i64>::empty(),
    {
        UserAccessHashCache { cache: HashMap::new() }
    }

    /// The cached access hash of `user_id`.
    pub fn get(&self, user_id: i64) -> (r: Option<i64>)
        ensures
            r == if self.model().contains_key(user_id) {
                Some(self.model()[user_id])
            } else {
                None::<i64>
            },
    {
        match self.cache.get(&user_id) {
            Some(h) => Some(*h),
            None => None,
        }
    }

    /// Cache one access hash.
    pub fn set(&mut self, user_id: i64, access_hash: i64)
        ensures
            final(self).model() == old(self).model().insert(user_id, access_hash),
    {
        self.cache.insert(user_id, access_hash);
    }

    /// Seed the cache from the fetched contact list: every listed pair
    /// is stored, later entries overriding earlier ones.
    pub fn populate_from_contacts(&mut self, contacts: &Vec<(i64, i64)>)
        ensures
            final(self).model() == with_pairs(old(self).model(), contacts@),
    {
        let mut i: usize = 0;
        let n = contacts.len();
        proof {
            assert(contacts@.take(0) =~= Seq::<(i64, i64)>::empty());
        }
        while i < n
            invariant
                n == contacts@.len() <= usize::MAX,
                0 <= i <= n,
                self.model() == with_pairs(old(self).model(), contacts@.take(i as int)),
            decreases n - i,
        {
            proof {
                assert(contacts@.take(i + 1).drop_last() =~= contacts@.take(i as int));
                assert(contacts@.take(i + 1).last() == contacts@[i as int]);
            }
            let (user_id, access_hash) = contacts[i];
            self.cache.insert(user_id, access_hash);
            i += 1;
        }
        proof {
            assert(contacts@.take(i as int) =~= contacts@);
        }
    }
}

/// Per-process cache of the raw chat records a common-group lookup
/// returned, kept for later removal calls.
pub struct ChatDataCache {
    cache: HashMap<i64, RawChat>,
}

impl ChatDataCache {
    pub closed spec fn model(&self) -> Map<i64, RawChat> {
        self.cache@
    }

    /// An empty cache.
    pub fn new() -> (r: Self)
        ensures
            r.model() == Map::<i64, RawChat>::empty(),
    {
        ChatDataCache { cache: HashMap::new() }
    }

    /// The cached raw chat under `chat_id`.
    pub fn get(&self, chat_id: i64) -> (r: Option<&RawChat>)
        ensures
            match r {
                Some(c) => self.model().contains_key(chat_id) && *c == self.model()[chat_id],
                None => !self.model().contains_key(chat_id),
            },
    {
        self.cache.get(&chat_id)
    }

    /// Cache one raw chat record.
    pub fn set(&mut self, chat_id: i64, chat: RawChat)
        ensures
            final(self).model() == old(self).model().insert(chat_id, chat),
    {
        self.cache.insert(chat_id, chat);
    }
}

} // verus!
