//! The outreach scheduler's state: durable queues of personalized
//! messages, per-recipient status accounting, cancellation, and the
//! driver decisions that pace sends through the rate limiter.
//!
//! The manager is the in-memory ledger. Persistence callbacks mirror
//! every transition into the store outside; restoration hands loaded
//! rows back in and recomputes the counters from the statuses, as the
//! store itself does.

use vstd::prelude::*;
use crate::strutil::{
    chars_of, string_from_chars, str_eq, replace_chars, replace_all_seq, append_chars, is_space,
    is_space_char, is_dec_digit, dec_val, find_from, is_match_at, parse_dec_range, find_idx,
    lemma_find_idx_some, lemma_find_idx_none,
};
use crate::strutil::{lower_ascii, lower_ascii_x};
use crate::chats::opt_str_view;
use crate::auth::{User, UserView, clone_string};
use crate::errors::OutreachError;
use crate::rate_limiter::{RateLimiter, send_decision};

verus! {

/// One recipient of an outreach queue.
#[derive(Debug)]
pub struct OutreachRecipient {
    pub user_id: i64,
    pub first_name: String,
    pub last_name: String,
    pub status: String,
    pub error: Option<String>,
    pub sent_at: Option<i64>,
}

/// Spec-level recipient.
pub struct RecipientView {
    pub user_id: i64,
    pub first_name: Seq<char>,
    pub last_name: Seq<char>,
    pub status: Seq<char>,
    pub error: Option<Seq<char>>,
    pub sent_at: Option<i64>,
}

impl View for OutreachRecipient {
    type V = RecipientView;

    open spec fn view(&self) -> RecipientView {
        RecipientView {
            user_id: self.user_id,
            first_name: self.first_name@,
            last_name: self.last_name@,
            status: self.status@,
            error: opt_str_view(self.error),
            sent_at: self.sent_at,
        }
    }
}

/// A queue of personalized messages.
#[derive(Debug)]
pub struct OutreachQueue {
    pub id: String,
    pub template: String,
    pub recipients: Vec<OutreachRecipient>,
    pub status: String,
    pub started_at: Option<i64>,
    pub completed_at: Option<i64>,
    pub sent_count: i32,
    pub failed_count: i32,
}

/// Spec-level queue.
pub struct QueueView {
    pub id: Seq<char>,
    pub template: Seq<char>,
    pub recipients: Seq<RecipientView>,
    pub status: Seq<char>,
    pub started_at: Option<i64>,
    pub completed_at: Option<i64>,
    pub sent_count: i32,
    pub failed_count: i32,
}

impl View for OutreachQueue {
    type V = QueueView;

    open spec fn view(&self) -> QueueView {
        QueueView {
            id: self.id@,
            template: self.template@,
            recipients: self.recipients@.map_values(|r: OutreachRecipient| r@),
            status: self.status@,
            started_at: self.started_at,
            completed_at: self.completed_at,
            sent_count: self.sent_count,
            failed_count: self.failed_count,
        }
    }
}

/// How many recipients hold the given status.
pub open spec fn count_with_status(rs: Seq<RecipientView>, st: Seq<char>) -> int
    decreases rs.len(),
{
    if rs.len() == 0 {
        0
    } else {
        count_with_status(rs.drop_last(), st) + if rs.last().status == st {
            1int
        } else {
            0int
        }
    }
}

/// A queue whose counters agree with its recipients' statuses.
pub open spec fn queue_wf(q: QueueView) -> bool {
    &&& q.sent_count == count_with_status(q.recipients, "sent"@)
    &&& q.failed_count == count_with_status(q.recipients, "failed"@)
    &&& q.recipients.len() <= i32::MAX
}

pub proof fn lemma_count_nonneg(rs: Seq<RecipientView>, st: Seq<char>)
    ensures
        0 <= count_with_status(rs, st) <= rs.len(),
    decreases rs.len(),
{
    if rs.len() > 0 {
        lemma_count_nonneg(rs.drop_last(), st);
    }
}

proof fn lemma_count_pair_bound(rs: Seq<RecipientView>, s1: Seq<char>, s2: Seq<char>)
    requires
        s1 != s2,
    ensures
        count_with_status(rs, s1) + count_with_status(rs, s2) <= rs.len(),
        0 <= count_with_status(rs, s1),
        0 <= count_with_status(rs, s2),
    decreases rs.len(),
{
    if rs.len() > 0 {
        lemma_count_pair_bound(rs.drop_last(), s1, s2);
    }
}

/// Sent and failed recipients never outnumber the queue: in a
/// well-formed queue `sent_count + failed_count <= len(recipients)`.
pub proof fn lemma_outreach_accounting(q: QueueView)
    requires
        queue_wf(q),
    ensures
        q.sent_count + q.failed_count <= q.recipients.len(),
        q.sent_count >= 0,
        q.failed_count >= 0,
{
    assert("sent"@ != "failed"@) by {
        reveal_strlit("sent");
        reveal_strlit("failed");
        assert("sent"@.len() == 4);
        assert("failed"@.len() == 6);
    }
    lemma_count_pair_bound(q.recipients, "sent"@, "failed"@);
}

/// In a terminal queue where every recipient ended sent or failed, the
/// two counters account for every recipient exactly.
pub proof fn lemma_terminal_accounting(q: QueueView)
    requires
        queue_wf(q),
        forall|i: int|
            0 <= i < q.recipients.len() ==> q.recipients[i].status == "sent"@
                || q.recipients[i].status == "failed"@,
    ensures
        q.sent_count + q.failed_count == q.recipients.len(),
{
    assert("sent"@ != "failed"@) by {
        reveal_strlit("sent");
        reveal_strlit("failed");
        assert("sent"@.len() == 4);
        assert("failed"@.len() == 6);
    }
    lemma_terminal_count(q.recipients, "sent"@, "failed"@);
}

proof fn lemma_terminal_count(rs: Seq<RecipientView>, s1: Seq<char>, s2: Seq<char>)
    requires
        s1 != s2,
        forall|i: int| 0 <= i < rs.len() ==> rs[i].status == s1 || rs[i].status == s2,
    ensures
        count_with_status(rs, s1) + count_with_status(rs, s2) == rs.len(),
    decreases rs.len(),
{
    if rs.len() > 0 {
        assert(rs.drop_last().len() == rs.len() - 1);
        assert(forall|i: int|
            0 <= i < rs.drop_last().len() ==> rs.drop_last()[i] == rs[i]);
        lemma_terminal_count(rs.drop_last(), s1, s2);
        assert(rs.last() == rs[rs.len() - 1]);
    }
}

/// The mapping a list of queues stands for; a later queue with the same
/// id shadows an earlier one.
pub open spec fn queues_map(s: Seq<OutreachQueue>) -> Map<Seq<char>, QueueView>
    decreases s.len(),
{
    if s.len() == 0 {
        Map::empty()
    } else {
        queues_map(s.drop_last()).insert(s.last().id@, s.last()@)
    }
}

proof fn lemma_queues_map_last_occurrence(s: Seq<OutreachQueue>, k: Seq<char>, j: int)
    requires
        0 <= j < s.len(),
        s[j].id@ == k,
        forall|l: int| j < l < s.len() ==> s[l].id@ != k,
    ensures
        queues_map(s).contains_key(k),
        queues_map(s)[k] == s[j]@,
    decreases s.len(),
{
    if j == s.len() - 1 {
    } else {
        lemma_queues_map_last_occurrence(s.drop_last(), k, j);
    }
}

proof fn lemma_queues_map_absent(s: Seq<OutreachQueue>, k: Seq<char>)
    requires
        forall|l: int| 0 <= l < s.len() ==> s[l].id@ != k,
    ensures
        !queues_map(s).contains_key(k),
    decreases s.len(),
{
    if s.len() > 0 {
        lemma_queues_map_absent(s.drop_last(), k);
    }
}

proof fn lemma_queues_map_update(s: Seq<OutreachQueue>, k: Seq<char>, j: int, q: OutreachQueue)
    requires
        0 <= j < s.len(),
        s[j].id@ == k,
        forall|l: int| j < l < s.len() ==> s[l].id@ != k,
        q.id@ == k,
    ensures
        queues_map(s.update(j, q)) =~= queues_map(s).insert(k, q@),
    decreases s.len(),
{
    let u = s.update(j, q);
    if j == s.len() - 1 {
        assert(u.drop_last() =~= s.drop_last());
        assert(u.last() == q);
    } else {
        lemma_queues_map_update(s.drop_last(), k, j, q);
        assert(u.drop_last() =~= s.drop_last().update(j, q));
        assert(u.last() == s.last());
        assert(queues_map(u) == queues_map(u.drop_last()).insert(s.last().id@, s.last()@));
        assert(queues_map(s).insert(k, q@) =~= queues_map(s.drop_last()).insert(
            s.last().id@,
            s.last()@,
        ).insert(k, q@));
    }
}

/// The in-memory ledger of outreach queues.
pub struct OutreachManager {
    queues: Vec<OutreachQueue>,
}

impl OutreachManager {
    /// The queues the manager holds, by id.
    pub closed spec fn model(&self) -> Map<Seq<char>, QueueView> {
        queues_map(self.queues@)
    }

    /// Every queue's counters agree with its recipients.
    pub open spec fn inv(&self) -> bool {
        forall|k: Seq<char>| self.model().contains_key(k) ==> queue_wf(#[trigger] self.model()[k])
    }

    /// An empty manager.
    pub fn new() -> (r: Self)
        ensures
            r.model() == Map::<Seq<char>, QueueView>::empty(),
            r.inv(),
    {
        let r = OutreachManager { queues: Vec::new() };
        proof {
            assert(r.model() =~= Map::<Seq<char>, QueueView>::empty());
        }
        r
    }

    fn find_queue_index(&self, queue_id: &str) -> (r: Option<usize>)
        ensures
            match r {
                Some(j) => {
                    &&& j < self.queues@.len()
                    &&& self.queues@[j as int].id@ == queue_id@
                    &&& forall|l: int|
                        j < l < self.queues@.len() ==> self.queues@[l].id@ != queue_id@
                    &&& self.model().contains_key(queue_id@)
                    &&& self.model()[queue_id@] == self.queues@[j as int]@
                },
                None => !self.model().contains_key(queue_id@),
            },
    {
        let n = self.queues.len();
        let mut i: usize = n;
        while i > 0
            invariant
                n == self.queues@.len() <= usize::MAX,
                0 <= i <= n,
                forall|l: int| i <= l < n ==> self.queues@[l].id@ != queue_id@,
            decreases i,
        {
            i -= 1;
            if str_eq(self.queues[i].id.as_str(), queue_id) {
                proof {
                    lemma_queues_map_last_occurrence(self.queues@, queue_id@, i as int);
                }
                return Some(i);
            }
        }
        proof {
            lemma_queues_map_absent(self.queues@, queue_id@);
        }
        None
    }

    /// The queue under `queue_id`, if the manager holds one.
    pub fn get_status(&self, queue_id: &str) -> (r: Option<&OutreachQueue>)
        ensures
            match r {
                Some(q) => self.model().contains_key(queue_id@) && q@ == self.model()[queue_id@],
                None => !self.model().contains_key(queue_id@),
            },
    {
        match self.find_queue_index(queue_id) {
            Some(j) => Some(&self.queues[j]),
            None => None,
        }
    }

    /// Whether the queue was cancelled; a queue the manager does not
    /// hold counts as cancelled, so its driver stops.
    pub fn is_cancelled(&self, queue_id: &str) -> (r: bool)
        ensures
            r == if self.model().contains_key(queue_id@) {
                self.model()[queue_id@].status == "cancelled"@
            } else {
                true
            },
    {
        match self.find_queue_index(queue_id) {
            Some(j) => str_eq(self.queues[j].status.as_str(), "cancelled"),
            None => true,
        }
    }

    /// Hold a restored queue, its counters recomputed from its
    /// recipients' statuses as the store reports them.
    pub fn restore_queue(&mut self, queue: OutreachQueue)
        requires
            old(self).inv(),
            queue.recipients@.len() <= i32::MAX,
        ensures
            final(self).model() == old(self).model().insert(
                queue.id@,
                final(self).model()[queue.id@],
            ),
            final(self).model().contains_key(queue.id@),
            ({
                let q = final(self).model()[queue.id@];
                &&& q.id == queue.id@
                &&& q.template == queue.template@
                &&& q.recipients == queue@.recipients
                &&& q.status == queue.status@
                &&& queue_wf(q)
            }),
            final(self).inv(),
    {
        let sent = count_status(&queue.recipients, "sent");
        let failed = count_status(&queue.recipients, "failed");
        let normalized = OutreachQueue {
            sent_count: sent,
            failed_count: failed,
            ..queue
        };
        let ghost g = normalized;
        self.queues.push(normalized);
        proof {
            assert(self.queues@.drop_last() =~= old(self).queues@);
            assert(self.model() =~= old(self).model().insert(g.id@, g@));
            assert forall|k: Seq<char>| final(self).model().contains_key(k) implies queue_wf(
                #[trigger] final(self).model()[k],
            ) by {
                if k != g.id@ {
                    assert(old(self).model().contains_key(k));
                }
            }
        }
    }

    /// Commit a built-and-persisted queue to the ledger. The caller
    /// builds the queue with [`build_queue`], writes it to the store
    /// first, and hands it in only when that write succeeded, so a
    /// storage failure leaves the ledger untouched.
    pub fn create_queue(&mut self, queue: OutreachQueue)
        requires
            old(self).inv(),
            queue_wf(queue@),
        ensures
            final(self).model() == old(self).model().insert(queue.id@, queue@),
            final(self).inv(),
    {
        let ghost g = queue;
        self.queues.push(queue);
        proof {
            assert(self.queues@.drop_last() =~= old(self).queues@);
            assert(self.model() =~= old(self).model().insert(g.id@, g@));
            assert forall|k: Seq<char>| final(self).model().contains_key(k) implies queue_wf(
                #[trigger] final(self).model()[k],
            ) by {
                if k != g.id@ {
                    assert(old(self).model().contains_key(k));
                }
            }
        }
    }
}

/// The status values a queue never leaves.
pub open spec fn queue_terminal(status: Seq<char>) -> bool {
    status == "completed"@ || status == "cancelled"@
}

/// Build a new queue over the given recipients under a fresh id: status
/// `running`, counters zero, started now. The queue touches no ledger
/// yet; the caller persists it and then commits it with
/// [`OutreachManager::create_queue`].
pub fn build_queue(recipients: Vec<OutreachRecipient>, template: String, now: i64) -> (q:
    OutreachQueue)
    requires
        recipients@.len() <= i32::MAX,
        forall|i: int|
            0 <= i < recipients@.len() ==> (#[trigger] recipients@[i]@.status) == "pending"@,
    ensures
        q.id@.len() == 36,
        q.template == template,
        q.recipients == recipients,
        q.status@ == "running"@,
        q.started_at == Some(now),
        q.completed_at is None,
        q.sent_count == 0,
        q.failed_count == 0,
        queue_wf(q@),
        !queue_terminal(q@.status),
{
    proof {
        reveal_strlit("sent");
        reveal_strlit("failed");
        reveal_strlit("pending");
        reveal_strlit("running");
        reveal_strlit("completed");
        reveal_strlit("cancelled");
        assert("sent"@.len() == 4 && "failed"@.len() == 6 && "pending"@.len() == 7);
        assert("running"@.len() == 7 && "completed"@.len() == 9 && "cancelled"@.len() == 9);
        assert("running"@[0] != "completed"@[0] && "running"@[0] != "cancelled"@[0]);
        lemma_all_pending_counts(recipients@.map_values(|x: OutreachRecipient| x@), "sent"@);
        lemma_all_pending_counts(recipients@.map_values(|x: OutreachRecipient| x@), "failed"@);
    }
    OutreachQueue {
        id: fresh_queue_id(),
        template,
        recipients,
        status: "running".to_owned(),
        started_at: Some(now),
        completed_at: None,
        sent_count: 0,
        failed_count: 0,
    }
}

/// Check an outreach request before any work is done: an empty
/// recipient list is refused, then a template that is blank once
/// trimmed.
pub fn validate_outreach_request(recipient_ids: &Vec<i64>, template: &str) -> (r: Result<
    (),
    OutreachError,
>)
    ensures
        recipient_ids@.len() == 0 ==> r == Err::<(), _>(OutreachError::NoRecipients),
        recipient_ids@.len() > 0 && crate::strutil::trimmed(template@).len() == 0 ==> r == Err::<
            (),
            _,
        >(OutreachError::EmptyTemplate),
        recipient_ids@.len() > 0 && crate::strutil::trimmed(template@).len() > 0 ==> r is Ok,
{
    if recipient_ids.len() == 0 {
        return Err(OutreachError::NoRecipients);
    }
    let trimmed_template = crate::strutil::trim_str(template);
    if trimmed_template.as_str().unicode_len() == 0 {
        return Err(OutreachError::EmptyTemplate);
    }
    Ok(())
}

proof fn lemma_all_pending_counts(rs: Seq<RecipientView>, st: Seq<char>)
    requires
        forall|i: int| 0 <= i < rs.len() ==> (#[trigger] rs[i]).status == "pending"@,
        st != "pending"@,
    ensures
        count_with_status(rs, st) == 0,
    decreases rs.len(),
{
    if rs.len() > 0 {
        assert(forall|i: int|
            0 <= i < rs.drop_last().len() ==> rs.drop_last()[i] == rs[i]);
        lemma_all_pending_counts(rs.drop_last(), st);
        assert(rs.last() == rs[rs.len() - 1]);
    }
}

/// How many recipients hold the given status.
fn count_status(recipients: &Vec<OutreachRecipient>, status: &str) -> (r: i32)
    requires
        recipients@.len() <= i32::MAX,
    ensures
        r == count_with_status(recipients@.map_values(|x: OutreachRecipient| x@), status@),
{
    let ghost rv = recipients@.map_values(|x: OutreachRecipient| x@);
    let mut count: i32 = 0;
    let mut i: usize = 0;
    proof {
        assert(rv.take(0) =~= Seq::<RecipientView>::empty());
        lemma_count_nonneg(rv, status@);
    }
    while i < recipients.len()
        invariant
            recipients@.len() <= i32::MAX,
            rv == recipients@.map_values(|x: OutreachRecipient| x@),
            0 <= i <= recipients@.len(),
            count == count_with_status(rv.take(i as int), status@),
            0 <= count <= i,
        decreases recipients@.len() - i,
    {
        proof {
            assert(rv.take(i + 1).drop_last() =~= rv.take(i as int));
            assert(rv.take(i + 1).last() == rv[i as int]);
            assert(rv[i as int] == recipients@[i as int]@);
        }
        if str_eq(recipients[i].status.as_str(), status) {
            count += 1;
        }
        i += 1;
    }
    proof {
        assert(rv.take(i as int) =~= rv);
    }
    count
}

/// Relies on `uuid::Uuid::new_v4` and its `Display` form: a fresh
/// random identifier rendered as 36 hyphenated characters. Nothing is
/// assumed about which identifier comes back.
#[verifier::external_body]
fn fresh_queue_id() -> (r: String)
    ensures
        r@.len() == 36,
{
    uuid::Uuid::new_v4().to_string()
}

/// First index holding recipient `uid`.
pub open spec fn first_recipient_idx(rs: Seq<RecipientView>, uid: i64) -> Option<int>
    decreases rs.len(),
{
    if rs.len() == 0 {
        None
    } else if rs[0].user_id == uid {
        Some(0)
    } else {
        match first_recipient_idx(rs.drop_first(), uid) {
            Some(j) => Some(j + 1),
            None => None,
        }
    }
}

proof fn lemma_first_recipient_at(rs: Seq<RecipientView>, uid: i64, k: int)
    requires
        0 <= k < rs.len(),
        rs[k].user_id == uid,
        forall|i: int| 0 <= i < k ==> rs[i].user_id != uid,
    ensures
        first_recipient_idx(rs, uid) == Some(k),
    decreases k,
{
    if k == 0 {
    } else {
        assert(forall|i: int|
            0 <= i < k - 1 ==> rs.drop_first()[i] == rs[i + 1]);
        lemma_first_recipient_at(rs.drop_first(), uid, k - 1);
    }
}

proof fn lemma_first_recipient_absent(rs: Seq<RecipientView>, uid: i64)
    requires
        forall|i: int| 0 <= i < rs.len() ==> rs[i].user_id != uid,
    ensures
        first_recipient_idx(rs, uid) is None,
    decreases rs.len(),
{
    if rs.len() > 0 {
        assert(forall|i: int|
            0 <= i < rs.len() - 1 ==> rs.drop_first()[i] == rs[i + 1]);
        lemma_first_recipient_absent(rs.drop_first(), uid);
    }
}

/// The queue after a send outcome for `uid` is recorded: the first
/// recipient row with that user takes the new status, the error text,
/// and on a successful send the send time; the matching counter steps.
pub open spec fn apply_recipient_update(
    q: QueueView,
    uid: i64,
    st: Seq<char>,
    err: Option<Seq<char>>,
    now: i64,
) -> QueueView {
    match first_recipient_idx(q.recipients, uid) {
        None => q,
        Some(i) => {
            let old_r = q.recipients[i];
            let new_r = RecipientView {
                status: st,
                error: err,
                sent_at: if st == "sent"@ {
                    Some(now)
                } else {
                    old_r.sent_at
                },
                ..old_r
            };
            QueueView {
                recipients: q.recipients.update(i, new_r),
                sent_count: if st == "sent"@ {
                    (q.sent_count + 1) as i32
                } else {
                    q.sent_count
                },
                failed_count: if st == "failed"@ {
                    (q.failed_count + 1) as i32
                } else {
                    q.failed_count
                },
                ..q
            }
        },
    }
}

proof fn lemma_count_excludes(rs: Seq<RecipientView>, i: int, st: Seq<char>)
    requires
        0 <= i < rs.len(),
        rs[i].status != st,
    ensures
        count_with_status(rs, st) <= rs.len() - 1,
    decreases rs.len(),
{
    lemma_count_nonneg(rs, st);
    if i == rs.len() - 1 {
        lemma_count_nonneg(rs.drop_last(), st);
        assert(rs.last() == rs[i]);
    } else {
        assert(rs.drop_last()[i] == rs[i]);
        lemma_count_excludes(rs.drop_last(), i, st);
    }
}

proof fn lemma_count_update(rs: Seq<RecipientView>, i: int, r2: RecipientView, st: Seq<char>)
    requires
        0 <= i < rs.len(),
    ensures
        count_with_status(rs.update(i, r2), st) == count_with_status(rs, st) - (
        if rs[i].status == st {
            1int
        } else {
            0int
        }) + (
        if r2.status == st {
            1int
        } else {
            0int
        }),
    decreases rs.len(),
{
    let u = rs.update(i, r2);
    if i == rs.len() - 1 {
        assert(u.drop_last() =~= rs.drop_last());
        assert(u.last() == r2);
        assert(rs.last() == rs[i]);
    } else {
        lemma_count_update(rs.drop_last(), i, r2, st);
        assert(u.drop_last() =~= rs.drop_last().update(i, r2));
        assert(u.last() == rs.last());
        assert(rs.drop_last()[i] == rs[i]);
    }
}

fn find_recipient_index(recipients: &Vec<OutreachRecipient>, uid: i64) -> (r: Option<usize>)
    ensures
        ({
            let rv = recipients@.map_values(|x: OutreachRecipient| x@);
            match r {
                Some(i) => i < rv.len() && first_recipient_idx(rv, uid) == Some(i as int),
                None => first_recipient_idx(rv, uid) is None,
            }
        }),
{
    let ghost rv = recipients@.map_values(|x: OutreachRecipient| x@);
    let mut i: usize = 0;
    while i < recipients.len()
        invariant
            rv == recipients@.map_values(|x: OutreachRecipient| x@),
            0 <= i <= rv.len(),
            forall|j: int| 0 <= j < i ==> rv[j].user_id != uid,
        decreases rv.len() - i,
    {
        if recipients[i].user_id == uid {
            proof {
                assert(rv[i as int] == recipients@[i as int]@);
                lemma_first_recipient_at(rv, uid, i as int);
            }
            return Some(i);
        }
        i += 1;
    }
    proof {
        lemma_first_recipient_absent(rv, uid);
    }
    None
}

impl OutreachManager {
    /// Record a send outcome on a recipient: the first row with that
    /// user takes the status (`sent` or `failed`), the error text, and
    /// the send time on success, and the queue's counter steps. An
    /// unknown queue or user changes nothing. The caller persists the
    /// same row before the next recipient is attempted.
    pub fn update_recipient_status(
        &mut self,
        queue_id: &str,
        user_id: i64,
        status: &str,
        error: Option<String>,
        now: i64,
    )
        requires
            old(self).inv(),
            status@ == "sent"@ || status@ == "failed"@,
            old(self).model().contains_key(queue_id@) ==> (match first_recipient_idx(
                old(self).model()[queue_id@].recipients,
                user_id,
            ) {
                Some(i) => old(self).model()[queue_id@].recipients[i].status == "pending"@,
                None => true,
            }),
        ensures
            final(self).inv(),
            if old(self).model().contains_key(queue_id@) {
                final(self).model() == old(self).model().insert(
                    queue_id@,
                    apply_recipient_update(
                        old(self).model()[queue_id@],
                        user_id,
                        status@,
                        opt_str_view(error),
                        now,
                    ),
                )
            } else {
                final(self).model() == old(self).model()
            },
    {
        let j = match self.find_queue_index(queue_id) {
            Some(j) => j,
            None => {
                return ;
            },
        };
        let ghost old_q = self.queues@[j as int]@;
        let mut q = self.queues.remove(j);
        let i = match find_recipient_index(&q.recipients, user_id) {
            Some(i) => i,
            None => {
                let ghost removed = self.queues@;
                self.queues.insert(j, q);
                proof {
                    assert(self.queues@ =~= old(self).queues@);
                    assert(apply_recipient_update(
                        old_q,
                        user_id,
                        status@,
                        opt_str_view(error),
                        now,
                    ) == old_q);
                    lemma_queues_map_update(
                        old(self).queues@,
                        queue_id@,
                        j as int,
                        old(self).queues@[j as int],
                    );
                    assert(old(self).queues@.update(j as int, old(self).queues@[j as int])
                        =~= old(self).queues@);
                    assert(final(self).model() =~= old(self).model().insert(queue_id@, old_q));
                }
                return ;
            },
        };
        let ghost old_recipients = q.recipients@.map_values(|x: OutreachRecipient| x@);
        let mut rec = q.recipients.remove(i);
        let ghost old_rec = rec@;
        let is_sent = str_eq(status, "sent");
        proof {
            reveal_strlit("sent");
            reveal_strlit("failed");
            reveal_strlit("pending");
            assert("sent"@.len() == 4 && "failed"@.len() == 6 && "pending"@.len() == 7);
            lemma_count_nonneg(old_recipients, "sent"@);
            lemma_count_nonneg(old_recipients, "failed"@);
            assert(old(self).model().contains_key(queue_id@));
            assert(queue_wf(old(self).model()[queue_id@]));
            assert(old_q.recipients =~= old_recipients);
            assert(old_recipients[i as int].status == "pending"@);
            lemma_count_excludes(old_recipients, i as int, "sent"@);
            lemma_count_excludes(old_recipients, i as int, "failed"@);
        }
        rec.status = status.to_owned();
        rec.error = error;
        if is_sent {
            rec.sent_at = Some(now);
        }
        let ghost new_rec = rec@;
        q.recipients.insert(i, rec);
        proof {
            assert(q.recipients@ =~= old(self).queues@[j as int].recipients@.update(
                i as int,
                q.recipients@[i as int],
            ));
            assert(q.recipients@.map_values(|x: OutreachRecipient| x@) =~= old_recipients.update(
                i as int,
                new_rec,
            ));
            lemma_count_update(old_recipients, i as int, new_rec, "sent"@);
            lemma_count_update(old_recipients, i as int, new_rec, "failed"@);
            assert(old_recipients[i as int].status == "pending"@);
        }
        if is_sent {
            q.sent_count = q.sent_count + 1;
        } else {
            q.failed_count = q.failed_count + 1;
        }
        let ghost q_g = q;
        self.queues.insert(j, q);
        proof {
            assert(self.queues@ =~= old(self).queues@.update(j as int, q_g));
            assert(q_g@ == apply_recipient_update(
                old_q,
                user_id,
                status@,
                opt_str_view(error),
                now,
            ));
            lemma_queues_map_update(old(self).queues@, queue_id@, j as int, q_g);
            assert forall|k: Seq<char>| final(self).model().contains_key(k) implies queue_wf(
                #[trigger] final(self).model()[k],
            ) by {
                if k != queue_id@ {
                    assert(old(self).model().contains_key(k));
                }
            }
        }
    }

    fn set_queue_status(&mut self, queue_id: &str, status: &str, now: i64) -> (r:
        StatusChange)
        requires
            old(self).inv(),
        ensures
            final(self).inv(),
            match r {
                StatusChange::Missing => {
                    &&& !old(self).model().contains_key(queue_id@)
                    &&& final(self).model() == old(self).model()
                },
                StatusChange::LeftTerminal => {
                    &&& old(self).model().contains_key(queue_id@)
                    &&& queue_terminal(old(self).model()[queue_id@].status)
                    &&& final(self).model() == old(self).model()
                },
                StatusChange::Updated => {
                    &&& old(self).model().contains_key(queue_id@)
                    &&& !queue_terminal(old(self).model()[queue_id@].status)
                    &&& final(self).model() == old(self).model().insert(
                        queue_id@,
                        QueueView {
                            status: status@,
                            completed_at: Some(now),
                            ..old(self).model()[queue_id@]
                        },
                    )
                },
            },
    {
        let j = match self.find_queue_index(queue_id) {
            Some(j) => j,
            None => {
                return StatusChange::Missing;
            },
        };
        if str_eq(self.queues[j].status.as_str(), "completed") || str_eq(
            self.queues[j].status.as_str(),
            "cancelled",
        ) {
            return StatusChange::LeftTerminal;
        }
        let ghost old_q = self.queues@[j as int]@;
        let mut q = self.queues.remove(j);
        q.status = status.to_owned();
        q.completed_at = Some(now);
        let ghost q_g = q;
        self.queues.insert(j, q);
        proof {
            assert(self.queues@ =~= old(self).queues@.update(j as int, q_g));
            assert(q_g@ == QueueView { status: status@, completed_at: Some(now), ..old_q });
            lemma_queues_map_update(old(self).queues@, queue_id@, j as int, q_g);
            assert forall|k: Seq<char>| final(self).model().contains_key(k) implies queue_wf(
                #[trigger] final(self).model()[k],
            ) by {
                if k != queue_id@ {
                    assert(old(self).model().contains_key(k));
                }
            }
        }
        StatusChange::Updated
    }

    /// The driver finished its pass: the queue is `completed`, stamped
    /// now. A queue already in a terminal status stands as it is, so a
    /// cancellation that lands first is never overwritten; an unknown
    /// queue changes nothing.
    pub fn complete_queue(&mut self, queue_id: &str, now: i64)
        requires
            old(self).inv(),
        ensures
            final(self).inv(),
            if old(self).model().contains_key(queue_id@) && !queue_terminal(
                old(self).model()[queue_id@].status,
            ) {
                final(self).model() == old(self).model().insert(
                    queue_id@,
                    QueueView {
                        status: "completed"@,
                        completed_at: Some(now),
                        ..old(self).model()[queue_id@]
                    },
                )
            } else {
                final(self).model() == old(self).model()
            },
    {
        let _ = self.set_queue_status(queue_id, "completed", now);
    }

    /// Cancel a queue: its status becomes `cancelled` and its driver
    /// stops at the next poll. Cancelling an unknown queue fails, a
    /// second cancellation is refused as already cancelled, and a
    /// completed queue is terminal and stands unchanged.
    pub fn cancel(&mut self, queue_id: &str, now: i64) -> (r: Result<(), OutreachError>)
        requires
            old(self).inv(),
        ensures
            final(self).inv(),
            if !old(self).model().contains_key(queue_id@) {
                &&& final(self).model() == old(self).model()
                &&& match r {
                    Err(OutreachError::QueueNotFound(s)) => s@ == queue_id@,
                    _ => false,
                }
            } else if old(self).model()[queue_id@].status == "cancelled"@ {
                &&& final(self).model() == old(self).model()
                &&& r == Err::<(), _>(OutreachError::AlreadyCancelled)
            } else if old(self).model()[queue_id@].status == "completed"@ {
                &&& final(self).model() == old(self).model()
                &&& r is Ok
            } else {
                &&& r is Ok
                &&& final(self).model() == old(self).model().insert(
                    queue_id@,
                    QueueView {
                        status: "cancelled"@,
                        completed_at: Some(now),
                        ..old(self).model()[queue_id@]
                    },
                )
            },
    {
        let j = match self.find_queue_index(queue_id) {
            Some(j) => j,
            None => {
                return Err(OutreachError::QueueNotFound(queue_id.to_owned()));
            },
        };
        if str_eq(self.queues[j].status.as_str(), "cancelled") {
            return Err(OutreachError::AlreadyCancelled);
        }
        if str_eq(self.queues[j].status.as_str(), "completed") {
            return Ok(());
        }
        let _ = self.set_queue_status(queue_id, "cancelled", now);
        Ok(())
    }
}

/// One status write's effect on the ledger.
enum StatusChange {
    Missing,
    LeftTerminal,
    Updated,
}

/// What a message template renders to for a recipient: the literal/// What a message template renders to for a recipient: the literal
/// placeholders replaced with the stored names, an empty first name
/// standing in as `there`, and the full name falling back to the first
/// name alone when the last name is empty.
pub open spec fn personalized_text(t: Seq<char>, first: Seq<char>, last: Seq<char>) -> Seq<char> {
    let f = if first.len() == 0 {
        "there"@
    } else {
        first
    };
    let full = if last.len() == 0 {
        f
    } else {
        f + " "@ + last
    };
    replace_all_seq(
        replace_all_seq(
            replace_all_seq(replace_all_seq(t, "{name}"@, f), "{first_name}"@, f),
            "{last_name}"@,
            last,
        ),
        "{full_name}"@,
        full,
    )
}

/// Personalize a message template with a recipient's names.
pub fn personalize_message(template: &str, first_name: &str, last_name: &str) -> (r: String)
    ensures
        r@ == personalized_text(template@, first_name@, last_name@),
{
    let t = chars_of(template);
    let last = chars_of(last_name);
    let first_raw = chars_of(first_name);
    let first = if first_raw.len() == 0 {
        chars_of("there")
    } else {
        first_raw
    };
    let mut full = clone_chars(&first);
    if last.len() > 0 {
        let space = chars_of(" ");
        append_chars(&mut full, &space);
        append_chars(&mut full, &last);
    }
    let pat_name = chars_of("{name}");
    let pat_first = chars_of("{first_name}");
    let pat_last = chars_of("{last_name}");
    let pat_full = chars_of("{full_name}");
    proof {
        reveal_strlit("{name}");
        reveal_strlit("{first_name}");
        reveal_strlit("{last_name}");
        reveal_strlit("{full_name}");
        assert(pat_name@.len() == 6);
        assert(pat_first@.len() == 12);
        assert(pat_last@.len() == 11);
        assert(pat_full@.len() == 11);
    }
    let step1 = replace_chars(&t, &pat_name, &first);
    let step2 = replace_chars(&step1, &pat_first, &first);
    let step3 = replace_chars(&step2, &pat_last, &last);
    let step4 = replace_chars(&step3, &pat_full, &full);
    string_from_chars(&step4)
}

fn clone_chars(v: &Vec<char>) -> (r: Vec<char>)
    ensures
        r@ == v@,
{
    let mut r: Vec<char> = Vec::new();
    append_chars(&mut r, v);
    assert(r@ =~= v@);
    r
}

/// Length of the maximal decimal-digit run starting at `i`.
pub open spec fn digit_run(s: Seq<char>, i: int) -> int
    decreases s.len() - i,
{
    if 0 <= i < s.len() && is_dec_digit(s[i]) {
        1 + digit_run(s, i + 1)
    } else {
        0
    }
}

pub proof fn lemma_digit_run_bounds(s: Seq<char>, i: int)
    requires
        0 <= i <= s.len(),
    ensures
        0 <= digit_run(s, i),
        i + digit_run(s, i) <= s.len(),
    decreases s.len() - i,
{
    if i < s.len() && is_dec_digit(s[i]) {
        lemma_digit_run_bounds(s, i + 1);
    }
}

fn digit_run_x(s: &Vec<char>, i: usize) -> (r: usize)
    requires
        i <= s@.len(),
    ensures
        r == digit_run(s@, i as int),
        i + r <= s@.len(),
    decreases s@.len() - i,
{
    if i < s.len() && (s[i] as u32) >= 48 && (s[i] as u32) <= 57 {
        let rest = digit_run_x(s, i + 1);
        1 + rest
    } else {
        0
    }
}

/// Length of the maximal non-white-space run starting at `i`.
pub open spec fn nonspace_run(s: Seq<char>, i: int) -> int
    decreases s.len() - i,
{
    if 0 <= i < s.len() && !is_space(s[i]) {
        1 + nonspace_run(s, i + 1)
    } else {
        0
    }
}

pub proof fn lemma_nonspace_run_bounds(s: Seq<char>, i: int)
    requires
        0 <= i <= s.len(),
    ensures
        0 <= nonspace_run(s, i),
        i + nonspace_run(s, i) <= s.len(),
    decreases s.len() - i,
{
    if i < s.len() && !is_space(s[i]) {
        lemma_nonspace_run_bounds(s, i + 1);
    }
}

fn nonspace_run_x(s: &Vec<char>, i: usize) -> (r: usize)
    requires
        i <= s@.len(),
    ensures
        r == nonspace_run(s@, i as int),
        i + r <= s@.len(),
    decreases s@.len() - i,
{
    if i < s.len() && !is_space_char(s[i]) {
        let rest = nonspace_run_x(s, i + 1);
        1 + rest
    } else {
        0
    }
}

/// Every character of `tok` is a decimal digit.
pub open spec fn all_digits(tok: Seq<char>) -> bool {
    tok.len() > 0 && forall|i: int| 0 <= i < tok.len() ==> is_dec_digit(#[trigger] tok[i])
}

/// Scan white-space-separated tokens from `i` on; the first token that
/// is a plain number strictly between zero and a day's worth of seconds
/// is the answer.
pub open spec fn flood_fallback(s: Seq<char>, i: int) -> Option<u64>
    decreases s.len() - i,
    when 0 <= i
    via flood_fallback_decreases
{
    if i >= s.len() {
        None
    } else if is_space(s[i]) {
        flood_fallback(s, i + 1)
    } else {
        let l = nonspace_run(s, i);
        let tok = s.subrange(i, i + l);
        if all_digits(tok) && 0 < dec_val(tok) < 86400 {
            Some(dec_val(tok) as u64)
        } else {
            flood_fallback(s, i + l)
        }
    }
}

#[via_fn]
proof fn flood_fallback_decreases(s: Seq<char>, i: int) {
    if 0 <= i < s.len() && !is_space(s[i]) {
        lemma_nonspace_run_bounds(s, i);
        lemma_nonspace_run_bounds(s, i + 1);
        assert(nonspace_run(s, i) == 1 + nonspace_run(s, i + 1));
    }
}

fn flood_fallback_x(s: &Vec<char>, i: usize) -> (r: Option<u64>)
    requires
        i <= s@.len(),
    ensures
        r == flood_fallback(s@, i as int),
    decreases s@.len() - i,
{
    if i >= s.len() {
        None
    } else if is_space_char(s[i]) {
        flood_fallback_x(s, i + 1)
    } else {
        let slen = s.len();
        assert(s@.len() == slen <= usize::MAX);
        let l = nonspace_run_x(s, i);
        proof {
            lemma_nonspace_run_bounds(s@, i + 1);
            assert(nonspace_run(s@, i as int) == 1 + nonspace_run(s@, i + 1));
        }
        assert(l >= 1);
        let ghost tok = s@.subrange(i as int, i + l);
        let mut digits_ok = true;
        let mut j: usize = i;
        while j < i + l
            invariant
                i <= j <= i + l,
                i + l <= s@.len(),
                s@.len() <= usize::MAX,
                tok == s@.subrange(i as int, i + l),
                digits_ok == (forall|k: int| i <= k < j ==> is_dec_digit(#[trigger] s@[k])),
            decreases i + l - j,
        {
            let c = s[j];
            if !((c as u32) >= 48 && (c as u32) <= 57) {
                digits_ok = false;
            }
            j += 1;
        }
        proof {
            assert(forall|k: int| 0 <= k < l ==> tok[k] == s@[i + k]);
            if digits_ok {
                assert(all_digits(tok));
            } else {
                if all_digits(tok) {
                    assert forall|k: int| i <= k < i + l implies is_dec_digit(
                        #[trigger] s@[k],
                    ) by {
                        assert(tok[k - i] == s@[k]);
                    }
                }
                assert(!all_digits(tok));
            }
        }
        if digits_ok {
            match parse_dec_range(s, i, i + l) {
                Some(v) => {
                    if 0 < v && v < 86400 {
                        return Some(v);
                    }
                },
                None => {},
            }
            proof {
                if all_digits(tok) && 0 < dec_val(tok) < 86400 {
                    assert(dec_val(tok) <= u64::MAX);
                }
            }
            flood_fallback_x(s, i + l)
        } else {
            flood_fallback_x(s, i + l)
        }
    }
}

/// The value the first pattern yields: the digits right after the first
/// `flood_wait_` occurrence in the lower-cased text, when there are any
/// and they fit.
pub open spec fn flood_prefix_value(low: Seq<char>) -> Option<u64> {
    match find_idx(low, "flood_wait_"@, 0) {
        None => None,
        Some(i) => {
            let start = i + "flood_wait_"@.len();
            let l = digit_run(low, start);
            let digits = low.subrange(start, start + l);
            if l >= 1 && dec_val(digits) <= u64::MAX {
                Some(dec_val(digits) as u64)
            } else {
                None
            }
        },
    }
}

/// The wait an error text actually names: the `flood_wait_` digits if
/// present and parsable, else the first bare number strictly between
/// zero and a day's worth of seconds; nothing when neither occurs.
pub open spec fn flood_wait_signal(msg: Seq<char>) -> Option<u64> {
    let low = lower_ascii(msg);
    match flood_prefix_value(low) {
        Some(v) => Some(v),
        None => flood_fallback(low, 0),
    }
}

/// What `extract_flood_wait_seconds` answers for an error text: the
/// named wait, else sixty seconds.
pub open spec fn flood_wait_of(msg: Seq<char>) -> Option<u64> {
    match flood_wait_signal(msg) {
        Some(v) => Some(v),
        None => Some(60u64),
    }
}

/// The wait a send error calls for: `Some` exactly when the text holds
/// a `FLOOD_WAIT_<N>` marker or a bare plausible wait, and then the
/// number of seconds to pause globally. The queue driver consults this
/// after every failed send.
pub fn flood_wait_for_error(error_msg: &str) -> (r: Option<u64>)
    ensures
        r == flood_wait_signal(error_msg@),
{
    let cs = chars_of(error_msg);
    let low = lower_ascii_x(&cs);
    let pat = chars_of("flood_wait_");
    proof {
        reveal_strlit("flood_wait_");
        assert(pat@.len() == 11);
    }
    let prefix_result: Option<u64> = match find_from(&low, &pat, 0) {
        Some(i) => {
            proof {
                lemma_find_idx_some(low@, pat@, 0, i as int);
            }
            let start = i + 11;
            assert(start <= low@.len());
            let l = digit_run_x(&low, start);
            if l >= 1 {
                match parse_dec_range(&low, start, start + l) {
                    Some(v) => Some(v),
                    None => None,
                }
            } else {
                None
            }
        },
        None => {
            proof {
                lemma_find_idx_none(low@, pat@, 0);
            }
            None
        },
    };
    match prefix_result {
        Some(v) => Some(v),
        None => flood_fallback_x(&low, 0),
    }
}

/// Extract the number of seconds a flood-wait error asks for, falling
/// back to sixty when the text names none.
pub fn extract_flood_wait_seconds(error_msg: &str) -> (r: Option<u64>)
    ensures
        r == flood_wait_of(error_msg@),
{
    match flood_wait_for_error(error_msg) {
        Some(v) => Some(v),
        None => Some(60),
    }
}

/// What the queue driver should do next.
#[derive(Debug)]
pub enum DriverAction {
    /// The queue was cancelled or is gone: stop without completing it.
    Stop,
    /// No recipient is pending any more: mark the queue completed.
    Finish,
    /// The rate limiter refuses for this many more seconds.
    Wait(u64),
    /// Send the personalized message to this recipient now.
    SendTo { user_id: i64, message: String },
}

/// First index of a recipient still pending.
pub open spec fn first_pending_idx(rs: Seq<RecipientView>) -> Option<int>
    decreases rs.len(),
{
    if rs.len() == 0 {
        None
    } else if rs[0].status == "pending"@ {
        Some(0)
    } else {
        match first_pending_idx(rs.drop_first()) {
            Some(j) => Some(j + 1),
            None => None,
        }
    }
}

proof fn lemma_first_pending_at(rs: Seq<RecipientView>, k: int)
    requires
        0 <= k < rs.len(),
        rs[k].status == "pending"@,
        forall|i: int| 0 <= i < k ==> rs[i].status != "pending"@,
    ensures
        first_pending_idx(rs) == Some(k),
    decreases k,
{
    if k == 0 {
    } else {
        assert(forall|i: int|
            0 <= i < k - 1 ==> rs.drop_first()[i] == rs[i + 1]);
        lemma_first_pending_at(rs.drop_first(), k - 1);
    }
}

proof fn lemma_first_pending_absent(rs: Seq<RecipientView>)
    requires
        forall|i: int| 0 <= i < rs.len() ==> rs[i].status != "pending"@,
    ensures
        first_pending_idx(rs) is None,
    decreases rs.len(),
{
    if rs.len() > 0 {
        assert(forall|i: int|
            0 <= i < rs.len() - 1 ==> rs.drop_first()[i] == rs[i + 1]);
        lemma_first_pending_absent(rs.drop_first());
    }
}

impl OutreachManager {
    /// What the driver of `queue_id` should do at monotonic second
    /// `now`: stop on cancellation or a vanished queue, finish when no
    /// recipient is pending, wait while the rate limiter refuses, else
    /// send the personalized message to the first pending recipient.
    pub fn next_driver_action(
        &self,
        queue_id: &str,
        limiter: &RateLimiter,
        now: u64,
    ) -> (act: DriverAction)
        ensures
            ({
                let m = self.model();
                if !m.contains_key(queue_id@) || m[queue_id@].status == "cancelled"@ {
                    act is Stop
                } else {
                    let q = m[queue_id@];
                    match first_pending_idx(q.recipients) {
                        None => act is Finish,
                        Some(i) => {
                            let rec = q.recipients[i];
                            match send_decision(
                                limiter.last_sends(),
                                limiter.flood_until(),
                                limiter.interval(),
                                rec.user_id,
                                now,
                            ) {
                                Err(w) => act == DriverAction::Wait(w),
                                Ok(()) => match act {
                                    DriverAction::SendTo { user_id, message } => {
                                        &&& user_id == rec.user_id
                                        &&& message@ == personalized_text(
                                            q.template,
                                            rec.first_name,
                                            rec.last_name,
                                        )
                                    },
                                    _ => false,
                                },
                            }
                        },
                    }
                }
            }),
    {
        let j = match self.find_queue_index(queue_id) {
            Some(j) => j,
            None => {
                return DriverAction::Stop;
            },
        };
        let q_ref = &self.queues[j];
        if str_eq(q_ref.status.as_str(), "cancelled") {
            return DriverAction::Stop;
        }
        let recipients = &q_ref.recipients;
        let ghost rv = recipients@.map_values(|x: OutreachRecipient| x@);
        let mut i: usize = 0;
        while i < recipients.len()
            invariant
                j < self.queues@.len(),
                self.model().contains_key(queue_id@),
                self.model()[queue_id@] == self.queues@[j as int]@,
                self.queues@[j as int].status@ != "cancelled"@,
                *q_ref == self.queues@[j as int],
                rv == self.queues@[j as int].recipients@.map_values(|x: OutreachRecipient| x@),
                rv == recipients@.map_values(|x: OutreachRecipient| x@),
                0 <= i <= rv.len(),
                forall|k: int| 0 <= k < i ==> rv[k].status != "pending"@,
            decreases rv.len() - i,
        {
            if str_eq(recipients[i].status.as_str(), "pending") {
                proof {
                    assert(rv[i as int] == recipients@[i as int]@);
                    lemma_first_pending_at(rv, i as int);
                }
                let rec = &recipients[i];
                match limiter.can_send(rec.user_id, now) {
                    Err(wait) => {
                        return DriverAction::Wait(wait);
                    },
                    Ok(()) => {
                        let message = personalize_message(
                            q_ref.template.as_str(),
                            rec.first_name.as_str(),
                            rec.last_name.as_str(),
                        );
                        return DriverAction::SendTo { user_id: rec.user_id, message };
                    },
                }
            }
            i += 1;
        }
        proof {
            lemma_first_pending_absent(rv);
        }
        DriverAction::Finish
    }
}

/// Recipients leave `pending` in submission order: while the statuses
/// form a non-pending prefix and a pending tail, the driver's next
/// target is exactly the first pending recipient, and recording its
/// outcome extends the prefix by one.
pub open spec fn processed_prefix(rs: Seq<RecipientView>, k: int) -> bool {
    &&& 0 <= k <= rs.len()
    &&& forall|i: int| 0 <= i < k ==> (#[trigger] rs[i]).status != "pending"@
    &&& forall|i: int| k <= i < rs.len() ==> (#[trigger] rs[i]).status == "pending"@
}

/// Submission-order law for a queue with distinct recipients: under a
/// non-pending prefix of length `k`, the first pending recipient is the
/// one at `k`, and recording a sent or failed outcome for it moves the
/// boundary to `k + 1`.
pub proof fn lemma_recipients_leave_pending_in_order(
    q: QueueView,
    st: Seq<char>,
    err: Option<Seq<char>>,
    now: i64,
    k: int,
)
    requires
        processed_prefix(q.recipients, k),
        k < q.recipients.len(),
        forall|i: int, j: int|
            0 <= i < j < q.recipients.len() ==> (#[trigger] q.recipients[i]).user_id != (
            #[trigger] q.recipients[j]).user_id,
        st == "sent"@ || st == "failed"@,
    ensures
        first_pending_idx(q.recipients) == Some(k),
        processed_prefix(
            apply_recipient_update(q, q.recipients[k].user_id, st, err, now).recipients,
            k + 1,
        ),
{
    reveal_strlit("sent");
    reveal_strlit("failed");
    reveal_strlit("pending");
    assert("sent"@.len() == 4 && "failed"@.len() == 6 && "pending"@.len() == 7);
    lemma_first_pending_at(q.recipients, k);
    let uid = q.recipients[k].user_id;
    assert forall|i: int| 0 <= i < k implies q.recipients[i].user_id != uid by {
        assert(q.recipients[i].user_id != q.recipients[k].user_id);
    }
    lemma_first_recipient_at(q.recipients, uid, k);
    let q2 = apply_recipient_update(q, uid, st, err, now);
    assert(q2.recipients.len() == q.recipients.len());
    assert forall|i: int| 0 <= i < k + 1 implies (#[trigger] q2.recipients[i]).status
        != "pending"@ by {
        if i < k {
            assert(q2.recipients[i] == q.recipients[i]);
        } else {
            assert(q2.recipients[k].status == st);
        }
    }
    assert forall|i: int| k + 1 <= i < q2.recipients.len() implies (
    #[trigger] q2.recipients[i]).status == "pending"@ by {
        assert(q2.recipients[i] == q.recipients[i]);
    }
}

/// Build the recipient rows for a new queue: one per requested id, in
/// request order, named from the first matching contact (or left empty),
/// all pending.
pub fn build_recipients(recipient_ids: &Vec<i64>, contacts: &Vec<User>) -> (r: Vec<
    OutreachRecipient,
>)
    ensures
        r@.len() == recipient_ids@.len(),
        forall|i: int|
            0 <= i < r@.len() ==> {
                let rec = (#[trigger] r@[i])@;
                &&& rec.user_id == recipient_ids@[i]
                &&& rec.status == "pending"@
                &&& rec.error is None
                &&& rec.sent_at is None
                &&& match first_contact_idx(
                    contacts@.map_values(|u: User| u@),
                    recipient_ids@[i],
                ) {
                    Some(j) => rec.first_name == contacts@.map_values(|u: User| u@)[j].first_name
                        && rec.last_name == contacts@.map_values(|u: User| u@)[j].last_name,
                    None => rec.first_name.len() == 0 && rec.last_name.len() == 0,
                }
            },
{
    let ghost cv = contacts@.map_values(|u: User| u@);
    let mut r: Vec<OutreachRecipient> = Vec::new();
    let mut i: usize = 0;
    let n = recipient_ids.len();
    assert(recipient_ids@.len() == n <= usize::MAX);
    while i < recipient_ids.len()
        invariant
            cv == contacts@.map_values(|u: User| u@),
            0 <= i <= recipient_ids@.len(),
            recipient_ids@.len() <= usize::MAX,
            r@.len() == i,
            forall|x: int|
                0 <= x < i ==> {
                    let rec = (#[trigger] r@[x])@;
                    &&& rec.user_id == recipient_ids@[x]
                    &&& rec.status == "pending"@
                    &&& rec.error is None
                    &&& rec.sent_at is None
                    &&& match first_contact_idx(cv, recipient_ids@[x]) {
                        Some(j) => rec.first_name == cv[j].first_name && rec.last_name
                            == cv[j].last_name,
                        None => rec.first_name.len() == 0 && rec.last_name.len() == 0,
                    }
                },
        decreases recipient_ids@.len() - i,
    {
        let uid = recipient_ids[i];
        let (first_name, last_name): (String, String) = match find_contact_index(contacts, uid) {
            Some(j) => (
                clone_string(&contacts[j].first_name),
                clone_string(&contacts[j].last_name),
            ),
            None => (String::new(), String::new()),
        };
        let rec = OutreachRecipient {
            user_id: uid,
            first_name,
            last_name,
            status: "pending".to_owned(),
            error: None,
            sent_at: None,
        };
        r.push(rec);
        i += 1;
    }
    r
}

/// First index holding contact `uid`.
pub open spec fn first_contact_idx(us: Seq<UserView>, uid: i64) -> Option<int>
    decreases us.len(),
{
    if us.len() == 0 {
        None
    } else if us[0].id == uid {
        Some(0)
    } else {
        match first_contact_idx(us.drop_first(), uid) {
            Some(j) => Some(j + 1),
            None => None,
        }
    }
}

proof fn lemma_first_contact_at(us: Seq<UserView>, uid: i64, k: int)
    requires
        0 <= k < us.len(),
        us[k].id == uid,
        forall|i: int| 0 <= i < k ==> us[i].id != uid,
    ensures
        first_contact_idx(us, uid) == Some(k),
    decreases k,
{
    if k > 0 {
        assert(forall|i: int|
            0 <= i < k - 1 ==> us.drop_first()[i] == us[i + 1]);
        lemma_first_contact_at(us.drop_first(), uid, k - 1);
    }
}

proof fn lemma_first_contact_absent(us: Seq<UserView>, uid: i64)
    requires
        forall|i: int| 0 <= i < us.len() ==> us[i].id != uid,
    ensures
        first_contact_idx(us, uid) is None,
    decreases us.len(),
{
    if us.len() > 0 {
        assert(forall|i: int|
            0 <= i < us.len() - 1 ==> us.drop_first()[i] == us[i + 1]);
        lemma_first_contact_absent(us.drop_first(), uid);
    }
}

fn find_contact_index(contacts: &Vec<User>, uid: i64) -> (r: Option<usize>)
    ensures
        ({
            let cv = contacts@.map_values(|u: User| u@);
            match r {
                Some(j) => j < cv.len() && first_contact_idx(cv, uid) == Some(j as int),
                None => first_contact_idx(cv, uid) is None,
            }
        }),
{
    let ghost cv = contacts@.map_values(|u: User| u@);
    let mut i: usize = 0;
    while i < contacts.len()
        invariant
            cv == contacts@.map_values(|u: User| u@),
            0 <= i <= cv.len(),
            forall|j: int| 0 <= j < i ==> cv[j].id != uid,
        decreases cv.len() - i,
    {
        if contacts[i].id == uid {
            proof {
                assert(cv[i as int] == contacts@[i as int]@);
                lemma_first_contact_at(cv, uid, i as int);
            }
            return Some(i);
        }
        i += 1;
    }
    proof {
        lemma_first_contact_absent(cv, uid);
    }
    None
}

} // verus!
