//! The persistent store's semantics, held in memory: contact tags
//! unique per user, notes and last-contact rows upserted per user, and
//! scope profiles with unique names kept in name order. The surrounding
//! program mirrors every change into the embedded database and feeds
//! loaded rows back in.

use vstd::prelude::*;
use std::collections::HashMap;
use crate::strutil::{str_eq, chars_of, string_from_chars, lex_le};
use crate::auth::clone_string;
use crate::errors::DatabaseError;
use vstd::seq_lib::lemma_multiset_commutative;
use vstd::multiset::Multiset;

verus! {

broadcast use vstd::std_specs::hash::group_hash_axioms;

/// Local metadata of one contact.
#[derive(Debug)]
pub struct ContactData {
    pub user_id: i64,
    pub tags: Vec<String>,
    pub notes: String,
    pub last_contact_date: Option<i64>,
}

/// The tags of `user_id`, in insertion order.
pub open spec fn tags_of(pairs: Seq<(i64, Seq<char>)>, user_id: i64) -> Seq<Seq<char>>
    decreases pairs.len(),
{
    if pairs.len() == 0 {
        Seq::empty()
    } else {
        tags_of(pairs.drop_last(), user_id) + if pairs.last().0 == user_id {
            seq![pairs.last().1]
        } else {
            Seq::empty()
        }
    }
}

/// How often `tag` is assigned, over all users.
pub open spec fn tag_count(pairs: Seq<(i64, Seq<char>)>, tag: Seq<char>) -> int
    decreases pairs.len(),
{
    if pairs.len() == 0 {
        0
    } else {
        tag_count(pairs.drop_last(), tag) + if pairs.last().1 == tag {
            1int
        } else {
            0int
        }
    }
}

/// Some row assigns the tag `t`.
pub open spec fn tag_appears(pairs: Seq<(i64, Seq<char>)>, t: Seq<char>) -> bool {
    exists|p: int| 0 <= p < pairs.len() && (#[trigger] pairs[p]).1 == t
}

/// Some entry of the count list names the tag `t`.
pub open spec fn tag_listed(entries: Seq<(String, i32)>, t: Seq<char>) -> bool {
    exists|k: int| 0 <= k < entries.len() && (#[trigger] entries[k]).0@ == t
}

/// The view of one counted-tag entry.
pub open spec fn entry_view(p: (String, i32)) -> (Seq<char>, i32) {
    (p.0@, p.1)
}

/// Contact annotations: a set of tags per user, a notes row per user,
/// and a last-contact date per user that only moves forward.
pub struct ContactStore {
    tag_pairs: Vec<(i64, String)>,
    notes: HashMap<i64, String>,
    last_contact: HashMap<i64, i64>,
}

impl ContactStore {
    /// The `(user, tag)` rows, in insertion order.
    pub closed spec fn tags(&self) -> Seq<(i64, Seq<char>)> {
        self.tag_pairs@.map_values(|p: (i64, String)| (p.0, p.1@))
    }

    /// The notes row of each user.
    pub closed spec fn notes_map(&self) -> Map<i64, Seq<char>> {
        self.notes@.map_values(|s: String| s@)
    }

    /// The last-contact date of each user.
    pub closed spec fn last_contact_map(&self) -> Map<i64, i64> {
        self.last_contact@
    }

    /// No `(user, tag)` row occurs twice.
    pub open spec fn tags_unique(&self) -> bool {
        forall|i: int, j: int|
            0 <= i < j < self.tags().len() ==> #[trigger] self.tags()[i] != #[trigger] self.tags()[j]
    }

    /// An empty store.
    pub fn new() -> (r: Self)
        ensures
            r.tags().len() == 0,
            r.notes_map() == Map::<i64, Seq<char>>::empty(),
            r.last_contact_map() == Map::<i64, i64>::empty(),
            r.tags_unique(),
    {
        let r = ContactStore {
            tag_pairs: Vec::new(),
            notes: HashMap::new(),
            last_contact: HashMap::new(),
        };
        proof {
            assert(r.notes_map() =~= Map::<i64, Seq<char>>::empty());
        }
        r
    }

    fn has_tag(&self, user_id: i64, tag: &str) -> (r: bool)
        ensures
            r == self.tags().contains((user_id, tag@)),
    {
        let mut i: usize = 0;
        let n = self.tag_pairs.len();
        while i < n
            invariant
                n == self.tag_pairs@.len() <= usize::MAX,
                0 <= i <= n,
                forall|k: int| 0 <= k < i ==> self.tags()[k] != (user_id, tag@),
            decreases n - i,
        {
            if self.tag_pairs[i].0 == user_id && str_eq(self.tag_pairs[i].1.as_str(), tag) {
                proof {
                    assert(self.tags()[i as int] == (user_id, tag@));
                }
                return true;
            }
            proof {
                assert(self.tags()[i as int] == (
                    self.tag_pairs@[i as int].0,
                    self.tag_pairs@[i as int].1@,
                ));
            }
            i += 1;
        }
        false
    }

    /// Assign `tag` to the user; assigning a tag a second time changes
    /// nothing.
    pub fn add_contact_tag(&mut self, user_id: i64, tag: &str)
        requires
            old(self).tags_unique(),
        ensures
            final(self).tags() == if old(self).tags().contains((user_id, tag@)) {
                old(self).tags()
            } else {
                old(self).tags().push((user_id, tag@))
            },
            final(self).tags_unique(),
            final(self).notes_map() == old(self).notes_map(),
            final(self).last_contact_map() == old(self).last_contact_map(),
    {
        if !self.has_tag(user_id, tag) {
            self.tag_pairs.push((user_id, tag.to_owned()));
            proof {
                assert(self.tags() =~= old(self).tags().push((user_id, tag@)));
                assert forall|i: int, j: int|
                    0 <= i < j < self.tags().len() implies #[trigger] self.tags()[i] != (
                #[trigger] self.tags()[j]) by {
                    if j == self.tags().len() - 1 {
                        assert(self.tags()[i] == old(self).tags()[i]);
                        assert(old(self).tags().contains(old(self).tags()[i]));
                    } else {
                        assert(self.tags()[i] == old(self).tags()[i]);
                        assert(self.tags()[j] == old(self).tags()[j]);
                    }
                }
            }
        }
    }

    /// Remove the user's `tag` row, if any.
    pub fn remove_contact_tag(&mut self, user_id: i64, tag: &str)
        requires
            old(self).tags_unique(),
        ensures
            final(self).tags() == removed_tag(old(self).tags(), user_id, tag@),
            final(self).tags_unique(),
            !final(self).tags().contains((user_id, tag@)),
            final(self).notes_map() == old(self).notes_map(),
            final(self).last_contact_map() == old(self).last_contact_map(),
    {
        let idx = self.find_tag_index(user_id, tag);
        match idx {
            Some(j) => {
                proof {
                    assert(self.tags()[j as int] == (user_id, tag@));
                    assert forall|k: int|
                        0 <= k < self.tags().len() && k != j implies #[trigger] self.tags()[k]
                        != (user_id, tag@) by {
                        if k < j {
                        } else {
                            assert(self.tags()[j as int] != self.tags()[k]);
                        }
                    }
                    lemma_removed_tag_is_remove(old(self).tags(), user_id, tag@, j as int);
                }
                let _ = self.tag_pairs.remove(j);
                proof {
                    assert(self.tags() =~= old(self).tags().remove(j as int));
                    assert forall|a: int, b: int|
                        0 <= a < b < self.tags().len() implies #[trigger] self.tags()[a] != (
                    #[trigger] self.tags()[b]) by {
                        let a0: int = if a < j { a } else { a + 1 };
                        let b0: int = if b < j { b } else { b + 1 };
                        assert(self.tags()[a] == old(self).tags()[a0]);
                        assert(self.tags()[b] == old(self).tags()[b0]);
                    }
                    assert forall|k: int|
                        0 <= k < self.tags().len() implies #[trigger] self.tags()[k] != (
                        user_id,
                        tag@,
                    ) by {
                        let k0: int = if k < j { k } else { k + 1 };
                        assert(self.tags()[k] == old(self).tags()[k0]);
                        assert(old(self).tags()[k0] != old(self).tags()[j as int] || k0 == j);
                    }
                }
            },
            None => {
                proof {
                    lemma_removed_tag_noop(old(self).tags(), user_id, tag@);
                }
            },
        }
    }

    fn find_tag_index(&self, user_id: i64, tag: &str) -> (r: Option<usize>)
        ensures
            match r {
                Some(i) => i < self.tags().len() && self.tags()[i as int] == (user_id, tag@),
                None => forall|k: int|
                    0 <= k < self.tags().len() ==> #[trigger] self.tags()[k] != (user_id, tag@),
            },
    {
        let mut i: usize = 0;
        let n = self.tag_pairs.len();
        while i < n
            invariant
                n == self.tag_pairs@.len() <= usize::MAX,
                0 <= i <= n,
                forall|k: int| 0 <= k < i ==> #[trigger] self.tags()[k] != (user_id, tag@),
            decreases n - i,
        {
            if self.tag_pairs[i].0 == user_id && str_eq(self.tag_pairs[i].1.as_str(), tag) {
                proof {
                    assert(self.tags()[i as int] == (user_id, tag@));
                }
                return Some(i);
            }
            proof {
                assert(self.tags()[i as int] == (
                    self.tag_pairs@[i as int].0,
                    self.tag_pairs@[i as int].1@,
                ));
            }
            i += 1;
        }
        None
    }

    /// The tags of the user, in the order they were assigned.
    pub fn get_contact_tags(&self, user_id: i64) -> (r: Vec<String>)
        ensures
            r@.map_values(|s: String| s@) == tags_of(self.tags(), user_id),
    {
        let mut r: Vec<String> = Vec::new();
        let mut i: usize = 0;
        let n = self.tag_pairs.len();
        proof {
            assert(self.tags().take(0) =~= Seq::<(i64, Seq<char>)>::empty());
            assert(r@.map_values(|s: String| s@) =~= tags_of(self.tags().take(0), user_id));
        }
        while i < n
            invariant
                n == self.tag_pairs@.len() <= usize::MAX,
                0 <= i <= n,
                r@.map_values(|s: String| s@) == tags_of(self.tags().take(i as int), user_id),
            decreases n - i,
        {
            proof {
                assert(self.tags().take(i + 1).drop_last() =~= self.tags().take(i as int));
                assert(self.tags().take(i + 1).last() == self.tags()[i as int]);
                assert(self.tags()[i as int] == (
                    self.tag_pairs@[i as int].0,
                    self.tag_pairs@[i as int].1@,
                ));
            }
            let ghost r_before = r@;
            if self.tag_pairs[i].0 == user_id {
                let t = clone_string(&self.tag_pairs[i].1);
                r.push(t);
                proof {
                    assert(r@.map_values(|s: String| s@) =~= r_before.map_values(
                        |s: String| s@,
                    ).push(self.tags()[i as int].1));
                }
            }
            proof {
                assert(r@.map_values(|s: String| s@) =~= tags_of(
                    self.tags().take(i + 1),
                    user_id,
                ));
            }
            i += 1;
        }
        proof {
            assert(self.tags().take(i as int) =~= self.tags());
        }
        r
    }

    /// The notes stored for the user, empty if none.
    pub fn get_contact_notes(&self, user_id: i64) -> (r: String)
        ensures
            r@ == if self.notes_map().contains_key(user_id) {
                self.notes_map()[user_id]
            } else {
                Seq::<char>::empty()
            },
    {
        match self.notes.get(&user_id) {
            Some(s) => {
                proof {
                    assert(self.notes_map().contains_key(user_id));
                    assert(self.notes_map()[user_id] == s@);
                }
                clone_string(s)
            },
            None => {
                proof {
                    if self.notes_map().contains_key(user_id) {
                        assert(self.notes@.contains_key(user_id));
                    }
                }
                String::new()
            },
        }
    }

    /// Set the user's notes row.
    pub fn update_contact_notes(&mut self, user_id: i64, notes: &str)
        ensures
            final(self).notes_map() == old(self).notes_map().insert(user_id, notes@),
            final(self).tags() == old(self).tags(),
            final(self).last_contact_map() == old(self).last_contact_map(),
    {
        self.notes.insert(user_id, notes.to_owned());
        proof {
            assert(final(self).notes_map() =~= old(self).notes_map().insert(user_id, notes@));
        }
    }

    /// The stored last-contact date of the user.
    pub fn get_last_contact_date(&self, user_id: i64) -> (r: Option<i64>)
        ensures
            r == if self.last_contact_map().contains_key(user_id) {
                Some(self.last_contact_map()[user_id])
            } else {
                None::<i64>
            },
    {
        match self.last_contact.get(&user_id) {
            Some(d) => Some(*d),
            None => None,
        }
    }

    /// Record a contact date; the stored date never moves backwards.
    pub fn update_last_contact_date(&mut self, user_id: i64, date: i64)
        ensures
            final(self).last_contact_map() == old(self).last_contact_map().insert(
                user_id,
                if old(self).last_contact_map().contains_key(user_id) && old(
                    self,
                ).last_contact_map()[user_id] > date {
                    old(self).last_contact_map()[user_id]
                } else {
                    date
                },
            ),
            final(self).tags() == old(self).tags(),
            final(self).notes_map() == old(self).notes_map(),
    {
        let stored: i64 = match self.last_contact.get(&user_id) {
            Some(d) => if *d > date {
                *d
            } else {
                date
            },
            None => date,
        };
        self.last_contact.insert(user_id, stored);
    }

    /// Every distinct tag with how many users carry it, most common
    /// first; tags of equal count come in no promised order.
    pub fn get_all_tags(&self) -> (r: Vec<(String, i32)>)
        requires
            self.tags().len() <= i32::MAX,
        ensures
            forall|k: int|
                0 <= k < r@.len() ==> (#[trigger] r@[k]).1 == tag_count(self.tags(), r@[k].0@)
                    && tag_appears(self.tags(), r@[k].0@),
            forall|a: int, b: int| 0 <= a < b < r@.len() ==> (#[trigger] r@[a]).0@ != (
            #[trigger] r@[b]).0@,
            forall|p: int|
                0 <= p < self.tags().len() ==> tag_listed(r@, (#[trigger] self.tags()[p]).1),
            forall|a: int, b: int| 0 <= a < b < r@.len() ==> (#[trigger] r@[a]).1 >= (
            #[trigger] r@[b]).1,
    {
        let counted = self.collect_tag_counts();
        let sorted = sort_by_count(&counted);
        proof {
            broadcast use vstd::seq_lib::group_to_multiset_ensures;

            let cv = counted@.map_values(|p: (String, i32)| entry_view(p));
            let rv = sorted@.map_values(|p: (String, i32)| entry_view(p));
            assert(rv.to_multiset() == cv.to_multiset());
            assert forall|a: int, b: int| 0 <= a < b < cv.len() implies cv[a] != cv[b] by {
                assert(counted@[a].0@ != counted@[b].0@);
            }
            assert(cv.no_duplicates());
            cv.lemma_multiset_has_no_duplicates();
            rv.lemma_multiset_has_no_duplicates_conv();
            assert forall|k: int| 0 <= k < sorted@.len() implies (#[trigger] sorted@[k]).1
                == tag_count(self.tags(), sorted@[k].0@) && tag_appears(
                self.tags(),
                sorted@[k].0@,
            ) by {
                assert(rv[k] == entry_view(sorted@[k]));
                assert(rv.to_multiset().contains(rv[k]));
                assert(cv.to_multiset().contains(rv[k]));
                assert(cv.contains(rv[k]));
                let q = choose|q: int| 0 <= q < cv.len() && cv[q] == rv[k];
                assert(cv[q] == entry_view(counted@[q]));
                assert(counted@[q].1 == tag_count(self.tags(), counted@[q].0@));
                assert(sorted@[k].0@ == counted@[q].0@ && sorted@[k].1 == counted@[q].1);
            }
            assert forall|p: int| 0 <= p < self.tags().len() implies tag_listed(
                sorted@,
                (#[trigger] self.tags()[p]).1,
            ) by {
                assert(tag_listed(counted@, self.tags()[p].1));
                let q = choose|q: int|
                    0 <= q < counted@.len() && (#[trigger] counted@[q]).0@ == self.tags()[p].1;
                assert(cv[q] == entry_view(counted@[q]));
                assert(cv.to_multiset().contains(cv[q]));
                assert(rv.to_multiset().contains(cv[q]));
                assert(rv.contains(cv[q]));
                let k0 = choose|k0: int| 0 <= k0 < rv.len() && rv[k0] == cv[q];
                assert(rv[k0] == entry_view(sorted@[k0]));
                assert(sorted@[k0].0@ == counted@[q].0@);
            }
            assert forall|a: int, b: int| 0 <= a < b < sorted@.len() implies (
            #[trigger] sorted@[a]).0@ != (#[trigger] sorted@[b]).0@ by {
                if sorted@[a].0@ == sorted@[b].0@ {
                    assert(rv[a] == entry_view(sorted@[a]));
                    assert(rv[b] == entry_view(sorted@[b]));
                    assert(rv.contains(rv[a]) && rv.contains(rv[b]));
                    assert(rv.to_multiset().contains(rv[a]));
                    assert(cv.to_multiset().contains(rv[a]));
                    assert(cv.contains(rv[a]));
                    assert(rv.to_multiset().contains(rv[b]));
                    assert(cv.to_multiset().contains(rv[b]));
                    assert(cv.contains(rv[b]));
                    let qa = choose|q: int| 0 <= q < cv.len() && cv[q] == rv[a];
                    let qb = choose|q: int| 0 <= q < cv.len() && cv[q] == rv[b];
                    assert(counted@[qa].0@ == counted@[qb].0@);
                    if qa != qb {
                        assert(false);
                    }
                    assert(rv[a] == rv[b]);
                    assert(rv[a] != rv[b]);
                }
            }
        }
        sorted
    }

    /// The distinct tags with their counts, in first-appearance order.
    #[verifier::rlimit(100)]
    fn collect_tag_counts(&self) -> (r: Vec<(String, i32)>)
        requires
            self.tags().len() <= i32::MAX,
        ensures
            forall|k: int|
                0 <= k < r@.len() ==> (#[trigger] r@[k]).1 == tag_count(self.tags(), r@[k].0@)
                    && tag_appears(self.tags(), r@[k].0@),
            forall|a: int, b: int| 0 <= a < b < r@.len() ==> (#[trigger] r@[a]).0@ != (
            #[trigger] r@[b]).0@,
            forall|p: int|
                0 <= p < self.tags().len() ==> tag_listed(r@, (#[trigger] self.tags()[p]).1),
    {
        let mut counted: Vec<(String, i32)> = Vec::new();
        let mut i: usize = 0;
        let n = self.tag_pairs.len();
        while i < n
            invariant
                n == self.tag_pairs@.len() <= i32::MAX,
                n == self.tags().len(),
                0 <= i <= n,
                forall|k: int|
                    0 <= k < counted@.len() ==> (#[trigger] counted@[k]).1 == tag_count(
                        self.tags(),
                        counted@[k].0@,
                    ) && tag_appears(self.tags(), counted@[k].0@),
                forall|a: int, b: int| 0 <= a < b < counted@.len() ==> (#[trigger] counted@[a]).0@
                    != (#[trigger] counted@[b]).0@,
                forall|p: int| 0 <= p < i ==> tag_listed(counted@, (#[trigger] self.tags()[p]).1),
            decreases n - i,
        {
            proof {
                assert(self.tags()[i as int] == (
                    self.tag_pairs@[i as int].0,
                    self.tag_pairs@[i as int].1@,
                ));
            }
            let tag = &self.tag_pairs[i].1;
            let mut seen = false;
            let mut k: usize = 0;
            let m = counted.len();
            while k < m
                invariant
                    m == counted@.len(),
                    0 <= k <= m,
                    seen ==> tag_listed(counted@, tag@),
                    !seen ==> forall|q: int| 0 <= q < k ==> (#[trigger] counted@[q]).0@ != tag@,
                ensures
                    seen ==> tag_listed(counted@, tag@),
                    !seen ==> forall|q: int|
                        0 <= q < counted@.len() ==> (#[trigger] counted@[q]).0@ != tag@,
                decreases m - k,
            {
                if str_eq(counted[k].0.as_str(), tag.as_str()) {
                    seen = true;
                    proof {
                        assert(counted@[k as int].0@ == tag@);
                        assert(tag_listed(counted@, tag@));
                    }
                    break ;
                }
                k += 1;
            }
            let ghost tags_i = self.tags()[i as int].1;
            proof {
                assert(tags_i == tag@);
            }
            if !seen {
                let count = self.count_tag(tag.as_str());
                let ghost counted_before = counted@;
                counted.push((clone_string(tag), count));
                proof {
                    let c = counted@;
                    assert(c[c.len() - 1].0@ == tag@);
                    assert(tag_appears(self.tags(), tag@)) by {
                        assert(self.tags()[i as int].1 == tag@);
                    }
                    assert forall|a: int, b: int| 0 <= a < b < c.len() implies (
                    #[trigger] c[a]).0@ != (#[trigger] c[b]).0@ by {
                        if b == c.len() - 1 {
                            assert(c[a] == counted_before[a]);
                            assert(counted_before[a].0@ != tag@);
                        } else {
                            assert(c[a] == counted_before[a] && c[b] == counted_before[b]);
                        }
                    }
                    assert forall|p: int| 0 <= p < i + 1 implies tag_listed(
                        c,
                        (#[trigger] self.tags()[p]).1,
                    ) by {
                        if p < i {
                            assert(tag_listed(counted_before, self.tags()[p].1));
                            let q = choose|q: int|
                                0 <= q < counted_before.len() && (
                                #[trigger] counted_before[q]).0@ == self.tags()[p].1;
                            assert(c[q] == counted_before[q]);
                            assert(c[q].0@ == self.tags()[p].1);
                        } else {
                            assert(self.tags()[p].1 == tag@);
                            assert(c[c.len() - 1].0@ == self.tags()[p].1);
                        }
                    }
                }
            } else {
                proof {
                    assert forall|p: int| 0 <= p < i + 1 implies tag_listed(
                        counted@,
                        (#[trigger] self.tags()[p]).1,
                    ) by {
                        if p == i {
                            assert(self.tags()[p].1 == tag@);
                            assert(tag_listed(counted@, tag@));
                        }
                    }
                }
            }
            i += 1;
        }
        counted
    }

    fn count_tag(&self, tag: &str) -> (r: i32)
        requires
            self.tags().len() <= i32::MAX,
        ensures
            r == tag_count(self.tags(), tag@),
    {
        let mut count: i32 = 0;
        let mut i: usize = 0;
        let n = self.tag_pairs.len();
        proof {
            assert(self.tags().take(0) =~= Seq::<(i64, Seq<char>)>::empty());
            lemma_tag_count_bound(self.tags(), tag@);
        }
        while i < n
            invariant
                n == self.tag_pairs@.len() <= i32::MAX,
                0 <= i <= n,
                count == tag_count(self.tags().take(i as int), tag@),
                0 <= count <= i,
            decreases n - i,
        {
            proof {
                assert(self.tags().take(i + 1).drop_last() =~= self.tags().take(i as int));
                assert(self.tags().take(i + 1).last() == self.tags()[i as int]);
                assert(self.tags()[i as int] == (
                    self.tag_pairs@[i as int].0,
                    self.tag_pairs@[i as int].1@,
                ));
                lemma_tag_count_bound(self.tags().take(i as int), tag@);
            }
            if str_eq(self.tag_pairs[i].1.as_str(), tag) {
                count += 1;
            }
            i += 1;
        }
        proof {
            assert(self.tags().take(i as int) =~= self.tags());
        }
        count
    }
}

/// The same entries ordered by count, most common first.
fn sort_by_count(counted: &Vec<(String, i32)>) -> (r: Vec<(String, i32)>)
    ensures
        r@.map_values(|p: (String, i32)| entry_view(p)).to_multiset() == counted@.map_values(
            |p: (String, i32)| entry_view(p),
        ).to_multiset(),
        forall|a: int, b: int| 0 <= a < b < r@.len() ==> (#[trigger] r@[a]).1 >= (
        #[trigger] r@[b]).1,
{
    broadcast use vstd::seq_lib::group_to_multiset_ensures;

    let ghost cv = counted@.map_values(|p: (String, i32)| entry_view(p));
    let mut sorted: Vec<(String, i32)> = Vec::new();
    let mut i: usize = 0;
    let m = counted.len();
    proof {
        assert(cv.take(0) =~= Seq::<(Seq<char>, i32)>::empty());
        assert(sorted@.map_values(|p: (String, i32)| entry_view(p)).to_multiset() =~= cv.take(
            0,
        ).to_multiset());
    }
    while i < m
        invariant
            m == counted@.len() <= usize::MAX,
            cv == counted@.map_values(|p: (String, i32)| entry_view(p)),
            0 <= i <= m,
            sorted@.map_values(|p: (String, i32)| entry_view(p)).to_multiset() == cv.take(
                i as int,
            ).to_multiset(),
            forall|a: int, b: int| 0 <= a < b < sorted@.len() ==> (#[trigger] sorted@[a]).1 >= (
            #[trigger] sorted@[b]).1,
        decreases m - i,
    {
        broadcast use vstd::seq_lib::group_to_multiset_ensures;

        let entry_count = counted[i].1;
        let mut pos: usize = 0;
        while pos < sorted.len() && sorted[pos].1 >= entry_count
            invariant
                0 <= pos <= sorted@.len(),
                forall|a: int| 0 <= a < pos ==> (#[trigger] sorted@[a]).1 >= entry_count,
            decreases sorted@.len() - pos,
        {
            pos += 1;
        }
        proof {
            if pos < sorted@.len() {
                assert(sorted@[pos as int].1 < entry_count);
            }
        }
        let entry = (clone_string(&counted[i].0), entry_count);
        let ghost before = sorted@;
        let ghost before_v = before.map_values(|p: (String, i32)| entry_view(p));
        sorted.insert(pos, entry);
        proof {
            assert(sorted@ =~= before.take(pos as int) + seq![entry] + before.skip(pos as int));
            assert forall|a: int, b: int| 0 <= a < b < sorted@.len() implies (
            #[trigger] sorted@[a]).1 >= (#[trigger] sorted@[b]).1 by {
                let a0: int = if a < pos { a } else { a - 1 };
                let b0: int = if b < pos { b } else { b - 1 };
                if a == pos {
                    assert(sorted@[b] == before[b0]);
                    assert(before[pos as int].1 < entry_count);
                    assert(before[b0].1 <= before[pos as int].1 || b0 == pos);
                } else if b == pos {
                    assert(sorted@[a] == before[a0]);
                    assert(before[a0].1 >= entry_count);
                } else {
                    assert(sorted@[a] == before[a0] && sorted@[b] == before[b0]);
                }
            }
            let ev = entry_view(entry);
            assert(ev == cv[i as int]);
            let sv = sorted@.map_values(|p: (String, i32)| entry_view(p));
            assert(sv =~= before_v.take(pos as int) + seq![ev] + before_v.skip(pos as int));
            lemma_multiset_commutative(before_v.take(pos as int) + seq![ev], before_v.skip(
                pos as int,
            ));
            lemma_multiset_commutative(before_v.take(pos as int), seq![ev]);
            lemma_multiset_commutative(before_v.take(pos as int), before_v.skip(pos as int));
            assert(before_v.take(pos as int) + before_v.skip(pos as int) =~= before_v);
            assert(seq![ev].to_multiset() =~= Multiset::<(Seq<char>, i32)>::empty().insert(ev));
            assert(sv.to_multiset() =~= before_v.to_multiset().insert(ev));
            assert(cv.take(i + 1).drop_last() =~= cv.take(i as int));
            assert(cv.take(i + 1) =~= cv.take(i as int).push(ev));
            assert(cv.take(i as int).push(ev).to_multiset() =~= cv.take(
                i as int,
            ).to_multiset().insert(ev));
        }
        i += 1;
    }
    proof {
        assert(cv.take(i as int) =~= cv);
    }
    sorted
}

/// The rows left after removing the user's `tag` row./// The rows left after removing the user's `tag` row./// The rows left after removing the user's `tag` row.
pub open spec fn removed_tag(
    pairs: Seq<(i64, Seq<char>)>,
    user_id: i64,
    tag: Seq<char>,
) -> Seq<(i64, Seq<char>)>
    decreases pairs.len(),
{
    if pairs.len() == 0 {
        pairs
    } else if pairs.last() == (user_id, tag) {
        removed_tag(pairs.drop_last(), user_id, tag)
    } else {
        removed_tag(pairs.drop_last(), user_id, tag).push(pairs.last())
    }
}

proof fn lemma_removed_tag_noop(pairs: Seq<(i64, Seq<char>)>, user_id: i64, tag: Seq<char>)
    requires
        forall|k: int| 0 <= k < pairs.len() ==> #[trigger] pairs[k] != (user_id, tag),
    ensures
        removed_tag(pairs, user_id, tag) == pairs,
    decreases pairs.len(),
{
    if pairs.len() > 0 {
        assert(forall|k: int|
            0 <= k < pairs.len() - 1 ==> pairs.drop_last()[k] == pairs[k]);
        lemma_removed_tag_noop(pairs.drop_last(), user_id, tag);
        assert(pairs.last() == pairs[pairs.len() - 1]);
        assert(removed_tag(pairs, user_id, tag) =~= pairs);
    }
}

proof fn lemma_removed_tag_is_remove(
    pairs: Seq<(i64, Seq<char>)>,
    user_id: i64,
    tag: Seq<char>,
    j: int,
)
    requires
        0 <= j < pairs.len(),
        pairs[j] == (user_id, tag),
        forall|k: int| 0 <= k < pairs.len() && k != j ==> #[trigger] pairs[k] != (user_id, tag),
    ensures
        removed_tag(pairs, user_id, tag) == pairs.remove(j),
    decreases pairs.len(),
{
    if j == pairs.len() - 1 {
        assert(pairs.last() == (user_id, tag));
        assert(forall|k: int|
            0 <= k < pairs.len() - 1 ==> pairs.drop_last()[k] == pairs[k]);
        lemma_removed_tag_noop(pairs.drop_last(), user_id, tag);
        assert(pairs.remove(j) =~= pairs.drop_last());
    } else {
        assert(pairs.last() == pairs[pairs.len() - 1]);
        assert(pairs.last() != (user_id, tag));
        assert(forall|k: int|
            0 <= k < pairs.len() - 1 ==> pairs.drop_last()[k] == pairs[k]);
        lemma_removed_tag_is_remove(pairs.drop_last(), user_id, tag, j);
        assert(removed_tag(pairs, user_id, tag) == pairs.drop_last().remove(j).push(
            pairs.last(),
        ));
        assert(pairs.remove(j) =~= pairs.drop_last().remove(j).push(pairs.last()));
    }
}

proof fn lemma_tag_count_bound(pairs: Seq<(i64, Seq<char>)>, tag: Seq<char>)
    ensures
        0 <= tag_count(pairs, tag) <= pairs.len(),
    decreases pairs.len(),
{
    if pairs.len() > 0 {
        lemma_tag_count_bound(pairs.drop_last(), tag);
    }
}

/// A named saved filter profile.
#[derive(Debug)]
pub struct ScopeProfile {
    pub id: String,
    pub name: String,
    pub config: ScopeConfig,
    pub is_default: bool,
    pub created_at: i64,
    pub updated_at: i64,
}

/// The saved filter configuration of a profile.
#[derive(Debug)]
pub struct ScopeConfig {
    pub folder_ids: Vec<i32>,
    pub chat_types: Vec<String>,
    pub excluded_chat_ids: Vec<i64>,
    pub included_chat_ids: Vec<i64>,
}

/// Saved scope profiles: names unique and kept in collation order, one
/// profile per id.
pub struct ScopeStore {
    profiles: Vec<ScopeProfile>,
}

/// First index of `x` in the list.
pub open spec fn seq_index_of(s: Seq<Seq<char>>, x: Seq<char>) -> Option<int>
    decreases s.len(),
{
    if s.len() == 0 {
        None
    } else if s[0] == x {
        Some(0)
    } else {
        match seq_index_of(s.drop_first(), x) {
            Some(j) => Some(j + 1),
            None => None,
        }
    }
}

proof fn lemma_seq_index_at(s: Seq<Seq<char>>, x: Seq<char>, k: int)
    requires
        0 <= k < s.len(),
        s[k] == x,
        forall|i: int| 0 <= i < k ==> s[i] != x,
    ensures
        seq_index_of(s, x) == Some(k),
    decreases k,
{
    if k > 0 {
        assert(forall|i: int| 0 <= i < k - 1 ==> s.drop_first()[i] == s[i + 1]);
        lemma_seq_index_at(s.drop_first(), x, k - 1);
    }
}

proof fn lemma_seq_index_absent(s: Seq<Seq<char>>, x: Seq<char>)
    requires
        forall|i: int| 0 <= i < s.len() ==> s[i] != x,
    ensures
        seq_index_of(s, x) is None,
    decreases s.len(),
{
    if s.len() > 0 {
        assert(forall|i: int| 0 <= i < s.len() - 1 ==> s.drop_first()[i] == s[i + 1]);
        lemma_seq_index_absent(s.drop_first(), x);
    }
}

/// `names` with `n` placed at its collation position.
pub open spec fn sorted_insert(names: Seq<Seq<char>>, n: Seq<char>) -> Seq<Seq<char>>
    decreases names.len(),
{
    if names.len() == 0 {
        seq![n]
    } else if lex_le(n, names[0]) {
        seq![n] + names
    } else {
        seq![names[0]] + sorted_insert(names.drop_first(), n)
    }
}

proof fn lemma_sorted_insert_at(names: Seq<Seq<char>>, n: Seq<char>, p: int)
    requires
        0 <= p <= names.len(),
        forall|j: int| 0 <= j < p ==> !lex_le(n, #[trigger] names[j]),
        p < names.len() ==> lex_le(n, names[p]),
    ensures
        sorted_insert(names, n) == names.take(p) + seq![n] + names.skip(p),
    decreases p,
{
    if names.len() == 0 {
        assert(sorted_insert(names, n) =~= names.take(p) + seq![n] + names.skip(p));
    } else if p == 0 {
        assert(lex_le(n, names[0]));
        assert(sorted_insert(names, n) =~= names.take(0) + seq![n] + names.skip(0));
    } else {
        assert(!lex_le(n, names[0]));
        let rest = names.drop_first();
        assert(forall|j: int| 0 <= j < p - 1 ==> rest[j] == names[j + 1]);
        lemma_sorted_insert_at(rest, n, p - 1);
        assert(seq![names[0]] + (rest.take(p - 1) + seq![n] + rest.skip(p - 1)) =~= names.take(
            p,
        ) + seq![n] + names.skip(p));
    }
}

impl ScopeStore {
    /// The names of the stored profiles, in collation order.
    pub closed spec fn names(&self) -> Seq<Seq<char>> {
        self.profiles@.map_values(|p: ScopeProfile| p.name@)
    }

    /// The ids of the stored profiles, aligned with the names.
    pub closed spec fn ids(&self) -> Seq<Seq<char>> {
        self.profiles@.map_values(|p: ScopeProfile| p.id@)
    }

    /// Names collate ascending and repeat nowhere; ids repeat nowhere.
    pub open spec fn inv(&self) -> bool {
        &&& forall|i: int, j: int|
            0 <= i < j < self.names().len() ==> lex_le(
                #[trigger] self.names()[i],
                #[trigger] self.names()[j],
            )
        &&& forall|i: int, j: int|
            0 <= i < j < self.names().len() ==> #[trigger] self.names()[i] != (
            #[trigger] self.names()[j])
        &&& forall|i: int, j: int|
            0 <= i < j < self.ids().len() ==> #[trigger] self.ids()[i] != (
            #[trigger] self.ids()[j])
    }

    /// An empty store.
    pub fn new() -> (r: Self)
        ensures
            r.names().len() == 0,
            r.inv(),
    {
        let r = ScopeStore { profiles: Vec::new() };
        proof {
            assert(r.names() =~= Seq::<Seq<char>>::empty());
            assert(r.ids() =~= Seq::<Seq<char>>::empty());
        }
        r
    }

    fn find_name_index(&self, name: &str) -> (r: Option<usize>)
        ensures
            match r {
                Some(i) => i < self.names().len() && self.names()[i as int] == name@
                    && seq_index_of(self.names(), name@) == Some(i as int),
                None => forall|k: int|
                    0 <= k < self.names().len() ==> #[trigger] self.names()[k] != name@,
            },
    {
        let mut i: usize = 0;
        let n = self.profiles.len();
        while i < n
            invariant
                n == self.profiles@.len() <= usize::MAX,
                0 <= i <= n,
                forall|k: int| 0 <= k < i ==> #[trigger] self.names()[k] != name@,
            decreases n - i,
        {
            if str_eq(self.profiles[i].name.as_str(), name) {
                proof {
                    assert(self.names()[i as int] == name@);
                    lemma_seq_index_at(self.names(), name@, i as int);
                }
                return Some(i);
            }
            proof {
                assert(self.names()[i as int] == self.profiles@[i as int].name@);
            }
            i += 1;
        }
        None
    }

    fn find_id_index(&self, id: &str) -> (r: Option<usize>)
        ensures
            match r {
                Some(i) => i < self.ids().len() && self.ids()[i as int] == id@,
                None => forall|k: int| 0 <= k < self.ids().len() ==> #[trigger] self.ids()[k]
                    != id@,
            },
    {
        let mut i: usize = 0;
        let n = self.profiles.len();
        while i < n
            invariant
                n == self.profiles@.len() <= usize::MAX,
                0 <= i <= n,
                forall|k: int| 0 <= k < i ==> #[trigger] self.ids()[k] != id@,
            decreases n - i,
        {
            if str_eq(self.profiles[i].id.as_str(), id) {
                proof {
                    assert(self.ids()[i as int] == id@);
                }
                return Some(i);
            }
            proof {
                assert(self.ids()[i as int] == self.profiles@[i as int].id@);
            }
            i += 1;
        }
        None
    }

    /// Insert a profile whose name and id are both fresh, at the name's
    /// collation position.
    fn insert_sorted(&mut self, profile: ScopeProfile)
        requires
            old(self).inv(),
            forall|k: int|
                0 <= k < old(self).names().len() ==> #[trigger] old(self).names()[k]
                    != profile.name@,
            forall|k: int|
                0 <= k < old(self).ids().len() ==> #[trigger] old(self).ids()[k] != profile.id@,
        ensures
            final(self).inv(),
            final(self).names() == sorted_insert(old(self).names(), profile.name@),
            forall|t: Seq<char>|
                (#[trigger] final(self).ids().contains(t)) == (old(self).ids().contains(t) || t
                    == profile.id@),
    {
        let ghost old_names = self.names();
        let ghost old_ids = self.ids();
        let name_chars = chars_of(profile.name.as_str());
        let mut pos: usize = 0;
        let n = self.profiles.len();
        while pos < n && !crate::strutil::str_le(profile.name.as_str(), self.profiles[pos].name.as_str())
            invariant
                n == self.profiles@.len() <= usize::MAX,
                0 <= pos <= n,
                old_names == self.names(),
                forall|j: int| 0 <= j < pos ==> !lex_le(profile.name@, #[trigger] self.names()[j]),
            decreases n - pos,
        {
            proof {
                assert(self.names()[pos as int] == self.profiles@[pos as int].name@);
            }
            pos += 1;
        }
        proof {
            assert(pos < n ==> self.names()[pos as int] == self.profiles@[pos as int].name@);
            lemma_sorted_insert_at(old_names, profile.name@, pos as int);
        }
        let ghost name_v = profile.name@;
        let ghost id_v = profile.id@;
        let ghost before = self.profiles@;
        self.profiles.insert(pos, profile);
        proof {
            let _ = name_chars@;
            assert(self.profiles@ =~= before.take(pos as int) + seq![self.profiles@[pos as int]]
                + before.skip(pos as int));
            assert(self.names() =~= old_names.take(pos as int) + seq![name_v] + old_names.skip(
                pos as int,
            ));
            assert(self.ids() =~= old_ids.take(pos as int) + seq![id_v] + old_ids.skip(
                pos as int,
            ));
            assert forall|i: int, j: int|
                0 <= i < j < self.names().len() implies lex_le(
                #[trigger] self.names()[i],
                #[trigger] self.names()[j],
            ) && self.names()[i] != self.names()[j] by {
                let i0: int = if i < pos { i } else { i - 1 };
                let j0: int = if j < pos { j } else { j - 1 };
                if i == pos {
                    assert(self.names()[i] == name_v);
                    assert(self.names()[j] == old_names[j0]);
                    assert(lex_le(name_v, old_names[pos as int]));
                    if j0 > pos {
                        assert(lex_le(old_names[pos as int], old_names[j0]));
                        crate::strutil::lemma_lex_trans(
                            name_v,
                            old_names[pos as int],
                            old_names[j0],
                        );
                    }
                } else if j == pos {
                    assert(self.names()[i] == old_names[i0]);
                    assert(self.names()[j] == name_v);
                    assert(!lex_le(name_v, old_names[i0]));
                    crate::strutil::lemma_lex_total(name_v, old_names[i0]);
                } else {
                    assert(self.names()[i] == old_names[i0]);
                    assert(self.names()[j] == old_names[j0]);
                    if i0 == j0 {
                        assert(false);
                    }
                }
            }
            assert forall|i: int, j: int|
                0 <= i < j < self.ids().len() implies #[trigger] self.ids()[i] != (
            #[trigger] self.ids()[j]) by {
                let i0: int = if i < pos { i } else { i - 1 };
                let j0: int = if j < pos { j } else { j - 1 };
                if i == pos {
                    assert(self.ids()[i] == id_v && self.ids()[j] == old_ids[j0]);
                } else if j == pos {
                    assert(self.ids()[i] == old_ids[i0] && self.ids()[j] == id_v);
                } else {
                    assert(self.ids()[i] == old_ids[i0] && self.ids()[j] == old_ids[j0]);
                    if i0 == j0 {
                        assert(false);
                    }
                }
            }
            assert forall|t: Seq<char>| (#[trigger] self.ids().contains(t)) == (old_ids.contains(
                t,
            ) || t == id_v) by {
                if self.ids().contains(t) {
                    let w = choose|w: int| 0 <= w < self.ids().len() && self.ids()[w] == t;
                    if w < pos {
                        assert(old_ids[w] == t);
                    } else if w > pos {
                        assert(old_ids[w - 1] == t);
                    }
                }
                if old_ids.contains(t) {
                    let w = choose|w: int| 0 <= w < old_ids.len() && old_ids[w] == t;
                    if w < pos {
                        assert(self.ids()[w] == t);
                    } else {
                        assert(self.ids()[w + 1] == t);
                    }
                }
                if t == id_v {
                    assert(self.ids()[pos as int] == t);
                }
            }
        }
    }

    /// Remove the profile at `k`, keeping order and uniqueness.
    fn remove_at(&mut self, k: usize)
        requires
            old(self).inv(),
            k < old(self).names().len(),
        ensures
            final(self).inv(),
            final(self).names() == old(self).names().remove(k as int),
            final(self).ids() == old(self).ids().remove(k as int),
    {
        let ghost old_names = self.names();
        let ghost old_ids = self.ids();
        let _ = self.profiles.remove(k);
        proof {
            assert(self.names() =~= old_names.remove(k as int));
            assert(self.ids() =~= old_ids.remove(k as int));
            assert forall|i: int, j: int|
                0 <= i < j < self.names().len() implies lex_le(
                #[trigger] self.names()[i],
                #[trigger] self.names()[j],
            ) && self.names()[i] != self.names()[j] by {
                let i0: int = if i < k { i } else { i + 1 };
                let j0: int = if j < k { j } else { j + 1 };
                assert(self.names()[i] == old_names[i0]);
                assert(self.names()[j] == old_names[j0]);
            }
            assert forall|i: int, j: int|
                0 <= i < j < self.ids().len() implies #[trigger] self.ids()[i] != (
            #[trigger] self.ids()[j]) by {
                let i0: int = if i < k { i } else { i + 1 };
                let j0: int = if j < k { j } else { j + 1 };
                assert(self.ids()[i] == old_ids[i0]);
                assert(self.ids()[j] == old_ids[j0]);
            }
        }
    }

    /// Save a profile: a known id updates its stored profile (renaming
    /// allowed), a fresh id is inserted; a name already used by a
    /// different profile is refused, keeping names unique.
    pub fn save_scope(&mut self, profile: ScopeProfile) -> (r: Result<(), DatabaseError>)
        requires
            old(self).inv(),
        ensures
            final(self).inv(),
            match seq_index_of(old(self).ids(), profile.id@) {
                None => {
                    if old(self).names().contains(profile.name@) {
                        &&& final(self).names() == old(self).names()
                        &&& final(self).ids() == old(self).ids()
                        &&& r matches Err(DatabaseError::Query(_))
                    } else {
                        &&& final(self).names() == sorted_insert(
                            old(self).names(),
                            profile.name@,
                        )
                        &&& final(self).ids().contains(profile.id@)
                        &&& r is Ok
                    }
                },
                Some(k) => {
                    if old(self).names().remove(k).contains(profile.name@) {
                        &&& final(self).names() == old(self).names()
                        &&& final(self).ids() == old(self).ids()
                        &&& r matches Err(DatabaseError::Query(_))
                    } else {
                        &&& final(self).names() == sorted_insert(
                            old(self).names().remove(k),
                            profile.name@,
                        )
                        &&& final(self).ids().contains(profile.id@)
                        &&& r is Ok
                    }
                },
            },
    {
        let id_pos = self.find_id_index(profile.id.as_str());
        match id_pos {
            None => {
                proof {
                    lemma_seq_index_absent(self.ids(), profile.id@);
                }
                match self.find_name_index(profile.name.as_str()) {
                    Some(_) => {
                        proof {
                            assert(old(self).names().contains(profile.name@));
                        }
                        Err(DatabaseError::Query("scope name already in use".to_owned()))
                    },
                    None => {
                        proof {
                            if old(self).names().contains(profile.name@) {
                                let w = choose|w: int|
                                    0 <= w < old(self).names().len() && old(self).names()[w]
                                        == profile.name@;
                            }
                        }
                        self.insert_sorted(profile);
                        Ok(())
                    },
                }
            },
            Some(k) => {
                let ghost k_first = k;
                proof {
                    // Ids repeat nowhere, so the found index is the first.
                    assert forall|i: int| 0 <= i < k implies #[trigger] self.ids()[i]
                        != profile.id@ by {
                        assert(self.ids()[i] != self.ids()[k as int]);
                    }
                    lemma_seq_index_at(self.ids(), profile.id@, k as int);
                }
                match self.find_name_index(profile.name.as_str()) {
                    Some(j) if j != k => {
                        proof {
                            let jj: int = if j < k {
                                j as int
                            } else {
                                j - 1
                            };
                            assert(old(self).names().remove(k as int)[jj] == profile.name@);
                            assert(old(self).names().remove(k as int).contains(profile.name@));
                        }
                        Err(DatabaseError::Query("scope name already in use".to_owned()))
                    },
                    name_pos => {
                        proof {
                            // The stored name, if it matches, sits at the
                            // same slot; any other slot's name differs.
                            if old(self).names().remove(k as int).contains(profile.name@) {
                                let w = choose|w: int|
                                    0 <= w < old(self).names().remove(k as int).len() && old(
                                        self,
                                    ).names().remove(k as int)[w] == profile.name@;
                                let w0: int = if w < k {
                                    w
                                } else {
                                    w + 1
                                };
                                assert(old(self).names()[w0] == profile.name@);
                                match name_pos {
                                    Some(j) => {
                                        assert(j == k);
                                        assert(seq_index_of(old(self).names(), profile.name@)
                                            == Some(k as int));
                                        if w0 != k {
                                            assert(old(self).names()[k as int] == old(
                                                self,
                                            ).names()[w0]);
                                        }
                                    },
                                    None => {
                                        assert(old(self).names()[w0] != profile.name@);
                                    },
                                }
                            }
                        }
                        self.remove_at(k);
                        proof {
                            assert forall|i: int|
                                0 <= i < self.ids().len() implies #[trigger] self.ids()[i]
                                != profile.id@ by {
                                let i0: int = if i < k {
                                    i
                                } else {
                                    i + 1
                                };
                                assert(self.ids()[i] == old(self).ids()[i0]);
                                assert(old(self).ids()[i0] != old(self).ids()[k as int] || i0
                                    == k);
                            }
                            assert forall|i: int|
                                0 <= i < self.names().len() implies #[trigger] self.names()[i]
                                != profile.name@ by {}
                        }
                        self.insert_sorted(profile);
                        Ok(())
                    },
                }
            },
        }
    }

    /// The profile saved under `name`, if any.
    pub fn load_scope(&self, name: &str) -> (r: Option<&ScopeProfile>)
        ensures
            match r {
                Some(p) => self.names().contains(name@) && p.name@ == name@,
                None => !self.names().contains(name@),
            },
    {
        match self.find_name_index(name) {
            Some(i) => {
                proof {
                    assert(self.names().contains(name@));
                    assert(self.names()[i as int] == self.profiles@[i as int].name@);
                }
                Some(&self.profiles[i])
            },
            None => {
                proof {
                    if self.names().contains(name@) {
                        let w = choose|w: int|
                            0 <= w < self.names().len() && self.names()[w] == name@;
                    }
                }
                None
            },
        }
    }

    /// The names of every saved profile, ascending in collation order,
    /// as the store keeps them.
    pub fn list_scopes(&self) -> (r: Vec<String>)
        requires
            self.inv(),
        ensures
            r@.map_values(|s: String| s@) == self.names(),
            forall|i: int, j: int|
                0 <= i < j < r@.len() ==> lex_le(#[trigger] r@[i]@, #[trigger] r@[j]@),
    {
        let mut r: Vec<String> = Vec::new();
        let mut i: usize = 0;
        let n = self.profiles.len();
        proof {
            assert(r@.map_values(|s: String| s@) =~= self.names().take(0));
        }
        while i < n
            invariant
                n == self.profiles@.len() <= usize::MAX,
                0 <= i <= n,
                r@.map_values(|s: String| s@) == self.names().take(i as int),
            decreases n - i,
        {
            let ghost r_before = r@;
            r.push(clone_string(&self.profiles[i].name));
            proof {
                assert(self.names()[i as int] == self.profiles@[i as int].name@);
                assert(r@.map_values(|s: String| s@) =~= r_before.map_values(
                    |s: String| s@,
                ).push(self.names()[i as int]));
                assert(r@.map_values(|s: String| s@) =~= self.names().take(i + 1));
            }
            i += 1;
        }
        proof {
            assert(self.names().take(i as int) =~= self.names());
            assert forall|a: int, b: int| 0 <= a < b < r@.len() implies lex_le(
                #[trigger] r@[a]@,
                #[trigger] r@[b]@,
            ) by {
                assert(r@.map_values(|s: String| s@)[a] == r@[a]@);
                assert(r@.map_values(|s: String| s@)[b] == r@[b]@);
            }
        }
        r
    }

    /// Delete the profile saved under `name`; deleting an unknown name
    /// changes nothing.
    pub fn delete_scope(&mut self, name: &str)
        requires
            old(self).inv(),
        ensures
            final(self).inv(),
            !final(self).names().contains(name@),
            forall|t: Seq<char>|
                t != name@ ==> (#[trigger] final(self).names().contains(t)) == old(
                    self,
                ).names().contains(t),
    {
        match self.find_name_index(name) {
            Some(j) => {
                self.remove_at(j);
                proof {
                    assert forall|k: int|
                        0 <= k < self.names().len() implies #[trigger] self.names()[k]
                        != name@ by {
                        let k0: int = if k < j {
                            k
                        } else {
                            k + 1
                        };
                        assert(self.names()[k] == old(self).names()[k0]);
                        assert(old(self).names()[k0] != old(self).names()[j as int] || k0 == j);
                    }
                    assert forall|t: Seq<char>| t != name@ implies (
                    #[trigger] self.names().contains(t)) == old(self).names().contains(t) by {
                        if old(self).names().contains(t) {
                            let w = choose|w: int|
                                0 <= w < old(self).names().len() && old(self).names()[w] == t;
                            if w < j {
                                assert(self.names()[w] == t);
                            } else if w > j {
                                assert(self.names()[w - 1] == t);
                            }
                        }
                        if self.names().contains(t) {
                            let w = choose|w: int|
                                0 <= w < self.names().len() && self.names()[w] == t;
                            let w0: int = if w < j {
                                w
                            } else {
                                w + 1
                            };
                            assert(old(self).names()[w0] == t);
                        }
                    }
                }
            },
            None => {
                proof {
                    if self.names().contains(name@) {
                        let w = choose|w: int|
                            0 <= w < self.names().len() && self.names()[w] == name@;
                    }
                }
            },
        }
    }
}

} // verus!
