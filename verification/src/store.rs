//! The process-wide store: a keyed collection mapping business name to
//! business record. Its model is a `Map` from the name's characters to
//! the record's abstract value. `insert` rejects a duplicate name with a
//! conflict, `replace` is a total upsert that reports the previous
//! record, and every review or photo mutation is routed through a
//! locate-and-mutate step so that the record under the name changes
//! exactly as the record facade says.
//!
//! The store itself is a plain value; the surrounding process is expected
//! to guard it with one reader/writer lock, holding the write side for
//! every mutation and the read side for `get` and `list`.

use vstd::prelude::*;

use crate::business::record_add_photo;
use crate::business::record_add_review;
use crate::business::record_add_review_outcome;
use crate::business::record_delete_photo;
use crate::business::record_delete_review;
use crate::business::record_delete_review_outcome;
use crate::business::record_photo_outcome;
use crate::business::record_update_photo;
use crate::business::record_update_review;
use crate::business::record_update_review_outcome;
use crate::business::record_wf;
use crate::business::BusinessResponse;
use crate::business::Photo;
use crate::business::RecordView;
use crate::business::Review;
use crate::outcome::lift_outcome;
use crate::outcome::InsertOutcome;
use crate::outcome::MutationOutcome;
use crate::outcome::StoreOutcome;

verus! {

/// The name under which the entry at position `i` is stored.
pub open spec fn key_at(s: Seq<(String, BusinessResponse)>, i: int) -> Seq<char> {
    s[i].0@
}

/// Whether some entry is stored under the name `k`.
pub open spec fn has_key(s: Seq<(String, BusinessResponse)>, k: Seq<char>) -> bool {
    exists|i: int| 0 <= i < s.len() && key_at(s, i) == k
}

/// A position at which the name `k` is stored.
pub open spec fn index_of_key(s: Seq<(String, BusinessResponse)>, k: Seq<char>) -> int {
    choose|i: int| 0 <= i < s.len() && key_at(s, i) == k
}

/// The record stored under the name `k`.
pub open spec fn record_at(s: Seq<(String, BusinessResponse)>, k: Seq<char>) -> RecordView {
    s[index_of_key(s, k)].1@
}

/// The entries read as a map from name to record value.
pub open spec fn assoc_map(s: Seq<(String, BusinessResponse)>) -> Map<Seq<char>, RecordView> {
    Map::new(|k: Seq<char>| has_key(s, k), |k: Seq<char>| record_at(s, k))
}

/// No two entries share a name.
pub open spec fn keys_unique(s: Seq<(String, BusinessResponse)>) -> bool {
    forall|i: int, j: int| 0 <= i < j < s.len() ==> key_at(s, i) != key_at(s, j)
}

/// Every stored record satisfies the record invariant.
pub open spec fn records_wf(s: Seq<(String, BusinessResponse)>) -> bool {
    forall|i: int| 0 <= i < s.len() ==> record_wf(#[trigger] s[i].1@)
}

/// With unique names, the entry at position `i` is exactly what the map
/// holds under its name.
proof fn lemma_record_at(s: Seq<(String, BusinessResponse)>, i: int)
    requires
        keys_unique(s),
        0 <= i < s.len(),
    ensures
        has_key(s, key_at(s, i)),
        record_at(s, key_at(s, i)) == s[i].1@,
{
    let k = key_at(s, i);
    assert(has_key(s, k));
    let j = index_of_key(s, k);
    assert(0 <= j < s.len() && key_at(s, j) == k);
    if i < j {
        assert(key_at(s, i) != key_at(s, j));
    } else if j < i {
        assert(key_at(s, j) != key_at(s, i));
    }
}

/// Appending an entry under a fresh name inserts it into the map.
proof fn lemma_push_entry(s: Seq<(String, BusinessResponse)>, name: String, record:
    BusinessResponse)
    requires
        keys_unique(s),
        records_wf(s),
        !has_key(s, name@),
        record_wf(record@),
    ensures
        keys_unique(s.push((name, record))),
        records_wf(s.push((name, record))),
        assoc_map(s.push((name, record))) == assoc_map(s).insert(name@, record@),
{
    let t = s.push((name, record));
    assert forall|i: int, j: int| 0 <= i < j < t.len() implies key_at(t, i) != key_at(t, j) by {
        if j == t.len() - 1 {
            if key_at(s, i) == name@ {
                assert(has_key(s, name@));
            }
        } else {
            assert(key_at(t, i) == key_at(s, i) && key_at(t, j) == key_at(s, j));
        }
    }
    assert forall|i: int| 0 <= i < t.len() implies record_wf(#[trigger] t[i].1@) by {
        if i < t.len() - 1 {
            assert(t[i] == s[i]);
        }
    }
    assert(key_at(t, t.len() - 1) == name@);
    assert(has_key(t, name@));
    assert forall|k: Seq<char>| #[trigger] has_key(t, k) && k != name@ implies has_key(s, k)
        && record_at(t, k) == record_at(s, k) by {
        let w = choose|w: int| 0 <= w < t.len() && key_at(t, w) == k;
        assert(w < t.len() - 1);
        assert(key_at(s, w) == k);
        assert(has_key(s, k));
        lemma_record_at(s, w);
        let w2 = index_of_key(t, k);
        assert(0 <= w2 < t.len() && key_at(t, w2) == k);
        assert(w2 < t.len() - 1);
        assert(key_at(s, w2) == k);
        lemma_record_at(s, w2);
        assert(record_at(t, k) == t[w2].1@ && t[w2].1@ == s[w2].1@);
    }
    assert(record_at(t, name@) == record@) by {
        let w2 = index_of_key(t, name@);
        assert(0 <= w2 < t.len() && key_at(t, w2) == name@);
        if w2 < t.len() - 1 {
            assert(key_at(s, w2) == name@);
            assert(has_key(s, name@));
        }
    }
    assert forall|k: Seq<char>| has_key(s, k) implies #[trigger] has_key(t, k) by {
        let w = choose|w: int| 0 <= w < s.len() && key_at(s, w) == k;
        assert(key_at(t, w) == k);
    }
    assert(assoc_map(t) =~= assoc_map(s).insert(name@, record@));
}

/// Removing the entry at position `i` removes its name from the map.
proof fn lemma_remove_entry(s: Seq<(String, BusinessResponse)>, i: int)
    requires
        keys_unique(s),
        records_wf(s),
        0 <= i < s.len(),
    ensures
        keys_unique(s.remove(i)),
        records_wf(s.remove(i)),
        !has_key(s.remove(i), key_at(s, i)),
        assoc_map(s.remove(i)) == assoc_map(s).remove(key_at(s, i)),
{
    let t = s.remove(i);
    let k0 = key_at(s, i);
    assert(t.len() == s.len() - 1);
    assert(forall|j: int| 0 <= j < i ==> t[j] == s[j]);
    assert(forall|j: int| i <= j < t.len() ==> t[j] == s[j + 1]);
    assert forall|a: int, b: int| 0 <= a < b < t.len() implies key_at(t, a) != key_at(t, b) by {
        let a2: int = if a < i { a } else { a + 1 };
        let b2: int = if b < i { b } else { b + 1 };
        assert(t[a] == s[a2] && t[b] == s[b2]);
        assert(key_at(s, a2) != key_at(s, b2));
    }
    assert forall|j: int| 0 <= j < t.len() implies record_wf(#[trigger] t[j].1@) by {
        let j2: int = if j < i { j } else { j + 1 };
        assert(t[j] == s[j2]);
        assert(record_wf(s[j2].1@));
    }
    assert forall|j: int| 0 <= j < t.len() implies key_at(t, j) != k0 by {
        let j2: int = if j < i { j } else { j + 1 };
        assert(t[j] == s[j2]);
        if j2 < i {
            assert(key_at(s, j2) != key_at(s, i));
        } else {
            assert(key_at(s, i) != key_at(s, j2));
        }
    }
    assert forall|k: Seq<char>| #[trigger] has_key(t, k) implies has_key(s, k) && k != k0
        && record_at(t, k) == record_at(s, k) by {
        let w = choose|w: int| 0 <= w < t.len() && key_at(t, w) == k;
        let w2: int = if w < i { w } else { w + 1 };
        assert(t[w] == s[w2]);
        assert(key_at(s, w2) == k);
        assert(has_key(s, k));
        lemma_record_at(s, w2);
        let u = index_of_key(t, k);
        assert(0 <= u < t.len() && key_at(t, u) == k);
        let u2: int = if u < i { u } else { u + 1 };
        assert(t[u] == s[u2]);
        lemma_record_at(s, u2);
        assert(record_at(t, k) == t[u].1@ && t[u].1@ == s[u2].1@);
    }
    assert forall|k: Seq<char>| has_key(s, k) && k != k0 implies #[trigger] has_key(t, k) by {
        let w = choose|w: int| 0 <= w < s.len() && key_at(s, w) == k;
        if w < i {
            assert(key_at(t, w) == k);
        } else {
            assert(w > i);
            assert(key_at(t, w - 1) == k);
        }
    }
    assert(assoc_map(t) =~= assoc_map(s).remove(k0));
}

/// Taking an entry out, mutating it and appending it again under the
/// same name overwrites that name in the map.
proof fn lemma_replace_entry(
    s: Seq<(String, BusinessResponse)>,
    i: int,
    name: String,
    record: BusinessResponse,
)
    requires
        keys_unique(s),
        records_wf(s),
        0 <= i < s.len(),
        name@ == key_at(s, i),
        record_wf(record@),
    ensures
        keys_unique(s.remove(i).push((name, record))),
        records_wf(s.remove(i).push((name, record))),
        assoc_map(s.remove(i).push((name, record))) == assoc_map(s).insert(name@, record@),
{
    lemma_remove_entry(s, i);
    lemma_push_entry(s.remove(i), name, record);
    assert(assoc_map(s).remove(name@).insert(name@, record@) =~= assoc_map(s).insert(
        name@,
        record@,
    ));
}

/// What a conflict-rejecting insert does to the stored map.
pub open spec fn store_insert(
    m: Map<Seq<char>, RecordView>,
    k: Seq<char>,
    v: RecordView,
) -> Map<Seq<char>, RecordView> {
    if m.contains_key(k) {
        m
    } else {
        m.insert(k, v)
    }
}

/// Whether a conflict-rejecting insert creates the entry.
pub open spec fn store_insert_created(m: Map<Seq<char>, RecordView>, k: Seq<char>) -> bool {
    !m.contains_key(k)
}

/// The keyed collection of business records.
pub struct Store {
    entries: Vec<(String, BusinessResponse)>,
}

impl View for Store {
    type V = Map<Seq<char>, RecordView>;

    closed spec fn view(&self) -> Map<Seq<char>, RecordView> {
        assoc_map(self.entries@)
    }
}

impl Store {
    /// The store invariant: names are unique and every stored record
    /// satisfies the record invariant.
    pub closed spec fn wf(self) -> bool {
        keys_unique(self.entries@) && records_wf(self.entries@)
    }

    /// The stored record values in the store's own order, the order
    /// `list` hands them out in.
    pub closed spec fn records(self) -> Seq<RecordView> {
        Seq::new(self.entries@.len(), |i: int| self.entries@[i].1@)
    }

    /// An empty store.
    pub fn new() -> (s: Store)
        ensures
            s.wf(),
            s@ == Map::<Seq<char>, RecordView>::empty(),
    {
        let s = Store { entries: Vec::new() };
        proof {
            assert(s@ =~= Map::<Seq<char>, RecordView>::empty());
        }
        s
    }

    /// The position of the entry stored under `name`, if any.
    fn find_index(&self, name: &String) -> (r: Option<usize>)
        ensures
            match r {
                Some(i) => i < self.entries@.len() && key_at(self.entries@, i as int) == name@,
                None => !has_key(self.entries@, name@),
            },
    {
        let mut i: usize = 0;
        while i < self.entries.len()
            invariant
                i <= self.entries.len(),
                forall|j: int| 0 <= j < i ==> key_at(self.entries@, j) != name@,
            decreases self.entries.len() - i,
        {
            if self.entries[i].0 == *name {
                return Some(i);
            }
            i += 1;
        }
        None
    }

    /// Stores a fresh record under `name`, or reports a conflict and
    /// changes nothing when the name is already taken. The check and the
    /// insert form one atomic step on the store value.
    pub fn insert(&mut self, name: String, record: BusinessResponse) -> (r: InsertOutcome)
        requires
            old(self).wf(),
            record_wf(record@),
        ensures
            final(self).wf(),
            final(self)@ == store_insert(old(self)@, name@, record@),
            r == InsertOutcome::Created <==> store_insert_created(old(self)@, name@),
            r == InsertOutcome::Conflict ==> *final(self) == *old(self),
    {
        match self.find_index(&name) {
            Some(i) => {
                proof {
                    lemma_record_at(self.entries@, i as int);
                }
                InsertOutcome::Conflict
            },
            None => {
                proof {
                    lemma_push_entry(self.entries@, name, record);
                }
                self.entries.push((name, record));
                InsertOutcome::Created
            },
        }
    }

    /// A reference to the record stored under `name`.
    pub fn get(&self, name: &String) -> (r: Option<&BusinessResponse>)
        requires
            self.wf(),
        ensures
            match r {
                Some(rec) => self@.contains_key(name@) && rec@ == self@[name@],
                None => !self@.contains_key(name@),
            },
    {
        match self.find_index(name) {
            Some(i) => {
                proof {
                    lemma_record_at(self.entries@, i as int);
                }
                Some(&self.entries[i].1)
            },
            None => None,
        }
    }

    /// A snapshot copy of every stored record, in the store's own order.
    pub fn list(&self) -> (r: Vec<BusinessResponse>)
        ensures
            r@.len() == self.records().len(),
            forall|i: int| 0 <= i < r@.len() ==> #[trigger] r@[i]@ == self.records()[i],
    {
        let mut out: Vec<BusinessResponse> = Vec::new();
        let mut i: usize = 0;
        while i < self.entries.len()
            invariant
                i <= self.entries.len(),
                out@.len() == i,
                forall|j: int| 0 <= j < i ==> #[trigger] out@[j]@ == self.entries@[j].1@,
            decreases self.entries.len() - i,
        {
            out.push(self.entries[i].1.clone());
            i += 1;
        }
        out
    }

    /// Removes and returns the record stored under `name`; reports an
    /// unknown name and changes nothing otherwise.
    pub fn remove(&mut self, name: &String) -> (r: Option<BusinessResponse>)
        requires
            old(self).wf(),
        ensures
            final(self).wf(),
            match r {
                Some(rec) => old(self)@.contains_key(name@) && rec@ == old(self)@[name@]
                    && final(self)@ == old(self)@.remove(name@),
                None => !old(self)@.contains_key(name@) && *final(self) == *old(self),
            },
    {
        match self.find_index(name) {
            Some(i) => {
                proof {
                    lemma_record_at(self.entries@, i as int);
                    lemma_remove_entry(self.entries@, i as int);
                }
                let pair = self.entries.remove(i);
                Some(pair.1)
            },
            None => None,
        }
    }

    /// Total upsert: stores the record under `name` unconditionally and
    /// returns the previous record when one existed.
    pub fn replace(&mut self, name: String, record: BusinessResponse) -> (r: Option<
        BusinessResponse,
    >)
        requires
            old(self).wf(),
            record_wf(record@),
        ensures
            final(self).wf(),
            final(self)@ == old(self)@.insert(name@, record@),
            match r {
                Some(prev) => old(self)@.contains_key(name@) && prev@ == old(self)@[name@],
                None => !old(self)@.contains_key(name@),
            },
    {
        match self.find_index(&name) {
            Some(i) => {
                proof {
                    lemma_record_at(self.entries@, i as int);
                    lemma_replace_entry(self.entries@, i as int, name, record);
                }
                let pair = self.entries.remove(i);
                self.entries.push((name, record));
                Some(pair.1)
            },
            None => {
                proof {
                    lemma_push_entry(self.entries@, name, record);
                }
                self.entries.push((name, record));
                None
            },
        }
    }

    /// Adds a review to the record stored under `name`: locate and
    /// mutate in one step on the store value.
    pub fn add_review(&mut self, name: &String, user: String, review: Review) -> (r: StoreOutcome)
        requires
            old(self).wf(),
        ensures
            final(self).wf(),
            r == StoreOutcome::NotFound <==> !old(self)@.contains_key(name@),
            !old(self)@.contains_key(name@) ==> *final(self) == *old(self),
            old(self)@.contains_key(name@) ==> final(self)@ == old(self)@.insert(
                name@,
                record_add_review(old(self)@[name@], user, review),
            ) && r == lift_outcome(record_add_review_outcome(old(self)@[name@], user, review)),
    {
        match self.find_index(name) {
            None => StoreOutcome::NotFound,
            Some(i) => {
                let ghost prev = self.entries@;
                proof {
                    lemma_record_at(prev, i as int);
                }
                let (n, mut rec) = self.entries.remove(i);
                let outcome = rec.add_business_review(user, review);
                proof {
                    crate::business::lemma_record_add_review_wf(prev[i as int].1@, user, review);
                    lemma_replace_entry(prev, i as int, n, rec);
                }
                self.entries.push((n, rec));
                match outcome {
                    MutationOutcome::Absent => StoreOutcome::Absent,
                    MutationOutcome::Applied => StoreOutcome::Applied,
                    MutationOutcome::Rejected => StoreOutcome::Rejected,
                }
            },
        }
    }

    /// Deletes a review from the record stored under `name`.
    pub fn delete_review(&mut self, name: &String, user: String) -> (r: StoreOutcome)
        requires
            old(self).wf(),
        ensures
            final(self).wf(),
            r == StoreOutcome::NotFound <==> !old(self)@.contains_key(name@),
            !old(self)@.contains_key(name@) ==> *final(self) == *old(self),
            old(self)@.contains_key(name@) ==> final(self)@ == old(self)@.insert(
                name@,
                record_delete_review(old(self)@[name@], user@),
            ) && r == lift_outcome(record_delete_review_outcome(old(self)@[name@], user@)),
    {
        match self.find_index(name) {
            None => StoreOutcome::NotFound,
            Some(i) => {
                let ghost prev = self.entries@;
                proof {
                    lemma_record_at(prev, i as int);
                }
                let (n, mut rec) = self.entries.remove(i);
                let outcome = rec.delete_business_review(user);
                proof {
                    crate::business::lemma_record_delete_review_wf(prev[i as int].1@, user@);
                    lemma_replace_entry(prev, i as int, n, rec);
                }
                self.entries.push((n, rec));
                match outcome {
                    MutationOutcome::Absent => StoreOutcome::Absent,
                    MutationOutcome::Applied => StoreOutcome::Applied,
                    MutationOutcome::Rejected => StoreOutcome::Rejected,
                }
            },
        }
    }

    /// Replaces a review on the record stored under `name`.
    pub fn update_review(&mut self, name: &String, user: String, review: Review) -> (r:
        StoreOutcome)
        requires
            old(self).wf(),
        ensures
            final(self).wf(),
            r == StoreOutcome::NotFound <==> !old(self)@.contains_key(name@),
            !old(self)@.contains_key(name@) ==> *final(self) == *old(self),
            old(self)@.contains_key(name@) ==> final(self)@ == old(self)@.insert(
                name@,
                record_update_review(old(self)@[name@], user, review),
            ) && r == lift_outcome(record_update_review_outcome(old(self)@[name@], user)),
    {
        match self.find_index(name) {
            None => StoreOutcome::NotFound,
            Some(i) => {
                let ghost prev = self.entries@;
                proof {
                    lemma_record_at(prev, i as int);
                }
                let (n, mut rec) = self.entries.remove(i);
                let outcome = rec.update_business_review(user, review);
                proof {
                    crate::business::lemma_record_update_review_wf(prev[i as int].1@, user, review);
                    lemma_replace_entry(prev, i as int, n, rec);
                }
                self.entries.push((n, rec));
                match outcome {
                    MutationOutcome::Absent => StoreOutcome::Absent,
                    MutationOutcome::Applied => StoreOutcome::Applied,
                    MutationOutcome::Rejected => StoreOutcome::Rejected,
                }
            },
        }
    }

    /// Appends a photo to the record stored under `name`.
    pub fn add_photo(&mut self, name: &String, user_name: String, photo: Photo) -> (r:
        StoreOutcome)
        requires
            old(self).wf(),
        ensures
            final(self).wf(),
            r == StoreOutcome::NotFound <==> !old(self)@.contains_key(name@),
            !old(self)@.contains_key(name@) ==> *final(self) == *old(self),
            old(self)@.contains_key(name@) ==> final(self)@ == old(self)@.insert(
                name@,
                record_add_photo(old(self)@[name@], photo),
            ) && r == lift_outcome(record_photo_outcome(old(self)@[name@])),
    {
        match self.find_index(name) {
            None => StoreOutcome::NotFound,
            Some(i) => {
                let ghost prev = self.entries@;
                proof {
                    lemma_record_at(prev, i as int);
                }
                let (n, mut rec) = self.entries.remove(i);
                let outcome = rec.add_business_photo(user_name, photo);
                proof {
                    assert(record_add_photo(prev[i as int].1@, photo).reviews == prev[
                        i as int].1@.reviews);
                    lemma_replace_entry(prev, i as int, n, rec);
                }
                self.entries.push((n, rec));
                match outcome {
                    MutationOutcome::Absent => StoreOutcome::Absent,
                    MutationOutcome::Applied => StoreOutcome::Applied,
                    MutationOutcome::Rejected => StoreOutcome::Rejected,
                }
            },
        }
    }

    /// Deletes the matching photos from the record stored under `name`.
    pub fn delete_photo(&mut self, name: &String, user_name: String, photo_id: usize) -> (r:
        StoreOutcome)
        requires
            old(self).wf(),
        ensures
            final(self).wf(),
            r == StoreOutcome::NotFound <==> !old(self)@.contains_key(name@),
            !old(self)@.contains_key(name@) ==> *final(self) == *old(self),
            old(self)@.contains_key(name@) ==> final(self)@ == old(self)@.insert(
                name@,
                record_delete_photo(old(self)@[name@], user_name@, photo_id),
            ) && r == lift_outcome(record_photo_outcome(old(self)@[name@])),
    {
        match self.find_index(name) {
            None => StoreOutcome::NotFound,
            Some(i) => {
                let ghost prev = self.entries@;
                proof {
                    lemma_record_at(prev, i as int);
                }
                let (n, mut rec) = self.entries.remove(i);
                let outcome = rec.delete_business_photo(user_name, photo_id);
                proof {
                    assert(record_delete_photo(prev[i as int].1@, user_name@, photo_id).reviews
                        == prev[i as int].1@.reviews);
                    lemma_replace_entry(prev, i as int, n, rec);
                }
                self.entries.push((n, rec));
                match outcome {
                    MutationOutcome::Absent => StoreOutcome::Absent,
                    MutationOutcome::Applied => StoreOutcome::Applied,
                    MutationOutcome::Rejected => StoreOutcome::Rejected,
                }
            },
        }
    }

    /// Replaces an author's photos on the record stored under `name`.
    pub fn update_photo(&mut self, name: &String, user_name: String, photo: Photo) -> (r:
        StoreOutcome)
        requires
            old(self).wf(),
        ensures
            final(self).wf(),
            r == StoreOutcome::NotFound <==> !old(self)@.contains_key(name@),
            !old(self)@.contains_key(name@) ==> *final(self) == *old(self),
            old(self)@.contains_key(name@) ==> final(self)@ == old(self)@.insert(
                name@,
                record_update_photo(old(self)@[name@], user_name@, photo),
            ) && r == lift_outcome(record_photo_outcome(old(self)@[name@])),
    {
        match self.find_index(name) {
            None => StoreOutcome::NotFound,
            Some(i) => {
                let ghost prev = self.entries@;
                proof {
                    lemma_record_at(prev, i as int);
                }
                let (n, mut rec) = self.entries.remove(i);
                let outcome = rec.update_business_photo(user_name, photo);
                proof {
                    assert(record_update_photo(prev[i as int].1@, user_name@, photo).reviews
                        == prev[i as int].1@.reviews);
                    lemma_replace_entry(prev, i as int, n, rec);
                }
                self.entries.push((n, rec));
                match outcome {
                    MutationOutcome::Absent => StoreOutcome::Absent,
                    MutationOutcome::Applied => StoreOutcome::Applied,
                    MutationOutcome::Rejected => StoreOutcome::Rejected,
                }
            },
        }
    }
}

/// The snapshot `list` hands out is exactly the stored map: every listed
/// record is stored under some name, and every stored name's record is
/// listed.
pub proof fn lemma_records_match_map(s: Store)
    requires
        s.wf(),
    ensures
        forall|i: int|
            0 <= i < s.records().len() ==> s@.contains_value(#[trigger] s.records()[i]),
        forall|k: Seq<char>| #[trigger] s@.contains_key(k) ==> s.records().contains(s@[k]),
{
    let entries = s.entries@;
    assert forall|i: int|
        0 <= i < s.records().len() implies s@.contains_value(#[trigger] s.records()[i]) by {
        lemma_record_at(entries, i);
        let k = key_at(entries, i);
        assert(s.records()[i] == entries[i].1@);
        assert(s@.dom().contains(k) && s@[k] == s.records()[i]);
    }
    assert forall|k: Seq<char>| #[trigger] s@.contains_key(k) implies s.records().contains(
        s@[k],
    ) by {
        let w = index_of_key(entries, k);
        assert(0 <= w < entries.len() && key_at(entries, w) == k);
        assert(s.records()[w] == entries[w].1@);
        lemma_record_at(entries, w);
    }
}

/// Creating a business is idempotent-rejecting: once a name is stored,
/// a second insert under it reports a conflict and leaves the stored
/// map, and in particular the first record, unchanged.
pub proof fn lemma_create_idempotent_rejecting(
    m: Map<Seq<char>, RecordView>,
    k: Seq<char>,
    v1: RecordView,
    v2: RecordView,
)
    requires
        store_insert_created(m, k),
    ensures
        store_insert(m, k, v1) == m.insert(k, v1),
        !store_insert_created(store_insert(m, k, v1), k),
        store_insert(store_insert(m, k, v1), k, v2) == store_insert(m, k, v1),
        store_insert(m, k, v1)[k] == v1,
{
}

/// Upsert is total: whatever the map holds, inserting under `k` yields a
/// map that holds `v` under `k` and is elsewhere unchanged; whether a
/// previous record existed is exactly whether `k` was present.
pub proof fn lemma_replace_total(m: Map<Seq<char>, RecordView>, k: Seq<char>, v: RecordView)
    ensures
        m.insert(k, v).contains_key(k),
        m.insert(k, v)[k] == v,
        forall|k2: Seq<char>|
            k2 != k ==> (#[trigger] m.insert(k, v).contains_key(k2) <==> m.contains_key(k2)),
        forall|k2: Seq<char>|
            k2 != k && m.contains_key(k2) ==> m.insert(k, v)[k2] == m[k2],
{
}

} // verus!
