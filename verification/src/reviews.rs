//! The review ledger: an ordered sequence of (author, review) pairs
//! attached to one business. The ledger owns the review policy:
//!
//! * `add` is first-write-wins per author — a second add by the same
//!   non-anonymous author is silently declined;
//! * entries authored by the anonymous sentinel accumulate without bound
//!   and can never be deleted or updated by name;
//! * `update` is delete-then-add, the only path that replaces a
//!   non-anonymous author's review content;
//! * listing one author's reviews sorts ascending by rating with a stable
//!   sort.
//!
//! The model is the sequence of pairs; every mutation's contract states
//! the new sequence as a spec function of the old one.

use vstd::prelude::*;

use crate::business::Review;
use crate::outcome::LedgerOutcome;
use crate::seq_facts::lemma_push_drop_last;
use crate::seq_facts::lemma_skip_succ;
use crate::seq_facts::lemma_take_succ;

verus! {

/// The reserved author name whose entries are exempt from uniqueness,
/// deletion and update.
pub open spec fn anon_name() -> Seq<char> {
    "Anonymous"@
}

/// Whether some entry of `s` is authored by `author`.
pub open spec fn has_author(s: Seq<(String, Review)>, author: Seq<char>) -> bool {
    exists|i: int| 0 <= i < s.len() && s[i].0@ == author
}

/// The subsequence of entries authored by `author`, in ledger order.
pub open spec fn by_author(s: Seq<(String, Review)>, author: Seq<char>) -> Seq<(String, Review)>
    decreases s.len(),
{
    if s.len() == 0 {
        s
    } else {
        let rest = by_author(s.drop_last(), author);
        if s.last().0@ == author {
            rest.push(s.last())
        } else {
            rest
        }
    }
}

/// The ledger with every entry authored by `author` removed.
pub open spec fn without_author(s: Seq<(String, Review)>, author: Seq<char>) -> Seq<
    (String, Review),
>
    decreases s.len(),
{
    if s.len() == 0 {
        s
    } else {
        let rest = without_author(s.drop_last(), author);
        if s.last().0@ == author {
            rest
        } else {
            rest.push(s.last())
        }
    }
}

/// What `add` leaves behind: anonymous entries always append; a known
/// non-anonymous author is declined; a new author appends.
pub open spec fn review_add(s: Seq<(String, Review)>, user: String, review: Review) -> Seq<
    (String, Review),
> {
    if user@ == anon_name() {
        s.push((user, review))
    } else if has_author(s, user@) {
        s
    } else {
        s.push((user, review))
    }
}

/// What `delete` leaves behind: the anonymous sentinel is a no-op,
/// otherwise every entry by the author goes.
pub open spec fn review_delete(s: Seq<(String, Review)>, author: Seq<char>) -> Seq<
    (String, Review),
> {
    if author == anon_name() {
        s
    } else {
        without_author(s, author)
    }
}

/// What `update` leaves behind: the anonymous sentinel is a no-op,
/// otherwise delete-then-add, which always ends with exactly the new
/// review for the author.
pub open spec fn review_update(s: Seq<(String, Review)>, user: String, review: Review) -> Seq<
    (String, Review),
> {
    if user@ == anon_name() {
        s
    } else {
        without_author(s, user@).push((user, review))
    }
}

/// The first entry authored by `author`, if any.
pub open spec fn review_find(s: Seq<(String, Review)>, author: Seq<char>) -> Option<Review>
    decreases s.len(),
{
    if s.len() == 0 {
        None
    } else if s.first().0@ == author {
        Some(s.first().1)
    } else {
        review_find(s.drop_first(), author)
    }
}

/// The ledger invariant: two distinct entries share an author only if
/// that author is the anonymous sentinel.
pub open spec fn ledger_wf(s: Seq<(String, Review)>) -> bool {
    forall|i: int, j: int|
        0 <= i < j < s.len() && s[i].0@ == s[j].0@ ==> s[i].0@ == anon_name()
}

/// The subsequence of entries with rating `k`, in ledger order.
pub open spec fn by_rating(s: Seq<(String, Review)>, k: int) -> Seq<(String, Review)>
    decreases s.len(),
{
    if s.len() == 0 {
        s
    } else {
        let rest = by_rating(s.drop_last(), k);
        if s.last().1.rating == k {
            rest.push(s.last())
        } else {
            rest
        }
    }
}

/// Inserts `e` after every entry whose rating is at most `e`'s: the step
/// of a stable insertion sort.
pub open spec fn insert_by_rating(s: Seq<(String, Review)>, e: (String, Review)) -> Seq<
    (String, Review),
>
    decreases s.len(),
{
    if s.len() == 0 {
        seq![e]
    } else if s.first().1.rating <= e.1.rating {
        seq![s.first()] + insert_by_rating(s.drop_first(), e)
    } else {
        seq![e] + s
    }
}

/// The ledger stably sorted ascending by rating.
pub open spec fn rating_sort(s: Seq<(String, Review)>) -> Seq<(String, Review)>
    decreases s.len(),
{
    if s.len() == 0 {
        s
    } else {
        insert_by_rating(rating_sort(s.drop_last()), s.last())
    }
}

/// Ascending by rating.
pub open spec fn sorted_by_rating(s: Seq<(String, Review)>) -> bool {
    forall|i: int, j: int| 0 <= i < j < s.len() ==> s[i].1.rating <= s[j].1.rating
}

/// Where the scan of an insertion-sort step stops, the recursive
/// insertion spec splits the sequence at exactly that point.
proof fn lemma_insert_by_rating_at(s: Seq<(String, Review)>, e: (String, Review), k: int)
    requires
        0 <= k <= s.len(),
        forall|i: int| 0 <= i < k ==> s[i].1.rating <= e.1.rating,
        k < s.len() ==> s[k].1.rating > e.1.rating,
    ensures
        insert_by_rating(s, e) == s.take(k) + seq![e] + s.skip(k),
    decreases s.len(),
{
    if k == 0 {
        if s.len() == 0 {
            assert(insert_by_rating(s, e) =~= s.take(0) + seq![e] + s.skip(0));
        } else {
            assert(seq![e] + s =~= s.take(0) + seq![e] + s.skip(0));
        }
    } else {
        let df = s.drop_first();
        assert(forall|i: int| 0 <= i < k - 1 ==> df[i] == s[i + 1]);
        lemma_insert_by_rating_at(df, e, k - 1);
        assert(seq![s.first()] + (df.take(k - 1) + seq![e] + df.skip(k - 1)) =~= s.take(k)
            + seq![e] + s.skip(k));
    }
}

/// Inserts `e` into a vector after every entry whose rating is at most
/// `e`'s own.
fn sorted_insert(v: &mut Vec<(String, Review)>, e: (String, Review))
    ensures
        final(v)@ == insert_by_rating(old(v)@, e),
{
    let mut k: usize = 0;
    while k < v.len() && v[k].1.rating <= e.1.rating
        invariant
            k <= v.len(),
            v@ == old(v)@,
            forall|i: int| 0 <= i < k ==> v@[i].1.rating <= e.1.rating,
        decreases v.len() - k,
    {
        k += 1;
    }
    proof {
        lemma_insert_by_rating_at(v@, e, k as int);
    }
    v.insert(k, e);
    proof {
        assert(old(v)@.insert(k as int, e) =~= old(v)@.take(k as int) + seq![e] + old(v)@.skip(
            k as int,
        ));
    }
}

/// Whether `user` is the anonymous sentinel.
pub fn is_anonymous(user: &String) -> (b: bool)
    ensures
        b == (user@ == anon_name()),
{
    let sentinel: String = "Anonymous".to_owned();
    *user == sentinel
}

/// Normalizes an author name from the transport layer: an empty name
/// becomes the anonymous sentinel, any other name is kept as it is.
pub fn normalize_author(user: String) -> (r: String)
    ensures
        user@.len() == 0 ==> r@ == anon_name(),
        user@.len() != 0 ==> r == user,
{
    if user.as_str().is_empty() {
        "Anonymous".to_owned()
    } else {
        user
    }
}

/// An ordered collection of (author, review) pairs for one business.
/// Its field is private: every ledger reachable from outside this module
/// went through `new`, `empty` and the mutation methods, which maintain
/// `ledger_wf`.
pub struct UserReviews(Vec<(String, Review)>);

impl View for UserReviews {
    type V = Seq<(String, Review)>;

    closed spec fn view(&self) -> Seq<(String, Review)> {
        self.0@
    }
}

impl UserReviews {
    /// A ledger holding a single first entry.
    pub fn new(name: String, review: Review) -> (r: UserReviews)
        ensures
            r@ == seq![(name, review)],
    {
        let mut entries: Vec<(String, Review)> = Vec::new();
        entries.push((name, review));
        proof {
            assert(entries@ =~= seq![(name, review)]);
        }
        UserReviews(entries)
    }

    /// A ledger with no entries yet.
    pub fn empty() -> (r: UserReviews)
        ensures
            r@ == Seq::<(String, Review)>::empty(),
    {
        UserReviews(Vec::new())
    }

    /// The entries, in ledger order.
    pub fn entries(&self) -> (r: &Vec<(String, Review)>)
        ensures
            r@ == self@,
    {
        &self.0
    }

    /// Whether any entry is authored by `user`.
    pub fn contains_author(&self, user: &String) -> (b: bool)
        ensures
            b == has_author(self@, user@),
    {
        let mut i: usize = 0;
        while i < self.0.len()
            invariant
                i <= self.0.len(),
                forall|j: int| 0 <= j < i ==> self.0@[j].0@ != user@,
            decreases self.0.len() - i,
        {
            if self.0[i].0 == *user {
                return true;
            }
            i += 1;
        }
        false
    }

    /// Adds a review. Anonymous entries always append; a second entry by
    /// a known non-anonymous author is declined and the ledger is left
    /// unchanged; otherwise the entry appends.
    pub fn add_review(&mut self, user: String, review: Review) -> (r: LedgerOutcome)
        ensures
            final(self)@ == review_add(old(self)@, user, review),
            r == LedgerOutcome::Applied <==> (user@ == anon_name() || !has_author(
                old(self)@,
                user@,
            )),
    {
        if is_anonymous(&user) {
            self.0.push((user, review));
            LedgerOutcome::Applied
        } else if self.contains_author(&user) {
            LedgerOutcome::Rejected
        } else {
            self.0.push((user, review));
            LedgerOutcome::Applied
        }
    }

    /// Deletes every entry by `user`. Deleting the anonymous sentinel is
    /// declined: anonymous entries are never individually addressable.
    pub fn delete_review(&mut self, user: String) -> (r: LedgerOutcome)
        ensures
            final(self)@ == review_delete(old(self)@, user@),
            r == LedgerOutcome::Applied <==> user@ != anon_name(),
    {
        if is_anonymous(&user) {
            return LedgerOutcome::Rejected;
        }
        let mut kept: Vec<(String, Review)> = Vec::new();
        let mut i: usize = 0;
        while i < self.0.len()
            invariant
                i <= self.0.len(),
                kept@ == without_author(self.0@.take(i as int), user@),
            decreases self.0.len() - i,
        {
            proof {
                lemma_take_succ(self.0@, i as int);
                lemma_push_drop_last(self.0@.take(i as int), self.0@[i as int]);
            }
            let pair = &self.0[i];
            if !(pair.0 == user) {
                kept.push((pair.0.clone(), pair.1.clone()));
            }
            i += 1;
        }
        proof {
            assert(self.0@.take(self.0@.len() as int) =~= self.0@);
        }
        self.0 = kept;
        LedgerOutcome::Applied
    }

    /// Replaces `user`'s review by delete-then-add. Updating the
    /// anonymous sentinel is declined.
    pub fn update_review(&mut self, user: String, review: Review) -> (r: LedgerOutcome)
        ensures
            final(self)@ == review_update(old(self)@, user, review),
            r == LedgerOutcome::Applied <==> user@ != anon_name(),
    {
        if is_anonymous(&user) {
            return LedgerOutcome::Rejected;
        }
        let author = user.clone();
        self.delete_review(author);
        self.0.push((user, review));
        LedgerOutcome::Applied
    }

    /// The first review by `user_name`, if one exists.
    pub fn get_review(&self, user_name: String) -> (r: Option<&Review>)
        ensures
            match review_find(self@, user_name@) {
                Some(rv) => r matches Some(p) && *p == rv,
                None => r is None,
            },
    {
        let mut i: usize = 0;
        proof {
            assert(self.0@.skip(0) =~= self.0@);
        }
        while i < self.0.len()
            invariant
                i <= self.0.len(),
                review_find(self@, user_name@) == review_find(
                    self.0@.skip(i as int),
                    user_name@,
                ),
            decreases self.0.len() - i,
        {
            proof {
                lemma_skip_succ(self.0@, i as int);
            }
            if self.0[i].0 == user_name {
                return Some(&self.0[i].1);
            }
            i += 1;
        }
        proof {
            assert(self.0@.skip(self.0@.len() as int) =~= Seq::<(String, Review)>::empty());
        }
        None
    }

    /// The reviews by `user_name`, sorted ascending by rating with a
    /// stable sort: ties keep their ledger order.
    pub fn list_by_author(&self, user_name: &String) -> (r: Vec<(String, Review)>)
        ensures
            r@ == rating_sort(by_author(self@, user_name@)),
    {
        let mut picked: Vec<(String, Review)> = Vec::new();
        let mut i: usize = 0;
        while i < self.0.len()
            invariant
                i <= self.0.len(),
                picked@ == by_author(self.0@.take(i as int), user_name@),
            decreases self.0.len() - i,
        {
            proof {
                lemma_take_succ(self.0@, i as int);
                lemma_push_drop_last(self.0@.take(i as int), self.0@[i as int]);
            }
            let pair = &self.0[i];
            if pair.0 == *user_name {
                picked.push((pair.0.clone(), pair.1.clone()));
            }
            i += 1;
        }
        proof {
            assert(self.0@.take(self.0@.len() as int) =~= self.0@);
        }
        let mut out: Vec<(String, Review)> = Vec::new();
        let mut j: usize = 0;
        while j < picked.len()
            invariant
                j <= picked.len(),
                picked@ == by_author(self@, user_name@),
                out@ == rating_sort(picked@.take(j as int)),
            decreases picked.len() - j,
        {
            proof {
                lemma_take_succ(picked@, j as int);
                lemma_push_drop_last(picked@.take(j as int), picked@[j as int]);
            }
            let e = (picked[j].0.clone(), picked[j].1.clone());
            sorted_insert(&mut out, e);
            j += 1;
        }
        proof {
            assert(picked@.take(picked@.len() as int) =~= picked@);
        }
        out
    }
}

impl Clone for UserReviews {
    fn clone(&self) -> (r: Self)
        ensures
            r@ == self@,
    {
        let mut kept: Vec<(String, Review)> = Vec::new();
        let mut i: usize = 0;
        while i < self.0.len()
            invariant
                i <= self.0.len(),
                kept@ == self.0@.take(i as int),
            decreases self.0.len() - i,
        {
            proof {
                lemma_take_succ(self.0@, i as int);
            }
            let pair = &self.0[i];
            kept.push((pair.0.clone(), pair.1.clone()));
            i += 1;
        }
        proof {
            assert(self.0@.take(self.0@.len() as int) =~= self.0@);
        }
        UserReviews(kept)
    }
}

/// A ledger lists an author exactly when it has an entry by that author.
proof fn lemma_by_author_empty(s: Seq<(String, Review)>, author: Seq<char>)
    ensures
        by_author(s, author).len() == 0 <==> !has_author(s, author),
    decreases s.len(),
{
    if s.len() > 0 {
        let dl = s.drop_last();
        lemma_by_author_empty(dl, author);
        assert(forall|i: int| 0 <= i < dl.len() ==> dl[i] == s[i]);
        if s.last().0@ == author {
            assert(s[s.len() - 1].0@ == author);
        } else {
            if has_author(s, author) {
                let w = choose|w: int| 0 <= w < s.len() && s[w].0@ == author;
                assert(dl[w].0@ == author);
            }
        }
    }
}

/// Removing an author really removes every entry by that author.
proof fn lemma_without_author_not_has(s: Seq<(String, Review)>, author: Seq<char>)
    ensures
        !has_author(without_author(s, author), author),
    decreases s.len(),
{
    if s.len() > 0 {
        let dl = s.drop_last();
        lemma_without_author_not_has(dl, author);
        if s.last().0@ != author {
            let res = without_author(dl, author).push(s.last());
            assert forall|i: int| 0 <= i < res.len() implies res[i].0@ != author by {
                if i < res.len() - 1 {
                    assert(res[i] == without_author(dl, author)[i]);
                }
            }
        }
    }
}

/// Removing one author introduces no author that was not already there.
proof fn lemma_without_author_has(s: Seq<(String, Review)>, author: Seq<char>, x: Seq<char>)
    ensures
        has_author(without_author(s, author), x) ==> has_author(s, x),
    decreases s.len(),
{
    if s.len() > 0 {
        let dl = s.drop_last();
        lemma_without_author_has(dl, author, x);
        assert(forall|i: int| 0 <= i < dl.len() ==> dl[i] == s[i]);
        if s.last().0@ != author {
            let base = without_author(dl, author);
            if has_author(base.push(s.last()), x) {
                let w = choose|w: int|
                    0 <= w < base.push(s.last()).len() && base.push(s.last())[w].0@ == x;
                if w < base.len() {
                    assert(base[w].0@ == x);
                } else {
                    assert(s[s.len() - 1].0@ == x);
                }
            }
        }
    }
}

/// Deleting an author preserves the ledger invariant.
pub proof fn lemma_without_author_wf(s: Seq<(String, Review)>, author: Seq<char>)
    requires
        ledger_wf(s),
    ensures
        ledger_wf(without_author(s, author)),
    decreases s.len(),
{
    if s.len() > 0 {
        let dl = s.drop_last();
        assert(forall|i: int| 0 <= i < dl.len() ==> dl[i] == s[i]);
        assert(ledger_wf(dl));
        lemma_without_author_wf(dl, author);
        if s.last().0@ != author {
            let base = without_author(dl, author);
            let res = base.push(s.last());
            assert forall|i: int, j: int|
                0 <= i < j < res.len() && res[i].0@ == res[j].0@ implies res[i].0@ == anon_name()
                by {
                if j < res.len() - 1 {
                    assert(res[i] == base[i] && res[j] == base[j]);
                } else {
                    assert(res[i] == base[i]);
                    assert(has_author(base, s.last().0@));
                    lemma_without_author_has(dl, author, s.last().0@);
                    let m = choose|m: int| 0 <= m < dl.len() && dl[m].0@ == s.last().0@;
                    assert(s[m].0@ == s[s.len() - 1].0@);
                }
            }
        }
    }
}

/// A review `add` is first-write-wins: when a non-anonymous author
/// already has an entry, adding again changes nothing, whatever the new
/// review says.
pub proof fn lemma_review_add_first_write_wins(
    s: Seq<(String, Review)>,
    user: String,
    review: Review,
)
    requires
        user@ != anon_name(),
        has_author(s, user@),
    ensures
        review_add(s, user, review) == s,
{
}

/// Adding a review preserves the ledger invariant, so after any sequence
/// of adds a non-anonymous author still has at most one entry.
pub proof fn lemma_review_add_preserves_wf(s: Seq<(String, Review)>, user: String, review: Review)
    requires
        ledger_wf(s),
    ensures
        ledger_wf(review_add(s, user, review)),
{
    let res = review_add(s, user, review);
    if user@ == anon_name() || !has_author(s, user@) {
        assert forall|i: int, j: int|
            0 <= i < j < res.len() && res[i].0@ == res[j].0@ implies res[i].0@ == anon_name() by {
            if j == res.len() - 1 {
                assert(res[i] == s[i]);
                if user@ != anon_name() {
                    assert(has_author(s, user@));
                }
            } else {
                assert(res[i] == s[i] && res[j] == s[j]);
            }
        }
    }
}

/// Deleting a review preserves the ledger invariant.
pub proof fn lemma_review_delete_preserves_wf(s: Seq<(String, Review)>, author: Seq<char>)
    requires
        ledger_wf(s),
    ensures
        ledger_wf(review_delete(s, author)),
{
    if author != anon_name() {
        lemma_without_author_wf(s, author);
    }
}

/// Updating a review preserves the ledger invariant.
pub proof fn lemma_review_update_preserves_wf(
    s: Seq<(String, Review)>,
    user: String,
    review: Review,
)
    requires
        ledger_wf(s),
    ensures
        ledger_wf(review_update(s, user, review)),
{
    if user@ != anon_name() {
        lemma_without_author_wf(s, user@);
        lemma_without_author_not_has(s, user@);
        let base = without_author(s, user@);
        let res = base.push((user, review));
        assert forall|i: int, j: int|
            0 <= i < j < res.len() && res[i].0@ == res[j].0@ implies res[i].0@ == anon_name() by {
            if j == res.len() - 1 {
                assert(res[i] == base[i]);
                assert(has_author(base, user@));
            } else {
                assert(res[i] == base[i] && res[j] == base[j]);
            }
        }
    }
}

/// Under the ledger invariant a non-anonymous author has at most one
/// entry.
pub proof fn lemma_wf_at_most_one(s: Seq<(String, Review)>, author: Seq<char>)
    requires
        ledger_wf(s),
        author != anon_name(),
    ensures
        by_author(s, author).len() <= 1,
    decreases s.len(),
{
    if s.len() > 0 {
        let dl = s.drop_last();
        assert(forall|i: int| 0 <= i < dl.len() ==> dl[i] == s[i]);
        assert(ledger_wf(dl));
        lemma_wf_at_most_one(dl, author);
        if s.last().0@ == author {
            assert(!has_author(dl, author)) by {
                if has_author(dl, author) {
                    let m = choose|m: int| 0 <= m < dl.len() && dl[m].0@ == author;
                    assert(s[m].0@ == s[s.len() - 1].0@);
                }
            }
            lemma_by_author_empty(dl, author);
        }
    }
}

/// An update always replaces content: afterwards the author's entries
/// are exactly the one new review, whatever the ledger held before and
/// whether or not earlier adds were declined.
pub proof fn lemma_review_update_replaces(s: Seq<(String, Review)>, user: String, review: Review)
    requires
        user@ != anon_name(),
    ensures
        by_author(review_update(s, user, review), user@) == seq![(user, review)],
{
    let base = without_author(s, user@);
    lemma_push_drop_last(base, (user, review));
    lemma_without_author_not_has(s, user@);
    lemma_by_author_empty(base, user@);
    assert(by_author(base, user@) =~= Seq::<(String, Review)>::empty());
    assert(by_author(base.push((user, review)), user@) =~= seq![(user, review)]);
}

/// Insertion adds exactly the new entry; everything else comes from the
/// source sequence.
proof fn lemma_insert_by_rating_elems(s: Seq<(String, Review)>, e: (String, Review))
    ensures
        insert_by_rating(s, e).len() == s.len() + 1,
        forall|i: int|
            0 <= i < insert_by_rating(s, e).len() ==> (#[trigger] insert_by_rating(s, e)[i] == e
                || s.contains(insert_by_rating(s, e)[i])),
    decreases s.len(),
{
    if s.len() > 0 && s.first().1.rating <= e.1.rating {
        let df = s.drop_first();
        lemma_insert_by_rating_elems(df, e);
        let t = insert_by_rating(df, e);
        let res = seq![s.first()] + t;
        assert forall|i: int|
            0 <= i < res.len() implies (#[trigger] res[i] == e || s.contains(res[i])) by {
            if i == 0 {
                assert(s[0] == s.first());
            } else {
                assert(res[i] == t[i - 1]);
                if t[i - 1] != e {
                    let m = choose|m: int| 0 <= m < df.len() && df[m] == t[i - 1];
                    assert(s[m + 1] == t[i - 1]);
                }
            }
        }
    }
}

/// Inserting into a sorted sequence keeps it sorted.
proof fn lemma_insert_by_rating_sorted(s: Seq<(String, Review)>, e: (String, Review))
    requires
        sorted_by_rating(s),
    ensures
        sorted_by_rating(insert_by_rating(s, e)),
    decreases s.len(),
{
    if s.len() == 0 {
    } else if s.first().1.rating <= e.1.rating {
        let df = s.drop_first();
        assert(forall|i: int| 0 <= i < df.len() ==> df[i] == s[i + 1]);
        lemma_insert_by_rating_sorted(df, e);
        lemma_insert_by_rating_elems(df, e);
        let t = insert_by_rating(df, e);
        let res = seq![s.first()] + t;
        assert forall|i: int, j: int|
            0 <= i < j < res.len() implies res[i].1.rating <= res[j].1.rating by {
            if i == 0 {
                assert(res[j] == t[j - 1]);
                if t[j - 1] != e {
                    let m = choose|m: int| 0 <= m < df.len() && df[m] == t[j - 1];
                    assert(s[0].1.rating <= s[m + 1].1.rating);
                }
            } else {
                assert(res[i] == t[i - 1] && res[j] == t[j - 1]);
            }
        }
    } else {
        let res = seq![e] + s;
        assert forall|i: int, j: int|
            0 <= i < j < res.len() implies res[i].1.rating <= res[j].1.rating by {
            if i == 0 {
                assert(res[j] == s[j - 1]);
                if j > 1 {
                    assert(s[0].1.rating <= s[j - 1].1.rating);
                }
            } else {
                assert(res[i] == s[i - 1] && res[j] == s[j - 1]);
            }
        }
    }
}

/// What listing an author's reviews returns is sorted ascending by
/// rating.
pub proof fn lemma_rating_sort_sorted(s: Seq<(String, Review)>)
    ensures
        sorted_by_rating(rating_sort(s)),
    decreases s.len(),
{
    if s.len() > 0 {
        lemma_rating_sort_sorted(s.drop_last());
        lemma_insert_by_rating_sorted(rating_sort(s.drop_last()), s.last());
    }
}

/// How the rating filter treats a sequence extended at the front.
proof fn lemma_by_rating_cons(x: (String, Review), s: Seq<(String, Review)>, k: int)
    ensures
        by_rating(seq![x] + s, k) == if x.1.rating == k {
            seq![x] + by_rating(s, k)
        } else {
            by_rating(s, k)
        },
    decreases s.len(),
{
    let c = seq![x] + s;
    if s.len() == 0 {
        assert(c.drop_last() =~= Seq::<(String, Review)>::empty());
        assert(c.last() == x);
        assert(by_rating(c.drop_last(), k) =~= Seq::<(String, Review)>::empty());
        assert(by_rating(s, k) =~= Seq::<(String, Review)>::empty());
        if x.1.rating == k {
            assert(by_rating(c, k) == by_rating(c.drop_last(), k).push(x));
            assert(Seq::<(String, Review)>::empty().push(x) =~= seq![x] + Seq::<
                (String, Review),
            >::empty());
        }
    } else {
        lemma_by_rating_cons(x, s.drop_last(), k);
        assert(c.drop_last() =~= seq![x] + s.drop_last());
        assert(c.last() == s.last());
        if x.1.rating == k {
            if s.last().1.rating == k {
                assert((seq![x] + by_rating(s.drop_last(), k)).push(s.last()) =~= seq![x]
                    + by_rating(s.drop_last(), k).push(s.last()));
            }
        }
    }
}

/// A sequence with no entry of rating `k` filters to nothing at `k`.
proof fn lemma_by_rating_none(s: Seq<(String, Review)>, k: int)
    requires
        forall|i: int| 0 <= i < s.len() ==> s[i].1.rating != k,
    ensures
        by_rating(s, k) == Seq::<(String, Review)>::empty(),
    decreases s.len(),
{
    if s.len() == 0 {
        assert(by_rating(s, k) =~= Seq::<(String, Review)>::empty());
    } else {
        assert(forall|i: int| 0 <= i < s.len() - 1 ==> s.drop_last()[i] == s[i]);
        lemma_by_rating_none(s.drop_last(), k);
        assert(s[s.len() - 1] == s.last());
    }
}

/// Inserting into a sorted sequence moves the new entry past every tie,
/// so each rating class grows only at its back.
proof fn lemma_insert_by_rating_stable(s: Seq<(String, Review)>, e: (String, Review), k: int)
    requires
        sorted_by_rating(s),
    ensures
        by_rating(insert_by_rating(s, e), k) == if e.1.rating == k {
            by_rating(s, k).push(e)
        } else {
            by_rating(s, k)
        },
    decreases s.len(),
{
    if s.len() == 0 {
        lemma_by_rating_cons(e, Seq::empty(), k);
        assert(seq![e] + Seq::<(String, Review)>::empty() =~= seq![e]);
        assert(insert_by_rating(s, e) == seq![e]);
        if e.1.rating == k {
            assert(seq![e] + by_rating(s, k) =~= by_rating(s, k).push(e));
        }
    } else if s.first().1.rating <= e.1.rating {
        let df = s.drop_first();
        assert(forall|i: int| 0 <= i < df.len() ==> df[i] == s[i + 1]);
        lemma_insert_by_rating_stable(df, e, k);
        let t = insert_by_rating(df, e);
        lemma_by_rating_cons(s.first(), t, k);
        lemma_by_rating_cons(s.first(), df, k);
        assert(seq![s.first()] + df =~= s);
        if e.1.rating == k && s.first().1.rating == k {
            assert(seq![s.first()] + by_rating(df, k).push(e) =~= (seq![s.first()] + by_rating(
                df,
                k,
            )).push(e));
        }
    } else {
        lemma_by_rating_cons(e, s, k);
        if e.1.rating == k {
            assert forall|i: int| 0 <= i < s.len() implies s[i].1.rating != k by {
                if i > 0 {
                    assert(s[0].1.rating <= s[i].1.rating);
                }
            }
            lemma_by_rating_none(s, k);
            assert(seq![e] + by_rating(s, k) =~= by_rating(s, k).push(e));
        }
    }
}

/// The sort is stable: for every rating, the entries of that rating come
/// out in exactly their ledger order.
pub proof fn lemma_rating_sort_stable(s: Seq<(String, Review)>, k: int)
    ensures
        by_rating(rating_sort(s), k) == by_rating(s, k),
    decreases s.len(),
{
    if s.len() > 0 {
        let dl = s.drop_last();
        lemma_rating_sort_stable(dl, k);
        lemma_rating_sort_sorted(dl);
        lemma_insert_by_rating_stable(rating_sort(dl), s.last(), k);
        assert(s[s.len() - 1] == s.last());
    }
}

/// Anonymous entries accumulate without bound and are immune to delete
/// and update by name.
pub proof fn lemma_anonymous_immune(s: Seq<(String, Review)>, user: String, review: Review)
    requires
        user@ == anon_name(),
    ensures
        review_add(s, user, review) == s.push((user, review)),
        review_delete(s, user@) == s,
        review_update(s, user, review) == s,
{
}

} // verus!
