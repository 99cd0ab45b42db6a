//! The plain record types of the directory: a business listing, its
//! category, a single review, and a single photo. All of them clone to
//! spec-equal values, so the ledgers and the store can copy entries
//! without losing anything the contracts speak about.

use vstd::prelude::*;

use crate::outcome::LedgerOutcome;
use crate::outcome::MutationOutcome;
use crate::photos::photo_delete;
use crate::photos::photo_update;
use crate::photos::without_photo_author;
use crate::reviews::anon_name;
use crate::reviews::by_author;
use crate::reviews::has_author;
use crate::reviews::ledger_wf;
use crate::reviews::rating_sort;
use crate::reviews::review_add;
use crate::reviews::review_delete;
use crate::reviews::review_update;
use crate::reviews::UserReviews;
use crate::seq_facts::lemma_push_drop_last;
use crate::seq_facts::lemma_take_succ;

verus! {

/// A business listing. The `name` field is the identity key in the store;
/// everything else is descriptive payload.
pub struct Business {
    pub name: String,
    pub street_addr: String,
    pub city: String,
    pub state: String,
    pub zip: usize,
    pub phone_num: usize,
    pub category: Category,
    pub email: Option<String>,
    pub website: Option<String>,
}

/// The category a business files itself under.
pub struct Category {
    pub main_category: String,
    pub subcategory: String,
}

/// One user review: a rating, a price indication, and an optional body.
pub struct Review {
    pub rating: usize,
    pub dollar_signs: usize,
    pub review: Option<String>,
}

/// One photo: the posting user, a numeric identifier (unique only together
/// with the user name within one business), a URL, and an optional caption.
pub struct Photo {
    pub user_name: String,
    pub photo_id: usize,
    pub photo_url: String,
    pub photo_caption: Option<String>,
}

/// Clones an optional string to a spec-equal value.
fn clone_opt_string(s: &Option<String>) -> (r: Option<String>)
    ensures
        r == *s,
{
    match s {
        Some(t) => Some(t.clone()),
        None => None,
    }
}

impl Clone for Category {
    fn clone(&self) -> (r: Self)
        ensures
            r == *self,
    {
        Category {
            main_category: self.main_category.clone(),
            subcategory: self.subcategory.clone(),
        }
    }
}

impl Clone for Business {
    fn clone(&self) -> (r: Self)
        ensures
            r == *self,
    {
        Business {
            name: self.name.clone(),
            street_addr: self.street_addr.clone(),
            city: self.city.clone(),
            state: self.state.clone(),
            zip: self.zip,
            phone_num: self.phone_num,
            category: self.category.clone(),
            email: clone_opt_string(&self.email),
            website: clone_opt_string(&self.website),
        }
    }
}

impl Clone for Review {
    fn clone(&self) -> (r: Self)
        ensures
            r == *self,
    {
        Review {
            rating: self.rating,
            dollar_signs: self.dollar_signs,
            review: clone_opt_string(&self.review),
        }
    }
}

impl Clone for Photo {
    fn clone(&self) -> (r: Self)
        ensures
            r == *self,
    {
        Photo {
            user_name: self.user_name.clone(),
            photo_id: self.photo_id,
            photo_url: self.photo_url.clone(),
            photo_caption: clone_opt_string(&self.photo_caption),
        }
    }
}

/// Clones a photo ledger to a spec-equal sequence of photos.
fn clone_photos(v: &Vec<Photo>) -> (r: Vec<Photo>)
    ensures
        r@ == v@,
{
    let mut out: Vec<Photo> = Vec::new();
    let mut i: usize = 0;
    while i < v.len()
        invariant
            i <= v.len(),
            out@ == v@.take(i as int),
        decreases v.len() - i,
    {
        proof {
            lemma_take_succ(v@, i as int);
        }
        out.push(v[i].clone());
        i += 1;
    }
    proof {
        assert(v@.take(v@.len() as int) =~= v@);
    }
    out
}

/// The abstract value of one stored business record: the listing itself,
/// and the contents of the two optional ledgers.
#[verifier::ext_equal]
pub ghost struct RecordView {
    pub business: Business,
    pub reviews: Option<Seq<(String, Review)>>,
    pub photos: Option<Seq<Photo>>,
}

/// The record invariant: if a review ledger exists, it satisfies the
/// ledger invariant (at most one entry per non-anonymous author).
pub open spec fn record_wf(r: RecordView) -> bool {
    match r.reviews {
        Some(lg) => ledger_wf(lg),
        None => true,
    }
}

/// What adding a review does to a record: with no ledger the record is
/// unchanged, otherwise the ledger takes the add.
pub open spec fn record_add_review(r: RecordView, user: String, review: Review) -> RecordView {
    match r.reviews {
        None => r,
        Some(lg) => RecordView {
            business: r.business,
            reviews: Some(review_add(lg, user, review)),
            photos: r.photos,
        },
    }
}

/// The outcome adding a review reports.
pub open spec fn record_add_review_outcome(
    r: RecordView,
    user: String,
    review: Review,
) -> MutationOutcome {
    match r.reviews {
        None => MutationOutcome::Absent,
        Some(lg) => if user@ == anon_name() || !has_author(lg, user@) {
            MutationOutcome::Applied
        } else {
            MutationOutcome::Rejected
        },
    }
}

/// What deleting a review does to a record.
pub open spec fn record_delete_review(r: RecordView, author: Seq<char>) -> RecordView {
    match r.reviews {
        None => r,
        Some(lg) => RecordView {
            business: r.business,
            reviews: Some(review_delete(lg, author)),
            photos: r.photos,
        },
    }
}

/// The outcome deleting a review reports.
pub open spec fn record_delete_review_outcome(r: RecordView, author: Seq<char>) -> MutationOutcome {
    match r.reviews {
        None => MutationOutcome::Absent,
        Some(lg) => if author == anon_name() {
            MutationOutcome::Rejected
        } else {
            MutationOutcome::Applied
        },
    }
}

/// What updating a review does to a record.
pub open spec fn record_update_review(r: RecordView, user: String, review: Review) -> RecordView {
    match r.reviews {
        None => r,
        Some(lg) => RecordView {
            business: r.business,
            reviews: Some(review_update(lg, user, review)),
            photos: r.photos,
        },
    }
}

/// The outcome updating a review reports.
pub open spec fn record_update_review_outcome(
    r: RecordView,
    user: String,
) -> MutationOutcome {
    match r.reviews {
        None => MutationOutcome::Absent,
        Some(lg) => if user@ == anon_name() {
            MutationOutcome::Rejected
        } else {
            MutationOutcome::Applied
        },
    }
}

/// What adding a photo does to a record: appends unconditionally when a
/// photo ledger exists.
pub open spec fn record_add_photo(r: RecordView, photo: Photo) -> RecordView {
    match r.photos {
        None => r,
        Some(ph) => RecordView {
            business: r.business,
            reviews: r.reviews,
            photos: Some(ph.push(photo)),
        },
    }
}

/// What deleting a photo does to a record.
pub open spec fn record_delete_photo(
    r: RecordView,
    author: Seq<char>,
    photo_id: usize,
) -> RecordView {
    match r.photos {
        None => r,
        Some(ph) => RecordView {
            business: r.business,
            reviews: r.reviews,
            photos: Some(photo_delete(ph, author, photo_id)),
        },
    }
}

/// What updating a photo does to a record.
pub open spec fn record_update_photo(r: RecordView, author: Seq<char>, photo: Photo) -> RecordView {
    match r.photos {
        None => r,
        Some(ph) => RecordView {
            business: r.business,
            reviews: r.reviews,
            photos: Some(photo_update(ph, author, photo)),
        },
    }
}

/// The outcome a photo mutation reports: photos have no decline policy,
/// so the only question is whether a photo ledger exists.
pub open spec fn record_photo_outcome(r: RecordView) -> MutationOutcome {
    match r.photos {
        None => MutationOutcome::Absent,
        Some(ph) => MutationOutcome::Applied,
    }
}

/// Adding a review preserves the record invariant.
pub proof fn lemma_record_add_review_wf(r: RecordView, user: String, review: Review)
    requires
        record_wf(r),
    ensures
        record_wf(record_add_review(r, user, review)),
{
    match r.reviews {
        Some(lg) => crate::reviews::lemma_review_add_preserves_wf(lg, user, review),
        None => {},
    }
}

/// Deleting a review preserves the record invariant.
pub proof fn lemma_record_delete_review_wf(r: RecordView, author: Seq<char>)
    requires
        record_wf(r),
    ensures
        record_wf(record_delete_review(r, author)),
{
    match r.reviews {
        Some(lg) => crate::reviews::lemma_review_delete_preserves_wf(lg, author),
        None => {},
    }
}

/// Updating a review preserves the record invariant.
pub proof fn lemma_record_update_review_wf(r: RecordView, user: String, review: Review)
    requires
        record_wf(r),
    ensures
        record_wf(record_update_review(r, user, review)),
{
    match r.reviews {
        Some(lg) => crate::reviews::lemma_review_update_preserves_wf(lg, user, review),
        None => {},
    }
}

/// One stored business record: the listing plus its optional review and
/// photo ledgers. Ledgers exist only if provided at creation; a mutation
/// aimed at a missing ledger reports `Absent` instead of creating one.
pub struct BusinessResponse {
    pub business: Business,
    pub reviews: Option<UserReviews>,
    pub photos: Option<Vec<Photo>>,
}

impl View for BusinessResponse {
    type V = RecordView;

    open spec fn view(&self) -> RecordView {
        RecordView {
            business: self.business,
            reviews: match self.reviews {
                Some(lg) => Some(lg@),
                None => None,
            },
            photos: match self.photos {
                Some(ph) => Some(ph@),
                None => None,
            },
        }
    }
}

impl BusinessResponse {
    /// Builds a record from a listing and its optional ledgers.
    pub fn new(business: Business, reviews: Option<UserReviews>, photos: Option<Vec<Photo>>) -> (r:
        BusinessResponse)
        ensures
            r.business == business,
            r.reviews == reviews,
            r.photos == photos,
    {
        BusinessResponse { business, reviews, photos }
    }

    /// Adds a review through the record, reporting whether the ledger is
    /// absent, the add was applied, or the first-write-wins policy
    /// declined it.
    pub fn add_business_review(&mut self, user: String, review: Review) -> (r: MutationOutcome)
        ensures
            final(self)@ == record_add_review(old(self)@, user, review),
            r == record_add_review_outcome(old(self)@, user, review),
    {
        match &mut self.reviews {
            None => MutationOutcome::Absent,
            Some(lg) => match lg.add_review(user, review) {
                LedgerOutcome::Applied => MutationOutcome::Applied,
                LedgerOutcome::Rejected => MutationOutcome::Rejected,
            },
        }
    }

    /// Deletes a non-anonymous author's review through the record.
    pub fn delete_business_review(&mut self, user: String) -> (r: MutationOutcome)
        ensures
            final(self)@ == record_delete_review(old(self)@, user@),
            r == record_delete_review_outcome(old(self)@, user@),
    {
        match &mut self.reviews {
            None => MutationOutcome::Absent,
            Some(lg) => match lg.delete_review(user) {
                LedgerOutcome::Applied => MutationOutcome::Applied,
                LedgerOutcome::Rejected => MutationOutcome::Rejected,
            },
        }
    }

    /// Replaces a non-anonymous author's review through the record.
    pub fn update_business_review(&mut self, user: String, review: Review) -> (r: MutationOutcome)
        ensures
            final(self)@ == record_update_review(old(self)@, user, review),
            r == record_update_review_outcome(old(self)@, user),
    {
        match &mut self.reviews {
            None => MutationOutcome::Absent,
            Some(lg) => match lg.update_review(user, review) {
                LedgerOutcome::Applied => MutationOutcome::Applied,
                LedgerOutcome::Rejected => MutationOutcome::Rejected,
            },
        }
    }

    /// The whole review ledger, if the record has one.
    pub fn get_business_reviews(&self) -> (r: Option<&UserReviews>)
        ensures
            match r {
                Some(lg) => self.reviews matches Some(l) && l == *lg,
                None => self.reviews is None,
            },
    {
        match &self.reviews {
            Some(lg) => Some(lg),
            None => None,
        }
    }

    /// One author's reviews, sorted ascending by rating with a stable
    /// sort; `None` when the record has no review ledger.
    pub fn show_business_reviews(&self, user_name: String) -> (r: Option<Vec<(String, Review)>>)
        ensures
            match r {
                Some(v) => self@.reviews matches Some(lg) && v@ == rating_sort(
                    by_author(lg, user_name@),
                ),
                None => self@.reviews is None,
            },
    {
        match &self.reviews {
            Some(lg) => Some(lg.list_by_author(&user_name)),
            None => None,
        }
    }

    /// Appends a photo; the photo ledger accepts duplicates freely. The
    /// path author is not consulted: the photo carries its own author.
    pub fn add_business_photo(&mut self, _user_name: String, photo: Photo) -> (r: MutationOutcome)
        ensures
            final(self)@ == record_add_photo(old(self)@, photo),
            r == record_photo_outcome(old(self)@),
    {
        match &mut self.photos {
            None => MutationOutcome::Absent,
            Some(ph) => {
                ph.push(photo);
                MutationOutcome::Applied
            },
        }
    }

    /// Deletes the photos whose author and identifier both match the
    /// request.
    pub fn delete_business_photo(&mut self, user_name: String, photo_id: usize) -> (r:
        MutationOutcome)
        ensures
            final(self)@ == record_delete_photo(old(self)@, user_name@, photo_id),
            r == record_photo_outcome(old(self)@),
    {
        match &mut self.photos {
            None => MutationOutcome::Absent,
            Some(ph) => {
                let mut kept: Vec<Photo> = Vec::new();
                let mut i: usize = 0;
                while i < ph.len()
                    invariant
                        i <= ph.len(),
                        kept@ == photo_delete(ph@.take(i as int), user_name@, photo_id),
                    decreases ph.len() - i,
                {
                    proof {
                        lemma_take_succ(ph@, i as int);
                        lemma_push_drop_last(ph@.take(i as int), ph@[i as int]);
                    }
                    let p = &ph[i];
                    if !(p.user_name == user_name && p.photo_id == photo_id) {
                        kept.push(p.clone());
                    }
                    i += 1;
                }
                proof {
                    assert(ph@.take(ph@.len() as int) =~= ph@);
                }
                *ph = kept;
                MutationOutcome::Applied
            },
        }
    }

    /// Replaces an author's photos with the one new photo: last-write-
    /// wins per author.
    pub fn update_business_photo(&mut self, user_name: String, photo: Photo) -> (r:
        MutationOutcome)
        ensures
            final(self)@ == record_update_photo(old(self)@, user_name@, photo),
            r == record_photo_outcome(old(self)@),
    {
        match &mut self.photos {
            None => MutationOutcome::Absent,
            Some(ph) => {
                let mut kept: Vec<Photo> = Vec::new();
                let mut i: usize = 0;
                while i < ph.len()
                    invariant
                        i <= ph.len(),
                        kept@ == without_photo_author(ph@.take(i as int), user_name@),
                    decreases ph.len() - i,
                {
                    proof {
                        lemma_take_succ(ph@, i as int);
                        lemma_push_drop_last(ph@.take(i as int), ph@[i as int]);
                    }
                    let p = &ph[i];
                    if !(p.user_name == user_name) {
                        kept.push(p.clone());
                    }
                    i += 1;
                }
                proof {
                    assert(ph@.take(ph@.len() as int) =~= ph@);
                }
                kept.push(photo);
                *ph = kept;
                MutationOutcome::Applied
            },
        }
    }
}

impl Clone for BusinessResponse {
    fn clone(&self) -> (r: Self)
        ensures
            r@ == self@,
    {
        let reviews = match &self.reviews {
            Some(lg) => Some(lg.clone()),
            None => None,
        };
        let photos = match &self.photos {
            Some(ph) => Some(clone_photos(ph)),
            None => None,
        };
        BusinessResponse { business: self.business.clone(), reviews, photos }
    }
}

} // verus!
