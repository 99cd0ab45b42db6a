//! Tests for the review ledger: first-write-wins adds, delete-then-add
//! updates, the anonymous-author exemption, and the sorted listing.

use belp::business::{Business, BusinessResponse, Category, Review};
use belp::outcome::{LedgerOutcome, MutationOutcome, StoreOutcome};
use belp::reviews::{normalize_author, UserReviews};
use belp::store::Store;

fn mk_review(rating: usize, body: &str) -> Review {
    Review {
        rating,
        dollar_signs: 1,
        review: Some(body.to_owned()),
    }
}

fn mk_business(name: &str) -> Business {
    Business {
        name: name.to_owned(),
        street_addr: "1 Main St".to_owned(),
        city: "Town".to_owned(),
        state: "ST".to_owned(),
        zip: 12345,
        phone_num: 5551234,
        category: Category {
            main_category: "food".to_owned(),
            subcategory: "cafe".to_owned(),
        },
        email: None,
        website: None,
    }
}

#[test]
fn second_add_by_same_author_is_first_write_wins() {
    let mut lg = UserReviews::empty();
    assert_eq!(
        lg.add_review("Alice".to_owned(), mk_review(5, "great")),
        LedgerOutcome::Applied
    );
    assert_eq!(
        lg.add_review("Alice".to_owned(), mk_review(1, "awful")),
        LedgerOutcome::Rejected
    );
    assert_eq!(lg.entries().len(), 1);
    let stored = lg.get_review("Alice".to_owned()).unwrap();
    assert_eq!(stored.rating, 5);
    assert_eq!(stored.review.as_deref(), Some("great"));
}

#[test]
fn add_review_scenario_through_store() {
    let mut st = Store::new();
    let rec = BusinessResponse::new(mk_business("Cafe"), Some(UserReviews::empty()), None);
    st.insert("Cafe".to_owned(), rec);
    let name = "Cafe".to_owned();
    assert_eq!(
        st.add_review(&name, "Alice".to_owned(), mk_review(5, "first")),
        StoreOutcome::Applied
    );
    assert_eq!(
        st.add_review(&name, "Alice".to_owned(), mk_review(1, "second")),
        StoreOutcome::Rejected
    );
    let rec = st.get(&name).unwrap();
    let lg = rec.get_business_reviews().unwrap();
    assert_eq!(lg.entries().len(), 1);
    assert_eq!(lg.entries()[0].1.rating, 5);
}

#[test]
fn update_review_replaces_content() {
    let mut st = Store::new();
    let rec = BusinessResponse::new(mk_business("Cafe"), Some(UserReviews::empty()), None);
    st.insert("Cafe".to_owned(), rec);
    let name = "Cafe".to_owned();
    st.add_review(&name, "Alice".to_owned(), mk_review(5, "first"));
    st.add_review(&name, "Alice".to_owned(), mk_review(3, "rejected"));
    assert_eq!(
        st.update_review(&name, "Alice".to_owned(), mk_review(1, "updated")),
        StoreOutcome::Applied
    );
    let rec = st.get(&name).unwrap();
    let lg = rec.get_business_reviews().unwrap();
    assert_eq!(lg.entries().len(), 1);
    assert_eq!(lg.entries()[0].1.rating, 1);
    assert_eq!(lg.entries()[0].1.review.as_deref(), Some("updated"));
}

#[test]
fn update_succeeds_even_without_prior_entry() {
    let mut lg = UserReviews::empty();
    assert_eq!(
        lg.update_review("Bob".to_owned(), mk_review(2, "ok")),
        LedgerOutcome::Applied
    );
    assert_eq!(lg.entries().len(), 1);
    assert_eq!(lg.get_review("Bob".to_owned()).unwrap().rating, 2);
}

#[test]
fn anonymous_reviews_accumulate() {
    let mut lg = UserReviews::empty();
    assert_eq!(
        lg.add_review("Anonymous".to_owned(), mk_review(5, "one")),
        LedgerOutcome::Applied
    );
    assert_eq!(
        lg.add_review("Anonymous".to_owned(), mk_review(4, "two")),
        LedgerOutcome::Applied
    );
    assert_eq!(
        lg.add_review("Anonymous".to_owned(), mk_review(3, "three")),
        LedgerOutcome::Applied
    );
    assert_eq!(lg.entries().len(), 3);
}

#[test]
fn deleting_anonymous_is_a_no_op() {
    let mut lg = UserReviews::new("Anonymous".to_owned(), mk_review(5, "one"));
    lg.add_review("Anonymous".to_owned(), mk_review(4, "two"));
    assert_eq!(lg.entries().len(), 2);
    assert_eq!(
        lg.delete_review("Anonymous".to_owned()),
        LedgerOutcome::Rejected
    );
    assert_eq!(lg.entries().len(), 2);
    assert_eq!(
        lg.update_review("Anonymous".to_owned(), mk_review(1, "new")),
        LedgerOutcome::Rejected
    );
    assert_eq!(lg.entries().len(), 2);
}

#[test]
fn delete_anonymous_scenario_through_store() {
    let mut st = Store::new();
    let lg = UserReviews::new("Anonymous".to_owned(), mk_review(5, "one"));
    let mut rec = BusinessResponse::new(mk_business("Cafe"), Some(lg), None);
    assert_eq!(
        rec.add_business_review("Anonymous".to_owned(), mk_review(4, "two")),
        MutationOutcome::Applied
    );
    st.insert("Cafe".to_owned(), rec);
    let name = "Cafe".to_owned();
    assert_eq!(
        st.delete_review(&name, "Anonymous".to_owned()),
        StoreOutcome::Rejected
    );
    let rec = st.get(&name).unwrap();
    assert_eq!(rec.get_business_reviews().unwrap().entries().len(), 2);
}

#[test]
fn delete_removes_only_named_author() {
    let mut lg = UserReviews::empty();
    lg.add_review("Alice".to_owned(), mk_review(5, "a"));
    lg.add_review("Bob".to_owned(), mk_review(4, "b"));
    assert_eq!(lg.delete_review("Alice".to_owned()), LedgerOutcome::Applied);
    assert_eq!(lg.entries().len(), 1);
    assert_eq!(lg.entries()[0].0, "Bob");
    assert!(lg.get_review("Alice".to_owned()).is_none());
}

#[test]
fn get_review_returns_first_match() {
    let mut lg = UserReviews::empty();
    lg.add_review("Anonymous".to_owned(), mk_review(5, "one"));
    lg.add_review("Anonymous".to_owned(), mk_review(2, "two"));
    let found = lg.get_review("Anonymous".to_owned()).unwrap();
    assert_eq!(found.rating, 5);
    assert!(lg.get_review("Nobody".to_owned()).is_none());
}

#[test]
fn listing_sorts_ascending_and_keeps_tie_order() {
    let mut lg = UserReviews::empty();
    lg.add_review("Anonymous".to_owned(), mk_review(3, "tie-one"));
    lg.add_review("Anonymous".to_owned(), mk_review(1, "low"));
    lg.add_review("Anonymous".to_owned(), mk_review(3, "tie-two"));
    lg.add_review("Bob".to_owned(), mk_review(0, "other author"));
    let listed = lg.list_by_author(&"Anonymous".to_owned());
    assert_eq!(listed.len(), 3);
    assert_eq!(listed[0].1.rating, 1);
    assert_eq!(listed[1].1.rating, 3);
    assert_eq!(listed[1].1.review.as_deref(), Some("tie-one"));
    assert_eq!(listed[2].1.rating, 3);
    assert_eq!(listed[2].1.review.as_deref(), Some("tie-two"));
}

#[test]
fn show_business_reviews_filters_and_sorts() {
    let mut lg = UserReviews::empty();
    lg.add_review("Alice".to_owned(), mk_review(4, "a"));
    lg.add_review("Bob".to_owned(), mk_review(2, "b"));
    let rec = BusinessResponse::new(mk_business("Cafe"), Some(lg), None);
    let listed = rec.show_business_reviews("Alice".to_owned()).unwrap();
    assert_eq!(listed.len(), 1);
    assert_eq!(listed[0].0, "Alice");
    assert_eq!(listed[0].1.rating, 4);
    let bare = BusinessResponse::new(mk_business("Bare"), None, None);
    assert!(bare.show_business_reviews("Alice".to_owned()).is_none());
}

#[test]
fn empty_author_normalizes_to_anonymous() {
    assert_eq!(normalize_author(String::new()), "Anonymous");
    assert_eq!(normalize_author("Carol".to_owned()), "Carol");
}

#[test]
fn ledger_new_holds_single_entry() {
    let lg = UserReviews::new("Alice".to_owned(), mk_review(5, "first"));
    assert_eq!(lg.entries().len(), 1);
    assert_eq!(lg.entries()[0].0, "Alice");
    assert_eq!(lg.entries()[0].1.rating, 5);
}
