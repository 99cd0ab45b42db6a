//! Tests for the keyed store: create, read, upsert, delete, and the
//! not-found paths.

use belp::business::{Business, BusinessResponse, Category, Review};
use belp::outcome::{InsertOutcome, StoreOutcome};
use belp::reviews::UserReviews;
use belp::store::Store;

fn mk_business(name: &str) -> Business {
    Business {
        name: name.to_owned(),
        street_addr: "1 Main St".to_owned(),
        city: "Town".to_owned(),
        state: "ST".to_owned(),
        zip: 12345,
        phone_num: 5551234,
        category: Category {
            main_category: "food".to_owned(),
            subcategory: "cafe".to_owned(),
        },
        email: None,
        website: None,
    }
}

fn mk_record(name: &str) -> BusinessResponse {
    BusinessResponse::new(mk_business(name), Some(UserReviews::empty()), Some(Vec::new()))
}

#[test]
fn insert_then_get() {
    let mut st = Store::new();
    let r = st.insert("Cafe".to_owned(), mk_record("Cafe"));
    assert_eq!(r, InsertOutcome::Created);
    let found = st.get(&"Cafe".to_owned());
    assert!(found.is_some());
    assert_eq!(found.unwrap().business.name, "Cafe");
}

#[test]
fn insert_twice_rejects_and_keeps_first() {
    let mut st = Store::new();
    let mut first = mk_record("Cafe");
    first.business.city = "Firstville".to_owned();
    assert_eq!(st.insert("Cafe".to_owned(), first), InsertOutcome::Created);
    let mut second = mk_record("Cafe");
    second.business.city = "Secondburg".to_owned();
    assert_eq!(st.insert("Cafe".to_owned(), second), InsertOutcome::Conflict);
    let found = st.get(&"Cafe".to_owned()).unwrap();
    assert_eq!(found.business.city, "Firstville");
    assert_eq!(st.list().len(), 1);
}

#[test]
fn replace_creates_on_absent_key() {
    let mut st = Store::new();
    let prev = st.replace("Cafe".to_owned(), mk_record("Cafe"));
    assert!(prev.is_none());
    assert!(st.get(&"Cafe".to_owned()).is_some());
}

#[test]
fn replace_overwrites_and_reports_previous() {
    let mut st = Store::new();
    let mut first = mk_record("Cafe");
    first.business.zip = 11111;
    st.insert("Cafe".to_owned(), first);
    let mut second = mk_record("Cafe");
    second.business.zip = 22222;
    let prev = st.replace("Cafe".to_owned(), second);
    assert!(prev.is_some());
    assert_eq!(prev.unwrap().business.zip, 11111);
    assert_eq!(st.get(&"Cafe".to_owned()).unwrap().business.zip, 22222);
    assert_eq!(st.list().len(), 1);
}

#[test]
fn get_nonexistent_business_is_not_found() {
    let st = Store::new();
    assert!(st.get(&"Nonexistent".to_owned()).is_none());
}

#[test]
fn remove_returns_record_and_clears_key() {
    let mut st = Store::new();
    st.insert("Cafe".to_owned(), mk_record("Cafe"));
    let removed = st.remove(&"Cafe".to_owned());
    assert!(removed.is_some());
    assert_eq!(removed.unwrap().business.name, "Cafe");
    assert!(st.get(&"Cafe".to_owned()).is_none());
    assert!(st.remove(&"Cafe".to_owned()).is_none());
}

#[test]
fn list_snapshots_all_records() {
    let mut st = Store::new();
    st.insert("Cafe".to_owned(), mk_record("Cafe"));
    st.insert("Diner".to_owned(), mk_record("Diner"));
    let all = st.list();
    assert_eq!(all.len(), 2);
    let names: Vec<String> = all.iter().map(|r| r.business.name.clone()).collect();
    assert!(names.contains(&"Cafe".to_owned()));
    assert!(names.contains(&"Diner".to_owned()));
}

#[test]
fn mutations_on_missing_business_report_not_found() {
    let mut st = Store::new();
    let review = Review { rating: 4, dollar_signs: 1, review: None };
    let name = "Ghost".to_owned();
    assert_eq!(
        st.add_review(&name, "Alice".to_owned(), review.clone()),
        StoreOutcome::NotFound
    );
    assert_eq!(
        st.delete_review(&name, "Alice".to_owned()),
        StoreOutcome::NotFound
    );
    assert_eq!(
        st.update_review(&name, "Alice".to_owned(), review),
        StoreOutcome::NotFound
    );
}

#[test]
fn mutations_on_record_without_ledgers_report_absent() {
    let mut st = Store::new();
    let rec = BusinessResponse::new(mk_business("Bare"), None, None);
    st.insert("Bare".to_owned(), rec);
    let name = "Bare".to_owned();
    let review = Review { rating: 4, dollar_signs: 1, review: None };
    assert_eq!(
        st.add_review(&name, "Alice".to_owned(), review.clone()),
        StoreOutcome::Absent
    );
    assert_eq!(
        st.update_review(&name, "Alice".to_owned(), review),
        StoreOutcome::Absent
    );
    assert_eq!(
        st.delete_review(&name, "Alice".to_owned()),
        StoreOutcome::Absent
    );
}
