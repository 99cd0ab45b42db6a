//! Tests for the photo ledger: unrestricted adds, deletion keyed on
//! author and identifier together, and last-write-wins updates.

use belp::business::{Business, BusinessResponse, Category, Photo};
use belp::outcome::{MutationOutcome, StoreOutcome};
use belp::store::Store;

fn mk_photo(user: &str, id: usize, url: &str) -> Photo {
    Photo {
        user_name: user.to_owned(),
        photo_id: id,
        photo_url: url.to_owned(),
        photo_caption: None,
    }
}

fn mk_business(name: &str) -> Business {
    Business {
        name: name.to_owned(),
        street_addr: "1 Main St".to_owned(),
        city: "Town".to_owned(),
        state: "ST".to_owned(),
        zip: 12345,
        phone_num: 5551234,
        category: Category {
            main_category: "food".to_owned(),
            subcategory: "cafe".to_owned(),
        },
        email: None,
        website: None,
    }
}

fn mk_record(name: &str) -> BusinessResponse {
    BusinessResponse::new(mk_business(name), None, Some(Vec::new()))
}

#[test]
fn add_photo_accepts_duplicates() {
    let mut rec = mk_record("Cafe");
    let p = mk_photo("Alice", 1, "http://example.test/a.jpg");
    assert_eq!(
        rec.add_business_photo("Alice".to_owned(), p.clone()),
        MutationOutcome::Applied
    );
    assert_eq!(
        rec.add_business_photo("Alice".to_owned(), p),
        MutationOutcome::Applied
    );
    assert_eq!(rec.photos.as_ref().unwrap().len(), 2);
}

#[test]
fn photo_ops_without_ledger_report_absent() {
    let mut rec = BusinessResponse::new(mk_business("Bare"), None, None);
    let p = mk_photo("Alice", 1, "http://example.test/a.jpg");
    assert_eq!(
        rec.add_business_photo("Alice".to_owned(), p.clone()),
        MutationOutcome::Absent
    );
    assert_eq!(
        rec.delete_business_photo("Alice".to_owned(), 1),
        MutationOutcome::Absent
    );
    assert_eq!(
        rec.update_business_photo("Alice".to_owned(), p),
        MutationOutcome::Absent
    );
}

#[test]
fn delete_photo_needs_author_and_id_to_match() {
    let mut rec = mk_record("Cafe");
    rec.add_business_photo("Alice".to_owned(), mk_photo("Alice", 1, "http://example.test/a1.jpg"));
    rec.add_business_photo("Alice".to_owned(), mk_photo("Alice", 2, "http://example.test/a2.jpg"));
    rec.add_business_photo("Bob".to_owned(), mk_photo("Bob", 1, "http://example.test/b1.jpg"));
    assert_eq!(
        rec.delete_business_photo("Alice".to_owned(), 1),
        MutationOutcome::Applied
    );
    let left = rec.photos.as_ref().unwrap();
    assert_eq!(left.len(), 2);
    assert_eq!(left[0].user_name, "Alice");
    assert_eq!(left[0].photo_id, 2);
    assert_eq!(left[1].user_name, "Bob");
    assert_eq!(left[1].photo_id, 1);
}

#[test]
fn update_photo_is_last_write_wins_per_author() {
    let mut rec = mk_record("Cafe");
    rec.add_business_photo("Alice".to_owned(), mk_photo("Alice", 1, "http://example.test/old1.jpg"));
    rec.add_business_photo("Alice".to_owned(), mk_photo("Alice", 2, "http://example.test/old2.jpg"));
    rec.add_business_photo("Bob".to_owned(), mk_photo("Bob", 7, "http://example.test/b.jpg"));
    assert_eq!(
        rec.update_business_photo(
            "Alice".to_owned(),
            mk_photo("Alice", 9, "http://example.test/new.jpg")
        ),
        MutationOutcome::Applied
    );
    let left = rec.photos.as_ref().unwrap();
    assert_eq!(left.len(), 2);
    assert_eq!(left[0].user_name, "Bob");
    assert_eq!(left[1].user_name, "Alice");
    assert_eq!(left[1].photo_id, 9);
    assert_eq!(left[1].photo_url, "http://example.test/new.jpg");
}

#[test]
fn photo_mutations_through_store() {
    let mut st = Store::new();
    st.insert("Cafe".to_owned(), mk_record("Cafe"));
    let name = "Cafe".to_owned();
    assert_eq!(
        st.add_photo(
            &name,
            "Alice".to_owned(),
            mk_photo("Alice", 1, "http://example.test/a.jpg")
        ),
        StoreOutcome::Applied
    );
    assert_eq!(
        st.update_photo(
            &name,
            "Alice".to_owned(),
            mk_photo("Alice", 2, "http://example.test/b.jpg")
        ),
        StoreOutcome::Applied
    );
    assert_eq!(
        st.delete_photo(&name, "Alice".to_owned(), 2),
        StoreOutcome::Applied
    );
    let rec = st.get(&name).unwrap();
    assert_eq!(rec.photos.as_ref().unwrap().len(), 0);
    assert_eq!(
        st.add_photo(
            &"Ghost".to_owned(),
            "Alice".to_owned(),
            mk_photo("Alice", 1, "http://example.test/a.jpg")
        ),
        StoreOutcome::NotFound
    );
}
