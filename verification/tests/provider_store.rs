use dawnsearch::provider::{SearchError, SearchProvider};
use dawnsearch::store::{PageStore, StoreError};
use dawnsearch::vector::{EM_LEN, I24_MAX};

fn basis(hot: usize) -> Vec<u32> {
    let mut v: Vec<u32> = Vec::new();
    for i in 0..EM_LEN {
        if i == hot {
            v.push(I24_MAX);
        } else {
            v.push((I24_MAX - 1) / 2);
        }
    }
    v
}

#[test]
fn store_assigns_ids_and_rejects_duplicate_urls() {
    let mut store = PageStore::new();
    let id1 = store
        .insert(String::from("u1"), String::from("t1"), String::from("x1"), basis(0))
        .unwrap();
    let id2 = store
        .insert(String::from("u2"), String::from("t2"), String::from("x2"), basis(1))
        .unwrap();
    assert_eq!(id1, 1);
    assert_eq!(id2, 2);
    assert_eq!(store.count(), 2);
    let r = store.insert(String::from("u1"), String::from("t"), String::from("x"), basis(2));
    assert!(matches!(r, Err(StoreError::DuplicateUrl)));
    assert_eq!(store.count(), 2);
    assert_eq!(store.get(1).unwrap().url, "u1");
    assert!(store.get(99).is_none());
}

#[test]
fn inserting_same_url_twice_is_one_row_and_one_index_entry() {
    let mut p = SearchProvider::new();
    p.insert(String::from("u1"), String::from("t"), String::from("x"), basis(0)).unwrap();
    p.insert(String::from("u1"), String::from("t"), String::from("x"), basis(0)).unwrap();
    assert_eq!(p.count(), 1);
    assert_eq!(p.index.size(), 1);
}

#[test]
fn insert_rejects_non_unit_vector() {
    let mut p = SearchProvider::new();
    // a vector standing for 1.0 everywhere: norm about sqrt(384)
    let too_long: Vec<u32> = vec![I24_MAX; EM_LEN];
    let r = p.insert(String::from("u1"), String::from("t"), String::from("x"), too_long);
    assert!(matches!(r, Err(SearchError::InvalidVector)));
    assert_eq!(p.count(), 0);
    assert_eq!(p.index.size(), 0);
}

#[test]
fn local_search_orders_results() {
    let mut p = SearchProvider::new();
    p.insert(String::from("u1"), String::from("apples"), String::from("apples"), basis(0)).unwrap();
    p.insert(String::from("u2"), String::from("oranges"), String::from("oranges"), basis(1)).unwrap();
    p.insert(String::from("u3"), String::from("banking"), String::from("banking"), basis(300)).unwrap();
    // a query equal to u1's embedding finds u1 first
    let r = p.search_embedding(&basis(0)).unwrap();
    assert_eq!(r.pages_searched, 3);
    assert_eq!(r.pages.len(), 3);
    assert_eq!(r.pages[0].url, "u1");
    assert!(r.pages[0].distance <= r.pages[1].distance);
    assert!(r.pages[1].distance <= r.pages[2].distance);
}

#[test]
fn search_rejects_non_unit_query() {
    let p = SearchProvider::new();
    let bad: Vec<u32> = vec![I24_MAX; EM_LEN];
    assert!(matches!(p.search_embedding(&bad), Err(SearchError::InvalidVector)));
}

#[test]
fn search_like_uses_stored_embedding() {
    let mut p = SearchProvider::new();
    p.insert(String::from("u1"), String::from("a"), String::from("a"), basis(0)).unwrap();
    p.insert(String::from("u2"), String::from("b"), String::from("b"), basis(5)).unwrap();
    let r = p.search_like(1).unwrap();
    assert_eq!(r.pages[0].url, "u1");
    assert!(matches!(p.search_like(42), Err(SearchError::PageNotFound)));
}

#[test]
fn index_grows_by_1024_when_full() {
    let mut p = SearchProvider::new();
    p.insert(String::from("u1"), String::from("t"), String::from("x"), basis(0)).unwrap();
    // the first insert into a zero-capacity index reserved 1024 slots
    assert_eq!(p.index.capacity(), 1024);
    assert_eq!(p.index.size(), 1);
    for i in 0..1023usize {
        let mut url = String::from("url-");
        url.push_str(&i.to_string());
        p.insert(url, String::from("t"), String::from("x"), basis(i % EM_LEN)).unwrap();
    }
    assert_eq!(p.index.size(), 1024);
    assert_eq!(p.index.capacity(), 1024);
    // one more insert triggers reserve(size + 1024) and succeeds
    p.insert(String::from("one-more"), String::from("t"), String::from("x"), basis(9)).unwrap();
    assert_eq!(p.index.size(), 1025);
    assert_eq!(p.index.capacity(), 2048);
}

#[test]
fn save_and_reload_give_identical_search_results() {
    let mut p = SearchProvider::new();
    p.insert(String::from("u1"), String::from("a"), String::from("a"), basis(0)).unwrap();
    p.insert(String::from("u2"), String::from("b"), String::from("b"), basis(1)).unwrap();
    p.insert(String::from("u3"), String::from("c"), String::from("c"), basis(2)).unwrap();
    let image = p.save();
    let before = p.search_embedding(&basis(1)).unwrap();
    // restart: the store is reloaded, the index image is reused
    let p2 = SearchProvider::from_parts(p.store, Some(&image));
    let after = p2.search_embedding(&basis(1)).unwrap();
    assert_eq!(before.pages.len(), after.pages.len());
    for i in 0..before.pages.len() {
        assert_eq!(before.pages[i].id, after.pages[i].id);
        assert_eq!(before.pages[i].distance, after.pages[i].distance);
        assert_eq!(before.pages[i].url, after.pages[i].url);
    }
}

#[test]
fn corrupt_index_image_triggers_rebuild() {
    let mut p = SearchProvider::new();
    p.insert(String::from("u1"), String::from("a"), String::from("a"), basis(0)).unwrap();
    let mut image = p.save();
    image.push(0);  // no longer whole entries
    let p2 = SearchProvider::from_parts(p.store, Some(&image));
    assert_eq!(p2.index.size(), 1);
    assert!(p2.verify().is_ok());
}

#[test]
fn fill_index_matches_store() {
    let mut store = PageStore::new();
    store.insert(String::from("u1"), String::from("t"), String::from("x"), basis(0)).unwrap();
    store.insert(String::from("u2"), String::from("t"), String::from("x"), basis(1)).unwrap();
    let p = SearchProvider::from_parts(store, None);
    assert_eq!(p.index.size(), p.count());
    assert!(p.verify().is_ok());
}
