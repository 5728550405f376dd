use crud::{Entity, MemoryStore, Page, Sort, StoreError};

#[derive(Clone, Debug, PartialEq)]
struct Record {
    id: u64,
    v: String,
}

impl Entity<u64> for Record {
    fn id(&self) -> u64 {
        self.id
    }

    fn get_id(&self) -> u64 {
        self.id
    }

    fn lemma_clone_is_copy(_a: Self, _b: Self) {}
}

fn rec(id: u64, v: &str) -> Record {
    Record { id, v: v.to_string() }
}

fn store_of(ids: &[u64]) -> MemoryStore<Record> {
    let mut store = MemoryStore::new();
    for id in ids {
        store.save(&rec(*id, &format!("v{}", id))).unwrap();
    }
    store
}

#[test]
fn scenario_save_page_remove() {
    let mut store: MemoryStore<Record> = MemoryStore::new();
    assert_eq!(store.save(&rec(1, "a")), Ok(()));
    assert_eq!(store.save(&rec(2, "b")), Ok(()));
    assert_eq!(store.save(&rec(3, "c")), Ok(()));
    assert_eq!(store.find_all_with_page(&Page::new(0, 2)), Ok(vec![rec(1, "a"), rec(2, "b")]));
    assert_eq!(store.find_all_with_page(&Page::new(1, 2)), Ok(vec![rec(3, "c")]));
    assert_eq!(store.remove_by_id(&2), Ok(()));
    assert_eq!(store.find_by_id(&2), Err(StoreError::NotFound));
}

#[test]
fn round_trip_returns_saved_value() {
    let mut store = store_of(&[4, 9]);
    let e = rec(7, "seven");
    store.save(&e).unwrap();
    assert_eq!(store.find_by_id(&e.get_id()), Ok(e));
}

#[test]
fn save_existing_id_overwrites_in_place() {
    let mut store = store_of(&[1, 2, 3]);
    store.save(&rec(2, "new")).unwrap();
    assert_eq!(store.len(), 3);
    assert_eq!(store.find_by_id(&2), Ok(rec(2, "new")));
    assert_eq!(
        store.find_all_with_page(&Page::new(0, 10)),
        Ok(vec![rec(1, "v1"), rec(2, "new"), rec(3, "v3")])
    );
}

#[test]
fn update_changes_only_its_entity() {
    let mut store = store_of(&[1, 2, 3]);
    assert_eq!(store.update(&rec(2, "changed")), Ok(()));
    assert_eq!(
        store.find_all_with_page(&Page::new(0, 3)),
        Ok(vec![rec(1, "v1"), rec(2, "changed"), rec(3, "v3")])
    );
}

#[test]
fn update_missing_is_not_found() {
    let mut store = store_of(&[1]);
    assert_eq!(store.update(&rec(5, "x")), Err(StoreError::NotFound));
    assert_eq!(store.len(), 1);
    assert_eq!(store.find_by_id(&5), Err(StoreError::NotFound));
}

#[test]
fn remove_by_id_shrinks_by_one() {
    let mut store = store_of(&[1, 2, 3]);
    assert_eq!(store.remove_by_id(&1), Ok(()));
    assert_eq!(store.len(), 2);
    assert_eq!(store.find_by_id(&1), Err(StoreError::NotFound));
    assert_eq!(store.remove_by_id(&1), Err(StoreError::NotFound));
    assert_eq!(store.len(), 2);
}

#[test]
fn remove_goes_by_id_alone() {
    let mut store = store_of(&[1, 2]);
    assert_eq!(store.remove(&rec(2, "other fields")), Ok(()));
    assert_eq!(store.find_all_with_page(&Page::new(0, 5)), Ok(vec![rec(1, "v1")]));
    assert_eq!(store.remove(&rec(2, "v2")), Err(StoreError::NotFound));
}

#[test]
fn find_on_empty_store_is_not_found() {
    let store: MemoryStore<Record> = MemoryStore::new();
    assert_eq!(store.find_by_id(&0), Err(StoreError::NotFound));
    assert_eq!(store.find_all_with_page(&Page::new(0, 3)), Ok(vec![]));
}

#[test]
fn pages_cover_the_collection() {
    let store = store_of(&[5, 3, 8, 1, 9, 2, 7]);
    let all = store.find_all_with_page(&Page::new(0, 100)).unwrap();
    let mut joined = Vec::new();
    for number in 0..3 {
        joined.extend(store.find_all_with_page(&Page::new(number, 3)).unwrap());
    }
    assert_eq!(joined, all);
    assert_eq!(store.find_all_with_page(&Page::new(2, 3)).unwrap(), vec![rec(7, "v7")]);
}

#[test]
fn page_beyond_end_is_empty() {
    let store = store_of(&[1, 2, 3]);
    assert_eq!(store.find_all_with_page(&Page::new(1, 3)), Ok(vec![]));
    assert_eq!(store.find_all_with_page(&Page::new(u32::MAX, u32::MAX)), Ok(vec![]));
}

#[test]
fn page_of_size_zero_is_empty() {
    let store = store_of(&[1, 2, 3]);
    assert_eq!(store.find_all_with_page(&Page::new(0, 0)), Ok(vec![]));
    assert_eq!(store.find_all_with_page_and_sort(&Page::new(1, 0), &Sort::ASCENDING), Ok(vec![]));
}

#[test]
fn offset_is_number_times_size() {
    assert_eq!(Page::new(0, 2).offset(), 0);
    assert_eq!(Page::new(3, 7).offset(), 21);
    assert_eq!(Page::new(65535, 65537).offset(), u32::MAX);
    let p = Page::new(4, 5);
    assert_eq!(p.number, 4);
    assert_eq!(p.size, 5);
}

#[test]
fn sorted_ascending_by_id() {
    let store = store_of(&[5, 3, 8, 1]);
    let page = store.find_all_with_page_and_sort(&Page::new(0, 10), &Sort::ASCENDING).unwrap();
    assert_eq!(page, vec![rec(1, "v1"), rec(3, "v3"), rec(5, "v5"), rec(8, "v8")]);
    let second = store.find_all_with_page_and_sort(&Page::new(1, 3), &Sort::ASCENDING).unwrap();
    assert_eq!(second, vec![rec(8, "v8")]);
}

#[test]
fn descending_is_reverse_of_ascending() {
    let store = store_of(&[5, 3, 8, 1, 4]);
    let asc = store.find_all_with_page_and_sort(&Page::new(0, 5), &Sort::ASCENDING).unwrap();
    let mut desc = store.find_all_with_page_and_sort(&Page::new(0, 5), &Sort::DESCENDING).unwrap();
    desc.reverse();
    assert_eq!(desc, asc);
    let first = store.find_all_with_page_and_sort(&Page::new(0, 2), &Sort::DESCENDING).unwrap();
    assert_eq!(first, vec![rec(8, "v8"), rec(5, "v5")]);
}

#[test]
fn sort_leaves_the_store_unchanged() {
    let store = store_of(&[3, 1, 2]);
    store.find_all_with_page_and_sort(&Page::new(0, 3), &Sort::DESCENDING).unwrap();
    assert_eq!(
        store.find_all_with_page(&Page::new(0, 3)),
        Ok(vec![rec(3, "v3"), rec(1, "v1"), rec(2, "v2")])
    );
}

#[test]
fn sort_values_compare() {
    assert!(Sort::ASCENDING == Sort::ASCENDING);
    assert!(Sort::ASCENDING != Sort::DESCENDING);
}

fn through_crud<S: crud::Crud<u64, Record>>(store: &mut S) -> bool {
    store.save(&rec(10, "x")).is_ok()
        && store.find_by_id(&10).is_ok()
        && store.update(&rec(10, "y")).is_ok()
        && store.remove_by_id(&10).is_ok()
        && store.find_by_id(&10).is_err()
}

#[test]
fn store_serves_as_full_crud() {
    let mut store: MemoryStore<Record> = MemoryStore::new();
    assert!(through_crud(&mut store));
    assert_eq!(store.len(), 0);
}
