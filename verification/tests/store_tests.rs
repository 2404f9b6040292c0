use score_tracker::error::StoreError;
use score_tracker::rate::{validate_decay_rate_range, DecayRate};
use score_tracker::store::AppData;

fn rate(centi: i64) -> DecayRate {
    validate_decay_rate_range(centi).unwrap()
}

/// A plain image of a store, field for field, for whole-store comparisons.
fn snapshot(store: &AppData) -> Vec<(String, i64, Vec<(String, u8, i64, Vec<(i64, i64)>)>)> {
    store
        .categories()
        .iter()
        .map(|c| {
            (
                c.name().clone(),
                c.created_at(),
                c.items()
                    .iter()
                    .map(|it| {
                        (
                            it.name().clone(),
                            it.decay_rate().centi(),
                            it.updated_at(),
                            it.scores().iter().map(|s| (s.score(), s.timestamp())).collect(),
                        )
                    })
                    .collect(),
            )
        })
        .collect()
}

#[test]
fn decay_rate_validation_bounds() {
    assert!(validate_decay_rate_range(0).is_err());
    assert!(validate_decay_rate_range(101).is_err());
    assert!(validate_decay_rate_range(-5).is_err());
    assert_eq!(validate_decay_rate_range(1).unwrap().centi(), 1);
    assert_eq!(validate_decay_rate_range(100).unwrap().centi(), 100);
    assert_eq!(
        validate_decay_rate_range(200).unwrap_err(),
        StoreError::DecayRateOutOfRange
    );
}

#[test]
fn add_category_trims_and_rejects() {
    let mut store = AppData::default();
    assert!(store.add_category("  work  ".to_string()).is_ok());
    assert_eq!(store.categories()[0].name(), "work");
    assert_eq!(
        store.add_category("work".to_string()).unwrap_err(),
        StoreError::DuplicateCategory
    );
    assert_eq!(
        store.add_category("   ".to_string()).unwrap_err(),
        StoreError::EmptyCategoryName
    );
    assert!(store.category_exists("work"));
    assert!(!store.category_exists("play"));
}

#[test]
fn rename_category_rules() {
    let mut store = AppData::default();
    store.add_category("a".to_string()).unwrap();
    store.add_category("b".to_string()).unwrap();
    // Renaming to itself is a successful no-op.
    assert!(store.rename_category("a", "a".to_string()).is_ok());
    // A taken name is rejected.
    assert_eq!(
        store.rename_category("a", "b".to_string()).unwrap_err(),
        StoreError::DuplicateCategory
    );
    // An empty name is rejected.
    assert_eq!(
        store.rename_category("a", "  ".to_string()).unwrap_err(),
        StoreError::EmptyCategoryName
    );
    // A missing source is rejected.
    assert_eq!(
        store.rename_category("zzz", "c".to_string()).unwrap_err(),
        StoreError::CategoryNotFound
    );
    // A proper rename keeps the contents.
    store.add_item("a", "x".to_string(), rate(90)).unwrap();
    assert!(store.rename_category("a", "c".to_string()).is_ok());
    assert!(store.item_exists("c", "x"));
    assert!(!store.category_exists("a"));
}

#[test]
fn remove_category_cascades() {
    let mut store = AppData::default();
    store.add_category("a".to_string()).unwrap();
    store.add_item("a", "x".to_string(), rate(90)).unwrap();
    store.add_score("a", "x", 3).unwrap();
    assert!(store.remove_category("a").is_ok());
    assert!(!store.category_exists("a"));
    assert_eq!(
        store.remove_category("a").unwrap_err(),
        StoreError::CategoryNotFound
    );
}

#[test]
fn add_item_rules() {
    let mut store = AppData::default();
    store.add_category("a".to_string()).unwrap();
    assert_eq!(
        store.add_item("zzz", "x".to_string(), rate(90)).unwrap_err(),
        StoreError::CategoryNotFound
    );
    assert_eq!(
        store.add_item("a", "  ".to_string(), rate(90)).unwrap_err(),
        StoreError::EmptyItemName
    );
    assert!(store.add_item("a", "  x ".to_string(), rate(90)).is_ok());
    assert!(store.item_exists("a", "x"));
    assert_eq!(
        store.add_item("a", "x".to_string(), rate(90)).unwrap_err(),
        StoreError::DuplicateItem
    );
}

#[test]
fn score_lifecycle_and_errors() {
    let mut store = AppData::default();
    store.add_category("a".to_string()).unwrap();
    store.add_item("a", "x".to_string(), rate(90)).unwrap();
    assert_eq!(
        store.add_score("a", "x", -1).unwrap_err(),
        StoreError::NegativeScore
    );
    assert_eq!(
        store.add_score("a", "zzz", 5).unwrap_err(),
        StoreError::ItemNotFound
    );
    assert_eq!(
        store.add_score("zzz", "x", 5).unwrap_err(),
        StoreError::CategoryNotFound
    );
    store.add_score("a", "x", 5).unwrap();
    store.add_score("a", "x", 6).unwrap();
    assert_eq!(
        store.remove_score("a", "x", 2).unwrap_err(),
        StoreError::ScoreIndexOutOfRange
    );
    store.remove_score("a", "x", 0).unwrap();
    let item = store.get_item("a", "x").unwrap();
    assert_eq!(item.scores().len(), 1);
    assert_eq!(item.scores()[0].score(), 6);
}

#[test]
fn removed_index_is_not_reproduced_by_reinsertion() {
    // Indices are positional: removing the entry at an index and adding the
    // same value again appends it at the end instead of restoring it.
    let mut store = AppData::default();
    store.add_category("a".to_string()).unwrap();
    store.add_item("a", "x".to_string(), rate(90)).unwrap();
    for v in [1i64, 2, 3] {
        store.add_score("a", "x", v).unwrap();
    }
    store.remove_score("a", "x", 0).unwrap();
    store.add_score("a", "x", 1).unwrap();
    let item = store.get_item("a", "x").unwrap();
    let values: Vec<i64> = item.scores().iter().map(|s| s.score()).collect();
    // The old index 0 now holds what was behind it, and the re-added value
    // sits last.
    assert_eq!(values, vec![2, 3, 1]);
    assert_ne!(values[0], 1);
}

#[test]
fn update_decay_refreshes_rate() {
    let mut store = AppData::default();
    store.add_category("a".to_string()).unwrap();
    store.add_item("a", "x".to_string(), rate(90)).unwrap();
    store.update_decay("a", "x", rate(35)).unwrap();
    assert_eq!(store.get_item_decay("a", "x").unwrap().centi(), 35);
    assert_eq!(
        store.update_decay("a", "zzz", rate(35)).unwrap_err(),
        StoreError::ItemNotFound
    );
}

#[test]
fn move_item_carries_scores() {
    let mut store = AppData::default();
    store.add_category("a".to_string()).unwrap();
    store.add_category("b".to_string()).unwrap();
    store.add_item("a", "x".to_string(), rate(90)).unwrap();
    store.add_score("a", "x", 42).unwrap();
    store.move_item("a", "b", "x").unwrap();
    assert!(!store.item_exists("a", "x"));
    let item = store.get_item("b", "x").unwrap();
    assert_eq!(item.scores()[0].score(), 42);
    // Moving within the same category is a no-op success.
    assert!(store.move_item("b", "b", "x").is_ok());
    // A collision at the destination is rejected.
    store.add_item("a", "x".to_string(), rate(90)).unwrap();
    assert_eq!(
        store.move_item("a", "b", "x").unwrap_err(),
        StoreError::DuplicateItem
    );
}

#[test]
fn compound_update_applies_all_three_steps() {
    let mut store = AppData::default();
    store.add_category("a".to_string()).unwrap();
    store.add_category("b".to_string()).unwrap();
    store.add_item("a", "x".to_string(), rate(90)).unwrap();
    store.add_score("a", "x", 9).unwrap();
    store
        .try_update_item("a", "x", "b", "y".to_string(), rate(25))
        .unwrap();
    assert!(!store.item_exists("a", "x"));
    let item = store.get_item("b", "y").unwrap();
    assert_eq!(item.decay_rate().centi(), 25);
    assert_eq!(item.scores()[0].score(), 9);
}

#[test]
fn compound_update_trims_the_new_name_throughout() {
    // A whitespace-padded new name is trimmed by the rename, and the decay
    // step finds the item under the trimmed name, so the edit succeeds.
    let mut store = AppData::default();
    store.add_category("a".to_string()).unwrap();
    store.add_item("a", "x".to_string(), rate(90)).unwrap();
    store
        .try_update_item("a", "x", "a", "  y ".to_string(), rate(40))
        .unwrap();
    assert!(store.item_exists("a", "y"));
    assert_eq!(store.get_item_decay("a", "y").unwrap().centi(), 40);
}

#[test]
fn compound_update_with_collision_changes_nothing() {
    // Category a holds item x; category b already holds an item named x.
    // Moving and renaming a's x into b under the colliding name must fail
    // and leave the store exactly as it was.
    let mut store = AppData::default();
    store.add_category("a".to_string()).unwrap();
    store.add_category("b".to_string()).unwrap();
    store.add_item("a", "x".to_string(), rate(90)).unwrap();
    store.add_item("b", "x".to_string(), rate(80)).unwrap();
    store.add_score("a", "x", 1).unwrap();
    store.add_score("b", "x", 2).unwrap();
    let before = snapshot(&store);
    let err = store
        .try_update_item("a", "x", "b", "x".to_string(), rate(50))
        .unwrap_err();
    assert_eq!(err, StoreError::DuplicateItem);
    assert_eq!(snapshot(&store), before);
}

#[test]
fn try_aliases_behave_like_their_targets() {
    let mut store = AppData::default();
    store.try_add_category("a".to_string()).unwrap();
    store.try_add_item("a", "x".to_string(), rate(90)).unwrap();
    store.try_add_score("a", "x", 4).unwrap();
    store.try_update_decay_rate("a", "x", rate(20)).unwrap();
    assert_eq!(store.get_item_decay("a", "x").unwrap().centi(), 20);
    store.try_remove_score("a", "x", 0).unwrap();
    store.try_rename_category("a", "c".to_string()).unwrap();
    store.try_remove_item("c", "x").unwrap();
    store.try_remove_category("c").unwrap();
    assert!(store.categories().is_empty());
}

#[test]
fn recency_listing_is_a_sorted_permutation() {
    let mut store = AppData::default();
    for name in ["a", "b", "c"] {
        store.add_category(name.to_string()).unwrap();
    }
    let order = store.categories_by_recency();
    assert_eq!(order.len(), 3);
    let mut seen = [false; 3];
    for &i in &order {
        seen[i] = true;
    }
    assert!(seen.iter().all(|&s| s));
    let cats = store.categories();
    for w in order.windows(2) {
        assert!(cats[w[0]].created_at() >= cats[w[1]].created_at());
    }
}
