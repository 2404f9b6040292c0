use score_tracker::error::StoreError;
use score_tracker::rate::{validate_decay_rate_range, DecayRate};
use score_tracker::snapshot::{CategoryPart, ItemPart};
use score_tracker::store::AppData;

fn rate(centi: i64) -> DecayRate {
    validate_decay_rate_range(centi).unwrap()
}

/// A plain image of a store, field for field.
fn image(store: &AppData) -> Vec<(String, i64, Vec<(String, u8, i64, Vec<(i64, i64)>)>)> {
    store
        .categories()
        .iter()
        .map(|c| {
            (
                c.name().clone(),
                c.created_at(),
                c.items()
                    .iter()
                    .map(|it| {
                        (
                            it.name().clone(),
                            it.decay_rate().centi(),
                            it.updated_at(),
                            it.scores().iter().map(|s| (s.score(), s.timestamp())).collect(),
                        )
                    })
                    .collect(),
            )
        })
        .collect()
}

fn sample_store() -> AppData {
    let mut store = AppData::default();
    store.add_category("work".to_string()).unwrap();
    store.add_category("play".to_string()).unwrap();
    store.add_item("work", "reading".to_string(), rate(90)).unwrap();
    store.add_item("work", "writing".to_string(), rate(35)).unwrap();
    store.add_item("play", "chess".to_string(), rate(100)).unwrap();
    for v in [3, 1, 4, 1, 5] {
        store.add_score("work", "reading", v).unwrap();
    }
    store.add_score("play", "chess", 42).unwrap();
    store
}

#[test]
fn snapshot_restore_is_identity() {
    // Serializing the hierarchy to plain parts and rebuilding from them
    // reproduces the same categories, items, decay rates and score runs,
    // in the same order, timestamps included.
    let store = sample_store();
    let parts = store.snapshot_parts();
    let rebuilt = AppData::from_parts(&parts).unwrap();
    assert_eq!(image(&store), image(&rebuilt));
}

#[test]
fn snapshot_of_empty_store_round_trips() {
    let store = AppData::default();
    let rebuilt = AppData::from_parts(&store.snapshot_parts()).unwrap();
    assert!(rebuilt.categories().is_empty());
}

#[test]
fn from_parts_rejects_bad_content() {
    // A negative score cannot enter the store through a file either.
    let parts = vec![CategoryPart {
        name: "work".to_string(),
        created_at: 0,
        items: vec![ItemPart {
            name: "reading".to_string(),
            decay_centi: 90,
            updated_at: 0,
            scores: vec![(5, 0), (-1, 0)],
        }],
    }];
    assert!(AppData::from_parts(&parts).is_err());

    // An out-of-range decay rate is rejected.
    let parts = vec![CategoryPart {
        name: "work".to_string(),
        created_at: 0,
        items: vec![ItemPart {
            name: "reading".to_string(),
            decay_centi: 0,
            updated_at: 0,
            scores: vec![],
        }],
    }];
    assert_eq!(
        AppData::from_parts(&parts).unwrap_err(),
        StoreError::DecayRateOutOfRange
    );

    // Duplicate category names are rejected.
    let parts = vec![
        CategoryPart { name: "a".to_string(), created_at: 0, items: vec![] },
        CategoryPart { name: "a".to_string(), created_at: 1, items: vec![] },
    ];
    assert_eq!(
        AppData::from_parts(&parts).unwrap_err(),
        StoreError::DuplicateCategory
    );
}

#[test]
fn from_parts_trims_names() {
    let parts = vec![CategoryPart {
        name: "  work ".to_string(),
        created_at: 7,
        items: vec![ItemPart {
            name: " reading ".to_string(),
            decay_centi: 50,
            updated_at: 9,
            scores: vec![(2, 11)],
        }],
    }];
    let store = AppData::from_parts(&parts).unwrap();
    assert!(store.item_exists("work", "reading"));
    let item = store.get_item("work", "reading").unwrap();
    assert_eq!(item.updated_at(), 9);
    assert_eq!(item.scores()[0].score(), 2);
    assert_eq!(item.scores()[0].timestamp(), 11);
    assert_eq!(store.categories()[0].created_at(), 7);
}
