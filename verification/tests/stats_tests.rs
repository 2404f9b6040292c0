use score_tracker::rate::{validate_decay_rate_range, DecayRate};
use score_tracker::stats::{
    calculate_stats, generate_weights, isqrt_u128, weighted_mean, weighted_std, weighted_variance,
};
use score_tracker::store::AppData;

fn rate(centi: i64) -> DecayRate {
    validate_decay_rate_range(centi).unwrap()
}

#[test]
fn most_recent_weight_is_exactly_one() {
    // The last entry always weighs exactly 1.0 (one million millionths),
    // whatever the decay rate.
    for centi in [1i64, 35, 50, 90, 100] {
        for n in [1usize, 2, 5, 40] {
            let w = generate_weights(rate(centi), n);
            assert_eq!(w.len(), n);
            assert_eq!(*w.last().unwrap(), 1_000_000);
        }
    }
}

#[test]
fn weights_never_increase_with_age() {
    for centi in [1i64, 35, 50, 90, 99] {
        let w = generate_weights(rate(centi), 12);
        for i in 0..11 {
            assert!(w[i] <= w[i + 1]);
        }
    }
}

#[test]
fn weights_all_equal_at_rate_one() {
    let w = generate_weights(rate(100), 8);
    for x in w {
        assert_eq!(x, 1_000_000);
    }
}

#[test]
fn weights_halve_at_rate_half() {
    let w = generate_weights(rate(50), 4);
    assert_eq!(w, vec![125_000, 250_000, 500_000, 1_000_000]);
}

#[test]
fn weights_strictly_shrink_until_zero() {
    // Rate 0.01: each step divides by one hundred until nothing is left.
    let w = generate_weights(rate(1), 5);
    assert_eq!(w, vec![0, 1, 100, 10_000, 1_000_000]);
}

#[test]
fn mean_of_identical_scores_is_that_score() {
    // Whatever the decay rate, identical scores average to themselves.
    for centi in [1i64, 35, 90, 100] {
        let mut store = AppData::default();
        store.add_category("work".to_string()).unwrap();
        store.add_item("work", "reading".to_string(), rate(centi)).unwrap();
        for _ in 0..4 {
            store.add_score("work", "reading", 7).unwrap();
        }
        let item = store.get_item("work", "reading").unwrap();
        let stats = calculate_stats(item.scores(), item.decay_rate());
        assert_eq!(stats.mean_centi, 700);
        assert_eq!(stats.std_centi, 0);
        assert_eq!(stats.count, 4);
    }
}

#[test]
fn mean_and_std_exact_values() {
    let mut store = AppData::default();
    store.add_category("work".to_string()).unwrap();
    store.add_item("work", "reading".to_string(), rate(50)).unwrap();
    store.add_score("work", "reading", 10).unwrap();
    store.add_score("work", "reading", 20).unwrap();
    let item = store.get_item("work", "reading").unwrap();
    let stats = calculate_stats(item.scores(), item.decay_rate());
    // dot = 10 * 500000 + 20 * 1000000; sum = 1500000.
    // mean = 100 * 25000000 / 1500000 = 1666 hundredths (16.66).
    assert_eq!(stats.mean_centi, 1666);
    // whole mean 16; deviations 36 and 16; weighted 18000000 + 16000000;
    // variance 34000000 / 1500000 = 22; sqrt(220000) = 469.
    assert_eq!(stats.std_centi, 469);
    assert_eq!(stats.count, 2);
    assert_eq!(stats.weights, vec![500_000, 1_000_000]);
}

#[test]
fn empty_scores_give_zero_stats() {
    let mut store = AppData::default();
    store.add_category("work".to_string()).unwrap();
    store.add_item("work", "reading".to_string(), rate(90)).unwrap();
    let item = store.get_item("work", "reading").unwrap();
    let stats = calculate_stats(item.scores(), item.decay_rate());
    assert_eq!(stats.mean_centi, 0);
    assert_eq!(stats.std_centi, 0);
    assert_eq!(stats.count, 0);
    assert!(stats.weights.is_empty());
}

#[test]
fn weighted_helpers_match_by_hand() {
    let values = vec![10i64, 20];
    let weights = vec![500_000u64, 1_000_000];
    assert_eq!(weighted_mean(&values, &weights), 1666);
    assert_eq!(weighted_variance(&values, &weights), 22);
    assert_eq!(weighted_std(&values, &weights), 469);
}

#[test]
fn isqrt_small_values() {
    assert_eq!(isqrt_u128(0), 0);
    assert_eq!(isqrt_u128(1), 1);
    assert_eq!(isqrt_u128(24), 4);
    assert_eq!(isqrt_u128(25), 5);
    assert_eq!(isqrt_u128(220_000), 469);
}
