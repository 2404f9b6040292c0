use score_tracker::chart::WeightedScoreChart;
use score_tracker::plot::calculate_plot_params;
use score_tracker::rate::{validate_decay_rate_range, DecayRate};
use score_tracker::store::AppData;

fn rate(centi: i64) -> DecayRate {
    validate_decay_rate_range(centi).unwrap()
}

fn store_with_scores(values: &[i64]) -> AppData {
    let mut store = AppData::default();
    store.add_category("a".to_string()).unwrap();
    store.add_item("a", "x".to_string(), rate(90)).unwrap();
    for &v in values {
        store.add_score("a", "x", v).unwrap();
    }
    store
}

#[test]
fn click_resolution_per_boundary() {
    // Weights 2.0, 3.0, 5.0 give boundaries 2.0, 5.0, 10.0 (in millionths).
    let chart = WeightedScoreChart::new();
    let boundaries = vec![2_000_000u64, 5_000_000, 10_000_000];
    assert_eq!(chart.find_clicked_bar(1_900_000, &boundaries), Some(0));
    assert_eq!(chart.find_clicked_bar(2_100_000, &boundaries), Some(1));
    assert_eq!(chart.find_clicked_bar(9_900_000, &boundaries), Some(2));
    assert_eq!(chart.find_clicked_bar(10_100_000, &boundaries), None);
    assert_eq!(chart.find_clicked_bar(-500_000, &boundaries), None);
}

#[test]
fn click_on_boundary_picks_the_next_segment() {
    // A click exactly on a right edge belongs to the following segment;
    // exactly on the total width there is nothing left to select.
    let chart = WeightedScoreChart::new();
    let boundaries = vec![2_000_000u64, 5_000_000];
    assert_eq!(chart.find_clicked_bar(0, &boundaries), Some(0));
    assert_eq!(chart.find_clicked_bar(2_000_000, &boundaries), Some(1));
    assert_eq!(chart.find_clicked_bar(5_000_000, &boundaries), None);
}

#[test]
fn bars_line_up_with_weights() {
    let chart = WeightedScoreChart::new();
    let store = store_with_scores(&[5, 10]);
    let item = store.get_item("a", "x").unwrap();
    let weights = vec![500_000u64, 1_000_000];
    let layout = chart.create_bars(item.scores(), &weights, 3);
    assert_eq!(layout.bars.len(), 2);
    assert_eq!(layout.bars[0].left_x, 0);
    assert_eq!(layout.bars[0].width, 500_000);
    assert_eq!(layout.bars[0].height, 2);
    assert_eq!(layout.bars[1].left_x, 500_000);
    assert_eq!(layout.bars[1].width, 1_000_000);
    assert_eq!(layout.bars[1].height, 7);
    assert_eq!(layout.boundaries, vec![500_000, 1_500_000]);
    assert_eq!(layout.total_width, 1_500_000);
}

#[test]
fn bar_height_never_negative() {
    let chart = WeightedScoreChart::new();
    let store = store_with_scores(&[1]);
    let item = store.get_item("a", "x").unwrap();
    let layout = chart.create_bars(item.scores(), &vec![1_000_000u64], 10);
    assert_eq!(layout.bars[0].height, 0);
}

#[test]
fn plot_range_ignores_scores_below_weight_threshold() {
    // Weights 0.05, 0.9, 1.0 with threshold 0.1: the first score is left
    // out, so the range rests on 20..100 with ten percent padding.
    let store = store_with_scores(&[10, 20, 100]);
    let item = store.get_item("a", "x").unwrap();
    let weights = vec![50_000u64, 900_000, 1_000_000];
    let params = calculate_plot_params(item.scores(), &weights);
    assert_eq!(params.min_y, 12);
    assert_eq!(params.max_y, 108);
}

#[test]
fn plot_range_falls_back_to_all_scores() {
    // When every weight sits below the threshold, all scores count.
    let store = store_with_scores(&[10, 100]);
    let item = store.get_item("a", "x").unwrap();
    let weights = vec![10_000u64, 20_000];
    let params = calculate_plot_params(item.scores(), &weights);
    assert_eq!(params.min_y, 1);
    assert_eq!(params.max_y, 109);
}

#[test]
fn plot_floor_clamps_at_zero() {
    let store = store_with_scores(&[1, 100]);
    let item = store.get_item("a", "x").unwrap();
    let weights = vec![1_000_000u64, 1_000_000];
    let params = calculate_plot_params(item.scores(), &weights);
    // padding is 9 (a tenth of 99), so 1 - 9 clamps to 0.
    assert_eq!(params.min_y, 0);
    assert_eq!(params.max_y, 109);
}

#[test]
fn plot_range_of_nothing_is_zero() {
    let store = store_with_scores(&[]);
    let item = store.get_item("a", "x").unwrap();
    let params = calculate_plot_params(item.scores(), &Vec::new());
    assert_eq!(params.min_y, 0);
    assert_eq!(params.max_y, 0);
}
