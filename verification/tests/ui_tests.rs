use score_tracker::comma::CommaDisplay;
use score_tracker::digits::to_decimal;
use score_tracker::rate::{validate_decay_rate_range, DecayRate};
use score_tracker::ui_state::{
    Action, AddCategoryModal, AddItemModal, ConfirmationModal, EditCategoryModal, EditDecayModal,
    EditItemModal, ErrorModal, ModalType, SelectionState,
};

fn rate(centi: i64) -> DecayRate {
    validate_decay_rate_range(centi).unwrap()
}

#[test]
fn rate_text_matches_interface_format() {
    assert_eq!(rate(100).text(), "1");
    assert_eq!(rate(90).text(), "0.9");
    assert_eq!(rate(35).text(), "0.35");
    assert_eq!(rate(5).text(), "0.05");
    assert_eq!(rate(10).text(), "0.1");
}

#[test]
fn decimal_text() {
    assert_eq!(to_decimal(0), "0");
    assert_eq!(to_decimal(7), "7");
    assert_eq!(to_decimal(12345), "12345");
}

#[test]
fn comma_grouping_through_the_locale() {
    // These would fail if the formatter handed its argument back unchanged.
    assert_eq!(0i64.to_comma(), "0");
    assert_eq!(999i64.to_comma(), "999");
    assert_eq!(1000i64.to_comma(), "1,000");
    assert_eq!(1234567i64.to_comma(), "1,234,567");
    assert_eq!((-1234i64).to_comma(), "-1,234");
    assert_eq!(1234567890u64.to_comma_fmt(2), "1,234,567,890");
    assert_eq!(1001usize.to_comma(), "1,001");
}

#[test]
fn selection_follows_store_changes() {
    let mut sel = SelectionState::default();
    assert!(sel.current_category.is_none());
    sel.select_item("a".to_string(), "x".to_string());
    assert_eq!(sel.current_category.as_deref(), Some("a"));
    assert_eq!(sel.current_item.as_deref(), Some("x"));

    sel.note_category_renamed("a", "b");
    assert_eq!(sel.current_category.as_deref(), Some("b"));
    sel.note_category_renamed("zzz", "q");
    assert_eq!(sel.current_category.as_deref(), Some("b"));

    sel.note_item_updated("b", "x", "c", "y");
    assert_eq!(sel.current_category.as_deref(), Some("c"));
    assert_eq!(sel.current_item.as_deref(), Some("y"));

    sel.note_item_removed("c", "y");
    assert!(sel.current_item.is_none());
    assert_eq!(sel.current_category.as_deref(), Some("c"));

    sel.note_category_removed("c");
    assert!(sel.current_category.is_none());
}

#[test]
fn selection_notes_ignore_other_targets() {
    let mut sel = SelectionState::default();
    sel.select_item("a".to_string(), "x".to_string());
    sel.note_item_removed("a", "other");
    assert_eq!(sel.current_item.as_deref(), Some("x"));
    sel.note_category_removed("other");
    assert_eq!(sel.current_category.as_deref(), Some("a"));
    sel.note_item_updated("a", "other", "b", "y");
    assert_eq!(sel.current_category.as_deref(), Some("a"));
    assert_eq!(sel.current_item.as_deref(), Some("x"));
}

#[test]
fn modal_buffers_start_where_the_dialog_opens() {
    let add_cat = AddCategoryModal::new();
    assert!(add_cat.input_cat.is_empty());

    let add_item = AddItemModal::new("a".to_string());
    assert_eq!(add_item.target_cat, "a");
    assert!(add_item.input_item.is_empty());
    assert_eq!(add_item.input_decay, "0.9");

    let edit_cat = EditCategoryModal::new("a".to_string());
    assert_eq!(edit_cat.target_cat, "a");
    assert_eq!(edit_cat.input_cat, "a");

    let edit_decay = EditDecayModal::new("a".to_string(), "x".to_string(), rate(35));
    assert_eq!(edit_decay.input_decay, "0.35");

    let edit_item = EditItemModal::new(
        "a".to_string(),
        "x".to_string(),
        rate(25),
        vec!["a".to_string(), "b".to_string()],
    );
    assert_eq!(edit_item.input_cat, "a");
    assert_eq!(edit_item.input_item, "x");
    assert_eq!(edit_item.input_decay, "0.25");
    assert_eq!(edit_item.available_categories.len(), 2);

    let err = ErrorModal::new("oops".to_string());
    assert_eq!(err.error_msg, "oops");
}

#[test]
fn confirmations_carry_their_action() {
    let c = ConfirmationModal::new_delete_category("work".to_string());
    assert_eq!(c.title, "カテゴリ削除");
    assert!(c.message.contains("work"));
    assert!(matches!(c.ok_action, Action::ExecuteDeleteCategory(ref n) if n == "work"));

    let i = ConfirmationModal::new_delete_item("work".to_string(), "reading".to_string());
    assert_eq!(i.title, "項目削除");
    assert!(i.message.contains("reading"));
    assert!(
        matches!(i.ok_action, Action::ExecuteDeleteItem(ref c2, ref n) if c2 == "work" && n == "reading")
    );

    let s = ConfirmationModal::new_delete_score(3);
    assert_eq!(s.title, "スコア削除");
    assert!(s.message.starts_with("3"));
    assert!(matches!(s.ok_action, Action::ExecuteDeleteScore(3)));
}

#[test]
fn modal_type_defaults_to_closed() {
    assert!(matches!(ModalType::default(), ModalType::Closed));
}
