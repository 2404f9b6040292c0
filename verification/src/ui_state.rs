//! Interface state: the current selection, the requests the interface can
//! raise, and the input buffers of each dialog.
//!
//! Rendering lives outside the crate; these types carry only plain values,
//! and the selection follows store mutations through small verified
//! transitions.

use vstd::prelude::*;
use vstd::string::StringExecFns;
use crate::digits::{dec_digits, to_decimal};
use crate::rate::{rate_text_spec, DecayRate, DEFAULT_DECAY_CENTI};
use crate::text::str_eq;

verus! {

/// A request raised by the interface, to be handled against the store.
#[derive(Debug, Clone)]
pub enum Action {
    /// Open the category-creation dialog.
    ShowAddCategoryModal,
    /// Open the category-rename dialog for the named category.
    ShowRenameCategoryModal(String),
    /// Open the item-creation dialog under the named category.
    ShowAddItemModal(String),
    /// Open the item-edit dialog for (category, item).
    ShowEditItemModal(String, String),
    /// Open the decay-rate dialog for the current selection.
    ShowEditDecayModal,
    /// Ask to confirm deleting the named category.
    ShowDeleteCategoryConfirm(String),
    /// Ask to confirm deleting (category, item).
    ShowDeleteItemConfirm(String, String),
    /// Ask to confirm deleting the score at the given index.
    ShowDeleteScoreConfirm(usize),
    /// Select (category, item).
    SelectItem(String, String),
    /// Create a category with the given name.
    AddCategory(String),
    /// Rename a category: (old name, new name).
    RenameCategory(String, String),
    /// Create an item: (category, name, decay-rate text).
    AddItem(String, String, String),
    /// Append a score given as text to the current selection.
    AddScore(String),
    /// Delete the named category.
    ExecuteDeleteCategory(String),
    /// Delete (category, item).
    ExecuteDeleteItem(String, String),
    /// Delete the score at the given index of the current selection.
    ExecuteDeleteScore(usize),
    /// Compound edit: (old category, old item, new category, new item,
    /// decay-rate text).
    UpdateItem(String, String, String, String, String),
    /// Replace the current selection's decay rate, given as text.
    UpdateDecayRate(String),
}

/// What a dialog's frame decided.
pub enum ModalResult {
    /// Keep the dialog open.
    KeepOpen,
    /// Close it without any action.
    Close,
    /// Close it and handle the action.
    Dispatch(Action),
}

/// The one open dialog, with the input buffers that belong to its state.
#[derive(Clone, Debug, Default)]
pub enum ModalType {
    /// No dialog is open.
    #[default]
    Closed,
    /// Creating a category.
    AddCategory { input_name: String },
    /// Renaming a category.
    RenameCategory { target: String, input_new_name: String },
    /// Creating an item under a category.
    AddItem { target_category: String, input_name: String, input_decay: String },
    /// Editing an item: destination category, new name, new decay text.
    EditItem {
        target_cat: String,
        target_item: String,
        input_cat: String,
        input_item: String,
        input_decay: String,
    },
    /// Changing the current item's decay rate.
    EditDecay { input_decay: String },
    /// Confirming a category deletion.
    ConfirmDeleteCategory { target: String },
    /// Confirming an item deletion.
    ConfirmDeleteItem { target_cat: String, target_item: String },
    /// Confirming a score deletion.
    ConfirmDeleteScore { index: usize },
}

/// The main screen's selection and score-input state.
pub struct SelectionState {
    pub current_category: Option<String>,
    pub current_item: Option<String>,
    pub selected_history_index: Option<usize>,
    pub input_score: String,
}

impl Default for SelectionState {
    /// Nothing selected, empty input.
    fn default() -> (r: SelectionState)
        ensures
            r.current_category is None,
            r.current_item is None,
            r.selected_history_index is None,
            r.input_score@ == Seq::<char>::empty(),
    {
        SelectionState {
            current_category: None,
            current_item: None,
            selected_history_index: None,
            input_score: String::new(),
        }
    }
}

impl SelectionState {
    /// Selects an item, clearing the score input and any highlighted
    /// history row.
    pub fn select_item(&mut self, cat: String, item: String)
        ensures
            final(self).current_category matches Some(c) && c@ == cat@,
            final(self).current_item matches Some(i) && i@ == item@,
            final(self).selected_history_index is None,
            final(self).input_score@ == Seq::<char>::empty(),
    {
        self.current_category = Some(cat);
        self.current_item = Some(item);
        self.selected_history_index = None;
        self.input_score = String::new();
    }

    /// Follows a category rename: a selection of the old name moves to the
    /// new one; anything else stays put.
    pub fn note_category_renamed(&mut self, old_name: &str, new_name: &str)
        ensures
            (old(self).current_category matches Some(c) && c@ == old_name@)
                ==> (final(self).current_category matches Some(c2) && c2@ == new_name@),
            !(old(self).current_category matches Some(c) && c@ == old_name@)
                ==> final(self).current_category == old(self).current_category,
            final(self).current_item == old(self).current_item,
            final(self).selected_history_index == old(self).selected_history_index,
            final(self).input_score == old(self).input_score,
    {
        let hit = match &self.current_category {
            Some(c) => str_eq(c.as_str(), old_name),
            None => false,
        };
        if hit {
            self.current_category = Some(new_name.to_owned());
        }
    }

    /// Follows a category deletion: a selection inside it is cleared.
    pub fn note_category_removed(&mut self, name: &str)
        ensures
            (old(self).current_category matches Some(c) && c@ == name@)
                ==> final(self).current_category is None && final(self).current_item is None,
            !(old(self).current_category matches Some(c) && c@ == name@)
                ==> *final(self) == *old(self),
            final(self).selected_history_index == old(self).selected_history_index,
            final(self).input_score == old(self).input_score,
    {
        let hit = match &self.current_category {
            Some(c) => str_eq(c.as_str(), name),
            None => false,
        };
        if hit {
            self.current_category = None;
            self.current_item = None;
        }
    }

    /// Follows an item deletion: if it was the selected one, the item
    /// selection and the highlighted history row are cleared.
    pub fn note_item_removed(&mut self, cat: &str, item: &str)
        ensures
            ({
                &&& old(self).current_category matches Some(c) && c@ == cat@
                &&& old(self).current_item matches Some(i) && i@ == item@
            }) ==> final(self).current_item is None && final(self).selected_history_index is None,
            !({
                &&& old(self).current_category matches Some(c) && c@ == cat@
                &&& old(self).current_item matches Some(i) && i@ == item@
            }) ==> *final(self) == *old(self),
            final(self).current_category == old(self).current_category,
            final(self).input_score == old(self).input_score,
    {
        let cat_hit = match &self.current_category {
            Some(c) => str_eq(c.as_str(), cat),
            None => false,
        };
        let item_hit = match &self.current_item {
            Some(i) => str_eq(i.as_str(), item),
            None => false,
        };
        if cat_hit && item_hit {
            self.current_item = None;
            self.selected_history_index = None;
        }
    }

    /// Follows a compound item edit: a selection of the old pair moves to
    /// the new pair; anything else stays put.
    pub fn note_item_updated(&mut self, old_cat: &str, old_item: &str, new_cat: &str, new_item: &str)
        ensures
            ({
                &&& old(self).current_category matches Some(c) && c@ == old_cat@
                &&& old(self).current_item matches Some(i) && i@ == old_item@
            }) ==> {
                &&& final(self).current_category matches Some(c) && c@ == new_cat@
                &&& final(self).current_item matches Some(i) && i@ == new_item@
            },
            !({
                &&& old(self).current_category matches Some(c) && c@ == old_cat@
                &&& old(self).current_item matches Some(i) && i@ == old_item@
            }) ==> *final(self) == *old(self),
            final(self).selected_history_index == old(self).selected_history_index,
            final(self).input_score == old(self).input_score,
    {
        let cat_hit = match &self.current_category {
            Some(c) => str_eq(c.as_str(), old_cat),
            None => false,
        };
        let item_hit = match &self.current_item {
            Some(i) => str_eq(i.as_str(), old_item),
            None => false,
        };
        if cat_hit && item_hit {
            self.current_category = Some(new_cat.to_owned());
            self.current_item = Some(new_item.to_owned());
        }
    }
}

/// Input state of the category-creation dialog.
pub struct AddCategoryModal {
    pub input_cat: String,
}

impl AddCategoryModal {
    /// An empty name buffer.
    pub fn new() -> (r: AddCategoryModal)
        ensures
            r.input_cat@ == Seq::<char>::empty(),
    {
        AddCategoryModal { input_cat: String::new() }
    }
}

/// Input state of the item-creation dialog.
pub struct AddItemModal {
    pub target_cat: String,
    pub input_item: String,
    pub input_decay: String,
}

impl AddItemModal {
    /// An empty item buffer under the given category, with the default
    /// decay rate as initial text.
    pub fn new(cat_name: String) -> (r: AddItemModal)
        ensures
            r.target_cat@ == cat_name@,
            r.input_item@ == Seq::<char>::empty(),
            r.input_decay@ == rate_text_spec(DEFAULT_DECAY_CENTI as int),
    {
        AddItemModal {
            target_cat: cat_name,
            input_item: String::new(),
            input_decay: DecayRate::default_rate().text(),
        }
    }
}

/// Input state of the category-rename dialog.
pub struct EditCategoryModal {
    pub target_cat: String,
    pub input_cat: String,
}

impl EditCategoryModal {
    /// The rename buffer starts at the current name.
    pub fn new(cat_name: String) -> (r: EditCategoryModal)
        ensures
            r.target_cat@ == cat_name@,
            r.input_cat@ == cat_name@,
    {
        EditCategoryModal { target_cat: cat_name.clone(), input_cat: cat_name }
    }
}

/// Input state of the decay-rate dialog.
pub struct EditDecayModal {
    pub cat_name: String,
    pub item_name: String,
    pub input_decay: String,
}

impl EditDecayModal {
    /// The rate buffer starts at the current rate's text.
    pub fn new(cat_name: String, item_name: String, now_decay: DecayRate) -> (r: EditDecayModal)
        requires
            now_decay.valid(),
        ensures
            r.cat_name@ == cat_name@,
            r.item_name@ == item_name@,
            r.input_decay@ == rate_text_spec(now_decay.spec_centi()),
    {
        EditDecayModal { cat_name, item_name, input_decay: now_decay.text() }
    }
}

/// Input state of the item-edit dialog.
pub struct EditItemModal {
    pub target_cat: String,
    pub target_item: String,
    pub input_cat: String,
    pub input_item: String,
    pub input_decay: String,
    pub available_categories: Vec<String>,
}

impl EditItemModal {
    /// The buffers start at the item's current place, name and rate; the
    /// category choices are handed in already sorted for display.
    pub fn new(
        cat_name: String,
        item_name: String,
        current_decay: DecayRate,
        categories: Vec<String>,
    ) -> (r: EditItemModal)
        requires
            current_decay.valid(),
        ensures
            r.target_cat@ == cat_name@,
            r.target_item@ == item_name@,
            r.input_cat@ == cat_name@,
            r.input_item@ == item_name@,
            r.input_decay@ == rate_text_spec(current_decay.spec_centi()),
            r.available_categories == categories,
    {
        EditItemModal {
            target_cat: cat_name.clone(),
            target_item: item_name.clone(),
            input_cat: cat_name,
            input_item: item_name,
            input_decay: current_decay.text(),
            available_categories: categories,
        }
    }
}

/// State of the error dialog: the message to show.
pub struct ErrorModal {
    pub error_msg: String,
}

impl ErrorModal {
    /// Carries the message as given.
    pub fn new(error_msg: String) -> (r: ErrorModal)
        ensures
            r.error_msg@ == error_msg@,
    {
        ErrorModal { error_msg }
    }
}

/// State of a confirmation dialog: what to show and what to do on "yes".
pub struct ConfirmationModal {
    pub title: String,
    pub message: String,
    pub ok_action: Action,
}

impl ConfirmationModal {
    /// A confirmation with the given title, message and confirmed action.
    pub fn new(title: String, message: String, action: Action) -> (r: ConfirmationModal)
        ensures
            r.title@ == title@,
            r.message@ == message@,
            r.ok_action == action,
    {
        ConfirmationModal { title, message, ok_action: action }
    }

    /// Confirms deleting a category and everything it owns.
    pub fn new_delete_category(cat_name: String) -> (r: ConfirmationModal)
        ensures
            r.title@ == "カテゴリ削除"@,
            r.message@ == "カテゴリ「"@ + cat_name@
                + "」を削除しますか？\n含まれるすべての項目と履歴が失われます。"@,
            r.ok_action == Action::ExecuteDeleteCategory(cat_name),
    {
        let mut message = "カテゴリ「".to_owned();
        message.append(cat_name.as_str());
        message.append("」を削除しますか？\n含まれるすべての項目と履歴が失われます。");
        ConfirmationModal {
            title: "カテゴリ削除".to_owned(),
            message,
            ok_action: Action::ExecuteDeleteCategory(cat_name),
        }
    }

    /// Confirms deleting one item and its history.
    pub fn new_delete_item(cat_name: String, item_name: String) -> (r: ConfirmationModal)
        ensures
            r.title@ == "項目削除"@,
            r.message@ == "項目「"@ + item_name@
                + "」を削除しますか？\nこの項目の履歴データもすべて失われます。"@,
            r.ok_action == Action::ExecuteDeleteItem(cat_name, item_name),
    {
        let mut message = "項目「".to_owned();
        message.append(item_name.as_str());
        message.append("」を削除しますか？\nこの項目の履歴データもすべて失われます。");
        ConfirmationModal {
            title: "項目削除".to_owned(),
            message,
            ok_action: Action::ExecuteDeleteItem(cat_name, item_name),
        }
    }

    /// Confirms deleting the score at the given index.
    pub fn new_delete_score(index: usize) -> (r: ConfirmationModal)
        ensures
            r.title@ == "スコア削除"@,
            r.message@ == dec_digits(index as int) + "個目のスコアを削除しますか？"@,
            r.ok_action == Action::ExecuteDeleteScore(index),
    {
        let mut message = to_decimal(index as u64);
        message.append("個目のスコアを削除しますか？");
        ConfirmationModal {
            title: "スコア削除".to_owned(),
            message,
            ok_action: Action::ExecuteDeleteScore(index),
        }
    }
}

/// The middle panel's own state: the highlighted history row and a pending
/// scroll request towards it.
pub struct CentralPanel {
    pub selected_index: Option<usize>,
    pub scroll_req_index: Option<usize>,
}

impl CentralPanel {
    /// Nothing highlighted, no scroll pending.
    pub fn new() -> (r: CentralPanel)
        ensures
            r.selected_index is None,
            r.scroll_req_index is None,
    {
        CentralPanel { selected_index: None, scroll_req_index: None }
    }
}

/// The score-input widget; its buffer lives in `SelectionState`.
pub struct ScoreInput;

impl ScoreInput {
    /// A fresh input widget.
    pub fn new() -> (r: ScoreInput) {
        ScoreInput
    }
}

/// The category list panel; it draws from the store and holds no state.
pub struct SidePanel {}

impl SidePanel {
    /// A fresh panel.
    pub fn new() -> (r: SidePanel) {
        SidePanel {}
    }
}

} // verus!
