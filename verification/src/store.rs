//! The domain store: categories own items, items own score sequences.
//!
//! Names are unique at their scope, decay rates are always valid, scores are
//! never negative, and every mutation either fully applies or leaves the
//! store untouched.  Contracts speak over ghost views: a store is a sequence
//! of category views, each holding a sequence of item views.

use vstd::prelude::*;
use crate::clock::now_millis;
use crate::order::indices_by_key_desc;
use crate::error::StoreError;
use crate::rate::{DecayRate, MIN_DECAY_CENTI, MAX_DECAY_CENTI};
use crate::text::{str_eq, trim_str, trimmed_of};

verus! {

/// Ghost image of one recorded score.
pub ghost struct ScoreView {
    pub score: int,
    pub timestamp: int,
}

/// Ghost image of one item: a named score sequence with its decay rate.
pub ghost struct ItemView {
    pub name: Seq<char>,
    pub decay_centi: int,
    pub updated_at: int,
    pub scores: Seq<ScoreView>,
}

/// Ghost image of one category: a named collection of items.
pub ghost struct CategoryView {
    pub name: Seq<char>,
    pub created_at: int,
    pub items: Seq<ItemView>,
}

/// One recorded score with its creation time (milliseconds since the Unix
/// epoch).  Entries are immutable once created.
#[derive(Clone, Copy, Debug)]
pub struct ScoreEntry {
    score: i64,
    timestamp: i64,
}

impl View for ScoreEntry {
    type V = ScoreView;

    closed spec fn view(&self) -> ScoreView {
        ScoreView { score: self.score as int, timestamp: self.timestamp as int }
    }
}

impl ScoreEntry {
    /// The recorded score value.
    pub fn score(&self) -> (r: i64)
        ensures
            r == self@.score,
    {
        self.score
    }

    /// When the score was recorded.
    pub fn timestamp(&self) -> (r: i64)
        ensures
            r == self@.timestamp,
    {
        self.timestamp
    }
}

/// An item is well formed when its name is non-empty and carries no
/// surrounding whitespace, its decay rate is in range, and none of its
/// scores is negative.
pub open spec fn wf_item(it: ItemView) -> bool {
    &&& it.name.len() > 0
    &&& trimmed_of(it.name) == it.name
    &&& MIN_DECAY_CENTI <= it.decay_centi <= MAX_DECAY_CENTI
    &&& forall|k: int| 0 <= k < it.scores.len() ==> (#[trigger] it.scores[k]).score >= 0
}

/// One named score sequence together with its decay rate and the time of
/// its last score or rate mutation.
#[derive(Debug)]
pub struct ItemData {
    name: String,
    decay_rate: DecayRate,
    updated_at: i64,
    scores: Vec<ScoreEntry>,
}

impl View for ItemData {
    type V = ItemView;

    closed spec fn view(&self) -> ItemView {
        ItemView {
            name: self.name@,
            decay_centi: self.decay_rate.spec_centi(),
            updated_at: self.updated_at as int,
            scores: Seq::new(self.scores@.len(), |i: int| self.scores@[i]@),
        }
    }
}

impl ItemData {
    /// Builds an empty item under the given name, stamped with the current
    /// time.
    pub(crate) fn new(name: String, decay_rate: DecayRate) -> (r: ItemData)
        requires
            name@.len() > 0,
            trimmed_of(name@) == name@,
            decay_rate.valid(),
        ensures
            r@.name == name@,
            r@.decay_centi == decay_rate.spec_centi(),
            r@.scores == Seq::<ScoreView>::empty(),
            wf_item(r@),
    {
        let r = ItemData { name, decay_rate, updated_at: now_millis(), scores: Vec::new() };
        proof {
            assert(r@.scores =~= Seq::<ScoreView>::empty());
        }
        r
    }

    /// Rebuilds an item from stored parts: scores arrive as (value,
    /// timestamp) pairs and every value must be non-negative.
    pub(crate) fn restore(
        name: String,
        decay_rate: DecayRate,
        updated_at: i64,
        score_values: &Vec<(i64, i64)>,
    ) -> (r: Result<ItemData, StoreError>)
        requires
            name@.len() > 0,
            trimmed_of(name@) == name@,
            decay_rate.valid(),
        ensures
            r is Ok <==> forall|k: int|
                0 <= k < score_values@.len() ==> (#[trigger] score_values@[k]).0 >= 0,
            r matches Ok(it) ==> {
                &&& it@.name == name@
                &&& it@.decay_centi == decay_rate.spec_centi()
                &&& it@.updated_at == updated_at
                &&& it@.scores.len() == score_values@.len()
                &&& forall|k: int|
                    0 <= k < score_values@.len() ==> (#[trigger] it@.scores[k]) == (ScoreView {
                        score: score_values@[k].0 as int,
                        timestamp: score_values@[k].1 as int,
                    })
                &&& wf_item(it@)
            },
            r matches Err(e) ==> e == StoreError::NegativeScore,
    {
        let n = score_values.len();
        let mut scores: Vec<ScoreEntry> = Vec::new();
        let mut i: usize = 0;
        while i < n
            invariant
                i <= n,
                n == score_values@.len(),
                scores@.len() == i,
                forall|k: int| 0 <= k < i ==> (#[trigger] score_values@[k]).0 >= 0,
                forall|k: int|
                    0 <= k < i ==> (#[trigger] scores@[k])@ == (ScoreView {
                        score: score_values@[k].0 as int,
                        timestamp: score_values@[k].1 as int,
                    }),
            decreases n - i,
        {
            let (value, timestamp) = score_values[i];
            if value < 0 {
                return Err(StoreError::NegativeScore);
            }
            scores.push(ScoreEntry { score: value, timestamp });
            i += 1;
        }
        Ok(ItemData { name, decay_rate, updated_at, scores })
    }

    /// The item's name.
    pub fn name(&self) -> (r: &String)
        ensures
            r@ == self@.name,
    {
        &self.name
    }

    /// The item's decay rate.
    pub fn decay_rate(&self) -> (r: DecayRate)
        ensures
            r.spec_centi() == self@.decay_centi,
    {
        self.decay_rate
    }

    /// When the item last had a score or decay-rate mutation.
    pub fn updated_at(&self) -> (r: i64)
        ensures
            r == self@.updated_at,
    {
        self.updated_at
    }

    /// The score sequence, oldest first.
    pub fn scores(&self) -> (r: &Vec<ScoreEntry>)
        ensures
            r@.len() == self@.scores.len(),
            forall|i: int| 0 <= i < r@.len() ==> (#[trigger] r@[i])@ == self@.scores[i],
    {
        &self.scores
    }

    /// Appends a non-negative score, stamped with the current time, which
    /// also becomes the item's new `updated_at`.  A negative score is
    /// rejected and the item is left unchanged.
    pub fn add_score(&mut self, score: i64) -> (r: Result<(), StoreError>)
        requires
            wf_item(old(self)@),
        ensures
            r is Ok <==> score >= 0,
            r matches Ok(()) ==> {
                &&& final(self)@.name == old(self)@.name
                &&& final(self)@.decay_centi == old(self)@.decay_centi
                &&& final(self)@.scores == old(self)@.scores.push(
                    ScoreView { score: score as int, timestamp: final(self)@.updated_at },
                )
                &&& wf_item(final(self)@)
            },
            r matches Err(e) ==> final(self)@ == old(self)@ && e == StoreError::NegativeScore,
    {
        if score < 0 {
            return Err(StoreError::NegativeScore);
        }
        let now = now_millis();
        self.scores.push(ScoreEntry { score, timestamp: now });
        self.updated_at = now;
        proof {
            assert(self@.scores =~= old(self)@.scores.push(
                ScoreView { score: score as int, timestamp: self@.updated_at },
            ));
        }
        Ok(())
    }

    /// Removes the score at the given physical position (0-based, insertion
    /// order) and refreshes `updated_at`; an out-of-range index is rejected
    /// and the item is left unchanged.
    pub fn remove_score(&mut self, index: usize) -> (r: Result<(), StoreError>)
        requires
            wf_item(old(self)@),
        ensures
            r is Ok <==> index < old(self)@.scores.len(),
            r matches Ok(()) ==> {
                &&& final(self)@.name == old(self)@.name
                &&& final(self)@.decay_centi == old(self)@.decay_centi
                &&& final(self)@.scores == old(self)@.scores.remove(index as int)
                &&& wf_item(final(self)@)
            },
            r matches Err(e) ==> final(self)@ == old(self)@
                && e == StoreError::ScoreIndexOutOfRange,
    {
        if index >= self.scores.len() {
            return Err(StoreError::ScoreIndexOutOfRange);
        }
        self.scores.remove(index);
        self.updated_at = now_millis();
        proof {
            assert(self@.scores =~= old(self)@.scores.remove(index as int));
        }
        Ok(())
    }

    /// Replaces the decay rate and refreshes `updated_at`; the rate arrives
    /// already validated, so nothing else changes.
    pub fn update_decay_rate(&mut self, new_rate: DecayRate)
        requires
            wf_item(old(self)@),
            new_rate.valid(),
        ensures
            final(self)@.name == old(self)@.name,
            final(self)@.decay_centi == new_rate.spec_centi(),
            final(self)@.scores == old(self)@.scores,
            wf_item(final(self)@),
    {
        self.decay_rate = new_rate;
        self.updated_at = now_millis();
        proof {
            assert(self@.scores =~= old(self)@.scores);
        }
    }
}

impl Clone for ItemData {
    /// An exact copy: the clone's view equals the original's.
    fn clone(&self) -> (res: Self)
        ensures
            res@ == self@,
    {
        let mut scores: Vec<ScoreEntry> = Vec::new();
        let n = self.scores.len();
        let mut i: usize = 0;
        while i < n
            invariant
                i <= n,
                n == self.scores@.len(),
                scores@.len() == i,
                forall|j: int| 0 <= j < i ==> #[trigger] scores@[j] == self.scores@[j],
            decreases n - i,
        {
            scores.push(self.scores[i]);
            i += 1;
        }
        let res = ItemData {
            name: self.name.clone(),
            decay_rate: self.decay_rate,
            updated_at: self.updated_at,
            scores,
        };
        proof {
            assert(res@.scores =~= self@.scores);
        }
        res
    }
}

/// Whether some item in the sequence carries the given name.
pub open spec fn has_item(items: Seq<ItemView>, name: Seq<char>) -> bool {
    exists|i: int| 0 <= i < items.len() && (#[trigger] items[i]).name == name
}

/// The position of the item with the given name; meaningful only when
/// `has_item` holds, and unique under well-formedness.
pub open spec fn item_idx(items: Seq<ItemView>, name: Seq<char>) -> int {
    choose|i: int| 0 <= i < items.len() && (#[trigger] items[i]).name == name
}

/// Item sequences are well formed when names are pairwise distinct and each
/// item is itself well formed.
pub open spec fn wf_items(items: Seq<ItemView>) -> bool {
    &&& forall|i: int, j: int|
        0 <= i < j < items.len() ==> (#[trigger] items[i]).name != (#[trigger] items[j]).name
    &&& forall|i: int| 0 <= i < items.len() ==> wf_item(#[trigger] items[i])
}

/// A category is well formed when its name is non-empty and carries no
/// surrounding whitespace, and its items are well formed.
pub open spec fn wf_category(c: CategoryView) -> bool {
    &&& c.name.len() > 0
    &&& trimmed_of(c.name) == c.name
    &&& wf_items(c.items)
}

/// A named collection of items, stamped with its creation time.
#[derive(Debug)]
pub struct CategoryData {
    name: String,
    created_at: i64,
    items: Vec<ItemData>,
}

impl View for CategoryData {
    type V = CategoryView;

    closed spec fn view(&self) -> CategoryView {
        CategoryView {
            name: self.name@,
            created_at: self.created_at as int,
            items: Seq::new(self.items@.len(), |i: int| self.items@[i]@),
        }
    }
}

impl CategoryData {
    /// Builds an empty category under the given name, stamped with the
    /// current time.
    pub(crate) fn new(name: String) -> (r: CategoryData)
        requires
            name@.len() > 0,
            trimmed_of(name@) == name@,
        ensures
            r@.name == name@,
            r@.items == Seq::<ItemView>::empty(),
            wf_category(r@),
    {
        let r = CategoryData { name, created_at: now_millis(), items: Vec::new() };
        proof {
            assert(r@.items =~= Seq::<ItemView>::empty());
        }
        r
    }

    /// Rebuilds an empty category from stored parts, keeping the stored
    /// creation time.
    pub(crate) fn restore(name: String, created_at: i64) -> (r: CategoryData)
        requires
            name@.len() > 0,
            trimmed_of(name@) == name@,
        ensures
            r@.name == name@,
            r@.created_at == created_at,
            r@.items == Seq::<ItemView>::empty(),
            wf_category(r@),
    {
        let r = CategoryData { name, created_at, items: Vec::new() };
        proof {
            assert(r@.items =~= Seq::<ItemView>::empty());
        }
        r
    }

    /// The category's name.
    pub fn name(&self) -> (r: &String)
        ensures
            r@ == self@.name,
    {
        &self.name
    }

    /// When the category was created.
    pub fn created_at(&self) -> (r: i64)
        ensures
            r == self@.created_at,
    {
        self.created_at
    }

    /// The items, in insertion order.
    pub fn items(&self) -> (r: &Vec<ItemData>)
        ensures
            r@.len() == self@.items.len(),
            forall|i: int| 0 <= i < r@.len() ==> (#[trigger] r@[i])@ == self@.items[i],
    {
        &self.items
    }

    /// The items' positions ordered for display: most recently updated
    /// first, insertion order breaking ties.
    pub fn items_by_recency(&self) -> (r: Vec<usize>)
        ensures
            r@.len() == self@.items.len(),
            forall|i: int| 0 <= i < r@.len() ==> (#[trigger] r@[i]) < self@.items.len(),
            forall|i: int, j: int| 0 <= i < j < r@.len() ==> r@[i] != r@[j],
            forall|i: int, j: int|
                0 <= i < j < r@.len() ==> self@.items[r@[i] as int].updated_at
                    >= self@.items[r@[j] as int].updated_at,
            forall|i: int, j: int|
                0 <= i < j < r@.len() && self@.items[r@[i] as int].updated_at
                    == self@.items[r@[j] as int].updated_at ==> r@[i] < r@[j],
            forall|k: usize| k < self@.items.len() ==> r@.contains(k),
    {
        let n = self.items.len();
        let mut keys: Vec<i64> = Vec::new();
        let mut i: usize = 0;
        while i < n
            invariant
                i <= n,
                n == self.items@.len(),
                n == self@.items.len(),
                keys@.len() == i,
                forall|k: int| 0 <= k < i ==> (#[trigger] keys@[k]) as int == self@.items[k].updated_at,
            decreases n - i,
        {
            keys.push(self.items[i].updated_at());
            i += 1;
        }
        indices_by_key_desc(&keys)
    }

    /// The position of the item with the given name, if any; the returned
    /// index is the first (and under well-formedness, the only) match.
    pub(crate) fn find_item(&self, name: &str) -> (r: Option<usize>)
        ensures
            match r {
                Some(i) => i < self@.items.len() && self@.items[i as int].name == name@,
                None => !has_item(self@.items, name@),
            },
    {
        let n = self.items.len();
        let mut i: usize = 0;
        while i < n
            invariant
                i <= n,
                n == self@.items.len(),
                n == self.items@.len(),
                forall|j: int| 0 <= j < i ==> (#[trigger] self@.items[j]).name != name@,
            decreases n - i,
        {
            assert(self@.items[i as int].name == self.items@[i as int]@.name);
            if str_eq(self.items[i].name.as_str(), name) {
                return Some(i);
            }
            i += 1;
        }
        None
    }

    /// Whether an item with the given name exists in this category.
    pub fn item_exists(&self, item: &str) -> (r: bool)
        ensures
            r == has_item(self@.items, item@),
    {
        match self.find_item(item) {
            Some(i) => {
                proof {
                    assert(0 <= i < self@.items.len() && self@.items[i as int].name == item@);
                }
                true
            },
            None => false,
        }
    }

    /// A shared reference to the named item, if it exists.
    pub(crate) fn get_item(&self, name: &str) -> (r: Option<&ItemData>)
        requires
            wf_category(self@),
        ensures
            r is Some <==> has_item(self@.items, name@),
            r matches Some(it) ==> it@ == self@.items[item_idx(self@.items, name@)]
                && it@.name == name@,
    {
        match self.find_item(name) {
            Some(i) => {
                let it = &self.items[i];
                proof {
                    lemma_item_idx_unique(self@.items, name@, i as int);
                }
                Some(it)
            },
            None => None,
        }
    }

    /// Adds a fresh, empty item under the trimmed name with the given decay
    /// rate.  An empty trimmed name or a name already used in this category
    /// is rejected and nothing changes.
    pub fn add_item(&mut self, name: String, decay_rate: DecayRate) -> (r: Result<
        (),
        StoreError,
    >)
        requires
            wf_category(old(self)@),
            decay_rate.valid(),
        ensures
            r is Ok <==> (trimmed_of(name@).len() > 0 && !has_item(
                old(self)@.items,
                trimmed_of(name@),
            )),
            r matches Ok(()) ==> {
                &&& final(self)@.name == old(self)@.name
                &&& final(self)@.created_at == old(self)@.created_at
                &&& final(self)@.items.len() == old(self)@.items.len() + 1
                &&& final(self)@.items.subrange(0, old(self)@.items.len() as int) == old(
                    self,
                )@.items
                &&& final(self)@.items.last().name == trimmed_of(name@)
                &&& final(self)@.items.last().decay_centi == decay_rate.spec_centi()
                &&& final(self)@.items.last().scores == Seq::<ScoreView>::empty()
                &&& wf_category(final(self)@)
            },
            r matches Err(e) ==> final(self)@ == old(self)@ && e == (
            if trimmed_of(name@).len() == 0 {
                StoreError::EmptyItemName
            } else {
                StoreError::DuplicateItem
            }),
    {
        let trimmed = trim_str(name.as_str());
        if trimmed.is_empty() {
            return Err(StoreError::EmptyItemName);
        }
        if self.item_exists(trimmed) {
            return Err(StoreError::DuplicateItem);
        }
        let item = ItemData::new(trimmed.to_owned(), decay_rate);
        let ghost pre = self@.items;
        let ghost itv = item@;
        self.items.push(item);
        proof {
            assert(self@.items =~= pre.push(itv));
            assert(self@.items.subrange(0, pre.len() as int) =~= pre);
            assert forall|i: int, j: int| 0 <= i < j < self@.items.len() implies (
            #[trigger] self@.items[i]).name != (#[trigger] self@.items[j]).name by {
                if j < pre.len() {
                } else {
                    assert(self@.items[j].name == trimmed_of(name@));
                    assert(!has_item(pre, trimmed_of(name@)));
                }
            }
        }
        Ok(())
    }

    /// Renames an item in place.  Renaming to the same name is a successful
    /// no-op; an empty trimmed name, a name already taken, or a missing
    /// source item is rejected and nothing changes.
    pub fn rename_item(&mut self, old_name: &str, new_name: String) -> (r: Result<
        (),
        StoreError,
    >)
        requires
            wf_category(old(self)@),
        ensures
            r is Ok <==> (old_name@ == trimmed_of(new_name@) || (trimmed_of(new_name@).len() > 0
                && !has_item(old(self)@.items, trimmed_of(new_name@)) && has_item(
                old(self)@.items,
                old_name@,
            ))),
            r is Ok && old_name@ == trimmed_of(new_name@) ==> final(self)@ == old(self)@,
            r is Ok && old_name@ != trimmed_of(new_name@) ==> {
                &&& final(self)@.name == old(self)@.name
                &&& final(self)@.created_at == old(self)@.created_at
                &&& final(self)@.items == old(self)@.items.update(
                    item_idx(old(self)@.items, old_name@),
                    ItemView {
                        name: trimmed_of(new_name@),
                        ..old(self)@.items[item_idx(old(self)@.items, old_name@)]
                    },
                )
                &&& wf_category(final(self)@)
            },
            r matches Err(e) ==> final(self)@ == old(self)@ && e == (
            if trimmed_of(new_name@).len() == 0 {
                StoreError::EmptyItemName
            } else if has_item(old(self)@.items, trimmed_of(new_name@)) {
                StoreError::DuplicateItem
            } else {
                StoreError::ItemNotFound
            }),
    {
        let trimmed = trim_str(new_name.as_str());
        if str_eq(old_name, trimmed) {
            return Ok(());
        }
        if trimmed.is_empty() {
            return Err(StoreError::EmptyItemName);
        }
        if self.item_exists(trimmed) {
            return Err(StoreError::DuplicateItem);
        }
        let idx = match self.find_item(old_name) {
            Some(i) => i,
            None => {
                return Err(StoreError::ItemNotFound);
            },
        };
        proof {
            lemma_item_idx_unique(self@.items, old_name@, idx as int);
        }
        let ghost pre = self@.items;
        let mut item = self.items.remove(idx);
        item.name = trimmed.to_owned();
        self.items.insert(idx, item);
        proof {
            let k = idx as int;
            let renamed = ItemView { name: trimmed_of(new_name@), ..pre[k] };
            assert(self@.items =~= pre.update(k, renamed));
            assert forall|i: int, j: int| 0 <= i < j < self@.items.len() implies (
            #[trigger] self@.items[i]).name != (#[trigger] self@.items[j]).name by {
                if i != k && j != k {
                } else {
                    assert(!has_item(pre, trimmed_of(new_name@)));
                }
            }
        }
        Ok(())
    }

    /// Removes the named item and hands it back; a missing item is rejected
    /// and nothing changes.
    pub fn remove_item(&mut self, item_name: &str) -> (r: Result<ItemData, StoreError>)
        requires
            wf_category(old(self)@),
        ensures
            r is Ok <==> has_item(old(self)@.items, item_name@),
            r matches Ok(it) ==> {
                &&& it@ == old(self)@.items[item_idx(old(self)@.items, item_name@)]
                &&& it@.name == item_name@
                &&& final(self)@.name == old(self)@.name
                &&& final(self)@.created_at == old(self)@.created_at
                &&& final(self)@.items == old(self)@.items.remove(
                    item_idx(old(self)@.items, item_name@),
                )
                &&& wf_category(final(self)@)
                &&& wf_item(it@)
            },
            r matches Err(e) ==> final(self)@ == old(self)@ && e == StoreError::ItemNotFound,
    {
        let idx = match self.find_item(item_name) {
            Some(i) => i,
            None => {
                return Err(StoreError::ItemNotFound);
            },
        };
        proof {
            lemma_item_idx_unique(self@.items, item_name@, idx as int);
        }
        let ghost pre = self@.items;
        let item = self.items.remove(idx);
        proof {
            assert(self@.items =~= pre.remove(idx as int));
        }
        Ok(item)
    }

    /// Inserts an already-built item whose name is not yet used here.
    pub(crate) fn insert_item(&mut self, item: ItemData)
        requires
            wf_category(old(self)@),
            wf_item(item@),
            !has_item(old(self)@.items, item@.name),
        ensures
            final(self)@.name == old(self)@.name,
            final(self)@.created_at == old(self)@.created_at,
            final(self)@.items == old(self)@.items.push(item@),
            wf_category(final(self)@),
    {
        let ghost pre = self@.items;
        let ghost itv = item@;
        self.items.push(item);
        proof {
            assert(self@.items =~= pre.push(itv));
            assert forall|i: int, j: int| 0 <= i < j < self@.items.len() implies (
            #[trigger] self@.items[i]).name != (#[trigger] self@.items[j]).name by {
                if j == pre.len() {
                    assert(!has_item(pre, itv.name));
                }
            }
        }
    }

    /// Removes the item at a known position, for edit-and-reinsert updates.
    pub(crate) fn take_item_at(&mut self, idx: usize) -> (r: ItemData)
        requires
            idx < old(self)@.items.len(),
        ensures
            r@ == old(self)@.items[idx as int],
            final(self)@.name == old(self)@.name,
            final(self)@.created_at == old(self)@.created_at,
            final(self)@.items == old(self)@.items.remove(idx as int),
    {
        let ghost pre = self@.items;
        let item = self.items.remove(idx);
        proof {
            assert(self@.items =~= pre.remove(idx as int));
        }
        item
    }

    /// Puts an item back at a known position, for edit-and-reinsert updates.
    pub(crate) fn put_item_at(&mut self, idx: usize, item: ItemData)
        requires
            idx <= old(self)@.items.len(),
        ensures
            final(self)@.name == old(self)@.name,
            final(self)@.created_at == old(self)@.created_at,
            final(self)@.items == old(self)@.items.insert(idx as int, item@),
    {
        let ghost pre = self@.items;
        let ghost itv = item@;
        self.items.insert(idx, item);
        proof {
            assert(self@.items =~= pre.insert(idx as int, itv));
        }
    }
}

impl Clone for CategoryData {
    /// An exact copy: the clone's view equals the original's.
    fn clone(&self) -> (res: Self)
        ensures
            res@ == self@,
    {
        let mut items: Vec<ItemData> = Vec::new();
        let n = self.items.len();
        let mut i: usize = 0;
        while i < n
            invariant
                i <= n,
                n == self.items@.len(),
                items@.len() == i,
                forall|j: int| 0 <= j < i ==> (#[trigger] items@[j])@ == self.items@[j]@,
            decreases n - i,
        {
            items.push(self.items[i].clone());
            i += 1;
        }
        let res = CategoryData { name: self.name.clone(), created_at: self.created_at, items };
        proof {
            assert(res@.items =~= self@.items);
        }
        res
    }
}

/// Whether some category in the store carries the given name.
pub open spec fn has_cat(cats: Seq<CategoryView>, name: Seq<char>) -> bool {
    exists|i: int| 0 <= i < cats.len() && (#[trigger] cats[i]).name == name
}

/// The position of the category with the given name; meaningful only when
/// `has_cat` holds, and unique under well-formedness.
pub open spec fn cat_idx(cats: Seq<CategoryView>, name: Seq<char>) -> int {
    choose|i: int| 0 <= i < cats.len() && (#[trigger] cats[i]).name == name
}

/// A store is well formed when category names are pairwise distinct and
/// every category is well formed.
pub open spec fn wf_store(cats: Seq<CategoryView>) -> bool {
    &&& forall|i: int, j: int|
        0 <= i < j < cats.len() ==> (#[trigger] cats[i]).name != (#[trigger] cats[j]).name
    &&& forall|i: int| 0 <= i < cats.len() ==> wf_category(#[trigger] cats[i])
}

/// Whether the named category exists and holds the named item.
pub open spec fn has_cat_item(cats: Seq<CategoryView>, cat: Seq<char>, item: Seq<char>) -> bool {
    has_cat(cats, cat) && has_item(cats[cat_idx(cats, cat)].items, item)
}

/// The view of the named item; meaningful only when `has_cat_item` holds.
pub open spec fn item_of(cats: Seq<CategoryView>, cat: Seq<char>, item: Seq<char>) -> ItemView {
    cats[cat_idx(cats, cat)].items[item_idx(cats[cat_idx(cats, cat)].items, item)]
}

/// The store with the named item replaced by `it2`; meaningful only when
/// `has_cat_item` holds.
pub open spec fn with_item(
    cats: Seq<CategoryView>,
    cat: Seq<char>,
    item: Seq<char>,
    it2: ItemView,
) -> Seq<CategoryView> {
    let ci = cat_idx(cats, cat);
    let c = cats[ci];
    cats.update(ci, CategoryView { items: c.items.update(item_idx(c.items, item), it2), ..c })
}

/// Under pairwise-distinct names, any index holding `name` is the chosen
/// `item_idx`.
pub proof fn lemma_item_idx_unique(items: Seq<ItemView>, name: Seq<char>, i: int)
    requires
        forall|p: int, q: int|
            0 <= p < q < items.len() ==> (#[trigger] items[p]).name != (#[trigger] items[q]).name,
        0 <= i < items.len(),
        items[i].name == name,
    ensures
        has_item(items, name),
        item_idx(items, name) == i,
{
    assert(has_item(items, name));
    let j = item_idx(items, name);
    assert(0 <= j < items.len() && items[j].name == name);
    if i < j {
        assert(items[i].name != items[j].name);
    } else if j < i {
        assert(items[j].name != items[i].name);
    }
}

/// The law of positional score indices: removing the entry at an index and
/// then appending an entry with the same value does not restore the old
/// sequence shape.  The appended entry sits at the end, every entry from
/// the removed index onward has shifted down by one place, and entries
/// before it stay put — indices name positions, not identities.
pub proof fn lemma_score_index_positional(scores: Seq<ScoreView>, idx: int, entry: ScoreView)
    requires
        0 <= idx < scores.len(),
    ensures
        scores.remove(idx).push(entry).len() == scores.len(),
        scores.remove(idx).push(entry).last() == entry,
        forall|j: int| 0 <= j < idx ==> scores.remove(idx).push(entry)[j] == scores[j],
        forall|j: int|
            idx <= j < scores.len() - 1 ==> scores.remove(idx).push(entry)[j] == scores[j + 1],
{
}

/// Under pairwise-distinct names, any index holding `name` is the chosen
/// `cat_idx`.
pub proof fn lemma_cat_idx_unique(cats: Seq<CategoryView>, name: Seq<char>, i: int)
    requires
        forall|p: int, q: int|
            0 <= p < q < cats.len() ==> (#[trigger] cats[p]).name != (#[trigger] cats[q]).name,
        0 <= i < cats.len(),
        cats[i].name == name,
    ensures
        has_cat(cats, name),
        cat_idx(cats, name) == i,
{
    assert(has_cat(cats, name));
    let j = cat_idx(cats, name);
    assert(0 <= j < cats.len() && cats[j].name == name);
    if i < j {
        assert(cats[i].name != cats[j].name);
    } else if j < i {
        assert(cats[j].name != cats[i].name);
    }
}

/// Whether renaming `old_name` to the (already trimmed) `tn` inside the
/// named category can succeed.
pub open spec fn rename_item_allowed(
    cats: Seq<CategoryView>,
    cat: Seq<char>,
    old_name: Seq<char>,
    tn: Seq<char>,
) -> bool {
    has_cat(cats, cat) && (old_name == tn || (tn.len() > 0 && !has_item(
        cats[cat_idx(cats, cat)].items,
        tn,
    ) && has_item(cats[cat_idx(cats, cat)].items, old_name)))
}

/// The error a failing item rename reports.
pub open spec fn rename_item_error(
    cats: Seq<CategoryView>,
    cat: Seq<char>,
    old_name: Seq<char>,
    tn: Seq<char>,
) -> StoreError {
    if !has_cat(cats, cat) {
        StoreError::CategoryNotFound
    } else if tn.len() == 0 {
        StoreError::EmptyItemName
    } else if has_item(cats[cat_idx(cats, cat)].items, tn) {
        StoreError::DuplicateItem
    } else {
        StoreError::ItemNotFound
    }
}

/// The store after a successful item rename.
pub open spec fn rename_item_result(
    cats: Seq<CategoryView>,
    cat: Seq<char>,
    old_name: Seq<char>,
    tn: Seq<char>,
) -> Seq<CategoryView> {
    if old_name == tn {
        cats
    } else {
        with_item(cats, cat, old_name, ItemView { name: tn, ..item_of(cats, cat, old_name) })
    }
}

/// Whether moving the named item between the named categories can succeed.
pub open spec fn move_item_allowed(
    cats: Seq<CategoryView>,
    old_cat: Seq<char>,
    new_cat: Seq<char>,
    item: Seq<char>,
) -> bool {
    old_cat == new_cat || {
        &&& has_cat(cats, old_cat)
        &&& has_cat(cats, new_cat)
        &&& !has_item(cats[cat_idx(cats, new_cat)].items, item)
        &&& has_item(cats[cat_idx(cats, old_cat)].items, item)
    }
}

/// The error a failing move reports.
pub open spec fn move_item_error(
    cats: Seq<CategoryView>,
    old_cat: Seq<char>,
    new_cat: Seq<char>,
    item: Seq<char>,
) -> StoreError {
    if !has_cat(cats, old_cat) {
        StoreError::CategoryNotFound
    } else if !has_cat(cats, new_cat) {
        StoreError::CategoryNotFound
    } else if has_item(cats[cat_idx(cats, new_cat)].items, item) {
        StoreError::DuplicateItem
    } else {
        StoreError::ItemNotFound
    }
}

/// The store after a successful move: the item leaves its old category's
/// sequence and is appended, unchanged, to the new category's.
pub open spec fn move_item_result(
    cats: Seq<CategoryView>,
    old_cat: Seq<char>,
    new_cat: Seq<char>,
    item: Seq<char>,
) -> Seq<CategoryView> {
    if old_cat == new_cat {
        cats
    } else {
        let ci = cat_idx(cats, old_cat);
        let cj = cat_idx(cats, new_cat);
        let src = cats[ci];
        let moved = src.items[item_idx(src.items, item)];
        let without = cats.update(
            ci,
            CategoryView { items: src.items.remove(item_idx(src.items, item)), ..src },
        );
        without.update(cj, CategoryView { items: without[cj].items.push(moved), ..without[cj] })
    }
}

/// The whole hierarchy: every category, each owning its items and scores.
/// The single source of truth; every mutation validates its inputs and
/// either fully applies or leaves the store untouched.
#[derive(Debug)]
pub struct AppData {
    categories: Vec<CategoryData>,
}

impl View for AppData {
    type V = Seq<CategoryView>;

    closed spec fn view(&self) -> Seq<CategoryView> {
        Seq::new(self.categories@.len(), |i: int| self.categories@[i]@)
    }
}

impl Default for AppData {
    /// An empty store.
    fn default() -> (r: AppData)
        ensures
            r@ == Seq::<CategoryView>::empty(),
            wf_store(r@),
    {
        let r = AppData { categories: Vec::new() };
        proof {
            assert(r@ =~= Seq::<CategoryView>::empty());
        }
        r
    }
}

impl Clone for AppData {
    /// An exact copy: the clone's view equals the original's.  The
    /// compound update builds its simulation on this.
    fn clone(&self) -> (res: Self)
        ensures
            res@ == self@,
    {
        let mut categories: Vec<CategoryData> = Vec::new();
        let n = self.categories.len();
        let mut i: usize = 0;
        while i < n
            invariant
                i <= n,
                n == self.categories@.len(),
                categories@.len() == i,
                forall|j: int| 0 <= j < i ==> (#[trigger] categories@[j])@ == self.categories@[j]@,
            decreases n - i,
        {
            categories.push(self.categories[i].clone());
            i += 1;
        }
        let res = AppData { categories };
        proof {
            assert(res@ =~= self@);
        }
        res
    }
}

impl AppData {
    /// The categories, in insertion order.
    pub fn categories(&self) -> (r: &Vec<CategoryData>)
        ensures
            r@.len() == self@.len(),
            forall|i: int| 0 <= i < r@.len() ==> (#[trigger] r@[i])@ == self@[i],
    {
        &self.categories
    }

    /// The categories' positions ordered for display: most recently created
    /// first, insertion order breaking ties.
    pub fn categories_by_recency(&self) -> (r: Vec<usize>)
        ensures
            r@.len() == self@.len(),
            forall|i: int| 0 <= i < r@.len() ==> (#[trigger] r@[i]) < self@.len(),
            forall|i: int, j: int| 0 <= i < j < r@.len() ==> r@[i] != r@[j],
            forall|i: int, j: int|
                0 <= i < j < r@.len() ==> self@[r@[i] as int].created_at
                    >= self@[r@[j] as int].created_at,
            forall|i: int, j: int|
                0 <= i < j < r@.len() && self@[r@[i] as int].created_at
                    == self@[r@[j] as int].created_at ==> r@[i] < r@[j],
            forall|k: usize| k < self@.len() ==> r@.contains(k),
    {
        let n = self.categories.len();
        let mut keys: Vec<i64> = Vec::new();
        let mut i: usize = 0;
        while i < n
            invariant
                i <= n,
                n == self.categories@.len(),
                n == self@.len(),
                keys@.len() == i,
                forall|k: int| 0 <= k < i ==> (#[trigger] keys@[k]) as int == self@[k].created_at,
            decreases n - i,
        {
            keys.push(self.categories[i].created_at());
            i += 1;
        }
        indices_by_key_desc(&keys)
    }

    /// The position of the category with the given name, if any.
    pub(crate) fn find_category(&self, name: &str) -> (r: Option<usize>)
        ensures
            match r {
                Some(i) => i < self@.len() && self@[i as int].name == name@,
                None => !has_cat(self@, name@),
            },
    {
        let n = self.categories.len();
        let mut i: usize = 0;
        while i < n
            invariant
                i <= n,
                n == self@.len(),
                n == self.categories@.len(),
                forall|j: int| 0 <= j < i ==> (#[trigger] self@[j]).name != name@,
            decreases n - i,
        {
            assert(self@[i as int].name == self.categories@[i as int]@.name);
            if str_eq(self.categories[i].name.as_str(), name) {
                return Some(i);
            }
            i += 1;
        }
        None
    }

    /// Removes the category at a known position, for edit-and-reinsert.
    pub(crate) fn take_cat_at(&mut self, idx: usize) -> (r: CategoryData)
        requires
            idx < old(self)@.len(),
        ensures
            r@ == old(self)@[idx as int],
            final(self)@ == old(self)@.remove(idx as int),
    {
        let ghost pre = self@;
        let cat = self.categories.remove(idx);
        proof {
            assert(self@ =~= pre.remove(idx as int));
        }
        cat
    }

    /// Puts a category back at a known position, for edit-and-reinsert.
    pub(crate) fn put_cat_at(&mut self, idx: usize, cat: CategoryData)
        requires
            idx <= old(self)@.len(),
        ensures
            final(self)@ == old(self)@.insert(idx as int, cat@),
    {
        let ghost pre = self@;
        let ghost cv = cat@;
        self.categories.insert(idx, cat);
        proof {
            assert(self@ =~= pre.insert(idx as int, cv));
        }
    }

    /// Whether a category with the given name exists.
    pub fn category_exists(&self, cat: &str) -> (r: bool)
        ensures
            r == has_cat(self@, cat@),
    {
        match self.find_category(cat) {
            Some(i) => {
                proof {
                    assert(0 <= i < self@.len() && self@[i as int].name == cat@);
                }
                true
            },
            None => false,
        }
    }

    /// Whether the named category exists and holds the named item.
    pub fn item_exists(&self, cat: &str, item: &str) -> (r: bool)
        requires
            wf_store(self@),
        ensures
            r == has_cat_item(self@, cat@, item@),
    {
        match self.find_category(cat) {
            Some(i) => {
                proof {
                    lemma_cat_idx_unique(self@, cat@, i as int);
                }
                self.categories[i].item_exists(item)
            },
            None => false,
        }
    }

    /// A shared reference to the named category, or `CategoryNotFound`.
    pub fn get_category(&self, cat_name: &str) -> (r: Result<&CategoryData, StoreError>)
        requires
            wf_store(self@),
        ensures
            r is Ok <==> has_cat(self@, cat_name@),
            r matches Ok(c) ==> c@ == self@[cat_idx(self@, cat_name@)] && c@.name == cat_name@,
            r matches Err(e) ==> e == StoreError::CategoryNotFound,
    {
        match self.find_category(cat_name) {
            Some(i) => {
                proof {
                    lemma_cat_idx_unique(self@, cat_name@, i as int);
                }
                Ok(&self.categories[i])
            },
            None => Err(StoreError::CategoryNotFound),
        }
    }

    /// A shared reference to the named item, or the first lookup failure.
    pub fn get_item(&self, cat_name: &str, item_name: &str) -> (r: Result<
        &ItemData,
        StoreError,
    >)
        requires
            wf_store(self@),
        ensures
            r is Ok <==> has_cat_item(self@, cat_name@, item_name@),
            r matches Ok(it) ==> it@ == item_of(self@, cat_name@, item_name@) && it@.name
                == item_name@ && wf_item(it@),
            r matches Err(e) ==> e == (
            if !has_cat(self@, cat_name@) {
                StoreError::CategoryNotFound
            } else {
                StoreError::ItemNotFound
            }),
    {
        let cat = match self.get_category(cat_name) {
            Ok(c) => c,
            Err(e) => {
                return Err(e);
            },
        };
        match cat.get_item(item_name) {
            Some(it) => Ok(it),
            None => Err(StoreError::ItemNotFound),
        }
    }

    /// The named item's decay rate, or the first lookup failure.
    pub fn get_item_decay(&self, cat_name: &str, item_name: &str) -> (r: Result<
        DecayRate,
        StoreError,
    >)
        requires
            wf_store(self@),
        ensures
            r is Ok <==> has_cat_item(self@, cat_name@, item_name@),
            r matches Ok(d) ==> d.spec_centi() == item_of(self@, cat_name@, item_name@).decay_centi
                && d.valid(),
            r matches Err(e) ==> e == (
            if !has_cat(self@, cat_name@) {
                StoreError::CategoryNotFound
            } else {
                StoreError::ItemNotFound
            }),
    {
        match self.get_item(cat_name, item_name) {
            Ok(it) => Ok(it.decay_rate()),
            Err(e) => Err(e),
        }
    }

    /// Adds a fresh, empty category under the trimmed name, stamped with
    /// the current time.  An empty trimmed name or a duplicate is rejected
    /// and nothing changes.
    pub fn add_category(&mut self, name: String) -> (r: Result<(), StoreError>)
        requires
            wf_store(old(self)@),
        ensures
            wf_store(final(self)@),
            r is Ok <==> (trimmed_of(name@).len() > 0 && !has_cat(old(self)@, trimmed_of(name@))),
            r matches Ok(()) ==> {
                &&& final(self)@.len() == old(self)@.len() + 1
                &&& final(self)@.subrange(0, old(self)@.len() as int) == old(self)@
                &&& final(self)@.last().name == trimmed_of(name@)
                &&& final(self)@.last().items == Seq::<ItemView>::empty()
            },
            r matches Err(e) ==> final(self)@ == old(self)@ && e == (
            if trimmed_of(name@).len() == 0 {
                StoreError::EmptyCategoryName
            } else {
                StoreError::DuplicateCategory
            }),
    {
        let trimmed = trim_str(name.as_str());
        if trimmed.is_empty() {
            return Err(StoreError::EmptyCategoryName);
        }
        if self.category_exists(trimmed) {
            return Err(StoreError::DuplicateCategory);
        }
        let cat = CategoryData::new(trimmed.to_owned());
        let ghost pre = self@;
        let ghost cv = cat@;
        self.categories.push(cat);
        proof {
            assert(self@ =~= pre.push(cv));
            assert(self@.subrange(0, pre.len() as int) =~= pre);
            assert forall|i: int, j: int| 0 <= i < j < self@.len() implies (
            #[trigger] self@[i]).name != (#[trigger] self@[j]).name by {
                if j == pre.len() {
                    assert(!has_cat(pre, trimmed_of(name@)));
                }
            }
        }
        Ok(())
    }

    /// Removes the named category with everything it owns and hands it
    /// back; a missing name is rejected and nothing changes.
    pub fn remove_category(&mut self, name: &str) -> (r: Result<CategoryData, StoreError>)
        requires
            wf_store(old(self)@),
        ensures
            wf_store(final(self)@),
            r is Ok <==> has_cat(old(self)@, name@),
            r matches Ok(c) ==> {
                &&& c@ == old(self)@[cat_idx(old(self)@, name@)]
                &&& c@.name == name@
                &&& final(self)@ == old(self)@.remove(cat_idx(old(self)@, name@))
            },
            r matches Err(e) ==> final(self)@ == old(self)@ && e == StoreError::CategoryNotFound,
    {
        let idx = match self.find_category(name) {
            Some(i) => i,
            None => {
                return Err(StoreError::CategoryNotFound);
            },
        };
        proof {
            lemma_cat_idx_unique(self@, name@, idx as int);
        }
        let cat = self.take_cat_at(idx);
        Ok(cat)
    }

    /// Renames a category in place, keeping everything it owns.  Renaming
    /// to the same name is a successful no-op; an empty trimmed name, a
    /// taken name, or a missing source is rejected and nothing changes.
    pub fn rename_category(&mut self, old_name: &str, new_name: String) -> (r: Result<
        (),
        StoreError,
    >)
        requires
            wf_store(old(self)@),
        ensures
            wf_store(final(self)@),
            r is Ok <==> (old_name@ == trimmed_of(new_name@) || (trimmed_of(new_name@).len() > 0
                && !has_cat(old(self)@, trimmed_of(new_name@)) && has_cat(old(self)@, old_name@))),
            r is Ok && old_name@ == trimmed_of(new_name@) ==> final(self)@ == old(self)@,
            r is Ok && old_name@ != trimmed_of(new_name@) ==> final(self)@ == old(self)@.update(
                cat_idx(old(self)@, old_name@),
                CategoryView {
                    name: trimmed_of(new_name@),
                    ..old(self)@[cat_idx(old(self)@, old_name@)]
                },
            ),
            r matches Err(e) ==> final(self)@ == old(self)@ && e == (
            if trimmed_of(new_name@).len() == 0 {
                StoreError::EmptyCategoryName
            } else if has_cat(old(self)@, trimmed_of(new_name@)) {
                StoreError::DuplicateCategory
            } else {
                StoreError::CategoryNotFound
            }),
    {
        let trimmed = trim_str(new_name.as_str());
        if str_eq(old_name, trimmed) {
            return Ok(());
        }
        if trimmed.is_empty() {
            return Err(StoreError::EmptyCategoryName);
        }
        if self.category_exists(trimmed) {
            return Err(StoreError::DuplicateCategory);
        }
        let idx = match self.find_category(old_name) {
            Some(i) => i,
            None => {
                return Err(StoreError::CategoryNotFound);
            },
        };
        proof {
            lemma_cat_idx_unique(self@, old_name@, idx as int);
        }
        let ghost pre = self@;
        let mut cat = self.take_cat_at(idx);
        cat.name = trimmed.to_owned();
        self.put_cat_at(idx, cat);
        proof {
            let k = idx as int;
            let renamed = CategoryView { name: trimmed_of(new_name@), ..pre[k] };
            assert(self@ =~= pre.update(k, renamed));
            assert forall|i: int, j: int| 0 <= i < j < self@.len() implies (
            #[trigger] self@[i]).name != (#[trigger] self@[j]).name by {
                if i == k || j == k {
                    assert(!has_cat(pre, trimmed_of(new_name@)));
                }
            }
        }
        Ok(())
    }

    /// Adds a fresh, empty item under the trimmed name to the named
    /// category.  An empty trimmed name, a missing category, or a name
    /// already used there is rejected and nothing changes.
    pub fn add_item(&mut self, cat: &str, name: String, decay_rate: DecayRate) -> (r: Result<
        (),
        StoreError,
    >)
        requires
            wf_store(old(self)@),
            decay_rate.valid(),
        ensures
            wf_store(final(self)@),
            r is Ok <==> (trimmed_of(name@).len() > 0 && has_cat(old(self)@, cat@) && !has_item(
                old(self)@[cat_idx(old(self)@, cat@)].items,
                trimmed_of(name@),
            )),
            r matches Ok(()) ==> {
                let ci = cat_idx(old(self)@, cat@);
                let c0 = old(self)@[ci];
                let c1 = final(self)@[ci];
                &&& c1.name == c0.name
                &&& c1.created_at == c0.created_at
                &&& c1.items.len() == c0.items.len() + 1
                &&& c1.items.subrange(0, c0.items.len() as int) == c0.items
                &&& c1.items.last().name == trimmed_of(name@)
                &&& c1.items.last().decay_centi == decay_rate.spec_centi()
                &&& c1.items.last().scores == Seq::<ScoreView>::empty()
                &&& final(self)@ == old(self)@.update(ci, c1)
            },
            r matches Err(e) ==> final(self)@ == old(self)@ && e == (
            if trimmed_of(name@).len() == 0 {
                StoreError::EmptyItemName
            } else if !has_cat(old(self)@, cat@) {
                StoreError::CategoryNotFound
            } else {
                StoreError::DuplicateItem
            }),
    {
        let trimmed = trim_str(name.as_str());
        if trimmed.is_empty() {
            return Err(StoreError::EmptyItemName);
        }
        let ci = match self.find_category(cat) {
            Some(i) => i,
            None => {
                return Err(StoreError::CategoryNotFound);
            },
        };
        proof {
            lemma_cat_idx_unique(self@, cat@, ci as int);
        }
        let ghost pre = self@;
        let mut c = self.take_cat_at(ci);
        let res = c.add_item(name, decay_rate);
        let ghost cv = c@;
        self.put_cat_at(ci, c);
        proof {
            assert(self@ =~= pre.update(ci as int, cv));
            if res is Ok {
                assert forall|i: int, j: int| 0 <= i < j < self@.len() implies (
                #[trigger] self@[i]).name != (#[trigger] self@[j]).name by {}
            } else {
                assert(self@ =~= pre);
            }
        }
        match res {
            Ok(()) => Ok(()),
            Err(e) => Err(e),
        }
    }

    /// Removes the named item with its scores; a missing category or item
    /// is rejected and nothing changes.
    pub fn remove_item(&mut self, cat: &str, item: &str) -> (r: Result<(), StoreError>)
        requires
            wf_store(old(self)@),
        ensures
            wf_store(final(self)@),
            r is Ok <==> has_cat_item(old(self)@, cat@, item@),
            r matches Ok(()) ==> {
                let ci = cat_idx(old(self)@, cat@);
                let c0 = old(self)@[ci];
                final(self)@ == old(self)@.update(
                    ci,
                    CategoryView { items: c0.items.remove(item_idx(c0.items, item@)), ..c0 },
                )
            },
            r matches Err(e) ==> final(self)@ == old(self)@ && e == (
            if !has_cat(old(self)@, cat@) {
                StoreError::CategoryNotFound
            } else {
                StoreError::ItemNotFound
            }),
    {
        let ci = match self.find_category(cat) {
            Some(i) => i,
            None => {
                return Err(StoreError::CategoryNotFound);
            },
        };
        proof {
            lemma_cat_idx_unique(self@, cat@, ci as int);
        }
        let ghost pre = self@;
        let mut c = self.take_cat_at(ci);
        let res = c.remove_item(item);
        let ghost cv = c@;
        self.put_cat_at(ci, c);
        proof {
            assert(self@ =~= pre.update(ci as int, cv));
            if res is Ok {
                assert forall|i: int, j: int| 0 <= i < j < self@.len() implies (
                #[trigger] self@[i]).name != (#[trigger] self@[j]).name by {}
            } else {
                assert(self@ =~= pre);
            }
        }
        match res {
            Ok(_) => Ok(()),
            Err(e) => Err(e),
        }
    }

    /// Renames an item within the named category.  Renaming to the same
    /// name is a successful no-op; otherwise the usual name validation
    /// applies and a failure leaves the store unchanged.
    pub fn rename_item(&mut self, cat: &str, old_name: &str, new_name: String) -> (r: Result<
        (),
        StoreError,
    >)
        requires
            wf_store(old(self)@),
        ensures
            wf_store(final(self)@),
            r is Ok <==> rename_item_allowed(old(self)@, cat@, old_name@, trimmed_of(new_name@)),
            r matches Ok(()) ==> final(self)@ == rename_item_result(
                old(self)@,
                cat@,
                old_name@,
                trimmed_of(new_name@),
            ),
            r matches Err(e) ==> final(self)@ == old(self)@ && e == rename_item_error(
                old(self)@,
                cat@,
                old_name@,
                trimmed_of(new_name@),
            ),
    {
        let ci = match self.find_category(cat) {
            Some(i) => i,
            None => {
                return Err(StoreError::CategoryNotFound);
            },
        };
        proof {
            lemma_cat_idx_unique(self@, cat@, ci as int);
        }
        let ghost pre = self@;
        let mut c = self.take_cat_at(ci);
        let res = c.rename_item(old_name, new_name);
        let ghost cv = c@;
        self.put_cat_at(ci, c);
        proof {
            assert(self@ =~= pre.update(ci as int, cv));
            if res is Ok {
                if old_name@ != trimmed_of(new_name@) {
                    assert(self@ =~= rename_item_result(pre, cat@, old_name@, trimmed_of(
                        new_name@,
                    )));
                } else {
                    assert(self@ =~= pre);
                }
                assert forall|i: int, j: int| 0 <= i < j < self@.len() implies (
                #[trigger] self@[i]).name != (#[trigger] self@[j]).name by {}
            } else {
                assert(self@ =~= pre);
            }
        }
        match res {
            Ok(()) => Ok(()),
            Err(e) => Err(e),
        }
    }

    /// Replaces the named item's decay rate and refreshes its `updated_at`;
    /// a missing category or item is rejected and nothing changes.
    pub fn update_decay(&mut self, cat: &str, item: &str, decay: DecayRate) -> (r: Result<
        (),
        StoreError,
    >)
        requires
            wf_store(old(self)@),
            decay.valid(),
        ensures
            wf_store(final(self)@),
            r is Ok <==> has_cat_item(old(self)@, cat@, item@),
            r matches Ok(()) ==> final(self)@ == with_item(
                old(self)@,
                cat@,
                item@,
                ItemView {
                    decay_centi: decay.spec_centi(),
                    updated_at: item_of(final(self)@, cat@, item@).updated_at,
                    ..item_of(old(self)@, cat@, item@)
                },
            ),
            r matches Err(e) ==> final(self)@ == old(self)@ && e == (
            if !has_cat(old(self)@, cat@) {
                StoreError::CategoryNotFound
            } else {
                StoreError::ItemNotFound
            }),
    {
        let ci = match self.find_category(cat) {
            Some(i) => i,
            None => {
                return Err(StoreError::CategoryNotFound);
            },
        };
        proof {
            lemma_cat_idx_unique(self@, cat@, ci as int);
        }
        let ghost pre = self@;
        let mut c = self.take_cat_at(ci);
        let ii = match c.find_item(item) {
            Some(i) => i,
            None => {
                self.put_cat_at(ci, c);
                proof {
                    assert(self@ =~= pre);
                }
                return Err(StoreError::ItemNotFound);
            },
        };
        proof {
            lemma_item_idx_unique(c@.items, item@, ii as int);
        }
        let mut it = c.take_item_at(ii);
        it.update_decay_rate(decay);
        let ghost itv = it@;
        c.put_item_at(ii, it);
        let ghost cv = c@;
        self.put_cat_at(ci, c);
        proof {
            assert(cv.items =~= pre[ci as int].items.update(ii as int, itv));
            assert(self@ =~= pre.update(ci as int, cv));
            assert(item_of(self@, cat@, item@) == itv) by {
                lemma_cat_idx_unique(self@, cat@, ci as int);
                lemma_item_idx_unique(self@[ci as int].items, item@, ii as int);
            }
            assert(self@ =~= with_item(
                pre,
                cat@,
                item@,
                ItemView {
                    decay_centi: decay.spec_centi(),
                    updated_at: item_of(self@, cat@, item@).updated_at,
                    ..item_of(pre, cat@, item@)
                },
            ));
            assert forall|i: int, j: int| 0 <= i < j < self@.len() implies (
            #[trigger] self@[i]).name != (#[trigger] self@[j]).name by {}
        }
        Ok(())
    }

    /// Appends a non-negative score to the named item, stamping the entry
    /// and the item's `updated_at` with the current time.  A negative score
    /// or a failed lookup is rejected and nothing changes.
    pub fn add_score(&mut self, cat: &str, item: &str, score: i64) -> (r: Result<(), StoreError>)
        requires
            wf_store(old(self)@),
        ensures
            wf_store(final(self)@),
            r is Ok <==> (score >= 0 && has_cat_item(old(self)@, cat@, item@)),
            r matches Ok(()) ==> {
                let t = item_of(final(self)@, cat@, item@).updated_at;
                final(self)@ == with_item(
                    old(self)@,
                    cat@,
                    item@,
                    ItemView {
                        scores: item_of(old(self)@, cat@, item@).scores.push(
                            ScoreView { score: score as int, timestamp: t },
                        ),
                        updated_at: t,
                        ..item_of(old(self)@, cat@, item@)
                    },
                )
            },
            r matches Err(e) ==> final(self)@ == old(self)@ && e == (
            if score < 0 {
                StoreError::NegativeScore
            } else if !has_cat(old(self)@, cat@) {
                StoreError::CategoryNotFound
            } else {
                StoreError::ItemNotFound
            }),
    {
        if score < 0 {
            return Err(StoreError::NegativeScore);
        }
        let ci = match self.find_category(cat) {
            Some(i) => i,
            None => {
                return Err(StoreError::CategoryNotFound);
            },
        };
        proof {
            lemma_cat_idx_unique(self@, cat@, ci as int);
        }
        let ghost pre = self@;
        let mut c = self.take_cat_at(ci);
        let ii = match c.find_item(item) {
            Some(i) => i,
            None => {
                self.put_cat_at(ci, c);
                proof {
                    assert(self@ =~= pre);
                }
                return Err(StoreError::ItemNotFound);
            },
        };
        proof {
            lemma_item_idx_unique(c@.items, item@, ii as int);
        }
        let mut it = c.take_item_at(ii);
        let res = it.add_score(score);
        let ghost itv = it@;
        c.put_item_at(ii, it);
        let ghost cv = c@;
        self.put_cat_at(ci, c);
        proof {
            assert(res is Ok);
            assert(cv.items =~= pre[ci as int].items.update(ii as int, itv));
            assert(self@ =~= pre.update(ci as int, cv));
            assert(item_of(self@, cat@, item@) == itv) by {
                lemma_cat_idx_unique(self@, cat@, ci as int);
                lemma_item_idx_unique(self@[ci as int].items, item@, ii as int);
            }
            let t = item_of(self@, cat@, item@).updated_at;
            assert(self@ =~= with_item(
                pre,
                cat@,
                item@,
                ItemView {
                    scores: item_of(pre, cat@, item@).scores.push(
                        ScoreView { score: score as int, timestamp: t },
                    ),
                    updated_at: t,
                    ..item_of(pre, cat@, item@)
                },
            ));
            assert forall|i: int, j: int| 0 <= i < j < self@.len() implies (
            #[trigger] self@[i]).name != (#[trigger] self@[j]).name by {}
        }
        Ok(())
    }

    /// Removes the score at the given physical index from the named item
    /// and refreshes its `updated_at`.  A failed lookup or an out-of-range
    /// index is rejected and nothing changes.
    pub fn remove_score(&mut self, cat: &str, item: &str, index: usize) -> (r: Result<
        (),
        StoreError,
    >)
        requires
            wf_store(old(self)@),
        ensures
            wf_store(final(self)@),
            r is Ok <==> (has_cat_item(old(self)@, cat@, item@) && index < item_of(
                old(self)@,
                cat@,
                item@,
            ).scores.len()),
            r matches Ok(()) ==> {
                let t = item_of(final(self)@, cat@, item@).updated_at;
                final(self)@ == with_item(
                    old(self)@,
                    cat@,
                    item@,
                    ItemView {
                        scores: item_of(old(self)@, cat@, item@).scores.remove(index as int),
                        updated_at: t,
                        ..item_of(old(self)@, cat@, item@)
                    },
                )
            },
            r matches Err(e) ==> final(self)@ == old(self)@ && e == (
            if !has_cat(old(self)@, cat@) {
                StoreError::CategoryNotFound
            } else if !has_cat_item(old(self)@, cat@, item@) {
                StoreError::ItemNotFound
            } else {
                StoreError::ScoreIndexOutOfRange
            }),
    {
        let ci = match self.find_category(cat) {
            Some(i) => i,
            None => {
                return Err(StoreError::CategoryNotFound);
            },
        };
        proof {
            lemma_cat_idx_unique(self@, cat@, ci as int);
        }
        let ghost pre = self@;
        let mut c = self.take_cat_at(ci);
        let ii = match c.find_item(item) {
            Some(i) => i,
            None => {
                self.put_cat_at(ci, c);
                proof {
                    assert(self@ =~= pre);
                }
                return Err(StoreError::ItemNotFound);
            },
        };
        proof {
            lemma_item_idx_unique(c@.items, item@, ii as int);
        }
        let mut it = c.take_item_at(ii);
        let res = it.remove_score(index);
        let ghost itv = it@;
        c.put_item_at(ii, it);
        let ghost cv = c@;
        self.put_cat_at(ci, c);
        proof {
            assert(cv.items =~= pre[ci as int].items.update(ii as int, itv));
            assert(self@ =~= pre.update(ci as int, cv));
            if res is Ok {
                assert(item_of(self@, cat@, item@) == itv) by {
                    lemma_cat_idx_unique(self@, cat@, ci as int);
                    lemma_item_idx_unique(self@[ci as int].items, item@, ii as int);
                }
                let t = item_of(self@, cat@, item@).updated_at;
                assert(self@ =~= with_item(
                    pre,
                    cat@,
                    item@,
                    ItemView {
                        scores: item_of(pre, cat@, item@).scores.remove(index as int),
                        updated_at: t,
                        ..item_of(pre, cat@, item@)
                    },
                ));
                assert forall|i: int, j: int| 0 <= i < j < self@.len() implies (
                #[trigger] self@[i]).name != (#[trigger] self@[j]).name by {}
            } else {
                assert(itv == pre[ci as int].items[ii as int]);
                assert(cv.items =~= pre[ci as int].items);
                assert(cv == pre[ci as int]);
                assert(self@ =~= pre);
            }
        }
        match res {
            Ok(()) => Ok(()),
            Err(e) => Err(e),
        }
    }

    /// Moves an item, unchanged, from one category to another.  Moving to
    /// the same category is a successful no-op; a missing category, a name
    /// collision at the destination, or a missing item is rejected and
    /// nothing changes.
    pub fn move_item(&mut self, old_cat: &str, new_cat: &str, item: &str) -> (r: Result<
        (),
        StoreError,
    >)
        requires
            wf_store(old(self)@),
        ensures
            wf_store(final(self)@),
            r is Ok <==> move_item_allowed(old(self)@, old_cat@, new_cat@, item@),
            r matches Ok(()) ==> final(self)@ == move_item_result(
                old(self)@,
                old_cat@,
                new_cat@,
                item@,
            ),
            r matches Err(e) ==> final(self)@ == old(self)@ && e == move_item_error(
                old(self)@,
                old_cat@,
                new_cat@,
                item@,
            ),
    {
        if str_eq(old_cat, new_cat) {
            return Ok(());
        }
        let ci = match self.find_category(old_cat) {
            Some(i) => i,
            None => {
                return Err(StoreError::CategoryNotFound);
            },
        };
        proof {
            lemma_cat_idx_unique(self@, old_cat@, ci as int);
        }
        let cj = match self.find_category(new_cat) {
            Some(j) => j,
            None => {
                return Err(StoreError::CategoryNotFound);
            },
        };
        proof {
            lemma_cat_idx_unique(self@, new_cat@, cj as int);
            assert(ci != cj);
        }
        if self.categories[cj].item_exists(item) {
            return Err(StoreError::DuplicateItem);
        }
        let ghost pre = self@;
        let mut src = self.take_cat_at(ci);
        let moved = match src.remove_item(item) {
            Ok(d) => d,
            Err(e) => {
                self.put_cat_at(ci, src);
                proof {
                    assert(self@ =~= pre);
                }
                return Err(e);
            },
        };
        let ghost srcv = src@;
        self.put_cat_at(ci, src);
        proof {
            let ii = item_idx(pre[ci as int].items, item@);
            assert(srcv.items == pre[ci as int].items.remove(ii));
            assert(srcv == CategoryView {
                items: pre[ci as int].items.remove(ii),
                ..pre[ci as int]
            });
            assert(self@ =~= pre.update(ci as int, srcv));
        }
        let ghost mid = self@;
        let mut dst = self.take_cat_at(cj);
        proof {
            assert(dst@ == pre[cj as int]);
            assert(!has_item(dst@.items, moved@.name));
        }
        dst.insert_item(moved);
        let ghost dstv = dst@;
        self.put_cat_at(cj, dst);
        proof {
            assert(self@ =~= mid.update(cj as int, dstv));
            assert(self@ =~= move_item_result(pre, old_cat@, new_cat@, item@));
            assert forall|i: int, j: int| 0 <= i < j < self@.len() implies (
            #[trigger] self@[i]).name != (#[trigger] self@[j]).name by {}
            assert forall|i: int| 0 <= i < self@.len() implies wf_category(
                #[trigger] self@[i],
            ) by {}
        }
        Ok(())
    }

    /// Applies a compound edit — move between categories, rename, and decay
    /// change — as one all-or-nothing action.  The edit is simulated on a
    /// clone of the whole store with the same validated primitives (move,
    /// then rename, then decay update), and the live store is replaced only
    /// when every step succeeds; any failure leaves it untouched and
    /// reports the first failing step's error.
    pub fn try_update_item(
        &mut self,
        old_cat: &str,
        old_item: &str,
        new_cat: &str,
        new_item: String,
        new_decay: DecayRate,
    ) -> (r: Result<(), StoreError>)
        requires
            wf_store(old(self)@),
            new_decay.valid(),
        ensures
            wf_store(final(self)@),
            r matches Err(e) ==> final(self)@ == old(self)@,
            ({
                let s0 = old(self)@;
                let tn = trimmed_of(new_item@);
                let ok1 = move_item_allowed(s0, old_cat@, new_cat@, old_item@);
                let s1 = move_item_result(s0, old_cat@, new_cat@, old_item@);
                let ok2 = rename_item_allowed(s1, new_cat@, old_item@, tn);
                let s2 = rename_item_result(s1, new_cat@, old_item@, tn);
                let ok3 = has_cat_item(s2, new_cat@, tn);
                &&& (r is Ok <==> ok1 && ok2 && ok3)
                &&& (r is Ok ==> final(self)@ == with_item(
                    s2,
                    new_cat@,
                    tn,
                    ItemView {
                        decay_centi: new_decay.spec_centi(),
                        updated_at: item_of(final(self)@, new_cat@, tn).updated_at,
                        ..item_of(s2, new_cat@, tn)
                    },
                ))
                &&& (r matches Err(e) ==> e == (if !ok1 {
                    move_item_error(s0, old_cat@, new_cat@, old_item@)
                } else if !ok2 {
                    rename_item_error(s1, new_cat@, old_item@, tn)
                } else if !has_cat(s2, new_cat@) {
                    StoreError::CategoryNotFound
                } else {
                    StoreError::ItemNotFound
                }))
            }),
    {
        let mut temp = self.clone();
        match temp.move_item(old_cat, new_cat, old_item) {
            Ok(()) => (),
            Err(e) => {
                return Err(e);
            },
        }
        match temp.rename_item(new_cat, old_item, new_item.clone()) {
            Ok(()) => (),
            Err(e) => {
                return Err(e);
            },
        }
        match temp.update_decay(new_cat, trim_str(new_item.as_str()), new_decay) {
            Ok(()) => (),
            Err(e) => {
                return Err(e);
            },
        }
        *self = temp;
        Ok(())
    }

    /// Rebuilds a stored category: like `add_category`, but keeping the
    /// stored creation time.
    pub fn restore_category(&mut self, name: String, created_at: i64) -> (r: Result<
        (),
        StoreError,
    >)
        requires
            wf_store(old(self)@),
        ensures
            wf_store(final(self)@),
            r is Ok <==> (trimmed_of(name@).len() > 0 && !has_cat(old(self)@, trimmed_of(name@))),
            r matches Ok(()) ==> {
                &&& final(self)@.len() == old(self)@.len() + 1
                &&& final(self)@.subrange(0, old(self)@.len() as int) == old(self)@
                &&& final(self)@.last().name == trimmed_of(name@)
                &&& final(self)@.last().created_at == created_at
                &&& final(self)@.last().items == Seq::<ItemView>::empty()
            },
            r matches Err(e) ==> final(self)@ == old(self)@ && e == (
            if trimmed_of(name@).len() == 0 {
                StoreError::EmptyCategoryName
            } else {
                StoreError::DuplicateCategory
            }),
    {
        let trimmed = trim_str(name.as_str());
        if trimmed.is_empty() {
            return Err(StoreError::EmptyCategoryName);
        }
        if self.category_exists(trimmed) {
            return Err(StoreError::DuplicateCategory);
        }
        let cat = CategoryData::restore(trimmed.to_owned(), created_at);
        let ghost pre = self@;
        let ghost cv = cat@;
        self.categories.push(cat);
        proof {
            assert(self@ =~= pre.push(cv));
            assert(self@.subrange(0, pre.len() as int) =~= pre);
            assert forall|i: int, j: int| 0 <= i < j < self@.len() implies (
            #[trigger] self@[i]).name != (#[trigger] self@[j]).name by {
                if j == pre.len() {
                    assert(!has_cat(pre, trimmed_of(name@)));
                }
            }
        }
        Ok(())
    }

    /// Rebuilds a stored item under the named category: like `add_item`,
    /// but keeping the stored update time and score run.  Scores arrive as
    /// (value, timestamp) pairs; a negative value is rejected.
    pub fn restore_item(
        &mut self,
        cat: &str,
        name: String,
        decay_rate: DecayRate,
        updated_at: i64,
        score_values: &Vec<(i64, i64)>,
    ) -> (r: Result<(), StoreError>)
        requires
            wf_store(old(self)@),
            decay_rate.valid(),
        ensures
            wf_store(final(self)@),
            r is Ok <==> (trimmed_of(name@).len() > 0 && has_cat(old(self)@, cat@) && !has_item(
                old(self)@[cat_idx(old(self)@, cat@)].items,
                trimmed_of(name@),
            ) && (forall|k: int|
                0 <= k < score_values@.len() ==> (#[trigger] score_values@[k]).0 >= 0)),
            r matches Ok(()) ==> {
                let ci = cat_idx(old(self)@, cat@);
                let c0 = old(self)@[ci];
                let c1 = final(self)@[ci];
                &&& c1.name == c0.name
                &&& c1.created_at == c0.created_at
                &&& c1.items.len() == c0.items.len() + 1
                &&& c1.items.subrange(0, c0.items.len() as int) == c0.items
                &&& c1.items.last().name == trimmed_of(name@)
                &&& c1.items.last().decay_centi == decay_rate.spec_centi()
                &&& c1.items.last().updated_at == updated_at
                &&& c1.items.last().scores.len() == score_values@.len()
                &&& (forall|k: int|
                    0 <= k < score_values@.len() ==> (#[trigger] c1.items.last().scores[k]) == (
                    ScoreView {
                        score: score_values@[k].0 as int,
                        timestamp: score_values@[k].1 as int,
                    }))
                &&& final(self)@ == old(self)@.update(ci, c1)
            },
            r matches Err(e) ==> final(self)@ == old(self)@,
    {
        let trimmed = trim_str(name.as_str());
        if trimmed.is_empty() {
            return Err(StoreError::EmptyItemName);
        }
        let ci = match self.find_category(cat) {
            Some(i) => i,
            None => {
                return Err(StoreError::CategoryNotFound);
            },
        };
        proof {
            lemma_cat_idx_unique(self@, cat@, ci as int);
        }
        if self.categories[ci].item_exists(trimmed) {
            return Err(StoreError::DuplicateItem);
        }
        let item = match ItemData::restore(
            trimmed.to_owned(),
            decay_rate,
            updated_at,
            score_values,
        ) {
            Ok(it) => it,
            Err(e) => {
                return Err(e);
            },
        };
        let ghost pre = self@;
        let mut c = self.take_cat_at(ci);
        c.insert_item(item);
        let ghost cv = c@;
        self.put_cat_at(ci, c);
        proof {
            assert(self@ =~= pre.update(ci as int, cv));
            assert(cv.items.subrange(0, pre[ci as int].items.len() as int) =~= pre[
                ci as int
            ].items);
            assert forall|i: int, j: int| 0 <= i < j < self@.len() implies (
            #[trigger] self@[i]).name != (#[trigger] self@[j]).name by {}
        }
        Ok(())
    }

    /// Adds a category; see `add_category`.
    pub fn try_add_category(&mut self, name: String) -> (r: Result<(), StoreError>)
        requires
            wf_store(old(self)@),
        ensures
            wf_store(final(self)@),
            r is Ok <==> (trimmed_of(name@).len() > 0 && !has_cat(old(self)@, trimmed_of(name@))),
            r matches Ok(()) ==> {
                &&& final(self)@.len() == old(self)@.len() + 1
                &&& final(self)@.subrange(0, old(self)@.len() as int) == old(self)@
                &&& final(self)@.last().name == trimmed_of(name@)
                &&& final(self)@.last().items == Seq::<ItemView>::empty()
            },
            r matches Err(e) ==> final(self)@ == old(self)@ && e == (
            if trimmed_of(name@).len() == 0 {
                StoreError::EmptyCategoryName
            } else {
                StoreError::DuplicateCategory
            }),
    {
        self.add_category(name)
    }

    /// Renames a category; see `rename_category`.
    pub fn try_rename_category(&mut self, old_name: &str, new_name: String) -> (r: Result<
        (),
        StoreError,
    >)
        requires
            wf_store(old(self)@),
        ensures
            wf_store(final(self)@),
            r is Ok <==> (old_name@ == trimmed_of(new_name@) || (trimmed_of(new_name@).len() > 0
                && !has_cat(old(self)@, trimmed_of(new_name@)) && has_cat(old(self)@, old_name@))),
            r is Ok && old_name@ == trimmed_of(new_name@) ==> final(self)@ == old(self)@,
            r is Ok && old_name@ != trimmed_of(new_name@) ==> final(self)@ == old(self)@.update(
                cat_idx(old(self)@, old_name@),
                CategoryView {
                    name: trimmed_of(new_name@),
                    ..old(self)@[cat_idx(old(self)@, old_name@)]
                },
            ),
            r matches Err(e) ==> final(self)@ == old(self)@ && e == (
            if trimmed_of(new_name@).len() == 0 {
                StoreError::EmptyCategoryName
            } else if has_cat(old(self)@, trimmed_of(new_name@)) {
                StoreError::DuplicateCategory
            } else {
                StoreError::CategoryNotFound
            }),
    {
        self.rename_category(old_name, new_name)
    }

    /// Removes a category with everything it owns; see `remove_category`.
    pub fn try_remove_category(&mut self, name: &str) -> (r: Result<(), StoreError>)
        requires
            wf_store(old(self)@),
        ensures
            wf_store(final(self)@),
            r is Ok <==> has_cat(old(self)@, name@),
            r matches Ok(()) ==> final(self)@ == old(self)@.remove(cat_idx(old(self)@, name@)),
            r matches Err(e) ==> final(self)@ == old(self)@ && e == StoreError::CategoryNotFound,
    {
        match self.remove_category(name) {
            Ok(_) => Ok(()),
            Err(e) => Err(e),
        }
    }

    /// Adds an item; see `add_item`.
    pub fn try_add_item(
        &mut self,
        category_name: &str,
        item_name: String,
        decay_rate: DecayRate,
    ) -> (r: Result<(), StoreError>)
        requires
            wf_store(old(self)@),
            decay_rate.valid(),
        ensures
            wf_store(final(self)@),
            r is Ok <==> (trimmed_of(item_name@).len() > 0 && has_cat(old(self)@, category_name@)
                && !has_item(
                old(self)@[cat_idx(old(self)@, category_name@)].items,
                trimmed_of(item_name@),
            )),
            r matches Ok(()) ==> {
                let ci = cat_idx(old(self)@, category_name@);
                let c0 = old(self)@[ci];
                let c1 = final(self)@[ci];
                &&& c1.name == c0.name
                &&& c1.created_at == c0.created_at
                &&& c1.items.len() == c0.items.len() + 1
                &&& c1.items.subrange(0, c0.items.len() as int) == c0.items
                &&& c1.items.last().name == trimmed_of(item_name@)
                &&& c1.items.last().decay_centi == decay_rate.spec_centi()
                &&& c1.items.last().scores == Seq::<ScoreView>::empty()
                &&& final(self)@ == old(self)@.update(ci, c1)
            },
            r matches Err(e) ==> final(self)@ == old(self)@ && e == (
            if trimmed_of(item_name@).len() == 0 {
                StoreError::EmptyItemName
            } else if !has_cat(old(self)@, category_name@) {
                StoreError::CategoryNotFound
            } else {
                StoreError::DuplicateItem
            }),
    {
        self.add_item(category_name, item_name, decay_rate)
    }

    /// Removes an item; see `remove_item`.
    pub fn try_remove_item(&mut self, category_name: &str, item_name: &str) -> (r: Result<
        (),
        StoreError,
    >)
        requires
            wf_store(old(self)@),
        ensures
            wf_store(final(self)@),
            r is Ok <==> has_cat_item(old(self)@, category_name@, item_name@),
            r matches Ok(()) ==> {
                let ci = cat_idx(old(self)@, category_name@);
                let c0 = old(self)@[ci];
                final(self)@ == old(self)@.update(
                    ci,
                    CategoryView { items: c0.items.remove(item_idx(c0.items, item_name@)), ..c0 },
                )
            },
            r matches Err(e) ==> final(self)@ == old(self)@ && e == (
            if !has_cat(old(self)@, category_name@) {
                StoreError::CategoryNotFound
            } else {
                StoreError::ItemNotFound
            }),
    {
        self.remove_item(category_name, item_name)
    }

    /// Appends a score; see `add_score`.
    pub fn try_add_score(&mut self, category_name: &str, item_name: &str, score: i64) -> (r:
        Result<(), StoreError>)
        requires
            wf_store(old(self)@),
        ensures
            wf_store(final(self)@),
            r is Ok <==> (score >= 0 && has_cat_item(old(self)@, category_name@, item_name@)),
            r matches Ok(()) ==> {
                let t = item_of(final(self)@, category_name@, item_name@).updated_at;
                final(self)@ == with_item(
                    old(self)@,
                    category_name@,
                    item_name@,
                    ItemView {
                        scores: item_of(old(self)@, category_name@, item_name@).scores.push(
                            ScoreView { score: score as int, timestamp: t },
                        ),
                        updated_at: t,
                        ..item_of(old(self)@, category_name@, item_name@)
                    },
                )
            },
            r matches Err(e) ==> final(self)@ == old(self)@ && e == (
            if score < 0 {
                StoreError::NegativeScore
            } else if !has_cat(old(self)@, category_name@) {
                StoreError::CategoryNotFound
            } else {
                StoreError::ItemNotFound
            }),
    {
        self.add_score(category_name, item_name, score)
    }

    /// Removes a score by physical index; see `remove_score`.
    pub fn try_remove_score(&mut self, category_name: &str, item_name: &str, index: usize) -> (r:
        Result<(), StoreError>)
        requires
            wf_store(old(self)@),
        ensures
            wf_store(final(self)@),
            r is Ok <==> (has_cat_item(old(self)@, category_name@, item_name@) && index < item_of(
                old(self)@,
                category_name@,
                item_name@,
            ).scores.len()),
            r matches Ok(()) ==> {
                let t = item_of(final(self)@, category_name@, item_name@).updated_at;
                final(self)@ == with_item(
                    old(self)@,
                    category_name@,
                    item_name@,
                    ItemView {
                        scores: item_of(old(self)@, category_name@, item_name@).scores.remove(
                            index as int,
                        ),
                        updated_at: t,
                        ..item_of(old(self)@, category_name@, item_name@)
                    },
                )
            },
            r matches Err(e) ==> final(self)@ == old(self)@ && e == (
            if !has_cat(old(self)@, category_name@) {
                StoreError::CategoryNotFound
            } else if !has_cat_item(old(self)@, category_name@, item_name@) {
                StoreError::ItemNotFound
            } else {
                StoreError::ScoreIndexOutOfRange
            }),
    {
        self.remove_score(category_name, item_name, index)
    }

    /// Replaces an item's decay rate; see `update_decay`.
    pub fn try_update_decay_rate(
        &mut self,
        category_name: &str,
        item_name: &str,
        new_rate: DecayRate,
    ) -> (r: Result<(), StoreError>)
        requires
            wf_store(old(self)@),
            new_rate.valid(),
        ensures
            wf_store(final(self)@),
            r is Ok <==> has_cat_item(old(self)@, category_name@, item_name@),
            r matches Ok(()) ==> final(self)@ == with_item(
                old(self)@,
                category_name@,
                item_name@,
                ItemView {
                    decay_centi: new_rate.spec_centi(),
                    updated_at: item_of(final(self)@, category_name@, item_name@).updated_at,
                    ..item_of(old(self)@, category_name@, item_name@)
                },
            ),
            r matches Err(e) ==> final(self)@ == old(self)@ && e == (
            if !has_cat(old(self)@, category_name@) {
                StoreError::CategoryNotFound
            } else {
                StoreError::ItemNotFound
            }),
    {
        self.update_decay(category_name, item_name, new_rate)
    }
}

} // verus!
