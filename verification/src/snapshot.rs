//! Snapshots: the store as plain values, and the store rebuilt from them.
//!
//! Persistence hands these parts to whatever writes and reads the file.
//! `snapshot_parts` extracts exactly the store's content; `from_parts`
//! validates and rebuilds it, succeeding on every snapshot and reproducing
//! the hierarchy identically — the round trip is the identity.

use vstd::prelude::*;
use crate::error::StoreError;
use crate::rate::validate_decay_rate_range;
use crate::store::{
    has_cat, lemma_cat_idx_unique, wf_category, wf_item, wf_store, AppData, CategoryView,
    ItemView, ScoreView,
};
use crate::text::{trim_str, trimmed_of};

verus! {

/// One item as plain values: scores are (value, timestamp) pairs.
pub struct ItemPart {
    pub name: String,
    pub decay_centi: u8,
    pub updated_at: i64,
    pub scores: Vec<(i64, i64)>,
}

/// One category as plain values.
pub struct CategoryPart {
    pub name: String,
    pub created_at: i64,
    pub items: Vec<ItemPart>,
}

/// The item view an item part stands for, its name taken as given.
pub open spec fn item_part_view(p: ItemPart) -> ItemView {
    ItemView {
        name: p.name@,
        decay_centi: p.decay_centi as int,
        updated_at: p.updated_at as int,
        scores: Seq::new(
            p.scores@.len(),
            |k: int|
                ScoreView { score: p.scores@[k].0 as int, timestamp: p.scores@[k].1 as int },
        ),
    }
}

/// The item view an item part stands for after its name is trimmed, the
/// way the store keeps names.
pub open spec fn trimmed_item_part_view(p: ItemPart) -> ItemView {
    ItemView { name: trimmed_of(p.name@), ..item_part_view(p) }
}

/// The category view a category part stands for, names taken as given.
pub open spec fn cat_part_view(p: CategoryPart) -> CategoryView {
    CategoryView {
        name: p.name@,
        created_at: p.created_at as int,
        items: Seq::new(p.items@.len(), |k: int| item_part_view(p.items@[k])),
    }
}

/// The category view a category part stands for after every name is
/// trimmed.
pub open spec fn trimmed_cat_part_view(p: CategoryPart) -> CategoryView {
    CategoryView {
        name: trimmed_of(p.name@),
        created_at: p.created_at as int,
        items: Seq::new(p.items@.len(), |k: int| trimmed_item_part_view(p.items@[k])),
    }
}

/// The store content a run of parts stands for, names taken as given.
pub open spec fn parts_view(ps: Seq<CategoryPart>) -> Seq<CategoryView> {
    Seq::new(ps.len(), |i: int| cat_part_view(ps[i]))
}

/// The store content a run of parts stands for after trimming every name.
pub open spec fn trimmed_parts_view(ps: Seq<CategoryPart>) -> Seq<CategoryView> {
    Seq::new(ps.len(), |i: int| trimmed_cat_part_view(ps[i]))
}

/// Parts are well formed when the content they stand for, as given,
/// satisfies every store invariant.
pub open spec fn parts_ok(ps: Seq<CategoryPart>) -> bool {
    wf_store(parts_view(ps))
}

/// The round-trip law of persistence: on well-formed parts — and every
/// snapshot of a well-formed store is such — trimming changes nothing, so
/// rebuilding the store from them reproduces exactly the content they
/// stand for: the same categories, items, decay rates and score runs, in
/// the same order.
pub proof fn lemma_parts_roundtrip(ps: Seq<CategoryPart>)
    requires
        parts_ok(ps),
    ensures
        wf_store(trimmed_parts_view(ps)),
        trimmed_parts_view(ps) == parts_view(ps),
{
    assert forall|i: int| 0 <= i < ps.len() implies trimmed_cat_part_view(#[trigger] ps[i])
        == cat_part_view(ps[i]) by {
        assert(wf_category(parts_view(ps)[i]));
        assert(parts_view(ps)[i] == cat_part_view(ps[i]));
        let c = cat_part_view(ps[i]);
        assert(trimmed_of(c.name) == c.name);
        assert forall|k: int| 0 <= k < ps[i].items@.len() implies trimmed_item_part_view(
            #[trigger] ps[i].items@[k],
        ) == item_part_view(ps[i].items@[k]) by {
            assert(wf_item(c.items[k]));
            assert(c.items[k] == item_part_view(ps[i].items@[k]));
        }
        assert(trimmed_cat_part_view(ps[i]).items =~= cat_part_view(ps[i]).items);
    }
    assert(trimmed_parts_view(ps) =~= parts_view(ps));
}

impl AppData {
    /// The full hierarchy as plain values: exactly the store's content, in
    /// order, ready to hand to persistence.
    pub fn snapshot_parts(&self) -> (r: Vec<CategoryPart>)
        requires
            wf_store(self@),
        ensures
            parts_view(r@) == self@,
            parts_ok(r@),
    {
        let cats = self.categories();
        let n = cats.len();
        let mut parts: Vec<CategoryPart> = Vec::new();
        let mut i: usize = 0;
        while i < n
            invariant
                i <= n,
                n == cats@.len(),
                n == self@.len(),
                forall|t: int| 0 <= t < n ==> (#[trigger] cats@[t])@ == self@[t],
                parts@.len() == i,
                forall|t: int| 0 <= t < i ==> cat_part_view(#[trigger] parts@[t]) == self@[t],
            decreases n - i,
        {
            let cat = &cats[i];
            let items = cat.items();
            let m = items.len();
            let mut item_parts: Vec<ItemPart> = Vec::new();
            let mut k: usize = 0;
            while k < m
                invariant
                    k <= m,
                    m == items@.len(),
                    m == cat@.items.len(),
                    forall|t: int| 0 <= t < m ==> (#[trigger] items@[t])@ == cat@.items[t],
                    item_parts@.len() == k,
                    forall|t: int|
                        0 <= t < k ==> item_part_view(#[trigger] item_parts@[t]) == cat@.items[t],
                decreases m - k,
            {
                let item = &items[k];
                let entries = item.scores();
                let e = entries.len();
                let mut scores: Vec<(i64, i64)> = Vec::new();
                let mut q: usize = 0;
                while q < e
                    invariant
                        q <= e,
                        e == entries@.len(),
                        e == item@.scores.len(),
                        forall|t: int| 0 <= t < e ==> (#[trigger] entries@[t])@ == item@.scores[t],
                        scores@.len() == q,
                        forall|t: int|
                            0 <= t < q ==> (#[trigger] scores@[t]).0 as int == item@.scores[t].score
                                && scores@[t].1 as int == item@.scores[t].timestamp,
                    decreases e - q,
                {
                    scores.push((entries[q].score(), entries[q].timestamp()));
                    q += 1;
                }
                let part = ItemPart {
                    name: item.name().clone(),
                    decay_centi: item.decay_rate().centi(),
                    updated_at: item.updated_at(),
                    scores,
                };
                proof {
                    assert(item_part_view(part).scores =~= item@.scores);
                    assert(item_part_view(part) == item@);
                }
                item_parts.push(part);
                k += 1;
            }
            let cpart = CategoryPart {
                name: cat.name().clone(),
                created_at: cat.created_at(),
                items: item_parts,
            };
            proof {
                assert(cat_part_view(cpart).items =~= cat@.items);
                assert(cat_part_view(cpart) == cat@);
                assert(cat@ == self@[i as int]);
            }
            parts.push(cpart);
            i += 1;
        }
        proof {
            assert(parts_view(parts@) =~= self@);
        }
        parts
    }

    /// Rebuilds a store from plain parts, trimming names as every store
    /// entry point does.  It succeeds exactly when the trimmed content
    /// satisfies the store invariants — in particular on every snapshot of
    /// a well-formed store — and then holds exactly that content.
    pub fn from_parts(parts: &Vec<CategoryPart>) -> (r: Result<AppData, StoreError>)
        ensures
            r is Ok <==> wf_store(trimmed_parts_view(parts@)),
            r matches Ok(d) ==> d@ == trimmed_parts_view(parts@) && wf_store(d@),
    {
        let ghost full = trimmed_parts_view(parts@);
        let mut d = AppData::default();
        let n = parts.len();
        let mut i: usize = 0;
        while i < n
            invariant
                i <= n,
                n == parts@.len(),
                full == trimmed_parts_view(parts@),
                wf_store(d@),
                d@ == trimmed_parts_view(parts@.subrange(0, i as int)),
            decreases n - i,
        {
            let ghost pre = d@;
            let p = &parts[i];
            match d.restore_category(p.name.clone(), p.created_at) {
                Ok(()) => (),
                Err(e) => {
                    proof {
                        lemma_prefix_view(parts@, i as int);
                        if trimmed_of(p.name@).len() == 0 {
                            assert(!wf_category(full[i as int]));
                        } else {
                            assert(has_cat(pre, trimmed_of(p.name@)));
                            let j = choose|j: int|
                                0 <= j < pre.len() && (#[trigger] pre[j]).name == trimmed_of(
                                    p.name@,
                                );
                            assert(full[j].name == full[i as int].name);
                        }
                        assert(!wf_store(full));
                    }
                    return Err(e);
                },
            }
            proof {
                lemma_prefix_view(parts@, i as int);
                assert(d@ =~= pre.push(
                    CategoryView {
                        name: trimmed_of(p.name@),
                        created_at: p.created_at as int,
                        items: Seq::<ItemView>::empty(),
                    },
                ));
                assert(Seq::new(
                    0nat,
                    |q: int| trimmed_item_part_view(parts@[i as int].items@[q]),
                ) =~= Seq::<ItemView>::empty());
                assert(d@[i as int] == (CategoryView {
                    name: trimmed_of(parts@[i as int].name@),
                    created_at: parts@[i as int].created_at as int,
                    items: Seq::new(
                        0nat,
                        |q: int| trimmed_item_part_view(parts@[i as int].items@[q]),
                    ),
                }));
            }
            let cat_name = trim_str(parts[i].name.as_str()).to_owned();
            let m = p.items.len();
            let mut k: usize = 0;
            while k < m
                invariant
                    k <= m,
                    i < n,
                    n == parts@.len(),
                    m == parts@[i as int].items@.len(),
                    full == trimmed_parts_view(parts@),
                    cat_name@ == trimmed_of(parts@[i as int].name@),
                    wf_store(d@),
                    d@.len() == i + 1,
                    d@.subrange(0, i as int) == trimmed_parts_view(parts@.subrange(0, i as int)),
                    d@[i as int] == (CategoryView {
                        name: trimmed_of(parts@[i as int].name@),
                        created_at: parts@[i as int].created_at as int,
                        items: Seq::new(
                            k as nat,
                            |q: int| trimmed_item_part_view(parts@[i as int].items@[q]),
                        ),
                    }),
                decreases m - k,
            {
                let ghost dpre = d@;
                let it = &parts[i].items[k];
                let decay = match validate_decay_rate_range(it.decay_centi as i64) {
                    Ok(dr) => dr,
                    Err(e) => {
                        proof {
                            lemma_full_index(parts@, i as int, k as int);
                            assert(!wf_item(full[i as int].items[k as int]));
                            assert(!wf_category(full[i as int]));
                            assert(!wf_store(full));
                        }
                        return Err(e);
                    },
                };
                let res = d.restore_item(
                    cat_name.as_str(),
                    it.name.clone(),
                    decay,
                    it.updated_at,
                    &it.scores,
                );
                proof {
                    lemma_cat_idx_unique(dpre, cat_name@, i as int);
                }
                match res {
                    Ok(()) => (),
                    Err(e) => {
                        proof {
                            lemma_full_index(parts@, i as int, k as int);
                            let itv = trimmed_item_part_view(parts@[i as int].items@[k as int]);
                            if trimmed_of(it.name@).len() == 0 {
                                assert(!wf_item(itv));
                                assert(!wf_category(full[i as int]));
                            } else if exists|q: int|
                                0 <= q < k && (#[trigger] dpre[i as int].items[q]).name
                                    == trimmed_of(it.name@) {
                                let q = choose|q: int|
                                    0 <= q < k && (#[trigger] dpre[i as int].items[q]).name
                                        == trimmed_of(it.name@);
                                assert(full[i as int].items[q].name == itv.name);
                                assert(!wf_category(full[i as int]));
                            } else {
                                assert(exists|t: int|
                                    0 <= t < it.scores@.len() && (#[trigger] it.scores@[t]).0 < 0);
                                let t = choose|t: int|
                                    0 <= t < it.scores@.len() && (#[trigger] it.scores@[t]).0 < 0;
                                assert(itv.scores[t].score < 0);
                                assert(!wf_item(itv));
                                assert(!wf_category(full[i as int]));
                            }
                            assert(!wf_store(full));
                        }
                        return Err(e);
                    },
                }
                proof {
                    lemma_full_index(parts@, i as int, k as int);
                    let itv = trimmed_item_part_view(parts@[i as int].items@[k as int]);
                    let c0 = dpre[i as int];
                    let c1 = d@[i as int];
                    assert(c1.items.len() == k + 1);
                    assert(c1.items.last().scores =~= itv.scores);
                    assert(c1.items.last() == itv);
                    assert forall|q: int| 0 <= q < k implies c1.items[q] == c0.items[q] by {
                        assert(c1.items.subrange(0, k as int)[q] == c1.items[q]);
                    }
                    assert(c1.items =~= Seq::new(
                        (k + 1) as nat,
                        |q: int| trimmed_item_part_view(parts@[i as int].items@[q]),
                    ));
                    assert(c1 == (CategoryView {
                        name: trimmed_of(parts@[i as int].name@),
                        created_at: parts@[i as int].created_at as int,
                        items: Seq::new(
                            (k + 1) as nat,
                            |q: int| trimmed_item_part_view(parts@[i as int].items@[q]),
                        ),
                    }));
                    assert forall|j: int| 0 <= j < i implies #[trigger] d@[j] == dpre[j] by {}
                    assert(d@.subrange(0, i as int) =~= trimmed_parts_view(
                        parts@.subrange(0, i as int),
                    ));
                }
                k += 1;
            }
            proof {
                lemma_prefix_view(parts@, i as int);
                lemma_prefix_view(parts@, (i + 1) as int);
                assert(d@[i as int].items =~= trimmed_cat_part_view(parts@[i as int]).items);
                assert(d@[i as int] == trimmed_cat_part_view(parts@[i as int]));
                assert forall|j: int| 0 <= j < i implies #[trigger] d@[j] == trimmed_parts_view(
                    parts@.subrange(0, (i + 1) as int),
                )[j] by {
                    assert(d@.subrange(0, i as int)[j] == d@[j]);
                    assert(trimmed_parts_view(parts@.subrange(0, i as int))[j]
                        == trimmed_cat_part_view(parts@[j]));
                    assert(parts@.subrange(0, (i + 1) as int)[j] == parts@[j]);
                }
                assert(parts@.subrange(0, (i + 1) as int)[i as int] == parts@[i as int]);
                assert(d@ =~= trimmed_parts_view(parts@.subrange(0, (i + 1) as int)));
            }
            i += 1;
        }
        proof {
            assert(parts@.subrange(0, n as int) =~= parts@);
        }
        Ok(d)
    }
}

/// Indexing facts shared by the rebuild proofs: the trimmed view of a
/// prefix matches the full trimmed view position by position.
proof fn lemma_prefix_view(ps: Seq<CategoryPart>, i: int)
    requires
        0 <= i <= ps.len(),
    ensures
        trimmed_parts_view(ps.subrange(0, i)).len() == i,
        forall|j: int|
            0 <= j < i ==> #[trigger] trimmed_parts_view(ps.subrange(0, i))[j]
                == trimmed_parts_view(ps)[j],
{
    assert forall|j: int| 0 <= j < i implies #[trigger] trimmed_parts_view(ps.subrange(0, i))[j]
        == trimmed_parts_view(ps)[j] by {
        assert(ps.subrange(0, i)[j] == ps[j]);
    }
}

/// The item at (i, k) of the full trimmed view is the trimmed view of the
/// part at (i, k).
proof fn lemma_full_index(ps: Seq<CategoryPart>, i: int, k: int)
    requires
        0 <= i < ps.len(),
        0 <= k < ps[i].items@.len(),
    ensures
        trimmed_parts_view(ps)[i] == trimmed_cat_part_view(ps[i]),
        trimmed_parts_view(ps)[i].items[k] == trimmed_item_part_view(ps[i].items@[k]),
{
}

} // verus!
