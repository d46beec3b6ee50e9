//! The inventory rules: merging the slots of one class, joining slots with
//! the catalog descriptions that came with them, and what an inventory
//! fetch asks for.

use vstd::prelude::*;
use vstd::string::StringExecFns;
use crate::decimal::{append_digits, digits_of, parse_whole, text_chars, whole_value};
use crate::requests::steam::{hydrated, Asset, FullAsset, MarketItem, UserInventoryResponse};
use std::collections::HashMap;

verus! {

broadcast use vstd::std_specs::hash::group_hash_axioms;

/// Why an operation, or one part of a batch, gave no value.
#[derive(Clone, Debug, PartialEq, Eq)]
pub enum StateError {
    /// The endpoint could not be reached; the text is the transport's report.
    Transport(String),
    /// The endpoint answered with a status other than 200.
    HttpStatus(u16),
    /// The payload could not be read; the text is the part that was refused.
    Decode(String),
    /// No catalog description exists for the class of an inventory slot.
    MissingCatalogEntry(usize),
    /// The operation needs an account that was not given.
    Unconfigured,
}

/// How many of `assets` belong to the class `classid`.
pub open spec fn occurrences(assets: Seq<Asset>, classid: usize) -> nat
    decreases assets.len(),
{
    if assets.len() == 0 {
        0
    } else {
        occurrences(assets.drop_last(), classid) + if assets.last().classid == classid {
            1nat
        } else {
            0nat
        }
    }
}

/// The position of the first of `assets` that belongs to the class `classid`,
/// or the length of `assets` where none does.
pub open spec fn first_position(assets: Seq<Asset>, classid: usize) -> int
    decreases assets.len(),
{
    if assets.len() == 0 {
        0
    } else {
        let before = first_position(assets.drop_last(), classid);
        if before < assets.len() - 1 {
            before
        } else if assets.last().classid == classid {
            assets.len() - 1
        } else {
            assets.len() as int
        }
    }
}

/// The sum of the amounts of `assets`.
pub open spec fn total_amount(assets: Seq<Asset>) -> nat
    decreases assets.len(),
{
    if assets.len() == 0 {
        0
    } else {
        total_amount(assets.drop_last()) + assets.last().amount as nat
    }
}

/// `first_position` names the first slot of the class: nothing before it
/// belongs to the class, and where it is the length, nothing at all does.
pub proof fn lemma_first_position(assets: Seq<Asset>, classid: usize)
    ensures
        0 <= first_position(assets, classid) <= assets.len(),
        first_position(assets, classid) < assets.len() ==> assets[first_position(
            assets,
            classid,
        )].classid == classid,
        forall|j: int|
            0 <= j < first_position(assets, classid) ==> (#[trigger] assets[j]).classid != classid,
        first_position(assets, classid) == assets.len() ==> occurrences(assets, classid) == 0,
        first_position(assets, classid) < assets.len() ==> occurrences(assets, classid) >= 1,
        occurrences(assets, classid) <= assets.len(),
    decreases assets.len(),
{
    if assets.len() > 0 {
        lemma_first_position(assets.drop_last(), classid);
        let before = first_position(assets.drop_last(), classid);
        assert forall|j: int| 0 <= j < first_position(assets, classid) implies (#[trigger] assets[j]).classid
            != classid by {
            if j < assets.len() - 1 {
                assert(assets.drop_last()[j] == assets[j]);
            }
        }
        if before < assets.len() - 1 {
            assert(assets.drop_last()[before] == assets[before]);
        }
    }
}

proof fn lemma_total_amount_update(assets: Seq<Asset>, i: int, changed: Asset)
    requires
        0 <= i < assets.len(),
    ensures
        total_amount(assets.update(i, changed)) == total_amount(assets) - assets[i].amount
            + changed.amount,
    decreases assets.len(),
{
    let updated = assets.update(i, changed);
    if i == assets.len() - 1 {
        assert(updated.drop_last() =~= assets.drop_last());
    } else {
        lemma_total_amount_update(assets.drop_last(), i, changed);
        assert(updated.drop_last() =~= assets.drop_last().update(i, changed));
    }
}

/// The positions of the slots that are the first of their class, ascending.
pub open spec fn class_firsts(assets: Seq<Asset>) -> Seq<int>
    decreases assets.len(),
{
    if assets.len() == 0 {
        Seq::empty()
    } else {
        let earlier = class_firsts(assets.drop_last());
        if first_position(assets, assets.last().classid) == assets.len() - 1 {
            earlier.push(assets.len() - 1)
        } else {
            earlier
        }
    }
}

/// One value for each class among `assets`, in the order in which the classes
/// first occur: the first slot of the class, with the number of the class's
/// slots as its amount.
pub open spec fn deduped(assets: Seq<Asset>) -> Seq<Asset> {
    Seq::new(
        class_firsts(assets).len(),
        |i: int|
            Asset {
                amount: occurrences(assets, assets[class_firsts(assets)[i]].classid) as usize,
                ..assets[class_firsts(assets)[i]]
            },
    )
}

/// What merging keeps: every class among the slots has exactly one value,
/// taken from the first slot of the class, the values stand in the order in
/// which the classes first occur, and their amounts add up to the number of
/// slots.
pub proof fn lemma_deduped(assets: Seq<Asset>)
    requires
        assets.len() <= usize::MAX,
    ensures
        deduped(assets).len() == class_firsts(assets).len(),
        forall|i: int|
            0 <= i < class_firsts(assets).len() ==> 0 <= #[trigger] class_firsts(assets)[i]
                < assets.len() && first_position(
                assets,
                assets[class_firsts(assets)[i]].classid,
            ) == class_firsts(assets)[i],
        forall|i: int, j: int|
            0 <= i < j < class_firsts(assets).len() ==> #[trigger] class_firsts(assets)[i]
                < #[trigger] class_firsts(assets)[j],
        forall|k: int|
            0 <= k < assets.len() ==> exists|i: int|
                0 <= i < class_firsts(assets).len() && #[trigger] class_firsts(assets)[i]
                    == first_position(assets, (#[trigger] assets[k]).classid),
        forall|i: int, j: int|
            0 <= i < deduped(assets).len() && 0 <= j < deduped(assets).len() && i != j ==> (
            #[trigger] deduped(assets)[i]).classid != (#[trigger] deduped(assets)[j]).classid,
        total_amount(deduped(assets)) == assets.len(),
    decreases assets.len(),
{
    if assets.len() == 0 {
        assert(deduped(assets) =~= Seq::<Asset>::empty());
    } else {
        let earlier = assets.drop_last();
        let n = assets.len() - 1;
        let slot = assets.last();
        let firsts = class_firsts(assets);
        let before = class_firsts(earlier);
        lemma_deduped(earlier);
        assert forall|c: usize| true implies {
            &&& 0 <= #[trigger] first_position(earlier, c) <= n
            &&& occurrences(earlier, c) <= n
            &&& (first_position(earlier, c) == n ==> occurrences(earlier, c) == 0)
            &&& (first_position(earlier, c) < n ==> earlier[first_position(earlier, c)].classid
                == c)
        } by {
            lemma_first_position(earlier, c);
        }
        assert forall|i: int| 0 <= i < before.len() implies earlier[#[trigger] before[i]]
            == assets[before[i]] by {}
        if first_position(earlier, slot.classid) < n {
            let p = first_position(earlier, slot.classid);
            assert(earlier[p] == assets[p]);
            let at = choose|i: int|
                0 <= i < before.len() && #[trigger] before[i] == first_position(
                    earlier,
                    (#[trigger] earlier[p]).classid,
                );
            let counted = Asset {
                amount: (deduped(earlier)[at].amount + 1) as usize,
                ..deduped(earlier)[at]
            };
            assert(before[at] == p);
            assert(firsts == before);
            assert forall|i: int| 0 <= i < before.len() implies #[trigger] deduped(assets)[i]
                == deduped(earlier).update(at, counted)[i] by {
                let ci = assets[before[i]].classid;
                assert(earlier[before[i]] == assets[before[i]]);
                assert(first_position(earlier, ci) == before[i]);
                if i != at {
                    assert(before[i] != before[at]);
                    assert(ci != slot.classid);
                    assert(occurrences(assets, ci) == occurrences(earlier, ci));
                } else {
                    assert(ci == slot.classid);
                    assert(occurrences(assets, ci) == occurrences(earlier, ci) + 1);
                }
            }
            assert(deduped(assets) =~= deduped(earlier).update(at, counted));
            lemma_total_amount_update(deduped(earlier), at, counted);
            assert forall|k: int| 0 <= k < assets.len() implies exists|i: int|
                0 <= i < firsts.len() && #[trigger] firsts[i] == first_position(
                    assets,
                    (#[trigger] assets[k]).classid,
                ) by {
                if k < n {
                    assert(earlier[k] == assets[k]);
                    let i = choose|i: int|
                        0 <= i < before.len() && #[trigger] before[i] == first_position(
                            earlier,
                            (#[trigger] earlier[k]).classid,
                        );
                    assert(firsts[i] == first_position(assets, assets[k].classid));
                } else {
                    assert(firsts[at] == first_position(assets, assets[k].classid));
                }
            }
        } else {
            let fresh = Asset { amount: 1, ..slot };
            assert(deduped(assets) =~= deduped(earlier).push(fresh));
            assert(deduped(assets).drop_last() =~= deduped(earlier));
            assert forall|k: int| 0 <= k < assets.len() implies exists|i: int|
                0 <= i < firsts.len() && #[trigger] firsts[i] == first_position(
                    assets,
                    (#[trigger] assets[k]).classid,
                ) by {
                if k < n {
                    assert(earlier[k] == assets[k]);
                    let i = choose|i: int|
                        0 <= i < before.len() && #[trigger] before[i] == first_position(
                            earlier,
                            (#[trigger] earlier[k]).classid,
                        );
                    assert(firsts[i] == first_position(assets, assets[k].classid));
                } else {
                    assert(firsts[firsts.len() - 1] == n);
                }
            }
        }
    }
}

/// Merges the slots of one class into one value. The result holds one value
/// for each class among `assets`, in the order in which the classes first
/// occur; each is the first slot of its class with the number of the class's
/// slots as its amount.
pub fn dedup_assets(assets: &Vec<Asset>) -> (merged: Vec<Asset>)
    ensures
        merged@ == deduped(assets@),
        forall|i: int|
            0 <= i < merged@.len() ==> first_position(assets@, (#[trigger] merged@[i]).classid)
                < assets@.len(),
        forall|i: int|
            0 <= i < merged@.len() ==> #[trigger] merged@[i] == (Asset {
                amount: occurrences(assets@, merged@[i].classid) as usize,
                ..assets@[first_position(assets@, merged@[i].classid)]
            }),
        forall|i: int, j: int|
            0 <= i < j < merged@.len() ==> first_position(assets@, (#[trigger] merged@[i]).classid)
                < first_position(assets@, (#[trigger] merged@[j]).classid),
        forall|k: int|
            0 <= k < assets@.len() ==> exists|i: int|
                0 <= i < merged@.len() && (#[trigger] merged@[i]).classid == (
                #[trigger] assets@[k]).classid,
        forall|i: int, j: int|
            0 <= i < merged@.len() && 0 <= j < merged@.len() && i != j ==> (#[trigger] merged@[i]).classid
                != (#[trigger] merged@[j]).classid,
        total_amount(merged@) == assets@.len(),
{
    let mut merged: Vec<Asset> = Vec::new();
    let mut index: HashMap<usize, usize> = HashMap::new();
    let mut n: usize = 0;
    while n < assets.len()
        invariant
            n <= assets@.len(),
            merged@.len() <= n,
            forall|i: int|
                0 <= i < merged@.len() ==> first_position(
                    assets@.take(n as int),
                    (#[trigger] merged@[i]).classid,
                ) < n,
            forall|i: int|
                0 <= i < merged@.len() ==> #[trigger] merged@[i] == (Asset {
                    amount: occurrences(assets@.take(n as int), merged@[i].classid) as usize,
                    ..assets@[first_position(assets@.take(n as int), merged@[i].classid)]
                }),
            forall|i: int, j: int|
                0 <= i < j < merged@.len() ==> first_position(
                    assets@.take(n as int),
                    (#[trigger] merged@[i]).classid,
                ) < first_position(assets@.take(n as int), (#[trigger] merged@[j]).classid),
            forall|c: usize|
                first_position(assets@.take(n as int), c) < n ==> #[trigger] index@.contains_key(c),
            forall|c: usize| #[trigger]
                index@.contains_key(c) ==> index@[c] < merged@.len() && merged@[index@[c] as int].classid
                    == c,
            total_amount(merged@) == n,
            merged@.len() == class_firsts(assets@.take(n as int)).len(),
            forall|i: int|
                0 <= i < merged@.len() ==> first_position(
                    assets@.take(n as int),
                    (#[trigger] merged@[i]).classid,
                ) == class_firsts(assets@.take(n as int))[i],
        decreases assets@.len() - n,
    {
        let slot = assets[n];
        let ghost before = assets@.take(n as int);
        let ghost after = assets@.take(n + 1);
        let ghost old_merged = merged@;
        proof {
            assert(after.drop_last() =~= before);
            assert(after.last() == slot);
            assert forall|c: usize| true implies {
                &&& 0 <= #[trigger] first_position(before, c) <= n
                &&& occurrences(before, c) <= n
                &&& (first_position(before, c) == n ==> occurrences(before, c) == 0)
            } by {
                lemma_first_position(before, c);
            }
        }
        match index.get(&slot.classid) {
            Some(at) => {
                let at: usize = *at;
                let seen = merged[at];
                let counted = Asset { amount: seen.amount + 1, ..seen };
                merged.set(at, counted);
                proof {
                    lemma_total_amount_update(old_merged, at as int, counted);
                }
            },
            None => {
                merged.push(Asset { amount: 1, ..slot });
                index.insert(slot.classid, merged.len() - 1);
                proof {
                    assert(merged@.drop_last() =~= old_merged);
                }
            },
        }
        n += 1;
    }
    proof {
        assert(assets@.take(n as int) =~= assets@);
        assert(merged@ =~= deduped(assets@));
        assert forall|k: int| 0 <= k < assets@.len() implies exists|i: int|
            0 <= i < merged@.len() && (#[trigger] merged@[i]).classid == (#[trigger] assets@[k]).classid by {
            let c = assets@[k].classid;
            lemma_first_position(assets@, c);
            assert(index@.contains_key(c));
            assert(merged@[index@[c] as int].classid == c);
        }
    }
    merged
}

/// The catalog that `descriptions` make: each class with its description,
/// the later of two descriptions of one class replacing the earlier.
pub open spec fn catalog_of(descriptions: Seq<MarketItem>) -> Map<usize, MarketItem>
    decreases descriptions.len(),
{
    if descriptions.len() == 0 {
        Map::empty()
    } else {
        catalog_of(descriptions.drop_last()).insert(
            descriptions.last().classid,
            descriptions.last(),
        )
    }
}

/// A class is in the catalog exactly if a description names it, and the
/// catalog then holds the last description that does.
pub proof fn lemma_catalog_of(descriptions: Seq<MarketItem>, classid: usize)
    ensures
        catalog_of(descriptions).contains_key(classid) <==> exists|i: int|
            0 <= i < descriptions.len() && (#[trigger] descriptions[i]).classid == classid,
        catalog_of(descriptions).contains_key(classid) ==> exists|i: int|
            0 <= i < descriptions.len() && #[trigger] descriptions[i] == catalog_of(
                descriptions,
            )[classid] && descriptions[i].classid == classid && forall|j: int|
                i < j < descriptions.len() ==> (#[trigger] descriptions[j]).classid != classid,
    decreases descriptions.len(),
{
    if descriptions.len() > 0 {
        let earlier = descriptions.drop_last();
        lemma_catalog_of(earlier, classid);
        let last = descriptions.len() - 1;
        if descriptions.last().classid == classid {
            assert(descriptions[last].classid == classid);
        } else if catalog_of(earlier).contains_key(classid) {
            let i = choose|i: int|
                0 <= i < earlier.len() && #[trigger] earlier[i] == catalog_of(earlier)[classid]
                    && earlier[i].classid == classid && forall|j: int|
                    i < j < earlier.len() ==> (#[trigger] earlier[j]).classid != classid;
            assert(descriptions[i] == earlier[i]);
            assert forall|j: int| i < j < descriptions.len() implies (#[trigger] descriptions[j]).classid
                != classid by {
                if j < last {
                    assert(earlier[j] == descriptions[j]);
                }
            }
        } else {
            assert forall|i: int| 0 <= i < descriptions.len() implies (#[trigger] descriptions[i]).classid
                != classid by {
                if i < last {
                    assert(earlier[i] == descriptions[i]);
                }
            }
        }
    }
}

/// Builds the catalog of the descriptions that came with an inventory.
pub fn index_descriptions(descriptions: &Vec<MarketItem>) -> (catalog: HashMap<usize, MarketItem>)
    ensures
        catalog@ == catalog_of(descriptions@),
{
    let mut catalog: HashMap<usize, MarketItem> = HashMap::new();
    let mut n: usize = 0;
    while n < descriptions.len()
        invariant
            n <= descriptions@.len(),
            catalog@ == catalog_of(descriptions@.take(n as int)),
        decreases descriptions@.len() - n,
    {
        proof {
            assert(descriptions@.take(n + 1).drop_last() =~= descriptions@.take(n as int));
        }
        let item = descriptions[n].duplicate();
        catalog.insert(item.classid, item);
        n += 1;
    }
    proof {
        assert(descriptions@.take(n as int) =~= descriptions@);
    }
    catalog
}

/// The position of the first of `slots` whose class the catalog does not
/// describe, or the length of `slots` where every class is described.
pub open spec fn first_undescribed(slots: Seq<Asset>, catalog: Map<usize, MarketItem>) -> int
    decreases slots.len(),
{
    if slots.len() == 0 {
        0
    } else {
        let before = first_undescribed(slots.drop_last(), catalog);
        if before < slots.len() - 1 {
            before
        } else if !catalog.contains_key(slots.last().classid) {
            slots.len() - 1
        } else {
            slots.len() as int
        }
    }
}

/// `first_undescribed` names the first slot without a description: every slot
/// before it has one, and where it is the length, every slot has one.
pub proof fn lemma_first_undescribed(slots: Seq<Asset>, catalog: Map<usize, MarketItem>)
    ensures
        0 <= first_undescribed(slots, catalog) <= slots.len(),
        first_undescribed(slots, catalog) < slots.len() ==> !catalog.contains_key(
            slots[first_undescribed(slots, catalog)].classid,
        ),
        forall|j: int|
            0 <= j < first_undescribed(slots, catalog) ==> catalog.contains_key(
                (#[trigger] slots[j]).classid,
            ),
        first_undescribed(slots, catalog) == slots.len() <==> forall|j: int|
            0 <= j < slots.len() ==> catalog.contains_key((#[trigger] slots[j]).classid),
    decreases slots.len(),
{
    if slots.len() > 0 {
        lemma_first_undescribed(slots.drop_last(), catalog);
        let before = first_undescribed(slots.drop_last(), catalog);
        assert forall|j: int| 0 <= j < first_undescribed(slots, catalog) implies catalog.contains_key(
            (#[trigger] slots[j]).classid,
        ) by {
            if j < slots.len() - 1 {
                assert(slots.drop_last()[j] == slots[j]);
            }
        }
        if before < slots.len() - 1 {
            assert(slots.drop_last()[before] == slots[before]);
        }
    }
}

/// What the join gives for one slot: the joined value, or the report that the
/// slot's class has no description.
pub open spec fn hydrated_or_missing(slot: Asset, catalog: Map<usize, MarketItem>) -> Result<
    FullAsset,
    StateError,
> {
    if catalog.contains_key(slot.classid) {
        Ok(hydrated(slot, catalog[slot.classid]))
    } else {
        Err(StateError::MissingCatalogEntry(slot.classid))
    }
}

/// Joins one slot with the catalog.
pub fn hydrate_one(slot: Asset, catalog: &HashMap<usize, MarketItem>) -> (joined: Result<
    FullAsset,
    StateError,
>)
    ensures
        joined == hydrated_or_missing(slot, catalog@),
{
    match catalog.get(&slot.classid) {
        Some(item) => Ok(slot.hydrate(item.duplicate())),
        None => Err(StateError::MissingCatalogEntry(slot.classid)),
    }
}

/// Joins every slot with the catalog, slot by slot: a slot whose class has no
/// description yields an error in its own place and leaves the others as
/// they are.
pub fn hydrate_each(slots: &Vec<Asset>, catalog: &HashMap<usize, MarketItem>) -> (joined: Vec<
    Result<FullAsset, StateError>,
>)
    ensures
        joined@.len() == slots@.len(),
        forall|i: int|
            0 <= i < slots@.len() ==> #[trigger] joined@[i] == hydrated_or_missing(
                slots@[i],
                catalog@,
            ),
{
    let mut joined: Vec<Result<FullAsset, StateError>> = Vec::new();
    let mut n: usize = 0;
    while n < slots.len()
        invariant
            n <= slots@.len(),
            joined@.len() == n,
            forall|i: int|
                0 <= i < n ==> #[trigger] joined@[i] == hydrated_or_missing(slots@[i], catalog@),
        decreases slots@.len() - n,
    {
        joined.push(hydrate_one(slots[n], catalog));
        n += 1;
    }
    joined
}

/// The joined values of `slots`, where the catalog describes every class.
pub open spec fn hydrated_all(slots: Seq<Asset>, catalog: Map<usize, MarketItem>) -> Seq<
    FullAsset,
> {
    Seq::new(slots.len(), |i: int| hydrated(slots[i], catalog[slots[i].classid]))
}

/// The two ways of joining agree: where every class is described, the
/// values of the whole join are those of the join slot by slot, as many as
/// there are slots; where one is not, the whole join reports the first slot
/// for which the join slot by slot reports an error.
pub proof fn lemma_hydration_modes(slots: Seq<Asset>, catalog: Map<usize, MarketItem>)
    ensures
        hydrated_all(slots, catalog).len() == slots.len(),
        first_undescribed(slots, catalog) == slots.len() ==> forall|i: int|
            0 <= i < slots.len() ==> hydrated_or_missing(#[trigger] slots[i], catalog) == Ok::<
                FullAsset,
                StateError,
            >(hydrated_all(slots, catalog)[i]),
        first_undescribed(slots, catalog) < slots.len() ==> hydrated_or_missing(
            slots[first_undescribed(slots, catalog)],
            catalog,
        ) == Err::<FullAsset, StateError>(
            StateError::MissingCatalogEntry(slots[first_undescribed(slots, catalog)].classid),
        ) && forall|i: int|
            0 <= i < first_undescribed(slots, catalog) ==> hydrated_or_missing(
                #[trigger] slots[i],
                catalog,
            ) is Ok,
{
    lemma_first_undescribed(slots, catalog);
}

/// Joins every slot with the catalog, all or nothing: the joined values in
/// the order of the slots, or the report of the first slot whose class has
/// no description.
pub fn hydrate_assets(slots: &Vec<Asset>, catalog: &HashMap<usize, MarketItem>) -> (joined: Result<
    Vec<FullAsset>,
    StateError,
>)
    ensures
        match joined {
            Ok(full) => first_undescribed(slots@, catalog@) == slots@.len() && full@
                == hydrated_all(slots@, catalog@),
            Err(e) => first_undescribed(slots@, catalog@) < slots@.len() && e
                == StateError::MissingCatalogEntry(
                slots@[first_undescribed(slots@, catalog@)].classid,
            ),
        },
{
    let mut full: Vec<FullAsset> = Vec::new();
    let mut n: usize = 0;
    while n < slots.len()
        invariant
            n <= slots@.len(),
            full@.len() == n,
            first_undescribed(slots@.take(n as int), catalog@) == n,
            forall|i: int|
                0 <= i < n ==> #[trigger] full@[i] == hydrated(
                    slots@[i],
                    catalog@[slots@[i].classid],
                ),
        decreases slots@.len() - n,
    {
        proof {
            assert(slots@.take(n + 1).drop_last() =~= slots@.take(n as int));
        }
        match hydrate_one(slots[n], catalog) {
            Ok(one) => {
                full.push(one);
            },
            Err(e) => {
                proof {
                    lemma_first_undescribed_extends(slots@, catalog@, n + 1);
                }
                return Err(e);
            },
        }
        n += 1;
    }
    proof {
        assert(slots@.take(n as int) =~= slots@);
        assert(full@ =~= hydrated_all(slots@, catalog@));
    }
    Ok(full)
}

proof fn lemma_first_undescribed_extends(
    slots: Seq<Asset>,
    catalog: Map<usize, MarketItem>,
    n: int,
)
    requires
        0 <= n <= slots.len(),
        first_undescribed(slots.take(n), catalog) < n,
    ensures
        first_undescribed(slots, catalog) == first_undescribed(slots.take(n), catalog),
    decreases slots.len() - n,
{
    if n < slots.len() {
        assert(slots.take(n + 1).drop_last() =~= slots.take(n));
        lemma_first_undescribed_extends(slots, catalog, n + 1);
    } else {
        assert(slots.take(n) =~= slots);
    }
}

/// The slots that the join works on: merged by class or as they came.
pub open spec fn chosen_slots(assets: Seq<Asset>, dedup: bool) -> Seq<Asset> {
    if dedup {
        deduped(assets)
    } else {
        assets
    }
}

/// The inventory endpoint's value of `success` that declares a good answer.
pub const INVENTORY_SUCCESS: usize = 1;

/// Everything a user owns, from the decoded answer of the inventory
/// endpoint. An answer that does not declare success is refused. Otherwise
/// the slots, merged by class where `dedup` is set, are joined with the
/// descriptions that came with them, all or nothing.
pub fn user_items(response: &UserInventoryResponse, dedup: bool) -> (items: Result<
    Vec<FullAsset>,
    StateError,
>)
    ensures
        match items {
            Ok(full) => {
                &&& response.success == INVENTORY_SUCCESS
                &&& first_undescribed(
                    chosen_slots(response.assets@, dedup),
                    catalog_of(response.descriptions@),
                ) == chosen_slots(response.assets@, dedup).len()
                &&& full@ == hydrated_all(
                    chosen_slots(response.assets@, dedup),
                    catalog_of(response.descriptions@),
                )
            },
            Err(StateError::Decode(text)) => response.success != INVENTORY_SUCCESS && text@
                == "success"@,
            Err(e) => {
                &&& response.success == INVENTORY_SUCCESS
                &&& first_undescribed(
                    chosen_slots(response.assets@, dedup),
                    catalog_of(response.descriptions@),
                ) < chosen_slots(response.assets@, dedup).len()
                &&& e == StateError::MissingCatalogEntry(
                    chosen_slots(response.assets@, dedup)[first_undescribed(
                        chosen_slots(response.assets@, dedup),
                        catalog_of(response.descriptions@),
                    )].classid,
                )
            },
        },
{
    if response.success != INVENTORY_SUCCESS {
        return Err(StateError::Decode("success".to_owned()));
    }
    let catalog = index_descriptions(&response.descriptions);
    if dedup {
        let merged = dedup_assets(&response.assets);
        hydrate_assets(&merged, &catalog)
    } else {
        hydrate_assets(&response.assets, &catalog)
    }
}

/// The address of the inventory endpoint, up to the account.
pub const INVENTORY_URL: &'static str = "https://steamcommunity.com/inventory/";

/// The address of the inventory of `account` in the game `game`.
pub open spec fn inventory_address(game: usize, account: usize) -> Seq<char> {
    INVENTORY_URL@ + digits_of(account as nat) + "/"@ + digits_of(game as nat) + "/2"@
}

/// The address from which the inventory of `account` in the game `game` is
/// fetched.
pub fn inventory_url(game: usize, account: usize) -> (url: String)
    ensures
        url@ == inventory_address(game, account),
{
    let mut url = INVENTORY_URL.to_owned();
    append_digits(&mut url, account);
    url.append("/");
    append_digits(&mut url, game);
    url.append("/2");
    url
}

/// The query parameters of an inventory fetch: the language, and the cap
/// on the number of slots in one answer.
pub fn inventory_query() -> (query: Vec<(String, String)>)
    ensures
        query@.len() == 2,
        query@[0].0@ == "l"@,
        query@[0].1@ == "english"@,
        query@[1].0@ == "count"@,
        query@[1].1@ == "5000"@,
{
    let mut query: Vec<(String, String)> = Vec::new();
    query.push(("l".to_owned(), "english".to_owned()));
    query.push(("count".to_owned(), "5000".to_owned()));
    query
}

/// Reads the account that a caller names. No name at all means that no
/// account is configured; a name has to be a whole number in digits.
pub fn account_id(user: &str) -> (account: Result<usize, StateError>)
    ensures
        match account {
            Ok(id) => whole_value(user@) == Some(id),
            Err(StateError::Unconfigured) => user@.len() == 0,
            Err(StateError::Decode(refused)) => user@.len() > 0 && whole_value(user@) is None
                && refused@ == user@,
            Err(_) => false,
        },
{
    let chars = text_chars(user);
    if chars.len() == 0 {
        return Err(StateError::Unconfigured);
    }
    match parse_whole(&chars) {
        Some(id) => Ok(id),
        None => Err(StateError::Decode(user.to_owned())),
    }
}

} // verus!
