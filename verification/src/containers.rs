//! Selecting the containers among items: by the type that the catalog gives
//! them, or by a fixed list of the names of the basic cases. The two rules
//! are separate and select different items.

use vstd::prelude::*;
use crate::requests::csgobackpack::MarketItem;
use crate::requests::steam::FullAsset;
use std::collections::HashMap;

verus! {

broadcast use vstd::std_specs::hash::group_hash_axioms;

/// The type that the platform gives the containers in a user's inventory.
pub const USER_CONTAINER_TYPE: &'static str = "Base Grade Container";

/// The type that the global catalog gives its containers.
pub const CATALOG_CONTAINER_TYPE: &'static str = "Container";

/// Whether a type is present and reads `expected`.
pub open spec fn type_is(item_type: Option<String>, expected: Seq<char>) -> bool {
    match item_type {
        Some(t) => t@ == expected,
        None => false,
    }
}

fn has_type(item_type: &Option<String>, expected: &str) -> (matches: bool)
    ensures
        matches == type_is(*item_type, expected@),
{
    match item_type {
        Some(t) => {
            let wanted = expected.to_owned();
            *t == wanted
        },
        None => false,
    }
}

/// The names of the basic cases.
pub open spec fn basic_case_names() -> Seq<Seq<char>> {
    seq![
        "Winter Offensive Weapon Case"@,
        "Operation Phoenix Weapon Case"@,
        "Huntsman Weapon Case"@,
        "Operation Breakout Weapon Case"@,
        "Operation Vanguard Weapon Case"@,
        "Chroma Case"@,
        "Chroma 2 Case"@,
        "Falchion Case"@,
        "Shadow Case"@,
        "Revolver Case"@,
        "Operation Wildfire Case"@,
        "Chroma 3 Case"@,
        "Gamma Case"@,
        "Gamma 2 Case"@,
        "Glove Case"@,
        "Spectrum Case"@,
        "Operation Hydra Case"@,
        "Spectrum 2 Case"@,
        "Clutch Case"@,
        "Horizon Case"@,
        "Danger Zone Case"@,
        "Prisma Case"@,
        "CS20 Case"@,
        "Shattered Web Case"@,
        "Prisma 2 Case"@,
        "Operation Broken Fang Case"@,
        "Fracture Case"@,
        "Snakebite Case"@,
        "Revolution Case"@,
        "Recoil Case"@,
    ]
}

/// The list of the names of the basic cases.
pub fn basic_case_list() -> (names: Vec<&'static str>)
    ensures
        names@.len() == basic_case_names().len(),
        forall|i: int| 0 <= i < names@.len() ==> (#[trigger] names@[i])@ == basic_case_names()[i],
{
    vec![
        "Winter Offensive Weapon Case",
        "Operation Phoenix Weapon Case",
        "Huntsman Weapon Case",
        "Operation Breakout Weapon Case",
        "Operation Vanguard Weapon Case",
        "Chroma Case",
        "Chroma 2 Case",
        "Falchion Case",
        "Shadow Case",
        "Revolver Case",
        "Operation Wildfire Case",
        "Chroma 3 Case",
        "Gamma Case",
        "Gamma 2 Case",
        "Glove Case",
        "Spectrum Case",
        "Operation Hydra Case",
        "Spectrum 2 Case",
        "Clutch Case",
        "Horizon Case",
        "Danger Zone Case",
        "Prisma Case",
        "CS20 Case",
        "Shattered Web Case",
        "Prisma 2 Case",
        "Operation Broken Fang Case",
        "Fracture Case",
        "Snakebite Case",
        "Revolution Case",
        "Recoil Case",
    ]
}

/// Whether `name` is the name of a basic case.
pub fn is_basic_case_name(name: &String) -> (listed: bool)
    ensures
        listed == basic_case_names().contains(name@),
{
    let names = basic_case_list();
    let mut n: usize = 0;
    while n < names.len()
        invariant
            n <= names@.len(),
            names@.len() == basic_case_names().len(),
            forall|i: int|
                0 <= i < names@.len() ==> (#[trigger] names@[i])@ == basic_case_names()[i],
            forall|i: int| 0 <= i < n ==> basic_case_names()[i] != name@,
        decreases names@.len() - n,
    {
        let candidate = names[n].to_owned();
        if *name == candidate {
            return true;
        }
        n += 1;
    }
    false
}

/// Whether an item of a user is a container by its type.
pub open spec fn is_user_container(item: FullAsset) -> bool {
    type_is(item.item_type, USER_CONTAINER_TYPE@)
}

/// Whether an item of a user is a basic case by its name.
pub open spec fn is_user_basic_case(item: FullAsset) -> bool {
    basic_case_names().contains(item.name@)
}

/// Whether a catalog entry is a container by its type.
pub open spec fn is_catalog_container(item: MarketItem) -> bool {
    type_is(item.item_type, CATALOG_CONTAINER_TYPE@)
}

/// Whether a catalog entry is a basic case by its name.
pub open spec fn is_catalog_basic_case(item: MarketItem) -> bool {
    basic_case_names().contains(item.name@)
}

/// The items of a user that are containers by their type, in their order.
pub open spec fn user_containers_of(items: Seq<FullAsset>) -> Seq<FullAsset> {
    items.filter(|item: FullAsset| is_user_container(item))
}

/// The items of a user that are basic cases by their name, in their order.
pub open spec fn user_basic_cases_of(items: Seq<FullAsset>) -> Seq<FullAsset> {
    items.filter(|item: FullAsset| is_user_basic_case(item))
}

/// The catalog entries that are containers by their type, in their order.
pub open spec fn catalog_containers_of(items: Seq<MarketItem>) -> Seq<MarketItem> {
    items.filter(|item: MarketItem| is_catalog_container(item))
}

/// The catalog entries that are basic cases by their name, in their order.
pub open spec fn catalog_basic_cases_of(items: Seq<MarketItem>) -> Seq<MarketItem> {
    items.filter(|item: MarketItem| is_catalog_basic_case(item))
}

/// A selection holds only items that the rule accepts, holds every item
/// that it accepts, and holds none that was not among the items.
pub proof fn lemma_selection<T>(items: Seq<T>, rule: spec_fn(T) -> bool)
    ensures
        forall|i: int|
            0 <= i < items.filter(rule).len() ==> rule(#[trigger] items.filter(rule)[i])
                && items.contains(items.filter(rule)[i]),
        forall|i: int|
            0 <= i < items.len() && rule(items[i]) ==> items.filter(rule).contains(
                #[trigger] items[i],
            ),
        items.filter(rule).len() <= items.len(),
{
    assert forall|i: int| 0 <= i < items.filter(rule).len() implies rule(
        #[trigger] items.filter(rule)[i],
    ) && items.contains(items.filter(rule)[i]) by {
        items.lemma_filter_pred(rule, i);
        assert(items.filter(rule).contains(items.filter(rule)[i]));
        items.lemma_filter_contains_rev(rule, items.filter(rule)[i]);
    }
    assert forall|i: int| 0 <= i < items.len() && rule(items[i]) implies items.filter(
        rule,
    ).contains(#[trigger] items[i]) by {
        items.lemma_filter_contains(rule, i);
    }
    items.lemma_filter_len(rule);
}

/// The containers of a user by type are exactly the user's items of the
/// container type.
pub proof fn lemma_user_containers(items: Seq<FullAsset>)
    ensures
        forall|i: int|
            0 <= i < user_containers_of(items).len() ==> is_user_container(
                #[trigger] user_containers_of(items)[i],
            ) && items.contains(user_containers_of(items)[i]),
        forall|i: int|
            0 <= i < items.len() && is_user_container(items[i]) ==> user_containers_of(
                items,
            ).contains(#[trigger] items[i]),
{
    lemma_selection(items, |item: FullAsset| is_user_container(item));
}

/// The basic cases of a user by name are exactly the user's items whose name
/// is on the list.
pub proof fn lemma_user_basic_cases(items: Seq<FullAsset>)
    ensures
        forall|i: int|
            0 <= i < user_basic_cases_of(items).len() ==> is_user_basic_case(
                #[trigger] user_basic_cases_of(items)[i],
            ) && items.contains(user_basic_cases_of(items)[i]),
        forall|i: int|
            0 <= i < items.len() && is_user_basic_case(items[i]) ==> user_basic_cases_of(
                items,
            ).contains(#[trigger] items[i]),
{
    lemma_selection(items, |item: FullAsset| is_user_basic_case(item));
}

/// The containers of the catalog by type are exactly the entries of the
/// container type.
pub proof fn lemma_catalog_containers(items: Seq<MarketItem>)
    ensures
        forall|i: int|
            0 <= i < catalog_containers_of(items).len() ==> is_catalog_container(
                #[trigger] catalog_containers_of(items)[i],
            ) && items.contains(catalog_containers_of(items)[i]),
        forall|i: int|
            0 <= i < items.len() && is_catalog_container(items[i]) ==> catalog_containers_of(
                items,
            ).contains(#[trigger] items[i]),
{
    lemma_selection(items, |item: MarketItem| is_catalog_container(item));
}

/// The basic cases of the catalog by name are exactly the entries whose name
/// is on the list, whatever their type.
pub proof fn lemma_catalog_basic_cases(items: Seq<MarketItem>)
    ensures
        forall|i: int|
            0 <= i < catalog_basic_cases_of(items).len() ==> is_catalog_basic_case(
                #[trigger] catalog_basic_cases_of(items)[i],
            ) && items.contains(catalog_basic_cases_of(items)[i]),
        forall|i: int|
            0 <= i < items.len() && is_catalog_basic_case(items[i]) ==> catalog_basic_cases_of(
                items,
            ).contains(#[trigger] items[i]),
{
    lemma_selection(items, |item: MarketItem| is_catalog_basic_case(item));
}

/// Selects the containers among a user's items by their type.
pub fn user_containers(items: &Vec<FullAsset>) -> (containers: Vec<FullAsset>)
    ensures
        containers@ == user_containers_of(items@),
{
    let mut containers: Vec<FullAsset> = Vec::new();
    let mut n: usize = 0;
    while n < items.len()
        invariant
            n <= items@.len(),
            containers@ == user_containers_of(items@.take(n as int)),
        decreases items@.len() - n,
    {
        proof {
            reveal(Seq::filter);
            assert(items@.take(n + 1).drop_last() =~= items@.take(n as int));
        }
        if has_type(&items[n].item_type, USER_CONTAINER_TYPE) {
            containers.push(items[n].duplicate());
        }
        n += 1;
    }
    proof {
        assert(items@.take(n as int) =~= items@);
    }
    containers
}

/// Selects the basic cases among a user's items by their name.
pub fn user_basic_cases(items: &Vec<FullAsset>) -> (cases: Vec<FullAsset>)
    ensures
        cases@ == user_basic_cases_of(items@),
{
    let mut cases: Vec<FullAsset> = Vec::new();
    let mut n: usize = 0;
    while n < items.len()
        invariant
            n <= items@.len(),
            cases@ == user_basic_cases_of(items@.take(n as int)),
        decreases items@.len() - n,
    {
        proof {
            reveal(Seq::filter);
            assert(items@.take(n + 1).drop_last() =~= items@.take(n as int));
        }
        if is_basic_case_name(&items[n].name) {
            cases.push(items[n].duplicate());
        }
        n += 1;
    }
    proof {
        assert(items@.take(n as int) =~= items@);
    }
    cases
}

/// Selects the containers among catalog entries by their type.
pub fn catalog_containers(items: &Vec<MarketItem>) -> (containers: Vec<MarketItem>)
    ensures
        containers@ == catalog_containers_of(items@),
{
    let mut containers: Vec<MarketItem> = Vec::new();
    let mut n: usize = 0;
    while n < items.len()
        invariant
            n <= items@.len(),
            containers@ == catalog_containers_of(items@.take(n as int)),
        decreases items@.len() - n,
    {
        proof {
            reveal(Seq::filter);
            assert(items@.take(n + 1).drop_last() =~= items@.take(n as int));
        }
        if has_type(&items[n].item_type, CATALOG_CONTAINER_TYPE) {
            containers.push(items[n].duplicate());
        }
        n += 1;
    }
    proof {
        assert(items@.take(n as int) =~= items@);
    }
    containers
}

/// Selects the basic cases among catalog entries by their name.
pub fn catalog_basic_cases(items: &Vec<MarketItem>) -> (cases: Vec<MarketItem>)
    ensures
        cases@ == catalog_basic_cases_of(items@),
{
    let mut cases: Vec<MarketItem> = Vec::new();
    let mut n: usize = 0;
    while n < items.len()
        invariant
            n <= items@.len(),
            cases@ == catalog_basic_cases_of(items@.take(n as int)),
        decreases items@.len() - n,
    {
        proof {
            reveal(Seq::filter);
            assert(items@.take(n + 1).drop_last() =~= items@.take(n as int));
        }
        if is_basic_case_name(&items[n].name) {
            cases.push(items[n].duplicate());
        }
        n += 1;
    }
    proof {
        assert(items@.take(n as int) =~= items@);
    }
    cases
}

/// The catalog entries by their class, the later of two entries of one
/// class replacing the earlier.
pub open spec fn keyed_by_class(items: Seq<MarketItem>) -> Map<usize, MarketItem>
    decreases items.len(),
{
    if items.len() == 0 {
        Map::empty()
    } else {
        keyed_by_class(items.drop_last()).insert(items.last().classid, items.last())
    }
}

/// Keys catalog entries by their class.
pub fn key_by_class(items: &Vec<MarketItem>) -> (keyed: HashMap<usize, MarketItem>)
    ensures
        keyed@ == keyed_by_class(items@),
{
    let mut keyed: HashMap<usize, MarketItem> = HashMap::new();
    let mut n: usize = 0;
    while n < items.len()
        invariant
            n <= items@.len(),
            keyed@ == keyed_by_class(items@.take(n as int)),
        decreases items@.len() - n,
    {
        proof {
            assert(items@.take(n + 1).drop_last() =~= items@.take(n as int));
        }
        let item = items[n].duplicate();
        keyed.insert(item.classid, item);
        n += 1;
    }
    proof {
        assert(items@.take(n as int) =~= items@);
    }
    keyed
}

/// The containers of the global catalog, by class.
pub fn csgo_containers(items: &Vec<MarketItem>) -> (containers: HashMap<usize, MarketItem>)
    ensures
        containers@ == keyed_by_class(catalog_containers_of(items@)),
{
    let selected = catalog_containers(items);
    key_by_class(&selected)
}

/// The basic cases of the global catalog, by class: the entries whose name
/// is on the list, whatever their type.
pub fn csgo_basic_cases(items: &Vec<MarketItem>) -> (cases: HashMap<usize, MarketItem>)
    ensures
        cases@ == keyed_by_class(catalog_basic_cases_of(items@)),
{
    let selected = catalog_basic_cases(items);
    key_by_class(&selected)
}

} // verus!
