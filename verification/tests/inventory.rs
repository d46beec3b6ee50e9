use csgo_stocks::requests::steam::{Asset, FullAsset, MarketItem, UserInventoryResponse};
use csgo_stocks::state::{
    account_id, dedup_assets, hydrate_assets, hydrate_each, hydrate_one, index_descriptions,
    inventory_query, inventory_url, user_items, StateError,
};

fn slot(assetid: usize, classid: usize) -> Asset {
    Asset { appid: 730, assetid, classid, instanceid: 0, amount: 1 }
}

fn description(classid: usize, name: &str, item_type: Option<&str>) -> MarketItem {
    MarketItem {
        item_type: item_type.map(|t| t.to_string()),
        name: name.to_string(),
        classid,
        icon_url: format!("icon-{}", classid),
        market_hash_name: format!("market {}", name),
    }
}

#[test]
fn hydrate_joins_slot_and_description() {
    let asset = Asset { appid: 730, assetid: 11, classid: 22, instanceid: 33, amount: 4 };
    let item = description(22, "Chroma Case", Some("Base Grade Container"));
    let full = asset.hydrate(item);
    assert_eq!(
        full,
        FullAsset {
            name: "Chroma Case".to_string(),
            appid: 730,
            assetid: 11,
            classid: 22,
            instanceid: 33,
            amount: 4,
            icon_url: "icon-22".to_string(),
            market_hash_name: "market Chroma Case".to_string(),
            item_type: Some("Base Grade Container".to_string()),
        }
    );
}

#[test]
fn dedup_of_nothing_is_nothing() {
    assert_eq!(dedup_assets(&vec![]), vec![]);
}

#[test]
fn dedup_counts_slots_and_keeps_first_of_each_class() {
    let assets = vec![slot(1, 7), slot(2, 9), slot(3, 7), slot(4, 7), slot(5, 8), slot(6, 9)];
    let merged = dedup_assets(&assets);
    assert_eq!(
        merged,
        vec![
            Asset { appid: 730, assetid: 1, classid: 7, instanceid: 0, amount: 3 },
            Asset { appid: 730, assetid: 2, classid: 9, instanceid: 0, amount: 2 },
            Asset { appid: 730, assetid: 5, classid: 8, instanceid: 0, amount: 1 },
        ]
    );
}

#[test]
fn dedup_amounts_sum_to_the_number_of_slots() {
    let mut assets = Vec::new();
    for i in 0..100usize {
        assets.push(slot(i, (i * i) % 7));
    }
    let merged = dedup_assets(&assets);
    let total: usize = merged.iter().map(|a| a.amount).sum();
    assert_eq!(total, assets.len());
    for (i, a) in merged.iter().enumerate() {
        for b in merged.iter().skip(i + 1) {
            assert_ne!(a.classid, b.classid);
        }
        let first = assets.iter().find(|s| s.classid == a.classid).unwrap();
        assert_eq!(a.assetid, first.assetid);
    }
}

#[test]
fn dedup_counts_slots_whatever_their_amount() {
    let mut first = slot(1, 7);
    first.amount = 5;
    let merged = dedup_assets(&vec![first, slot(2, 7)]);
    assert_eq!(merged.len(), 1);
    assert_eq!(merged[0].amount, 2);
    assert_eq!(merged[0].assetid, 1);
}

#[test]
fn index_keeps_the_later_description_of_a_class() {
    let catalog = index_descriptions(&vec![
        description(7, "old", None),
        description(8, "other", None),
        description(7, "new", None),
    ]);
    assert_eq!(catalog.len(), 2);
    assert_eq!(catalog[&7].name, "new");
    assert_eq!(catalog[&8].name, "other");
}

#[test]
fn hydrate_one_reports_a_missing_class() {
    let catalog = index_descriptions(&vec![description(7, "a", None)]);
    assert_eq!(hydrate_one(slot(1, 9), &catalog), Err(StateError::MissingCatalogEntry(9)));
    assert_eq!(hydrate_one(slot(1, 7), &catalog).unwrap().name, "a");
}

#[test]
fn hydrate_assets_with_full_catalog_keeps_length_and_order() {
    let catalog = index_descriptions(&vec![description(7, "a", None), description(9, "b", None)]);
    let slots = vec![slot(1, 9), slot(2, 7), slot(3, 9)];
    let full = hydrate_assets(&slots, &catalog).unwrap();
    assert_eq!(full.len(), 3);
    assert_eq!(full[0].name, "b");
    assert_eq!(full[1].name, "a");
    assert_eq!(full[2].name, "b");
    assert_eq!(full[2].assetid, 3);
}

#[test]
fn hydrate_assets_reports_the_first_missing_class() {
    let catalog = index_descriptions(&vec![description(7, "a", None)]);
    let slots = vec![slot(1, 7), slot(2, 5), slot(3, 6)];
    assert_eq!(hydrate_assets(&slots, &catalog), Err(StateError::MissingCatalogEntry(5)));
}

#[test]
fn hydrate_each_isolates_the_missing_class() {
    let catalog = index_descriptions(&vec![description(7, "a", None), description(9, "b", None)]);
    let slots = vec![slot(1, 7), slot(2, 5), slot(3, 9)];
    let joined = hydrate_each(&slots, &catalog);
    assert_eq!(joined.len(), 3);
    assert_eq!(joined[0].as_ref().unwrap().name, "a");
    assert_eq!(joined[1], Err(StateError::MissingCatalogEntry(5)));
    assert_eq!(joined[2].as_ref().unwrap().name, "b");
}

#[test]
fn user_items_merges_and_joins() {
    let response = UserInventoryResponse {
        success: 1,
        total_inventory_count: 3,
        assets: vec![slot(1, 7), slot(2, 9), slot(3, 7)],
        descriptions: vec![description(7, "a", None), description(9, "b", None)],
    };
    let merged = user_items(&response, true).unwrap();
    assert_eq!(merged.len(), 2);
    assert_eq!((merged[0].classid, merged[0].amount, merged[0].name.as_str()), (7, 2, "a"));
    assert_eq!((merged[1].classid, merged[1].amount, merged[1].name.as_str()), (9, 1, "b"));
    let plain = user_items(&response, false).unwrap();
    assert_eq!(plain.len(), 3);
    assert_eq!(plain[2].assetid, 3);
    assert_eq!(plain[2].amount, 1);
}

#[test]
fn user_items_refuses_an_answer_without_success() {
    let response = UserInventoryResponse {
        success: 0,
        total_inventory_count: 0,
        assets: vec![],
        descriptions: vec![],
    };
    assert_eq!(user_items(&response, true), Err(StateError::Decode("success".to_string())));
}

#[test]
fn user_items_reports_a_missing_description() {
    let response = UserInventoryResponse {
        success: 1,
        total_inventory_count: 1,
        assets: vec![slot(1, 7)],
        descriptions: vec![],
    };
    assert_eq!(user_items(&response, false), Err(StateError::MissingCatalogEntry(7)));
}

#[test]
fn inventory_url_names_account_then_game() {
    assert_eq!(
        inventory_url(730, 76561198083067227),
        "https://steamcommunity.com/inventory/76561198083067227/730/2"
    );
    assert_eq!(inventory_url(0, 10), "https://steamcommunity.com/inventory/10/0/2");
}

#[test]
fn inventory_query_asks_for_english_and_5000() {
    assert_eq!(
        inventory_query(),
        vec![
            ("l".to_string(), "english".to_string()),
            ("count".to_string(), "5000".to_string())
        ]
    );
}

#[test]
fn account_id_reads_digits() {
    assert_eq!(account_id("76561198083067227"), Ok(76561198083067227));
    assert_eq!(account_id(""), Err(StateError::Unconfigured));
    assert_eq!(account_id("12a"), Err(StateError::Decode("12a".to_string())));
    assert_eq!(account_id("1,2"), Err(StateError::Decode("1,2".to_string())));
    assert_eq!(
        account_id("99999999999999999999999"),
        Err(StateError::Decode("99999999999999999999999".to_string()))
    );
}
