use csgo_stocks::containers::{
    basic_case_list, catalog_basic_cases, catalog_containers, csgo_basic_cases, csgo_containers,
    is_basic_case_name, key_by_class, user_basic_cases, user_containers,
};
use csgo_stocks::requests::csgobackpack::MarketItem;
use csgo_stocks::requests::steam::FullAsset;

fn owned(classid: usize, name: &str, item_type: Option<&str>) -> FullAsset {
    FullAsset {
        name: name.to_string(),
        appid: 730,
        assetid: classid + 1000,
        classid,
        instanceid: 0,
        amount: 1,
        icon_url: String::new(),
        market_hash_name: name.to_string(),
        item_type: item_type.map(|t| t.to_string()),
    }
}

fn entry(classid: usize, name: &str, item_type: Option<&str>) -> MarketItem {
    MarketItem {
        item_type: item_type.map(|t| t.to_string()),
        name: name.to_string(),
        icon_url: String::new(),
        classid,
    }
}

fn mixed() -> Vec<FullAsset> {
    vec![
        owned(1, "Chroma Case", Some("Base Grade Container")),
        owned(2, "AK-47 | Redline", Some("Classified Rifle")),
        owned(3, "Sticker Capsule", Some("Base Grade Container")),
        owned(4, "Glove Case", Some("Container")),
        owned(5, "Recoil Case", None),
    ]
}

#[test]
fn the_list_of_basic_cases_has_thirty_names() {
    let names = basic_case_list();
    assert_eq!(names.len(), 30);
    assert_eq!(names[0], "Winter Offensive Weapon Case");
    assert_eq!(names[29], "Recoil Case");
}

#[test]
fn basic_case_names_are_matched_exactly() {
    assert!(is_basic_case_name(&"Winter Offensive Weapon Case".to_string()));
    assert!(is_basic_case_name(&"CS20 Case".to_string()));
    assert!(is_basic_case_name(&"Recoil Case".to_string()));
    assert!(!is_basic_case_name(&"recoil case".to_string()));
    assert!(!is_basic_case_name(&"Recoil Case ".to_string()));
    assert!(!is_basic_case_name(&String::new()));
}

#[test]
fn user_containers_go_by_type() {
    let kept = user_containers(&mixed());
    let classes: Vec<usize> = kept.iter().map(|a| a.classid).collect();
    assert_eq!(classes, vec![1, 3]);
    assert_eq!(kept[0], mixed()[0]);
}

#[test]
fn user_basic_cases_go_by_name() {
    let kept = user_basic_cases(&mixed());
    let classes: Vec<usize> = kept.iter().map(|a| a.classid).collect();
    assert_eq!(classes, vec![1, 4, 5]);
}

#[test]
fn the_two_rules_select_differently() {
    assert_ne!(user_containers(&mixed()), user_basic_cases(&mixed()));
}

#[test]
fn catalog_containers_go_by_type() {
    let items = vec![
        entry(1, "Chroma Case", Some("Container")),
        entry(2, "Chroma Case Key", Some("Key")),
        entry(3, "Sticker Capsule", Some("Container")),
        entry(4, "Gamma Case", Some("Base Grade Container")),
        entry(5, "Gamma 2 Case", None),
    ];
    let classes: Vec<usize> = catalog_containers(&items).iter().map(|m| m.classid).collect();
    assert_eq!(classes, vec![1, 3]);
    let named: Vec<usize> = catalog_basic_cases(&items).iter().map(|m| m.classid).collect();
    assert_eq!(named, vec![1, 4, 5]);
}

#[test]
fn keyed_by_class_later_entry_wins() {
    let keyed = key_by_class(&vec![
        entry(1, "first", None),
        entry(2, "second", None),
        entry(1, "third", None),
    ]);
    assert_eq!(keyed.len(), 2);
    assert_eq!(keyed[&1].name, "third");
    assert_eq!(keyed[&2].name, "second");
}

#[test]
fn csgo_containers_and_basic_cases() {
    let items = vec![
        entry(1, "Chroma Case", Some("Container")),
        entry(2, "Chroma Case Key", Some("Key")),
        entry(3, "Sticker Capsule", Some("Container")),
        entry(4, "Gamma Case", Some("Tool")),
    ];
    let containers = csgo_containers(&items);
    let mut classes: Vec<usize> = containers.keys().copied().collect();
    classes.sort();
    assert_eq!(classes, vec![1, 3]);
    let cases = csgo_basic_cases(&items);
    let mut named: Vec<usize> = cases.keys().copied().collect();
    named.sort();
    assert_eq!(named, vec![1, 4]);
    assert_eq!(cases[&1].name, "Chroma Case");
    assert_eq!(cases[&4].name, "Gamma Case");
}

#[test]
fn basic_cases_of_the_catalog_go_by_name_alone() {
    let items = vec![
        entry(10, "Chroma Case", Some("Key")),
        entry(11, "Chroma Case", None),
        entry(12, "Sticker Capsule", Some("Container")),
    ];
    let cases = csgo_basic_cases(&items);
    let mut named: Vec<usize> = cases.keys().copied().collect();
    named.sort();
    assert_eq!(named, vec![10, 11]);
    let containers = csgo_containers(&items);
    let typed: Vec<usize> = containers.keys().copied().collect();
    assert_eq!(typed, vec![12]);
}
