use csgo_stocks::prices::{
    accept_response, collect_results, history_options, history_results, latest_points,
    price_options, price_request, price_requests, Delivery, PriceRequest,
};
use csgo_stocks::requests::csgobackpack::{item_price_url, item_price_url_for};
use csgo_stocks::requests::steam::MarketPrice;
use csgo_stocks::state::StateError;
use std::collections::HashMap;

fn pair(name: &str, value: &str) -> (String, String) {
    (name.to_string(), value.to_string())
}

fn as_map(pairs: &Vec<(String, String)>) -> HashMap<String, String> {
    pairs.iter().cloned().collect()
}

#[test]
fn price_options_default() {
    assert_eq!(price_options(&vec![]), vec![pair("appid", "730"), pair("currency", "3")]);
}

#[test]
fn history_options_default() {
    assert_eq!(
        history_options(&vec![]),
        vec![pair("appid", "730"), pair("currency", "3"), pair("country", "DE")]
    );
}

#[test]
fn caller_options_win() {
    let effective = price_options(&vec![pair("currency", "1"), pair("language", "en")]);
    assert_eq!(effective.len(), 3);
    let map = as_map(&effective);
    assert_eq!(map["appid"], "730");
    assert_eq!(map["currency"], "1");
    assert_eq!(map["language"], "en");
}

#[test]
fn later_caller_option_wins_over_earlier() {
    let effective = history_options(&vec![pair("country", "US"), pair("country", "FR")]);
    assert_eq!(effective.len(), 3);
    assert_eq!(as_map(&effective)["country"], "FR");
}

#[test]
fn price_request_carries_options_then_name() {
    let options = price_options(&vec![]);
    let request = price_request(
        5,
        &"Chroma Case".to_string(),
        "https://steamcommunity.com/market/priceoverview/",
        &options,
    );
    assert_eq!(
        request,
        PriceRequest {
            key: 5,
            url: "https://steamcommunity.com/market/priceoverview/".to_string(),
            query: vec![
                pair("appid", "730"),
                pair("currency", "3"),
                pair("market_hash_name", "Chroma Case")
            ],
        }
    );
}

#[test]
fn price_requests_one_for_each_pair() {
    let assets = vec![
        (1usize, "a".to_string()),
        (2usize, "b".to_string()),
        (1usize, "c".to_string()),
    ];
    let requests = price_requests(&assets, csgo_stocks::prices::PRICE_HISTORY_URL, &vec![]);
    assert_eq!(requests.len(), 3);
    assert_eq!(requests[2].key, 1);
    assert_eq!(requests[2].query, vec![pair("market_hash_name", "c")]);
    assert_eq!(requests[0].url, "https://steamcommunity.com/market/pricehistory");
}

#[test]
fn only_status_200_is_accepted() {
    assert_eq!(
        accept_response(Delivery::Answered { status: 200, body: "{}".to_string() }),
        Ok("{}".to_string())
    );
    assert_eq!(
        accept_response(Delivery::Answered { status: 429, body: "slow".to_string() }),
        Err(StateError::HttpStatus(429))
    );
    assert_eq!(
        accept_response(Delivery::Answered { status: 201, body: String::new() }),
        Err(StateError::HttpStatus(201))
    );
    assert_eq!(
        accept_response(Delivery::Failed("refused".to_string())),
        Err(StateError::Transport("refused".to_string()))
    );
}

#[test]
fn status_comes_before_an_unread_body() {
    assert_eq!(
        accept_response(Delivery::Unread { status: 503, report: "cut".to_string() }),
        Err(StateError::HttpStatus(503))
    );
    assert_eq!(
        accept_response(Delivery::Unread { status: 200, report: "cut".to_string() }),
        Err(StateError::Transport("cut".to_string()))
    );
}

#[test]
fn one_failed_lookup_of_three_keeps_three_entries() {
    let good = |median: &str| MarketPrice::decode(true, median, "10", "1,00€");
    let failed = accept_response(Delivery::Answered { status: 500, body: String::new() })
        .and_then(|_| good("0€"));
    let outcomes = vec![(1usize, good("1,50€")), (2usize, failed), (3usize, good("2,50€"))];
    let results = collect_results(outcomes);
    assert_eq!(results.len(), 3);
    assert_eq!(results.values().filter(|r| r.is_err()).count(), 1);
    assert_eq!(results[&2], Err(StateError::HttpStatus(500)));
    assert_eq!(results[&1].as_ref().unwrap().median_price.digits, 150);
    assert_eq!(results[&3].as_ref().unwrap().median_price.digits, 250);
}

#[test]
fn duplicate_keys_last_writer_wins() {
    let outcomes: Vec<(usize, Result<u8, StateError>)> =
        vec![(7, Ok(1)), (8, Ok(2)), (7, Err(StateError::HttpStatus(404))), (8, Ok(3))];
    let results = collect_results(outcomes);
    assert_eq!(results.len(), 2);
    assert_eq!(results[&7], Err(StateError::HttpStatus(404)));
    assert_eq!(results[&8], Ok(3));
}

#[test]
fn collect_of_nothing_is_empty() {
    let results = collect_results::<u8>(vec![]);
    assert!(results.is_empty());
}

#[test]
fn history_of_800_keeps_the_last_500() {
    let points: Vec<(String, f64, String)> =
        (0..800).map(|i| (format!("day {}", i), i as f64, "1".to_string())).collect();
    let kept = latest_points(points.clone());
    assert_eq!(kept.len(), 500);
    assert_eq!(kept[..], points[300..]);
}

#[test]
fn history_of_10_is_kept_whole() {
    let points: Vec<(String, f64, String)> =
        (0..10).map(|i| (format!("day {}", i), i as f64, "1".to_string())).collect();
    assert_eq!(latest_points(points.clone()), points);
}

#[test]
fn history_at_the_limit() {
    let exact: Vec<u32> = (0..500).collect();
    assert_eq!(latest_points(exact.clone()), exact);
    let over: Vec<u32> = (0..501).collect();
    assert_eq!(latest_points(over), (1..501).collect::<Vec<u32>>());
    assert_eq!(latest_points(Vec::<u32>::new()), Vec::<u32>::new());
}

#[test]
fn history_results_cut_and_keep_errors() {
    let long: Vec<u32> = (0..800).collect();
    let outcomes = vec![
        (1usize, Ok(long)),
        (2usize, Err(StateError::Transport("down".to_string()))),
        (3usize, Ok(vec![1, 2, 3])),
        (3usize, Ok(vec![4])),
    ];
    let results = history_results(outcomes);
    assert_eq!(results.len(), 3);
    assert_eq!(results[&1], Ok((300..800).collect::<Vec<u32>>()));
    assert_eq!(results[&2], Err(StateError::Transport("down".to_string())));
    assert_eq!(results[&3], Ok(vec![4]));
}

#[test]
fn item_price_url_encodes_the_name() {
    assert_eq!(
        item_price_url("AK-47 | Redline (Field-Tested)"),
        "http://csgobackpack.net/api/GetItemPrice/?id=AK-47%20%7C%20Redline%20%28Field-Tested%29"
    );
    assert_eq!(
        item_price_url_for("a%20b"),
        "http://csgobackpack.net/api/GetItemPrice/?id=a%20b"
    );
}

#[test]
fn status_check() {
    assert_eq!(csgo_stocks::prices::check_status(200), Ok(()));
    assert_eq!(csgo_stocks::prices::check_status(404), Err(StateError::HttpStatus(404)));
    assert_eq!(csgo_stocks::prices::check_status(0), Err(StateError::HttpStatus(0)));
}
