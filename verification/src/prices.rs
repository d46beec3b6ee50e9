//! Price lookups for many items at once: the options that every lookup
//! carries, the requests to issue, and the map that gathers what came back.
//! Each lookup stands for itself: what one of them reports, good or bad, is
//! kept under its own key and touches no other.
//!
//! Options are a list of pairs of texts in which no name occurs twice. It
//! stands for a mapping from names to values: a map keyed by texts gives the
//! verifier nothing to reason from, a list does.

use vstd::prelude::*;
use crate::state::StateError;
use std::collections::HashMap;

verus! {

broadcast use vstd::std_specs::hash::group_hash_axioms;

/// The address of the price endpoint.
pub const PRICE_OVERVIEW_URL: &'static str = "https://steamcommunity.com/market/priceoverview/";

/// The address of the price history endpoint.
pub const PRICE_HISTORY_URL: &'static str = "https://steamcommunity.com/market/pricehistory";

/// The name of the query parameter that carries the market name of an item.
pub const MARKET_NAME_PARAMETER: &'static str = "market_hash_name";

/// The number of most recent points that a price history keeps.
pub const HISTORY_LIMIT: usize = 500;

/// The only status with which an endpoint's answer is accepted.
pub const STATUS_OK: u16 = 200;

/// `base` with each of `pairs` put in, in their order: a later value of a
/// name replaces an earlier one.
pub open spec fn overlaid(base: Map<Seq<char>, Seq<char>>, pairs: Seq<(String, String)>) -> Map<
    Seq<char>,
    Seq<char>,
>
    decreases pairs.len(),
{
    if pairs.len() == 0 {
        base
    } else {
        overlaid(base, pairs.drop_last()).insert(pairs.last().0@, pairs.last().1@)
    }
}

/// The options that `pairs` spell.
pub open spec fn as_map(pairs: Seq<(String, String)>) -> Map<Seq<char>, Seq<char>> {
    overlaid(Map::empty(), pairs)
}

/// No name occurs twice among `pairs`.
pub open spec fn names_distinct(pairs: Seq<(String, String)>) -> bool {
    forall|i: int, j: int|
        0 <= i < pairs.len() && 0 <= j < pairs.len() && i != j ==> (#[trigger] pairs[i]).0@ != (
        #[trigger] pairs[j]).0@
}

/// The options of a price lookup where the caller gives none.
pub open spec fn price_defaults() -> Map<Seq<char>, Seq<char>> {
    Map::empty().insert("appid"@, "730"@).insert("currency"@, "3"@)
}

/// The options of a price history lookup where the caller gives none.
pub open spec fn history_defaults() -> Map<Seq<char>, Seq<char>> {
    price_defaults().insert("country"@, "DE"@)
}

/// Putting options over a base keeps the base where the options are silent
/// and takes the options' value where they speak: on a conflict the options
/// win.
pub proof fn lemma_overlaid(base: Map<Seq<char>, Seq<char>>, pairs: Seq<(String, String)>)
    ensures
        overlaid(base, pairs) == base.union_prefer_right(as_map(pairs)),
    decreases pairs.len(),
{
    if pairs.len() > 0 {
        lemma_overlaid(base, pairs.drop_last());
    }
    assert(overlaid(base, pairs) =~= base.union_prefer_right(as_map(pairs)));
}

proof fn lemma_overlaid_update(
    base: Map<Seq<char>, Seq<char>>,
    pairs: Seq<(String, String)>,
    i: int,
    pair: (String, String),
)
    requires
        0 <= i < pairs.len(),
        names_distinct(pairs),
        pairs[i].0@ == pair.0@,
    ensures
        overlaid(base, pairs.update(i, pair)) == overlaid(base, pairs).insert(pair.0@, pair.1@),
        names_distinct(pairs.update(i, pair)),
    decreases pairs.len(),
{
    let changed = pairs.update(i, pair);
    let last = pairs.len() - 1;
    if i == last {
        assert(changed.drop_last() =~= pairs.drop_last());
    } else {
        assert(names_distinct(pairs.drop_last())) by {
            assert forall|a: int, b: int|
                0 <= a < pairs.drop_last().len() && 0 <= b < pairs.drop_last().len() && a
                    != b implies (#[trigger] pairs.drop_last()[a]).0@ != (
            #[trigger] pairs.drop_last()[b]).0@ by {
                assert(pairs.drop_last()[a] == pairs[a]);
                assert(pairs.drop_last()[b] == pairs[b]);
            }
        }
        lemma_overlaid_update(base, pairs.drop_last(), i, pair);
        assert(changed.drop_last() =~= pairs.drop_last().update(i, pair));
        assert(pairs[last].0@ != pairs[i].0@);
    }
    assert(overlaid(base, changed) =~= overlaid(base, pairs).insert(pair.0@, pair.1@));
}

fn put(pairs: &mut Vec<(String, String)>, name: String, value: String)
    requires
        names_distinct(old(pairs)@),
    ensures
        names_distinct(final(pairs)@),
        forall|base: Map<Seq<char>, Seq<char>>| #[trigger]
            overlaid(base, final(pairs)@) == overlaid(base, old(pairs)@).insert(name@, value@),
{
    let mut n: usize = 0;
    while n < pairs.len()
        invariant
            n <= pairs@.len(),
            pairs@ == old(pairs)@,
            names_distinct(pairs@),
            forall|j: int| 0 <= j < n ==> (#[trigger] pairs@[j]).0@ != name@,
        decreases pairs@.len() - n,
    {
        if pairs[n].0 == name {
            proof {
                assert forall|base: Map<Seq<char>, Seq<char>>| #[trigger]
                    overlaid(base, pairs@.update(n as int, (name, value))) == overlaid(
                        base,
                        pairs@,
                    ).insert(name@, value@) by {
                    lemma_overlaid_update(base, pairs@, n as int, (name, value));
                }
                lemma_overlaid_update(Map::empty(), pairs@, n as int, (name, value));
            }
            pairs.set(n, (name, value));
            return ;
        }
        n += 1;
    }
    pairs.push((name, value));
    proof {
        assert(pairs@.drop_last() =~= old(pairs)@);
    }
}

fn put_all(pairs: &mut Vec<(String, String)>, options: &Vec<(String, String)>)
    requires
        names_distinct(old(pairs)@),
    ensures
        names_distinct(final(pairs)@),
        as_map(final(pairs)@) == overlaid(as_map(old(pairs)@), options@),
{
    let mut n: usize = 0;
    while n < options.len()
        invariant
            n <= options@.len(),
            names_distinct(pairs@),
            as_map(pairs@) == overlaid(as_map(old(pairs)@), options@.take(n as int)),
        decreases options@.len() - n,
    {
        proof {
            assert(options@.take(n + 1).drop_last() =~= options@.take(n as int));
        }
        let ghost before = pairs@;
        put(pairs, options[n].0.clone(), options[n].1.clone());
        proof {
            assert(overlaid(Map::empty(), pairs@) == overlaid(Map::empty(), before).insert(
                options@[n as int].0@,
                options@[n as int].1@,
            ));
        }
        n += 1;
    }
    proof {
        assert(options@.take(n as int) =~= options@);
    }
}

/// The options of a price lookup: the defaults with the caller's options
/// put over them. No name occurs twice in the result.
pub fn price_options(options: &Vec<(String, String)>) -> (effective: Vec<(String, String)>)
    ensures
        names_distinct(effective@),
        as_map(effective@) == overlaid(price_defaults(), options@),
{
    let mut effective: Vec<(String, String)> = Vec::new();
    let ghost none = effective@;
    put(&mut effective, "appid".to_owned(), "730".to_owned());
    let ghost one = effective@;
    put(&mut effective, "currency".to_owned(), "3".to_owned());
    proof {
        assert(overlaid(Map::empty(), one) == overlaid(Map::empty(), none).insert(
            "appid"@,
            "730"@,
        ));
        assert(overlaid(Map::empty(), effective@) == overlaid(Map::empty(), one).insert(
            "currency"@,
            "3"@,
        ));
    }
    put_all(&mut effective, options);
    effective
}

/// The options of a price history lookup: the defaults with the caller's
/// options put over them. No name occurs twice in the result.
pub fn history_options(options: &Vec<(String, String)>) -> (effective: Vec<(String, String)>)
    ensures
        names_distinct(effective@),
        as_map(effective@) == overlaid(history_defaults(), options@),
{
    let mut effective: Vec<(String, String)> = Vec::new();
    let ghost none = effective@;
    put(&mut effective, "appid".to_owned(), "730".to_owned());
    let ghost one = effective@;
    put(&mut effective, "currency".to_owned(), "3".to_owned());
    let ghost two = effective@;
    put(&mut effective, "country".to_owned(), "DE".to_owned());
    proof {
        assert(overlaid(Map::empty(), one) == overlaid(Map::empty(), none).insert(
            "appid"@,
            "730"@,
        ));
        assert(overlaid(Map::empty(), two) == overlaid(Map::empty(), one).insert(
            "currency"@,
            "3"@,
        ));
        assert(overlaid(Map::empty(), effective@) == overlaid(Map::empty(), two).insert(
            "country"@,
            "DE"@,
        ));
    }
    put_all(&mut effective, options);
    effective
}

/// One lookup to issue: the caller's key for it, the address, and the query
/// parameters in their order.
#[derive(Clone, Debug, PartialEq, Eq)]
pub struct PriceRequest {
    pub key: usize,
    pub url: String,
    pub query: Vec<(String, String)>,
}

/// Whether `request` is the lookup of the item `market_hash_name` for the
/// caller's `key`: it goes to `url` and carries the options in their order
/// and, after them, the item's market name.
pub open spec fn is_request_for(
    request: PriceRequest,
    key: usize,
    market_hash_name: String,
    url: Seq<char>,
    options: Seq<(String, String)>,
) -> bool {
    &&& request.key == key
    &&& request.url@ == url
    &&& request.query@.len() == options.len() + 1
    &&& request.query@.take(options.len() as int) == options
    &&& request.query@.last().0@ == MARKET_NAME_PARAMETER@
    &&& request.query@.last().1 == market_hash_name
}

/// The lookup of one item.
pub fn price_request(
    key: usize,
    market_hash_name: &String,
    url: &str,
    options: &Vec<(String, String)>,
) -> (request: PriceRequest)
    ensures
        is_request_for(request, key, *market_hash_name, url@, options@),
{
    let mut query: Vec<(String, String)> = Vec::new();
    let mut n: usize = 0;
    while n < options.len()
        invariant
            n <= options@.len(),
            query@ == options@.take(n as int),
        decreases options@.len() - n,
    {
        query.push((options[n].0.clone(), options[n].1.clone()));
        proof {
            assert(query@ =~= options@.take(n + 1));
        }
        n += 1;
    }
    query.push((MARKET_NAME_PARAMETER.to_owned(), market_hash_name.clone()));
    proof {
        assert(query@.take(options@.len() as int) =~= options@);
    }
    PriceRequest { key, url: url.to_owned(), query }
}

/// The lookups of a batch: one for each of `assets`, in their order, each
/// for its own key and item. Keys may repeat; every pair gets its lookup.
pub fn price_requests(
    assets: &Vec<(usize, String)>,
    url: &str,
    options: &Vec<(String, String)>,
) -> (requests: Vec<PriceRequest>)
    ensures
        requests@.len() == assets@.len(),
        forall|i: int|
            0 <= i < assets@.len() ==> is_request_for(
                #[trigger] requests@[i],
                assets@[i].0,
                assets@[i].1,
                url@,
                options@,
            ),
{
    let mut requests: Vec<PriceRequest> = Vec::new();
    let mut n: usize = 0;
    while n < assets.len()
        invariant
            n <= assets@.len(),
            requests@.len() == n,
            forall|i: int|
                0 <= i < n ==> is_request_for(
                    #[trigger] requests@[i],
                    assets@[i].0,
                    assets@[i].1,
                    url@,
                    options@,
                ),
        decreases assets@.len() - n,
    {
        requests.push(price_request(assets[n].0, &assets[n].1, url, options));
        n += 1;
    }
    requests
}

/// What became of one request: it never got through, the endpoint answered
/// with a status and a body, or it answered with a status and the body
/// could not be read.
#[derive(Clone, Debug, PartialEq, Eq)]
pub enum Delivery {
    Failed(String),
    Answered { status: u16, body: String },
    Unread { status: u16, report: String },
}

/// Decides on the status of an answer: any status but 200 is an error that
/// carries the status.
pub fn check_status(status: u16) -> (verdict: Result<(), StateError>)
    ensures
        verdict == if status == STATUS_OK {
            Ok::<(), StateError>(())
        } else {
            Err::<(), StateError>(StateError::HttpStatus(status))
        },
{
    if status == STATUS_OK {
        Ok(())
    } else {
        Err(StateError::HttpStatus(status))
    }
}

/// What a delivery is worth: the body of an answer with status 200, the
/// status error of any other answer, whether or not its body could be read,
/// and the transport error of a failure or of a body with status 200 that
/// could not be read.
pub open spec fn accepted(delivery: Delivery) -> Result<String, StateError> {
    match delivery {
        Delivery::Failed(report) => Err(StateError::Transport(report)),
        Delivery::Answered { status, body } => if status == STATUS_OK {
            Ok(body)
        } else {
            Err(StateError::HttpStatus(status))
        },
        Delivery::Unread { status, report } => if status == STATUS_OK {
            Err(StateError::Transport(report))
        } else {
            Err(StateError::HttpStatus(status))
        },
    }
}

/// Decides on a delivery: only an answer with status 200 yields its body,
/// and the status is looked at before the body.
pub fn accept_response(delivery: Delivery) -> (body: Result<String, StateError>)
    ensures
        body == accepted(delivery),
{
    match delivery {
        Delivery::Failed(report) => Err(StateError::Transport(report)),
        Delivery::Answered { status, body } => match check_status(status) {
            Ok(_) => Ok(body),
            Err(e) => Err(e),
        },
        Delivery::Unread { status, report } => match check_status(status) {
            Ok(_) => Err(StateError::Transport(report)),
            Err(e) => Err(e),
        },
    }
}

/// The map that `outcomes` fill, each put under its key in their order: a
/// later outcome for a key replaces an earlier one.
pub open spec fn results_map<T>(outcomes: Seq<(usize, Result<T, StateError>)>) -> Map<
    usize,
    Result<T, StateError>,
>
    decreases outcomes.len(),
{
    if outcomes.len() == 0 {
        Map::empty()
    } else {
        results_map(outcomes.drop_last()).insert(outcomes.last().0, outcomes.last().1)
    }
}

/// Every key of the outcomes has its entry, an error as well as a value, no
/// other key has one, and the entry of a key is the last outcome for it.
pub proof fn lemma_results_map<T>(outcomes: Seq<(usize, Result<T, StateError>)>, key: usize)
    ensures
        results_map(outcomes).contains_key(key) <==> exists|i: int|
            0 <= i < outcomes.len() && (#[trigger] outcomes[i]).0 == key,
        results_map(outcomes).contains_key(key) ==> exists|i: int|
            0 <= i < outcomes.len() && (#[trigger] outcomes[i]).0 == key && outcomes[i].1
                == results_map(outcomes)[key] && forall|j: int|
                i < j < outcomes.len() ==> (#[trigger] outcomes[j]).0 != key,
    decreases outcomes.len(),
{
    if outcomes.len() > 0 {
        let earlier = outcomes.drop_last();
        lemma_results_map(earlier, key);
        let last = outcomes.len() - 1;
        if outcomes.last().0 == key {
            assert(outcomes[last].0 == key);
        } else if results_map(earlier).contains_key(key) {
            let i = choose|i: int|
                0 <= i < earlier.len() && (#[trigger] earlier[i]).0 == key && earlier[i].1
                    == results_map(earlier)[key] && forall|j: int|
                    i < j < earlier.len() ==> (#[trigger] earlier[j]).0 != key;
            assert(outcomes[i] == earlier[i]);
            assert forall|j: int| i < j < outcomes.len() implies (#[trigger] outcomes[j]).0
                != key by {
                if j < last {
                    assert(earlier[j] == outcomes[j]);
                }
            }
        } else {
            assert forall|i: int| 0 <= i < outcomes.len() implies (#[trigger] outcomes[i]).0
                != key by {
                if i < last {
                    assert(earlier[i] == outcomes[i]);
                }
            }
        }
    }
}

/// No key occurs twice among `outcomes`.
pub open spec fn keys_distinct<T>(outcomes: Seq<(usize, Result<T, StateError>)>) -> bool {
    forall|i: int, j: int|
        0 <= i < outcomes.len() && 0 <= j < outcomes.len() && i != j ==> (#[trigger] outcomes[i]).0
            != (#[trigger] outcomes[j]).0
}

/// Where every lookup has a key of its own, the map holds as many entries
/// as there were lookups, and each outcome stands under its key as it came:
/// what one lookup reports neither drops nor changes another.
pub proof fn lemma_results_of_distinct_keys<T>(outcomes: Seq<(usize, Result<T, StateError>)>)
    requires
        keys_distinct(outcomes),
    ensures
        results_map(outcomes).dom().finite(),
        results_map(outcomes).len() == outcomes.len(),
        forall|i: int|
            0 <= i < outcomes.len() ==> results_map(outcomes).contains_key(
                (#[trigger] outcomes[i]).0,
            ) && results_map(outcomes)[outcomes[i].0] == outcomes[i].1,
    decreases outcomes.len(),
{
    if outcomes.len() > 0 {
        let earlier = outcomes.drop_last();
        let last = outcomes.len() - 1;
        assert forall|i: int, j: int|
            0 <= i < earlier.len() && 0 <= j < earlier.len() && i != j implies (
        #[trigger] earlier[i]).0 != (#[trigger] earlier[j]).0 by {
            assert(earlier[i] == outcomes[i]);
            assert(earlier[j] == outcomes[j]);
        }
        lemma_results_of_distinct_keys(earlier);
        lemma_results_map(earlier, outcomes[last].0);
        assert(!results_map(earlier).contains_key(outcomes[last].0)) by {
            if results_map(earlier).contains_key(outcomes[last].0) {
                let i = choose|i: int|
                    0 <= i < earlier.len() && (#[trigger] earlier[i]).0 == outcomes[last].0;
                assert(earlier[i] == outcomes[i]);
            }
        }
        assert forall|i: int| 0 <= i < outcomes.len() implies results_map(outcomes).contains_key(
            (#[trigger] outcomes[i]).0,
        ) && results_map(outcomes)[outcomes[i].0] == outcomes[i].1 by {
            if i < last {
                assert(earlier[i] == outcomes[i]);
            }
        }
    }
}

/// Gathers the outcomes of a batch of lookups into the map by key. Every
/// outcome is kept, an error as well as a value; of two outcomes for one
/// key the later one stays.
pub fn collect_results<T>(outcomes: Vec<(usize, Result<T, StateError>)>) -> (results: HashMap<
    usize,
    Result<T, StateError>,
>)
    ensures
        results@ == results_map(outcomes@),
{
    let mut rest = outcomes;
    let mut results: HashMap<usize, Result<T, StateError>> = HashMap::new();
    while rest.len() > 0
        invariant
            results_map(outcomes@) == results_map(rest@).union_prefer_right(results@),
        decreases rest@.len(),
    {
        let ghost before = rest@;
        let ghost gathered = results@;
        match rest.pop() {
            Some((key, outcome)) => {
                proof {
                    assert(before.drop_last() =~= rest@);
                }
                if !results.contains_key(&key) {
                    results.insert(key, outcome);
                }
                proof {
                    assert(results_map(before).union_prefer_right(gathered) =~= results_map(
                        rest@,
                    ).union_prefer_right(results@));
                }
            },
            None => {},
        }
    }
    proof {
        assert(results_map(outcomes@) =~= results@);
    }
    results
}

/// The last `HISTORY_LIMIT` of `points`, or all of them where they are no
/// more than that.
pub open spec fn latest<T>(points: Seq<T>) -> Seq<T> {
    if points.len() > HISTORY_LIMIT {
        points.subrange(points.len() - HISTORY_LIMIT, points.len() as int)
    } else {
        points
    }
}

/// Drops the older points of a price history beyond the limit.
pub fn latest_points<T>(points: Vec<T>) -> (kept: Vec<T>)
    ensures
        kept@ == latest(points@),
        kept@.len() == if points@.len() > HISTORY_LIMIT {
            HISTORY_LIMIT as nat
        } else {
            points@.len()
        },
        forall|i: int|
            0 <= i < kept@.len() ==> #[trigger] kept@[i] == points@[points@.len() - kept@.len()
                + i],
{
    let mut points = points;
    if points.len() > HISTORY_LIMIT {
        let from = points.len() - HISTORY_LIMIT;
        points.split_off(from)
    } else {
        points
    }
}

/// Whether `kept` is `full` with its older points dropped: the same error,
/// or the latest points of the same history.
pub open spec fn is_latest_of<T>(
    kept: Result<Vec<T>, StateError>,
    full: Result<Vec<T>, StateError>,
) -> bool {
    match (kept, full) {
        (Ok(k), Ok(f)) => k@ == latest(f@),
        (Err(k), Err(f)) => k == f,
        _ => false,
    }
}

/// Gathers the outcomes of a batch of price history lookups into the map by
/// key, each history cut to its latest points. Every outcome is kept, an
/// error as well as a history; of two outcomes for one key the later one
/// stays.
pub fn history_results<T>(outcomes: Vec<(usize, Result<Vec<T>, StateError>)>) -> (results: HashMap<
    usize,
    Result<Vec<T>, StateError>,
>)
    ensures
        results@.dom() == results_map(outcomes@).dom(),
        forall|key: usize| #[trigger]
            results@.contains_key(key) ==> is_latest_of(
                results@[key],
                results_map(outcomes@)[key],
            ),
{
    let mut rest = outcomes;
    let mut results: HashMap<usize, Result<Vec<T>, StateError>> = HashMap::new();
    while rest.len() > 0
        invariant
            results_map(outcomes@).dom() == results_map(rest@).dom().union(results@.dom()),
            forall|key: usize| #[trigger]
                results@.contains_key(key) ==> is_latest_of(
                    results@[key],
                    results_map(outcomes@)[key],
                ),
            forall|key: usize|
                !results@.contains_key(key) && #[trigger] results_map(rest@).contains_key(key)
                    ==> results_map(outcomes@)[key] == results_map(rest@)[key],
        decreases rest@.len(),
    {
        let ghost before = rest@;
        let ghost gathered = results@;
        match rest.pop() {
            Some((key, outcome)) => {
                proof {
                    assert(before.drop_last() =~= rest@);
                    assert(before.last() == (key, outcome));
                    assert(results_map(before) == results_map(rest@).insert(key, outcome));
                    assert(results_map(before).contains_key(key));
                }
                if !results.contains_key(&key) {
                    let kept = match outcome {
                        Ok(points) => Ok(latest_points(points)),
                        Err(e) => Err(e),
                    };
                    results.insert(key, kept);
                }
                proof {
                    assert(results_map(before).dom().union(gathered.dom()) =~= results_map(
                        rest@,
                    ).dom().union(results@.dom()));
                    assert forall|k: usize|
                        !results@.contains_key(k) && #[trigger] results_map(rest@).contains_key(
                            k,
                        ) implies results_map(outcomes@)[k] == results_map(rest@)[k] by {
                        assert(results_map(before).contains_key(k));
                    }
                }
            },
            None => {},
        }
    }
    proof {
        assert(results@.dom() =~= results_map(outcomes@).dom());
    }
    results
}

} // verus!
