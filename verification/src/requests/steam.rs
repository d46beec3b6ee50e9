//! Inventory and market data of the trading platform.

use vstd::prelude::*;
use crate::decimal::{
    decimal_value, grouped_value, parse_decimal, parse_grouped, text_chars, Decimal,
};
use crate::state::StateError;

verus! {

/// One inventory slot. `classid` is the key that joins a slot with its catalog
/// description; `amount` is the number of slots that the value stands for.
#[derive(Clone, Copy, Debug, PartialEq, Eq)]
pub struct Asset {
    pub appid: usize,
    pub assetid: usize,
    pub classid: usize,
    pub instanceid: usize,
    pub amount: usize,
}

/// The catalog description of one class of items.
#[derive(Clone, Debug, PartialEq, Eq)]
pub struct MarketItem {
    pub item_type: Option<String>,
    pub name: String,
    pub classid: usize,
    pub icon_url: String,
    pub market_hash_name: String,
}

/// An inventory slot joined with the description of its class.
#[derive(Clone, Debug, PartialEq, Eq)]
pub struct FullAsset {
    pub name: String,
    pub appid: usize,
    pub assetid: usize,
    pub classid: usize,
    pub instanceid: usize,
    pub amount: usize,
    pub icon_url: String,
    pub market_hash_name: String,
    pub item_type: Option<String>,
}

/// The decoded answer of the inventory endpoint.
#[derive(Clone, Debug, PartialEq, Eq)]
pub struct UserInventoryResponse {
    pub success: usize,
    pub total_inventory_count: usize,
    pub assets: Vec<Asset>,
    pub descriptions: Vec<MarketItem>,
}

/// The join of a slot and a description, as a value.
pub open spec fn hydrated(asset: Asset, market_item: MarketItem) -> FullAsset {
    FullAsset {
        name: market_item.name,
        appid: asset.appid,
        assetid: asset.assetid,
        classid: asset.classid,
        instanceid: asset.instanceid,
        amount: asset.amount,
        icon_url: market_item.icon_url,
        market_hash_name: market_item.market_hash_name,
        item_type: market_item.item_type,
    }
}

impl Asset {
    /// Joins the slot with a description: the identity and the amount come
    /// from the slot, the texts from the description.
    pub fn hydrate(self, market_item: MarketItem) -> (full: FullAsset)
        ensures
            full == hydrated(self, market_item),
    {
        FullAsset {
            name: market_item.name,
            appid: self.appid,
            assetid: self.assetid,
            classid: self.classid,
            instanceid: self.instanceid,
            amount: self.amount,
            icon_url: market_item.icon_url,
            market_hash_name: market_item.market_hash_name,
            item_type: market_item.item_type,
        }
    }
}

impl FullAsset {
    /// A copy of the value.
    pub fn duplicate(&self) -> (copy: FullAsset)
        ensures
            copy == *self,
    {
        let item_type = match &self.item_type {
            Some(t) => Some(t.clone()),
            None => None,
        };
        FullAsset {
            name: self.name.clone(),
            appid: self.appid,
            assetid: self.assetid,
            classid: self.classid,
            instanceid: self.instanceid,
            amount: self.amount,
            icon_url: self.icon_url.clone(),
            market_hash_name: self.market_hash_name.clone(),
            item_type,
        }
    }
}

impl MarketItem {
    /// A copy of the description.
    pub fn duplicate(&self) -> (copy: MarketItem)
        ensures
            copy == *self,
    {
        let item_type = match &self.item_type {
            Some(t) => Some(t.clone()),
            None => None,
        };
        MarketItem {
            item_type,
            name: self.name.clone(),
            classid: self.classid,
            icon_url: self.icon_url.clone(),
            market_hash_name: self.market_hash_name.clone(),
        }
    }
}

/// The quote of one item on the market.
#[derive(Clone, Copy, Debug, PartialEq, Eq)]
pub struct MarketPrice {
    pub success: bool,
    pub median_price: Decimal,
    pub volume: usize,
    pub lowest_price: Decimal,
}

/// A character of a price field as a decimal text has it: the decimal comma
/// becomes a point.
pub open spec fn euro_char(c: char) -> char {
    if c == ',' {
        '.'
    } else {
        c
    }
}

/// The decimal text of a price field. The field loses its last character,
/// the currency sign. Where a lone dash is left, which stands for "no data",
/// the text is a zero; otherwise it is what is left, each character taken by
/// `euro_char`. A dash in any other place stays a dash.
pub open spec fn currency_text(field: Seq<char>) -> Seq<char> {
    if field.len() == 0 {
        field
    } else if field.len() == 2 && field[0] == '-' {
        seq!['0']
    } else {
        Seq::new((field.len() - 1) as nat, |i: int| euro_char(field[i]))
    }
}

/// Decodes a price field such as "12,34€". The field loses its currency
/// sign and its comma is read as the decimal point; a lone dash is read as
/// zero. What is left has to be a decimal text, so a dash beside other
/// characters is refused. A field that is refused comes back in the error.
pub fn deserialize_euro(field: &str) -> (price: Result<Decimal, StateError>)
    ensures
        match price {
            Ok(number) => decimal_value(currency_text(field@)) == Some(number),
            Err(StateError::Decode(refused)) => decimal_value(currency_text(field@)) is None
                && refused@ == field@,
            Err(_) => false,
        },
{
    let raw = text_chars(field);
    let mut text: Vec<char> = Vec::new();
    if raw.len() == 2 && raw[0] == '-' {
        text.push('0');
    } else {
        let kept: usize = if raw.len() == 0 {
            0
        } else {
            raw.len() - 1
        };
        let mut n: usize = 0;
        while n < kept
            invariant
                raw@ == field@,
                kept == currency_text(field@).len(),
                kept <= raw@.len(),
                n <= kept,
                text@.len() == n,
                forall|i: int| 0 <= i < n ==> #[trigger] text@[i] == euro_char(field@[i]),
            decreases kept - n,
        {
            let c = raw[n];
            let plain = if c == ',' {
                '.'
            } else {
                c
            };
            text.push(plain);
            n += 1;
        }
    }
    proof {
        assert(text@ =~= currency_text(field@));
    }
    match parse_decimal(&text) {
        Some(number) => Ok(number),
        None => Err(StateError::Decode(field.to_owned())),
    }
}

/// Decodes a volume field such as "1,234,567": a whole number whose digits
/// commas may group. A field that is refused comes back in the error.
pub fn deserialize_comma_separated(field: &str) -> (volume: Result<usize, StateError>)
    ensures
        match volume {
            Ok(number) => grouped_value(field@) == Some(number),
            Err(StateError::Decode(refused)) => grouped_value(field@) is None && refused@
                == field@,
            Err(_) => false,
        },
{
    let text = text_chars(field);
    match parse_grouped(&text) {
        Some(number) => Ok(number),
        None => Err(StateError::Decode(field.to_owned())),
    }
}

impl MarketPrice {
    /// Decodes a quote from the fields of the price endpoint's answer. The
    /// fields are read in the order median price, volume, lowest price, and
    /// the first that is refused is the one reported.
    pub fn decode(success: bool, median_price: &str, volume: &str, lowest_price: &str) -> (quote:
        Result<MarketPrice, StateError>)
        ensures
            match quote {
                Ok(q) => {
                    &&& q.success == success
                    &&& decimal_value(currency_text(median_price@)) == Some(q.median_price)
                    &&& grouped_value(volume@) == Some(q.volume)
                    &&& decimal_value(currency_text(lowest_price@)) == Some(q.lowest_price)
                },
                Err(StateError::Decode(refused)) => {
                    if decimal_value(currency_text(median_price@)) is None {
                        refused@ == median_price@
                    } else if grouped_value(volume@) is None {
                        refused@ == volume@
                    } else {
                        decimal_value(currency_text(lowest_price@)) is None && refused@
                            == lowest_price@
                    }
                },
                Err(_) => false,
            },
    {
        let median = match deserialize_euro(median_price) {
            Ok(number) => number,
            Err(e) => {
                return Err(e);
            },
        };
        let sold = match deserialize_comma_separated(volume) {
            Ok(number) => number,
            Err(e) => {
                return Err(e);
            },
        };
        let lowest = match deserialize_euro(lowest_price) {
            Ok(number) => number,
            Err(e) => {
                return Err(e);
            },
        };
        Ok(MarketPrice { success, median_price: median, volume: sold, lowest_price: lowest })
    }
}

} // verus!
