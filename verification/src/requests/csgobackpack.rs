//! Catalog data of the item listing service.

use vstd::prelude::*;
use vstd::string::StringExecFns;
use std::collections::HashMap;

verus! {

/// One entry of the global item catalog.
#[derive(Clone, Debug, PartialEq, Eq)]
pub struct MarketItem {
    pub item_type: Option<String>,
    pub name: String,
    pub icon_url: String,
    pub classid: usize,
}

/// The decoded answer of the catalog listing endpoint: the entries by name.
#[derive(Clone, Debug, PartialEq, Eq)]
pub struct ItemListResponse {
    pub success: bool,
    pub currency: String,
    pub items_list: HashMap<String, MarketItem>,
}

impl MarketItem {
    /// A copy of the entry.
    pub fn duplicate(&self) -> (copy: MarketItem)
        ensures
            copy == *self,
    {
        let item_type = match &self.item_type {
            Some(t) => Some(t.clone()),
            None => None,
        };
        MarketItem {
            item_type,
            name: self.name.clone(),
            icon_url: self.icon_url.clone(),
            classid: self.classid,
        }
    }
}

/// The address of the catalog listing endpoint.
pub const ITEM_LIST_URL: &'static str =
    "https://csgobackpack.net/api/GetItemsList/v2/?no_details=true&no_prices=true";

/// The address of the item price endpoint, up to the item's name.
pub const ITEM_PRICE_URL: &'static str = "http://csgobackpack.net/api/GetItemPrice/?id=";

/// Whether a byte stands for itself in a percent-encoded text: the ASCII
/// letters and digits, and `-`, `.`, `_`, `~`.
pub open spec fn is_unreserved(byte: u8) -> bool {
    ||| 0x30 <= byte <= 0x39
    ||| 0x41 <= byte <= 0x5a
    ||| 0x61 <= byte <= 0x7a
    ||| byte == 0x2d
    ||| byte == 0x2e
    ||| byte == 0x5f
    ||| byte == 0x7e
}

/// The hexadecimal digit, in upper case, of a number below sixteen.
pub open spec fn hex_digit(nibble: u8) -> char {
    if nibble < 10 {
        ((0x30 + nibble) as u8) as char
    } else {
        ((0x41 + nibble - 10) as u8) as char
    }
}

/// The percent-encoded form of one byte: the byte itself where it is
/// unreserved, else `%` and its two hexadecimal digits.
pub open spec fn percent_encoded_byte(byte: u8) -> Seq<char> {
    if is_unreserved(byte) {
        seq![byte as char]
    } else {
        seq!['%', hex_digit(byte / 16), hex_digit(byte % 16)]
    }
}

/// The percent-encoded forms of the bytes, one after the other.
pub open spec fn percent_encoded_bytes(bytes: Seq<u8>) -> Seq<char>
    decreases bytes.len(),
{
    if bytes.len() == 0 {
        Seq::empty()
    } else {
        percent_encoded_bytes(bytes.drop_last()) + percent_encoded_byte(bytes.last())
    }
}

/// The percent-encoded form of a text: that of the bytes of its UTF-8 form.
pub open spec fn percent_encoded(text: Seq<char>) -> Seq<char> {
    percent_encoded_bytes(vstd::utf8::encode_utf8(text))
}

/// Calls `urlencoding::encode`, which walks the bytes of the text's UTF-8
/// form, keeps the ASCII letters and digits and `-`, `.`, `_`, `~`, and
/// writes every other byte as `%` and two upper-case hexadecimal digits.
/// The contract states this result; it is believed, not proved.
#[verifier::external_body]
fn percent_encode(text: &str) -> (encoded: String)
    ensures
        encoded@ == percent_encoded(text@),
{
    urlencoding::encode(text).into_owned()
}

/// The address of the price of the item whose name, already encoded, is
/// `encoded_name`.
pub fn item_price_url_for(encoded_name: &str) -> (url: String)
    ensures
        url@ == ITEM_PRICE_URL@ + encoded_name@,
{
    ITEM_PRICE_URL.to_owned().concat(encoded_name)
}

/// The address of the price of the item with the market name
/// `market_hash_name`.
pub fn item_price_url(market_hash_name: &str) -> (url: String)
    ensures
        url@ == ITEM_PRICE_URL@ + percent_encoded(market_hash_name@),
{
    let encoded = percent_encode(market_hash_name);
    item_price_url_for(encoded.as_str())
}

} // verus!
