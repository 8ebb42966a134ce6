//! Inbound payloads: a JSON object that names a token and carries a price.
//!
//! The token is the string member `token_address`. The price is looked for
//! under `price_in_sol`, `price`, `price_sol` and `amount_in_sol`, in that
//! order: a string is used where it reads as a decimal and passed over where
//! it does not, a number is used as it stands, anything else is passed over.

use crate::decimal::{parse_price, price_of_text};
use vstd::prelude::*;
use vstd::utf8::{decode_utf8, valid_utf8};

verus! {

/// Makes `serde_json::Value` known to the verifier, as a type it cannot
/// look into.
#[verifier::external_type_specification]
#[verifier::external_body]
pub struct ExJsonValue(serde_json::Value);

/// The document that a JSON text decodes to; `None` where the text is no JSON.
pub uninterp spec fn json_document(text: Seq<char>) -> Option<serde_json::Value>;

/// The member that a JSON object holds under `key`; `None` where the value is
/// no object or holds no such member.
pub uninterp spec fn json_member(value: serde_json::Value, key: Seq<char>) -> Option<
    serde_json::Value,
>;

/// The characters of a JSON string; `None` for every other value.
pub uninterp spec fn json_string(value: serde_json::Value) -> Option<Seq<char>>;

/// The decimal text of a JSON number; `None` for every other value.
pub uninterp spec fn json_number_text(value: serde_json::Value) -> Option<Seq<char>>;

/// Calls `serde_json::from_str` for a `serde_json::Value`. Trusted: the
/// document is a function of the text alone, and a text that is no JSON gives
/// `None`.
#[verifier::external_body]
fn decode_json(text: &str) -> (r: Option<serde_json::Value>)
    ensures
        r == json_document(text@),
{
    serde_json::from_str::<serde_json::Value>(text).ok()
}

/// Calls `serde_json::Value::get` with a string key. Trusted: the member is a
/// function of the value and the key.
#[verifier::external_body]
fn member_of<'a>(value: &'a serde_json::Value, key: &str) -> (r: Option<&'a serde_json::Value>)
    ensures
        match r {
            Some(m) => json_member(*value, key@) == Some(*m),
            None => json_member(*value, key@) is None,
        },
{
    value.get(key)
}

/// Calls `serde_json::Value::as_str`. Trusted: the characters are a function
/// of the value.
#[verifier::external_body]
fn string_of<'a>(value: &'a serde_json::Value) -> (r: Option<&'a str>)
    ensures
        match r {
            Some(s) => json_string(*value) == Some(s@),
            None => json_string(*value) is None,
        },
{
    value.as_str()
}

/// Writes a `serde_json::Value::Number` out with `to_string`, which goes by
/// the `Display` of `serde_json::Number`. Trusted: the text is a function of
/// the value, and only a number has one.
#[verifier::external_body]
fn number_text_of(value: &serde_json::Value) -> (r: Option<String>)
    ensures
        match r {
            Some(t) => json_number_text(*value) == Some(t@),
            None => json_number_text(*value) is None,
        },
{
    match value {
        serde_json::Value::Number(n) => Some(n.to_string()),
        _ => None,
    }
}

/// Calls `core::str::from_utf8`. `None` stands for its error. Trusted: the
/// bytes are taken as text exactly where they are well-formed UTF-8, and the
/// text is then the characters they encode.
#[verifier::external_body]
pub(crate) fn utf8_text<'a>(bytes: &'a [u8]) -> (r: Option<&'a str>)
    ensures
        r is Some <==> valid_utf8(bytes@),
        r matches Some(text) ==> text@ == decode_utf8(bytes@),
{
    core::str::from_utf8(bytes).ok()
}

/// What a member of the inbound object holds, as far as a trade is read from it.
#[derive(Debug, PartialEq, Eq)]
pub enum Field {
    /// The object has no such member.
    Missing,
    /// A JSON string, by its characters.
    Text(String),
    /// A JSON number, by its decimal text.
    Number(String),
    /// A null, a boolean, an array or an object.
    Other,
}

/// A `Field` as contracts see it.
pub enum FieldView {
    Missing,
    Text(Seq<char>),
    Number(Seq<char>),
    Other,
}

impl View for Field {
    type V = FieldView;

    open spec fn view(&self) -> FieldView {
        match self {
            Field::Missing => FieldView::Missing,
            Field::Text(t) => FieldView::Text(t@),
            Field::Number(t) => FieldView::Number(t@),
            Field::Other => FieldView::Other,
        }
    }
}

/// The members of an inbound object that a trade is read from.
#[derive(Debug, PartialEq, Eq)]
pub struct TradeFields {
    pub token_address: Field,
    pub price_in_sol: Field,
    pub price: Field,
    pub price_sol: Field,
    pub amount_in_sol: Field,
}

/// `TradeFields` as contracts see them.
pub struct TradeView {
    pub token_address: FieldView,
    pub price_in_sol: FieldView,
    pub price: FieldView,
    pub price_sol: FieldView,
    pub amount_in_sol: FieldView,
}

impl View for TradeFields {
    type V = TradeView;

    open spec fn view(&self) -> TradeView {
        TradeView {
            token_address: self.token_address@,
            price_in_sol: self.price_in_sol@,
            price: self.price@,
            price_sol: self.price_sol@,
            amount_in_sol: self.amount_in_sol@,
        }
    }
}

impl TradeView {
    /// The members that may carry the price, first choice first.
    pub open spec fn candidates(self) -> Seq<FieldView> {
        seq![self.price_in_sol, self.price, self.price_sol, self.amount_in_sol]
    }

    /// The token named by the object: the characters of `token_address`
    /// where that member is a string.
    pub open spec fn token(self) -> Option<Seq<char>> {
        match self.token_address {
            FieldView::Text(t) => Some(t),
            _ => None,
        }
    }

    /// The token and the price of the trade, where the object has both.
    pub open spec fn trade(self) -> Option<(Seq<char>, i64)> {
        match (self.token(), first_price(self.candidates())) {
            (Some(token), Some(price)) => Some((token, price)),
            _ => None,
        }
    }
}

/// The price that the first deciding candidate yields.
///
/// A string decides where it reads as a decimal; a number decides in any
/// case, also where its value does not fit in ticks, and then there is no
/// price. Missing members, other values and strings that do not read as a
/// decimal are passed over.
pub open spec fn first_price(candidates: Seq<FieldView>) -> Option<i64>
    decreases candidates.len(),
{
    if candidates.len() == 0 {
        None
    } else {
        match candidates[0] {
            FieldView::Number(t) => price_of_text(t),
            FieldView::Text(t) => match price_of_text(t) {
                Some(p) => Some(p),
                None => first_price(candidates.drop_first()),
            },
            _ => first_price(candidates.drop_first()),
        }
    }
}

/// What the document holds under `key`, as a field.
pub open spec fn field_of(document: serde_json::Value, key: Seq<char>) -> FieldView {
    match json_member(document, key) {
        None => FieldView::Missing,
        Some(value) => match json_string(value) {
            Some(s) => FieldView::Text(s),
            None => match json_number_text(value) {
                Some(t) => FieldView::Number(t),
                None => FieldView::Other,
            },
        },
    }
}

/// The trade members of the document that a payload decodes to.
pub open spec fn fields_of_payload(payload: Seq<char>) -> Option<TradeView> {
    match json_document(payload) {
        None => None,
        Some(document) => Some(
            TradeView {
                token_address: field_of(document, "token_address"@),
                price_in_sol: field_of(document, "price_in_sol"@),
                price: field_of(document, "price"@),
                price_sol: field_of(document, "price_sol"@),
                amount_in_sol: field_of(document, "amount_in_sol"@),
            },
        ),
    }
}

/// The token and the price that a payload carries.
pub open spec fn trade_of_payload(payload: Seq<char>) -> Option<(Seq<char>, i64)> {
    match fields_of_payload(payload) {
        None => None,
        Some(fields) => fields.trade(),
    }
}

impl TradeFields {
    /// The candidate at `index`, first choice first.
    fn candidate(&self, index: usize) -> (field: &Field)
        requires
            index < 4,
        ensures
            field@ == self@.candidates()[index as int],
    {
        if index == 0 {
            &self.price_in_sol
        } else if index == 1 {
            &self.price
        } else if index == 2 {
            &self.price_sol
        } else {
            &self.amount_in_sol
        }
    }

    /// The price that the first deciding candidate yields.
    fn pick_price(&self) -> (price: Option<i64>)
        ensures
            price == first_price(self@.candidates()),
    {
        let ghost all = self@.candidates();
        let mut index: usize = 0;
        proof {
            assert(all.skip(0) =~= all);
        }
        while index < 4
            invariant
                index <= 4,
                all == self@.candidates(),
                all.len() == 4,
                first_price(all) == first_price(all.skip(index as int)),
            decreases 4 - index,
        {
            proof {
                assert(all.skip(index as int).drop_first() =~= all.skip(index + 1));
            }
            match self.candidate(index) {
                Field::Number(text) => {
                    return parse_price(text.as_str());
                },
                Field::Text(text) => {
                    let price = parse_price(text.as_str());
                    if price.is_some() {
                        return price;
                    }
                },
                _ => {},
            }
            index += 1;
        }
        None
    }
}

/// Picks the token and the price out of the members of an inbound object.
pub fn extract_trade(fields: &TradeFields) -> (r: Option<(String, i64)>)
    ensures
        match r {
            Some((token, price)) => fields@.trade() == Some((token@, price)),
            None => fields@.trade() is None,
        },
{
    match (&fields.token_address, fields.pick_price()) {
        (Field::Text(token), Some(price)) => Some((token.clone(), price)),
        _ => None,
    }
}

/// Reads one member of the document as a field.
fn read_field(document: &serde_json::Value, key: &str) -> (f: Field)
    ensures
        f@ == field_of(*document, key@),
{
    match member_of(document, key) {
        None => Field::Missing,
        Some(value) => match string_of(value) {
            Some(s) => Field::Text(s.to_owned()),
            None => match number_text_of(value) {
                Some(t) => Field::Number(t),
                None => Field::Other,
            },
        },
    }
}

/// Decodes a payload and reads the members that a trade is made of.
pub fn decode_fields(payload: &str) -> (r: Option<TradeFields>)
    ensures
        match r {
            Some(fields) => fields_of_payload(payload@) == Some(fields@),
            None => fields_of_payload(payload@) is None,
        },
{
    match decode_json(payload) {
        None => None,
        Some(document) => Some(
            TradeFields {
                token_address: read_field(&document, "token_address"),
                price_in_sol: read_field(&document, "price_in_sol"),
                price: read_field(&document, "price"),
                price_sol: read_field(&document, "price_sol"),
                amount_in_sol: read_field(&document, "amount_in_sol"),
            },
        ),
    }
}

/// The token and the price that a payload carries, `None` where it is no
/// JSON, names no token, or yields no price.
pub fn parse_price_from_payload(payload: &str) -> (r: Option<(String, i64)>)
    ensures
        match r {
            Some((token, price)) => trade_of_payload(payload@) == Some((token@, price)),
            None => trade_of_payload(payload@) is None,
        },
{
    match decode_fields(payload) {
        None => None,
        Some(fields) => extract_trade(&fields),
    }
}

} // verus!
