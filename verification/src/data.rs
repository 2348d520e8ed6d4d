//! The records of a user tag: as received, and with its time and action read.

use crate::time::{parse_time_spec, WrappedDateTimeUtc};
use vstd::prelude::*;

verus! {

/// The product that a user tag is about.
#[derive(Debug)]
pub struct ProductInfo {
    pub product_id: i32,
    pub brand_id: String,
    pub category_id: String,
    pub price: i32,
}

/// The contents of a `ProductInfo`, its strings as characters.
pub struct ProductInfoView {
    pub product_id: i32,
    pub brand_id: Seq<char>,
    pub category_id: Seq<char>,
    pub price: i32,
}

impl View for ProductInfo {
    type V = ProductInfoView;

    open spec fn view(&self) -> ProductInfoView {
        ProductInfoView {
            product_id: self.product_id,
            brand_id: self.brand_id@,
            category_id: self.category_id@,
            price: self.price,
        }
    }
}

impl ProductInfo {
    pub fn new(product_id: i32, brand_id: String, category_id: String, price: i32) -> (r: Self)
        ensures
            r.product_id == product_id,
            r.brand_id == brand_id,
            r.category_id == category_id,
            r.price == price,
    {
        ProductInfo { product_id, brand_id, category_id, price }
    }
}

impl Clone for ProductInfo {
    fn clone(&self) -> (r: Self)
        ensures
            r == *self,
    {
        ProductInfo {
            product_id: self.product_id,
            brand_id: self.brand_id.clone(),
            category_id: self.category_id.clone(),
            price: self.price,
        }
    }
}

impl PartialEq for ProductInfo {
    fn eq(&self, other: &Self) -> (r: bool) {
        self.product_id == other.product_id && self.brand_id == other.brand_id
            && self.category_id == other.category_id && self.price == other.price
    }
}

impl vstd::std_specs::cmp::PartialEqSpecImpl for ProductInfo {
    open spec fn obeys_eq_spec() -> bool {
        true
    }

    open spec fn eq_spec(&self, other: &Self) -> bool {
        self@ == other@
    }
}

impl Eq for ProductInfo {
}

/// A user tag as it arrives: every field but the product as text.
#[derive(Debug)]
pub struct UserTagRaw {
    pub time: String,
    pub cookie: String,
    pub country: String,
    pub device: String,
    pub action: String,
    pub origin: String,
    pub product_info: ProductInfo,
}

/// The contents of a `UserTagRaw`, its strings as characters.
pub struct UserTagRawView {
    pub time: Seq<char>,
    pub cookie: Seq<char>,
    pub country: Seq<char>,
    pub device: Seq<char>,
    pub action: Seq<char>,
    pub origin: Seq<char>,
    pub product_info: ProductInfoView,
}

impl View for UserTagRaw {
    type V = UserTagRawView;

    open spec fn view(&self) -> UserTagRawView {
        UserTagRawView {
            time: self.time@,
            cookie: self.cookie@,
            country: self.country@,
            device: self.device@,
            action: self.action@,
            origin: self.origin@,
            product_info: self.product_info@,
        }
    }
}

impl UserTagRaw {
    pub fn new(
        time: String,
        cookie: String,
        country: String,
        device: String,
        action: String,
        origin: String,
        product_info: ProductInfo,
    ) -> (r: Self)
        ensures
            r.time == time,
            r.cookie == cookie,
            r.country == country,
            r.device == device,
            r.action == action,
            r.origin == origin,
            r.product_info == product_info,
    {
        UserTagRaw { time, cookie, country, device, action, origin, product_info }
    }
}

impl Clone for UserTagRaw {
    fn clone(&self) -> (r: Self)
        ensures
            r == *self,
    {
        UserTagRaw {
            time: self.time.clone(),
            cookie: self.cookie.clone(),
            country: self.country.clone(),
            device: self.device.clone(),
            action: self.action.clone(),
            origin: self.origin.clone(),
            product_info: self.product_info.clone(),
        }
    }
}

impl PartialEq for UserTagRaw {
    fn eq(&self, other: &Self) -> (r: bool) {
        self.time == other.time && self.cookie == other.cookie && self.country == other.country
            && self.device == other.device && self.action == other.action && self.origin
            == other.origin && self.product_info == other.product_info
    }
}

impl vstd::std_specs::cmp::PartialEqSpecImpl for UserTagRaw {
    open spec fn obeys_eq_spec() -> bool {
        true
    }

    open spec fn eq_spec(&self, other: &Self) -> bool {
        self@ == other@
    }
}

impl Eq for UserTagRaw {
}

/// What a user did with the product.
#[allow(non_camel_case_types)]
#[derive(Debug, Clone, Copy, PartialEq, Eq, Structural)]
pub enum Action {
    VIEW,
    BUY,
}

/// The error of a text that names no action.
#[derive(Debug, Clone, Copy, PartialEq, Eq, Structural)]
pub enum ActionParseError {
    VariantNotFound,
}

/// The action that a text names: exactly `VIEW` or `BUY`.
pub open spec fn action_from_spec(s: Seq<char>) -> Result<Action, ActionParseError> {
    if s == "VIEW"@ {
        Ok(Action::VIEW)
    } else if s == "BUY"@ {
        Ok(Action::BUY)
    } else {
        Err(ActionParseError::VariantNotFound)
    }
}

impl Action {
    pub fn from_str(s: &str) -> (r: Result<Action, ActionParseError>)
        ensures
            r == action_from_spec(s@),
    {
        let owned = s.to_owned();
        if owned == "VIEW".to_owned() {
            Ok(Action::VIEW)
        } else if owned == "BUY".to_owned() {
            Ok(Action::BUY)
        } else {
            Err(ActionParseError::VariantNotFound)
        }
    }
}

/// A user tag with its time and action read, and the tag as received.
#[derive(Debug)]
pub struct UserTag {
    pub time: WrappedDateTimeUtc,
    pub cookie: String,
    pub country: String,
    pub device: String,
    pub action: Action,
    pub origin: String,
    pub product_info: ProductInfo,
    pub raw: UserTagRaw,
}

/// The contents of a `UserTag`: its instant, its strings as characters, its
/// action and the contents of the tag as received.
pub struct UserTagView {
    pub time: (i64, u32),
    pub cookie: Seq<char>,
    pub country: Seq<char>,
    pub device: Seq<char>,
    pub action: Action,
    pub origin: Seq<char>,
    pub product_info: ProductInfoView,
    pub raw: UserTagRawView,
}

impl View for UserTag {
    type V = UserTagView;

    open spec fn view(&self) -> UserTagView {
        UserTagView {
            time: self.time@,
            cookie: self.cookie@,
            country: self.country@,
            device: self.device@,
            action: self.action,
            origin: self.origin@,
            product_info: self.product_info@,
            raw: self.raw@,
        }
    }
}

/// The received tag's time parses and its action is named.
pub open spec fn user_tag_readable(raw: UserTagRawView) -> bool {
    parse_time_spec(raw.time) is Some && action_from_spec(raw.action) is Ok
}

/// The tag that reading a received tag gives.
pub open spec fn read_tag(raw: UserTagRawView) -> UserTagView {
    UserTagView {
        time: parse_time_spec(raw.time).unwrap(),
        cookie: raw.cookie,
        country: raw.country,
        device: raw.device,
        action: action_from_spec(raw.action).unwrap(),
        origin: raw.origin,
        product_info: raw.product_info,
        raw: raw,
    }
}

impl UserTag {
    /// Reads the time and the action of a received tag, keeping a copy of it.
    pub fn from(raw: UserTagRaw) -> (r: UserTag)
        requires
            user_tag_readable(raw@),
        ensures
            r@ == read_tag(raw@),
    {
        let raw_cloned = raw.clone();
        let time = WrappedDateTimeUtc::parse(raw.time.as_str()).unwrap();
        let action = Action::from_str(raw.action.as_str()).unwrap();
        UserTag {
            time,
            cookie: raw.cookie,
            country: raw.country,
            device: raw.device,
            action,
            origin: raw.origin,
            product_info: raw.product_info,
            raw: raw_cloned,
        }
    }

    /// Reads a received tag as `from` does; `None` where its time does not
    /// parse or its action is not named.
    pub fn checked_from(raw: UserTagRaw) -> (r: Option<UserTag>)
        ensures
            r is Some <==> user_tag_readable(raw@),
            r matches Some(tag) ==> tag@ == read_tag(raw@),
    {
        let time_ok = WrappedDateTimeUtc::parse(raw.time.as_str()).is_ok();
        let action_ok = Action::from_str(raw.action.as_str()).is_ok();
        if time_ok && action_ok {
            Some(UserTag::from(raw))
        } else {
            None
        }
    }
}

} // verus!
