use rtb_aggregator::data::{Action, ActionParseError, ProductInfo, UserTag, UserTagRaw};
use rtb_aggregator::time::WrappedDateTimeUtc;

fn product() -> ProductInfo {
    ProductInfo::new(7, "brand".to_string(), "category".to_string(), 1999)
}

fn raw(time: &str, action: &str) -> UserTagRaw {
    UserTagRaw::new(
        time.to_string(),
        "cookie-1".to_string(),
        "PL".to_string(),
        "PC".to_string(),
        action.to_string(),
        "origin".to_string(),
        product(),
    )
}

#[test]
fn action_from_str_names() {
    assert_eq!(Action::from_str("VIEW"), Ok(Action::VIEW));
    assert_eq!(Action::from_str("BUY"), Ok(Action::BUY));
}

#[test]
fn action_from_str_rejects() {
    assert_eq!(Action::from_str("view"), Err(ActionParseError::VariantNotFound));
    assert_eq!(Action::from_str(""), Err(ActionParseError::VariantNotFound));
    assert_eq!(Action::from_str("BUY "), Err(ActionParseError::VariantNotFound));
}

#[test]
fn user_tag_from_reads_fields() {
    let r = raw("2022-03-22T12:15:00.123Z", "BUY");
    let tag = UserTag::from(r.clone());
    assert_eq!(tag.action, Action::BUY);
    assert_eq!(tag.time, WrappedDateTimeUtc::from_parts(1647951300, 123_000_000).unwrap());
    assert_eq!(tag.cookie, "cookie-1");
    assert_eq!(tag.country, "PL");
    assert_eq!(tag.device, "PC");
    assert_eq!(tag.origin, "origin");
    assert!(tag.product_info == product());
    assert!(tag.raw == r);
}

#[test]
fn user_tag_checked_from_rejects() {
    assert!(UserTag::checked_from(raw("noon", "BUY")).is_none());
    assert!(UserTag::checked_from(raw("2022-03-22T12:15:00.123Z", "SELL")).is_none());
    assert!(UserTag::checked_from(raw("2022-03-22T12:15:00", "VIEW")).is_some());
}

#[test]
fn raw_tags_compare_by_every_field() {
    let a = raw("2022-03-22T12:15:00.123Z", "BUY");
    assert!(a == a.clone());
    assert!(a != raw("2022-03-22T12:15:00.124Z", "BUY"));
    let mut b = a.clone();
    b.product_info.price = 1;
    assert!(a != b);
    let mut c = a.clone();
    c.cookie = "cookie-2".to_string();
    assert!(a != c);
}
