use rtb_aggregator::data::{ProductInfo, UserTag, UserTagRaw};
use rtb_aggregator::kafka_aggregator::{
    aggregate_batch, batch_window_millis, next_step, Aggregator, NextStep, PollResult,
};
use rtb_aggregator::logic_case_two::{dedup_raws, get_shard, shard_fits, LocalState};
use rtb_aggregator::logic_demo::State;

fn raw(cookie: &str, time: &str, action: &str, price: i32) -> UserTagRaw {
    UserTagRaw::new(
        time.to_string(),
        cookie.to_string(),
        "PL".to_string(),
        "MOBILE".to_string(),
        action.to_string(),
        "shop".to_string(),
        ProductInfo::new(1, "b".to_string(), "c".to_string(), price),
    )
}

fn prices(v: &[UserTagRaw]) -> Vec<i32> {
    v.iter().map(|r| r.product_info.price).collect()
}

const RANGE: &str = "2022-03-01T00:00:00.000_2022-03-01T00:01:00.000";

fn at_second(s: u32) -> String {
    format!("2022-03-01T00:00:{:02}.000Z", s)
}

#[test]
fn shard_is_parity_of_code_points() {
    assert_eq!(get_shard("".to_string()), 0);
    assert_eq!(get_shard("a".to_string()), 1);
    assert_eq!(get_shard("aa".to_string()), 0);
    assert_eq!(get_shard("ab".to_string()), 1);
    assert_eq!(get_shard("ż".to_string()), 0x17C % 2);
}

#[test]
fn query_default_limit_is_two_newest_in_range() {
    let mut s = LocalState::new();
    for i in 0..5u32 {
        s.add_user_tag(UserTag::from(raw("u", &at_second(i * 10), "VIEW", i as i32)));
    }
    let r = s.query("u".to_string(), RANGE.to_string(), None);
    assert_eq!(r.cookie, "u");
    assert_eq!(prices(&r.views), vec![4, 3]);
    assert!(r.buys.is_empty());
}

#[test]
fn query_limit_and_range() {
    let mut s = LocalState::new();
    s.add_user_tag(UserTag::from(raw("u", "2022-02-28T23:59:59.999Z", "BUY", 100)));
    for i in 0..3u32 {
        s.add_user_tag(UserTag::from(raw("u", &at_second(i), "BUY", i as i32)));
    }
    s.add_user_tag(UserTag::from(raw("u", "2022-03-01T00:01:00.000Z", "BUY", 200)));
    let r = s.query("u".to_string(), RANGE.to_string(), Some("10".to_string()));
    assert_eq!(prices(&r.buys), vec![2, 1, 0]);
    let r = s.query("u".to_string(), RANGE.to_string(), Some("+1".to_string()));
    assert_eq!(prices(&r.buys), vec![2]);
    let r = s.query("u".to_string(), RANGE.to_string(), Some("0".to_string()));
    assert!(r.buys.is_empty());
}

#[test]
fn query_drops_adjacent_repeats() {
    let mut s = LocalState::new();
    s.add_user_tag(UserTag::from(raw("u", &at_second(1), "VIEW", 1)));
    s.add_user_tag(UserTag::from(raw("u", &at_second(2), "VIEW", 2)));
    s.add_user_tag(UserTag::from(raw("u", &at_second(2), "VIEW", 2)));
    s.add_user_tag(UserTag::from(raw("u", &at_second(1), "VIEW", 1)));
    let r = s.query("u".to_string(), RANGE.to_string(), Some("4".to_string()));
    assert_eq!(prices(&r.views), vec![1, 2, 1]);
}

#[test]
fn users_are_kept_apart() {
    let mut s = LocalState::new();
    s.add_user_tag(UserTag::from(raw("u1", &at_second(1), "BUY", 1)));
    s.add_user_tag(UserTag::from(raw("u2", &at_second(2), "BUY", 2)));
    let r1 = s.query("u1".to_string(), RANGE.to_string(), None);
    let r2 = s.query("u2".to_string(), RANGE.to_string(), None);
    assert_eq!(prices(&r1.buys), vec![1]);
    assert_eq!(prices(&r2.buys), vec![2]);
}

#[test]
fn added_tag_is_answered_first() {
    let mut s = LocalState::new();
    for i in 0..3u32 {
        s.add_user_tag(UserTag::from(raw("u", &at_second(i), "BUY", i as i32)));
    }
    s.add_user_tag(UserTag::from(raw("u", &at_second(30), "BUY", 42)));
    let r = s.query("u".to_string(), RANGE.to_string(), Some("1".to_string()));
    assert_eq!(prices(&r.buys), vec![42]);
}

#[test]
fn at_most_two_hundred_tags_per_list() {
    let mut s = LocalState::new();
    for i in 0..250i32 {
        s.add_user_tag(UserTag::from(raw("u", &at_second(5), "VIEW", i)));
    }
    let r = s.query("u".to_string(), RANGE.to_string(), Some("1000".to_string()));
    assert_eq!(r.views.len(), 200);
    assert_eq!(r.views[0].product_info.price, 249);
    assert_eq!(r.views[199].product_info.price, 50);
}

#[test]
fn try_query_rejects() {
    let mut s = LocalState::new();
    s.add_user_tag(UserTag::from(raw("u", &at_second(1), "VIEW", 1)));
    assert!(s.try_query("nobody".to_string(), RANGE.to_string(), None).is_none());
    assert!(s.try_query("u".to_string(), "bad".to_string(), None).is_none());
    assert!(s.try_query("u".to_string(), RANGE.to_string(), Some("-1".to_string())).is_none());
    assert!(s.try_query("u".to_string(), RANGE.to_string(), Some("".to_string())).is_none());
    assert!(s.try_query("u".to_string(), RANGE.to_string(), Some("2x".to_string())).is_none());
    assert!(s.try_query("u".to_string(), RANGE.to_string(), Some("+".to_string())).is_none());
    assert!(s
        .try_query("u".to_string(), RANGE.to_string(), Some("99999999999999999999999".to_string()))
        .is_none());
    assert!(s.try_query("u".to_string(), RANGE.to_string(), Some("٣".to_string())).is_none());
    let r = s.try_query("u".to_string(), RANGE.to_string(), Some("3".to_string())).unwrap();
    assert_eq!(prices(&r.views), vec![1]);
}

#[test]
fn get_user_state_mut_creates_empty_state() {
    let mut s = LocalState::new();
    let _ = s.get_user_state_mut("fresh".to_string());
    let r = s.query("fresh".to_string(), RANGE.to_string(), None);
    assert!(r.views.is_empty() && r.buys.is_empty());
}

#[test]
fn local_state_aggregates_received_tags() {
    let mut s = LocalState::new();
    assert!(s.can_aggregate(&raw("u", &at_second(3), "BUY", 3)));
    assert!(!s.can_aggregate(&raw("u", "later", "BUY", 3)));
    assert!(!s.try_aggregate(raw("u", &at_second(3), "RETURN", 3)));
    assert!(s.try_aggregate(raw("u", &at_second(3), "BUY", 3)));
    s.aggregate(raw("u", &at_second(4), "VIEW", 4));
    let r = s.query("u".to_string(), RANGE.to_string(), None);
    assert_eq!(prices(&r.buys), vec![3]);
    assert_eq!(prices(&r.views), vec![4]);
}

#[test]
fn dedup_keeps_one_of_each_run() {
    let v = vec![
        raw("u", "t", "BUY", 1),
        raw("u", "t", "BUY", 1),
        raw("u", "t", "BUY", 2),
        raw("u", "t", "BUY", 1),
        raw("u", "t", "BUY", 1),
    ];
    assert_eq!(prices(&dedup_raws(v)), vec![1, 2, 1]);
    assert!(dedup_raws(Vec::new()).is_empty());
}

#[test]
fn counting_state_counts() {
    let mut s = State::new(5);
    s.aggregate(vec![1, 2, 3]);
    assert!(s.try_aggregate(Vec::new()));
    assert_eq!(format!("{:?}", s), "State(7)");
}

#[test]
fn counting_state_stops_at_max() {
    let mut s = State::new(i64::MAX);
    assert!(!s.can_aggregate(&Vec::new()));
    assert!(!s.try_aggregate(Vec::new()));
    assert_eq!(format!("{:?}", s), format!("State({})", i64::MAX));
}

#[test]
fn batch_gathering_rule() {
    assert_eq!(batch_window_millis(), 1000);
    assert_eq!(next_step(PollResult::Received, 0), NextStep::PollAgain);
    assert_eq!(next_step(PollResult::Received, 999), NextStep::PollAgain);
    assert_eq!(next_step(PollResult::Received, 1000), NextStep::Flush);
    assert_eq!(next_step(PollResult::Nothing, 0), NextStep::Flush);
}

#[test]
fn shard_fits_bounds_the_code_point_sum() {
    assert!(shard_fits(&"".to_string()));
    assert!(shard_fits(&"cookie".to_string()));
    let fits: String = std::iter::repeat('\u{10FFFF}').take(3855).collect();
    assert!(shard_fits(&fits));
    let too_big: String = std::iter::repeat('\u{10FFFF}').take(3856).collect();
    assert!(!shard_fits(&too_big));
}

#[test]
fn adds_of_different_users_or_actions_commute() {
    let a = raw("u1", &at_second(1), "BUY", 1);
    let b = raw("u2", &at_second(2), "BUY", 2);
    let c = raw("u1", &at_second(3), "VIEW", 3);
    let mut s1 = LocalState::new();
    let mut s2 = LocalState::new();
    for r in [a.clone(), b.clone(), c.clone()] {
        s1.add_user_tag(UserTag::from(r));
    }
    for r in [c, b, a] {
        s2.add_user_tag(UserTag::from(r));
    }
    for user in ["u1", "u2"] {
        let q1 = s1.query(user.to_string(), RANGE.to_string(), Some("10".to_string()));
        let q2 = s2.query(user.to_string(), RANGE.to_string(), Some("10".to_string()));
        assert_eq!(prices(&q1.buys), prices(&q2.buys));
        assert_eq!(prices(&q1.views), prices(&q2.views));
    }
}

#[test]
fn lists_hold_the_newest_tags_of_their_user_and_action() {
    let mut s = LocalState::new();
    for i in 0..300i32 {
        let user = if i % 2 == 0 { "even" } else { "odd" };
        let action = if i % 3 == 0 { "BUY" } else { "VIEW" };
        s.add_user_tag(UserTag::from(raw(user, &at_second(7), action, i)));
    }
    let r = s.query("even".to_string(), RANGE.to_string(), Some("1000".to_string()));
    let expected_buys: Vec<i32> = (0..300).rev().filter(|i| i % 2 == 0 && i % 3 == 0).collect();
    let expected_views: Vec<i32> = (0..300).rev().filter(|i| i % 2 == 0 && i % 3 != 0).collect();
    assert_eq!(prices(&r.buys), expected_buys);
    assert_eq!(prices(&r.views), expected_views);
    assert!(r.buys.iter().all(|t| t.cookie == "even" && t.action == "BUY"));
    assert!(r.views.iter().all(|t| t.cookie == "even" && t.action == "VIEW"));
}

#[test]
fn batch_folds_in_order_up_to_the_first_refused() {
    let mut s = LocalState::new();
    let batch = vec![
        raw("u", &at_second(1), "BUY", 1),
        raw("u", &at_second(2), "BUY", 2),
        raw("u", "never", "BUY", 3),
        raw("u", &at_second(4), "BUY", 4),
    ];
    assert_eq!(aggregate_batch(&mut s, batch), 2);
    let r = s.query("u".to_string(), RANGE.to_string(), Some("10".to_string()));
    assert_eq!(prices(&r.buys), vec![2, 1]);

    let mut c = State::new(0);
    assert_eq!(aggregate_batch(&mut c, vec![vec![], vec![1], vec![2]]), 3);
    assert_eq!(format!("{:?}", c), "State(3)");
    let mut full = State::new(i64::MAX - 1);
    assert_eq!(aggregate_batch(&mut full, vec![vec![], vec![]]), 1);
}
