use rtb_aggregator::endpoints::{
    case_one_host, get_aggregates, get_user_profiles, pick_case_one_host, user_profiles_host,
    user_tags_topic, ContentKind, RequestWrapper,
};

#[test]
fn stub_endpoints_echo_their_body() {
    let r = get_user_profiles("c".to_string(), "t".to_string(), None, "{\"a\":1}".to_string());
    assert_eq!(r, (ContentKind::Json, "{\"a\":1}".to_string()));
    let r = get_aggregates(
        "t".to_string(),
        "BUY".to_string(),
        vec!["COUNT".to_string()],
        Some("o".to_string()),
        None,
        None,
        "body".to_string(),
    );
    assert_eq!(r, (ContentKind::Json, "body".to_string()));
}

#[test]
fn topic_and_host_follow_the_shard() {
    assert_eq!(user_tags_topic(&"a".to_string()), "user-tags-1");
    assert_eq!(user_tags_topic(&"aa".to_string()), "user-tags-0");
    assert_eq!(user_profiles_host(&"a".to_string()), "http://case-two-1:8002");
    assert_eq!(user_profiles_host(&"aa".to_string()), "http://case-two-0:8002");
}

#[test]
fn case_one_hosts() {
    assert_eq!(case_one_host(1), "http://mimuw-rtb-labs-pds-5-case-one-1:8001");
    assert_eq!(case_one_host(8), "http://mimuw-rtb-labs-pds-5-case-one-8:8001");
    let valid: Vec<String> = (1..=8).map(case_one_host).collect();
    for _ in 0..50 {
        assert!(valid.contains(&pick_case_one_host()));
    }
}

#[test]
fn forwarded_uri() {
    let req = RequestWrapper::new("/user_profiles/abc?time_range=x".to_string());
    assert_eq!(req.full_uri("http://case-two-0:8002"), "http://case-two-0:8002/user_profiles/abc?time_range=x");
}
