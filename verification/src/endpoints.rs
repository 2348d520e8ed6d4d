//! What the HTTP front ends compute: where a user tag is published, which
//! replica serves a request, and the bodies that the stub endpoints echo.

use crate::logic_case_two::{char_sum, get_shard};
use rand::distributions::{Distribution, Uniform};
use vstd::prelude::*;

verus! {

/// The content type of a response body.
#[derive(Debug, Clone, Copy, PartialEq, Eq, Structural)]
pub enum ContentKind {
    Json,
}

/// Answers a profile request with its own body, as JSON.
#[allow(unused_variables)]
pub fn get_user_profiles(cookie: String, time_range: String, limit: Option<String>, debug: String) -> (r: (
    ContentKind,
    String,
))
    ensures
        r.0 == ContentKind::Json,
        r.1 == debug,
{
    (ContentKind::Json, debug)
}

/// Answers an aggregates request with its own body, as JSON.
#[allow(unused_variables)]
pub fn get_aggregates(
    time_range: String,
    action: String,
    aggregates: Vec<String>,
    origin: Option<String>,
    brand_id: Option<String>,
    category_id: Option<String>,
    debug: String,
) -> (r: (ContentKind, String))
    ensures
        r.0 == ContentKind::Json,
        r.1 == debug,
{
    (ContentKind::Json, debug)
}

/// The decimal digit `d`.
pub open spec fn digit_char(d: u32) -> char {
    ((('0' as u32) + d) as u32) as char
}

fn digit_str(d: u32) -> (r: &'static str)
    requires
        d < 10,
    ensures
        r@ == seq![digit_char(d)],
{
    proof {
        reveal_strlit("0");
        reveal_strlit("1");
        reveal_strlit("2");
        reveal_strlit("3");
        reveal_strlit("4");
        reveal_strlit("5");
        reveal_strlit("6");
        reveal_strlit("7");
        reveal_strlit("8");
        reveal_strlit("9");
    }
    let r = match d {
        0 => "0",
        1 => "1",
        2 => "2",
        3 => "3",
        4 => "4",
        5 => "5",
        6 => "6",
        7 => "7",
        8 => "8",
        _ => "9",
    };
    assert(r@ =~= seq![digit_char(d)]);
    r
}

/// The digit of the shard of the user with `cookie`.
pub open spec fn shard_digit(cookie: Seq<char>) -> char {
    digit_char((char_sum(cookie) % 2) as u32)
}

/// The topic that the tags of the user with `cookie` are published to.
pub open spec fn user_tags_topic_spec(cookie: Seq<char>) -> Seq<char> {
    "user-tags-"@.push(shard_digit(cookie))
}

/// The profile service replica that answers for the user with `cookie`.
pub open spec fn user_profiles_host_spec(cookie: Seq<char>) -> Seq<char> {
    "http://case-two-"@.push(shard_digit(cookie)) + ":8002"@
}

/// The tags of a user are published to the topic of the same shard whose
/// replica answers the user's profile queries.
pub proof fn lemma_tags_and_queries_meet(cookie: Seq<char>)
    ensures
        exists|d: char|
            (d == '0' || d == '1') && user_tags_topic_spec(cookie) == "user-tags-"@.push(d)
                && user_profiles_host_spec(cookie) == "http://case-two-"@.push(d) + ":8002"@,
{
    let d = shard_digit(cookie);
    let k = char_sum(cookie) % 2;
    if k == 0 {
        assert(d == '0');
    } else {
        assert(d == '1');
    }
    assert(user_tags_topic_spec(cookie) == "user-tags-"@.push(d));
    assert(user_profiles_host_spec(cookie) == "http://case-two-"@.push(d) + ":8002"@);
}

/// The topic that the tags of the user with `cookie` are published to:
/// `user-tags-` and the user's shard.
pub fn user_tags_topic(cookie: &String) -> (r: String)
    requires
        char_sum(cookie@) <= u32::MAX,
    ensures
        r@ == user_tags_topic_spec(cookie@),
{
    let shard = get_shard(cookie.clone());
    let r = String::from_str("user-tags-").concat(digit_str(shard));
    assert(r@ =~= user_tags_topic_spec(cookie@));
    r
}

/// The profile service replica that serves the user with `cookie`:
/// `http://case-two-`, the user's shard, and `:8002`.
pub fn user_profiles_host(cookie: &String) -> (r: String)
    requires
        char_sum(cookie@) <= u32::MAX,
    ensures
        r@ == user_profiles_host_spec(cookie@),
{
    let shard = get_shard(cookie.clone());
    let r = String::from_str("http://case-two-").concat(digit_str(shard)).concat(":8002");
    assert(r@ =~= user_profiles_host_spec(cookie@));
    r
}

/// The address of tag intake replica `replica`.
pub open spec fn case_one_host_spec(replica: u32) -> Seq<char> {
    "http://mimuw-rtb-labs-pds-5-case-one-"@ + seq![digit_char(replica)] + ":8001"@
}

/// The address of tag intake replica `replica`, one of 1 to 8.
pub fn case_one_host(replica: u32) -> (r: String)
    requires
        1 <= replica <= 8,
    ensures
        r@ == case_one_host_spec(replica),
{
    String::from_str("http://mimuw-rtb-labs-pds-5-case-one-").concat(digit_str(replica)).concat(
        ":8001",
    )
}

/// Calls rand's `Uniform::from(1..=8).sample(&mut thread_rng())`. Claimed:
/// the result lies in 1 to 8, as `Uniform` on an inclusive range documents.
#[verifier::external_body]
fn random_case_one_replica() -> (r: u32)
    ensures
        1 <= r <= 8,
{
    Uniform::from(1..=8u32).sample(&mut rand::thread_rng())
}

/// The address of a tag intake replica drawn at random.
pub fn pick_case_one_host() -> (r: String)
    ensures
        exists|replica: u32| 1 <= replica <= 8 && r@ == case_one_host_spec(replica),
{
    let replica = random_case_one_replica();
    case_one_host(replica)
}

/// The path and query of a request, which a request is forwarded with.
pub struct RequestWrapper {
    uri: String,
}

impl View for RequestWrapper {
    type V = Seq<char>;

    closed spec fn view(&self) -> Seq<char> {
        self.uri@
    }
}

impl RequestWrapper {
    pub fn new(uri: String) -> (r: Self)
        ensures
            r@ == uri@,
    {
        RequestWrapper { uri }
    }

    /// The address that a request is forwarded to: `host`, then the request's
    /// path and query.
    pub fn full_uri(&self, host: &str) -> (r: String)
        ensures
            r@ == host@ + self@,
    {
        host.to_owned().concat(self.uri.as_str())
    }
}

} // verus!
