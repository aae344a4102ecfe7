use ttv::resolver::{
    build_streams_url, build_users_url, build_vods_url, map_api_error, missing_logins,
    pick_first_user, plan_batches, ApiError, TwitchUser,
};
use ttv::urlenc::percent_encode;

fn numbered(n: usize) -> Vec<String> {
    (0..n).map(|i| format!("login{}", i)).collect()
}

#[test]
fn one_hundred_fifty_logins_take_two_requests() {
    let batches = plan_batches(&numbered(150));
    assert_eq!(batches.len(), 2);
    assert_eq!(batches[0].len(), 100);
    assert_eq!(batches[1].len(), 50);
    let flat: Vec<String> = batches.into_iter().flatten().collect();
    assert_eq!(flat, numbered(150));
}

#[test]
fn batch_counts_round_up() {
    assert_eq!(plan_batches(&numbered(0)).len(), 0);
    assert_eq!(plan_batches(&numbered(1)).len(), 1);
    assert_eq!(plan_batches(&numbered(100)).len(), 1);
    assert_eq!(plan_batches(&numbered(101)).len(), 2);
    assert_eq!(plan_batches(&numbered(250)).len(), 3);
}

#[test]
fn users_url_repeats_the_login_parameter() {
    let url = build_users_url(&vec!["foo".to_string(), "bar".to_string()]);
    assert_eq!(url, "https://api.twitch.tv/helix/users?login=foo&login=bar");
}

#[test]
fn streams_url_repeats_the_user_id_parameter() {
    let url = build_streams_url(&vec!["1".to_string(), "2".to_string()]);
    assert_eq!(url, "https://api.twitch.tv/helix/streams?user_id=1&user_id=2");
}

#[test]
fn vods_url_asks_for_archives_of_one_user() {
    let url = build_vods_url("123");
    assert_eq!(url, "https://api.twitch.tv/helix/videos?user_id=123&type=archive");
}

#[test]
fn query_values_are_percent_encoded() {
    assert_eq!(percent_encode("a-b_c.d~e"), "a-b_c.d~e");
    assert_eq!(percent_encode("a b/c"), "a%20b%2Fc");
    assert_eq!(percent_encode("%"), "%25");
    let url = build_users_url(&vec!["a&b=c".to_string()]);
    assert_eq!(url, "https://api.twitch.tv/helix/users?login=a%26b%3Dc");
}

#[test]
fn unresolved_logins_are_reported_as_misses() {
    let requested = vec!["Foo".to_string(), "bar".to_string()];
    let found = vec![TwitchUser {
        id: "1".to_string(),
        login: "foo".to_string(),
        display_name: "Foo".to_string(),
    }];
    assert_eq!(missing_logins(&requested, &found), vec!["bar".to_string()]);
    assert_eq!(missing_logins(&requested, &Vec::new()), requested);
}

#[test]
fn api_errors_follow_the_status_taxonomy() {
    assert_eq!(map_api_error(401, String::new()), ApiError::Unauthorized);
    assert_eq!(map_api_error(400, String::new()), ApiError::InvalidClientId);
    assert_eq!(map_api_error(403, String::new()), ApiError::InvalidClientSecret);
    assert_eq!(map_api_error(429, String::new()), ApiError::RateLimited);
    assert_eq!(
        map_api_error(500, "boom".to_string()),
        ApiError::UnexpectedAuthResponse { status: 500, body: "boom".to_string() }
    );
}

#[test]
fn the_single_login_lookup_keeps_the_first_answer() {
    let users = vec![
        TwitchUser { id: "1".to_string(), login: "a".to_string(), display_name: "A".to_string() },
        TwitchUser { id: "2".to_string(), login: "b".to_string(), display_name: "B".to_string() },
    ];
    let first = pick_first_user(users).unwrap();
    assert_eq!(first.id, "1");
    assert!(pick_first_user(Vec::new()).is_none());
}
