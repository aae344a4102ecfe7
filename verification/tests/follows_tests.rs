use ttv::follows::FollowStore;
use ttv::resolver::TwitchUser;

fn user(id: &str, login: &str, display: &str) -> TwitchUser {
    TwitchUser {
        id: id.to_string(),
        login: login.to_string(),
        display_name: display.to_string(),
    }
}

#[test]
fn delete_by_login_is_case_insensitive_and_counts() {
    let mut store = FollowStore::new();
    store.upsert_streamer(&user("1", "foo", "Foo"));
    assert_eq!(store.delete_streamer_by_login("Foo"), 1);
    assert_eq!(store.delete_streamer_by_login("Foo"), 0);
    assert_eq!(store.count(), 0);
}

#[test]
fn upsert_with_a_known_id_updates_in_place() {
    let mut store = FollowStore::new();
    store.upsert_streamer(&user("1", "foo", "Foo"));
    store.upsert_streamer(&user("1", "foobar", "FooBar"));
    assert_eq!(store.count(), 1);
    let rows = store.list_streamers();
    assert_eq!(rows[0].id, "1");
    assert_eq!(rows[0].name, "foobar");
    assert_eq!(rows[0].display_name, "FooBar");
}

#[test]
fn listing_is_sorted_by_login() {
    let mut store = FollowStore::new();
    store.upsert_streamer(&user("1", "zed", "Zed"));
    store.upsert_streamer(&user("2", "abc", "Abc"));
    store.upsert_streamer(&user("3", "mid", "Mid"));
    let rows = store.list_streamers();
    let names: Vec<&str> = rows.iter().map(|r| r.name.as_str()).collect();
    assert_eq!(names, vec!["abc", "mid", "zed"]);
}

#[test]
fn unfollow_skips_repeats_and_reports_misses() {
    let mut store = FollowStore::new();
    store.upsert_streamer(&user("1", "foo", "Foo"));
    store.upsert_streamer(&user("2", "bar", "Bar"));
    let logins = vec!["Foo".to_string(), "foo".to_string(), "baz".to_string()];
    let (removed, missing) = store.unfollow_many(&logins);
    assert_eq!(removed, 1);
    assert_eq!(missing, vec!["baz".to_string()]);
    let rows = store.list_streamers();
    assert_eq!(rows.len(), 1);
    assert_eq!(rows[0].name, "bar");
}

#[test]
fn unfollow_of_everything_empties_the_store() {
    let mut store = FollowStore::new();
    store.upsert_streamer(&user("1", "foo", "Foo"));
    store.upsert_streamer(&user("2", "bar", "Bar"));
    let (removed, missing) = store.unfollow_many(&vec!["FOO".to_string(), "BAR".to_string()]);
    assert_eq!(removed, 2);
    assert!(missing.is_empty());
    assert_eq!(store.count(), 0);
}
