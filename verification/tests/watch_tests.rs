use ttv::watch::{
    aggregate_outcomes, ensure_dependencies, is_valid_login, launch_args, normalize_inputs,
    parse_login, parse_twitch_url, stream_url, LaunchOutcome, LaunchReport, WatchError,
};

fn strings(items: &[&str]) -> Vec<String> {
    items.iter().map(|s| s.to_string()).collect()
}

#[test]
fn mixed_forms_of_one_channel_collapse_to_one_target() {
    let targets = normalize_inputs(&strings(&["https://twitch.tv/Foo", "foo", "FOO"])).unwrap();
    assert_eq!(targets, vec!["foo".to_string()]);
}

#[test]
fn wrong_host_fails_the_whole_batch() {
    match normalize_inputs(&strings(&["http://example.com/foo"])) {
        Err(WatchError::InvalidInput { original }) => {
            assert_eq!(original, "http://example.com/foo");
        }
        other => panic!("expected an invalid input, got {:?}", other),
    }
}

#[test]
fn first_bad_input_is_reported_before_any_launch() {
    match normalize_inputs(&strings(&["good", "bad input!", "also bad!"])) {
        Err(WatchError::InvalidInput { original }) => assert_eq!(original, "bad input!"),
        other => panic!("expected an invalid input, got {:?}", other),
    }
}

#[test]
fn empty_batch_has_no_valid_targets() {
    assert!(matches!(normalize_inputs(&strings(&[])), Err(WatchError::NoValidTargets)));
}

#[test]
fn targets_keep_first_seen_order() {
    let targets = normalize_inputs(&strings(&["b", "a", "B", "https://www.twitch.tv/A"])).unwrap();
    assert_eq!(targets, strings(&["b", "a"]));
}

#[test]
fn url_forms_accepted_and_rejected() {
    assert_eq!(parse_twitch_url("https://www.twitch.tv/abc").as_deref(), Some("abc"));
    assert_eq!(parse_twitch_url("http://twitch.tv/a_1").as_deref(), Some("a_1"));
    assert_eq!(parse_twitch_url("https://twitch.tv/AbC").as_deref(), Some("AbC"));
    assert_eq!(parse_twitch_url("https://twitch.tv/abc/"), None);
    assert_eq!(parse_twitch_url("https://twitch.tv/abc?x=1"), None);
    assert_eq!(parse_twitch_url("https://twitch.tv/abc#top"), None);
    assert_eq!(parse_twitch_url("https://twitch.tv/"), None);
    assert_eq!(parse_twitch_url("https://example.com/abc"), None);
    assert_eq!(parse_twitch_url("twitch.tv/abc"), None);
    assert_eq!(parse_twitch_url("ftp://twitch.tv/abc"), None);
}

#[test]
fn bare_logins_accepted_and_rejected() {
    assert!(is_valid_login("abc_123"));
    assert!(is_valid_login("ABC"));
    assert!(!is_valid_login(""));
    assert!(!is_valid_login("a b"));
    assert!(!is_valid_login("a/b"));
    assert!(!is_valid_login("héllo"));
}

#[test]
fn parse_login_takes_either_form() {
    assert_eq!(parse_login("FOO").unwrap(), "FOO");
    assert_eq!(parse_login("https://twitch.tv/bar").unwrap(), "bar");
    assert!(matches!(
        parse_login("not a login"),
        Err(WatchError::InvalidInput { .. })
    ));
}

#[test]
fn derived_url_and_launcher_template_are_fixed() {
    assert_eq!(stream_url("foo"), "https://www.twitch.tv/foo");
    let args = launch_args("https://www.twitch.tv/foo");
    assert_eq!(
        args,
        vec![
            "--twitch-disable-ads".to_string(),
            "--player".to_string(),
            "mpv".to_string(),
            "-a".to_string(),
            "--cache=yes --cache-secs=600".to_string(),
            "https://www.twitch.tv/foo".to_string(),
            "best".to_string(),
        ]
    );
}

#[test]
fn preflight_names_the_missing_dependency() {
    assert!(ensure_dependencies(true, true).is_ok());
    match ensure_dependencies(false, true) {
        Err(WatchError::DependencyMissing { name }) => assert_eq!(name, "streamlink"),
        other => panic!("expected a missing dependency, got {:?}", other),
    }
    match ensure_dependencies(true, false) {
        Err(WatchError::DependencyMissing { name }) => assert_eq!(name, "mpv"),
        other => panic!("expected a missing dependency, got {:?}", other),
    }
}

#[test]
fn one_failure_among_three_is_aggregated_after_all_finish() {
    let reports = vec![
        LaunchReport { target: "a".to_string(), outcome: LaunchOutcome::Success },
        LaunchReport { target: "b".to_string(), outcome: LaunchOutcome::NonZeroExit { code: 1 } },
        LaunchReport { target: "c".to_string(), outcome: LaunchOutcome::Success },
    ];
    match aggregate_outcomes(&reports) {
        Err(WatchError::PartialFailure { failures, succeeded }) => {
            assert_eq!(succeeded, 2);
            assert_eq!(failures.len(), 1);
            assert_eq!(failures[0].target, "b");
            assert_eq!(failures[0].outcome, LaunchOutcome::NonZeroExit { code: 1 });
        }
        other => panic!("expected a partial failure, got {:?}", other),
    }
}

#[test]
fn failures_are_listed_in_target_order() {
    let reports = vec![
        LaunchReport {
            target: "x".to_string(),
            outcome: LaunchOutcome::LaunchError { message: "gone".to_string() },
        },
        LaunchReport { target: "y".to_string(), outcome: LaunchOutcome::Success },
        LaunchReport { target: "z".to_string(), outcome: LaunchOutcome::NonZeroExit { code: 3 } },
    ];
    match aggregate_outcomes(&reports) {
        Err(WatchError::PartialFailure { failures, succeeded }) => {
            assert_eq!(succeeded, 1);
            let names: Vec<&str> = failures.iter().map(|f| f.target.as_str()).collect();
            assert_eq!(names, vec!["x", "z"]);
        }
        other => panic!("expected a partial failure, got {:?}", other),
    }
}

#[test]
fn all_successes_aggregate_to_the_target_count() {
    let reports = vec![
        LaunchReport { target: "a".to_string(), outcome: LaunchOutcome::Success },
        LaunchReport { target: "b".to_string(), outcome: LaunchOutcome::Success },
    ];
    assert_eq!(aggregate_outcomes(&reports), Ok(2));
    assert_eq!(aggregate_outcomes(&Vec::new()), Ok(0));
}
