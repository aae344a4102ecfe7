use ttv::follows::DbStreamer;
use ttv::listing::{build_rows, column_widths, pad_right, ListStatus, Row};
use ttv::resolver::TwitchStream;

fn streamer(id: &str, name: &str, display: &str) -> DbStreamer {
    DbStreamer {
        id: id.to_string(),
        name: name.to_string(),
        display_name: display.to_string(),
    }
}

fn stream(user_id: &str, game: &str) -> TwitchStream {
    TwitchStream {
        user_id: user_id.to_string(),
        user_login: String::new(),
        user_name: String::new(),
        game_name: game.to_string(),
    }
}

#[test]
fn row_constructors_fill_the_expected_cells() {
    let s = streamer("1", "foo", "Foo");
    let live = stream("1", "Chess");
    let r = Row::online(&s, &live);
    assert_eq!((r.login.as_str(), r.game_name.as_str(), r.status), ("foo", "Chess", None));
    let r = Row::offline(&s);
    assert_eq!((r.login.as_str(), r.game_name.as_str(), r.status), ("foo", "", None));
    let r = Row::online_with_status(&s, &live);
    assert_eq!(r.status.as_deref(), Some("online"));
    let r = Row::offline_with_status(&s);
    assert_eq!((r.game_name.as_str(), r.status.as_deref()), ("", Some("offline")));
}

#[test]
fn the_online_filter_keeps_only_live_streamers() {
    let streamers = vec![streamer("1", "foo", "Foo"), streamer("2", "bar", "Bar")];
    let streams = vec![stream("1", "Chess")];
    let rows = build_rows(&streamers, &streams, &ListStatus::Online);
    assert_eq!(rows.len(), 1);
    assert_eq!(rows[0].login, "foo");
    assert_eq!(rows[0].game_name, "Chess");
}

#[test]
fn the_offline_filter_keeps_the_rest() {
    let streamers = vec![streamer("1", "foo", "Foo"), streamer("2", "bar", "Bar")];
    let streams = vec![stream("1", "Chess")];
    let rows = build_rows(&streamers, &streams, &ListStatus::Offline);
    assert_eq!(rows.len(), 1);
    assert_eq!(rows[0].login, "bar");
    assert_eq!(rows[0].game_name, "");
}

#[test]
fn the_full_listing_marks_each_state() {
    let streamers = vec![streamer("1", "foo", "Foo"), streamer("2", "bar", "Bar")];
    let streams = vec![stream("1", "Chess")];
    let rows = build_rows(&streamers, &streams, &ListStatus::All);
    assert_eq!(rows.len(), 2);
    assert_eq!(rows[0].status.as_deref(), Some("online"));
    assert_eq!(rows[1].status.as_deref(), Some("offline"));
}

#[test]
fn padding_fills_to_the_column_width() {
    assert_eq!(pad_right("ab", 5), "ab   ");
    assert_eq!(pad_right("abcdef", 3), "abcdef");
    assert_eq!(pad_right("", 2), "  ");
}

#[test]
fn columns_are_as_wide_as_their_longest_cell_or_header() {
    let rows = vec![
        Row {
            login: "a-rather-long-login".to_string(),
            display_name: "A".to_string(),
            game_name: "Go".to_string(),
            status: Some("online".to_string()),
        },
        Row {
            login: "b".to_string(),
            display_name: "B".to_string(),
            game_name: "Checkers".to_string(),
            status: None,
        },
    ];
    let w = column_widths(&rows, true);
    assert_eq!(w.login, 19);
    assert_eq!(w.display_name, 12);
    assert_eq!(w.game, 8);
    assert_eq!(w.status, 6);
    let w = column_widths(&rows, false);
    assert_eq!(w.status, 0);
}
