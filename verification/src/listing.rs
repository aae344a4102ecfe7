//! The list command's verified half: which followed streamers are shown
//! for each status filter, what each table row holds, and the column
//! geometry of the rendered table. Fetching and coloring stay in the
//! surrounding application.

use vstd::prelude::*;

use crate::follows::DbStreamer;
use crate::resolver::TwitchStream;

verus! {

/// The status filter of the list command.
#[derive(Debug, Clone, PartialEq, Eq)]
pub enum ListStatus {
    Online,
    Offline,
    All,
}

/// Arguments of the list command.
#[derive(Debug, Clone)]
pub struct ListArgs {
    pub status: ListStatus,
}

/// One row of the rendered table.
#[derive(Debug, Clone)]
pub struct Row {
    pub login: String,
    pub display_name: String,
    pub game_name: String,
    pub status: Option<String>,
}

impl Row {
    /// A row for a live streamer in a filtered listing: no status column.
    pub fn online(streamer: &DbStreamer, stream: &TwitchStream) -> (r: Row)
        ensures
            r.login == streamer.name,
            r.display_name == streamer.display_name,
            r.game_name == stream.game_name,
            r.status is None,
    {
        Row {
            login: streamer.name.clone(),
            display_name: streamer.display_name.clone(),
            game_name: stream.game_name.clone(),
            status: None,
        }
    }

    /// A row for an offline streamer in a filtered listing: no game, no
    /// status column.
    pub fn offline(streamer: &DbStreamer) -> (r: Row)
        ensures
            r.login == streamer.name,
            r.display_name == streamer.display_name,
            r.game_name@ == Seq::<char>::empty(),
            r.status is None,
    {
        Row {
            login: streamer.name.clone(),
            display_name: streamer.display_name.clone(),
            game_name: String::new(),
            status: None,
        }
    }

    /// A row for a live streamer in the full listing, status shown.
    pub fn online_with_status(streamer: &DbStreamer, stream: &TwitchStream) -> (r: Row)
        ensures
            r.login == streamer.name,
            r.display_name == streamer.display_name,
            r.game_name == stream.game_name,
            r.status matches Some(s) && s@ == "online"@,
    {
        Row {
            login: streamer.name.clone(),
            display_name: streamer.display_name.clone(),
            game_name: stream.game_name.clone(),
            status: Some(String::from_str("online")),
        }
    }

    /// A row for an offline streamer in the full listing, status shown.
    pub fn offline_with_status(streamer: &DbStreamer) -> (r: Row)
        ensures
            r.login == streamer.name,
            r.display_name == streamer.display_name,
            r.game_name@ == Seq::<char>::empty(),
            r.status matches Some(s) && s@ == "offline"@,
    {
        Row {
            login: streamer.name.clone(),
            display_name: streamer.display_name.clone(),
            game_name: String::new(),
            status: Some(String::from_str("offline")),
        }
    }
}

/// The first returned stream that belongs to this streamer id.
pub open spec fn find_stream(streams: Seq<TwitchStream>, id: Seq<char>) -> Option<int>
    decreases streams.len(),
{
    if streams.len() == 0 {
        None
    } else if streams.first().user_id@ == id {
        Some(0)
    } else {
        match find_stream(streams.drop_first(), id) {
            Some(i) => Some(i + 1),
            None => None,
        }
    }
}

/// Whether a streamer appears in the listing under this filter: live
/// streamers under the online filter, the others under the offline
/// filter, everyone under the full one.
pub open spec fn included(streamer: DbStreamer, streams: Seq<TwitchStream>, status: ListStatus) -> bool {
    match status {
        ListStatus::Online => find_stream(streams, streamer.id@) is Some,
        ListStatus::Offline => find_stream(streams, streamer.id@) is None,
        ListStatus::All => true,
    }
}

/// The streamers the listing shows, in stored order.
pub open spec fn selected(
    streamers: Seq<DbStreamer>,
    streams: Seq<TwitchStream>,
    status: ListStatus,
) -> Seq<DbStreamer>
    decreases streamers.len(),
{
    if streamers.len() == 0 {
        Seq::empty()
    } else {
        let prev = selected(streamers.drop_last(), streams, status);
        if included(streamers.last(), streams, status) {
            prev.push(streamers.last())
        } else {
            prev
        }
    }
}

/// What the row of one shown streamer must hold: their login and display
/// name; the game of their live stream, or blank when offline; and, only
/// in the full listing, the word for their state.
pub open spec fn row_matches(
    row: Row,
    streamer: DbStreamer,
    streams: Seq<TwitchStream>,
    status: ListStatus,
) -> bool {
    &&& row.login@ == streamer.name@
    &&& row.display_name@ == streamer.display_name@
    &&& match find_stream(streams, streamer.id@) {
        Some(k) => {
            &&& row.game_name@ == streams[k].game_name@
            &&& match status {
                ListStatus::All => row.status matches Some(s) && s@ == "online"@,
                _ => row.status is None,
            }
        },
        None => {
            &&& row.game_name@ == Seq::<char>::empty()
            &&& match status {
                ListStatus::All => row.status matches Some(s) && s@ == "offline"@,
                _ => row.status is None,
            }
        },
    }
}

fn find_stream_exec(streams: &Vec<TwitchStream>, id: &String) -> (r: Option<usize>)
    ensures
        match r {
            Some(k) => k < streams@.len() && find_stream(streams@, id@) == Some(k as int),
            None => find_stream(streams@, id@) is None,
        },
{
    let n = streams.len();
    let mut i: usize = 0;
    while i < n
        invariant
            0 <= i <= n,
            n == streams@.len(),
            forall|j: int| 0 <= j < i ==> (#[trigger] streams@[j].user_id@) != id@,
        decreases n - i,
    {
        if crate::text::str_eq(streams[i].user_id.as_str(), id.as_str()) {
            proof {
                lemma_find_stream_at(streams@, i as int);
            }
            return Some(i);
        }
        i = i + 1;
    }
    proof {
        lemma_find_stream_none(streams@, id@);
    }
    None
}

proof fn lemma_find_stream_at(streams: Seq<TwitchStream>, i: int)
    requires
        0 <= i < streams.len(),
        forall|j: int| 0 <= j < i ==> (#[trigger] streams[j].user_id@) != streams[i].user_id@,
    ensures
        find_stream(streams, streams[i].user_id@) == Some(i),
    decreases i,
{
    if i > 0 {
        assert(forall|j: int|
            0 <= j < streams.drop_first().len() ==> streams.drop_first()[j] == #[trigger] streams[
                j + 1
            ]);
        lemma_find_stream_at(streams.drop_first(), i - 1);
    }
}

proof fn lemma_find_stream_none(streams: Seq<TwitchStream>, id: Seq<char>)
    requires
        forall|j: int| 0 <= j < streams.len() ==> (#[trigger] streams[j].user_id@) != id,
    ensures
        find_stream(streams, id) is None,
    decreases streams.len(),
{
    if streams.len() > 0 {
        assert(forall|j: int|
            0 <= j < streams.drop_first().len() ==> streams.drop_first()[j] == #[trigger] streams[
                j + 1
            ]);
        lemma_find_stream_none(streams.drop_first(), id);
    }
}

/// Builds the table rows: one row per streamer the filter admits, in
/// stored order, each holding what `row_matches` prescribes.
pub fn build_rows(
    streamers: &Vec<DbStreamer>,
    streams: &Vec<TwitchStream>,
    status: &ListStatus,
) -> (r: Vec<Row>)
    ensures
        r@.len() == selected(streamers@, streams@, *status).len(),
        forall|k: int|
            0 <= k < r@.len() ==> row_matches(
                #[trigger] r@[k],
                selected(streamers@, streams@, *status)[k],
                streams@,
                *status,
            ),
{
    let n = streamers.len();
    let mut r: Vec<Row> = Vec::new();
    proof {
        assert(streamers@.take(0int) =~= Seq::<DbStreamer>::empty());
    }
    let mut i: usize = 0;
    while i < n
        invariant
            0 <= i <= n,
            n == streamers@.len(),
            r@.len() == selected(streamers@.take(i as int), streams@, *status).len(),
            forall|k: int|
                0 <= k < r@.len() ==> row_matches(
                    #[trigger] r@[k],
                    selected(streamers@.take(i as int), streams@, *status)[k],
                    streams@,
                    *status,
                ),
        decreases n - i,
    {
        let streamer = &streamers[i];
        let here = find_stream_exec(streams, &streamer.id);
        proof {
            assert(streamers@.take(i + 1).drop_last() =~= streamers@.take(i as int));
            assert(streamers@.take(i + 1).last() == streamers@[i as int]);
        }
        match status {
            ListStatus::Online => {
                if let Some(k) = here {
                    r.push(Row::online(streamer, &streams[k]));
                }
            },
            ListStatus::Offline => {
                if here.is_none() {
                    r.push(Row::offline(streamer));
                }
            },
            ListStatus::All => {
                match here {
                    Some(k) => r.push(Row::online_with_status(streamer, &streams[k])),
                    None => r.push(Row::offline_with_status(streamer)),
                }
            },
        }
        i = i + 1;
    }
    proof {
        assert(streamers@.take(n as int) =~= streamers@);
    }
    r
}

/// A run of spaces.
pub open spec fn spaces(n: int) -> Seq<char>
    decreases n,
{
    if n <= 0 {
        Seq::empty()
    } else {
        spaces(n - 1).push(' ')
    }
}

/// `s` padded with spaces on the right to `width` columns; a longer `s`
/// is kept whole.
pub fn pad_right(s: &str, width: usize) -> (r: String)
    ensures
        r@ == s@ + spaces(width - s@.len()),
{
    let mut r = String::from_str(s);
    let n = s.unicode_len();
    let mut i: usize = n;
    proof {
        assert(r@ =~= s@ + spaces(0));
    }
    while i < width
        invariant
            n <= i,
            n == s@.len(),
            i <= width || i == n,
            r@ == s@ + spaces(i - n),
        decreases width - i,
    {
        crate::text::push_char(&mut r, ' ');
        proof {
            assert(s@ + spaces(i + 1 - n) =~= (s@ + spaces(i - n)).push(' '));
        }
        i = i + 1;
    }
    proof {
        if n >= width {
            assert(r@ =~= s@ + spaces(width - s@.len()));
        }
    }
    r
}

/// The width of one column: the longest cell, but never narrower than
/// the column's header.
pub open spec fn max_len(lens: Seq<int>, header: int) -> int
    decreases lens.len(),
{
    if lens.len() == 0 {
        header
    } else {
        let prev = max_len(lens.drop_last(), header);
        if lens.last() > prev {
            lens.last()
        } else {
            prev
        }
    }
}

/// Lengths as mathematical integers.
pub open spec fn as_ints(lens: Seq<usize>) -> Seq<int> {
    lens.map_values(|v: usize| v as int)
}

/// The login cells of the rows, as lengths.
pub open spec fn login_lens(rows: Seq<Row>) -> Seq<int> {
    rows.map_values(|r: Row| r.login@.len() as int)
}

/// The display-name cells of the rows, as lengths.
pub open spec fn display_lens(rows: Seq<Row>) -> Seq<int> {
    rows.map_values(|r: Row| r.display_name@.len() as int)
}

/// The game cells of the rows, as lengths.
pub open spec fn game_lens(rows: Seq<Row>) -> Seq<int> {
    rows.map_values(|r: Row| r.game_name@.len() as int)
}

/// The status cells of the rows, as lengths; an absent status counts as
/// empty.
pub open spec fn status_lens(rows: Seq<Row>) -> Seq<int> {
    rows.map_values(
        |r: Row|
            match r.status {
                Some(s) => s@.len() as int,
                None => 0,
            },
    )
}

/// The table's column widths.
#[derive(Debug, Clone, PartialEq, Eq)]
pub struct ColumnWidths {
    pub login: usize,
    pub display_name: usize,
    pub game: usize,
    pub status: usize,
}

fn max_len_exec(lens: &Vec<usize>, header: usize) -> (r: usize)
    ensures
        r == max_len(as_ints(lens@), header as int),
{
    let ghost glens = as_ints(lens@);
    let n = lens.len();
    let mut r = header;
    proof {
        assert(glens.take(0int) =~= Seq::<int>::empty());
        assert(glens.take(0int).map_values(|v: int| v) =~= glens.take(0int));
    }
    let mut i: usize = 0;
    while i < n
        invariant
            0 <= i <= n,
            n == lens@.len(),
            glens == as_ints(lens@),
            r as int == max_len(glens.take(i as int), header as int),
        decreases n - i,
    {
        proof {
            assert(glens.take(i + 1).drop_last() =~= glens.take(i as int));
            assert(glens.take(i + 1).last() == glens[i as int]);
            assert(glens[i as int] == lens@[i as int] as int);
        }
        if lens[i] > r {
            r = lens[i];
        }
        i = i + 1;
    }
    proof {
        assert(glens.take(n as int) =~= glens);
    }
    r
}

/// The column widths for these rows: each column as wide as its longest
/// cell, never narrower than its header, and the status column only in
/// the full listing.
pub fn column_widths(rows: &Vec<Row>, include_status: bool) -> (w: ColumnWidths)
    ensures
        w.login as int == max_len(login_lens(rows@), 5),
        w.display_name as int == max_len(display_lens(rows@), 12),
        w.game as int == max_len(game_lens(rows@), 4),
        include_status ==> w.status as int == max_len(status_lens(rows@), 6),
        !include_status ==> w.status == 0,
{
    let n = rows.len();
    let mut logins: Vec<usize> = Vec::new();
    let mut displays: Vec<usize> = Vec::new();
    let mut games: Vec<usize> = Vec::new();
    let mut statuses: Vec<usize> = Vec::new();
    let mut i: usize = 0;
    while i < n
        invariant
            0 <= i <= n,
            n == rows@.len(),
            as_ints(logins@) == login_lens(rows@.take(i as int)),
            as_ints(displays@) == display_lens(rows@.take(i as int)),
            as_ints(games@) == game_lens(rows@.take(i as int)),
            as_ints(statuses@) == status_lens(rows@.take(i as int)),
        decreases n - i,
    {
        logins.push(rows[i].login.as_str().unicode_len());
        displays.push(rows[i].display_name.as_str().unicode_len());
        games.push(rows[i].game_name.as_str().unicode_len());
        let sl = match &rows[i].status {
            Some(s) => s.as_str().unicode_len(),
            None => 0,
        };
        statuses.push(sl);
        proof {
            assert(login_lens(rows@.take(i + 1)) =~= login_lens(rows@.take(i as int)).push(
                rows@[i as int].login@.len() as int,
            ));
            assert(display_lens(rows@.take(i + 1)) =~= display_lens(rows@.take(i as int)).push(
                rows@[i as int].display_name@.len() as int,
            ));
            assert(game_lens(rows@.take(i + 1)) =~= game_lens(rows@.take(i as int)).push(
                rows@[i as int].game_name@.len() as int,
            ));
            assert(status_lens(rows@.take(i + 1)) =~= status_lens(rows@.take(i as int)).push(
                match rows@[i as int].status {
                    Some(s) => s@.len() as int,
                    None => 0,
                },
            ));
            assert(as_ints(logins@) =~= login_lens(rows@.take(i + 1)));
            assert(as_ints(displays@) =~= display_lens(rows@.take(i + 1)));
            assert(as_ints(games@) =~= game_lens(rows@.take(i + 1)));
            assert(as_ints(statuses@) =~= status_lens(rows@.take(i + 1)));
        }
        i = i + 1;
    }
    proof {
        assert(rows@.take(n as int) =~= rows@);
    }
    let status_w = if include_status {
        max_len_exec(&statuses, 6)
    } else {
        0
    };
    ColumnWidths {
        login: max_len_exec(&logins, 5),
        display_name: max_len_exec(&displays, 12),
        game: max_len_exec(&games, 4),
        status: status_w,
    }
}

} // verus!
