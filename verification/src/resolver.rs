//! Remote status resolver: how lookups against the upstream API are
//! batched, which URLs they use, how a failed answer is classified, and
//! how requested logins are diffed against what came back.

use vstd::prelude::*;

use crate::text;
use crate::urlenc;

verus! {

/// One resolved channel identity.
#[derive(Debug, Clone)]
pub struct TwitchUser {
    pub id: String,
    pub login: String,
    pub display_name: String,
}

/// One live stream as the liveness endpoint reports it.
#[derive(Debug, Clone)]
pub struct TwitchStream {
    pub user_id: String,
    pub user_login: String,
    pub user_name: String,
    pub game_name: String,
}

/// One recorded video as the archive endpoint reports it.
#[derive(Debug, Clone)]
pub struct TwitchVod {
    pub id: String,
    pub title: String,
    pub duration: String,
    pub created_at: String,
}

/// Failures of an API lookup, mirroring the refresh exchange's classes
/// plus the unauthorized answer that signals a stale or revoked token.
#[derive(Debug, Clone, PartialEq, Eq)]
pub enum ApiError {
    Unauthorized,
    InvalidClientId,
    InvalidClientSecret,
    RateLimited,
    UnexpectedAuthResponse { status: u16, body: String },
    TransportError { message: String },
}

/// The upstream API accepts at most this many items per request.
pub const BATCH_LIMIT: usize = 100;

/// The end of the batch that starts at `start` in a list of `n` items.
pub open spec fn batch_end(start: int, n: int) -> int {
    if start + BATCH_LIMIT as int <= n {
        start + BATCH_LIMIT as int
    } else {
        n
    }
}

/// Splits the items into consecutive groups of at most the upstream
/// limit: one request is issued per group, so `ceil(n / limit)` requests
/// in all, and the groups concatenate back to the input in order.
pub fn plan_batches(items: &Vec<String>) -> (r: Vec<Vec<String>>)
    ensures
        r@.len() == (items@.len() + BATCH_LIMIT - 1) as int / (BATCH_LIMIT as int),
        forall|k: int|
            0 <= k < r@.len() ==> #[trigger] r.deep_view()[k] == items.deep_view().subrange(
                k * (BATCH_LIMIT as int),
                batch_end(k * (BATCH_LIMIT as int), items@.len() as int),
            ),
        forall|k: int| 0 <= k < r@.len() ==> 0 < #[trigger] r.deep_view()[k].len() <= BATCH_LIMIT,
{
    let ghost dv = items.deep_view();
    let n = items.len();
    let mut r: Vec<Vec<String>> = Vec::new();
    let mut start: usize = 0;
    while start < n
        invariant
            0 <= start <= n,
            n == items@.len(),
            dv == items.deep_view(),
            start < n ==> r@.len() * (BATCH_LIMIT as int) == start as int,
            start == n ==> (n == 0 && r@.len() == 0) || (n > 0 && (r@.len() - 1) * (BATCH_LIMIT
                as int) < n <= r@.len() * (BATCH_LIMIT as int)),
            forall|k: int|
                0 <= k < r@.len() ==> #[trigger] r.deep_view()[k] == dv.subrange(
                    k * (BATCH_LIMIT as int),
                    batch_end(k * (BATCH_LIMIT as int), n as int),
                ),
        decreases n - start,
    {
        let end = if n - start > BATCH_LIMIT {
            start + BATCH_LIMIT
        } else {
            n
        };
        let mut batch: Vec<String> = Vec::new();
        let mut idx: usize = start;
        while idx < end
            invariant
                start <= idx <= end <= n,
                n == items@.len(),
                dv == items.deep_view(),
                batch.deep_view() == dv.subrange(start as int, idx as int),
            decreases end - idx,
        {
            proof {
                assert(dv.subrange(start as int, idx + 1) =~= dv.subrange(
                    start as int,
                    idx as int,
                ).push(dv[idx as int]));
                assert(dv[idx as int] == items@[idx as int]@);
            }
            batch.push(items[idx].clone());
            idx = idx + 1;
        }
        let ghost old_len = r@.len() as int;
        let ghost prev = r@;
        let ghost prev_dv = r.deep_view();
        r.push(batch);
        proof {
            assert forall|k: int| 0 <= k < old_len implies #[trigger] r.deep_view()[k]
                == prev_dv[k] by {
                assert(r@[k] == prev[k]);
                assert(prev_dv[k] == prev[k].deep_view());
            }
            assert(r.deep_view()[old_len] == dv.subrange(start as int, end as int));
            assert(old_len * (BATCH_LIMIT as int) == start as int);
            assert((old_len + 1) * (BATCH_LIMIT as int) == start as int + BATCH_LIMIT as int);
            assert(batch_end(old_len * (BATCH_LIMIT as int), n as int) == end as int);
        }
        start = end;
    }
    proof {
        lemma_batch_count(r@.len() as int, n as int);
        assert forall|k: int| 0 <= k < r@.len() implies 0 < #[trigger] r.deep_view()[k].len()
            <= BATCH_LIMIT by {
            assert(k * (BATCH_LIMIT as int) <= (r@.len() - 1) * (BATCH_LIMIT as int))
                by (nonlinear_arith)
                requires
                    k <= r@.len() - 1,
            ;
            assert(r.deep_view()[k] == dv.subrange(
                k * (BATCH_LIMIT as int),
                batch_end(k * (BATCH_LIMIT as int), n as int),
            ));
        }
    }
    r
}

proof fn lemma_batch_count(len: int, n: int)
    requires
        n >= 0,
        len >= 0,
        n == 0 ==> len == 0,
        n > 0 ==> (len - 1) * (BATCH_LIMIT as int) < n <= len * (BATCH_LIMIT as int),
    ensures
        len == (n + BATCH_LIMIT - 1) as int / (BATCH_LIMIT as int),
{
    if n > 0 {
        assert(len == (n + 99) / 100) by (nonlinear_arith)
            requires
                n > 0,
                len >= 1,
                (len - 1) * 100 < n <= len * 100,
        ;
    }
}

/// The fixed endpoints of the upstream API.
fn api_base(path: &str) -> (r: String)
    ensures
        r@ == "https://api.twitch.tv/helix/"@ + path@,
{
    String::from_str("https://api.twitch.tv/helix/").concat(path)
}

/// The identity-endpoint URL for one batch of logins: one repeated
/// `login` query pair per requested name.
pub fn build_users_url(logins: &Vec<String>) -> (r: String)
    ensures
        r@ == "https://api.twitch.tv/helix/users"@ + urlenc::query_string(
            "login"@,
            logins.deep_view(),
        ),
{
    let mut url = api_base("users");
    proof {
        reveal_strlit("https://api.twitch.tv/helix/");
        reveal_strlit("users");
        reveal_strlit("https://api.twitch.tv/helix/users");
        assert(url@ =~= "https://api.twitch.tv/helix/users"@);
    }
    urlenc::append_query(&mut url, "login", logins);
    url
}

/// The liveness-endpoint URL for one batch of identity ids: one repeated
/// `user_id` query pair per id.
pub fn build_streams_url(ids: &Vec<String>) -> (r: String)
    ensures
        r@ == "https://api.twitch.tv/helix/streams"@ + urlenc::query_string(
            "user_id"@,
            ids.deep_view(),
        ),
{
    let mut url = api_base("streams");
    proof {
        reveal_strlit("https://api.twitch.tv/helix/");
        reveal_strlit("streams");
        reveal_strlit("https://api.twitch.tv/helix/streams");
        assert(url@ =~= "https://api.twitch.tv/helix/streams"@);
    }
    urlenc::append_query(&mut url, "user_id", ids);
    url
}

/// The archive-endpoint URL for one identity id.
pub fn build_vods_url(user_id: &str) -> (r: String)
    ensures
        r@ == "https://api.twitch.tv/helix/videos?user_id="@ + urlenc::percent_encoded(
            vstd::utf8::encode_utf8(user_id@),
        ) + "&type=archive"@,
{
    let mut url = api_base("videos?user_id=");
    proof {
        reveal_strlit("https://api.twitch.tv/helix/");
        reveal_strlit("videos?user_id=");
        reveal_strlit("https://api.twitch.tv/helix/videos?user_id=");
        assert(url@ =~= "https://api.twitch.tv/helix/videos?user_id="@);
    }
    let encoded = urlenc::percent_encode(user_id);
    url.append(encoded.as_str());
    url.append("&type=archive");
    url
}

/// Classifies a failed answer of the upstream API by its HTTP status.
pub fn map_api_error(status: u16, body: String) -> (r: ApiError)
    ensures
        status == 401 ==> r == ApiError::Unauthorized,
        status == 400 ==> r == ApiError::InvalidClientId,
        status == 403 ==> r == ApiError::InvalidClientSecret,
        status == 429 ==> r == ApiError::RateLimited,
        status != 401 && status != 400 && status != 403 && status != 429 ==> r == (
        ApiError::UnexpectedAuthResponse { status, body }),
{
    if status == 401 {
        ApiError::Unauthorized
    } else if status == 400 {
        ApiError::InvalidClientId
    } else if status == 403 {
        ApiError::InvalidClientSecret
    } else if status == 429 {
        ApiError::RateLimited
    } else {
        ApiError::UnexpectedAuthResponse { status, body }
    }
}

/// Some returned identity answers to `key` (its login, case-folded,
/// equals it).
pub open spec fn has_login(users: Seq<TwitchUser>, key: Seq<char>) -> bool {
    exists|j: int| 0 <= j < users.len() && text::lowered(#[trigger] users[j].login@) == key
}

/// The requested logins that no returned identity answers to, compared
/// case-insensitively, in request order: the caller reports these as
/// misses rather than failing.
pub open spec fn unmatched(requested: Seq<String>, users: Seq<TwitchUser>) -> Seq<String> {
    requested.filter(|s: String| !has_login(users, text::lowered(s@)))
}

fn any_login_matches(users: &Vec<TwitchUser>, key: &String) -> (r: bool)
    ensures
        r == has_login(users@, key@),
{
    let n = users.len();
    let mut i: usize = 0;
    while i < n
        invariant
            0 <= i <= n,
            n == users@.len(),
            forall|j: int| 0 <= j < i ==> text::lowered(#[trigger] users@[j].login@) != key@,
        decreases n - i,
    {
        let low = text::lower_str(users[i].login.as_str());
        if text::str_eq(low.as_str(), key.as_str()) {
            return true;
        }
        i = i + 1;
    }
    false
}

/// Diffs the requested logins against the identities that came back and
/// lists the misses in request order.
pub fn missing_logins(requested: &Vec<String>, found: &Vec<TwitchUser>) -> (r: Vec<String>)
    ensures
        r@ == unmatched(requested@, found@),
{
    let n = requested.len();
    let mut r: Vec<String> = Vec::new();
    proof {
        reveal(Seq::filter);
        assert(unmatched(requested@.take(0int), found@) =~= Seq::empty());
    }
    let mut i: usize = 0;
    while i < n
        invariant
            0 <= i <= n,
            n == requested@.len(),
            r@ == unmatched(requested@.take(i as int), found@),
        decreases n - i,
    {
        let key = text::lower_str(requested[i].as_str());
        proof {
            reveal(Seq::filter);
            assert(requested@.take(i + 1).drop_last() =~= requested@.take(i as int));
            assert(requested@.take(i + 1).last() == requested@[i as int]);
        }
        if !any_login_matches(found, &key) {
            r.push(requested[i].clone());
        }
        i = i + 1;
    }
    proof {
        assert(requested@.take(n as int) =~= requested@);
    }
    r
}

/// The single-login lookup keeps the first identity that came back, and
/// has none exactly when the service knew none.
pub fn pick_first_user(users: Vec<TwitchUser>) -> (r: Option<TwitchUser>)
    ensures
        match r {
            Some(u) => users@.len() > 0 && u == users@[0],
            None => users@.len() == 0,
        },
{
    let mut users = users;
    if users.len() == 0 {
        None
    } else {
        Some(users.remove(0))
    }
}

} // verus!
