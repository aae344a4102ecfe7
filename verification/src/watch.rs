//! The watch orchestrator's verified half: turning raw user inputs into a
//! deduplicated, ordered list of targets, the fixed launcher argument
//! template, the pre-flight dependency decision, and the aggregation of
//! per-target launch outcomes into one result.

use vstd::prelude::*;

use crate::text;

verus! {

/// Arguments of the watch command: raw channel names or URLs.
#[derive(Debug, Clone)]
pub struct WatchArgs {
    pub streams: Vec<String>,
}

/// The terminal state of one launched player process.
#[derive(Debug, Clone, PartialEq, Eq)]
pub enum LaunchOutcome {
    Success,
    NonZeroExit { code: i32 },
    LaunchError { message: String },
}

/// One target together with how its process ended.
#[derive(Debug, Clone, PartialEq, Eq)]
pub struct LaunchReport {
    pub target: String,
    pub outcome: LaunchOutcome,
}

/// Failures of the watch command.
#[derive(Debug, Clone, PartialEq, Eq)]
pub enum WatchError {
    InvalidInput { original: String },
    NoValidTargets,
    DependencyMissing { name: String },
    PartialFailure { failures: Vec<LaunchReport>, succeeded: usize },
}

/// A character a channel login may consist of: an ASCII letter, digit or
/// underscore.
pub open spec fn is_login_char(c: char) -> bool {
    ||| 48 <= c as u32 <= 57
    ||| 65 <= c as u32 <= 90
    ||| 97 <= c as u32 <= 122
    ||| c == '_'
}

/// A well-formed bare login: non-empty, login characters only.
pub open spec fn valid_login(s: Seq<char>) -> bool {
    s.len() > 0 && forall|i: int| 0 <= i < s.len() ==> is_login_char(#[trigger] s[i])
}

fn is_login_char_exec(c: char) -> (r: bool)
    ensures
        r == is_login_char(c),
{
    let u = c as u32;
    (48 <= u && u <= 57) || (65 <= u && u <= 90) || (97 <= u && u <= 122) || c == '_'
}

/// Whether `login` is a well-formed bare channel login.
pub fn is_valid_login(login: &str) -> (r: bool)
    ensures
        r == valid_login(login@),
{
    let n = login.unicode_len();
    if n == 0 {
        return false;
    }
    let mut i: usize = 0;
    while i < n
        invariant
            0 <= i <= n,
            n == login@.len(),
            forall|j: int| 0 <= j < i ==> is_login_char(#[trigger] login@[j]),
        decreases n - i,
    {
        if !is_login_char_exec(login.get_char(i)) {
            return false;
        }
        i = i + 1;
    }
    true
}

/// The remainder of `s` after a recognized scheme, trying the secure
/// scheme first.
pub open spec fn after_scheme(s: Seq<char>) -> Option<Seq<char>> {
    if text::has_prefix(s, "https://"@) {
        Some(s.skip("https://"@.len() as int))
    } else if text::has_prefix(s, "http://"@) {
        Some(s.skip("http://"@.len() as int))
    } else {
        None
    }
}

/// `s` with an optional leading `www.` removed.
pub open spec fn after_www(s: Seq<char>) -> Seq<char> {
    if text::has_prefix(s, "www."@) {
        s.skip("www."@.len() as int)
    } else {
        s
    }
}

/// The login named by a channel URL: scheme, optional `www.`, the
/// service's canonical host, and a single well-formed path segment.
/// `None` for anything else.
pub open spec fn twitch_url_login(s: Seq<char>) -> Option<Seq<char>> {
    match after_scheme(s) {
        None => None,
        Some(rest) => {
            let host = after_www(rest);
            if text::has_prefix(host, "twitch.tv/"@) {
                let path = host.skip("twitch.tv/"@.len() as int);
                if valid_login(path) {
                    Some(path)
                } else {
                    None
                }
            } else {
                None
            }
        },
    }
}

/// Reads a channel URL and returns its login, or `None` when `s` is not a
/// well-formed channel URL.
pub fn parse_twitch_url(input: &str) -> (r: Option<String>)
    ensures
        match r {
            Some(l) => twitch_url_login(input@) == Some(l@),
            None => twitch_url_login(input@) is None,
        },
{
    let rest = match text::strip_prefix_str(input, "https://") {
        Some(t) => t,
        None => {
            match text::strip_prefix_str(input, "http://") {
                Some(t) => t,
                None => {
                    return None;
                },
            }
        },
    };
    let host = match text::strip_prefix_str(rest, "www.") {
        Some(t) => t,
        None => rest,
    };
    let path = match text::strip_prefix_str(host, "twitch.tv/") {
        Some(t) => t,
        None => {
            return None;
        },
    };
    if is_valid_login(path) {
        Some(path.to_owned())
    } else {
        None
    }
}

/// The login an arbitrary raw input stands for: the URL's path segment if
/// the input is a channel URL, the input itself if it is a bare login,
/// nothing otherwise.
pub open spec fn parsed_login(s: Seq<char>) -> Option<Seq<char>> {
    match twitch_url_login(s) {
        Some(l) => Some(l),
        None => if valid_login(s) {
            Some(s)
        } else {
            None
        },
    }
}

/// Reads one raw input as a channel URL or bare login; anything else is
/// an invalid input naming the offending string.
pub fn parse_login(input: &str) -> (r: Result<String, WatchError>)
    ensures
        match r {
            Ok(l) => parsed_login(input@) == Some(l@),
            Err(e) => parsed_login(input@) is None && (e matches WatchError::InvalidInput {
                original,
            } && original@ == input@),
        },
{
    match parse_twitch_url(input) {
        Some(login) => Ok(login),
        None => {
            if is_valid_login(input) {
                Ok(input.to_owned())
            } else {
                Err(WatchError::InvalidInput { original: input.to_owned() })
            }
        },
    }
}

/// Every raw input can be read as a URL or bare login.
pub open spec fn all_parse(inputs: Seq<Seq<char>>) -> bool {
    forall|i: int| 0 <= i < inputs.len() ==> parsed_login(#[trigger] inputs[i]) is Some
}

/// The index of the first raw input that cannot be read.
pub open spec fn first_unparsable(inputs: Seq<Seq<char>>) -> int
    decreases inputs.len(),
{
    if inputs.len() == 0 {
        0
    } else if parsed_login(inputs.first()) is None {
        0
    } else {
        1 + first_unparsable(inputs.drop_first())
    }
}

/// The normalized target list: each input's login, lowercased, first
/// occurrence kept, later case-insensitive repetitions dropped. Only
/// meaningful when every input parses.
pub open spec fn targets_of(inputs: Seq<Seq<char>>) -> Seq<Seq<char>>
    decreases inputs.len(),
{
    if inputs.len() == 0 {
        Seq::empty()
    } else {
        let prev = targets_of(inputs.drop_last());
        let key = text::lowered(parsed_login(inputs.last())->0);
        if prev.contains(key) {
            prev
        } else {
            prev.push(key)
        }
    }
}

fn contains_string(v: &Vec<String>, s: &String) -> (r: bool)
    ensures
        r == v.deep_view().contains(s@),
{
    let n = v.len();
    let mut i: usize = 0;
    while i < n
        invariant
            0 <= i <= n,
            n == v@.len(),
            forall|j: int| 0 <= j < i ==> v.deep_view()[j] != s@,
        decreases n - i,
    {
        if text::str_eq(v[i].as_str(), s.as_str()) {
            proof {
                assert(v.deep_view()[i as int] == s@);
            }
            return true;
        }
        proof {
            assert(v.deep_view()[i as int] == v@[i as int]@);
        }
        i = i + 1;
    }
    false
}

/// Normalizes the raw inputs into the ordered target list: every input
/// must read as a URL or bare login (else the whole batch fails on the
/// first offender), logins are lowercased and deduplicated
/// case-insensitively keeping first-seen order, and an empty input list
/// yields no targets at all.
pub fn normalize_inputs(inputs: &Vec<String>) -> (r: Result<Vec<String>, WatchError>)
    ensures
        match r {
            Ok(ts) => {
                &&& all_parse(inputs.deep_view())
                &&& inputs@.len() > 0
                &&& ts.deep_view() == targets_of(inputs.deep_view())
                &&& ts@.len() > 0
            },
            Err(e) => match e {
                WatchError::InvalidInput { original } => {
                    &&& !all_parse(inputs.deep_view())
                    &&& original@ == inputs.deep_view()[first_unparsable(inputs.deep_view())]
                },
                WatchError::NoValidTargets => inputs@.len() == 0 && all_parse(inputs.deep_view()),
                _ => false,
            },
        },
{
    let ghost dv = inputs.deep_view();
    let n = inputs.len();
    if n == 0 {
        return Err(WatchError::NoValidTargets);
    }
    let mut targets: Vec<String> = Vec::new();
    let mut i: usize = 0;
    while i < n
        invariant
            0 <= i <= n,
            n == inputs@.len(),
            dv == inputs.deep_view(),
            forall|j: int| 0 <= j < i ==> parsed_login(#[trigger] dv[j]) is Some,
            targets.deep_view() == targets_of(dv.take(i as int)),
        decreases n - i,
    {
        let login = match parse_login(inputs[i].as_str()) {
            Ok(l) => l,
            Err(e) => {
                proof {
                    lemma_first_unparsable_at(dv, i as int);
                }
                return Err(e);
            },
        };
        let key = text::lower_str(login.as_str());
        proof {
            assert(dv.take(i + 1).drop_last() =~= dv.take(i as int));
            assert(dv.take(i + 1).last() == dv[i as int]);
        }
        if !contains_string(&targets, &key) {
            targets.push(key);
        }
        i = i + 1;
    }
    proof {
        assert(dv.take(n as int) =~= dv);
        lemma_targets_nonempty(dv);
        assert(targets@.len() == targets.deep_view().len());
    }
    Ok(targets)
}

proof fn lemma_first_unparsable_at(inputs: Seq<Seq<char>>, i: int)
    requires
        0 <= i < inputs.len(),
        parsed_login(inputs[i]) is None,
        forall|j: int| 0 <= j < i ==> parsed_login(#[trigger] inputs[j]) is Some,
    ensures
        first_unparsable(inputs) == i,
        !all_parse(inputs),
    decreases i,
{
    if i > 0 {
        lemma_first_unparsable_at(inputs.drop_first(), i - 1);
        assert(forall|j: int|
            0 <= j < i - 1 ==> inputs.drop_first()[j] == #[trigger] inputs[j + 1]);
    }
}

/// Normalized targets are pairwise distinct: the same channel, however
/// many times and in whatever case it was given, appears once.
pub proof fn lemma_targets_unique(inputs: Seq<Seq<char>>)
    ensures
        forall|i: int, j: int|
            0 <= i < j < targets_of(inputs).len() ==> targets_of(inputs)[i] != targets_of(
                inputs,
            )[j],
    decreases inputs.len(),
{
    if inputs.len() > 0 {
        lemma_targets_unique(inputs.drop_last());
        let prev = targets_of(inputs.drop_last());
        let key = text::lowered(parsed_login(inputs.last())->0);
        if !prev.contains(key) {
            assert(forall|i: int| 0 <= i < prev.len() ==> prev[i] != key);
            assert(forall|i: int| 0 <= i < prev.len() ==> prev.push(key)[i] == prev[i]);
        }
    }
}

proof fn lemma_parsed_login_valid(s: Seq<char>)
    requires
        parsed_login(s) is Some,
    ensures
        valid_login(parsed_login(s)->0),
{
}

proof fn lemma_lowered_valid(l: Seq<char>)
    requires
        valid_login(l),
    ensures
        valid_login(text::lowered(l)),
{
    assert forall|i: int| 0 <= i < text::lowered(l).len() implies is_login_char(
        #[trigger] text::lowered(l)[i],
    ) by {
        assert(text::lowered(l)[i] == text::lower_char(l[i]));
        assert(is_login_char(l[i]));
    }
}

proof fn lemma_lowered_idempotent(l: Seq<char>)
    ensures
        text::lowered(text::lowered(l)) == text::lowered(l),
{
    assert forall|i: int| 0 <= i < text::lowered(text::lowered(l)).len() implies #[trigger] text::lowered(
        text::lowered(l),
    )[i] == text::lowered(l)[i] by {
        assert(text::lowered(text::lowered(l))[i] == text::lower_char(text::lowered(l)[i]));
        assert(text::lowered(l)[i] == text::lower_char(l[i]));
    }
    assert(text::lowered(text::lowered(l)) =~= text::lowered(l));
}

/// Every normalized target is a well-formed channel login already in
/// lowercase: the watch-target invariant of the data model.
pub proof fn lemma_targets_normalized(inputs: Seq<Seq<char>>)
    requires
        all_parse(inputs),
    ensures
        forall|k: int|
            0 <= k < targets_of(inputs).len() ==> valid_login(#[trigger] targets_of(inputs)[k])
                && text::lowered(targets_of(inputs)[k]) == targets_of(inputs)[k],
    decreases inputs.len(),
{
    if inputs.len() > 0 {
        assert forall|i: int| 0 <= i < inputs.drop_last().len() implies parsed_login(
            #[trigger] inputs.drop_last()[i],
        ) is Some by {
            assert(inputs.drop_last()[i] == inputs[i]);
        }
        lemma_targets_normalized(inputs.drop_last());
        let prev = targets_of(inputs.drop_last());
        let key = text::lowered(parsed_login(inputs.last())->0);
        lemma_parsed_login_valid(inputs.last());
        lemma_lowered_valid(parsed_login(inputs.last())->0);
        lemma_lowered_idempotent(parsed_login(inputs.last())->0);
        if !prev.contains(key) {
            assert(forall|k: int| 0 <= k < prev.len() ==> prev.push(key)[k] == prev[k]);
            assert(prev.push(key)[prev.len() as int] == key);
        }
    }
}

/// A non-empty batch that fully parses always yields at least one target.
pub proof fn lemma_targets_nonempty(inputs: Seq<Seq<char>>)
    requires
        inputs.len() > 0,
    ensures
        targets_of(inputs).len() > 0,
    decreases inputs.len(),
{
    if inputs.drop_last().len() > 0 {
        lemma_targets_nonempty(inputs.drop_last());
    }
}

/// The playback URL derived for a normalized login.
pub fn stream_url(login: &str) -> (r: String)
    ensures
        r@ == "https://www.twitch.tv/"@ + login@,
{
    String::from_str("https://www.twitch.tv/").concat(login)
}

/// The fixed argument template the external launcher is invoked with:
/// ads disabled, the player selected, a fixed client-side cache window,
/// the target URL, and best available quality.
pub fn launch_args(url: &str) -> (r: Vec<String>)
    ensures
        r.deep_view() == seq![
            "--twitch-disable-ads"@,
            "--player"@,
            "mpv"@,
            "-a"@,
            "--cache=yes --cache-secs=600"@,
            url@,
            "best"@,
        ],
{
    let mut args: Vec<String> = Vec::new();
    args.push(String::from_str("--twitch-disable-ads"));
    args.push(String::from_str("--player"));
    args.push(String::from_str("mpv"));
    args.push(String::from_str("-a"));
    args.push(String::from_str("--cache=yes --cache-secs=600"));
    args.push(String::from_str(url));
    args.push(String::from_str("best"));
    proof {
        assert(args.deep_view() =~= seq![
            "--twitch-disable-ads"@,
            "--player"@,
            "mpv"@,
            "-a"@,
            "--cache=yes --cache-secs=600"@,
            url@,
            "best"@,
        ]);
    }
    args
}

/// The pre-flight decision: both the launcher and the player must have
/// answered their availability probe, else the missing one is named and
/// nothing is launched.
pub fn ensure_dependencies(streamlink_ok: bool, mpv_ok: bool) -> (r: Result<(), WatchError>)
    ensures
        r is Ok <==> streamlink_ok && mpv_ok,
        !streamlink_ok ==> (r matches Err(e) && (e matches WatchError::DependencyMissing { name }
            && name@ == "streamlink"@)),
        streamlink_ok && !mpv_ok ==> (r matches Err(e) && (e
            matches WatchError::DependencyMissing { name } && name@ == "mpv"@)),
{
    if !streamlink_ok {
        Err(WatchError::DependencyMissing { name: String::from_str("streamlink") })
    } else if !mpv_ok {
        Err(WatchError::DependencyMissing { name: String::from_str("mpv") })
    } else {
        Ok(())
    }
}

/// A report counts as failed unless its process ended successfully.
pub open spec fn report_failed(r: LaunchReport) -> bool {
    !(r.outcome is Success)
}

/// The failing reports of a batch, in the batch's own order.
pub open spec fn failed_reports(rs: Seq<LaunchReport>) -> Seq<LaunchReport> {
    rs.filter(|x: LaunchReport| report_failed(x))
}

impl LaunchReport {
    fn duplicate(&self) -> (r: LaunchReport)
        ensures
            r == *self,
    {
        LaunchReport {
            target: self.target.clone(),
            outcome: match &self.outcome {
                LaunchOutcome::Success => LaunchOutcome::Success,
                LaunchOutcome::NonZeroExit { code } => LaunchOutcome::NonZeroExit { code: *code },
                LaunchOutcome::LaunchError { message } => LaunchOutcome::LaunchError {
                    message: message.clone(),
                },
            },
        }
    }
}

/// Folds one report per target into the watch result: full success when
/// no process failed, else a partial failure listing exactly the failing
/// targets in their original order, beside the count that succeeded.
pub fn aggregate_outcomes(reports: &Vec<LaunchReport>) -> (r: Result<usize, WatchError>)
    ensures
        match r {
            Ok(n) => failed_reports(reports@).len() == 0 && n == reports@.len() && forall|i: int|
                0 <= i < reports@.len() ==> !report_failed(#[trigger] reports@[i]),
            Err(e) => {
                &&& e matches WatchError::PartialFailure { failures, succeeded }
                &&& failures@ == failed_reports(reports@)
                &&& failures@.len() > 0
                &&& succeeded + failures@.len() == reports@.len()
            },
        },
{
    let n = reports.len();
    let mut failures: Vec<LaunchReport> = Vec::new();
    let mut i: usize = 0;
    proof {
        reveal(Seq::filter);
        assert(failed_reports(reports@.take(0int)) =~= Seq::empty());
    }
    while i < n
        invariant
            0 <= i <= n,
            n == reports@.len(),
            failures@ == failed_reports(reports@.take(i as int)),
            failures@.len() <= i,
            (forall|j: int| 0 <= j < i ==> !report_failed(#[trigger] reports@[j])) <==> failures@.len()
                == 0,
        decreases n - i,
    {
        let failed = match &reports[i].outcome {
            LaunchOutcome::Success => false,
            _ => true,
        };
        proof {
            reveal(Seq::filter);
            assert(reports@.take(i + 1).drop_last() =~= reports@.take(i as int));
            assert(reports@.take(i + 1).last() == reports@[i as int]);
        }
        if failed {
            failures.push(reports[i].duplicate());
        }
        i = i + 1;
    }
    proof {
        assert(reports@.take(n as int) =~= reports@);
    }
    if failures.len() == 0 {
        Ok(n)
    } else {
        let failed_count = failures.len();
        Err(WatchError::PartialFailure { failures, succeeded: n - failed_count })
    }
}

} // verus!
