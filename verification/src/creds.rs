//! Credential lifecycle: whether a cached access token is still usable,
//! what a refresh exchange needs, how its outcome is recorded, and how the
//! token endpoint's failures are classified.

use vstd::prelude::*;

use crate::clock;
use crate::text;

verus! {

/// The credential record: client id and secret identify the application,
/// the access token and its expiry are the cached grant. Times are whole
/// seconds since the Unix epoch.
#[derive(Debug, Clone)]
pub struct TwitchConfig {
    pub client_id: Option<String>,
    pub client_secret: Option<String>,
    pub access_token: Option<String>,
    pub expires_at: Option<i64>,
}

/// The whole configuration; today it holds only the credential record.
#[derive(Debug, Clone)]
pub struct Config {
    pub twitch: TwitchConfig,
}

/// Flags of the token-refresh command.
#[derive(Debug, Clone)]
pub struct AuthArgs {
    pub show: bool,
    pub verbose: bool,
}

/// Flags of the configuration command: each `Some` field is an update,
/// `show` asks for the (masked) record afterwards.
#[derive(Debug, Clone)]
pub struct ConfigArgs {
    pub client_id: Option<String>,
    pub client_secret: Option<String>,
    pub access_token: Option<String>,
    pub expires_at: Option<String>,
    pub show: bool,
}

/// Failures of the token refresh exchange, one variant per class the
/// token endpoint can answer with.
#[derive(Debug, Clone, PartialEq, Eq)]
pub enum AuthError {
    MissingCredentials { missing_id: bool, missing_secret: bool },
    InvalidClientId,
    InvalidClientSecret,
    RateLimited,
    UnexpectedAuthResponse { status: u16, body: String },
    TransportError { message: String },
}

/// Failure of a configuration update.
#[derive(Debug, Clone, PartialEq, Eq)]
pub enum ConfigError {
    InvalidExpiresAt,
}

/// An optional field counts as set only when it holds a character that is
/// not whitespace.
pub open spec fn field_present(f: Option<String>) -> bool {
    match f {
        Some(s) => !text::is_blank(s@),
        None => false,
    }
}

/// A cached token is usable exactly when it is present (non-blank) and an
/// expiry is recorded and the current time is strictly before it. A token
/// without an expiry is never trusted.
pub open spec fn token_fresh(c: TwitchConfig, now: i64) -> bool {
    &&& field_present(c.access_token)
    &&& match c.expires_at {
        Some(e) => now < e,
        None => false,
    }
}

fn opt_field_present(f: &Option<String>) -> (r: bool)
    ensures
        r == field_present(*f),
{
    match f {
        Some(s) => !text::is_blank_str(s.as_str()),
        None => false,
    }
}

/// Whether the record's token must be refreshed before an API call made
/// at time `now`.
pub fn token_needs_refresh(config: &Config, now: i64) -> (r: bool)
    ensures
        r == !token_fresh(config.twitch, now),
{
    let token_ok = opt_field_present(&config.twitch.access_token);
    match config.twitch.expires_at {
        Some(e) => !(token_ok && now < e),
        None => true,
    }
}

/// A token cached without an expiry is never trusted: whatever the current
/// time, the record counts as needing a refresh.
pub proof fn lemma_expiryless_token_never_fresh(c: Config, now: i64)
    requires
        c.twitch.expires_at is None,
    ensures
        !token_fresh(c.twitch, now),
{
}

/// A non-blank token whose expiry lies strictly in the future is fresh:
/// no refresh (and so no network exchange) is called for.
pub proof fn lemma_unexpired_token_fresh(c: Config, now: i64)
    requires
        c.twitch.access_token matches Some(t) && !text::is_blank(t@),
        c.twitch.expires_at matches Some(e) && now < e,
    ensures
        token_fresh(c.twitch, now),
{
}

/// Extracts the trimmed client id and secret for a refresh exchange, or
/// reports exactly which of the two is absent.
pub fn credentials(config: &Config) -> (r: Result<(String, String), AuthError>)
    ensures
        r is Ok <==> field_present(config.twitch.client_id) && field_present(
            config.twitch.client_secret,
        ),
        r matches Ok((id, secret)) ==> {
            &&& config.twitch.client_id matches Some(ci) && id@ == text::trimmed(ci@)
            &&& config.twitch.client_secret matches Some(cs) && secret@ == text::trimmed(cs@)
            &&& id@.len() > 0
            &&& secret@.len() > 0
        },
        r matches Err(e) ==> e == (AuthError::MissingCredentials {
            missing_id: !field_present(config.twitch.client_id),
            missing_secret: !field_present(config.twitch.client_secret),
        }),
{
    let id_ok = opt_field_present(&config.twitch.client_id);
    let secret_ok = opt_field_present(&config.twitch.client_secret);
    proof {
        if let Some(ci) = &config.twitch.client_id {
            text::lemma_trimmed_empty_iff_blank(ci@);
        }
        if let Some(cs) = &config.twitch.client_secret {
            text::lemma_trimmed_empty_iff_blank(cs@);
        }
    }
    if id_ok && secret_ok {
        let id = match &config.twitch.client_id {
            Some(s) => text::trim_str(s.as_str()).to_owned(),
            None => String::new(),
        };
        let secret = match &config.twitch.client_secret {
            Some(s) => text::trim_str(s.as_str()).to_owned(),
            None => String::new(),
        };
        Ok((id, secret))
    } else {
        Err(
            AuthError::MissingCredentials {
                missing_id: !id_ok,
                missing_secret: !secret_ok,
            },
        )
    }
}

/// What the credential manager should do for a record consulted at time
/// `now`: use the cached token, or run a refresh exchange with these
/// trimmed credentials.
#[derive(Debug, Clone, PartialEq, Eq)]
pub enum RefreshPlan {
    UseCached,
    Exchange { client_id: String, client_secret: String },
}

/// Decides the refresh for time `now`: a fresh token is used as it is; a
/// stale or absent one forces an exchange, which needs both credentials;
/// absent credentials fail before any network activity.
pub fn plan_refresh(config: &Config, now: i64) -> (r: Result<RefreshPlan, AuthError>)
    ensures
        token_fresh(config.twitch, now) ==> r == Ok::<RefreshPlan, AuthError>(
            RefreshPlan::UseCached,
        ),
        !token_fresh(config.twitch, now) ==> {
            &&& r is Ok <==> field_present(config.twitch.client_id) && field_present(
                config.twitch.client_secret,
            )
            &&& r matches Ok(p) ==> {
                &&& p matches RefreshPlan::Exchange { client_id, client_secret }
                &&& config.twitch.client_id matches Some(ci) && client_id@ == text::trimmed(ci@)
                &&& config.twitch.client_secret matches Some(cs) && client_secret@ == text::trimmed(
                    cs@,
                )
                &&& client_id@.len() > 0
                &&& client_secret@.len() > 0
            }
            &&& r matches Err(e) ==> e == (AuthError::MissingCredentials {
                missing_id: !field_present(config.twitch.client_id),
                missing_secret: !field_present(config.twitch.client_secret),
            })
        },
{
    if !token_needs_refresh(config, now) {
        return Ok(RefreshPlan::UseCached);
    }
    match credentials(config) {
        Ok((client_id, client_secret)) => Ok(RefreshPlan::Exchange { client_id, client_secret }),
        Err(e) => Err(e),
    }
}

/// Consults the clock and decides the refresh for the present moment,
/// returning the time the decision was made for alongside the plan.
pub fn plan_refresh_now(config: &Config) -> (r: (i64, Result<RefreshPlan, AuthError>))
    ensures
        0 <= r.0,
        token_fresh(config.twitch, r.0) ==> r.1 == Ok::<RefreshPlan, AuthError>(
            RefreshPlan::UseCached,
        ),
        !token_fresh(config.twitch, r.0) ==> {
            &&& r.1 is Ok <==> field_present(config.twitch.client_id) && field_present(
                config.twitch.client_secret,
            )
            &&& r.1 matches Ok(p) ==> {
                &&& p matches RefreshPlan::Exchange { client_id, client_secret }
                &&& config.twitch.client_id matches Some(ci) && client_id@ == text::trimmed(ci@)
                &&& config.twitch.client_secret matches Some(cs) && client_secret@ == text::trimmed(
                    cs@,
                )
                &&& client_id@.len() > 0
                &&& client_secret@.len() > 0
            }
            &&& r.1 matches Err(e) ==> e == (AuthError::MissingCredentials {
                missing_id: !field_present(config.twitch.client_id),
                missing_secret: !field_present(config.twitch.client_secret),
            })
        },
{
    let now = clock::now_seconds();
    let plan = plan_refresh(config, now);
    (now, plan)
}

/// Records a successful refresh exchange: the token endpoint answered at
/// time `now` with this token and a relative time-to-live. Only the token
/// and its computed absolute expiry change.
pub fn apply_refresh(config: &mut Config, now: i64, access_token: String, expires_in: i64)
    requires
        i64::MIN <= now + expires_in <= i64::MAX,
    ensures
        final(config).twitch.access_token == Some(access_token),
        final(config).twitch.expires_at == Some((now + expires_in) as i64),
        final(config).twitch.client_id == old(config).twitch.client_id,
        final(config).twitch.client_secret == old(config).twitch.client_secret,
{
    config.twitch.access_token = Some(access_token);
    config.twitch.expires_at = Some(now + expires_in);
}

/// Classifies a failed answer of the token endpoint by its HTTP status.
pub fn map_auth_error(status: u16, body: String) -> (r: AuthError)
    ensures
        status == 400 ==> r == AuthError::InvalidClientId,
        status == 403 ==> r == AuthError::InvalidClientSecret,
        status == 429 ==> r == AuthError::RateLimited,
        status != 400 && status != 403 && status != 429 ==> r == (AuthError::UnexpectedAuthResponse {
            status,
            body,
        }),
{
    if status == 400 {
        AuthError::InvalidClientId
    } else if status == 403 {
        AuthError::InvalidClientSecret
    } else if status == 429 {
        AuthError::RateLimited
    } else {
        AuthError::UnexpectedAuthResponse { status, body }
    }
}

/// A set field is reported as a fixed row of asterisks, an absent one as
/// absent.
pub fn mask_value(value: &Option<String>) -> (r: Option<String>)
    ensures
        value is Some <==> r is Some,
        r matches Some(m) ==> m@ == "********"@,
{
    match value {
        Some(_) => Some(String::from_str("********")),
        None => None,
    }
}

/// The record as the configuration command reports it: the client id and
/// expiry in the clear, the secret and token masked when set.
pub fn masked_for_display(config: &Config) -> (r: Config)
    ensures
        r.twitch.client_id == config.twitch.client_id,
        r.twitch.expires_at == config.twitch.expires_at,
        config.twitch.client_secret is Some <==> r.twitch.client_secret is Some,
        r.twitch.client_secret matches Some(m) ==> m@ == "********"@,
        config.twitch.access_token is Some <==> r.twitch.access_token is Some,
        r.twitch.access_token matches Some(m) ==> m@ == "********"@,
{
    Config {
        twitch: TwitchConfig {
            client_id: config.twitch.client_id.clone(),
            client_secret: mask_value(&config.twitch.client_secret),
            access_token: mask_value(&config.twitch.access_token),
            expires_at: config.twitch.expires_at,
        },
    }
}

/// Whether the configuration command was given anything to change.
pub fn has_updates(args: &ConfigArgs) -> (r: bool)
    ensures
        r == (args.client_id is Some || args.client_secret is Some || args.access_token is Some
            || args.expires_at is Some),
{
    args.client_id.is_some() || args.client_secret.is_some() || args.access_token.is_some()
        || args.expires_at.is_some()
}

/// Applies the command's updates to the record: each given field replaces
/// the stored one; a given expiry must be a valid RFC 3339 timestamp, and
/// an invalid one leaves the record untouched.
pub fn apply_config_updates(config: &mut Config, args: &ConfigArgs) -> (r: Result<(), ConfigError>)
    ensures
        r is Ok <==> (args.expires_at matches Some(s) ==> clock::rfc3339_seconds_of(s@) is Some),
        r matches Err(e) ==> e == ConfigError::InvalidExpiresAt && *final(config) == *old(config),
        r is Ok ==> {
            &&& final(config).twitch.client_id == (if args.client_id is Some {
                args.client_id
            } else {
                old(config).twitch.client_id
            })
            &&& final(config).twitch.client_secret == (if args.client_secret is Some {
                args.client_secret
            } else {
                old(config).twitch.client_secret
            })
            &&& final(config).twitch.access_token == (if args.access_token is Some {
                args.access_token
            } else {
                old(config).twitch.access_token
            })
            &&& match args.expires_at {
                Some(s) => final(config).twitch.expires_at matches Some(t)
                    && clock::rfc3339_seconds_of(s@) == Some(t as int),
                None => final(config).twitch.expires_at == old(config).twitch.expires_at,
            }
        },
{
    let parsed_expiry: Option<i64> = match &args.expires_at {
        Some(s) => {
            match clock::parse_rfc3339_seconds(s.as_str()) {
                Some(t) => Some(t),
                None => {
                    return Err(ConfigError::InvalidExpiresAt);
                },
            }
        },
        None => None,
    };
    if let Some(value) = &args.client_id {
        config.twitch.client_id = Some(value.clone());
    }
    if let Some(value) = &args.client_secret {
        config.twitch.client_secret = Some(value.clone());
    }
    if let Some(value) = &args.access_token {
        config.twitch.access_token = Some(value.clone());
    }
    if let Some(t) = parsed_expiry {
        config.twitch.expires_at = Some(t);
    }
    Ok(())
}

} // verus!
