use ttv::clock;
use ttv::creds::{
    apply_config_updates, apply_refresh, credentials, has_updates, map_auth_error, mask_value,
    masked_for_display, plan_refresh, plan_refresh_now, token_needs_refresh, AuthError, Config,
    ConfigArgs, ConfigError, RefreshPlan, TwitchConfig,
};

fn config(
    client_id: Option<&str>,
    client_secret: Option<&str>,
    access_token: Option<&str>,
    expires_at: Option<i64>,
) -> Config {
    Config {
        twitch: TwitchConfig {
            client_id: client_id.map(|s| s.to_string()),
            client_secret: client_secret.map(|s| s.to_string()),
            access_token: access_token.map(|s| s.to_string()),
            expires_at,
        },
    }
}

#[test]
fn token_without_expiry_is_never_trusted() {
    let cfg = config(Some("id"), Some("sec"), Some("perfectly-good-token"), None);
    assert!(token_needs_refresh(&cfg, 0));
    assert!(token_needs_refresh(&cfg, 1_000_000_000));
}

#[test]
fn unexpired_token_needs_no_refresh() {
    let cfg = config(Some("id"), Some("sec"), Some("tok"), Some(1000));
    assert!(!token_needs_refresh(&cfg, 999));
    assert_eq!(plan_refresh(&cfg, 999), Ok(RefreshPlan::UseCached));
}

#[test]
fn expired_token_needs_refresh() {
    let cfg = config(Some("id"), Some("sec"), Some("tok"), Some(1000));
    assert!(token_needs_refresh(&cfg, 1000));
    assert!(token_needs_refresh(&cfg, 2000));
}

#[test]
fn blank_token_needs_refresh() {
    let cfg = config(Some("id"), Some("sec"), Some("   "), Some(1000));
    assert!(token_needs_refresh(&cfg, 0));
    let cfg = config(Some("id"), Some("sec"), None, Some(1000));
    assert!(token_needs_refresh(&cfg, 0));
}

#[test]
fn credentials_are_trimmed() {
    let cfg = config(Some("  my-id "), Some(" s3cret  "), None, None);
    let (id, secret) = credentials(&cfg).unwrap();
    assert_eq!(id, "my-id");
    assert_eq!(secret, "s3cret");
}

#[test]
fn missing_credentials_are_named() {
    let cfg = config(None, Some("sec"), None, None);
    assert_eq!(
        credentials(&cfg),
        Err(AuthError::MissingCredentials { missing_id: true, missing_secret: false })
    );
    let cfg = config(Some("id"), Some("   "), None, None);
    assert_eq!(
        credentials(&cfg),
        Err(AuthError::MissingCredentials { missing_id: false, missing_secret: true })
    );
    let cfg = config(None, None, None, None);
    assert_eq!(
        credentials(&cfg),
        Err(AuthError::MissingCredentials { missing_id: true, missing_secret: true })
    );
}

#[test]
fn stale_token_with_credentials_plans_an_exchange() {
    let cfg = config(Some(" id "), Some("sec"), Some("tok"), None);
    match plan_refresh(&cfg, 50) {
        Ok(RefreshPlan::Exchange { client_id, client_secret }) => {
            assert_eq!(client_id, "id");
            assert_eq!(client_secret, "sec");
        }
        other => panic!("expected an exchange, got {:?}", other),
    }
}

#[test]
fn stale_token_without_credentials_fails_before_any_network() {
    let cfg = config(None, Some("sec"), Some("tok"), None);
    assert_eq!(
        plan_refresh(&cfg, 50),
        Err(AuthError::MissingCredentials { missing_id: true, missing_secret: false })
    );
}

#[test]
fn plan_refresh_now_reports_a_nonnegative_time() {
    let cfg = config(Some("id"), Some("sec"), None, None);
    let (now, plan) = plan_refresh_now(&cfg);
    assert!(now >= 0);
    assert!(plan.is_ok());
}

#[test]
fn apply_refresh_records_token_and_absolute_expiry() {
    let mut cfg = config(Some("id"), Some("sec"), Some("old"), Some(10));
    apply_refresh(&mut cfg, 100, "new-token".to_string(), 50);
    assert_eq!(cfg.twitch.access_token.as_deref(), Some("new-token"));
    assert_eq!(cfg.twitch.expires_at, Some(150));
    assert_eq!(cfg.twitch.client_id.as_deref(), Some("id"));
    assert_eq!(cfg.twitch.client_secret.as_deref(), Some("sec"));
}

#[test]
fn auth_errors_follow_the_status_taxonomy() {
    assert_eq!(map_auth_error(400, String::new()), AuthError::InvalidClientId);
    assert_eq!(map_auth_error(403, String::new()), AuthError::InvalidClientSecret);
    assert_eq!(map_auth_error(429, String::new()), AuthError::RateLimited);
    assert_eq!(
        map_auth_error(503, "oops".to_string()),
        AuthError::UnexpectedAuthResponse { status: 503, body: "oops".to_string() }
    );
}

#[test]
fn masking_hides_values_but_not_absence() {
    assert_eq!(mask_value(&Some("secret".to_string())).as_deref(), Some("********"));
    assert_eq!(mask_value(&None), None);
    let cfg = config(Some("id"), Some("sec"), None, Some(5));
    let shown = masked_for_display(&cfg);
    assert_eq!(shown.twitch.client_id.as_deref(), Some("id"));
    assert_eq!(shown.twitch.client_secret.as_deref(), Some("********"));
    assert_eq!(shown.twitch.access_token, None);
    assert_eq!(shown.twitch.expires_at, Some(5));
}

#[test]
fn config_updates_apply_fieldwise() {
    let mut cfg = config(Some("id"), None, None, None);
    let args = ConfigArgs {
        client_id: None,
        client_secret: Some("sec".to_string()),
        access_token: Some("tok".to_string()),
        expires_at: Some("2024-01-02T03:04:05Z".to_string()),
        show: false,
    };
    assert!(has_updates(&args));
    assert_eq!(apply_config_updates(&mut cfg, &args), Ok(()));
    assert_eq!(cfg.twitch.client_id.as_deref(), Some("id"));
    assert_eq!(cfg.twitch.client_secret.as_deref(), Some("sec"));
    assert_eq!(cfg.twitch.access_token.as_deref(), Some("tok"));
    assert_eq!(cfg.twitch.expires_at, Some(1_704_164_645));
}

#[test]
fn invalid_expiry_rejects_the_update_whole() {
    let mut cfg = config(Some("id"), None, None, None);
    let args = ConfigArgs {
        client_id: Some("other".to_string()),
        client_secret: None,
        access_token: None,
        expires_at: Some("not-a-timestamp".to_string()),
        show: false,
    };
    assert_eq!(apply_config_updates(&mut cfg, &args), Err(ConfigError::InvalidExpiresAt));
    assert_eq!(cfg.twitch.client_id.as_deref(), Some("id"));
}

#[test]
fn no_flags_means_nothing_to_update() {
    let args = ConfigArgs {
        client_id: None,
        client_secret: None,
        access_token: None,
        expires_at: None,
        show: true,
    };
    assert!(!has_updates(&args));
}

#[test]
fn the_clock_reads_at_or_after_the_epoch() {
    assert!(clock::now_seconds() >= 0);
}
