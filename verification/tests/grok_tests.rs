use jcode_tools::auth::grok::{
    can_be_named, env_token, grok_auth_path, has_credentials, is_due, refresh_request, refreshed,
    required_token, resolve_access_token, resolve_access_token_at, GrokAuthEntry, GrokAuthFile,
    GrokTokenResponse, Moment, RefreshEnd, TokenStep, DEFAULT_OIDC_ISSUER, GROK_API_KEY_ENV,
    GROK_ENV_FILE, LAST_SECOND,
};
use jcode_tools::json::Json;

fn entry(key: &str, expires_at: Option<&str>) -> GrokAuthEntry {
    GrokAuthEntry {
        key: key.to_string(),
        refresh_token: Some("refresh".to_string()),
        expires_at: expires_at.map(|s| s.to_string()),
        oidc_issuer: Some(DEFAULT_OIDC_ISSUER.to_string()),
        oidc_client_id: Some("client".to_string()),
        extra: Vec::new(),
    }
}

fn in_two_hours() -> String {
    (chrono::Utc::now() + chrono::Duration::hours(2)).to_rfc3339()
}

fn token(expires_in: Option<i64>) -> GrokTokenResponse {
    GrokTokenResponse {
        access_token: "access".into(),
        refresh_token: Some(" next ".into()),
        expires_in,
    }
}

const NOW: Moment = Moment {
    seconds: 1_700_000_000,
    nanos: 500_000_000,
};

#[test]
fn detects_expired_token() {
    let past = "2000-01-01T00:00:00Z";
    assert!(entry("k", Some(past)).is_expired());
}

#[test]
fn detects_fresh_token() {
    let future = in_two_hours();
    assert!(!entry("k", Some(&future)).is_expired());
}

#[test]
fn missing_expiry_is_not_expired() {
    assert!(!entry("k", None).is_expired());
}

#[test]
fn unparseable_expiry_forces_refresh() {
    assert!(entry("k", Some("not-a-date")).is_expired());
}

#[test]
fn select_prefers_fresh_entry() {
    let future = in_two_hours();
    let mut entries = GrokAuthFile::new();
    entries.insert(
        "expired".to_string(),
        entry("old", Some("2000-01-01T00:00:00Z")),
    );
    entries.insert("fresh".to_string(), entry("new", Some(&future)));
    let (id, _) = entries.select_entry().expect("an entry");
    assert_eq!(id, "fresh");
}

#[test]
fn select_skips_empty_keys() {
    let mut entries = GrokAuthFile::new();
    entries.insert("empty".to_string(), entry("", None));
    assert!(entries.select_entry().is_none());
}

#[test]
fn issuer_falls_back_to_default() {
    let mut e = entry("k", None);
    e.oidc_issuer = None;
    assert_eq!(e.issuer(), DEFAULT_OIDC_ISSUER);
    e.oidc_issuer = Some("  ".to_string());
    assert_eq!(e.issuer(), "https://auth.x.ai");
    e.oidc_issuer = Some(" https://id.example ".to_string());
    assert_eq!(e.issuer(), "https://id.example");
}

#[test]
fn expiry_counts_two_minutes_early() {
    // 2023-11-14T22:13:20Z is second 1,700,000,000.
    let e = entry("k", Some(" 2023-11-14T22:13:20.75Z\n"));
    assert!(e.is_expired_at(1_700_000_000));
    assert!(e.is_expired_at(1_700_000_000 - 120));
    assert!(!e.is_expired_at(1_700_000_000 - 121));
    // The same instant in another time zone.
    let e = entry("k", Some("2023-11-15T00:13:20+02:00"));
    assert!(e.is_expired_at(1_699_999_880));
    assert!(!e.is_expired_at(1_699_999_879));
    assert!(is_due(Some(120), 0) && !is_due(Some(121), 0) && is_due(None, 0));
}

#[test]
fn entries_are_in_the_order_of_their_names() {
    let mut entries = GrokAuthFile::new();
    for id in ["m", "b", "z", "b", "a"] {
        entries.insert(id.to_string(), entry(id, None));
    }
    let ids: Vec<&str> = (0..entries.len()).map(|i| entries.id_at(i)).collect();
    assert_eq!(ids, vec!["a", "b", "m", "z"]);
    assert_eq!(entries.entry_at(2).key, "m");
}

#[test]
fn selection_takes_the_first_of_the_best() {
    let past = Some("2000-01-01T00:00:00Z");
    let far = Some("2100-01-01T00:00:00Z");
    let mut entries = GrokAuthFile::new();
    entries.insert("a".into(), entry(" ", far));
    entries.insert("b".into(), entry("b", past));
    entries.insert("c".into(), entry("c", past));
    assert_eq!(entries.select_entry_at(NOW.seconds).unwrap().0, "b");
    entries.insert("d".into(), entry("d", far));
    entries.insert("e".into(), entry("e", None));
    assert_eq!(entries.select_entry_at(NOW.seconds).unwrap().0, "d");
}

#[test]
fn refreshing_needs_a_token_and_a_client() {
    let mut e = entry("k", None);
    e.oidc_issuer = Some("https://id.example//".into());
    let request = refresh_request(&e).unwrap();
    assert_eq!(request.url, "https://id.example/oauth2/token");
    assert_eq!(
        request.form,
        vec![
            ("grant_type".to_string(), "refresh_token".to_string()),
            ("client_id".to_string(), "client".to_string()),
            ("refresh_token".to_string(), "refresh".to_string()),
        ]
    );
    e.oidc_client_id = Some(" ".into());
    assert_eq!(
        refresh_request(&e).unwrap_err().message,
        "Grok auth entry has no oidc_client_id; re-run `grok` to log in"
    );
    e.refresh_token = None;
    assert_eq!(
        refresh_request(&e).unwrap_err().message,
        "Grok auth entry has no refresh_token; re-run `grok` to log in"
    );
}

#[test]
fn refreshes_end_with_tokens_or_an_error() {
    assert!(refreshed(RefreshEnd::Issued(token(None))).is_ok());
    let message = |end| refreshed(end).unwrap_err().message;
    assert_eq!(
        message(RefreshEnd::NotSent),
        "Failed to refresh Grok OAuth token"
    );
    assert_eq!(
        message(RefreshEnd::Rejected {
            body: " invalid_grant\n".into()
        }),
        "Grok token refresh failed: invalid_grant"
    );
    assert_eq!(
        message(RefreshEnd::Unreadable),
        "Failed to parse Grok token refresh response"
    );
}

#[test]
fn new_tokens_are_put_into_their_entry() {
    let mut entries = GrokAuthFile::new();
    let mut old = entry("old", Some("2000-01-01T00:00:00Z"));
    old.extra = vec![("email".to_string(), Json::Text("a@b".into()))];
    entries.insert("one".into(), old);
    entries.insert("two".into(), entry("other", None));
    assert!(entries.persist_refreshed_at("one", &token(Some(3600)), NOW));
    let one = entries.entry_at(0);
    assert_eq!(one.key, "access");
    assert_eq!(one.refresh_token.as_deref(), Some("next"));
    assert_eq!(
        one.expires_at.as_deref(),
        Some("2023-11-14T23:13:20.500+00:00")
    );
    assert_eq!(
        one.extra,
        vec![("email".to_string(), Json::Text("a@b".into()))]
    );
    assert!(!one.is_expired_at(NOW.seconds));
    assert!(one.is_expired_at(NOW.seconds + 3600 - 120));
    assert_eq!(entries.entry_at(1).key, "other");
    assert!(!entries.persist_refreshed_at("three", &token(Some(1)), NOW));
    assert_eq!(entries.len(), 2);
}

#[test]
fn what_is_not_issued_stays() {
    let mut entries = GrokAuthFile::new();
    entries.insert("one".into(), entry("old", Some("2000-01-01T00:00:00Z")));
    let bare = GrokTokenResponse {
        access_token: "a".into(),
        refresh_token: Some(" ".into()),
        expires_in: None,
    };
    assert_eq!(entries.persist_refreshed("one", &bare), Some(true));
    let one = entries.entry_at(0);
    assert_eq!(one.refresh_token.as_deref(), Some("refresh"));
    assert_eq!(one.expires_at.as_deref(), Some("2000-01-01T00:00:00Z"));
}

#[test]
fn tokens_are_put_in_by_the_clock() {
    let mut entries = GrokAuthFile::new();
    entries.insert("one".into(), entry("old", None));
    assert_eq!(
        entries.persist_refreshed("one", &token(Some(3600))),
        Some(true)
    );
    assert!(!entries.entry_at(0).is_expired());
    assert_eq!(
        entries.persist_refreshed("missing", &token(Some(i64::MAX))),
        Some(false)
    );
    assert_eq!(
        entries.persist_refreshed("one", &token(Some(i64::MAX))),
        None
    );
    assert_eq!(entries.entry_at(0).key, "access");
}

#[test]
fn putting_in_at_a_given_time_says_what_came_of_it() {
    let mut entries = GrokAuthFile::new();
    entries.insert("one".into(), entry("old", None));
    assert_eq!(
        entries.try_persist_at("two", &token(Some(i64::MAX)), NOW),
        Some(false)
    );
    assert_eq!(
        entries.try_persist_at("one", &token(Some(i64::MAX)), NOW),
        None
    );
    assert_eq!(entries.entry_at(0).key, "old");
    assert_eq!(
        entries.try_persist_at("one", &token(Some(3600)), NOW),
        Some(true)
    );
    assert_eq!(entries.entry_at(0).key, "access");
    assert_eq!(
        entries.entry_at(0).expires_at.as_deref(),
        Some("2023-11-14T23:13:20.500+00:00")
    );
    assert_eq!(entries.entry_at(0).clone().key, "access");
}

#[test]
fn expiries_have_to_be_nameable() {
    assert!(can_be_named(&token(Some(LAST_SECOND - NOW.seconds)), NOW));
    assert!(!can_be_named(&token(Some(LAST_SECOND - NOW.seconds + 1)), NOW));
    assert!(!can_be_named(&token(Some(i64::MAX)), NOW));
    assert!(can_be_named(&token(None), NOW));
    assert!(can_be_named(
        &token(Some(-8_334_601_228_800 - NOW.seconds)),
        NOW
    ));
    assert!(!can_be_named(
        &token(Some(-8_334_601_228_801 - NOW.seconds)),
        NOW
    ));
    // The first and the last one are named.
    for end in [LAST_SECOND, -8_334_601_228_800] {
        let e = entry("k", None).refreshed_with(&token(Some(end - NOW.seconds)), NOW);
        assert!(e.expires_at.is_some());
    }
}

#[test]
fn the_environment_comes_first() {
    let mut entries = GrokAuthFile::new();
    entries.insert("one".into(), entry("from-file", None));
    match resolve_access_token(Some(" direct "), Some(&entries)) {
        Ok(TokenStep::Ready(Some(t))) => assert_eq!(t, "direct"),
        other => panic!("unexpected: {:?}", other),
    }
    match resolve_access_token(Some(" "), Some(&entries)) {
        Ok(TokenStep::Ready(Some(t))) => assert_eq!(t, "from-file"),
        other => panic!("unexpected: {:?}", other),
    }
    assert!(matches!(
        resolve_access_token(None, None),
        Ok(TokenStep::Ready(None))
    ));
    assert!(matches!(
        resolve_access_token(None, Some(&GrokAuthFile::new())),
        Ok(TokenStep::Ready(None))
    ));
}

#[test]
fn an_expired_token_is_refreshed() {
    let mut entries = GrokAuthFile::new();
    entries.insert("one".into(), entry("old", Some("2000-01-01T00:00:00Z")));
    match resolve_access_token_at(None, Some(&entries), NOW.seconds) {
        Ok(TokenStep::Refresh { id, request }) => {
            assert_eq!(id, "one");
            assert_eq!(request.url, "https://auth.x.ai/oauth2/token");
        }
        other => panic!("unexpected: {:?}", other),
    }
    let mut stuck = entry("old", Some("2000-01-01T00:00:00Z"));
    stuck.refresh_token = None;
    entries.insert("one".into(), stuck);
    assert!(resolve_access_token_at(None, Some(&entries), NOW.seconds).is_err());
}

#[test]
fn credentials_are_looked_for() {
    assert_eq!(env_token(Some(" x ")).as_deref(), Some("x"));
    assert_eq!(env_token(Some("")), None);
    assert!(has_credentials(Some("x"), false));
    assert!(has_credentials(None, true));
    assert!(!has_credentials(Some(" "), false));
    assert_eq!(
        grok_auth_path(Some("/x/auth"), Some("/h")).as_deref(),
        Some("/x/auth")
    );
    assert_eq!(
        grok_auth_path(Some(""), Some("/h")).as_deref(),
        Some("/h/.grok/auth.json")
    );
    assert_eq!(grok_auth_path(None, None), None);
    assert_eq!(required_token(Some("t".into())), Ok("t".to_string()));
    assert!(required_token(None)
        .unwrap_err()
        .message
        .starts_with("No Grok Build credentials found."));
    assert_eq!(GROK_API_KEY_ENV, "GROK_CODE_XAI_API_KEY");
    assert_eq!(GROK_ENV_FILE, "grok-build.env");
}
