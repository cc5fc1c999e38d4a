use ferrous::config::Auth0Config;
use ferrous::named::NamedMap;
use ferrous::token::{
    expiry_within_limit, token_request, TokenAction, TokenEvent, TokenError, TokenManager, TokenReply, FRESHNESS_MARGIN, LATEST_EXPIRY,
    NANOS_PER_SEC,
};

const SEC: u128 = 1_000_000_000;

fn profile(domain: &str, secret: &str) -> Auth0Config {
    Auth0Config {
        domain: domain.to_string(),
        client_id: "cid".to_string(),
        client_secret: secret.to_string(),
        audience: "https://api.example".to_string(),
        note: None,
    }
}

#[test]
fn constants_are_a_second_and_a_minute() {
    assert_eq!(NANOS_PER_SEC, SEC);
    assert_eq!(FRESHNESS_MARGIN, 60 * SEC);
}

#[test]
fn stored_token_is_served_while_fresh() {
    let mut m = TokenManager::new();
    m.store_token("dev", "tok".to_string(), 3600, 10 * SEC);
    assert_eq!(m.cached_token("dev", 10 * SEC), Some("tok".to_string()));
    // Exactly one minute left: no longer served.
    assert_eq!(m.cached_token("dev", 3550 * SEC), None);
    assert_eq!(m.cached_token("dev", 3550 * SEC - 1), Some("tok".to_string()));
    assert_eq!(m.cached_token("prod", 10 * SEC), None);
}

#[test]
fn remaining_seconds_round_down_and_stop_at_zero() {
    let mut m = TokenManager::new();
    m.store_token("dev", "tok".to_string(), 3600, 0);
    assert_eq!(m.remaining_secs("dev", 0), Some(3600));
    assert_eq!(m.remaining_secs("dev", SEC + SEC / 2), Some(3598));
    assert_eq!(m.remaining_secs("dev", 3600 * SEC), Some(0));
    assert_eq!(m.remaining_secs("dev", 7200 * SEC), Some(0));
    assert_eq!(m.remaining_secs("other", 0), None);
}

#[test]
fn fresh_grant_reports_its_lifetime() {
    let mut m = TokenManager::new();
    m.store_token("dev", "tok".to_string(), 86_400, 123_456_789);
    assert_eq!(m.remaining_secs("dev", 123_456_789), Some(86_400));
}

#[test]
fn invalidate_one_or_all() {
    let mut m = TokenManager::new();
    m.store_token("a", "ta".to_string(), 100, 0);
    m.store_token("b", "tb".to_string(), 200, 0);
    m.invalidate(Some("a"));
    assert_eq!(m.remaining_secs("a", 0), None);
    assert_eq!(m.remaining_secs("b", 0), Some(200));
    m.invalidate(None);
    assert!(m.all_status(0).is_empty());
}

#[test]
fn all_status_lists_every_cached_profile() {
    let mut m = TokenManager::new();
    m.store_token("a", "ta".to_string(), 100, 0);
    m.store_token("b", "tb".to_string(), 200, 0);
    m.store_token("a", "ta2".to_string(), 300, 0);
    let mut st = m.all_status(50 * SEC);
    st.sort();
    assert_eq!(st, vec![("a".to_string(), 250), ("b".to_string(), 150)]);
}

#[test]
fn token_request_for_a_profile() {
    let mut profiles = NamedMap::new();
    profiles.insert("dev".to_string(), profile("tenant.eu.auth0.com", "s3cret"));
    let req = token_request(&profiles, "dev").unwrap();
    assert_eq!(req.url, "https://tenant.eu.auth0.com/oauth/token");
    let form: Vec<(&str, &str)> = req.form.iter().map(|(k, v)| (k.as_str(), v.as_str())).collect();
    assert_eq!(
        form,
        vec![
            ("grant_type", "client_credentials"),
            ("client_id", "cid"),
            ("client_secret", "s3cret"),
            ("audience", "https://api.example"),
        ]
    );
}

#[test]
fn token_request_for_a_missing_profile() {
    let profiles: NamedMap<Auth0Config> = NamedMap::new();
    match token_request(&profiles, "nope") {
        Err(e) => {
            assert!(matches!(&e, TokenError::ProfileNotFound(n) if n == "nope"));
            assert_eq!(e.message(), "Profile `nope` not found");
        }
        Ok(_) => panic!("expected an error"),
    }
}

#[test]
fn finish_fetch_granted_caches_the_token() {
    let mut m = TokenManager::new();
    let r = m.finish_fetch("dev", 5 * SEC, TokenReply::Granted { access_token: "abc".to_string(), expires_in: 60 });
    assert_eq!(r.unwrap(), "abc");
    assert_eq!(m.remaining_secs("dev", 5 * SEC), Some(60));
    // Sixty seconds is not more than the one-minute margin.
    assert_eq!(m.cached_token("dev", 5 * SEC), None);
}

#[test]
fn finish_fetch_rejected_and_failed() {
    let mut m = TokenManager::new();
    let r = m.finish_fetch("dev", 0, TokenReply::Rejected { body: "{\"error\":\"access_denied\"}".to_string() });
    let e = r.unwrap_err();
    assert_eq!(e.message(), "Auth0 error (profile `dev`): {\"error\":\"access_denied\"}");
    let r = m.finish_fetch("dev", 0, TokenReply::Failed { message: "connection refused".to_string() });
    let e = r.unwrap_err();
    assert!(matches!(&e, TokenError::Transport(_)));
    assert_eq!(e.message(), "connection refused");
    assert!(m.all_status(0).is_empty());
}

#[test]
fn expiry_limit_is_u64_max_seconds() {
    assert_eq!(LATEST_EXPIRY, u64::MAX as u128 * SEC);
    assert!(expiry_within_limit(0, u64::MAX));
    assert!(!expiry_within_limit(1, u64::MAX));
    assert!(expiry_within_limit(10 * SEC, 86_400));
    assert!(!expiry_within_limit(u128::MAX, 0));
}

#[test]
fn get_token_steps_serve_fetch_and_settle() {
    let mut m = TokenManager::new();
    let mut profiles = NamedMap::new();
    profiles.insert("dev".to_string(), profile("tenant.auth0.com", "s"));

    assert!(matches!(m.get_token("dev", 0, TokenEvent::Asked), TokenAction::LoadProfiles));
    match m.get_token("dev", 0, TokenEvent::ProfilesLoaded(&profiles)) {
        TokenAction::Send(req) => assert_eq!(req.url, "https://tenant.auth0.com/oauth/token"),
        other => panic!("unexpected {:?}", other),
    }
    match m.get_token("nope", 0, TokenEvent::ProfilesLoaded(&profiles)) {
        TokenAction::Done(Err(e)) => assert_eq!(e.message(), "Profile `nope` not found"),
        other => panic!("unexpected {:?}", other),
    }
    let granted = TokenReply::Granted { access_token: "tok".to_string(), expires_in: 3600 };
    match m.get_token("dev", 0, TokenEvent::Answered(granted)) {
        TokenAction::Done(Ok(t)) => assert_eq!(t, "tok"),
        other => panic!("unexpected {:?}", other),
    }
    match m.get_token("dev", 100 * SEC, TokenEvent::Asked) {
        TokenAction::Done(Ok(t)) => assert_eq!(t, "tok"),
        other => panic!("unexpected {:?}", other),
    }
    assert!(matches!(m.get_token("dev", 3541 * SEC, TokenEvent::Asked), TokenAction::LoadProfiles));
}
