use ferrous::config::{config_path, AppConfig, Auth0Config, SavedEntry};
use ferrous::routes::{
    collect_text_headers, delete_profile, delete_saved, get_profiles, mask_secret, method_from_upper,
    parse_method, post_saved, request_headers, save_vault_password, token_failure, token_refresh_reply,
    token_refresh_start, upsert_profile, vault_decrypt, vault_decrypt_result, vault_status, HttpMethod,
    VaultDecryptPayload, VaultPasswordPayload, BAD_GATEWAY, BAD_REQUEST, NOT_FOUND, UNPROCESSABLE_ENTITY,
};
use ferrous::token::{TokenError, TokenManager};

fn profile(domain: &str, secret: &str, note: Option<&str>) -> Auth0Config {
    Auth0Config {
        domain: domain.to_string(),
        client_id: format!("{}-id", domain),
        client_secret: secret.to_string(),
        audience: "aud".to_string(),
        note: note.map(|n| n.to_string()),
    }
}

fn entry(name: Option<&str>, value: u32) -> SavedEntry<u32> {
    SavedEntry { name: name.map(|n| n.to_string()), value }
}

#[test]
fn config_path_is_config_json() {
    assert_eq!(config_path(), "config.json");
}

#[test]
fn default_config_is_empty() {
    let cfg: AppConfig<u32> = AppConfig::default();
    assert!(cfg.profiles.entries().is_empty());
    assert!(cfg.saved_requests.is_empty());
    assert!(cfg.vault_password.is_none());
}

#[test]
fn secrets_are_masked() {
    assert_eq!(mask_secret(&"".to_string()), "");
    assert_eq!(mask_secret(&"x".to_string()), "********");
    assert_eq!(mask_secret(&"a-very-long-secret".to_string()), "********");
}

#[test]
fn profiles_listed_with_masked_secrets() {
    let mut cfg: AppConfig<u32> = AppConfig::default();
    upsert_profile(&mut cfg, "dev".to_string(), profile("dev.auth0.com", "s", Some("note")));
    upsert_profile(&mut cfg, "ci".to_string(), profile("ci.auth0.com", "", None));
    let listed = get_profiles(&cfg);
    assert_eq!(listed.len(), 2);
    let dev = &listed.iter().find(|(n, _)| n == "dev").unwrap().1;
    assert_eq!(dev.domain, "dev.auth0.com");
    assert_eq!(dev.client_id, "dev.auth0.com-id");
    assert_eq!(dev.client_secret, "********");
    assert_eq!(dev.audience, "aud");
    let ci = &listed.iter().find(|(n, _)| n == "ci").unwrap().1;
    assert_eq!(ci.client_secret, "");
}

#[test]
fn upsert_replaces_and_reads_back() {
    let mut cfg: AppConfig<u32> = AppConfig::default();
    upsert_profile(&mut cfg, "dev".to_string(), profile("old.auth0.com", "a", None));
    upsert_profile(&mut cfg, "prod".to_string(), profile("prod.auth0.com", "b", None));
    upsert_profile(&mut cfg, "dev".to_string(), profile("new.auth0.com", "c", Some("n")));
    assert_eq!(cfg.profiles.entries().len(), 2);
    let dev = cfg.profiles.get(&"dev".to_string()).unwrap();
    assert_eq!(dev.domain, "new.auth0.com");
    assert_eq!(dev.note.as_deref(), Some("n"));
    assert_eq!(cfg.profiles.get(&"prod".to_string()).unwrap().domain, "prod.auth0.com");
}

#[test]
fn delete_existing_and_missing_profile() {
    let mut cfg: AppConfig<u32> = AppConfig::default();
    upsert_profile(&mut cfg, "dev".to_string(), profile("d", "a", None));
    upsert_profile(&mut cfg, "prod".to_string(), profile("p", "b", None));
    assert!(delete_profile(&mut cfg, &"dev".to_string()).is_ok());
    assert!(cfg.profiles.get(&"dev".to_string()).is_none());
    assert!(cfg.profiles.get(&"prod".to_string()).is_some());
    let err = delete_profile(&mut cfg, &"dev".to_string()).unwrap_err();
    assert_eq!(err.status, NOT_FOUND);
    assert_eq!(err.detail, "Profile 'dev' not found");
    assert_eq!(cfg.profiles.entries().len(), 1);
}

#[test]
fn post_saved_replaces_same_name_and_appends() {
    let mut cfg: AppConfig<u32> = AppConfig::default();
    cfg.saved_requests = vec![entry(Some("a"), 1), entry(None, 2), entry(Some("b"), 3), entry(Some("a"), 4)];
    post_saved(&mut cfg, "a".to_string(), 5);
    let got: Vec<(Option<String>, u32)> = cfg.saved_requests.iter().map(|e| (e.name.clone(), e.value)).collect();
    assert_eq!(got, vec![(None, 2), (Some("b".to_string()), 3), (Some("a".to_string()), 5)]);
    post_saved(&mut cfg, "c".to_string(), 6);
    assert_eq!(cfg.saved_requests.len(), 4);
    assert_eq!(cfg.saved_requests[3].value, 6);
}

#[test]
fn delete_saved_removes_every_entry_of_the_name() {
    let mut cfg: AppConfig<u32> = AppConfig::default();
    cfg.saved_requests = vec![entry(Some("a"), 1), entry(Some("b"), 2), entry(Some("a"), 3), entry(None, 4)];
    delete_saved(&mut cfg, &"a".to_string());
    let values: Vec<u32> = cfg.saved_requests.iter().map(|e| e.value).collect();
    assert_eq!(values, vec![2, 4]);
    delete_saved(&mut cfg, &"zzz".to_string());
    assert_eq!(cfg.saved_requests.len(), 2);
}

#[test]
fn refresh_all_drops_every_token() {
    let mut tokens = TokenManager::new();
    tokens.store_token("a", "t".to_string(), 100, 0);
    tokens.store_token("b", "t".to_string(), 100, 0);
    assert!(token_refresh_start(&mut tokens, &"_all".to_string()));
    assert!(tokens.all_status(0).is_empty());
}

#[test]
fn refresh_one_drops_only_its_token() {
    let mut tokens = TokenManager::new();
    tokens.store_token("a", "t".to_string(), 100, 0);
    tokens.store_token("b", "t".to_string(), 100, 0);
    assert!(!token_refresh_start(&mut tokens, &"a".to_string()));
    assert_eq!(tokens.remaining_secs("a", 0), None);
    assert_eq!(tokens.remaining_secs("b", 0), Some(100));
}

#[test]
fn refresh_reply_reports_seconds_or_bad_gateway() {
    let mut tokens = TokenManager::new();
    tokens.store_token("a", "t".to_string(), 100, 0);
    assert_eq!(token_refresh_reply(&tokens, "a", 10_000_000_000, Ok("t".to_string())).unwrap(), 90);
    assert_eq!(token_refresh_reply(&tokens, "zz", 0, Ok("t".to_string())).unwrap(), 0);
    let err = token_refresh_reply(&tokens, "zz", 0, Err(TokenError::ProfileNotFound("zz".to_string()))).unwrap_err();
    assert_eq!(err.status, BAD_GATEWAY);
    assert_eq!(err.detail, "Profile `zz` not found");
    let err = token_failure(&TokenError::Transport("timed out".to_string()));
    assert_eq!(err.status, BAD_GATEWAY);
    assert_eq!(err.detail, "timed out");
}

#[test]
fn methods_in_any_case() {
    assert_eq!(parse_method("get").unwrap(), HttpMethod::Get);
    assert_eq!(parse_method("Post").unwrap(), HttpMethod::Post);
    assert_eq!(parse_method("PUT").unwrap(), HttpMethod::Put);
    assert_eq!(parse_method("pAtCh").unwrap(), HttpMethod::Patch);
    assert_eq!(parse_method("delete").unwrap(), HttpMethod::Delete);
    let err = parse_method("fetch").unwrap_err();
    assert_eq!(err.status, BAD_REQUEST);
    assert_eq!(err.detail, "Unknown method: FETCH");
    let err = parse_method("straße").unwrap_err();
    assert_eq!(err.detail, "Unknown method: STRASSE");
}

#[test]
fn method_from_upper_takes_only_upper_case() {
    assert_eq!(method_from_upper("GET".to_string()).unwrap(), HttpMethod::Get);
    assert_eq!(method_from_upper("DELETE".to_string()).unwrap(), HttpMethod::Delete);
    let err = method_from_upper("get".to_string()).unwrap_err();
    assert_eq!(err.status, BAD_REQUEST);
    assert_eq!(err.detail, "Unknown method: get");
    assert!(method_from_upper("".to_string()).is_err());
}

#[test]
fn request_headers_append_the_bearer_token() {
    let user = vec![("X-Trace".to_string(), "1".to_string())];
    let with = request_headers(user.clone(), Some("abc".to_string()));
    assert_eq!(with, vec![("X-Trace".to_string(), "1".to_string()), ("Authorization".to_string(), "Bearer abc".to_string())]);
    let without = request_headers(user.clone(), None);
    assert_eq!(without, user);
}

#[test]
fn response_headers_keep_visible_text_last_wins() {
    let raw = vec![
        ("content-type".to_string(), b"application/json".to_vec()),
        ("x-bin".to_string(), vec![0xff, 0x41]),
        ("set-cookie".to_string(), b"a=1".to_vec()),
        ("set-cookie".to_string(), b"b=2".to_vec()),
        ("x-tab".to_string(), b"a\tb".to_vec()),
        ("content-type".to_string(), vec![0x7f]),
    ];
    let mut got = collect_text_headers(raw);
    got.sort();
    assert_eq!(
        got,
        vec![
            ("content-type".to_string(), "application/json".to_string()),
            ("set-cookie".to_string(), "b=2".to_string()),
            ("x-tab".to_string(), "a\tb".to_string()),
        ]
    );
}

#[test]
fn vault_status_and_password() {
    let mut cfg: AppConfig<u32> = AppConfig::default();
    assert!(!vault_status(&cfg));
    save_vault_password(&mut cfg, VaultPasswordPayload { password: "pw".to_string() });
    assert!(vault_status(&cfg));
    assert_eq!(cfg.vault_password.as_deref(), Some("pw"));
}

#[test]
fn vault_decrypt_needs_a_password() {
    let cfg: AppConfig<u32> = AppConfig::default();
    let err = vault_decrypt(&cfg, &VaultDecryptPayload { ciphertext: "x".to_string() }).unwrap_err();
    assert_eq!(err.status, BAD_REQUEST);
    assert_eq!(err.detail, "Vault password not configured");
}

#[test]
fn vault_decrypt_cleans_the_ciphertext() {
    let mut cfg: AppConfig<u32> = AppConfig::default();
    save_vault_password(&mut cfg, VaultPasswordPayload { password: "pw".to_string() });
    let job = vault_decrypt(&cfg, &VaultDecryptPayload { ciphertext: "k: !vault |\n  AB\n  CD\n".to_string() }).unwrap();
    assert_eq!(job.password, "pw");
    assert_eq!(job.ciphertext, "AB\nCD");
}

#[test]
fn vault_result_trims_output() {
    assert_eq!(vault_decrypt_result(true, "  secret\n", "warn").unwrap(), "secret");
    let err = vault_decrypt_result(false, "", "ERROR! Decryption failed\n").unwrap_err();
    assert_eq!(err.status, UNPROCESSABLE_ENTITY);
    assert_eq!(err.detail, "ERROR! Decryption failed");
}

#[test]
fn saved_names_stay_distinct_after_posting() {
    let mut cfg: AppConfig<u32> = AppConfig::default();
    cfg.saved_requests = vec![entry(Some("a"), 1), entry(None, 2), entry(Some("b"), 3)];
    post_saved(&mut cfg, "b".to_string(), 4);
    post_saved(&mut cfg, "c".to_string(), 5);
    let mut names: Vec<String> = cfg.saved_requests.iter().filter_map(|e| e.name.clone()).collect();
    let before = names.len();
    names.sort();
    names.dedup();
    assert_eq!(names.len(), before);
    assert_eq!(names, vec!["a".to_string(), "b".to_string(), "c".to_string()]);
}
