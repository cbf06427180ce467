use yurl::cache::{compute_cache_key, parse_cache, CacheConfig, CacheKey};
use yurl::env::Env;
use yurl::json::Json;
use yurl::request::parse_input;

fn no_env() -> Env {
    Env { vars: Vec::new() }
}

#[test]
fn parse_cache_true() {
    let config = parse_cache(&Json::Bool(true), &no_env()).unwrap();
    assert_eq!(config.ttl, 0);
    assert_eq!(config.keys, vec![CacheKey::Method, CacheKey::Url, CacheKey::Body]);
}

#[test]
fn parse_cache_false() {
    assert!(parse_cache(&Json::Bool(false), &no_env()).is_none());
}

#[test]
fn parse_cache_object_partial() {
    let val = parse_input(r#"{"ttl": 3600, "keys": ["u", "b"]}"#).unwrap();
    let config = parse_cache(&val, &no_env()).unwrap();
    assert_eq!(config.ttl, 3600);
    assert_eq!(config.keys, vec![CacheKey::Url, CacheKey::Body]);
    assert!(!config.at.is_empty());
}

#[test]
fn parse_cache_object_full() {
    let val = parse_input(r#"{"ttl": 60, "keys": ["m", "u", "b", "a", "h", "h.x-api-key"], "at": "/tmp/yurl-cache"}"#).unwrap();
    let config = parse_cache(&val, &no_env()).unwrap();
    assert_eq!(config.ttl, 60);
    assert_eq!(config.at, "/tmp/yurl-cache");
    assert_eq!(
        config.keys,
        vec![
            CacheKey::Method,
            CacheKey::Url,
            CacheKey::Body,
            CacheKey::Auth,
            CacheKey::AllHeaders,
            CacheKey::Header("x-api-key".to_string()),
        ]
    );
}

#[test]
fn compute_key_deterministic() {
    let config = CacheConfig::default_for(&no_env());
    let headers = Vec::new();
    let body = Some(parse_input(r#"{"prompt": "hello"}"#).unwrap());
    let k1 = compute_cache_key(&config, "POST", "https://api.openai.com/v1/chat", &body, &headers);
    let k2 = compute_cache_key(&config, "POST", "https://api.openai.com/v1/chat", &body, &headers);
    assert_eq!(k1, k2);
}

#[test]
fn compute_key_differs_by_body() {
    let config = CacheConfig::default_for(&no_env());
    let headers = Vec::new();
    let b1 = Some(parse_input(r#"{"prompt": "hello"}"#).unwrap());
    let b2 = Some(parse_input(r#"{"prompt": "world"}"#).unwrap());
    let k1 = compute_cache_key(&config, "POST", "https://example.com", &b1, &headers);
    let k2 = compute_cache_key(&config, "POST", "https://example.com", &b2, &headers);
    assert_ne!(k1, k2);
}

#[test]
fn compute_key_known_digest() {
    let config = CacheConfig { ttl: 0, keys: vec![CacheKey::Method], at: String::new() };
    let key = compute_cache_key(&config, "abc", "u", &None, &Vec::new());
    assert_eq!(key, "ba7816bf8f01cfea414140de5dae2223b00361a396177a9cb410ff61f20015ad");
}

#[test]
fn compute_key_headers_sorted_case_insensitively() {
    let config = CacheConfig { ttl: 0, keys: vec![CacheKey::AllHeaders], at: String::new() };
    let h1 = vec![("b".to_string(), Json::Str("2".to_string())), ("A".to_string(), Json::Str("1".to_string()))];
    let h2 = vec![("A".to_string(), Json::Str("1".to_string())), ("b".to_string(), Json::Str("2".to_string()))];
    let k1 = compute_cache_key(&config, "GET", "u", &None, &h1);
    let k2 = compute_cache_key(&config, "GET", "u", &None, &h2);
    assert_eq!(k1, k2);
    // the hashed bytes are "A1b2"
    let plain = CacheConfig { ttl: 0, keys: vec![CacheKey::Method], at: String::new() };
    assert_eq!(k1, compute_cache_key(&plain, "A1b2", "u", &None, &Vec::new()));
}

#[test]
fn compute_key_auth_and_named_header() {
    let h = vec![("AUTHORIZATION".to_string(), Json::Str("t".to_string())), ("X-Key".to_string(), Json::Str("k".to_string()))];
    let auth = CacheConfig { ttl: 0, keys: vec![CacheKey::Auth, CacheKey::Header("x-key".to_string())], at: String::new() };
    let plain = CacheConfig { ttl: 0, keys: vec![CacheKey::Method], at: String::new() };
    assert_eq!(compute_cache_key(&auth, "GET", "u", &None, &h), compute_cache_key(&plain, "tk", "u", &None, &Vec::new()));
}

#[test]
fn default_cache_dir_from_env() {
    let xdg = Env { vars: vec![("XDG_CACHE_HOME".to_string(), Some("/c".to_string())), ("HOME".to_string(), Some("/h".to_string()))] };
    assert_eq!(yurl::cache::default_cache_dir(&xdg), "/c/yurl");
    let home = Env { vars: vec![("HOME".to_string(), Some("/h".to_string()))] };
    assert_eq!(yurl::cache::default_cache_dir(&home), "/h/.cache/yurl");
    assert_eq!(yurl::cache::default_cache_dir(&no_env()), "~/.cache/yurl");
}

#[test]
fn compute_key_is_lower_hex_sha256() {
    let config = CacheConfig::default_for(&no_env());
    let k = compute_cache_key(&config, "GET", "https://x", &None, &Vec::new());
    assert_eq!(k.len(), 64);
    assert!(k.chars().all(|c| c.is_ascii_digit() || ('a'..='f').contains(&c)));
}

#[test]
fn compute_key_ignores_unlisted_headers_and_body() {
    let config = CacheConfig { ttl: 0, keys: vec![CacheKey::Method, CacheKey::Url], at: String::new() };
    let h1 = vec![("X-A".to_string(), Json::Str("1".to_string()))];
    let b = Some(Json::Str("x".to_string()));
    let k1 = compute_cache_key(&config, "GET", "https://x", &b, &h1);
    let k2 = compute_cache_key(&config, "GET", "https://x", &None, &Vec::new());
    assert_eq!(k1, k2);
}
