use yurl::glob::glob_outcome;

#[test]
fn glob_wildcards() {
    assert_eq!(glob_outcome("**example**", "https://example.com/api"), Some(true));
    assert_eq!(glob_outcome("https://*.com/*", "https://example.com/api"), Some(true));
    assert_eq!(glob_outcome("https://*.com/*", "https://example.com/api/v1"), Some(false));
    assert_eq!(glob_outcome("https://x.io/**", "https://x.io/a/b/c"), Some(true));
    assert_eq!(glob_outcome("exact", "exact"), Some(true));
    assert_eq!(glob_outcome("exact", "exactly"), Some(false));
    assert_eq!(glob_outcome("", ""), Some(true));
}

#[test]
fn glob_matches_multibyte_text_by_characters() {
    assert_eq!(glob_outcome("**", "é"), Some(true));
    assert_eq!(glob_outcome("**z", "é"), Some(false));
    assert_eq!(glob_outcome("é**", "é"), Some(true));
    assert_eq!(glob_outcome("**x**", "https://ü.com/x"), Some(true));
    assert_eq!(glob_outcome("https://*.com/*", "https://ü.com/ñ"), Some(true));
    assert_eq!(glob_outcome("*", "ü/ñ"), Some(false));
}

#[test]
fn single_star_stays_in_one_segment() {
    assert_eq!(glob_outcome("*", "toys"), Some(true));
    assert_eq!(glob_outcome("*", "toys/1"), Some(false));
    assert_eq!(glob_outcome("*", ""), Some(true));
    assert_eq!(glob_outcome("**", "toys/1"), Some(true));
}
