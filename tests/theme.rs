use mlux::theme::{get, DEFAULT_THEME};
#[test]
fn default_theme_exists() {
    assert!(get(DEFAULT_THEME).is_some());
}

#[test]
fn unknown_theme_returns_none() {
    assert!(get("nonexistent").is_none());
}
