use url_shortener::ids::new_code;
use url_shortener::model::{short_url_for, validate_url, ShortenRequest, UrlError};
use url_shortener::routes::{dashboard, redirect_url, shorten_url};
use url_shortener::store::{AppState, ResolveError, ShortenOutcome};

const BASE: &str = "http://localhost:8081/";

fn request(url: &str) -> ShortenRequest {
    ShortenRequest { url: url.to_string() }
}

fn code_of(short_url: &str) -> String {
    assert!(short_url.starts_with(BASE));
    short_url[BASE.len()..].to_string()
}

fn row<'a>(report: &'a [(String, String, u64)], code: &str) -> &'a (String, String, u64) {
    report.iter().find(|r| r.0 == code).expect("code on the dashboard")
}

#[test]
fn example_com_scenario() {
    let mut state = AppState::new();
    let first = shorten_url(&mut state, request("https://example.com")).unwrap();
    let code = code_of(&first.short_url);
    assert_eq!(code.len(), 8);
    assert_eq!(first.short_url, format!("http://localhost:8081/{}", code));
    assert_eq!(redirect_url(&mut state, &code), Ok("https://example.com".to_string()));
    let report = dashboard(&state);
    assert_eq!(report.len(), 1);
    assert_eq!(row(&report, &code), &(code.clone(), "https://example.com".to_string(), 1));
    let second = shorten_url(&mut state, request("https://example.com")).unwrap();
    assert_eq!(second.short_url, first.short_url);
}

#[test]
fn same_link_twice_same_code_one_entry() {
    let mut state = AppState::new();
    let a = state.shorten("https://a.example/x".to_string()).unwrap();
    let b = state.shorten("https://a.example/x".to_string()).unwrap();
    assert_eq!(a, b);
    let entries = state.entries();
    assert_eq!(entries.len(), 1);
    assert_eq!(entries[0], (a, "https://a.example/x".to_string()));
}

#[test]
fn distinct_links_distinct_codes() {
    let mut state = AppState::new();
    let a = state.shorten("https://one.example".to_string()).unwrap();
    let b = state.shorten("https://two.example".to_string()).unwrap();
    assert_ne!(a, b);
    assert_eq!(state.entries().len(), 2);
}

#[test]
fn resolve_after_shorten_counts_one_click() {
    let mut state = AppState::new();
    let code = state.shorten("https://example.org/page".to_string()).unwrap();
    assert_eq!(state.count_of(&code), 0);
    assert_eq!(state.resolve(&code), Ok("https://example.org/page".to_string()));
    assert_eq!(state.count_of(&code), 1);
}

#[test]
fn unknown_and_reserved_codes_not_found() {
    let mut state = AppState::new();
    state.shorten("https://example.net".to_string()).unwrap();
    assert_eq!(state.resolve(&"zzzzzzzz".to_string()), Err(ResolveError::Unknown));
    assert_eq!(state.resolve(&"dashboard".to_string()), Err(ResolveError::Reserved));
    assert_eq!(state.resolve(&"shorten".to_string()), Err(ResolveError::Reserved));
    assert_eq!(state.click_entries().len(), 1);
}

#[test]
fn reserved_code_not_found_even_when_loaded() {
    let loaded = AppState::from_entries(
        vec![("shorten".to_string(), "https://x.example".to_string())],
        vec![],
    );
    assert!(loaded.is_none());
}

#[test]
fn dashboard_counts_every_resolve() {
    let mut state = AppState::new();
    let a = state.shorten("https://a.example".to_string()).unwrap();
    let b = state.shorten("https://b.example".to_string()).unwrap();
    for _ in 0..3 {
        state.resolve(&a).unwrap();
    }
    state.resolve(&b).unwrap();
    let report = dashboard(&state);
    assert_eq!(report.len(), 2);
    assert_eq!(row(&report, &a).2, 3);
    assert_eq!(row(&report, &b).2, 1);
    assert_eq!(row(&report, &b).1, "https://b.example");
}

#[test]
fn empty_dashboard() {
    let state = AppState::new();
    assert!(dashboard(&state).is_empty());
}

#[test]
fn saved_entries_reload_same_map() {
    let mut state = AppState::new();
    let a = state.shorten("https://a.example".to_string()).unwrap();
    let b = state.shorten("https://b.example".to_string()).unwrap();
    state.resolve(&b).unwrap();
    let mut reloaded = AppState::from_entries(state.entries(), state.click_entries()).unwrap();
    assert_eq!(reloaded.resolve(&a), Ok("https://a.example".to_string()));
    assert_eq!(reloaded.count_of(&b), 1);
    assert_eq!(reloaded.entries().len(), 2);
}

#[test]
fn loading_rejects_repeated_codes_and_links() {
    let dup_code = AppState::from_entries(
        vec![
            ("aaaaaaaa".to_string(), "https://1.example".to_string()),
            ("aaaaaaaa".to_string(), "https://2.example".to_string()),
        ],
        vec![],
    );
    assert!(dup_code.is_none());
    let dup_link = AppState::from_entries(
        vec![
            ("aaaaaaaa".to_string(), "https://1.example".to_string()),
            ("bbbbbbbb".to_string(), "https://1.example".to_string()),
        ],
        vec![],
    );
    assert!(dup_link.is_none());
    let dup_clicks = AppState::from_entries(
        vec![],
        vec![("aaaaaaaa".to_string(), 1), ("aaaaaaaa".to_string(), 2)],
    );
    assert!(dup_clicks.is_none());
}

#[test]
fn loaded_clicks_keep_counting() {
    let mut state = AppState::from_entries(
        vec![("abcd1234".to_string(), "https://k.example".to_string())],
        vec![("abcd1234".to_string(), 41), ("gone0000".to_string(), 5)],
    )
    .unwrap();
    assert_eq!(state.resolve(&"abcd1234".to_string()), Ok("https://k.example".to_string()));
    assert_eq!(state.count_of(&"abcd1234".to_string()), 42);
    assert_eq!(state.count_of(&"gone0000".to_string()), 5);
    assert_eq!(dashboard(&state).len(), 1);
}

#[test]
fn click_count_stops_at_largest_value() {
    let mut state = AppState::from_entries(
        vec![("abcd1234".to_string(), "https://k.example".to_string())],
        vec![("abcd1234".to_string(), u64::MAX)],
    )
    .unwrap();
    state.resolve(&"abcd1234".to_string()).unwrap();
    assert_eq!(state.count_of(&"abcd1234".to_string()), u64::MAX);
}

#[test]
fn missing_click_entry_counts_from_zero() {
    let mut state = AppState::from_entries(
        vec![("abcd1234".to_string(), "https://k.example".to_string())],
        vec![],
    )
    .unwrap();
    assert_eq!(row(&dashboard(&state), "abcd1234").2, 0);
    state.resolve(&"abcd1234".to_string()).unwrap();
    assert_eq!(state.count_of(&"abcd1234".to_string()), 1);
}

#[test]
fn candidate_code_outcomes() {
    let mut state = AppState::new();
    let made = state.shorten_with_code("https://a.example".to_string(), "abcd1234".to_string());
    assert!(matches!(made, ShortenOutcome::Created(ref c) if c == "abcd1234"));
    assert_eq!(state.count_of(&"abcd1234".to_string()), 0);
    let again = state.shorten_with_code("https://a.example".to_string(), "ffff0000".to_string());
    assert!(matches!(again, ShortenOutcome::Existing(ref c) if c == "abcd1234"));
    let taken = state.shorten_with_code("https://b.example".to_string(), "abcd1234".to_string());
    assert!(matches!(taken, ShortenOutcome::Rejected));
    let reserved = state.shorten_with_code("https://b.example".to_string(), "dashboard".to_string());
    assert!(matches!(reserved, ShortenOutcome::Rejected));
    assert_eq!(state.entries().len(), 1);
}

#[test]
fn fresh_codes_are_eight_hex_digits() {
    let code = new_code();
    assert_eq!(code.len(), 8);
    assert!(code.chars().all(|c| c.is_ascii_digit() || ('a'..='f').contains(&c)));
    assert_ne!(new_code(), new_code());
}

#[test]
fn short_url_appends_code() {
    assert_eq!(short_url_for(&"abcd1234".to_string()), "http://localhost:8081/abcd1234");
}

#[test]
fn link_validation() {
    assert_eq!(validate_url(&"".to_string()), Err(UrlError::Empty));
    assert_eq!(validate_url(&"   \t".to_string()), Err(UrlError::Empty));
    assert_eq!(validate_url(&"example.com".to_string()), Err(UrlError::MissingScheme));
    assert_eq!(validate_url(&"ftp://example.com".to_string()), Err(UrlError::MissingScheme));
    assert_eq!(validate_url(&"  https://example.com".to_string()), Err(UrlError::MissingScheme));
    assert_eq!(validate_url(&"http://example.com".to_string()), Ok(()));
    assert_eq!(validate_url(&"https://example.com".to_string()), Ok(()));
}

#[test]
fn unicode_white_space_is_blank() {
    assert_eq!(validate_url(&"\u{3000}\u{a0}\n".to_string()), Err(UrlError::Empty));
    assert_eq!(validate_url(&"\u{200b}".to_string()), Err(UrlError::MissingScheme));
    assert_eq!(validate_url(&"https://x.example ".to_string()), Ok(()));
}

#[test]
fn new_link_always_stored_when_no_code_can_collide() {
    let mut state = AppState::from_entries(
        vec![("short".to_string(), "https://old.example".to_string())],
        vec![],
    )
    .unwrap();
    let code = state.shorten("https://new.example".to_string()).unwrap();
    assert_eq!(code.len(), 8);
    assert!(code.chars().all(|c| c.is_ascii_digit() || ('a'..='f').contains(&c)));
    assert_eq!(state.entries().len(), 2);
    assert_eq!(state.count_of(&code), 0);
    assert_eq!(state.count_of(&"short".to_string()), 0);
}

#[test]
fn clicks_count_resolves_with_other_calls_between() {
    let mut state = AppState::new();
    let a = state.shorten("https://a.example".to_string()).unwrap();
    state.resolve(&a).unwrap();
    let b = state.shorten("https://b.example".to_string()).unwrap();
    state.resolve(&b).unwrap();
    state.resolve(&a).unwrap();
    assert!(state.resolve(&"nothere0".to_string()).is_err());
    state.shorten("https://a.example".to_string()).unwrap();
    state.resolve(&a).unwrap();
    let report = dashboard(&state);
    assert_eq!(row(&report, &a).2, 3);
    assert_eq!(row(&report, &b).2, 1);
}
