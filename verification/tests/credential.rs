use xword_fetch::credential::{
    is_unexpired, provider_at, scan_cookies, Browser, Credential, CredentialRecord,
};

fn record(name: &str, value: &str, expires: Option<u64>) -> CredentialRecord {
    CredentialRecord { name: name.to_string(), value: value.to_string(), expires }
}

#[test]
fn scan_takes_the_first_session_cookie_that_has_not_expired() {
    let cookies = vec![
        record("nyt-a", "no", None),
        record("NYT-S", "old", Some(999)),
        record("NYT-S", "good", Some(2000)),
        record("NYT-S", "later", None),
    ];
    let found = scan_cookies(&cookies, 1000).unwrap();
    assert_eq!(found.token, "good");
    assert_eq!(found.expires, Some(2000));
}

#[test]
fn scan_accepts_a_cookie_without_expiry() {
    let cookies = vec![record("NYT-S", "forever", None), record("NYT-S", "second", Some(5000))];
    let found = scan_cookies(&cookies, 1000).unwrap();
    assert_eq!(found.token, "forever");
    assert_eq!(found.expires, None);
}

#[test]
fn scan_wants_the_expiry_strictly_in_the_future() {
    let cookies = vec![record("NYT-S", "now", Some(1000))];
    assert!(scan_cookies(&cookies, 1000).is_none());
    assert!(scan_cookies(&cookies, 1001).is_none());
    assert_eq!(scan_cookies(&cookies, 999).unwrap().token, "now");
}

#[test]
fn scan_looks_for_the_marker_anywhere_in_the_name() {
    assert_eq!(scan_cookies(&vec![record("xNYT-Sy", "in", None)], 0).unwrap().token, "in");
    assert_eq!(scan_cookies(&vec![record("NYT-S-extra", "head", None)], 0).unwrap().token, "head");
    assert_eq!(scan_cookies(&vec![record("my-NYT-S", "tail", None)], 0).unwrap().token, "tail");
    assert!(scan_cookies(&vec![record("NYT-", "short", None)], 0).is_none());
    assert!(scan_cookies(&vec![record("nyt-s", "case", None)], 0).is_none());
    assert!(scan_cookies(&vec![record("NYT_S", "other", None)], 0).is_none());
    assert!(scan_cookies(&vec![record("N-Y-T-S", "apart", None)], 0).is_none());
    assert!(scan_cookies(&vec![record("", "empty", None)], 0).is_none());
    assert_eq!(scan_cookies(&vec![record("éNYT-S", "wide", None)], 0).unwrap().token, "wide");
}

#[test]
fn scan_of_nothing_finds_nothing() {
    assert!(scan_cookies(&Vec::new(), 0).is_none());
    assert!(scan_cookies(&vec![record("sid", "a", None), record("uid", "b", Some(9))], 0).is_none());
}

#[test]
fn records_know_whether_they_are_usable() {
    assert!(record("NYT-S", "v", None).is_usable(5));
    assert!(record("NYT-S", "v", Some(6)).is_usable(5));
    assert!(!record("NYT-S", "v", Some(5)).is_usable(5));
    assert!(!record("other", "v", None).is_usable(5));
    assert!(record("NYT-S", "v", Some(0)).is_usable(-1));
}

#[test]
fn expiry_is_compared_with_the_clock() {
    assert!(is_unexpired(None, i64::MAX));
    assert!(is_unexpired(Some(1), 0));
    assert!(!is_unexpired(Some(1), 1));
    assert!(!is_unexpired(Some(0), 0));
    assert!(is_unexpired(Some(0), -1));
    assert!(is_unexpired(Some(u64::MAX), i64::MAX));
    assert!(!is_unexpired(Some(i64::MAX as u64), i64::MAX));
}

#[test]
fn credentials_tell_how_long_they_last() {
    let c = Credential { token: "t".to_string(), expires: Some(1500) };
    assert_eq!(c.remaining_seconds(1000), Some(500));
    assert_eq!(c.remaining_seconds(1499), Some(1));
    assert_eq!(c.remaining_seconds(1500), None);
    assert_eq!(c.remaining_seconds(-500), Some(2000));
    assert!(c.is_usable(1499));
    assert!(!c.is_usable(1500));
    let far = Credential { token: "t".to_string(), expires: Some(u64::MAX) };
    assert_eq!(far.remaining_seconds(-1), Some(u64::MAX));
    assert_eq!(far.remaining_seconds(i64::MIN), Some(u64::MAX));
    assert_eq!(far.remaining_seconds(1), Some(u64::MAX - 1));
}

#[test]
fn tokens_without_expiry_are_always_usable() {
    let c = Credential { token: "abc".to_string(), expires: None };
    assert!(c.is_usable(i64::MAX));
    assert!(c.is_usable(i64::MIN));
    assert_eq!(c.remaining_seconds(0), None);
}

#[test]
fn stores_are_asked_in_a_fixed_order() {
    assert_eq!(provider_at(0), Some(Browser::Firefox));
    assert_eq!(provider_at(1), Some(Browser::Chrome));
    assert_eq!(provider_at(2), Some(Browser::Brave));
    assert_eq!(provider_at(3), Some(Browser::Safari));
    assert_eq!(provider_at(4), None);
    assert_eq!(provider_at(usize::MAX), None);
}
