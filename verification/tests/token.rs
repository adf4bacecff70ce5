use krx_toolkit::kiwoom::{AccessTokenResponse, KiwoomError};
use krx_toolkit::token::{
    checked_should_refresh_from, expiry_in_range, refresh_due, should_refresh_at, should_refresh_from,
    TokenState,
};

fn kst_expiry_in_minutes(minutes: i64) -> String {
    let kst = chrono::FixedOffset::east_opt(9 * 3600).expect("invalid kst offset");
    (chrono::Utc::now().with_timezone(&kst) + chrono::Duration::minutes(minutes))
        .format("%Y%m%d%H%M%S")
        .to_string()
}

#[test]
fn should_refresh_when_exp_empty() {
    assert!(should_refresh_from(""));
}

#[test]
fn should_refresh_when_exp_invalid() {
    assert!(should_refresh_from("not-a-datetime"));
}

#[test]
fn should_not_refresh_when_exp_is_far_enough() {
    let exp = kst_expiry_in_minutes(60);
    assert!(!should_refresh_from(&exp));
}

#[test]
fn should_refresh_when_exp_is_close() {
    let exp = kst_expiry_in_minutes(1);
    assert!(should_refresh_from(&exp));
}

#[test]
fn should_refresh_when_already_expired() {
    let kst = chrono::FixedOffset::east_opt(9 * 3600).expect("invalid kst offset");
    let exp = (chrono::Utc::now().with_timezone(&kst) - chrono::Duration::minutes(1))
        .format("%Y%m%d%H%M%S")
        .to_string();
    assert!(should_refresh_from(&exp));
}

#[test]
fn blank_expiry_is_due() {
    assert!(should_refresh_from("   "));
    assert!(should_refresh_at("", (0, 0)));
}

#[test]
fn expiry_is_read_as_kst() {
    // 2024-01-01 09:00:00 KST is 2024-01-01 00:00:00 UTC = 1704067200.
    let exp = "20240101090000";
    // Five minutes before expiry (to the second) renewal becomes due.
    assert!(!should_refresh_at(exp, (1704067200 - 301, 0)));
    assert!(should_refresh_at(exp, (1704067200 - 300, 0)));
    assert!(should_refresh_at(exp, (1704067200 + 10, 0)));
}

#[test]
fn malformed_expiry_is_due() {
    assert!(should_refresh_at("2024010109", (0, 0)));
    assert!(should_refresh_at("20241301090000", (0, 0)));
}

#[test]
fn refresh_due_compares_nanoseconds() {
    assert!(!refresh_due((1000, 500), (700, 499)));
    assert!(refresh_due((1000, 500), (700, 500)));
    assert!(refresh_due((1000, 500), (701, 0)));
    assert!(!refresh_due((1000, 500), (699, 999_999_999)));
}

#[test]
fn refresh_stays_due_later() {
    let exp = "20240101090000";
    let t1 = (1704067200 - 200, 0);
    assert!(should_refresh_at(exp, t1));
    for later in [1704067200 - 100, 1704067200, 1704067200 + 86_400] {
        assert!(should_refresh_at(exp, (later, 0)));
    }
}

fn token(code: &str) -> AccessTokenResponse {
    AccessTokenResponse {
        expires_dt: "20240101090000".to_owned(),
        token_type: "bearer".to_owned(),
        token: "tok".to_owned(),
        return_code: code.to_owned(),
        return_msg: "ok".to_owned(),
    }
}

#[test]
fn token_state_needs_refresh_without_token() {
    let s = TokenState::new();
    assert!(s.should_refresh_at((0, 0)));
    assert!(s.should_refresh());
    match s.current_token() {
        Err(KiwoomError::Decode { raw }) => assert_eq!(raw, "access token missing after ensure_token"),
        other => panic!("unexpected {:?}", other),
    }
}

#[test]
fn token_state_stores_and_checks() {
    let mut s = TokenState::new();
    s.store(token("0"));
    assert_eq!(s.token.as_deref(), Some("tok"));
    assert_eq!(s.token_exp, "20240101090000");
    assert!(!s.should_refresh_at((1704067200 - 3600, 0)));
    assert!(s.should_refresh_at((1704067200, 0)));
    match s.current_token() {
        Ok(t) => assert_eq!(t, "tok"),
        Err(e) => panic!("unexpected {:?}", e),
    }
}

#[test]
fn refresh_skipped_when_another_task_renewed() {
    let prev = TokenState::new();
    let mut cur = TokenState::new();
    cur.store(token("0"));
    // Another task stored a token that is not due: no second renewal.
    assert!(!cur.refresh_still_needed_at(&prev, (1704067200 - 3600, 0)));
    // The stored token is already due: renew.
    assert!(cur.refresh_still_needed_at(&prev, (1704067200, 0)));
    // Nothing changed while waiting: renew.
    let same = cur.clone();
    assert!(cur.refresh_still_needed_at(&same, (1704067200 - 3600, 0)));
}

#[test]
fn expiry_before_chrono_range_is_due() {
    // 08:59:59 KST on chrono's first day is before chrono's first UTC instant.
    let exp = "-262143 01 01 08 59 59";
    assert!(expiry_in_range(exp));
    assert!(should_refresh_at(exp, (0, 0)));
}

#[test]
fn renewal_instant_before_chrono_range_is_refused() {
    // Expiry two minutes into chrono's first UTC day: five minutes earlier is out of range.
    let exp = "-262143 01 01 09 02 00";
    assert!(!expiry_in_range(exp));
    assert_eq!(checked_should_refresh_from(exp), None);
    // Five minutes into that day the renewal instant is exactly the first instant.
    let exp = "-262143 01 01 09 05 00";
    assert!(expiry_in_range(exp));
    assert!(should_refresh_at(exp, (-8_334_601_228_800, 0)));
    assert!(!should_refresh_at(exp, (-8_334_601_228_801, 999_999_999)));
    assert_eq!(checked_should_refresh_from("20240101090000"), Some(true));
    assert_eq!(checked_should_refresh_from(""), Some(true));
}

#[test]
fn leap_second_expiry() {
    // 08:59:60 KST is the leap second before 2024-01-01 00:00:00 UTC.
    let exp = "20240101085960";
    assert!(should_refresh_at(exp, (1704067200 - 300, 0)));
    assert!(!should_refresh_at(exp, (1704067200 - 301, 999_999_999)));
}

#[test]
fn checked_state_checks() {
    let s = TokenState::new();
    assert_eq!(s.checked_should_refresh(), Some(true));
    let mut t = TokenState::new();
    t.store(AccessTokenResponse {
        expires_dt: "-262143 01 01 09 02 00".to_owned(),
        token_type: "bearer".to_owned(),
        token: "tok".to_owned(),
        return_code: "0".to_owned(),
        return_msg: "ok".to_owned(),
    });
    assert_eq!(t.checked_should_refresh(), None);
    assert_eq!(t.checked_refresh_still_needed(&s), None);
    // Nothing changed since the decision: the expiry is not read.
    let same = t.clone();
    assert_eq!(t.checked_refresh_still_needed(&same), Some(true));
}
