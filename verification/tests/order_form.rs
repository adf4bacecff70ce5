use krx_toolkit::json::{Json, JsonNumber};
use krx_toolkit::order_form::{
    buy_price_ref_level_label, buy_price_ref_levels, clamp_percent, commit_amount_draft, commit_krw_draft,
    commit_percent_draft, format_i64_with_commas, format_price_text, normalize_ref_level,
    parse_amount, parse_krw_amount, parse_percent, price_from_0d_by_ref_level,
    ref_level_to_0d_key, DEFAULT_BUY_PRICE_REF_LEVEL, DEFAULT_ONCE_INVESTMENT_AMOUNT,
};

#[test]
fn parse_amount_ignores_separators_and_whitespace() {
    assert_eq!(parse_amount(" 100,000 "), Some(100_000));
    assert_eq!(parse_amount("1_000_000"), Some(1_000_000));
    assert_eq!(parse_amount("1 234"), Some(1_234));
    assert_eq!(parse_amount("+5"), Some(5));
}

#[test]
fn parse_amount_rejects_zero_negative_and_junk() {
    assert_eq!(parse_amount("0"), None);
    assert_eq!(parse_amount("-5"), None);
    assert_eq!(parse_amount(""), None);
    assert_eq!(parse_amount("abc"), None);
    assert_eq!(parse_amount("18446744073709551616"), None);
    assert_eq!(parse_amount("18446744073709551615"), Some(u64::MAX));
}

#[test]
fn parse_percent_clamps_into_range() {
    assert_eq!(parse_percent("50%"), Some(50));
    assert_eq!(parse_percent("150"), Some(100));
    assert_eq!(parse_percent("-20"), Some(0));
    assert_eq!(parse_percent(" 1_0 % "), Some(10));
    assert_eq!(parse_percent("x"), None);
    assert_eq!(parse_percent("9999999999"), None);
    assert_eq!(clamp_percent(-1), 0);
    assert_eq!(clamp_percent(101), 100);
    assert_eq!(clamp_percent(42), 42);
}

#[test]
fn parse_krw_amount_accepts_zero() {
    assert_eq!(parse_krw_amount("0"), Some(0));
    assert_eq!(parse_krw_amount("12,500"), Some(12_500));
    assert_eq!(parse_krw_amount("-1"), None);
    assert_eq!(parse_krw_amount("1.5"), None);
}

#[test]
fn commit_drafts_rewrite_the_draft() {
    assert_eq!(commit_amount_draft(DEFAULT_ONCE_INVESTMENT_AMOUNT, "2,000"), (2_000, "2000".to_owned()));
    assert_eq!(commit_amount_draft(100_000, "zero"), (100_000, "100000".to_owned()));
    assert_eq!(commit_amount_draft(100_000, "0"), (100_000, "100000".to_owned()));
    assert_eq!(commit_percent_draft(5, "250"), (100, "100".to_owned()));
    assert_eq!(commit_percent_draft(5, "?"), (5, "5".to_owned()));
    assert_eq!(commit_krw_draft(7, "0"), (0, "0".to_owned()));
    assert_eq!(commit_krw_draft(7, "x"), (7, "7".to_owned()));
}

#[test]
fn ref_levels_map_to_order_book_keys() {
    assert_eq!(ref_level_to_0d_key(-5), Some("45"));
    assert_eq!(ref_level_to_0d_key(-1), Some("41"));
    assert_eq!(ref_level_to_0d_key(1), Some("51"));
    assert_eq!(ref_level_to_0d_key(5), Some("55"));
    assert_eq!(ref_level_to_0d_key(0), None);
    assert_eq!(ref_level_to_0d_key(6), None);
    assert_eq!(ref_level_to_0d_key(-6), None);
}

#[test]
fn ref_level_labels_and_normalization() {
    assert_eq!(buy_price_ref_level_label(-3), "매도3호가");
    assert_eq!(buy_price_ref_level_label(2), "매수2호가");
    assert_eq!(buy_price_ref_level_label(0), "매수1호가");
    assert_eq!(buy_price_ref_level_label(9), "매수1호가");
    assert_eq!(normalize_ref_level(0), DEFAULT_BUY_PRICE_REF_LEVEL);
    assert_eq!(normalize_ref_level(-4), -4);
    assert_eq!(normalize_ref_level(7), 1);
}

#[test]
fn commas_every_three_digits() {
    assert_eq!(format_i64_with_commas(0), "0");
    assert_eq!(format_i64_with_commas(999), "999");
    assert_eq!(format_i64_with_commas(1000), "1,000");
    assert_eq!(format_i64_with_commas(1234567), "1,234,567");
    assert_eq!(format_i64_with_commas(-1234), "-1,234");
    assert_eq!(format_i64_with_commas(i64::MAX), "9,223,372,036,854,775,807");
}

#[test]
fn price_text_formatting() {
    assert_eq!(format_price_text(""), "-");
    assert_eq!(format_price_text("  "), "-");
    assert_eq!(format_price_text("-71500"), "71,500");
    assert_eq!(format_price_text("+71500"), "71,500");
    assert_eq!(format_price_text(" 1,234 "), "1,234");
    assert_eq!(format_price_text("12.5"), "12.5");
    assert_eq!(format_price_text("n/a,"), "n/a");
}

#[test]
fn shown_price_reads_back_unchanged() {
    for v in [0i64, 7, 999, 1_000, 71_500, 1_234_567, i64::MAX] {
        let shown = format_i64_with_commas(v);
        assert_eq!(format_price_text(&shown), shown);
    }
}

fn s(v: &str) -> Json {
    Json::String(v.to_owned())
}

fn order_book_message() -> Json {
    Json::Object(vec![
        ("trnm".to_owned(), s("REAL")),
        (
            "values".to_owned(),
            Json::Object(vec![
                ("41".to_owned(), s("-71500")),
                ("51".to_owned(), s("71400")),
                ("52".to_owned(), Json::Number(JsonNumber { as_i64: Some(1), literal: "1".to_owned() })),
            ]),
        ),
    ])
}

#[test]
fn price_from_order_book_message() {
    let msg = order_book_message();
    assert_eq!(price_from_0d_by_ref_level(Some(&msg), -1), Some("-71500"));
    assert_eq!(price_from_0d_by_ref_level(Some(&msg), 1), Some("71400"));
    assert_eq!(price_from_0d_by_ref_level(Some(&msg), 2), None);
    assert_eq!(price_from_0d_by_ref_level(Some(&msg), 3), None);
    assert_eq!(price_from_0d_by_ref_level(Some(&msg), 0), None);
    assert_eq!(price_from_0d_by_ref_level(None, 1), None);
    let no_values = Json::Object(vec![("values".to_owned(), Json::Array(vec![]))]);
    assert_eq!(price_from_0d_by_ref_level(Some(&no_values), 1), None);
}

#[test]
fn commas_come_out_to_the_plain_number() {
    for v in [0i64, 5, -5, 123, -123, 1_000, -1_000_000, 98_765_432, i64::MIN, i64::MAX] {
        assert_eq!(format_i64_with_commas(v).replace(',', ""), v.to_string());
    }
    // The sign counts as a digit position when grouping.
    assert_eq!(format_i64_with_commas(-123), "-,123");
}

#[test]
fn ref_level_choices() {
    let levels = buy_price_ref_levels();
    assert_eq!(levels, vec![-5, -4, -3, -2, -1, 1, 2, 3, 4, 5]);
    for l in levels {
        assert_eq!(normalize_ref_level(l), l);
        assert!(ref_level_to_0d_key(l).is_some());
    }
}

#[test]
fn committed_draft_commits_to_itself() {
    for v in [1u64, 100_000, u64::MAX] {
        let (value, draft) = commit_amount_draft(7, &v.to_string());
        assert_eq!((value, draft.clone()), (v, v.to_string()));
        assert_eq!(commit_amount_draft(value, &draft), (value, draft));
    }
    for v in [0u64, 12_500] {
        assert_eq!(commit_krw_draft(9, &v.to_string()), (v, v.to_string()));
    }
    for p in [0i32, 5, 100] {
        assert_eq!(commit_percent_draft(50, &p.to_string()), (p, p.to_string()));
    }
}

#[test]
fn shown_text_shows_the_same_again() {
    for raw in ["", "  ", "-71500", " 1,234 ", "12.5", "n/a,", "-", "abc"] {
        let once = format_price_text(raw);
        assert_eq!(format_price_text(&once), once);
    }
}
