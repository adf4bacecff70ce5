use krx_toolkit::codes::count_master_records;
use krx_toolkit::json::Json;
use krx_toolkit::master::{collect_ticker_matches, MasterData, TickerSearchState, TickerSelection};

fn s(v: &str) -> Json {
    Json::String(v.to_owned())
}

fn row(code: &str, name: &str) -> Json {
    Json::Object(vec![("code".to_owned(), s(code)), ("name".to_owned(), s(name))])
}

fn row_with_market(code: &str, name: &str, market: &str) -> Json {
    Json::Object(vec![
        ("code".to_owned(), s(code)),
        ("name".to_owned(), s(name)),
        ("marketName".to_owned(), s(market)),
    ])
}

fn page(rows: Vec<Json>) -> Json {
    Json::Object(vec![("list".to_owned(), Json::Array(rows))])
}

fn master() -> MasterData {
    MasterData {
        kospi_pages: vec![
            page(vec![
                row("005930", "삼성전자"),
                row("000660", "SK하이닉스"),
                row(" 005935 ", " 삼성전자우 "),
            ]),
            page(vec![row("005930", "삼성전자 duplicate"), row("", "blank code"), Json::Null]),
        ],
        kosdaq_pages: vec![page(vec![
            row_with_market("035720", "Kakao Games", "  "),
            row_with_market("247540", "에코프로비엠", "KOSDAQ GLOBAL"),
        ])],
    }
}

fn codes(v: &[TickerSelection]) -> Vec<&str> {
    v.iter().map(|t| t.code.as_str()).collect()
}

#[test]
fn ticker_search_by_code_prefix() {
    let m = master();
    let r = collect_ticker_matches(&m, " 0059 ", 30);
    assert_eq!(codes(&r), vec!["005930", "005935"]);
    assert_eq!(r[1].name, "삼성전자우");
    assert_eq!(r[0].market, "KOSPI");
}

#[test]
fn ticker_search_by_name_ignores_case() {
    let m = master();
    let r = collect_ticker_matches(&m, "KAKAO", 30);
    assert_eq!(codes(&r), vec!["035720"]);
    assert_eq!(r[0].market, "KOSDAQ");
    let r = collect_ticker_matches(&m, "sk하이", 30);
    assert_eq!(codes(&r), vec!["000660"]);
    let r = collect_ticker_matches(&m, "에코", 30);
    assert_eq!(r[0].market, "KOSDAQ GLOBAL");
}

#[test]
fn ticker_search_limits_and_dedups() {
    let m = master();
    let r = collect_ticker_matches(&m, "0", 2);
    assert_eq!(codes(&r), vec!["005930", "000660"]);
    let r = collect_ticker_matches(&m, "삼성", 30);
    assert_eq!(codes(&r), vec!["005930", "005935"]);
    assert!(collect_ticker_matches(&m, "0", 0).is_empty());
    assert!(collect_ticker_matches(&m, "   ", 5).is_empty());
    assert!(collect_ticker_matches(&m, "zzz", 5).is_empty());
}

#[test]
fn search_box_state() {
    let mut st = TickerSearchState::new();
    assert!(!st.popup_allowed());
    assert!(st.output().selected.is_none());
    st.query = "  ".to_owned();
    assert!(!st.popup_allowed());
    st.query = "삼".to_owned();
    assert!(st.popup_allowed());
    st.pick(TickerSelection { code: "005930".to_owned(), name: "삼성전자".to_owned(), market: "KOSPI".to_owned() });
    assert_eq!(st.query, "005930");
    let out = st.output().selected.expect("picked");
    assert_eq!(out.code, "005930");
    assert_eq!(out.name, "삼성전자");
    assert_eq!(out.market, "KOSPI");
}

#[test]
fn master_records_are_counted_once_per_code() {
    let pages = vec![
        page(vec![row("005930", "a"), row(" 005930", "b"), row("000660", "c")]),
        Json::Object(vec![
            ("isu_cd".to_owned(), s("111111")),
            ("nested".to_owned(), Json::Array(vec![Json::Object(vec![("stk_cd".to_owned(), s("222222"))])])),
            ("blank".to_owned(), Json::Object(vec![("code".to_owned(), s("  "))])),
        ]),
    ];
    assert_eq!(count_master_records(&pages), 4);
    assert_eq!(count_master_records(&vec![]), 0);
}

#[test]
fn first_code_key_wins() {
    let pages = vec![Json::Object(vec![
        ("shrn_iscd".to_owned(), s("B")),
        ("code".to_owned(), s("A")),
    ])];
    assert_eq!(count_master_records(&pages), 1);
    let pages2 = vec![Json::Object(vec![
        ("code".to_owned(), Json::Null),
        ("isu_cd".to_owned(), s("C")),
    ])];
    assert_eq!(count_master_records(&pages2), 1);
}
