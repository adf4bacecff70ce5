use krx_toolkit::json::{json_text, Json, JsonNumber};
use krx_toolkit::kiwoom::{
    buy_stock_response, buy_stock_response_from, check_body, is_success, master_stock_page,
    master_stock_page_from, token_response,
    AccessTokenRequest, AccessTokenResponse, BuyStockRequest, KiwoomError, MasterStockPage,
};
use krx_toolkit::paging::{should_continue, MasterPaging};
use krx_toolkit::payloads::{buy_order_payload, login_payload, master_stock_payload, reg_payload, remove_payload};
use krx_toolkit::reg_data::WsRegData;
use krx_toolkit::rest::{
    buy_stock_event, master_stock_error_event, master_stock_event, plan_rest_command, token_event,
    RestCommand, RestEvent, RestJob,
};
use krx_toolkit::ws_frames::{
    frame_message_from, frame_outcome, not_connected_error, pong_send_error, text_frame_message, FrameOutcome,
    WsFrame,
};
use krx_toolkit::ws_messages::{extract_trnm, extract_ws_topic, is_login_ack, is_ping, return_code_is_ok};

fn s(v: &str) -> Json {
    Json::String(v.to_owned())
}

fn n(v: i64) -> Json {
    Json::Number(JsonNumber { as_i64: Some(v), literal: v.to_string() })
}

fn obj(members: Vec<(&str, Json)>) -> Json {
    Json::Object(members.into_iter().map(|(k, v)| (k.to_owned(), v)).collect())
}

fn member<'a>(v: &'a Json, i: usize) -> (&'a str, &'a Json) {
    match v {
        Json::Object(m) => (m[i].0.as_str(), &m[i].1),
        _ => panic!("not an object"),
    }
}

fn as_str(v: &Json) -> &str {
    match v {
        Json::String(s) => s.as_str(),
        other => panic!("not a string: {:?}", other),
    }
}

#[test]
fn access_token_request_uses_client_credentials() {
    let r = AccessTokenRequest::new("key".to_owned(), "secret".to_owned());
    assert_eq!(r.grant_type, "client_credentials");
    assert_eq!(r.appkey, "key");
    assert_eq!(r.secretkey, "secret");
}

#[test]
fn success_statuses() {
    assert!(is_success(200));
    assert!(is_success(299));
    assert!(!is_success(199));
    assert!(!is_success(300));
    assert!(!is_success(404));
}

#[test]
fn body_errors_in_order() {
    match check_body(500, "oops".to_owned(), None) {
        Err(KiwoomError::HttpStatus { status, body }) => {
            assert_eq!(status, 500);
            assert_eq!(body, "oops");
        }
        other => panic!("unexpected {:?}", other),
    }
    match check_body(200, "not json".to_owned(), None) {
        Err(KiwoomError::Decode { raw }) => assert_eq!(raw, "not json"),
        other => panic!("unexpected {:?}", other),
    }
    let body = obj(vec![("return_code", n(-3)), ("return_msg", s("denied"))]);
    match check_body(200, "{..}".to_owned(), Some(body)) {
        Err(KiwoomError::ApiError { code, message, raw }) => {
            assert_eq!(code.as_deref(), Some("-3"));
            assert_eq!(message.as_deref(), Some("denied"));
            assert_eq!(raw, "{..}");
        }
        other => panic!("unexpected {:?}", other),
    }
    let body = obj(vec![("return_code", n(0)), ("list", Json::Array(vec![]))]);
    assert!(check_body(200, "{}".to_owned(), Some(body)).is_ok());
    let body = obj(vec![("return_code", s("7"))]);
    assert!(check_body(201, "{}".to_owned(), Some(body)).is_ok());
}

#[test]
fn buy_response_reads_order_number() {
    let body = obj(vec![("return_code", n(0)), ("ord_no", s("0000123")), ("dmst_stex_tp", s("KRX"))]);
    let r = buy_stock_response_from(200, "t".to_owned(), Some(body)).expect("accepted");
    assert_eq!(r.ord_no.as_deref(), Some("0000123"));
    assert_eq!(r.dmst_stex_tp.as_deref(), Some("KRX"));
    let body = obj(vec![("ord_no", n(5))]);
    let r = buy_stock_response_from(200, "t".to_owned(), Some(body)).expect("accepted");
    assert!(r.ord_no.is_none());
    assert!(r.dmst_stex_tp.is_none());
    assert!(matches!(buy_stock_response_from(400, "bad".to_owned(), None), Err(KiwoomError::HttpStatus { status: 400, .. })));
}

#[test]
fn master_page_keeps_headers() {
    let p = master_stock_page_from(200, "{}".to_owned(), Some(obj(vec![])), Some("Y".to_owned()), Some("k1".to_owned()))
        .expect("accepted");
    assert_eq!(p.cont_yn.as_deref(), Some("Y"));
    assert_eq!(p.next_key.as_deref(), Some("k1"));
    assert!(matches!(master_stock_page_from(200, "x".to_owned(), None, None, None), Err(KiwoomError::Decode { .. })));
}

fn token_answer(code: &str) -> AccessTokenResponse {
    AccessTokenResponse {
        expires_dt: "20300101000000".to_owned(),
        token_type: "bearer".to_owned(),
        token: "abc".to_owned(),
        return_code: code.to_owned(),
        return_msg: "msg".to_owned(),
    }
}

#[test]
fn token_answers() {
    let ok = token_response(200, "t".to_owned(), Some(token_answer("0"))).expect("accepted");
    assert_eq!(ok.token, "abc");
    match token_response(200, "t".to_owned(), Some(token_answer("3"))) {
        Err(KiwoomError::ApiError { code, message, raw }) => {
            assert_eq!(code.as_deref(), Some("3"));
            assert_eq!(message.as_deref(), Some("msg"));
            assert_eq!(raw, "t");
        }
        other => panic!("unexpected {:?}", other),
    }
    assert!(matches!(token_response(200, "garbage".to_owned(), None), Err(KiwoomError::Decode { .. })));
    assert!(matches!(token_response(503, "down".to_owned(), Some(token_answer("0"))), Err(KiwoomError::HttpStatus { status: 503, .. })));
}

#[test]
fn paging_continues_on_y_with_next_key() {
    assert!(should_continue(Some(" Y ")));
    assert!(should_continue(Some("y")));
    assert!(!should_continue(Some("N")));
    assert!(!should_continue(Some("YY")));
    assert!(!should_continue(None));

    let mut p = MasterPaging::new();
    assert_eq!(p.cont_yn(), None);
    let more = p.accept_page(MasterStockPage { body: n(1), cont_yn: Some("Y".to_owned()), next_key: Some("k2".to_owned()) });
    assert!(more);
    assert_eq!(p.cont_yn(), Some("Y"));
    assert_eq!(p.next_key(), Some("k2"));
    let more = p.accept_page(MasterStockPage { body: n(2), cont_yn: Some("Y".to_owned()), next_key: None });
    assert!(!more);
    assert_eq!(p.next_key(), Some("k2"));
    assert_eq!(p.page_count(), 2);
    match master_stock_event(9, p) {
        RestEvent::MasterStock { request_id, pages, total_pages } => {
            assert_eq!(request_id, 9);
            assert_eq!(total_pages, 2);
            assert_eq!(pages.len(), 2);
            assert!(matches!(pages[1], Json::Number(JsonNumber { as_i64: Some(2), .. })));
        }
        other => panic!("unexpected {:?}", other),
    }
}

#[test]
fn rest_commands_become_jobs() {
    assert!(matches!(plan_rest_command(RestCommand::AccessToken { request_id: 1 }), RestJob::AccessToken { request_id: 1 }));
    assert!(matches!(plan_rest_command(RestCommand::Shutdown), RestJob::Shutdown));
    match plan_rest_command(RestCommand::FetchMasterStock { request_id: 2, mrkt_tp: "10".to_owned() }) {
        RestJob::FetchMasterStock { request_id, mrkt_tp } => {
            assert_eq!(request_id, 2);
            assert_eq!(mrkt_tp, "10");
        }
        other => panic!("unexpected {:?}", other),
    }
    let cmd = RestCommand::BuyStock {
        request_id: 3,
        dmst_stex_tp: "KRX".to_owned(),
        stk_cd: "005930".to_owned(),
        ord_qty: 10,
        ord_uv: Some(71_000),
        trde_tp: "0".to_owned(),
        cond_uv: None,
    };
    match plan_rest_command(cmd) {
        RestJob::BuyStock { request_id, request, stk_cd, ord_qty, trde_tp } => {
            assert_eq!(request_id, 3);
            assert_eq!(request.stk_cd, "005930");
            assert_eq!(request.ord_uv, Some(71_000));
            assert_eq!(stk_cd, "005930");
            assert_eq!(ord_qty, 10);
            assert_eq!(trde_tp, "0");
        }
        other => panic!("unexpected {:?}", other),
    }
}

#[test]
fn rest_events_name_the_failure() {
    match token_event(4, Err("boom".to_owned())) {
        RestEvent::Error { request_id, message } => {
            assert_eq!(request_id, Some(4));
            assert_eq!(message, "access_token failed: boom");
        }
        other => panic!("unexpected {:?}", other),
    }
    assert!(matches!(token_event(4, Ok("tok".to_owned())), RestEvent::AccessToken { request_id: 4, .. }));
    match master_stock_error_event(5, "x") {
        RestEvent::Error { message, .. } => assert_eq!(message, "fetch_master_stock failed: x"),
        other => panic!("unexpected {:?}", other),
    }
    match buy_stock_event(6, "A".to_owned(), 1, "0".to_owned(), Err("no".to_owned())) {
        RestEvent::Error { message, .. } => assert_eq!(message, "buy_stock failed: no"),
        other => panic!("unexpected {:?}", other),
    }
}

#[test]
fn payload_shapes() {
    let login = login_payload("tok");
    assert_eq!(member(&login, 0).0, "trnm");
    assert_eq!(as_str(member(&login, 0).1), "LOGIN");
    assert_eq!(as_str(member(&login, 1).1), "tok");

    let data = vec![WsRegData { item: vec!["005930".to_owned()], types: vec!["0D".to_owned()] }];
    let reg = reg_payload(&data);
    assert_eq!(as_str(member(&reg, 0).1), "REG");
    assert_eq!(member(&reg, 1).0, "grp_no");
    assert_eq!(member(&reg, 2).0, "refresh");
    assert_eq!(member(&reg, 3).0, "data");
    match member(&reg, 3).1 {
        Json::Array(entries) => {
            assert_eq!(entries.len(), 1);
            assert_eq!(member(&entries[0], 0).0, "item");
            assert_eq!(member(&entries[0], 1).0, "type");
        }
        other => panic!("unexpected {:?}", other),
    }
    let rem = remove_payload(&data);
    assert_eq!(as_str(member(&rem, 0).1), "REMOVE");
    assert_eq!(member(&rem, 2).0, "data");

    let m = master_stock_payload("0");
    assert_eq!(member(&m, 0).0, "mrkt_tp");
    assert_eq!(as_str(member(&m, 0).1), "0");

    let buy = buy_order_payload(BuyStockRequest {
        dmst_stex_tp: "KRX".to_owned(),
        stk_cd: "005930".to_owned(),
        ord_qty: 12,
        ord_uv: None,
        trde_tp: "3".to_owned(),
        cond_uv: Some(70_000),
    });
    assert_eq!(as_str(member(&buy, 2).1), "12");
    assert!(matches!(member(&buy, 3).1, Json::Null));
    assert_eq!(as_str(member(&buy, 5).1), "70000");
}

#[test]
fn frames_are_sorted_out() {
    assert!(matches!(frame_outcome(WsFrame::Text("{}".to_owned())), FrameOutcome::Deliver(_)));
    match frame_outcome(WsFrame::Binary(12)) {
        FrameOutcome::Fail(KiwoomError::Decode { raw }) => assert_eq!(raw, "unexpected binary frame(len=12)"),
        other => panic!("unexpected {:?}", other),
    }
    assert!(matches!(frame_outcome(WsFrame::Ping(vec![1, 2])), FrameOutcome::SendPong(p) if p == vec![1, 2]));
    assert!(matches!(frame_outcome(WsFrame::Pong), FrameOutcome::Skip));
    assert!(matches!(frame_outcome(WsFrame::Frame), FrameOutcome::Skip));
    match frame_outcome(WsFrame::Close("None".to_owned())) {
        FrameOutcome::Disconnect(KiwoomError::Decode { raw }) => assert_eq!(raw, "ws closed by server: None"),
        other => panic!("unexpected {:?}", other),
    }
    match frame_outcome(WsFrame::Failed("reset".to_owned())) {
        FrameOutcome::Disconnect(KiwoomError::Decode { raw }) => assert_eq!(raw, "ws recv error: reset"),
        other => panic!("unexpected {:?}", other),
    }
    match frame_outcome(WsFrame::Ended) {
        FrameOutcome::Disconnect(KiwoomError::Decode { raw }) => assert_eq!(raw, "ws stream ended"),
        other => panic!("unexpected {:?}", other),
    }
    assert!(matches!(not_connected_error(), KiwoomError::Decode { raw } if raw == "ws not connected"));
    assert!(matches!(pong_send_error("e"), KiwoomError::Decode { raw } if raw == "ws pong send error: e"));
    assert!(matches!(frame_message_from("bad".to_owned(), None), Err(KiwoomError::Decode { raw }) if raw == "bad"));
    assert!(frame_message_from("1".to_owned(), Some(n(1))).is_ok());
}

#[test]
fn realtime_message_reading() {
    let ping = obj(vec![("trnm", s("PING"))]);
    assert!(is_ping(&ping));
    assert!(!is_login_ack(&ping));
    assert_eq!(extract_trnm(&ping), Some("PING"));
    assert_eq!(extract_trnm(&obj(vec![("trnm", n(1))])), None);
    assert!(return_code_is_ok(&obj(vec![("return_code", n(0))])));
    assert!(return_code_is_ok(&obj(vec![("return_code", s("0"))])));
    assert!(!return_code_is_ok(&obj(vec![("return_code", s("00"))])));
    assert!(!return_code_is_ok(&obj(vec![("return_code", n(1))])));
    assert!(!return_code_is_ok(&obj(vec![])));

    let msg = obj(vec![("trnm", s("REAL")), ("type", s(" 0D ")), ("item", s(" 005930"))]);
    let t = extract_ws_topic(&msg).expect("topic");
    assert_eq!(t.ty, "0D");
    assert_eq!(t.item, "005930");
    let msg = obj(vec![("trnm", s("REAL")), ("stk_cd", s("000660"))]);
    let t = extract_ws_topic(&msg).expect("topic");
    assert_eq!(t.ty, "REAL");
    assert_eq!(t.item, "000660");
    assert!(extract_ws_topic(&obj(vec![("type", s("0D")), ("item", s("  "))])).is_none());
    assert!(extract_ws_topic(&obj(vec![("item", s("A"))])).is_none());
}

#[test]
fn answers_are_read_from_their_text() {
    let r = buy_stock_response(200, r#"{"return_code":0,"ord_no":"0000123","dmst_stex_tp":"KRX"}"#.to_owned())
        .expect("accepted");
    assert_eq!(r.ord_no.as_deref(), Some("0000123"));
    assert_eq!(r.dmst_stex_tp.as_deref(), Some("KRX"));
    match buy_stock_response(200, r#"{"return_code":5,"return_msg":"no money"}"#.to_owned()) {
        Err(KiwoomError::ApiError { code, message, .. }) => {
            assert_eq!(code.as_deref(), Some("5"));
            assert_eq!(message.as_deref(), Some("no money"));
        }
        other => panic!("unexpected {:?}", other),
    }
    match buy_stock_response(200, "not json".to_owned()) {
        Err(KiwoomError::Decode { raw }) => assert_eq!(raw, "not json"),
        other => panic!("unexpected {:?}", other),
    }
    let p = master_stock_page(200, r#"{"list":[{"code":"005930"}]}"#.to_owned(), Some("N".to_owned()), None)
        .expect("accepted");
    match &p.body {
        Json::Object(m) => {
            assert_eq!(m[0].0, "list");
            assert!(matches!(&m[0].1, Json::Array(a) if a.len() == 1));
        }
        other => panic!("unexpected {:?}", other),
    }
    assert!(matches!(master_stock_page(404, "gone".to_owned(), None, None), Err(KiwoomError::HttpStatus { status: 404, .. })));
}

#[test]
fn frames_are_read_as_json() {
    match text_frame_message(r#"{"trnm":"PING","n":12}"#.to_owned()) {
        Ok(v) => {
            assert!(is_ping(&v));
            match &v {
                Json::Object(m) => assert!(matches!(&m[0].1, Json::Number(JsonNumber { as_i64: Some(12), .. }))),
                other => panic!("unexpected {:?}", other),
            }
        }
        Err(e) => panic!("unexpected {:?}", e),
    }
    assert!(matches!(text_frame_message("{bad".to_owned()), Err(KiwoomError::Decode { raw }) if raw == "{bad"));
}

#[test]
fn payloads_are_written_as_json_text() {
    let text = json_text(&login_payload("tok"));
    assert_eq!(text, r#"{"token":"tok","trnm":"LOGIN"}"#);
    let back = text_frame_message(text).expect("json");
    assert!(is_login_ack(&back));
}
