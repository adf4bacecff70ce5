//! The Kiwoom REST API's requests, responses and errors, and the rules by which a
//! response is accepted or turned into an error.
use vstd::prelude::*;
use crate::json::{get_i64_spec, get_str_spec, json_of_text, parse_json, Json};
use crate::text::{i64_to_decimal, signed_decimal_spec};

verus! {

/// Why a Kiwoom request failed.
#[derive(Debug)]
pub enum KiwoomError {
    /// The request could not be carried out; the text describes the transport error.
    Transport(String),
    /// The server answered with a status outside 200..=299.
    HttpStatus { status: u16, body: String },
    /// The server answered with a non-zero return code.
    ApiError { code: Option<String>, message: Option<String>, raw: String },
    /// The answer could not be read.
    Decode { raw: String },
}

/// The body of an access-token request.
#[derive(Debug, Clone)]
pub struct AccessTokenRequest {
    pub grant_type: String,
    pub appkey: String,
    pub secretkey: String,
}

/// The answer to an access-token request.
#[derive(Debug, Clone)]
pub struct AccessTokenResponse {
    pub expires_dt: String,
    pub token_type: String,
    pub token: String,
    pub return_code: String,
    pub return_msg: String,
}

/// A stock buy order.
#[derive(Debug, Clone)]
pub struct BuyStockRequest {
    pub dmst_stex_tp: String,
    pub stk_cd: String,
    pub ord_qty: u64,
    pub ord_uv: Option<u64>,
    pub trde_tp: String,
    pub cond_uv: Option<u64>,
}

/// The answer to a buy order.
#[derive(Debug)]
pub struct BuyStockResponse {
    pub ord_no: Option<String>,
    pub dmst_stex_tp: Option<String>,
    pub raw: Json,
}

/// One page of the stock master list, with the paging headers of its answer.
#[derive(Debug)]
pub struct MasterStockPage {
    pub body: Json,
    pub cont_yn: Option<String>,
    pub next_key: Option<String>,
}

pub open spec fn client_credentials() -> Seq<char> {
    seq!['c', 'l', 'i', 'e', 'n', 't', '_', 'c', 'r', 'e', 'd', 'e', 'n', 't', 'i', 'a', 'l', 's']
}

impl AccessTokenRequest {
    /// A client-credentials token request for the given app key and secret.
    pub fn new(appkey: String, secretkey: String) -> (r: AccessTokenRequest)
        ensures
            r.grant_type@ == client_credentials(),
            r.appkey == appkey,
            r.secretkey == secretkey,
    {
        proof {
            reveal_strlit("client_credentials");
            assert("client_credentials"@ =~= client_credentials());
        }
        AccessTokenRequest { grant_type: "client_credentials".to_owned(), appkey, secretkey }
    }
}

/// An HTTP status in the success class, 200..=299.
pub open spec fn is_success_spec(status: u16) -> bool {
    200 <= status <= 299
}

pub open spec fn return_code_key() -> Seq<char> {
    seq!['r', 'e', 't', 'u', 'r', 'n', '_', 'c', 'o', 'd', 'e']
}

pub open spec fn return_msg_key() -> Seq<char> {
    seq!['r', 'e', 't', 'u', 'r', 'n', '_', 'm', 's', 'g']
}

/// Whether an HTTP status is in the success class.
pub fn is_success(status: u16) -> (b: bool)
    ensures
        b == is_success_spec(status),
{
    200 <= status && status <= 299
}

/// The characters of an optional string.
pub open spec fn opt_view(s: Option<String>) -> Option<Seq<char>> {
    match s {
        Some(v) => Some(v@),
        None => None,
    }
}

/// How an API answer with status `status`, text `text` and JSON body `body`
/// (`None` when the text is not JSON) is judged: a status outside 200..=299, then
/// a body that is not JSON, then a non-zero integer `return_code`, are errors, in
/// that order; otherwise the body is accepted.
pub open spec fn checked_body_ok(r: Result<Json, KiwoomError>, status: u16, text: String, body: Option<Json>) -> bool {
    if !is_success_spec(status) {
        r matches Err(KiwoomError::HttpStatus { status: s, body: b }) && s == status && b == text
    } else if body is None {
        r matches Err(KiwoomError::Decode { raw }) && raw == text
    } else if get_i64_spec(body.unwrap(), return_code_key()) matches Some(c) && c != 0 {
        &&& r matches Err(KiwoomError::ApiError { code, message, raw })
        &&& raw == text
        &&& opt_view(code) == Some(signed_decimal_spec(
            get_i64_spec(body.unwrap(), return_code_key()).unwrap() as int,
        ))
        &&& opt_view(message) == get_str_spec(body.unwrap(), return_msg_key())
    } else {
        r == Ok::<Json, KiwoomError>(body.unwrap())
    }
}

/// Judges an API answer; see `checked_body_ok`.
pub fn check_body(status: u16, text: String, body: Option<Json>) -> (r: Result<Json, KiwoomError>)
    ensures
        checked_body_ok(r, status, text, body),
{
    proof {
        reveal_strlit("return_code");
        reveal_strlit("return_msg");
        assert("return_code"@ =~= return_code_key());
        assert("return_msg"@ =~= return_msg_key());
    }
    if !is_success(status) {
        return Err(KiwoomError::HttpStatus { status, body: text });
    }
    match body {
        None => Err(KiwoomError::Decode { raw: text }),
        Some(b) => {
            match b.get_i64("return_code") {
                Some(c) => {
                    if c != 0 {
                        let message = match b.get_str("return_msg") {
                            Some(m) => Some(m.to_owned()),
                            None => None,
                        };
                        return Err(
                            KiwoomError::ApiError {
                                code: Some(i64_to_decimal(c)),
                                message,
                                raw: text,
                            },
                        );
                    }
                },
                None => {},
            }
            Ok(b)
        },
    }
}

/// Reads a page of the stock master list from its answer, read as JSON (`body`),
/// and its paging headers.
pub fn master_stock_page_from(
    status: u16,
    text: String,
    body: Option<Json>,
    cont_yn: Option<String>,
    next_key: Option<String>,
) -> (r: Result<MasterStockPage, KiwoomError>)
    ensures
        match r {
            Ok(p) => checked_body_ok(Ok(p.body), status, text, body) && p.cont_yn == cont_yn
                && p.next_key == next_key,
            Err(e) => checked_body_ok(Err(e), status, text, body),
        },
{
    match check_body(status, text, body) {
        Ok(b) => Ok(MasterStockPage { body: b, cont_yn, next_key }),
        Err(e) => Err(e),
    }
}

/// Reads a page of the stock master list from the text of its answer and its
/// paging headers: the text is read as JSON, then judged as `check_body` does.
pub fn master_stock_page(
    status: u16,
    text: String,
    cont_yn: Option<String>,
    next_key: Option<String>,
) -> (r: Result<MasterStockPage, KiwoomError>)
    ensures
        match r {
            Ok(p) => checked_body_ok(Ok(p.body), status, text, json_of_text(text@)) && p.cont_yn
                == cont_yn && p.next_key == next_key,
            Err(e) => checked_body_ok(Err(e), status, text, json_of_text(text@)),
        },
{
    let body = parse_json(text.as_str());
    master_stock_page_from(status, text, body, cont_yn, next_key)
}

pub open spec fn ord_no_key() -> Seq<char> {
    seq!['o', 'r', 'd', '_', 'n', 'o']
}

pub open spec fn dmst_stex_tp_key() -> Seq<char> {
    seq!['d', 'm', 's', 't', '_', 's', 't', 'e', 'x', '_', 't', 'p']
}

/// Reads the answer to a buy order, read as JSON (`body`): the order number and
/// exchange type, when the body holds them as strings, and the body itself.
pub fn buy_stock_response_from(status: u16, text: String, body: Option<Json>) -> (r: Result<
    BuyStockResponse,
    KiwoomError,
>)
    ensures
        match r {
            Ok(resp) => {
                &&& checked_body_ok(Ok(resp.raw), status, text, body)
                &&& opt_view(resp.ord_no) == get_str_spec(resp.raw, ord_no_key())
                &&& opt_view(resp.dmst_stex_tp) == get_str_spec(resp.raw, dmst_stex_tp_key())
            },
            Err(e) => checked_body_ok(Err(e), status, text, body),
        },
{
    proof {
        reveal_strlit("ord_no");
        reveal_strlit("dmst_stex_tp");
        assert("ord_no"@ =~= ord_no_key());
        assert("dmst_stex_tp"@ =~= dmst_stex_tp_key());
    }
    match check_body(status, text, body) {
        Ok(b) => {
            let ord_no = match b.get_str("ord_no") {
                Some(s) => Some(s.to_owned()),
                None => None,
            };
            let dmst_stex_tp = match b.get_str("dmst_stex_tp") {
                Some(s) => Some(s.to_owned()),
                None => None,
            };
            Ok(BuyStockResponse { ord_no, dmst_stex_tp, raw: b })
        },
        Err(e) => Err(e),
    }
}

/// Reads the answer to a buy order from its text: the text is read as JSON, then
/// judged as `buy_stock_response_from` does.
pub fn buy_stock_response(status: u16, text: String) -> (r: Result<BuyStockResponse, KiwoomError>)
    ensures
        match r {
            Ok(resp) => {
                &&& checked_body_ok(Ok(resp.raw), status, text, json_of_text(text@))
                &&& opt_view(resp.ord_no) == get_str_spec(resp.raw, ord_no_key())
                &&& opt_view(resp.dmst_stex_tp) == get_str_spec(resp.raw, dmst_stex_tp_key())
            },
            Err(e) => checked_body_ok(Err(e), status, text, json_of_text(text@)),
        },
{
    let body = parse_json(text.as_str());
    buy_stock_response_from(status, text, body)
}

/// Judges the answer to a token request, `parsed` being its body read as a token
/// answer (`None` when it cannot be): a status outside 200..=299 is an error, a
/// body that is not a token answer is a decode error, and a return code other
/// than `0` is an API error carrying the code and message.
pub fn token_response(status: u16, text: String, parsed: Option<AccessTokenResponse>) -> (r: Result<
    AccessTokenResponse,
    KiwoomError,
>)
    ensures
        !is_success_spec(status) ==> (r matches Err(KiwoomError::HttpStatus { status: s, body: b })
            && s == status && b == text),
        is_success_spec(status) && parsed is None ==> (r matches Err(KiwoomError::Decode { raw })
            && raw == text),
        is_success_spec(status) && parsed is Some && parsed.unwrap().return_code@ != seq!['0']
            ==> (r matches Err(KiwoomError::ApiError { code, message, raw }) && code == Some(
            parsed.unwrap().return_code,
        ) && message == Some(parsed.unwrap().return_msg) && raw == text),
        is_success_spec(status) && parsed is Some && parsed.unwrap().return_code@ == seq!['0']
            ==> r == Ok::<AccessTokenResponse, KiwoomError>(parsed.unwrap()),
{
    if !is_success(status) {
        return Err(KiwoomError::HttpStatus { status, body: text });
    }
    match parsed {
        None => Err(KiwoomError::Decode { raw: text }),
        Some(ok) => {
            proof {
                reveal_strlit("0");
                assert("0"@ =~= seq!['0']);
            }
            if !crate::json::str_eq(ok.return_code.as_str(), "0") {
                let AccessTokenResponse { expires_dt: _, token_type: _, token: _, return_code, return_msg } = ok;
                return Err(
                    KiwoomError::ApiError {
                        code: Some(return_code),
                        message: Some(return_msg),
                        raw: text,
                    },
                );
            }
            Ok(ok)
        },
    }
}

} // verus!
