//! The JSON bodies the library sends: the realtime login and registration
//! requests, the master-list request and the buy order.
use vstd::prelude::*;
use crate::json::Json;
use crate::kiwoom::BuyStockRequest;
use crate::reg_data::{strings_view, WsRegData};
use crate::text::{decimal_spec, u64_to_decimal};

verus! {

/// `v` is a JSON string holding `s`.
pub open spec fn is_json_str(v: Json, s: Seq<char>) -> bool {
    v matches Json::String(t) && t@ == s
}

/// `v` is a JSON array of the strings `strs`, in order.
pub open spec fn is_json_str_array(v: Json, strs: Seq<Seq<char>>) -> bool {
    &&& v matches Json::Array(a)
    &&& a@.len() == strs.len()
    &&& forall|i: int| 0 <= i < strs.len() ==> is_json_str(#[trigger] a@[i], strs[i])
}

/// `v` is an object whose members are named `names`, in order.
pub open spec fn member_names(v: Json, names: Seq<Seq<char>>) -> bool {
    &&& v matches Json::Object(m)
    &&& m@.len() == names.len()
    &&& forall|i: int| 0 <= i < names.len() ==> (#[trigger] m@[i]).0@ == names[i]
}

/// The value of the `i`-th member of an object.
pub open spec fn member_value(v: Json, i: int) -> Json {
    match v {
        Json::Object(m) => m@[i].1,
        _ => Json::Null,
    }
}

pub open spec fn s_trnm() -> Seq<char> {
    seq!['t', 'r', 'n', 'm']
}

pub open spec fn s_token() -> Seq<char> {
    seq!['t', 'o', 'k', 'e', 'n']
}

pub open spec fn s_login() -> Seq<char> {
    seq!['L', 'O', 'G', 'I', 'N']
}

pub open spec fn s_grp_no() -> Seq<char> {
    seq!['g', 'r', 'p', '_', 'n', 'o']
}

pub open spec fn s_refresh() -> Seq<char> {
    seq!['r', 'e', 'f', 'r', 'e', 's', 'h']
}

pub open spec fn s_data() -> Seq<char> {
    seq!['d', 'a', 't', 'a']
}

pub open spec fn s_item() -> Seq<char> {
    seq!['i', 't', 'e', 'm']
}

pub open spec fn s_type() -> Seq<char> {
    seq!['t', 'y', 'p', 'e']
}

pub open spec fn s_reg() -> Seq<char> {
    seq!['R', 'E', 'G']
}

pub open spec fn s_remove() -> Seq<char> {
    seq!['R', 'E', 'M', 'O', 'V', 'E']
}

/// `v` is the JSON form of one registration entry: `{"item": [...], "type": [...]}`.
pub open spec fn is_reg_entry_json(v: Json, d: WsRegData) -> bool {
    &&& member_names(v, seq![s_item(), s_type()])
    &&& is_json_str_array(member_value(v, 0), strings_view(d.item@))
    &&& is_json_str_array(member_value(v, 1), strings_view(d.types@))
}

/// `v` is the JSON array of the registration entries `data`.
pub open spec fn is_reg_data_json(v: Json, data: Seq<WsRegData>) -> bool {
    &&& v matches Json::Array(a)
    &&& a@.len() == data.len()
    &&& forall|i: int| 0 <= i < data.len() ==> is_reg_entry_json(#[trigger] a@[i], data[i])
}

fn json_str(s: &str) -> (v: Json)
    ensures
        is_json_str(v, s@),
{
    Json::String(s.to_owned())
}

fn json_str_array(strs: &Vec<String>) -> (v: Json)
    ensures
        is_json_str_array(v, strings_view(strs@)),
{
    let mut a: Vec<Json> = Vec::new();
    let mut i: usize = 0;
    while i < strs.len()
        invariant
            i <= strs@.len(),
            a@.len() == i,
            forall|k: int| 0 <= k < i ==> is_json_str(#[trigger] a@[k], strs@[k]@),
        decreases strs@.len() - i,
    {
        a.push(Json::String(strs[i].clone()));
        i = i + 1;
    }
    Json::Array(a)
}

/// The JSON form of the registration entries, as a request's `data` member.
pub fn reg_data_json(data: &Vec<WsRegData>) -> (v: Json)
    ensures
        is_reg_data_json(v, data@),
{
    proof {
        reveal_strlit("item");
        reveal_strlit("type");
        assert("item"@ =~= s_item());
        assert("type"@ =~= s_type());
    }
    let mut a: Vec<Json> = Vec::new();
    let mut i: usize = 0;
    while i < data.len()
        invariant
            i <= data@.len(),
            a@.len() == i,
            "item"@ == s_item(),
            "type"@ == s_type(),
            forall|k: int| 0 <= k < i ==> is_reg_entry_json(#[trigger] a@[k], data@[k]),
        decreases data@.len() - i,
    {
        let mut m: Vec<(String, Json)> = Vec::new();
        m.push(("item".to_owned(), json_str_array(&data[i].item)));
        m.push(("type".to_owned(), json_str_array(&data[i].types)));
        let entry = Json::Object(m);
        proof {
            assert(member_names(entry, seq![s_item(), s_type()]));
        }
        a.push(entry);
        i = i + 1;
    }
    Json::Array(a)
}

/// The realtime login request: `{"trnm": "LOGIN", "token": token}`.
pub fn login_payload(token: &str) -> (v: Json)
    ensures
        member_names(v, seq![s_trnm(), s_token()]),
        is_json_str(member_value(v, 0), s_login()),
        is_json_str(member_value(v, 1), token@),
{
    proof {
        reveal_strlit("trnm");
        reveal_strlit("token");
        reveal_strlit("LOGIN");
        assert("trnm"@ =~= s_trnm());
        assert("token"@ =~= s_token());
        assert("LOGIN"@ =~= s_login());
    }
    let mut m: Vec<(String, Json)> = Vec::new();
    m.push(("trnm".to_owned(), json_str("LOGIN")));
    m.push(("token".to_owned(), json_str(token)));
    let v = Json::Object(m);
    assert(member_names(v, seq![s_trnm(), s_token()]));
    v
}

/// The realtime registration request: `{"trnm": "REG", "grp_no": "1",
/// "refresh": "1", "data": [...]}`.
pub fn reg_payload(data: &Vec<WsRegData>) -> (v: Json)
    ensures
        member_names(v, seq![s_trnm(), s_grp_no(), s_refresh(), s_data()]),
        is_json_str(member_value(v, 0), s_reg()),
        is_json_str(member_value(v, 1), seq!['1']),
        is_json_str(member_value(v, 2), seq!['1']),
        is_reg_data_json(member_value(v, 3), data@),
{
    proof {
        reveal_strlit("trnm");
        reveal_strlit("grp_no");
        reveal_strlit("refresh");
        reveal_strlit("data");
        reveal_strlit("REG");
        reveal_strlit("1");
        assert("trnm"@ =~= s_trnm());
        assert("grp_no"@ =~= s_grp_no());
        assert("refresh"@ =~= s_refresh());
        assert("data"@ =~= s_data());
        assert("REG"@ =~= s_reg());
        assert("1"@ =~= seq!['1']);
    }
    let mut m: Vec<(String, Json)> = Vec::new();
    m.push(("trnm".to_owned(), json_str("REG")));
    m.push(("grp_no".to_owned(), json_str("1")));
    m.push(("refresh".to_owned(), json_str("1")));
    m.push(("data".to_owned(), reg_data_json(data)));
    let v = Json::Object(m);
    assert(member_names(v, seq![s_trnm(), s_grp_no(), s_refresh(), s_data()]));
    v
}

/// The realtime removal request: `{"trnm": "REMOVE", "grp_no": "1", "data": [...]}`.
pub fn remove_payload(data: &Vec<WsRegData>) -> (v: Json)
    ensures
        member_names(v, seq![s_trnm(), s_grp_no(), s_data()]),
        is_json_str(member_value(v, 0), s_remove()),
        is_json_str(member_value(v, 1), seq!['1']),
        is_reg_data_json(member_value(v, 2), data@),
{
    proof {
        reveal_strlit("trnm");
        reveal_strlit("grp_no");
        reveal_strlit("data");
        reveal_strlit("REMOVE");
        reveal_strlit("1");
        assert("trnm"@ =~= s_trnm());
        assert("grp_no"@ =~= s_grp_no());
        assert("data"@ =~= s_data());
        assert("REMOVE"@ =~= s_remove());
        assert("1"@ =~= seq!['1']);
    }
    let mut m: Vec<(String, Json)> = Vec::new();
    m.push(("trnm".to_owned(), json_str("REMOVE")));
    m.push(("grp_no".to_owned(), json_str("1")));
    m.push(("data".to_owned(), reg_data_json(data)));
    let v = Json::Object(m);
    assert(member_names(v, seq![s_trnm(), s_grp_no(), s_data()]));
    v
}

pub open spec fn s_mrkt_tp() -> Seq<char> {
    seq!['m', 'r', 'k', 't', '_', 't', 'p']
}

/// The master-list request body: `{"mrkt_tp": mrkt_tp}`.
pub fn master_stock_payload(mrkt_tp: &str) -> (v: Json)
    ensures
        member_names(v, seq![s_mrkt_tp()]),
        is_json_str(member_value(v, 0), mrkt_tp@),
{
    proof {
        reveal_strlit("mrkt_tp");
        assert("mrkt_tp"@ =~= s_mrkt_tp());
    }
    let mut m: Vec<(String, Json)> = Vec::new();
    m.push(("mrkt_tp".to_owned(), json_str(mrkt_tp)));
    let v = Json::Object(m);
    assert(member_names(v, seq![s_mrkt_tp()]));
    v
}

/// The names of a buy order's members, in order.
pub open spec fn buy_order_names() -> Seq<Seq<char>> {
    seq![
        seq!['d', 'm', 's', 't', '_', 's', 't', 'e', 'x', '_', 't', 'p'],
        seq!['s', 't', 'k', '_', 'c', 'd'],
        seq!['o', 'r', 'd', '_', 'q', 't', 'y'],
        seq!['o', 'r', 'd', '_', 'u', 'v'],
        seq!['t', 'r', 'd', 'e', '_', 't', 'p'],
        seq!['c', 'o', 'n', 'd', '_', 'u', 'v'],
    ]
}

/// `v` is the decimal text of `n` as a JSON string, or `null` when `n` is absent.
pub open spec fn is_opt_decimal(v: Json, n: Option<u64>) -> bool {
    match n {
        Some(x) => is_json_str(v, decimal_spec(x as nat)),
        None => v is Null,
    }
}

fn opt_decimal(n: Option<u64>) -> (v: Json)
    ensures
        is_opt_decimal(v, n),
{
    match n {
        Some(x) => Json::String(u64_to_decimal(x)),
        None => Json::Null,
    }
}

/// The buy order body: the exchange type, stock code, quantity, price, trade type
/// and condition price, the numbers as decimal strings and absent prices as `null`.
pub fn buy_order_payload(req: BuyStockRequest) -> (v: Json)
    ensures
        member_names(v, buy_order_names()),
        is_json_str(member_value(v, 0), req.dmst_stex_tp@),
        is_json_str(member_value(v, 1), req.stk_cd@),
        is_json_str(member_value(v, 2), decimal_spec(req.ord_qty as nat)),
        is_opt_decimal(member_value(v, 3), req.ord_uv),
        is_json_str(member_value(v, 4), req.trde_tp@),
        is_opt_decimal(member_value(v, 5), req.cond_uv),
{
    proof {
        reveal_strlit("dmst_stex_tp");
        reveal_strlit("stk_cd");
        reveal_strlit("ord_qty");
        reveal_strlit("ord_uv");
        reveal_strlit("trde_tp");
        reveal_strlit("cond_uv");
        assert("dmst_stex_tp"@ =~= buy_order_names()[0]);
        assert("stk_cd"@ =~= buy_order_names()[1]);
        assert("ord_qty"@ =~= buy_order_names()[2]);
        assert("ord_uv"@ =~= buy_order_names()[3]);
        assert("trde_tp"@ =~= buy_order_names()[4]);
        assert("cond_uv"@ =~= buy_order_names()[5]);
    }
    let ghost r = req;
    let BuyStockRequest { dmst_stex_tp, stk_cd, ord_qty, ord_uv, trde_tp, cond_uv } = req;
    let mut m: Vec<(String, Json)> = Vec::new();
    m.push(("dmst_stex_tp".to_owned(), Json::String(dmst_stex_tp)));
    m.push(("stk_cd".to_owned(), Json::String(stk_cd)));
    m.push(("ord_qty".to_owned(), Json::String(u64_to_decimal(ord_qty))));
    m.push(("ord_uv".to_owned(), opt_decimal(ord_uv)));
    m.push(("trde_tp".to_owned(), Json::String(trde_tp)));
    m.push(("cond_uv".to_owned(), opt_decimal(cond_uv)));
    let v = Json::Object(m);
    assert(member_names(v, buy_order_names()));
    v
}

} // verus!
