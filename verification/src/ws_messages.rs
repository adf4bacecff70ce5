//! Reading realtime WebSocket messages: the transaction name, pings, login
//! acknowledgements, return codes, and the topic a realtime message is about.
use vstd::prelude::*;
use crate::json::{get_spec, get_str_spec, Json};
use crate::subscriptions::WsTopic;
use crate::text::{chars_to_string, trim_spec, trimmed_chars};

verus! {

pub open spec fn trnm_key() -> Seq<char> {
    seq!['t', 'r', 'n', 'm']
}

pub open spec fn ping_name() -> Seq<char> {
    seq!['P', 'I', 'N', 'G']
}

pub open spec fn login_name() -> Seq<char> {
    seq!['L', 'O', 'G', 'I', 'N']
}

pub open spec fn return_code_key() -> Seq<char> {
    seq!['r', 'e', 't', 'u', 'r', 'n', '_', 'c', 'o', 'd', 'e']
}

/// The keys under which a realtime message may carry its realtime type, in the
/// order they are tried.
pub open spec fn type_keys() -> Seq<Seq<char>> {
    seq![
        seq!['t', 'y', 'p', 'e'],
        seq!['r', 'e', 'a', 'l', '_', 't', 'y', 'p', 'e'],
        seq!['t', 'r', '_', 't', 'y', 'p', 'e'],
        seq!['t', 'y'],
        trnm_key(),
    ]
}

/// The keys under which a realtime message may carry its item code, in the order
/// they are tried.
pub open spec fn item_keys() -> Seq<Seq<char>> {
    seq![
        seq!['i', 't', 'e', 'm'],
        seq!['c', 'o', 'd', 'e'],
        seq!['s', 't', 'k', '_', 'c', 'd'],
        seq!['i', 's', 'u', '_', 'c', 'd'],
        seq!['s', 'y', 'm', 'b', 'o', 'l'],
        seq!['s', 'h', 'r', 'n', '_', 'i', 's', 'c', 'd'],
    ]
}

/// The string under the first of `keys` that holds a string in `v`.
pub open spec fn pick_first_str_spec(v: Json, keys: Seq<Seq<char>>) -> Option<Seq<char>>
    decreases keys.len(),
{
    if keys.len() == 0 {
        None
    } else {
        match get_str_spec(v, keys[0]) {
            Some(s) => Some(s),
            None => pick_first_str_spec(v, keys.drop_first()),
        }
    }
}

/// Whether the message's return code says success: the number 0 or the string `0`.
pub open spec fn return_code_ok_spec(v: Json) -> bool {
    match get_spec(v, return_code_key()) {
        Some(Json::Number(n)) => n.as_i64 == Some(0i64),
        Some(Json::String(s)) => s@ == seq!['0'],
        _ => false,
    }
}

/// The topic a realtime message is about: its type and item, trimmed, both present
/// and not blank.
pub open spec fn extract_ws_topic_spec(v: Json) -> Option<(Seq<char>, Seq<char>)> {
    match (pick_first_str_spec(v, type_keys()), pick_first_str_spec(v, item_keys())) {
        (Some(ty), Some(item)) => {
            let ty = trim_spec(ty);
            let item = trim_spec(item);
            if ty.len() == 0 || item.len() == 0 {
                None
            } else {
                Some((item, ty))
            }
        },
        _ => None,
    }
}

/// The transaction name (`trnm`) of a message.
pub fn extract_trnm(v: &Json) -> (r: Option<&str>)
    ensures
        match r {
            Some(s) => get_str_spec(*v, trnm_key()) == Some(s@),
            None => get_str_spec(*v, trnm_key()) is None,
        },
{
    proof {
        reveal_strlit("trnm");
        assert("trnm"@ =~= trnm_key());
    }
    v.get_str("trnm")
}

/// Whether the message is a server ping (`trnm` is `PING`).
pub fn is_ping(v: &Json) -> (b: bool)
    ensures
        b == (get_str_spec(*v, trnm_key()) == Some(ping_name())),
{
    proof {
        reveal_strlit("PING");
        assert("PING"@ =~= ping_name());
    }
    match extract_trnm(v) {
        Some(t) => crate::json::str_eq(t, "PING"),
        None => false,
    }
}

/// Whether the message answers the login request (`trnm` is `LOGIN`).
pub fn is_login_ack(v: &Json) -> (b: bool)
    ensures
        b == (get_str_spec(*v, trnm_key()) == Some(login_name())),
{
    proof {
        reveal_strlit("LOGIN");
        assert("LOGIN"@ =~= login_name());
    }
    match extract_trnm(v) {
        Some(t) => crate::json::str_eq(t, "LOGIN"),
        None => false,
    }
}

/// Whether the message's `return_code` says success.
pub fn return_code_is_ok(v: &Json) -> (b: bool)
    ensures
        b == return_code_ok_spec(*v),
{
    proof {
        reveal_strlit("return_code");
        assert("return_code"@ =~= return_code_key());
        reveal_strlit("0");
        assert("0"@ =~= seq!['0']);
    }
    match v.get("return_code") {
        Some(Json::Number(n)) => match n.as_i64 {
            Some(c) => c == 0,
            None => false,
        },
        Some(Json::String(s)) => crate::json::str_eq(s.as_str(), "0"),
        _ => false,
    }
}

/// The string under the first of `keys` that holds a string in `v`.
pub fn pick_first_str<'a>(v: &'a Json, keys: &[&str]) -> (r: Option<&'a str>)
    ensures
        ({
            let ks = keys@.map_values(|k: &str| k@);
            match r {
                Some(s) => pick_first_str_spec(*v, ks) == Some(s@),
                None => pick_first_str_spec(*v, ks) is None,
            }
        }),
{
    let ghost ks = keys@.map_values(|k: &str| k@);
    let mut i: usize = 0;
    assert(ks.skip(0) =~= ks);
    while i < keys.len()
        invariant
            i <= keys@.len(),
            ks == keys@.map_values(|k: &str| k@),
            pick_first_str_spec(*v, ks) == pick_first_str_spec(*v, ks.skip(i as int)),
        decreases keys@.len() - i,
    {
        proof {
            assert(ks.skip(i as int).drop_first() =~= ks.skip(i + 1));
            assert(ks.skip(i as int)[0] == keys@[i as int]@);
        }
        match v.get_str(keys[i]) {
            Some(s) => {
                return Some(s);
            },
            None => {},
        }
        i = i + 1;
    }
    None
}

/// The topic a realtime message is about, read from its type and item fields.
pub fn extract_ws_topic(v: &Json) -> (r: Option<WsTopic>)
    ensures
        match r {
            Some(t) => extract_ws_topic_spec(*v) == Some(t@),
            None => extract_ws_topic_spec(*v) is None,
        },
{
    let mut type_key_list: Vec<&str> = Vec::new();
    type_key_list.push("type");
    type_key_list.push("real_type");
    type_key_list.push("tr_type");
    type_key_list.push("ty");
    type_key_list.push("trnm");
    let mut item_key_list: Vec<&str> = Vec::new();
    item_key_list.push("item");
    item_key_list.push("code");
    item_key_list.push("stk_cd");
    item_key_list.push("isu_cd");
    item_key_list.push("symbol");
    item_key_list.push("shrn_iscd");
    proof {
        reveal_strlit("type");
        reveal_strlit("real_type");
        reveal_strlit("tr_type");
        reveal_strlit("ty");
        reveal_strlit("trnm");
        reveal_strlit("item");
        reveal_strlit("code");
        reveal_strlit("stk_cd");
        reveal_strlit("isu_cd");
        reveal_strlit("symbol");
        reveal_strlit("shrn_iscd");
        assert(type_key_list@.map_values(|k: &str| k@) =~= type_keys()) by {
            assert("type"@ =~= type_keys()[0]);
            assert("real_type"@ =~= type_keys()[1]);
            assert("tr_type"@ =~= type_keys()[2]);
            assert("ty"@ =~= type_keys()[3]);
            assert("trnm"@ =~= type_keys()[4]);
        }
        assert(item_key_list@.map_values(|k: &str| k@) =~= item_keys()) by {
            assert("item"@ =~= item_keys()[0]);
            assert("code"@ =~= item_keys()[1]);
            assert("stk_cd"@ =~= item_keys()[2]);
            assert("isu_cd"@ =~= item_keys()[3]);
            assert("symbol"@ =~= item_keys()[4]);
            assert("shrn_iscd"@ =~= item_keys()[5]);
        }
    }
    let ty = match pick_first_str(v, type_key_list.as_slice()) {
        Some(t) => t,
        None => {
            return None;
        },
    };
    let item = match pick_first_str(v, item_key_list.as_slice()) {
        Some(t) => t,
        None => {
            return None;
        },
    };
    let ty_chars = trimmed_chars(ty);
    let item_chars = trimmed_chars(item);
    if ty_chars.len() == 0 || item_chars.len() == 0 {
        return None;
    }
    Some(WsTopic::new(chars_to_string(&item_chars), chars_to_string(&ty_chars)))
}

} // verus!
