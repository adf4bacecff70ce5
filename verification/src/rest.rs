//! The REST worker's decisions: what each command from the windows asks the API
//! client to do, and what each outcome is reported as.
use vstd::prelude::*;
use crate::json::Json;
use crate::kiwoom::{opt_view, BuyStockRequest, BuyStockResponse};
use crate::paging::MasterPaging;
use crate::text::concat_str;

verus! {

/// A request from the windows to the REST worker.
#[derive(Debug, Clone)]
pub enum RestCommand {
    AccessToken { request_id: u64 },
    FetchMasterStock { request_id: u64, mrkt_tp: String },
    BuyStock {
        request_id: u64,
        dmst_stex_tp: String,
        stk_cd: String,
        ord_qty: u64,
        ord_uv: Option<u64>,
        trde_tp: String,
        cond_uv: Option<u64>,
    },
    Shutdown,
}

/// What the REST worker reports to the windows.
#[derive(Debug)]
pub enum RestEvent {
    AccessToken { request_id: u64, token: String },
    MasterStock { request_id: u64, pages: Vec<Json>, total_pages: usize },
    BuyStock {
        request_id: u64,
        stk_cd: String,
        ord_qty: u64,
        trde_tp: String,
        ord_no: Option<String>,
        dmst_stex_tp: Option<String>,
    },
    Error { request_id: Option<u64>, message: String },
    Stopped,
}

/// The work a command asks for.
#[derive(Debug)]
pub enum RestJob {
    /// Fetch (renewing if needed) the access token.
    AccessToken { request_id: u64 },
    /// Download every page of the master list of market `mrkt_tp`.
    FetchMasterStock { request_id: u64, mrkt_tp: String },
    /// Place the order `request`; `stk_cd`, `ord_qty` and `trde_tp` are echoed in
    /// the report.
    BuyStock {
        request_id: u64,
        request: BuyStockRequest,
        stk_cd: String,
        ord_qty: u64,
        trde_tp: String,
    },
    /// Report `Stopped` and end the worker.
    Shutdown,
}

/// Turns a command into the work it asks for.
pub fn plan_rest_command(cmd: RestCommand) -> (job: RestJob)
    ensures
        match cmd {
            RestCommand::AccessToken { request_id } => job == RestJob::AccessToken { request_id },
            RestCommand::FetchMasterStock { request_id, mrkt_tp } => job
                == RestJob::FetchMasterStock { request_id, mrkt_tp },
            RestCommand::BuyStock {
                request_id,
                dmst_stex_tp,
                stk_cd,
                ord_qty,
                ord_uv,
                trde_tp,
                cond_uv,
            } => job matches RestJob::BuyStock {
                request_id: id,
                request,
                stk_cd: echo_cd,
                ord_qty: echo_qty,
                trde_tp: echo_tp,
            } && id == request_id && request.dmst_stex_tp == dmst_stex_tp && request.stk_cd@
                == stk_cd@ && request.ord_qty == ord_qty && request.ord_uv == ord_uv
                && request.trde_tp@ == trde_tp@ && request.cond_uv == cond_uv && echo_cd == stk_cd
                && echo_qty == ord_qty && echo_tp == trde_tp,
            RestCommand::Shutdown => job is Shutdown,
        },
{
    match cmd {
        RestCommand::AccessToken { request_id } => RestJob::AccessToken { request_id },
        RestCommand::FetchMasterStock { request_id, mrkt_tp } => RestJob::FetchMasterStock {
            request_id,
            mrkt_tp,
        },
        RestCommand::BuyStock {
            request_id,
            dmst_stex_tp,
            stk_cd,
            ord_qty,
            ord_uv,
            trde_tp,
            cond_uv,
        } => {
            let request = BuyStockRequest {
                dmst_stex_tp,
                stk_cd: stk_cd.clone(),
                ord_qty,
                ord_uv,
                trde_tp: trde_tp.clone(),
                cond_uv,
            };
            RestJob::BuyStock { request_id, request, stk_cd, ord_qty, trde_tp }
        },
        RestCommand::Shutdown => RestJob::Shutdown,
    }
}

pub open spec fn access_token_failed() -> Seq<char> {
    seq![
        'a', 'c', 'c', 'e', 's', 's', '_', 't', 'o', 'k', 'e', 'n', ' ', 'f', 'a', 'i', 'l', 'e',
        'd', ':', ' ',
    ]
}

pub open spec fn fetch_master_failed() -> Seq<char> {
    seq![
        'f', 'e', 't', 'c', 'h', '_', 'm', 'a', 's', 't', 'e', 'r', '_', 's', 't', 'o', 'c', 'k',
        ' ', 'f', 'a', 'i', 'l', 'e', 'd', ':', ' ',
    ]
}

pub open spec fn buy_stock_failed() -> Seq<char> {
    seq![
        'b', 'u', 'y', '_', 's', 't', 'o', 'c', 'k', ' ', 'f', 'a', 'i', 'l', 'e', 'd', ':', ' ',
    ]
}

/// The report of a token request: the token, or the error text (`error` being
/// the description of the failure) after `access_token failed: `.
pub fn token_event(request_id: u64, outcome: Result<String, String>) -> (e: RestEvent)
    ensures
        match outcome {
            Ok(token) => e == RestEvent::AccessToken { request_id, token },
            Err(error) => e matches RestEvent::Error { request_id: id, message } && id == Some(
                request_id,
            ) && message@ == access_token_failed() + error@,
        },
{
    proof {
        reveal_strlit("access_token failed: ");
        assert("access_token failed: "@ =~= access_token_failed());
    }
    match outcome {
        Ok(token) => RestEvent::AccessToken { request_id, token },
        Err(error) => RestEvent::Error {
            request_id: Some(request_id),
            message: concat_str("access_token failed: ", error.as_str()),
        },
    }
}

/// The report of a finished master-list download: its pages and their count.
pub fn master_stock_event(request_id: u64, paging: MasterPaging) -> (e: RestEvent)
    ensures
        e matches RestEvent::MasterStock { request_id: id, pages, total_pages } && id == request_id
            && pages@ == paging.pages_view() && total_pages == pages@.len(),
{
    let pages = paging.into_pages();
    let total_pages = pages.len();
    RestEvent::MasterStock { request_id, pages, total_pages }
}

/// The report of a failed master-list download.
pub fn master_stock_error_event(request_id: u64, error: &str) -> (e: RestEvent)
    ensures
        e matches RestEvent::Error { request_id: id, message } && id == Some(request_id)
            && message@ == fetch_master_failed() + error@,
{
    proof {
        reveal_strlit("fetch_master_stock failed: ");
        assert("fetch_master_stock failed: "@ =~= fetch_master_failed());
    }
    RestEvent::Error {
        request_id: Some(request_id),
        message: concat_str("fetch_master_stock failed: ", error),
    }
}

/// The report of an order: the echoed order fields with the order number and
/// exchange type from the answer, or the error text after `buy_stock failed: `.
pub fn buy_stock_event(
    request_id: u64,
    stk_cd: String,
    ord_qty: u64,
    trde_tp: String,
    outcome: Result<BuyStockResponse, String>,
) -> (e: RestEvent)
    ensures
        match outcome {
            Ok(resp) => e == RestEvent::BuyStock {
                request_id,
                stk_cd,
                ord_qty,
                trde_tp,
                ord_no: resp.ord_no,
                dmst_stex_tp: resp.dmst_stex_tp,
            },
            Err(error) => e matches RestEvent::Error { request_id: id, message } && id == Some(
                request_id,
            ) && message@ == buy_stock_failed() + error@,
        },
{
    proof {
        reveal_strlit("buy_stock failed: ");
        assert("buy_stock failed: "@ =~= buy_stock_failed());
    }
    match outcome {
        Ok(resp) => {
            let BuyStockResponse { ord_no, dmst_stex_tp, raw: _ } = resp;
            RestEvent::BuyStock { request_id, stk_cd, ord_qty, trde_tp, ord_no, dmst_stex_tp }
        },
        Err(error) => RestEvent::Error {
            request_id: Some(request_id),
            message: concat_str("buy_stock failed: ", error.as_str()),
        },
    }
}

} // verus!
