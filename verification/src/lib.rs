//! Order-tooling core for the Korea Exchange (KRX) via the Kiwoom REST and
//! WebSocket APIs: price ticks, order-form input parsing, realtime subscription
//! bookkeeping, session and token decisions, and master-data search.

pub mod tick;
pub mod text;
pub mod order_form;
pub mod assoc;
pub mod subscriptions;
pub mod reg_data;
pub mod json;
pub mod ws_messages;
pub mod ws_session;
pub mod kiwoom;
pub mod token;
pub mod master;
pub mod codes;
pub mod paging;
pub mod rest;
pub mod payloads;
pub mod ws_frames;
pub mod status;
pub mod order_tool;
