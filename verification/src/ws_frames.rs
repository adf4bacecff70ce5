//! What the realtime receiver does with each WebSocket frame: text frames carry
//! messages, pings are answered, pongs and raw frames are skipped, binary frames
//! are refused, and a close, a failure or the end of the stream disconnects.
use vstd::prelude::*;
use crate::json::{json_of_text, parse_json, Json};
use crate::kiwoom::KiwoomError;
use crate::text::{concat_str, decimal_spec, u64_to_decimal};

verus! {

/// A frame as the socket delivers it; outside values are given by their text.
#[derive(Debug)]
pub enum WsFrame {
    Text(String),
    /// A binary frame of the given length.
    Binary(usize),
    Ping(Vec<u8>),
    Pong,
    /// A close frame, described.
    Close(String),
    /// A raw frame.
    Frame,
    /// A receive failure, described.
    Failed(String),
    /// The end of the stream.
    Ended,
}

/// What to do with a frame.
#[derive(Debug)]
pub enum FrameOutcome {
    /// Read the text as a message.
    Deliver(String),
    /// Answer with a pong carrying this payload, then go on receiving.
    SendPong(Vec<u8>),
    /// Go on receiving.
    Skip,
    /// Fail the receive, staying connected.
    Fail(KiwoomError),
    /// Mark the session disconnected, drop the socket, and fail the receive.
    Disconnect(KiwoomError),
}

/// `e` is a decode error whose text is `raw`.
pub open spec fn is_decode(e: KiwoomError, raw: Seq<char>) -> bool {
    e matches KiwoomError::Decode { raw: r } && r@ == raw
}

/// Decides what to do with a received frame.
pub fn frame_outcome(frame: WsFrame) -> (o: FrameOutcome)
    ensures
        match frame {
            WsFrame::Text(t) => o == FrameOutcome::Deliver(t),
            WsFrame::Binary(n) => o matches FrameOutcome::Fail(e) && is_decode(
                e,
                "unexpected binary frame(len="@ + decimal_spec(n as nat) + ")"@,
            ),
            WsFrame::Ping(p) => o == FrameOutcome::SendPong(p),
            WsFrame::Pong => o is Skip,
            WsFrame::Frame => o is Skip,
            WsFrame::Close(d) => o matches FrameOutcome::Disconnect(e) && is_decode(
                e,
                "ws closed by server: "@ + d@,
            ),
            WsFrame::Failed(d) => o matches FrameOutcome::Disconnect(e) && is_decode(
                e,
                "ws recv error: "@ + d@,
            ),
            WsFrame::Ended => o matches FrameOutcome::Disconnect(e) && is_decode(
                e,
                "ws stream ended"@,
            ),
        },
{
    match frame {
        WsFrame::Text(t) => FrameOutcome::Deliver(t),
        WsFrame::Binary(n) => {
            let head = concat_str("unexpected binary frame(len=", u64_to_decimal(n as u64).as_str());
            let raw = concat_str(head.as_str(), ")");
            FrameOutcome::Fail(KiwoomError::Decode { raw })
        },
        WsFrame::Ping(p) => FrameOutcome::SendPong(p),
        WsFrame::Pong => FrameOutcome::Skip,
        WsFrame::Frame => FrameOutcome::Skip,
        WsFrame::Close(d) => FrameOutcome::Disconnect(
            KiwoomError::Decode { raw: concat_str("ws closed by server: ", d.as_str()) },
        ),
        WsFrame::Failed(d) => FrameOutcome::Disconnect(
            KiwoomError::Decode { raw: concat_str("ws recv error: ", d.as_str()) },
        ),
        WsFrame::Ended => FrameOutcome::Disconnect(
            KiwoomError::Decode { raw: "ws stream ended".to_owned() },
        ),
    }
}

/// The error for receiving or sending on a socket that is not connected.
pub fn not_connected_error() -> (e: KiwoomError)
    ensures
        is_decode(e, "ws not connected"@),
{
    KiwoomError::Decode { raw: "ws not connected".to_owned() }
}

/// The error for a failed pong, `error` describing the failure.
pub fn pong_send_error(error: &str) -> (e: KiwoomError)
    ensures
        is_decode(e, "ws pong send error: "@ + error@),
{
    KiwoomError::Decode { raw: concat_str("ws pong send error: ", error) }
}

/// A text frame given with its reading as JSON (`parsed`, `None` when the text is
/// not JSON): the value, or a decode error carrying the text.
pub fn frame_message_from(text: String, parsed: Option<Json>) -> (r: Result<Json, KiwoomError>)
    ensures
        match parsed {
            Some(v) => r == Ok::<Json, KiwoomError>(v),
            None => r matches Err(KiwoomError::Decode { raw }) && raw == text,
        },
{
    match parsed {
        Some(v) => Ok(v),
        None => Err(KiwoomError::Decode { raw: text }),
    }
}

/// A text frame read as a message: the JSON value its text holds, or a decode
/// error carrying the text.
pub fn text_frame_message(text: String) -> (r: Result<Json, KiwoomError>)
    ensures
        match json_of_text(text@) {
            Some(v) => r == Ok::<Json, KiwoomError>(v),
            None => r matches Err(KiwoomError::Decode { raw }) && raw == text,
        },
{
    let parsed = parse_json(text.as_str());
    frame_message_from(text, parsed)
}

} // verus!
