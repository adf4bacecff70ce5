//! The connection indicator of the bottom bar: what the windows know of the
//! realtime link, kept up to date from the events that the worker reports.
use vstd::prelude::*;
use crate::ws_session::WsEvent;
use crate::text::concat_str;

verus! {

/// At most this many realtime events are taken in one frame.
pub const MAX_WS_EVENTS_PER_FRAME: usize = 512;

/// At most this many REST events are taken in one frame.
pub const MAX_REST_EVENTS_PER_FRAME: usize = 128;

/// Whether the realtime link is up and whether the server accepted the login.
#[derive(Debug, Clone, Copy, PartialEq, Eq, Structural)]
pub struct WsStatus {
    pub connected: bool,
    pub login_ok: bool,
}

/// The status after one event.
pub open spec fn status_step(s: WsStatus, e: WsEvent) -> WsStatus {
    match e {
        WsEvent::Connected => WsStatus { connected: true, login_ok: s.login_ok },
        WsEvent::LoginAck { ok, .. } => WsStatus { connected: s.connected, login_ok: ok },
        WsEvent::Raw(_) => s,
        WsEvent::Error(_) => WsStatus { connected: false, login_ok: false },
        WsEvent::Disconnected => WsStatus { connected: false, login_ok: false },
    }
}

/// Whether an event asks for the bar to be drawn again: all but raw data do.
pub open spec fn marks_update(e: WsEvent) -> bool {
    !(e is Raw)
}

/// The status after a run of events, taken in order.
pub open spec fn status_after(s: WsStatus, events: Seq<WsEvent>) -> WsStatus
    decreases events.len(),
{
    if events.len() == 0 {
        s
    } else {
        status_step(status_after(s, events.drop_last()), events.last())
    }
}

/// Whether some event of the run asks for a redraw.
pub open spec fn any_update(events: Seq<WsEvent>) -> bool {
    exists|i: int| 0 <= i < events.len() && #[trigger] marks_update(events[i])
}

impl WsStatus {
    /// Nothing is known yet: not connected, not logged in.
    pub fn new() -> (s: WsStatus)
        ensures
            !s.connected,
            !s.login_ok,
    {
        WsStatus { connected: false, login_ok: false }
    }

    /// Takes one event into account; returns whether the bar must be redrawn.
    pub fn apply_event(&mut self, evt: &WsEvent) -> (updated: bool)
        ensures
            *final(self) == status_step(*old(self), *evt),
            updated == marks_update(*evt),
    {
        match evt {
            WsEvent::Connected => {
                self.connected = true;
                true
            },
            WsEvent::LoginAck { ok, .. } => {
                self.login_ok = *ok;
                true
            },
            WsEvent::Raw(_) => false,
            WsEvent::Error(_) => {
                self.connected = false;
                self.login_ok = false;
                true
            },
            WsEvent::Disconnected => {
                self.connected = false;
                self.login_ok = false;
                true
            },
        }
    }

    /// Takes the events of one frame into account, in order; returns whether any
    /// of them asks for a redraw.
    pub fn apply_events(&mut self, events: &Vec<WsEvent>) -> (updated: bool)
        ensures
            *final(self) == status_after(*old(self), events@),
            updated == any_update(events@),
    {
        let ghost start = *self;
        let mut updated = false;
        let mut i: usize = 0;
        while i < events.len()
            invariant
                i <= events.len(),
                *self == status_after(start, events@.take(i as int)),
                updated == any_update(events@.take(i as int)),
            decreases events.len() - i,
        {
            let u = self.apply_event(&events[i]);
            proof {
                let next = events@.take(i as int + 1);
                assert(next.drop_last() =~= events@.take(i as int));
                assert(next.last() == events@[i as int]);
                if u {
                    assert(marks_update(next[i as int]));
                }
                if updated {
                    let k = choose|k: int| 0 <= k < i && #[trigger] marks_update(events@.take(i as int)[k]);
                    assert(next[k] == events@.take(i as int)[k]);
                }
                if any_update(next) {
                    let k = choose|k: int| 0 <= k < next.len() && #[trigger] marks_update(next[k]);
                    if k < i {
                        assert(events@.take(i as int)[k] == next[k]);
                    }
                }
            }
            updated = updated || u;
            i = i + 1;
        }
        assert(events@.take(events.len() as int) =~= events@);
        updated
    }
}

/// The bottom bar's text for a status: whether the link is up and whether the
/// login was accepted, `OK` or `--` each.
pub open spec fn status_label_spec(s: WsStatus) -> Seq<char> {
    "[키움] Connection: "@ + (if s.connected { "OK"@ } else { "--"@ }) + " | Login: "@ + (
    if s.login_ok {
        "OK"@
    } else {
        "--"@
    })
}

impl WsStatus {
    /// The bottom bar's text; see `status_label_spec`.
    pub fn label(&self) -> (s: String)
        ensures
            s@ == status_label_spec(*self),
    {
        let conn = if self.connected { "OK" } else { "--" };
        let login = if self.login_ok { "OK" } else { "--" };
        let a = concat_str("[키움] Connection: ", conn);
        let b = concat_str(a.as_str(), " | Login: ");
        concat_str(b.as_str(), login)
    }
}

/// A run of raw data changes nothing and asks for no redraw.
pub proof fn lemma_raw_events_change_nothing(s: WsStatus, events: Seq<WsEvent>)
    requires
        forall|i: int| 0 <= i < events.len() ==> #[trigger] events[i] is Raw,
    ensures
        status_after(s, events) == s,
        !any_update(events),
    decreases events.len(),
{
    if events.len() > 0 {
        assert(events.last() is Raw);
        lemma_raw_events_change_nothing(s, events.drop_last());
    }
}

/// Once the link drops (an error or a disconnect), the bar shows neither a
/// connection nor a login until the next `Connected` or `LoginAck`.
pub proof fn lemma_drop_clears_status(s: WsStatus, events: Seq<WsEvent>)
    requires
        events.len() > 0,
        events.last() is Error || events.last() is Disconnected,
    ensures
        !status_after(s, events).connected,
        !status_after(s, events).login_ok,
{
}

} // verus!
