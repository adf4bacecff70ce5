//! The order-tool windows: each has a number of its own, and follows the order
//! book of the stock picked in its ticker search.
use vstd::prelude::*;
use crate::subscriptions::{topic_keys, TopicKey, WsTopic};
use crate::ws_session::WsCommand;

verus! {

/// The realtime type of trades.
pub const TRADE_TYPE: &'static str = "0B";

/// The realtime type of the order book (bid and ask levels).
pub const ORDER_BOOK_TYPE: &'static str = "0D";

/// The realtime type of the market-open schedule.
pub const MARKET_OPEN_TYPE: &'static str = "0s";

pub open spec fn order_book_type() -> Seq<char> {
    seq!['0', 'D']
}

/// The order-book topic of a stock.
pub open spec fn order_book_topic(code: Seq<char>) -> TopicKey {
    (code, order_book_type())
}

/// Whether `c` is order tool `seq` starting (`subscribe`) or stopping to watch the
/// order book of `code`, and nothing else.
pub open spec fn is_watch_command(c: WsCommand, seq: u64, code: Seq<char>, subscribe: bool) -> bool {
    if subscribe {
        c matches WsCommand::Subscribe { subscriber_id, topics } && subscriber_id == seq
            && topic_keys(topics@) == seq![order_book_topic(code)]
    } else {
        c matches WsCommand::Unsubscribe { subscriber_id, topics } && subscriber_id == seq
            && topic_keys(topics@) == seq![order_book_topic(code)]
    }
}

/// The commands that a change of the picked stock from `prev` to `selected` calls
/// for (an empty code meaning none): nothing when it did not change; otherwise
/// stop watching the previous stock, if any, then watch the new one, if any.
pub open spec fn selection_change_spec(
    cmds: Seq<WsCommand>,
    seq: u64,
    prev: Seq<char>,
    selected: Seq<char>,
) -> bool {
    if prev == selected {
        cmds.len() == 0
    } else {
        let n_un: int = if prev.len() > 0 { 1 } else { 0 };
        let n_sub: int = if selected.len() > 0 { 1 } else { 0 };
        &&& cmds.len() == n_un + n_sub
        &&& prev.len() > 0 ==> is_watch_command(cmds[0], seq, prev, false)
        &&& selected.len() > 0 ==> is_watch_command(cmds[n_un], seq, selected, true)
    }
}

fn order_book_topics(code: &str) -> (topics: Vec<WsTopic>)
    ensures
        topic_keys(topics@) == seq![order_book_topic(code@)],
{
    proof {
        reveal_strlit("0D");
    }
    let ty = "0D";
    assert(ty@ =~= order_book_type());
    let mut topics: Vec<WsTopic> = Vec::new();
    topics.push(WsTopic::new(code.to_owned(), ty.to_owned()));
    assert(topic_keys(topics@) =~= seq![order_book_topic(code@)]);
    topics
}

/// What order tool `seq` sends to the realtime worker when the stock picked in
/// its search changes from `prev` to `selected`.
pub fn selection_change_commands(seq: u64, prev: &str, selected: &str) -> (cmds: Vec<WsCommand>)
    ensures
        selection_change_spec(cmds@, seq, prev@, selected@),
{
    let mut cmds: Vec<WsCommand> = Vec::new();
    let same = crate::json::str_eq(prev, selected);
    if same {
        return cmds;
    }
    if prev.unicode_len() > 0 {
        cmds.push(WsCommand::Unsubscribe { subscriber_id: seq, topics: order_book_topics(prev) });
    }
    if selected.unicode_len() > 0 {
        cmds.push(WsCommand::Subscribe { subscriber_id: seq, topics: order_book_topics(selected) });
    }
    cmds
}

/// The numbering of order-tool windows: each new window takes the next number,
/// starting from 1.
pub struct OrderToolNumbers {
    pub last: u64,
}

impl OrderToolNumbers {
    /// No window opened yet.
    pub fn new() -> (n: OrderToolNumbers)
        ensures
            n.last == 0,
    {
        OrderToolNumbers { last: 0 }
    }

    /// The number of a newly opened window.
    pub fn open_next(&mut self) -> (seq: u64)
        requires
            old(self).last < u64::MAX,
        ensures
            seq == old(self).last + 1,
            final(self).last == seq,
    {
        self.last = self.last + 1;
        self.last
    }
}

/// The numbers of the order windows still open, in order.
pub open spec fn open_windows(w: Seq<(u64, bool)>) -> Seq<u64>
    decreases w.len(),
{
    if w.len() == 0 {
        Seq::empty()
    } else {
        let r = open_windows(w.drop_last());
        if w.last().1 {
            r.push(w.last().0)
        } else {
            r
        }
    }
}

/// For each closed order window, in order, the command that drops all its
/// realtime subscriptions.
pub open spec fn closing_commands(w: Seq<(u64, bool)>) -> Seq<WsCommand>
    decreases w.len(),
{
    if w.len() == 0 {
        Seq::empty()
    } else {
        let r = closing_commands(w.drop_last());
        if w.last().1 {
            r
        } else {
            r.push(WsCommand::UnsubscribeAll { subscriber_id: w.last().0 })
        }
    }
}

/// Sorts the order windows, given by number and whether they are still open, into
/// the numbers to keep and the commands that drop the subscriptions of the closed
/// ones.
pub fn sweep_closed_windows(windows: &Vec<(u64, bool)>) -> (r: (Vec<u64>, Vec<WsCommand>))
    ensures
        r.0@ == open_windows(windows@),
        r.1@ == closing_commands(windows@),
{
    let mut kept: Vec<u64> = Vec::new();
    let mut cmds: Vec<WsCommand> = Vec::new();
    let mut i: usize = 0;
    while i < windows.len()
        invariant
            i <= windows@.len(),
            kept@ == open_windows(windows@.take(i as int)),
            cmds@ == closing_commands(windows@.take(i as int)),
        decreases windows@.len() - i,
    {
        let (seq, open) = windows[i];
        proof {
            assert(windows@.take(i + 1).drop_last() =~= windows@.take(i as int));
            assert(windows@.take(i + 1).last() == windows@[i as int]);
        }
        if open {
            kept.push(seq);
        } else {
            cmds.push(WsCommand::UnsubscribeAll { subscriber_id: seq });
        }
        i = i + 1;
    }
    assert(windows@.take(windows@.len() as int) =~= windows@);
    (kept, cmds)
}

} // verus!
