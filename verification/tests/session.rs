use krx_toolkit::json::{Json, JsonNumber};
use krx_toolkit::order_tool::{selection_change_commands, sweep_closed_windows, OrderToolNumbers, ORDER_BOOK_TYPE};
use krx_toolkit::reg_data::{ws_topics_to_reg_data, WsRegData};
use krx_toolkit::status::{WsStatus, MAX_REST_EVENTS_PER_FRAME, MAX_WS_EVENTS_PER_FRAME};
use krx_toolkit::subscriptions::{
    apply_subscribe, apply_unsubscribe, apply_unsubscribe_all, SubscriberTopics, TopicSubscribers,
    WsTopic,
};
use krx_toolkit::ws_session::{SendContext, WsAction, WsCommand, WsEvent, WsSession};

fn topic(item: &str, ty: &str) -> WsTopic {
    WsTopic::new(item.to_owned(), ty.to_owned())
}

fn keys(v: &[WsTopic]) -> Vec<(String, String)> {
    let mut k: Vec<(String, String)> = v.iter().map(|t| (t.item.clone(), t.ty.clone())).collect();
    k.sort();
    k
}

fn str_json(s: &str) -> Json {
    Json::String(s.to_owned())
}

fn obj(members: Vec<(&str, Json)>) -> Json {
    Json::Object(members.into_iter().map(|(k, v)| (k.to_owned(), v)).collect())
}

fn int_json(v: i64) -> Json {
    Json::Number(JsonNumber { as_i64: Some(v), literal: v.to_string() })
}

#[test]
fn first_watcher_registers_last_watcher_unregisters() {
    let mut ts = TopicSubscribers::new();
    let mut st = SubscriberTopics::new();
    let reg = apply_subscribe(&mut ts, &mut st, 1, vec![topic("005930", "0D"), topic("005930", "0D")]);
    assert_eq!(keys(&reg), vec![("005930".to_owned(), "0D".to_owned())]);
    let reg2 = apply_subscribe(&mut ts, &mut st, 2, vec![topic("005930", "0D"), topic("000660", "0B")]);
    assert_eq!(keys(&reg2), vec![("000660".to_owned(), "0B".to_owned())]);
    assert_eq!(ts.watcher_count(&topic("005930", "0D")), 2);
    assert_eq!(st.topic_count(2), 2);

    let un = apply_unsubscribe(&mut ts, &mut st, 1, vec![topic("005930", "0D")]);
    assert!(un.is_empty());
    assert_eq!(ts.watcher_count(&topic("005930", "0D")), 1);

    let un2 = apply_unsubscribe_all(&mut ts, &mut st, 2);
    assert_eq!(
        keys(&un2),
        vec![("000660".to_owned(), "0B".to_owned()), ("005930".to_owned(), "0D".to_owned())]
    );
    assert_eq!(ts.watcher_count(&topic("005930", "0D")), 0);
    assert_eq!(st.topic_count(2), 0);
    assert_eq!(st.topic_count(1), 0);
}

#[test]
fn unsubscribe_of_unheld_topic_changes_nothing() {
    let mut ts = TopicSubscribers::new();
    let mut st = SubscriberTopics::new();
    apply_subscribe(&mut ts, &mut st, 1, vec![topic("A", "0D")]);
    let un = apply_unsubscribe(&mut ts, &mut st, 2, vec![topic("A", "0D")]);
    assert!(un.is_empty());
    assert_eq!(ts.watcher_count(&topic("A", "0D")), 1);
    let un_all = apply_unsubscribe_all(&mut ts, &mut st, 9);
    assert!(un_all.is_empty());
}

#[test]
fn subscribe_then_unsubscribe_restores_tables() {
    let mut ts = TopicSubscribers::new();
    let mut st = SubscriberTopics::new();
    let reg = apply_subscribe(&mut ts, &mut st, 4, vec![topic("X", "0B"), topic("Y", "0B")]);
    let un = apply_unsubscribe(&mut ts, &mut st, 4, vec![topic("X", "0B"), topic("Y", "0B")]);
    assert_eq!(keys(&reg), keys(&un));
    assert_eq!(st.topic_count(4), 0);
    assert_eq!(ts.watcher_count(&topic("X", "0B")), 0);
}

#[test]
fn reg_data_groups_by_type_sorted() {
    let data = ws_topics_to_reg_data(vec![
        topic("B", "0D"),
        topic("A", "0D"),
        topic("B", "0D"),
        topic("C", "0B"),
    ]);
    assert_eq!(data.len(), 2);
    assert_eq!(data[0].types, vec!["0B".to_owned()]);
    assert_eq!(data[0].item, vec!["C".to_owned()]);
    assert_eq!(data[1].types, vec!["0D".to_owned()]);
    assert_eq!(data[1].item, vec!["A".to_owned(), "B".to_owned()]);
    assert!(ws_topics_to_reg_data(vec![]).is_empty());
}

#[test]
fn commands_wait_for_login_then_flush_in_order() {
    let mut s = WsSession::new();
    assert!(!s.authenticated());
    let acts = s.on_command(Some(WsCommand::Subscribe { subscriber_id: 1, topics: vec![topic("A", "0D")] }));
    assert!(acts.is_empty());
    let acts = s.on_command(Some(WsCommand::Register(vec![WsRegData { item: vec!["".to_owned()], types: vec!["0s".to_owned()] }])));
    assert!(acts.is_empty());
    assert_eq!(s.pending_len(), 2);

    let ack = obj(vec![("trnm", str_json("LOGIN")), ("return_code", int_json(0))]);
    let acts = s.on_message(ack);
    assert!(s.authenticated());
    assert_eq!(acts.len(), 2);
    assert!(matches!(acts[0], WsAction::FlushPending));
    assert!(matches!(acts[1], WsAction::Emit(WsEvent::LoginAck { ok: true, .. })));

    let first = s.next_pending().expect("first queued command");
    assert_eq!(first.len(), 1);
    match &first[0] {
        WsAction::Register(d, ctx) => {
            assert_eq!(*ctx, SendContext::Pending);
            assert_eq!(d.len(), 1);
            assert_eq!(d[0].item, vec!["A".to_owned()]);
            assert_eq!(d[0].types, vec!["0D".to_owned()]);
        }
        other => panic!("unexpected {:?}", other),
    }
    let second = s.next_pending().expect("second queued command");
    match &second[0] {
        WsAction::Register(d, ctx) => {
            assert_eq!(*ctx, SendContext::Pending);
            assert_eq!(d[0].types, vec!["0s".to_owned()]);
        }
        other => panic!("unexpected {:?}", other),
    }
    assert!(s.next_pending().is_none());
    assert_eq!(s.watcher_count(&topic("A", "0D")), 1);
}

#[test]
fn failed_login_keeps_queue() {
    let mut s = WsSession::new();
    s.on_command(Some(WsCommand::UnsubscribeAll { subscriber_id: 3 }));
    let nack = obj(vec![("trnm", str_json("LOGIN")), ("return_code", int_json(100)), ("return_msg", str_json("bad"))]);
    let acts = s.on_message(nack);
    assert!(!s.authenticated());
    assert_eq!(acts.len(), 1);
    assert!(matches!(acts[0], WsAction::Emit(WsEvent::LoginAck { ok: false, .. })));
    assert_eq!(s.pending_len(), 1);
}

#[test]
fn ping_is_echoed_and_other_messages_reported() {
    let mut s = WsSession::new();
    let acts = s.on_message(obj(vec![("trnm", str_json("PING"))]));
    assert_eq!(acts.len(), 1);
    assert!(matches!(acts[0], WsAction::EchoPing(_)));
    let acts = s.on_message(obj(vec![("trnm", str_json("REAL"))]));
    assert!(matches!(acts[0], WsAction::Emit(WsEvent::Raw(_))));
}

#[test]
fn shutdown_and_closed_channel_stop_the_worker() {
    for cmd in [Some(WsCommand::Shutdown), None] {
        let mut s = WsSession::new();
        let acts = s.on_command(cmd);
        assert_eq!(acts.len(), 3);
        assert!(matches!(acts[0], WsAction::Close));
        assert!(matches!(acts[1], WsAction::Emit(WsEvent::Disconnected)));
        assert!(matches!(acts[2], WsAction::Stop));
    }
}

#[test]
fn authenticated_commands_run_at_once() {
    let mut s = WsSession::new();
    s.on_message(obj(vec![("trnm", str_json("LOGIN")), ("return_code", str_json("0"))]));
    assert!(s.authenticated());
    let acts = s.on_command(Some(WsCommand::Subscribe { subscriber_id: 7, topics: vec![topic("A", "0D")] }));
    assert_eq!(acts.len(), 1);
    assert!(matches!(&acts[0], WsAction::Register(_, SendContext::Subscribe)));
    let acts = s.on_command(Some(WsCommand::Subscribe { subscriber_id: 8, topics: vec![topic("A", "0D")] }));
    assert!(acts.is_empty());
    let acts = s.on_command(Some(WsCommand::UnsubscribeAll { subscriber_id: 7 }));
    assert!(acts.is_empty());
    let acts = s.on_command(Some(WsCommand::Unsubscribe { subscriber_id: 8, topics: vec![topic("A", "0D")] }));
    assert_eq!(acts.len(), 1);
    assert!(matches!(&acts[0], WsAction::Unregister(_, SendContext::Unsubscribe)));
    assert_eq!(SendContext::Unsubscribe.label(), "unsubscribe");
    assert_eq!(SendContext::Pending.label(), "pending command");
}

#[test]
fn status_follows_events() {
    let mut st = WsStatus::new();
    assert!(!st.connected && !st.login_ok);
    assert!(st.apply_event(&WsEvent::Connected));
    assert!(st.connected);
    assert!(st.apply_event(&WsEvent::LoginAck { ok: true, raw: Json::Null }));
    assert!(st.login_ok);
    assert!(!st.apply_event(&WsEvent::Raw(Json::Null)));
    assert!(st.connected && st.login_ok);
    assert!(st.apply_event(&WsEvent::Error("x".to_owned())));
    assert!(!st.connected && !st.login_ok);
    let updated = st.apply_events(&vec![WsEvent::Connected, WsEvent::Raw(Json::Null)]);
    assert!(updated);
    assert!(st.connected && !st.login_ok);
    assert!(!st.apply_events(&vec![WsEvent::Raw(Json::Null), WsEvent::Raw(Json::Null)]));
    assert!(st.apply_events(&vec![WsEvent::Disconnected]));
    assert_eq!(st, WsStatus { connected: false, login_ok: false });
    assert_eq!(MAX_WS_EVENTS_PER_FRAME, 512);
    assert_eq!(MAX_REST_EVENTS_PER_FRAME, 128);
}

#[test]
fn picking_a_stock_moves_the_order_book_subscription() {
    assert!(selection_change_commands(3, "005930", "005930").is_empty());
    let cmds = selection_change_commands(3, "", "005930");
    assert_eq!(cmds.len(), 1);
    match &cmds[0] {
        WsCommand::Subscribe { subscriber_id, topics } => {
            assert_eq!(*subscriber_id, 3);
            assert_eq!(keys(topics), vec![("005930".to_owned(), ORDER_BOOK_TYPE.to_owned())]);
        }
        other => panic!("unexpected {:?}", other),
    }
    let cmds = selection_change_commands(3, "005930", "000660");
    assert_eq!(cmds.len(), 2);
    assert!(matches!(&cmds[0], WsCommand::Unsubscribe { subscriber_id: 3, .. }));
    assert!(matches!(&cmds[1], WsCommand::Subscribe { subscriber_id: 3, .. }));
    let cmds = selection_change_commands(3, "000660", "");
    assert_eq!(cmds.len(), 1);
    assert!(matches!(&cmds[0], WsCommand::Unsubscribe { subscriber_id: 3, .. }));
}

#[test]
fn order_tool_numbers_start_at_one() {
    let mut n = OrderToolNumbers::new();
    assert_eq!(n.open_next(), 1);
    assert_eq!(n.open_next(), 2);
    assert_eq!(n.last, 2);
}

#[test]
fn reg_data_ignores_order_and_repeats() {
    let a = ws_topics_to_reg_data(vec![topic("B", "0D"), topic("A", "0B"), topic("A", "0D")]);
    let b = ws_topics_to_reg_data(vec![topic("A", "0D"), topic("A", "0D"), topic("B", "0D"), topic("A", "0B")]);
    let view = |r: &Vec<WsRegData>| -> Vec<(Vec<String>, Vec<String>)> {
        r.iter().map(|d| (d.types.clone(), d.item.clone())).collect()
    };
    assert_eq!(view(&a), view(&b));
}

#[test]
fn subscribing_twice_registers_once() {
    let mut ts = TopicSubscribers::new();
    let mut st = SubscriberTopics::new();
    let first = apply_subscribe(&mut ts, &mut st, 5, vec![topic("A", "0D"), topic("B", "0D")]);
    assert_eq!(first.len(), 2);
    let second = apply_subscribe(&mut ts, &mut st, 5, vec![topic("B", "0D"), topic("A", "0D")]);
    assert!(second.is_empty());
    assert_eq!(ts.watcher_count(&topic("A", "0D")), 1);
    assert_eq!(st.topic_count(5), 2);
}

#[test]
fn unsubscribe_undoes_subscribe_for_a_watcher_holding_other_topics() {
    let mut ts = TopicSubscribers::new();
    let mut st = SubscriberTopics::new();
    apply_subscribe(&mut ts, &mut st, 1, vec![topic("A", "0D")]);
    apply_subscribe(&mut ts, &mut st, 2, vec![topic("B", "0D")]);
    let reg = apply_subscribe(&mut ts, &mut st, 1, vec![topic("B", "0D"), topic("C", "0D")]);
    let un = apply_unsubscribe(&mut ts, &mut st, 1, vec![topic("B", "0D"), topic("C", "0D")]);
    assert_eq!(keys(&reg), keys(&un));
    assert_eq!(keys(&reg), vec![("C".to_owned(), "0D".to_owned())]);
    assert_eq!(st.topic_count(1), 1);
    assert_eq!(ts.watcher_count(&topic("A", "0D")), 1);
    assert_eq!(ts.watcher_count(&topic("B", "0D")), 1);
    assert_eq!(ts.watcher_count(&topic("C", "0D")), 0);
}

#[test]
fn link_failure_reports_then_disconnects_then_stops() {
    let s = WsSession::new();
    let acts = s.on_io_failure("recv failed: reset".to_owned());
    assert_eq!(acts.len(), 3);
    assert!(matches!(&acts[0], WsAction::Emit(WsEvent::Error(m)) if m == "recv failed: reset"));
    assert!(matches!(acts[1], WsAction::Emit(WsEvent::Disconnected)));
    assert!(matches!(acts[2], WsAction::Stop));
}

#[test]
fn closed_windows_are_dropped_and_unsubscribed() {
    let (kept, cmds) = sweep_closed_windows(&vec![(1, true), (2, false), (3, true), (4, false)]);
    assert_eq!(kept, vec![1, 3]);
    assert_eq!(cmds.len(), 2);
    assert!(matches!(cmds[0], WsCommand::UnsubscribeAll { subscriber_id: 2 }));
    assert!(matches!(cmds[1], WsCommand::UnsubscribeAll { subscriber_id: 4 }));
    let (kept, cmds) = sweep_closed_windows(&vec![]);
    assert!(kept.is_empty() && cmds.is_empty());
}

#[test]
fn status_bar_text_follows_the_link() {
    let mut st = WsStatus::new();
    assert_eq!(st.label(), "[키움] Connection: -- | Login: --");
    st.apply_event(&WsEvent::Connected);
    assert_eq!(st.label(), "[키움] Connection: OK | Login: --");
    st.apply_event(&WsEvent::LoginAck { ok: true, raw: Json::Null });
    assert_eq!(st.label(), "[키움] Connection: OK | Login: OK");
    st.apply_event(&WsEvent::Disconnected);
    assert_eq!(st.label(), "[키움] Connection: -- | Login: --");
}
