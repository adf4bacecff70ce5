//! The realtime session: what the WebSocket worker does with each command from
//! the windows and each message from the server. Commands that arrive before the
//! login is acknowledged wait in a queue and are carried out in arrival order
//! once it is; subscriptions are counted per topic so that the server is asked
//! to register a topic once and to drop it when its last watcher leaves.
use vstd::prelude::*;
use crate::json::{get_str_spec, Json};
use crate::reg_data::{is_grouping_of, lemma_grouping_empty, ws_topics_to_reg_data, WsRegData};
use crate::subscriptions::{
    apply_subscribe, apply_unsubscribe, apply_unsubscribe_all, consistent,
    lemma_subscribe_keeps_consistent, lemma_unsubscribe_all_keeps_consistent,
    lemma_unsubscribe_keeps_consistent, no_idle_topics, subscribe_spec, topic_set,
    unsubscribe_all_spec, unsubscribe_spec, SubscriberTopics, TopicKey, TopicSubscribers, WsTopic,
    lemma_subscribe_registers_unwatched, lemma_unsubscribe_all_releases_sole_topics,
    lemma_unsubscribe_releases_sole_topics, unwatched, watched_only_by,
};
use crate::ws_messages::{
    is_login_ack, is_ping, login_name, ping_name, return_code_is_ok, return_code_ok_spec, trnm_key,
};

verus! {

/// A request from the windows to the realtime worker.
#[derive(Debug)]
pub enum WsCommand {
    Register(Vec<WsRegData>),
    Unregister(Vec<WsRegData>),
    Subscribe { subscriber_id: u64, topics: Vec<WsTopic> },
    Unsubscribe { subscriber_id: u64, topics: Vec<WsTopic> },
    UnsubscribeAll { subscriber_id: u64 },
    Shutdown,
}

/// What the realtime worker reports to the windows.
#[derive(Debug)]
pub enum WsEvent {
    Connected,
    LoginAck { ok: bool, raw: Json },
    Raw(Json),
    Error(String),
    Disconnected,
}

/// Which request a failed send belongs to; it names the failure in the error
/// reported to the windows.
#[derive(Debug, Clone, Copy, PartialEq, Eq)]
pub enum SendContext {
    Register,
    Unregister,
    Subscribe,
    Unsubscribe,
    UnsubscribeAll,
    Pending,
}

impl SendContext {
    /// The prefix of the error reported when the send fails: `"<label> failed: ..."`.
    pub fn label(&self) -> (s: &'static str)
        ensures
            s@ == send_context_label(*self),
    {
        proof {
            reveal_strlit("register");
            reveal_strlit("unregister");
            reveal_strlit("subscribe");
            reveal_strlit("unsubscribe");
            reveal_strlit("unsubscribe_all");
            reveal_strlit("pending command");
        }
        let s = match self {
            SendContext::Register => "register",
            SendContext::Unregister => "unregister",
            SendContext::Subscribe => "subscribe",
            SendContext::Unsubscribe => "unsubscribe",
            SendContext::UnsubscribeAll => "unsubscribe_all",
            SendContext::Pending => "pending command",
        };
        assert(s@ =~= send_context_label(*self));
        s
    }
}

pub open spec fn send_context_label(c: SendContext) -> Seq<char> {
    match c {
        SendContext::Register => seq!['r', 'e', 'g', 'i', 's', 't', 'e', 'r'],
        SendContext::Unregister => seq!['u', 'n', 'r', 'e', 'g', 'i', 's', 't', 'e', 'r'],
        SendContext::Subscribe => seq!['s', 'u', 'b', 's', 'c', 'r', 'i', 'b', 'e'],
        SendContext::Unsubscribe => seq!['u', 'n', 's', 'u', 'b', 's', 'c', 'r', 'i', 'b', 'e'],
        SendContext::UnsubscribeAll => seq![
            'u', 'n', 's', 'u', 'b', 's', 'c', 'r', 'i', 'b', 'e', '_', 'a', 'l', 'l',
        ],
        SendContext::Pending => seq![
            'p', 'e', 'n', 'd', 'i', 'n', 'g', ' ', 'c', 'o', 'm', 'm', 'a', 'n', 'd',
        ],
    }
}

/// One step for the worker to carry out, in order.
#[derive(Debug)]
pub enum WsAction {
    /// Send a `REG` request; on failure report `"<label> failed: <error>"`.
    Register(Vec<WsRegData>, SendContext),
    /// Send a `REMOVE` request; on failure report `"<label> failed: <error>"`.
    Unregister(Vec<WsRegData>, SendContext),
    /// Send the ping back; on failure report `"ping echo failed: <error>"`, then
    /// `Disconnected`, and stop.
    EchoPing(Json),
    /// Carry out the queued commands, one `WsSession::next_pending` at a time.
    FlushPending,
    /// Report an event to the windows.
    Emit(WsEvent),
    /// Close the socket, ignoring failure.
    Close,
    /// Stop the worker.
    Stop,
}

/// The realtime worker's state.
pub struct WsSession {
    authenticated: bool,
    pending: Vec<WsCommand>,
    topic_subscribers: TopicSubscribers,
    subscriber_topics: SubscriberTopics,
}

/// The actions that end the worker: close, report the disconnection, stop.
pub open spec fn shutdown_actions(acts: Seq<WsAction>) -> bool {
    &&& acts.len() == 3
    &&& acts[0] is Close
    &&& acts[1] matches WsAction::Emit(WsEvent::Disconnected)
    &&& acts[2] is Stop
}

/// The actions for a subscription change whose upstream topics are `topics`:
/// nothing when there are none, else one request of the given kind grouping them.
pub open spec fn change_actions(
    acts: Seq<WsAction>,
    topics: Set<TopicKey>,
    register: bool,
    ctx: SendContext,
) -> bool {
    if topics == Set::<TopicKey>::empty() {
        acts.len() == 0
    } else {
        &&& acts.len() == 1
        &&& if register {
            acts[0] matches WsAction::Register(d, c) && is_grouping_of(d@, topics) && c == ctx
        } else {
            acts[0] matches WsAction::Unregister(d, c) && is_grouping_of(d@, topics) && c == ctx
        }
    }
}

/// Carrying out `cmd` once logged in: the tables before and after, and the
/// actions. Queued commands report their failures as `Pending`.
pub open spec fn dispatch_spec(
    ts: Map<TopicKey, Set<u64>>,
    st: Map<u64, Set<TopicKey>>,
    cmd: WsCommand,
    queued: bool,
    ts2: Map<TopicKey, Set<u64>>,
    st2: Map<u64, Set<TopicKey>>,
    acts: Seq<WsAction>,
) -> bool {
    match cmd {
        WsCommand::Register(d) => {
            &&& ts2 == ts
            &&& st2 == st
            &&& acts == seq![
                WsAction::Register(
                    d,
                    if queued { SendContext::Pending } else { SendContext::Register },
                ),
            ]
        },
        WsCommand::Unregister(d) => {
            &&& ts2 == ts
            &&& st2 == st
            &&& acts == seq![
                WsAction::Unregister(
                    d,
                    if queued { SendContext::Pending } else { SendContext::Unregister },
                ),
            ]
        },
        WsCommand::Subscribe { subscriber_id, topics } => {
            let r = subscribe_spec(ts, st, subscriber_id, topic_set(topics@));
            &&& ts2 == r.0
            &&& st2 == r.1
            &&& change_actions(
                acts,
                r.2,
                true,
                if queued { SendContext::Pending } else { SendContext::Subscribe },
            )
        },
        WsCommand::Unsubscribe { subscriber_id, topics } => {
            let r = unsubscribe_spec(ts, st, subscriber_id, topic_set(topics@));
            &&& ts2 == r.0
            &&& st2 == r.1
            &&& change_actions(
                acts,
                r.2,
                false,
                if queued { SendContext::Pending } else { SendContext::Unsubscribe },
            )
        },
        WsCommand::UnsubscribeAll { subscriber_id } => {
            let r = unsubscribe_all_spec(ts, st, subscriber_id);
            &&& ts2 == r.0
            &&& st2 == r.1
            &&& change_actions(
                acts,
                r.2,
                false,
                if queued { SendContext::Pending } else { SendContext::UnsubscribeAll },
            )
        },
        WsCommand::Shutdown => {
            &&& ts2 == ts
            &&& st2 == st
            &&& shutdown_actions(acts)
        },
    }
}

/// Closing a window (`UnsubscribeAll`) sends at most one request and never a
/// `REG`: a `REMOVE` of exactly the topics that the window alone watched, none
/// when there are none. Afterwards no topic lists the window and it holds nothing.
pub proof fn lemma_unsubscribe_all_only_removes(
    ts: Map<TopicKey, Set<u64>>,
    st: Map<u64, Set<TopicKey>>,
    s: u64,
    queued: bool,
    ts2: Map<TopicKey, Set<u64>>,
    st2: Map<u64, Set<TopicKey>>,
    acts: Seq<WsAction>,
)
    requires
        consistent(ts, st),
        dispatch_spec(ts, st, WsCommand::UnsubscribeAll { subscriber_id: s }, queued, ts2, st2, acts),
    ensures
        forall|i: int| 0 <= i < acts.len() ==> !(#[trigger] acts[i] is Register),
        acts.len() <= 1,
        (acts.len() == 0) <==> (watched_only_by(ts, s) == Set::<TopicKey>::empty()),
        acts.len() == 1 ==> (acts[0] matches WsAction::Unregister(d, _) && is_grouping_of(
            d@,
            watched_only_by(ts, s),
        )),
        forall|t: TopicKey| #[trigger] ts2.contains_key(t) ==> !ts2[t].contains(s),
        !st2.contains_key(s),
{
    lemma_unsubscribe_all_releases_sole_topics(ts, st, s);
}

/// Unsubscribing sends at most one request and never a `REG`: a `REMOVE` of
/// exactly the named topics that the window alone watched. Afterwards the window
/// watches none of the named topics.
pub proof fn lemma_unsubscribe_only_removes(
    ts: Map<TopicKey, Set<u64>>,
    st: Map<u64, Set<TopicKey>>,
    s: u64,
    topics: Vec<WsTopic>,
    queued: bool,
    ts2: Map<TopicKey, Set<u64>>,
    st2: Map<u64, Set<TopicKey>>,
    acts: Seq<WsAction>,
)
    requires
        consistent(ts, st),
        dispatch_spec(ts, st, WsCommand::Unsubscribe { subscriber_id: s, topics }, queued, ts2, st2, acts),
    ensures
        forall|i: int| 0 <= i < acts.len() ==> !(#[trigger] acts[i] is Register),
        acts.len() <= 1,
        (acts.len() == 0) <==> (watched_only_by(ts, s).intersect(topic_set(topics@))
            == Set::<TopicKey>::empty()),
        acts.len() == 1 ==> (acts[0] matches WsAction::Unregister(d, _) && is_grouping_of(
            d@,
            watched_only_by(ts, s).intersect(topic_set(topics@)),
        )),
        forall|t: TopicKey| #[trigger] ts2.contains_key(t) && topic_set(topics@).contains(t)
            ==> !ts2[t].contains(s),
{
    lemma_unsubscribe_releases_sole_topics(ts, st, s, topic_set(topics@));
}

/// Subscribing sends at most one request and never a `REMOVE`: a `REG` of exactly
/// the named topics that nobody watched. Afterwards the window watches every
/// named topic.
pub proof fn lemma_subscribe_only_registers(
    ts: Map<TopicKey, Set<u64>>,
    st: Map<u64, Set<TopicKey>>,
    s: u64,
    topics: Vec<WsTopic>,
    queued: bool,
    ts2: Map<TopicKey, Set<u64>>,
    st2: Map<u64, Set<TopicKey>>,
    acts: Seq<WsAction>,
)
    requires
        consistent(ts, st),
        dispatch_spec(ts, st, WsCommand::Subscribe { subscriber_id: s, topics }, queued, ts2, st2, acts),
    ensures
        forall|i: int| 0 <= i < acts.len() ==> !(#[trigger] acts[i] is Unregister),
        acts.len() <= 1,
        (acts.len() == 0) <==> (unwatched(ts, topic_set(topics@)) == Set::<TopicKey>::empty()),
        acts.len() == 1 ==> (acts[0] matches WsAction::Register(d, _) && is_grouping_of(
            d@,
            unwatched(ts, topic_set(topics@)),
        )),
        forall|t: TopicKey| #[trigger] topic_set(topics@).contains(t) ==> ts2.contains_key(t)
            && ts2[t].contains(s),
{
    lemma_subscribe_registers_unwatched(ts, st, s, topic_set(topics@));
}

impl WsSession {
    /// Whether the login has been acknowledged.
    pub closed spec fn is_authenticated(&self) -> bool {
        self.authenticated
    }

    /// The commands waiting for the login, oldest first.
    pub closed spec fn queued(&self) -> Seq<WsCommand> {
        self.pending@
    }

    /// Who watches each topic.
    pub closed spec fn watchers(&self) -> Map<TopicKey, Set<u64>> {
        self.topic_subscribers@
    }

    /// Which topics each watcher holds.
    pub closed spec fn holdings(&self) -> Map<u64, Set<TopicKey>> {
        self.subscriber_topics@
    }

    /// The session's invariant: both tables well formed, in agreement, and with no
    /// topic left without a watcher.
    pub closed spec fn wf(&self) -> bool {
        &&& self.topic_subscribers.wf()
        &&& self.subscriber_topics.wf()
        &&& consistent(self.topic_subscribers@, self.subscriber_topics@)
        &&& no_idle_topics(self.topic_subscribers@)
    }

    /// In a well-formed session the two tables agree (a window holds a topic
    /// exactly when it is among the topic's watchers) and no topic is kept without
    /// a watcher.
    pub proof fn lemma_tables_agree(&self)
        requires
            self.wf(),
        ensures
            consistent(self.watchers(), self.holdings()),
            no_idle_topics(self.watchers()),
    {
    }

    /// A session that has not logged in yet, with nothing queued or watched.
    pub fn new() -> (s: WsSession)
        ensures
            s.wf(),
            !s.is_authenticated(),
            s.queued() == Seq::<WsCommand>::empty(),
            s.watchers() == Map::<TopicKey, Set<u64>>::empty(),
            s.holdings() == Map::<u64, Set<TopicKey>>::empty(),
    {
        let s = WsSession {
            authenticated: false,
            pending: Vec::new(),
            topic_subscribers: TopicSubscribers::new(),
            subscriber_topics: SubscriberTopics::new(),
        };
        assert(s.pending@ =~= Seq::<WsCommand>::empty());
        s
    }

    /// Whether the login has been acknowledged.
    pub fn authenticated(&self) -> (b: bool)
        ensures
            b == self.is_authenticated(),
    {
        self.authenticated
    }

    /// How many commands wait for the login.
    pub fn pending_len(&self) -> (n: usize)
        ensures
            n == self.queued().len(),
    {
        self.pending.len()
    }

    /// How many order windows watch topic `t`.
    pub fn watcher_count(&self, t: &WsTopic) -> (n: usize)
        requires
            self.wf(),
        ensures
            n == (if self.watchers().contains_key(t@) { self.watchers()[t@].len() } else { 0 }),
    {
        self.topic_subscribers.watcher_count(t)
    }

    /// How many topics order window `subscriber_id` watches.
    pub fn topic_count(&self, subscriber_id: u64) -> (n: usize)
        requires
            self.wf(),
        ensures
            n == (if self.holdings().contains_key(subscriber_id) {
                self.holdings()[subscriber_id].len()
            } else {
                0
            }),
    {
        self.subscriber_topics.topic_count(subscriber_id)
    }

    fn shutdown() -> (acts: Vec<WsAction>)
        ensures
            shutdown_actions(acts@),
    {
        let mut acts: Vec<WsAction> = Vec::new();
        acts.push(WsAction::Close);
        acts.push(WsAction::Emit(WsEvent::Disconnected));
        acts.push(WsAction::Stop);
        acts
    }

    fn change(
        topics: Vec<WsTopic>,
        register: bool,
        ctx: SendContext,
    ) -> (acts: Vec<WsAction>)
        ensures
            change_actions(acts@, topic_set(topics@), register, ctx),
    {
        let data = ws_topics_to_reg_data(topics);
        proof {
            lemma_grouping_empty(data@, topic_set(topics@));
        }
        let mut acts: Vec<WsAction> = Vec::new();
        if data.len() > 0 {
            if register {
                acts.push(WsAction::Register(data, ctx));
            } else {
                acts.push(WsAction::Unregister(data, ctx));
            }
        }
        acts
    }

    fn dispatch(&mut self, cmd: WsCommand, queued: bool) -> (acts: Vec<WsAction>)
        requires
            old(self).wf(),
        ensures
            final(self).wf(),
            final(self).authenticated == old(self).authenticated,
            final(self).pending == old(self).pending,
            dispatch_spec(
                old(self).topic_subscribers@,
                old(self).subscriber_topics@,
                cmd,
                queued,
                final(self).topic_subscribers@,
                final(self).subscriber_topics@,
                acts@,
            ),
    {
        let ghost ts0 = self.topic_subscribers@;
        let ghost st0 = self.subscriber_topics@;
        match cmd {
            WsCommand::Register(d) => {
                let ctx = if queued { SendContext::Pending } else { SendContext::Register };
                let mut acts: Vec<WsAction> = Vec::new();
                acts.push(WsAction::Register(d, ctx));
                acts
            },
            WsCommand::Unregister(d) => {
                let ctx = if queued { SendContext::Pending } else { SendContext::Unregister };
                let mut acts: Vec<WsAction> = Vec::new();
                acts.push(WsAction::Unregister(d, ctx));
                acts
            },
            WsCommand::Subscribe { subscriber_id, topics } => {
                let ghost u = topic_set(topics@);
                proof {
                    lemma_subscribe_keeps_consistent(ts0, st0, subscriber_id, u);
                }
                let to_register = apply_subscribe(
                    &mut self.topic_subscribers,
                    &mut self.subscriber_topics,
                    subscriber_id,
                    topics,
                );
                let ctx = if queued { SendContext::Pending } else { SendContext::Subscribe };
                Self::change(to_register, true, ctx)
            },
            WsCommand::Unsubscribe { subscriber_id, topics } => {
                let ghost u = topic_set(topics@);
                proof {
                    lemma_unsubscribe_keeps_consistent(ts0, st0, subscriber_id, u);
                }
                let to_unregister = apply_unsubscribe(
                    &mut self.topic_subscribers,
                    &mut self.subscriber_topics,
                    subscriber_id,
                    topics,
                );
                let ctx = if queued { SendContext::Pending } else { SendContext::Unsubscribe };
                Self::change(to_unregister, false, ctx)
            },
            WsCommand::UnsubscribeAll { subscriber_id } => {
                proof {
                    lemma_unsubscribe_all_keeps_consistent(ts0, st0, subscriber_id);
                }
                let to_unregister = apply_unsubscribe_all(
                    &mut self.topic_subscribers,
                    &mut self.subscriber_topics,
                    subscriber_id,
                );
                let ctx = if queued { SendContext::Pending } else { SendContext::UnsubscribeAll };
                Self::change(to_unregister, false, ctx)
            },
            WsCommand::Shutdown => Self::shutdown(),
        }
    }

    /// A command from the windows (`None` when they are gone). Shutting down, or the
    /// windows going away, ends the worker at once; before the login any other
    /// command waits in the queue; after it the command is carried out.
    pub fn on_command(&mut self, cmd: Option<WsCommand>) -> (acts: Vec<WsAction>)
        requires
            old(self).wf(),
        ensures
            final(self).wf(),
            final(self).is_authenticated() == old(self).is_authenticated(),
            match cmd {
                None => {
                    &&& shutdown_actions(acts@)
                    &&& final(self).queued() == old(self).queued()
                    &&& final(self).watchers() == old(self).watchers()
                    &&& final(self).holdings() == old(self).holdings()
                },
                Some(WsCommand::Shutdown) => {
                    &&& shutdown_actions(acts@)
                    &&& final(self).queued() == old(self).queued()
                    &&& final(self).watchers() == old(self).watchers()
                    &&& final(self).holdings() == old(self).holdings()
                },
                Some(c) => if !old(self).is_authenticated() {
                    &&& acts@.len() == 0
                    &&& final(self).queued() == old(self).queued().push(c)
                    &&& final(self).watchers() == old(self).watchers()
                    &&& final(self).holdings() == old(self).holdings()
                } else {
                    &&& final(self).queued() == old(self).queued()
                    &&& dispatch_spec(
                        old(self).watchers(),
                        old(self).holdings(),
                        c,
                        false,
                        final(self).watchers(),
                        final(self).holdings(),
                        acts@,
                    )
                },
            },
    {
        match cmd {
            None => Self::shutdown(),
            Some(WsCommand::Shutdown) => Self::shutdown(),
            Some(c) => {
                if !self.authenticated {
                    self.pending.push(c);
                    Vec::new()
                } else {
                    self.dispatch(c, false)
                }
            },
        }
    }

    /// A message from the server. A ping is sent back; a successful login
    /// acknowledgement authenticates the session and releases the queue before it
    /// is reported; any other message is reported as it is.
    pub fn on_message(&mut self, v: Json) -> (acts: Vec<WsAction>)
        requires
            old(self).wf(),
        ensures
            final(self).wf(),
            final(self).queued() == old(self).queued(),
            final(self).watchers() == old(self).watchers(),
            final(self).holdings() == old(self).holdings(),
            ({
                let trnm = get_str_spec(v, trnm_key());
                if trnm == Some(ping_name()) {
                    &&& final(self).is_authenticated() == old(self).is_authenticated()
                    &&& acts@.len() == 1
                    &&& acts@[0] == WsAction::EchoPing(v)
                } else if trnm == Some(login_name()) {
                    if return_code_ok_spec(v) {
                        &&& final(self).is_authenticated()
                        &&& acts@.len() == 2
                        &&& acts@[0] is FlushPending
                        &&& acts@[1] == WsAction::Emit(WsEvent::LoginAck { ok: true, raw: v })
                    } else {
                        &&& final(self).is_authenticated() == old(self).is_authenticated()
                        &&& acts@ == seq![WsAction::Emit(WsEvent::LoginAck { ok: false, raw: v })]
                    }
                } else {
                    &&& final(self).is_authenticated() == old(self).is_authenticated()
                    &&& acts@ == seq![WsAction::Emit(WsEvent::Raw(v))]
                }
            }),
    {
        let mut acts: Vec<WsAction> = Vec::new();
        if is_ping(&v) {
            acts.push(WsAction::EchoPing(v));
        } else if is_login_ack(&v) {
            let ok = return_code_is_ok(&v);
            if ok {
                self.authenticated = true;
                acts.push(WsAction::FlushPending);
            }
            acts.push(WsAction::Emit(WsEvent::LoginAck { ok, raw: v }));
        } else {
            acts.push(WsAction::Emit(WsEvent::Raw(v)));
        }
        proof {
            assert(ping_name() != login_name()) by {
                assert(ping_name().len() != login_name().len());
            }
        }
        acts
    }

    /// The link failed (connecting, fetching the token, sending the login, receiving
    /// or echoing a ping); `message` describes the failure. The worker reports the
    /// error, then the disconnection, and stops: its last event is always
    /// `Disconnected`.
    pub fn on_io_failure(&self, message: String) -> (acts: Vec<WsAction>)
        ensures
            acts@ == seq![
                WsAction::Emit(WsEvent::Error(message)),
                WsAction::Emit(WsEvent::Disconnected),
                WsAction::Stop,
            ],
    {
        let mut acts: Vec<WsAction> = Vec::new();
        acts.push(WsAction::Emit(WsEvent::Error(message)));
        acts.push(WsAction::Emit(WsEvent::Disconnected));
        acts.push(WsAction::Stop);
        assert(acts@ =~= seq![
            WsAction::Emit(WsEvent::Error(message)),
            WsAction::Emit(WsEvent::Disconnected),
            WsAction::Stop,
        ]);
        acts
    }

    /// Carries out the oldest queued command, or returns `None` when the queue is
    /// empty. A queued command reports send failures as `Pending`.
    pub fn next_pending(&mut self) -> (acts: Option<Vec<WsAction>>)
        requires
            old(self).wf(),
        ensures
            final(self).wf(),
            final(self).is_authenticated() == old(self).is_authenticated(),
            old(self).queued().len() == 0 ==> {
                &&& acts is None
                &&& final(self).queued() == old(self).queued()
                &&& final(self).watchers() == old(self).watchers()
                &&& final(self).holdings() == old(self).holdings()
            },
            old(self).queued().len() > 0 ==> {
                &&& acts matches Some(a) && dispatch_spec(
                    old(self).watchers(),
                    old(self).holdings(),
                    old(self).queued()[0],
                    true,
                    final(self).watchers(),
                    final(self).holdings(),
                    a@,
                )
                &&& final(self).queued() == old(self).queued().drop_first()
            },
    {
        if self.pending.len() == 0 {
            return None;
        }
        let cmd = self.pending.remove(0);
        proof {
            assert(self.pending@ =~= old(self).pending@.drop_first());
        }
        Some(self.dispatch(cmd, true))
    }
}

} // verus!
