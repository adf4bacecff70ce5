//! Realtime subscription bookkeeping. Several order windows may watch the same
//! realtime topic; the upstream server must be registered for a topic exactly
//! while at least one window watches it. Two indexes are kept in step: who
//! watches each topic, and which topics each watcher holds.
use vstd::prelude::*;
use crate::assoc::{
    lemma_pairs_map_dom, lemma_pairs_map_index, lemma_pairs_map_push, lemma_pairs_map_remove,
    lemma_pairs_map_update, pairs_map, unique_keys,
};

verus! {

/// A realtime topic: an item (a stock code) and a realtime type (such as `0D`).
#[derive(Debug, Clone, PartialEq, Eq, Hash)]
pub struct WsTopic {
    pub item: String,
    pub ty: String,
}

/// A topic as a value: its item's characters and its type's characters.
pub type TopicKey = (Seq<char>, Seq<char>);

impl View for WsTopic {
    type V = TopicKey;

    open spec fn view(&self) -> TopicKey {
        (self.item@, self.ty@)
    }
}

impl WsTopic {
    pub fn new(item: String, ty: String) -> (t: WsTopic)
        ensures
            t.item == item,
            t.ty == ty,
            t@ == (item@, ty@),
    {
        WsTopic { item, ty }
    }

    /// A copy of this topic.
    pub fn duplicate(&self) -> (t: WsTopic)
        ensures
            t@ == self@,
    {
        WsTopic { item: self.item.clone(), ty: self.ty.clone() }
    }

    /// Whether the two topics have the same item and the same type.
    pub fn same_as(&self, other: &WsTopic) -> (b: bool)
        ensures
            b == (self@ == other@),
    {
        self.item == other.item && self.ty == other.ty
    }
}

/// The values of a list of topics.
pub open spec fn topic_keys(s: Seq<WsTopic>) -> Seq<TopicKey> {
    s.map_values(|t: WsTopic| t@)
}

/// The set of topic values in a list of topics.
pub open spec fn topic_set(s: Seq<WsTopic>) -> Set<TopicKey> {
    topic_keys(s).to_set()
}

/// Who watches each topic. Every topic listed has at least one watcher.
pub struct TopicSubscribers {
    entries: Vec<(WsTopic, Vec<u64>)>,
}

/// Which topics each watcher holds.
pub struct SubscriberTopics {
    entries: Vec<(u64, Vec<WsTopic>)>,
}

pub open spec fn ts_pair(e: (WsTopic, Vec<u64>)) -> (TopicKey, Set<u64>) {
    (e.0@, e.1@.to_set())
}

pub open spec fn st_pair(e: (u64, Vec<WsTopic>)) -> (u64, Set<TopicKey>) {
    (e.0, topic_set(e.1@))
}

impl View for TopicSubscribers {
    type V = Map<TopicKey, Set<u64>>;

    closed spec fn view(&self) -> Map<TopicKey, Set<u64>> {
        pairs_map(self.entries@.map_values(|e: (WsTopic, Vec<u64>)| ts_pair(e)))
    }
}

impl View for SubscriberTopics {
    type V = Map<u64, Set<TopicKey>>;

    closed spec fn view(&self) -> Map<u64, Set<TopicKey>> {
        pairs_map(self.entries@.map_values(|e: (u64, Vec<WsTopic>)| st_pair(e)))
    }
}

impl TopicSubscribers {
    closed spec fn pairs(&self) -> Seq<(TopicKey, Set<u64>)> {
        self.entries@.map_values(|e: (WsTopic, Vec<u64>)| ts_pair(e))
    }

    /// The table's invariant: each topic once, each watcher once per topic, and no
    /// topic without watchers.
    pub closed spec fn wf(&self) -> bool {
        &&& unique_keys(self.pairs())
        &&& forall|i: int|
            0 <= i < self.entries@.len() ==> {
                &&& (#[trigger] self.entries@[i]).1@.no_duplicates()
                &&& self.entries@[i].1@.len() > 0
            }
    }

    /// An empty table.
    pub fn new() -> (t: TopicSubscribers)
        ensures
            t.wf(),
            t@ == Map::<TopicKey, Set<u64>>::empty(),
    {
        let t = TopicSubscribers { entries: Vec::new() };
        assert(t.pairs() =~= Seq::empty());
        t
    }
}

impl SubscriberTopics {
    closed spec fn pairs(&self) -> Seq<(u64, Set<TopicKey>)> {
        self.entries@.map_values(|e: (u64, Vec<WsTopic>)| st_pair(e))
    }

    /// The table's invariant: each watcher once, each topic once per watcher.
    pub closed spec fn wf(&self) -> bool {
        &&& unique_keys(self.pairs())
        &&& forall|i: int|
            0 <= i < self.entries@.len() ==> topic_keys(
                (#[trigger] self.entries@[i]).1@,
            ).no_duplicates()
    }

    /// An empty table.
    pub fn new() -> (t: SubscriberTopics)
        ensures
            t.wf(),
            t@ == Map::<u64, Set<TopicKey>>::empty(),
    {
        let t = SubscriberTopics { entries: Vec::new() };
        assert(t.pairs() =~= Seq::empty());
        t
    }
}

/// The two tables after watcher `s` subscribes to the topics `u`, and the topics
/// that now need registering upstream: those that had no watcher before.
pub open spec fn subscribe_spec(
    ts: Map<TopicKey, Set<u64>>,
    st: Map<u64, Set<TopicKey>>,
    s: u64,
    u: Set<TopicKey>,
) -> (Map<TopicKey, Set<u64>>, Map<u64, Set<TopicKey>>, Set<TopicKey>) {
    let mine = if st.contains_key(s) { st[s] } else { Set::empty() };
    let added = u.difference(mine);
    (
        Map::new(
            |t: TopicKey| ts.contains_key(t) || added.contains(t),
            |t: TopicKey|
                if added.contains(t) {
                    (if ts.contains_key(t) { ts[t] } else { Set::empty() }).insert(s)
                } else {
                    ts[t]
                },
        ),
        st.insert(s, mine.union(u)),
        added.difference(ts.dom()),
    )
}

/// The watcher table after watcher `s` leaves the topics `removed`, and the topics
/// that were left without watchers and so need unregistering upstream.
pub open spec fn release_spec(ts: Map<TopicKey, Set<u64>>, s: u64, removed: Set<TopicKey>) -> (
    Map<TopicKey, Set<u64>>,
    Set<TopicKey>,
) {
    let hit = removed.intersect(ts.dom());
    let emptied = hit.filter(|t: TopicKey| ts[t].remove(s) == Set::<u64>::empty());
    (
        Map::new(
            |t: TopicKey| ts.contains_key(t) && !emptied.contains(t),
            |t: TopicKey|
                if hit.contains(t) {
                    ts[t].remove(s)
                } else {
                    ts[t]
                },
        ),
        emptied,
    )
}

/// The two tables after watcher `s` unsubscribes from the topics `u`, and the
/// topics that need unregistering upstream. A watcher left with no topics is
/// dropped from the second table.
pub open spec fn unsubscribe_spec(
    ts: Map<TopicKey, Set<u64>>,
    st: Map<u64, Set<TopicKey>>,
    s: u64,
    u: Set<TopicKey>,
) -> (Map<TopicKey, Set<u64>>, Map<u64, Set<TopicKey>>, Set<TopicKey>) {
    if !st.contains_key(s) {
        (ts, st, Set::empty())
    } else {
        let rest = st[s].difference(u);
        let rel = release_spec(ts, s, st[s].intersect(u));
        (rel.0, if rest == Set::<TopicKey>::empty() { st.remove(s) } else { st.insert(s, rest) }, rel.1)
    }
}

/// The two tables after watcher `s` drops all its topics, and the topics that need
/// unregistering upstream.
pub open spec fn unsubscribe_all_spec(
    ts: Map<TopicKey, Set<u64>>,
    st: Map<u64, Set<TopicKey>>,
    s: u64,
) -> (Map<TopicKey, Set<u64>>, Map<u64, Set<TopicKey>>, Set<TopicKey>) {
    if !st.contains_key(s) {
        (ts, st, Set::empty())
    } else {
        let rel = release_spec(ts, s, st[s]);
        (rel.0, st.remove(s), rel.1)
    }
}

pub(crate) proof fn lemma_to_set_push<A>(s: Seq<A>, x: A)
    ensures
        s.push(x).to_set() == s.to_set().insert(x),
{
    assert forall|y: A| #[trigger] s.push(x).to_set().contains(y) <==> s.to_set().insert(x).contains(
        y,
    ) by {
        if s.push(x).contains(y) && y != x {
            let i = choose|i: int| 0 <= i < s.push(x).len() && s.push(x)[i] == y;
            assert(s[i] == y);
        }
        if s.contains(y) {
            let i = choose|i: int| 0 <= i < s.len() && s[i] == y;
            assert(s.push(x)[i] == y);
        }
        if y == x {
            assert(s.push(x)[s.len() as int] == y);
        }
    }
    assert(s.push(x).to_set() =~= s.to_set().insert(x));
}

proof fn lemma_to_set_remove<A>(s: Seq<A>, j: int)
    requires
        s.no_duplicates(),
        0 <= j < s.len(),
    ensures
        s.remove(j).to_set() == s.to_set().remove(s[j]),
        s.remove(j).no_duplicates(),
{
    let r = s.remove(j);
    assert forall|a: int, b: int| 0 <= a < b < r.len() implies r[a] != r[b] by {
        let a2 = if a < j { a } else { a + 1 };
        let b2 = if b < j { b } else { b + 1 };
        assert(r[a] == s[a2] && r[b] == s[b2]);
    }
    assert forall|y: A| #[trigger] r.to_set().contains(y) <==> s.to_set().remove(s[j]).contains(y) by {
        if r.contains(y) {
            let i = choose|i: int| 0 <= i < r.len() && r[i] == y;
            let i2 = if i < j { i } else { i + 1 };
            assert(s[i2] == y);
            assert(i2 != j);
        }
        if s.contains(y) && y != s[j] {
            let i = choose|i: int| 0 <= i < s.len() && s[i] == y;
            assert(i != j);
            if i < j {
                assert(r[i] == y);
            } else {
                assert(r[i - 1] == y);
            }
        }
    }
    assert(r.to_set() =~= s.to_set().remove(s[j]));
}

fn find_u64(v: &Vec<u64>, x: u64) -> (r: Option<usize>)
    ensures
        match r {
            Some(i) => i < v@.len() && v@[i as int] == x,
            None => !v@.contains(x),
        },
{
    let mut i: usize = 0;
    while i < v.len()
        invariant
            i <= v@.len(),
            forall|k: int| 0 <= k < i ==> v@[k] != x,
        decreases v@.len() - i,
    {
        if v[i] == x {
            return Some(i);
        }
        i = i + 1;
    }
    None
}

fn find_topic(v: &Vec<WsTopic>, t: &WsTopic) -> (r: Option<usize>)
    ensures
        match r {
            Some(i) => i < v@.len() && v@[i as int]@ == t@,
            None => !topic_keys(v@).contains(t@),
        },
{
    let mut i: usize = 0;
    while i < v.len()
        invariant
            i <= v@.len(),
            forall|k: int| 0 <= k < i ==> (#[trigger] v@[k])@ != t@,
        decreases v@.len() - i,
    {
        if v[i].same_as(t) {
            return Some(i);
        }
        i = i + 1;
    }
    proof {
        if topic_keys(v@).contains(t@) {
            let k = choose|k: int| 0 <= k < topic_keys(v@).len() && topic_keys(v@)[k] == t@;
            assert(v@[k]@ == t@);
        }
    }
    None
}

impl TopicSubscribers {
    fn find(&self, t: &WsTopic) -> (r: Option<usize>)
        requires
            self.wf(),
        ensures
            match r {
                Some(i) => {
                    &&& i < self.entries@.len()
                    &&& self.entries@[i as int].0@ == t@
                    &&& self@.contains_key(t@)
                    &&& self@[t@] == self.entries@[i as int].1@.to_set()
                },
                None => !self@.contains_key(t@),
            },
    {
        let mut i: usize = 0;
        while i < self.entries.len()
            invariant
                self.wf(),
                i <= self.entries@.len(),
                forall|k: int| 0 <= k < i ==> (#[trigger] self.entries@[k]).0@ != t@,
            decreases self.entries@.len() - i,
        {
            if self.entries[i].0.same_as(t) {
                proof {
                    lemma_pairs_map_index(self.pairs(), i as int);
                }
                return Some(i);
            }
            i = i + 1;
        }
        proof {
            lemma_pairs_map_dom(self.pairs(), t@);
            if self@.contains_key(t@) {
                let k = choose|k: int| 0 <= k < self.pairs().len() && #[trigger] self.pairs()[k].0 == t@;
                assert(self.entries@[k].0@ == t@);
            }
        }
        None
    }

    /// A well-formed table lists no topic without a watcher.
    pub proof fn lemma_no_idle(&self)
        requires
            self.wf(),
        ensures
            no_idle_topics(self@),
    {
        let p = self.pairs();
        assert forall|t: TopicKey| #[trigger] self@.contains_key(t) implies self@[t] != Set::<
            u64,
        >::empty() by {
            lemma_pairs_map_dom(p, t);
            let i = choose|i: int| 0 <= i < p.len() && #[trigger] p[i].0 == t;
            lemma_pairs_map_index(p, i);
            let w = self.entries@[i].1@;
            assert(w.len() > 0);
            assert(w.to_set().contains(w[0]));
        }
    }

    /// How many watchers topic `t` has (none when it is not watched).
    pub fn watcher_count(&self, t: &WsTopic) -> (n: usize)
        requires
            self.wf(),
        ensures
            n == (if self@.contains_key(t@) { self@[t@].len() } else { 0 }),
    {
        match self.find(t) {
            Some(i) => {
                proof {
                    self.entries@[i as int].1@.unique_seq_to_set();
                }
                self.entries[i].1.len()
            },
            None => 0,
        }
    }

    /// Adds watcher `s` to topic `t`; returns whether `t` had no watcher before.
    fn add_watcher(&mut self, t: &WsTopic, s: u64) -> (was_new: bool)
        requires
            old(self).wf(),
        ensures
            final(self).wf(),
            was_new == !old(self)@.contains_key(t@),
            final(self)@ == old(self)@.insert(
                t@,
                (if old(self)@.contains_key(t@) { old(self)@[t@] } else { Set::empty() }).insert(s),
            ),
    {
        match self.find(t) {
            Some(i) => {
                let ghost p0 = self.pairs();
                let (k, mut subs) = self.entries.remove(i);
                if find_u64(&subs, s).is_none() {
                    proof {
                        lemma_to_set_push(subs@, s);
                        assert(subs@.push(s).no_duplicates()) by {
                            assert forall|a: int, b: int| 0 <= a < b < subs@.push(s).len() implies
                                subs@.push(s)[a] != subs@.push(s)[b] by {
                                if b == subs@.len() {
                                    assert(subs@.push(s)[a] == subs@[a]);
                                }
                            }
                        }
                    }
                    subs.push(s);
                } else {
                    proof {
                        assert(subs@.to_set() =~= subs@.to_set().insert(s));
                    }
                }
                self.entries.insert(i, (k, subs));
                proof {
                    assert(self.pairs() =~= p0.update(i as int, (p0[i as int].0, subs@.to_set())));
                    lemma_pairs_map_update(p0, i as int, subs@.to_set());
                    assert(p0[i as int].0 == t@);
                    assert forall|m: int| 0 <= m < self.entries@.len() implies {
                        &&& (#[trigger] self.entries@[m]).1@.no_duplicates()
                        &&& self.entries@[m].1@.len() > 0
                    } by {
                        if m != i {
                            assert(self.entries@[m] == old(self).entries@[m]);
                        }
                    }
                }
                false
            },
            None => {
                let ghost p0 = self.pairs();
                let mut subs: Vec<u64> = Vec::new();
                subs.push(s);
                proof {
                    lemma_to_set_push(Seq::<u64>::empty(), s);
                    assert(Seq::<u64>::empty().push(s) =~= subs@);
                    assert(Seq::<u64>::empty().to_set() =~= Set::<u64>::empty());
                }
                self.entries.push((t.duplicate(), subs));
                proof {
                    assert(self.pairs() =~= p0.push((t@, subs@.to_set())));
                    lemma_pairs_map_push(p0, (t@, subs@.to_set()));
                    assert(unique_keys(self.pairs())) by {
                        assert forall|a: int, b: int| 0 <= a < b < self.pairs().len() implies #[trigger] self.pairs()[a].0
                            != #[trigger] self.pairs()[b].0 by {
                            if b == p0.len() {
                                lemma_pairs_map_dom(p0, t@);
                                assert(p0[a].0 == self.pairs()[a].0);
                            } else {
                                assert(p0[a].0 == self.pairs()[a].0);
                                assert(p0[b].0 == self.pairs()[b].0);
                            }
                        }
                    }
                    assert forall|m: int| 0 <= m < self.entries@.len() implies {
                        &&& (#[trigger] self.entries@[m]).1@.no_duplicates()
                        &&& self.entries@[m].1@.len() > 0
                    } by {
                        if m < old(self).entries@.len() {
                            assert(self.entries@[m] == old(self).entries@[m]);
                        }
                    }
                }
                true
            },
        }
    }

    /// Removes watcher `s` from topic `t`; a topic left without watchers is dropped,
    /// and the result says whether that happened.
    fn remove_watcher(&mut self, t: &WsTopic, s: u64) -> (emptied: bool)
        requires
            old(self).wf(),
        ensures
            final(self).wf(),
            emptied == (old(self)@.contains_key(t@) && old(self)@[t@].remove(s) == Set::<
                u64,
            >::empty()),
            final(self)@ == (if !old(self)@.contains_key(t@) {
                old(self)@
            } else if emptied {
                old(self)@.remove(t@)
            } else {
                old(self)@.insert(t@, old(self)@[t@].remove(s))
            }),
    {
        match self.find(t) {
            None => false,
            Some(i) => {
                let ghost p0 = self.pairs();
                let (k, mut subs) = self.entries.remove(i);
                match find_u64(&subs, s) {
                    Some(j) => {
                        proof {
                            lemma_to_set_remove(subs@, j as int);
                        }
                        subs.remove(j);
                    },
                    None => {
                        proof {
                            assert(subs@.to_set() =~= subs@.to_set().remove(s));
                        }
                    },
                }
                if subs.len() == 0 {
                    proof {
                        assert(subs@.to_set() =~= Set::<u64>::empty());
                        assert(self.pairs() =~= p0.remove(i as int));
                        lemma_pairs_map_remove(p0, i as int);
                        assert forall|m: int| 0 <= m < self.entries@.len() implies {
                            &&& (#[trigger] self.entries@[m]).1@.no_duplicates()
                            &&& self.entries@[m].1@.len() > 0
                        } by {
                            if m < i {
                                assert(self.entries@[m] == old(self).entries@[m]);
                            } else {
                                assert(self.entries@[m] == old(self).entries@[m + 1]);
                            }
                        }
                    }
                    true
                } else {
                    proof {
                        assert(subs@.contains(subs@[0]));
                        assert(subs@.to_set().contains(subs@[0]));
                        assert(subs@.to_set() != Set::<u64>::empty());
                    }
                    self.entries.insert(i, (k, subs));
                    proof {
                        assert(self.pairs() =~= p0.update(i as int, (p0[i as int].0, subs@.to_set())));
                        lemma_pairs_map_update(p0, i as int, subs@.to_set());
                        assert forall|m: int| 0 <= m < self.entries@.len() implies {
                            &&& (#[trigger] self.entries@[m]).1@.no_duplicates()
                            &&& self.entries@[m].1@.len() > 0
                        } by {
                            if m != i {
                                assert(self.entries@[m] == old(self).entries@[m]);
                            }
                        }
                    }
                    false
                }
            },
        }
    }
}

impl SubscriberTopics {
    /// How many topics watcher `s` holds (none when it holds nothing).
    pub fn topic_count(&self, s: u64) -> (n: usize)
        requires
            self.wf(),
        ensures
            n == (if self@.contains_key(s) { self@[s].len() } else { 0 }),
    {
        let ghost p = self.pairs();
        let mut i: usize = 0;
        while i < self.entries.len()
            invariant
                self.wf(),
                p == self.pairs(),
                i <= self.entries@.len(),
                forall|k: int| 0 <= k < i ==> (#[trigger] self.entries@[k]).0 != s,
            decreases self.entries@.len() - i,
        {
            if self.entries[i].0 == s {
                proof {
                    lemma_pairs_map_index(p, i as int);
                    let v = self.entries@[i as int].1@;
                    assert(topic_keys(v).no_duplicates());
                    topic_keys(v).unique_seq_to_set();
                    assert(p[i as int].1 == topic_keys(v).to_set());
                }
                return self.entries[i].1.len();
            }
            i = i + 1;
        }
        proof {
            lemma_pairs_map_dom(p, s);
            if self@.contains_key(s) {
                let k = choose|k: int| 0 <= k < p.len() && #[trigger] p[k].0 == s;
                assert(self.entries@[k].0 == s);
            }
        }
        0
    }
}

impl SubscriberTopics {
    /// Removes watcher `s` and hands back its topic list, if it had one.
    fn take_list(&mut self, s: u64) -> (r: Option<Vec<WsTopic>>)
        requires
            old(self).wf(),
        ensures
            final(self).wf(),
            final(self)@ == old(self)@.remove(s),
            r is Some <==> old(self)@.contains_key(s),
            r matches Some(v) ==> topic_set(v@) == old(self)@[s] && topic_keys(v@).no_duplicates(),
    {
        let ghost p0 = self.pairs();
        let ghost e0 = self.entries@;
        let mut i: usize = 0;
        while i < self.entries.len()
            invariant
                self.wf(),
                p0 == self.pairs(),
                e0 == self.entries@,
                e0 == old(self).entries@,
                i <= self.entries@.len(),
                forall|k: int| 0 <= k < i ==> (#[trigger] self.entries@[k]).0 != s,
            decreases self.entries@.len() - i,
        {
            if self.entries[i].0 == s {
                proof {
                    lemma_pairs_map_index(p0, i as int);
                    lemma_pairs_map_remove(p0, i as int);
                }
                let (_, v) = self.entries.remove(i);
                proof {
                    assert(self.pairs() =~= p0.remove(i as int));
                    assert forall|m: int| 0 <= m < self.entries@.len() implies topic_keys(
                        (#[trigger] self.entries@[m]).1@,
                    ).no_duplicates() by {
                        if m < i {
                            assert(self.entries@[m] == old(self).entries@[m]);
                        } else {
                            assert(self.entries@[m] == old(self).entries@[m + 1]);
                        }
                    }
                    assert(old(self).entries@[i as int].1 == v);
                }
                return Some(v);
            }
            i = i + 1;
        }
        proof {
            lemma_pairs_map_dom(p0, s);
            if old(self)@.contains_key(s) {
                let k = choose|k: int| 0 <= k < p0.len() && #[trigger] p0[k].0 == s;
                assert(self.entries@[k].0 == s);
            }
            assert(old(self)@.remove(s) =~= old(self)@);
        }
        None
    }

    /// Records the topic list of watcher `s`, which has none.
    fn put_list(&mut self, s: u64, v: Vec<WsTopic>)
        requires
            old(self).wf(),
            !old(self)@.contains_key(s),
            topic_keys(v@).no_duplicates(),
        ensures
            final(self).wf(),
            final(self)@ == old(self)@.insert(s, topic_set(v@)),
    {
        let ghost p0 = self.pairs();
        let ghost vs = topic_set(v@);
        self.entries.push((s, v));
        proof {
            assert(self.pairs() =~= p0.push((s, vs)));
            lemma_pairs_map_push(p0, (s, vs));
            assert(unique_keys(self.pairs())) by {
                assert forall|a: int, b: int| 0 <= a < b < self.pairs().len() implies #[trigger] self.pairs()[a].0
                    != #[trigger] self.pairs()[b].0 by {
                    if b == p0.len() {
                        lemma_pairs_map_dom(p0, s);
                        assert(p0[a].0 == self.pairs()[a].0);
                    } else {
                        assert(p0[a].0 == self.pairs()[a].0);
                        assert(p0[b].0 == self.pairs()[b].0);
                    }
                }
            }
            assert forall|m: int| 0 <= m < self.entries@.len() implies topic_keys(
                (#[trigger] self.entries@[m]).1@,
            ).no_duplicates() by {
                if m < old(self).entries@.len() {
                    assert(self.entries@[m] == old(self).entries@[m]);
                }
            }
        }
    }
}

proof fn lemma_subscribe_step(
    ts: Map<TopicKey, Set<u64>>,
    st: Map<u64, Set<TopicKey>>,
    s: u64,
    u: Set<TopicKey>,
    t: TopicKey,
)
    ensures
        ({
            let mine = if st.contains_key(s) { st[s] } else { Set::<TopicKey>::empty() };
            let a = subscribe_spec(ts, st, s, u);
            let b = subscribe_spec(ts, st, s, u.insert(t));
            if mine.union(u).contains(t) {
                b.0 == a.0 && b.2 == a.2
            } else {
                &&& (a.0.contains_key(t) <==> ts.contains_key(t))
                &&& b.0 == a.0.insert(
                    t,
                    (if a.0.contains_key(t) { a.0[t] } else { Set::<u64>::empty() }).insert(s),
                )
                &&& b.2 == (if ts.contains_key(t) { a.2 } else { a.2.insert(t) })
                &&& !a.2.contains(t)
            }
        }),
{
    let mine = if st.contains_key(s) { st[s] } else { Set::<TopicKey>::empty() };
    let a = subscribe_spec(ts, st, s, u);
    let b = subscribe_spec(ts, st, s, u.insert(t));
    let added_a = u.difference(mine);
    let added_b = u.insert(t).difference(mine);
    if mine.union(u).contains(t) {
        assert(added_b =~= added_a);
        assert(b.0 =~= a.0);
        assert(b.2 =~= a.2);
    } else {
        assert(added_b =~= added_a.insert(t));
        assert(b.0 =~= a.0.insert(
            t,
            (if a.0.contains_key(t) { a.0[t] } else { Set::<u64>::empty() }).insert(s),
        ));
        assert(b.2 =~= (if ts.contains_key(t) { a.2 } else { a.2.insert(t) }));
    }
}

proof fn lemma_release_step(ts: Map<TopicKey, Set<u64>>, s: u64, done: Set<TopicKey>, t: TopicKey)
    requires
        !done.contains(t),
    ensures
        ({
            let a = release_spec(ts, s, done);
            let b = release_spec(ts, s, done.insert(t));
            &&& (a.0.contains_key(t) <==> ts.contains_key(t))
            &&& (a.0.contains_key(t) ==> a.0[t] == ts[t])
            &&& !a.1.contains(t)
            &&& b.0 == (if !a.0.contains_key(t) {
                a.0
            } else if a.0[t].remove(s) == Set::<u64>::empty() {
                a.0.remove(t)
            } else {
                a.0.insert(t, a.0[t].remove(s))
            })
            &&& b.1 == (if a.0.contains_key(t) && a.0[t].remove(s) == Set::<u64>::empty() {
                a.1.insert(t)
            } else {
                a.1
            })
        }),
{
    let a = release_spec(ts, s, done);
    let b = release_spec(ts, s, done.insert(t));
    let hit_a = done.intersect(ts.dom());
    let hit_b = done.insert(t).intersect(ts.dom());
    if ts.contains_key(t) {
        assert(hit_b =~= hit_a.insert(t));
    } else {
        assert(hit_b =~= hit_a);
    }
    assert(b.1 =~= (if a.0.contains_key(t) && a.0[t].remove(s) == Set::<u64>::empty() {
        a.1.insert(t)
    } else {
        a.1
    }));
    assert(b.0 =~= (if !a.0.contains_key(t) {
        a.0
    } else if a.0[t].remove(s) == Set::<u64>::empty() {
        a.0.remove(t)
    } else {
        a.0.insert(t, a.0[t].remove(s))
    }));
}

pub(crate) proof fn lemma_topic_set_take(v: Seq<WsTopic>, k: int)
    requires
        0 <= k < v.len(),
    ensures
        topic_set(v.take(k + 1)) == topic_set(v.take(k)).insert(v[k]@),
        topic_keys(v.take(k + 1)) == topic_keys(v.take(k)).push(v[k]@),
{
    assert(topic_keys(v.take(k + 1)) =~= topic_keys(v.take(k)).push(v[k]@));
    lemma_to_set_push(topic_keys(v.take(k)), v[k]@);
}

proof fn lemma_topic_set_push(v: Seq<WsTopic>, t: WsTopic)
    ensures
        topic_set(v.push(t)) == topic_set(v).insert(t@),
        topic_keys(v.push(t)) == topic_keys(v).push(t@),
{
    assert(topic_keys(v.push(t)) =~= topic_keys(v).push(t@));
    lemma_to_set_push(topic_keys(v), t@);
}

proof fn lemma_push_keeps_distinct(v: Seq<TopicKey>, x: TopicKey)
    requires
        v.no_duplicates(),
        !v.to_set().contains(x),
    ensures
        v.push(x).no_duplicates(),
{
    assert forall|a: int, b: int| 0 <= a < b < v.push(x).len() implies v.push(x)[a] != v.push(x)[b] by {
        if b == v.len() {
            assert(v.contains(v[a]));
        }
    }
}

/// Watcher `subscriber_id` subscribes to `topics`. Returns the topics that had no
/// watcher before and so must now be registered upstream, each once.
pub fn apply_subscribe(
    topic_subscribers: &mut TopicSubscribers,
    subscriber_topics: &mut SubscriberTopics,
    subscriber_id: u64,
    topics: Vec<WsTopic>,
) -> (to_register: Vec<WsTopic>)
    requires
        old(topic_subscribers).wf(),
        old(subscriber_topics).wf(),
    ensures
        final(topic_subscribers).wf(),
        final(subscriber_topics).wf(),
        ({
            let r = subscribe_spec(
                old(topic_subscribers)@,
                old(subscriber_topics)@,
                subscriber_id,
                topic_set(topics@),
            );
            &&& final(topic_subscribers)@ == r.0
            &&& final(subscriber_topics)@ == r.1
            &&& topic_set(to_register@) == r.2
        }),
        topic_keys(to_register@).no_duplicates(),
{
    let ghost ts0 = topic_subscribers@;
    let ghost st0 = subscriber_topics@;
    let ghost mine0 = if st0.contains_key(subscriber_id) {
        st0[subscriber_id]
    } else {
        Set::<TopicKey>::empty()
    };
    let mut mine = match subscriber_topics.take_list(subscriber_id) {
        Some(v) => v,
        None => Vec::new(),
    };
    let mut to_register: Vec<WsTopic> = Vec::new();
    proof {
        assert(topics@.take(0) =~= Seq::<WsTopic>::empty());
        assert(topic_set(Seq::<WsTopic>::empty()) =~= Set::<TopicKey>::empty());
        assert(topic_keys(Seq::<WsTopic>::empty()) =~= Seq::<TopicKey>::empty());
        assert(mine0.union(Set::<TopicKey>::empty()) =~= mine0);
        if !st0.contains_key(subscriber_id) {
            assert(topic_keys(mine@) =~= Seq::<TopicKey>::empty());
        }
        let r = subscribe_spec(ts0, st0, subscriber_id, Set::<TopicKey>::empty());
        assert(r.0 =~= ts0);
        assert(r.2 =~= Set::<TopicKey>::empty());
    }
    let mut k: usize = 0;
    while k < topics.len()
        invariant
            k <= topics@.len(),
            topic_subscribers.wf(),
            subscriber_topics.wf(),
            subscriber_topics@ == st0.remove(subscriber_id),
            mine0 == (if st0.contains_key(subscriber_id) {
                st0[subscriber_id]
            } else {
                Set::<TopicKey>::empty()
            }),
            topic_keys(mine@).no_duplicates(),
            topic_set(mine@) == mine0.union(topic_set(topics@.take(k as int))),
            topic_subscribers@ == subscribe_spec(
                ts0,
                st0,
                subscriber_id,
                topic_set(topics@.take(k as int)),
            ).0,
            topic_set(to_register@) == subscribe_spec(
                ts0,
                st0,
                subscriber_id,
                topic_set(topics@.take(k as int)),
            ).2,
            topic_keys(to_register@).no_duplicates(),
        decreases topics@.len() - k,
    {
        let t = &topics[k];
        let ghost uk = topic_set(topics@.take(k as int));
        proof {
            lemma_topic_set_take(topics@, k as int);
            lemma_subscribe_step(ts0, st0, subscriber_id, uk, t@);
        }
        match find_topic(&mine, t) {
            None => {
                let d = t.duplicate();
                let ghost old_mine = mine@;
                proof {
                    lemma_topic_set_push(old_mine, d);
                    lemma_push_keeps_distinct(topic_keys(old_mine), t@);
                    assert(topic_set(old_mine.push(d)) =~= mine0.union(uk.insert(t@)));
                }
                mine.push(d);
                let was_new = topic_subscribers.add_watcher(t, subscriber_id);
                if was_new {
                    let d2 = t.duplicate();
                    let ghost old_r = to_register@;
                    proof {
                        lemma_topic_set_push(old_r, d2);
                        lemma_push_keeps_distinct(topic_keys(old_r), t@);
                    }
                    to_register.push(d2);
                }
            },
            Some(i) => {
                proof {
                    assert(topic_keys(mine@)[i as int] == t@);
                    assert(topic_set(mine@).contains(t@));
                    assert(mine0.union(uk.insert(t@)) =~= mine0.union(uk));
                }
            },
        }
        k = k + 1;
    }
    proof {
        assert(topics@.take(topics@.len() as int) =~= topics@);
        assert(st0.remove(subscriber_id).insert(subscriber_id, topic_set(mine@)) =~= st0.insert(
            subscriber_id,
            mine0.union(topic_set(topics@)),
        ));
    }
    subscriber_topics.put_list(subscriber_id, mine);
    to_register
}

proof fn lemma_topic_keys_remove(v: Seq<WsTopic>, j: int)
    requires
        0 <= j < v.len(),
        topic_keys(v).no_duplicates(),
    ensures
        topic_keys(v.remove(j)) == topic_keys(v).remove(j),
        topic_set(v.remove(j)) == topic_set(v).remove(v[j]@),
        topic_keys(v.remove(j)).no_duplicates(),
{
    assert(topic_keys(v.remove(j)) =~= topic_keys(v).remove(j));
    lemma_to_set_remove(topic_keys(v), j);
}

proof fn lemma_release_empty(ts: Map<TopicKey, Set<u64>>, s: u64)
    ensures
        release_spec(ts, s, Set::<TopicKey>::empty()).0 == ts,
        release_spec(ts, s, Set::<TopicKey>::empty()).1 == Set::<TopicKey>::empty(),
{
    let r = release_spec(ts, s, Set::<TopicKey>::empty());
    assert(r.1 =~= Set::<TopicKey>::empty());
    assert(r.0 =~= ts);
}

/// Watcher `subscriber_id` unsubscribes from `topics`. Returns the topics left
/// without any watcher, which must now be unregistered upstream, each once.
pub fn apply_unsubscribe(
    topic_subscribers: &mut TopicSubscribers,
    subscriber_topics: &mut SubscriberTopics,
    subscriber_id: u64,
    topics: Vec<WsTopic>,
) -> (to_unregister: Vec<WsTopic>)
    requires
        old(topic_subscribers).wf(),
        old(subscriber_topics).wf(),
    ensures
        final(topic_subscribers).wf(),
        final(subscriber_topics).wf(),
        ({
            let r = unsubscribe_spec(
                old(topic_subscribers)@,
                old(subscriber_topics)@,
                subscriber_id,
                topic_set(topics@),
            );
            &&& final(topic_subscribers)@ == r.0
            &&& final(subscriber_topics)@ == r.1
            &&& topic_set(to_unregister@) == r.2
        }),
        topic_keys(to_unregister@).no_duplicates(),
{
    let ghost ts0 = topic_subscribers@;
    let ghost st0 = subscriber_topics@;
    let mut out: Vec<WsTopic> = Vec::new();
    proof {
        assert(topic_keys(out@) =~= Seq::<TopicKey>::empty());
        assert(topic_set(out@) =~= Set::<TopicKey>::empty());
    }
    let taken = subscriber_topics.take_list(subscriber_id);
    match taken {
        None => {
            proof {
                assert(st0.remove(subscriber_id) =~= st0);
            }
            out
        },
        Some(mine_list) => {
            let mut mine = mine_list;
            let ghost mine0 = st0[subscriber_id];
            proof {
                assert(topics@.take(0) =~= Seq::<WsTopic>::empty());
                assert(topic_set(Seq::<WsTopic>::empty()) =~= Set::<TopicKey>::empty());
                assert(mine0.difference(Set::<TopicKey>::empty()) =~= mine0);
                assert(mine0.intersect(Set::<TopicKey>::empty()) =~= Set::<TopicKey>::empty());
                lemma_release_empty(ts0, subscriber_id);
            }
            let mut k: usize = 0;
            while k < topics.len()
                invariant
                    k <= topics@.len(),
                    topic_subscribers.wf(),
                    subscriber_topics.wf(),
                    subscriber_topics@ == st0.remove(subscriber_id),
                    st0.contains_key(subscriber_id),
                    mine0 == st0[subscriber_id],
                    topic_keys(mine@).no_duplicates(),
                    topic_set(mine@) == mine0.difference(topic_set(topics@.take(k as int))),
                    topic_subscribers@ == release_spec(
                        ts0,
                        subscriber_id,
                        mine0.intersect(topic_set(topics@.take(k as int))),
                    ).0,
                    topic_set(out@) == release_spec(
                        ts0,
                        subscriber_id,
                        mine0.intersect(topic_set(topics@.take(k as int))),
                    ).1,
                    topic_keys(out@).no_duplicates(),
                decreases topics@.len() - k,
            {
                let t = &topics[k];
                let ghost uk = topic_set(topics@.take(k as int));
                let ghost done = mine0.intersect(uk);
                proof {
                    lemma_topic_set_take(topics@, k as int);
                }
                match find_topic(&mine, t) {
                    Some(j) => {
                        proof {
                            assert(topic_keys(mine@)[j as int] == t@);
                            assert(topic_set(mine@).contains(t@));
                            lemma_topic_keys_remove(mine@, j as int);
                            assert(mine0.intersect(uk.insert(t@)) =~= done.insert(t@));
                            assert(mine0.difference(uk.insert(t@)) =~= topic_set(mine@).remove(
                                t@,
                            ));
                            lemma_release_step(ts0, subscriber_id, done, t@);
                        }
                        mine.remove(j);
                        let emptied = topic_subscribers.remove_watcher(t, subscriber_id);
                        if emptied {
                            let d = t.duplicate();
                            let ghost old_out = out@;
                            proof {
                                lemma_topic_set_push(old_out, d);
                                lemma_push_keeps_distinct(topic_keys(old_out), t@);
                            }
                            out.push(d);
                        }
                    },
                    None => {
                        proof {
                            assert(!topic_set(mine@).contains(t@));
                            assert(mine0.intersect(uk.insert(t@)) =~= done);
                            assert(mine0.difference(uk.insert(t@)) =~= topic_set(mine@));
                        }
                    },
                }
                k = k + 1;
            }
            proof {
                assert(topics@.take(topics@.len() as int) =~= topics@);
                assert(mine0.intersect(topic_set(topics@)) =~= st0[subscriber_id].intersect(
                    topic_set(topics@),
                ));
            }
            if mine.len() == 0 {
                proof {
                    assert(topic_set(mine@) =~= Set::<TopicKey>::empty());
                }
            } else {
                proof {
                    assert(topic_keys(mine@)[0] == mine@[0]@);
                    assert(topic_set(mine@).contains(mine@[0]@));
                    assert(topic_set(mine@) != Set::<TopicKey>::empty());
                    assert(st0.remove(subscriber_id).insert(subscriber_id, topic_set(mine@))
                        =~= st0.insert(subscriber_id, topic_set(mine@)));
                }
                subscriber_topics.put_list(subscriber_id, mine);
            }
            out
        },
    }
}

/// Watcher `subscriber_id` drops every topic it holds. Returns the topics left
/// without any watcher, which must now be unregistered upstream, each once.
pub fn apply_unsubscribe_all(
    topic_subscribers: &mut TopicSubscribers,
    subscriber_topics: &mut SubscriberTopics,
    subscriber_id: u64,
) -> (to_unregister: Vec<WsTopic>)
    requires
        old(topic_subscribers).wf(),
        old(subscriber_topics).wf(),
    ensures
        final(topic_subscribers).wf(),
        final(subscriber_topics).wf(),
        ({
            let r = unsubscribe_all_spec(
                old(topic_subscribers)@,
                old(subscriber_topics)@,
                subscriber_id,
            );
            &&& final(topic_subscribers)@ == r.0
            &&& final(subscriber_topics)@ == r.1
            &&& topic_set(to_unregister@) == r.2
        }),
        topic_keys(to_unregister@).no_duplicates(),
{
    let ghost ts0 = topic_subscribers@;
    let ghost st0 = subscriber_topics@;
    let mut out: Vec<WsTopic> = Vec::new();
    proof {
        assert(topic_keys(out@) =~= Seq::<TopicKey>::empty());
        assert(topic_set(out@) =~= Set::<TopicKey>::empty());
    }
    let taken = subscriber_topics.take_list(subscriber_id);
    match taken {
        None => {
            proof {
                assert(st0.remove(subscriber_id) =~= st0);
            }
            out
        },
        Some(mine) => {
            proof {
                assert(mine@.take(0) =~= Seq::<WsTopic>::empty());
                assert(topic_set(Seq::<WsTopic>::empty()) =~= Set::<TopicKey>::empty());
                lemma_release_empty(ts0, subscriber_id);
            }
            let mut i: usize = 0;
            while i < mine.len()
                invariant
                    i <= mine@.len(),
                    topic_subscribers.wf(),
                    topic_keys(mine@).no_duplicates(),
                    topic_subscribers@ == release_spec(
                        ts0,
                        subscriber_id,
                        topic_set(mine@.take(i as int)),
                    ).0,
                    topic_set(out@) == release_spec(
                        ts0,
                        subscriber_id,
                        topic_set(mine@.take(i as int)),
                    ).1,
                    topic_keys(out@).no_duplicates(),
                decreases mine@.len() - i,
            {
                let t = &mine[i];
                let ghost done = topic_set(mine@.take(i as int));
                proof {
                    lemma_topic_set_take(mine@, i as int);
                    assert(!done.contains(t@)) by {
                        if done.contains(t@) {
                            let m = choose|m: int|
                                0 <= m < topic_keys(mine@.take(i as int)).len()
                                    && topic_keys(mine@.take(i as int))[m] == t@;
                            assert(topic_keys(mine@)[m] == topic_keys(mine@)[i as int]);
                        }
                    }
                    lemma_release_step(ts0, subscriber_id, done, t@);
                }
                let emptied = topic_subscribers.remove_watcher(t, subscriber_id);
                if emptied {
                    let d = t.duplicate();
                    let ghost old_out = out@;
                    proof {
                        lemma_topic_set_push(old_out, d);
                        lemma_push_keeps_distinct(topic_keys(old_out), t@);
                    }
                    out.push(d);
                }
                i = i + 1;
            }
            proof {
                assert(mine@.take(mine@.len() as int) =~= mine@);
            }
            out
        },
    }
}

/// The two tables agree: a watcher is listed under a topic exactly when the topic is
/// listed under the watcher.
pub open spec fn consistent(ts: Map<TopicKey, Set<u64>>, st: Map<u64, Set<TopicKey>>) -> bool {
    forall|t: TopicKey, s: u64|
        #![trigger ts[t].contains(s)]
        #![trigger st[s].contains(t)]
        (ts.contains_key(t) && ts[t].contains(s)) <==> (st.contains_key(s) && st[s].contains(t))
}

/// No topic is listed without a watcher.
pub open spec fn no_idle_topics(ts: Map<TopicKey, Set<u64>>) -> bool {
    forall|t: TopicKey| #[trigger] ts.contains_key(t) ==> ts[t] != Set::<u64>::empty()
}

/// Subscribing keeps the two tables in agreement and lists no idle topic.
pub proof fn lemma_subscribe_keeps_consistent(
    ts: Map<TopicKey, Set<u64>>,
    st: Map<u64, Set<TopicKey>>,
    s: u64,
    u: Set<TopicKey>,
)
    requires
        consistent(ts, st),
        no_idle_topics(ts),
    ensures
        consistent(subscribe_spec(ts, st, s, u).0, subscribe_spec(ts, st, s, u).1),
        no_idle_topics(subscribe_spec(ts, st, s, u).0),
{
    let r = subscribe_spec(ts, st, s, u);
    let mine = if st.contains_key(s) { st[s] } else { Set::<TopicKey>::empty() };
    let added = u.difference(mine);
    assert forall|t: TopicKey, w: u64|
        #![trigger r.0[t].contains(w)]
        #![trigger r.1[w].contains(t)]
        (r.0.contains_key(t) && r.0[t].contains(w)) <==> (r.1.contains_key(w) && r.1[w].contains(
            t,
        )) by {
        assert((ts.contains_key(t) && ts[t].contains(w)) <==> (st.contains_key(w)
            && st[w].contains(t)));
        assert((ts.contains_key(t) && ts[t].contains(s)) <==> (st.contains_key(s)
            && st[s].contains(t)));
        if added.contains(t) {
            let base = if ts.contains_key(t) { ts[t] } else { Set::<u64>::empty() };
            assert(r.0[t] == base.insert(s));
            assert(base.insert(s).contains(w) <==> (w == s || base.contains(w)));
        }
    }
    assert forall|t: TopicKey| #[trigger] r.0.contains_key(t) implies r.0[t] != Set::<
        u64,
    >::empty() by {
        if added.contains(t) {
            assert(r.0[t].contains(s));
        }
    }
}

/// Releasing topics keeps the two tables in agreement when the second table is
/// updated to match, and lists no idle topic.
proof fn lemma_release_keeps_consistent(
    ts: Map<TopicKey, Set<u64>>,
    st: Map<u64, Set<TopicKey>>,
    s: u64,
    removed: Set<TopicKey>,
    st2: Map<u64, Set<TopicKey>>,
)
    requires
        consistent(ts, st),
        no_idle_topics(ts),
        st.contains_key(s),
        removed.subset_of(st[s]),
        st2 == (if st[s].difference(removed) == Set::<TopicKey>::empty() {
            st.remove(s)
        } else {
            st.insert(s, st[s].difference(removed))
        }),
    ensures
        consistent(release_spec(ts, s, removed).0, st2),
        no_idle_topics(release_spec(ts, s, removed).0),
{
    let r = release_spec(ts, s, removed);
    let hit = removed.intersect(ts.dom());
    assert forall|t: TopicKey, w: u64|
        #![trigger r.0[t].contains(w)]
        #![trigger st2[w].contains(t)]
        (r.0.contains_key(t) && r.0[t].contains(w)) <==> (st2.contains_key(w) && st2[w].contains(
            t,
        )) by {
        assert((ts.contains_key(t) && ts[t].contains(w)) <==> (st.contains_key(w)
            && st[w].contains(t)));
        assert((ts.contains_key(t) && ts[t].contains(s)) <==> (st.contains_key(s)
            && st[s].contains(t)));
        if removed.contains(t) {
            assert(st[s].contains(t));
        }
        if w == s {
            let rest = st[s].difference(removed);
            if rest == Set::<TopicKey>::empty() {
                assert(!rest.contains(t));
            }
            if hit.contains(t) {
                assert(!ts[t].remove(s).contains(s));
            }
        } else {
            if hit.contains(t) {
                assert(ts[t].remove(s).contains(w) <==> ts[t].contains(w));
                if ts[t].remove(s) == Set::<u64>::empty() {
                    assert(!ts[t].remove(s).contains(w));
                }
            }
        }
    }
    assert forall|t: TopicKey| #[trigger] r.0.contains_key(t) implies r.0[t] != Set::<
        u64,
    >::empty() by {
        if !hit.contains(t) {
            assert(ts[t] != Set::<u64>::empty());
        }
    }
}

/// Unsubscribing keeps the two tables in agreement and lists no idle topic.
pub proof fn lemma_unsubscribe_keeps_consistent(
    ts: Map<TopicKey, Set<u64>>,
    st: Map<u64, Set<TopicKey>>,
    s: u64,
    u: Set<TopicKey>,
)
    requires
        consistent(ts, st),
        no_idle_topics(ts),
    ensures
        consistent(unsubscribe_spec(ts, st, s, u).0, unsubscribe_spec(ts, st, s, u).1),
        no_idle_topics(unsubscribe_spec(ts, st, s, u).0),
{
    if st.contains_key(s) {
        let r = unsubscribe_spec(ts, st, s, u);
        let rest = st[s].difference(u);
        let removed = st[s].intersect(u);
        assert(st[s].difference(removed) =~= rest);
        lemma_release_keeps_consistent(ts, st, s, removed, r.1);
    } else {
        assert(unsubscribe_spec(ts, st, s, u).0 == ts);
    }
}

/// Dropping all of a watcher's topics keeps the two tables in agreement and lists
/// no idle topic.
pub proof fn lemma_unsubscribe_all_keeps_consistent(
    ts: Map<TopicKey, Set<u64>>,
    st: Map<u64, Set<TopicKey>>,
    s: u64,
)
    requires
        consistent(ts, st),
        no_idle_topics(ts),
    ensures
        consistent(unsubscribe_all_spec(ts, st, s).0, unsubscribe_all_spec(ts, st, s).1),
        no_idle_topics(unsubscribe_all_spec(ts, st, s).0),
{
    if st.contains_key(s) {
        let r = unsubscribe_all_spec(ts, st, s);
        assert(st[s].difference(st[s]) =~= Set::<TopicKey>::empty());
        lemma_release_keeps_consistent(ts, st, s, st[s], r.1);
    }
}

/// The topics to register after a subscription are exactly those that join the
/// watched set, and the topics to unregister after an unsubscription are exactly
/// those that leave it: sending them keeps the upstream registrations equal to the
/// set of watched topics.
pub proof fn lemma_upstream_follows_watched(
    ts: Map<TopicKey, Set<u64>>,
    st: Map<u64, Set<TopicKey>>,
    s: u64,
    u: Set<TopicKey>,
)
    ensures
        subscribe_spec(ts, st, s, u).0.dom() == ts.dom().union(subscribe_spec(ts, st, s, u).2),
        subscribe_spec(ts, st, s, u).2.disjoint(ts.dom()),
        unsubscribe_spec(ts, st, s, u).0.dom() == ts.dom().difference(
            unsubscribe_spec(ts, st, s, u).2,
        ),
        unsubscribe_spec(ts, st, s, u).2.subset_of(ts.dom()),
        unsubscribe_all_spec(ts, st, s).0.dom() == ts.dom().difference(
            unsubscribe_all_spec(ts, st, s).2,
        ),
        unsubscribe_all_spec(ts, st, s).2.subset_of(ts.dom()),
{
    let a = subscribe_spec(ts, st, s, u);
    assert(a.0.dom() =~= ts.dom().union(a.2));
    let b = unsubscribe_spec(ts, st, s, u);
    assert(b.0.dom() =~= ts.dom().difference(b.2));
    let c = unsubscribe_all_spec(ts, st, s);
    assert(c.0.dom() =~= ts.dom().difference(c.2));
}

/// The topics that watcher `s` is the only watcher of.
pub open spec fn watched_only_by(ts: Map<TopicKey, Set<u64>>, s: u64) -> Set<TopicKey> {
    Set::new(|t: TopicKey| ts.contains_key(t) && ts[t] == set![s])
}

/// The topics among `u` that nobody watches.
pub open spec fn unwatched(ts: Map<TopicKey, Set<u64>>, u: Set<TopicKey>) -> Set<TopicKey> {
    Set::new(|t: TopicKey| u.contains(t) && !ts.contains_key(t))
}

proof fn lemma_release_sole(ts: Map<TopicKey, Set<u64>>, st: Map<u64, Set<TopicKey>>, s: u64, h: Set<TopicKey>)
    requires
        consistent(ts, st),
        st.contains_key(s),
        h.subset_of(st[s]),
    ensures
        release_spec(ts, s, h).1 == watched_only_by(ts, s).intersect(h),
        forall|t: TopicKey| #[trigger] release_spec(ts, s, h).0.contains_key(t) && h.contains(t)
            ==> !release_spec(ts, s, h).0[t].contains(s),
{
    let r = release_spec(ts, s, h);
    assert forall|t: TopicKey| r.1.contains(t) <==> #[trigger] watched_only_by(ts, s).intersect(h).contains(t) by {
        if h.contains(t) {
            assert(st[s].contains(t));
            assert(ts.contains_key(t) && ts[t].contains(s));
            if ts[t].remove(s) == Set::<u64>::empty() {
                assert(ts[t] =~= set![s]) by {
                    assert forall|x: u64| ts[t].contains(x) <==> set![s].contains(x) by {
                        if ts[t].contains(x) && x != s {
                            assert(ts[t].remove(s).contains(x));
                        }
                    }
                }
            }
            if ts[t] == set![s] {
                assert(ts[t].remove(s) =~= Set::<u64>::empty());
            }
        }
    }
    assert(r.1 =~= watched_only_by(ts, s).intersect(h));
}

/// Unsubscribing drops exactly the window's watch of the topics it names: the
/// topics to unregister upstream are those among them that the window was the
/// only watcher of, and afterwards the window watches none of them.
pub proof fn lemma_unsubscribe_releases_sole_topics(
    ts: Map<TopicKey, Set<u64>>,
    st: Map<u64, Set<TopicKey>>,
    s: u64,
    u: Set<TopicKey>,
)
    requires
        consistent(ts, st),
    ensures
        unsubscribe_spec(ts, st, s, u).2 == watched_only_by(ts, s).intersect(u),
        forall|t: TopicKey| #[trigger] unsubscribe_spec(ts, st, s, u).0.contains_key(t) && u.contains(t)
            ==> !unsubscribe_spec(ts, st, s, u).0[t].contains(s),
{
    if st.contains_key(s) {
        lemma_release_sole(ts, st, s, st[s].intersect(u));
        assert forall|t: TopicKey| #[trigger] watched_only_by(ts, s).intersect(u).contains(t)
            <==> watched_only_by(ts, s).intersect(st[s].intersect(u)).contains(t) by {
            if watched_only_by(ts, s).contains(t) {
                assert(ts[t].contains(s));
            }
        }
        assert(watched_only_by(ts, s).intersect(u) =~= watched_only_by(ts, s).intersect(
            st[s].intersect(u),
        ));
        assert forall|t: TopicKey| #[trigger] unsubscribe_spec(ts, st, s, u).0.contains_key(t)
            && u.contains(t) implies !unsubscribe_spec(ts, st, s, u).0[t].contains(s) by {
            if !st[s].contains(t) {
                if ts.contains_key(t) && ts[t].contains(s) {
                    assert(st[s].contains(t));
                }
            }
        }
    } else {
        assert forall|t: TopicKey| !#[trigger] watched_only_by(ts, s).contains(t) by {
            if watched_only_by(ts, s).contains(t) {
                assert(ts[t].contains(s));
            }
        }
        assert(watched_only_by(ts, s).intersect(u) =~= Set::<TopicKey>::empty());
        assert forall|t: TopicKey| #[trigger] ts.contains_key(t) implies !ts[t].contains(s) by {
            if ts[t].contains(s) {
                assert(st.contains_key(s));
            }
        }
    }
}

/// When a window drops all its topics, the topics to unregister upstream are
/// exactly those it was the only watcher of, and afterwards no topic lists it and
/// it holds nothing.
pub proof fn lemma_unsubscribe_all_releases_sole_topics(
    ts: Map<TopicKey, Set<u64>>,
    st: Map<u64, Set<TopicKey>>,
    s: u64,
)
    requires
        consistent(ts, st),
    ensures
        unsubscribe_all_spec(ts, st, s).2 == watched_only_by(ts, s),
        forall|t: TopicKey| #[trigger] unsubscribe_all_spec(ts, st, s).0.contains_key(t)
            ==> !unsubscribe_all_spec(ts, st, s).0[t].contains(s),
        !unsubscribe_all_spec(ts, st, s).1.contains_key(s),
{
    if st.contains_key(s) {
        lemma_release_sole(ts, st, s, st[s]);
        assert forall|t: TopicKey| #[trigger] watched_only_by(ts, s).contains(t) implies st[s].contains(t) by {
            assert(ts[t].contains(s));
        }
        assert(watched_only_by(ts, s).intersect(st[s]) =~= watched_only_by(ts, s));
        assert forall|t: TopicKey| #[trigger] unsubscribe_all_spec(ts, st, s).0.contains_key(t)
            implies !unsubscribe_all_spec(ts, st, s).0[t].contains(s) by {
            if !st[s].contains(t) {
                if ts.contains_key(t) && ts[t].contains(s) {
                    assert(st[s].contains(t));
                }
            }
        }
    } else {
        assert forall|t: TopicKey| !#[trigger] watched_only_by(ts, s).contains(t) by {
            if watched_only_by(ts, s).contains(t) {
                assert(ts[t].contains(s));
            }
        }
        assert(watched_only_by(ts, s) =~= Set::<TopicKey>::empty());
        assert forall|t: TopicKey| #[trigger] ts.contains_key(t) implies !ts[t].contains(s) by {
            if ts[t].contains(s) {
                assert(st.contains_key(s));
            }
        }
    }
}

/// Subscribing registers upstream exactly the named topics that nobody watched,
/// and afterwards the window watches every named topic.
pub proof fn lemma_subscribe_registers_unwatched(
    ts: Map<TopicKey, Set<u64>>,
    st: Map<u64, Set<TopicKey>>,
    s: u64,
    u: Set<TopicKey>,
)
    requires
        consistent(ts, st),
    ensures
        subscribe_spec(ts, st, s, u).2 == unwatched(ts, u),
        forall|t: TopicKey| #[trigger] u.contains(t) ==> subscribe_spec(ts, st, s, u).0.contains_key(t)
            && subscribe_spec(ts, st, s, u).0[t].contains(s),
{
    let r = subscribe_spec(ts, st, s, u);
    let mine = if st.contains_key(s) { st[s] } else { Set::<TopicKey>::empty() };
    assert forall|t: TopicKey| r.2.contains(t) <==> #[trigger] unwatched(ts, u).contains(t) by {
        if u.contains(t) && !ts.contains_key(t) && mine.contains(t) {
            assert(st.contains_key(s) && st[s].contains(t));
        }
    }
    assert(r.2 =~= unwatched(ts, u));
    assert forall|t: TopicKey| #[trigger] u.contains(t) implies r.0.contains_key(t) && r.0[t].contains(s) by {
        if mine.contains(t) {
            assert(st.contains_key(s) && st[s].contains(t));
        }
    }
}

/// Subscribing again to topics already held changes nothing and registers nothing.
pub proof fn lemma_subscribe_twice_is_once(
    ts: Map<TopicKey, Set<u64>>,
    st: Map<u64, Set<TopicKey>>,
    s: u64,
    u: Set<TopicKey>,
)
    ensures
        ({
            let a = subscribe_spec(ts, st, s, u);
            let b = subscribe_spec(a.0, a.1, s, u);
            &&& b.0 == a.0
            &&& b.1 == a.1
            &&& b.2 == Set::<TopicKey>::empty()
        }),
{
    let a = subscribe_spec(ts, st, s, u);
    let b = subscribe_spec(a.0, a.1, s, u);
    let mine = if st.contains_key(s) { st[s] } else { Set::<TopicKey>::empty() };
    assert(a.1[s] == mine.union(u));
    assert(u.difference(mine.union(u)) =~= Set::<TopicKey>::empty());
    assert(mine.union(u).union(u) =~= mine.union(u));
    assert(b.0 =~= a.0);
    assert(b.1 =~= a.1);
    assert(b.2 =~= Set::<TopicKey>::empty());
}

/// A watcher that subscribes to topics it does not hold yet and then unsubscribes
/// from the same topics leaves both tables as they were, and unregisters exactly
/// what it registered. This holds for a new watcher and for one that already holds
/// other topics; a watcher listed with no topics at all is left out, since
/// unsubscribing drops an empty entry.
pub proof fn lemma_unsubscribe_undoes_subscribe(
    ts: Map<TopicKey, Set<u64>>,
    st: Map<u64, Set<TopicKey>>,
    s: u64,
    u: Set<TopicKey>,
)
    requires
        consistent(ts, st),
        no_idle_topics(ts),
        st.contains_key(s) ==> st[s] != Set::<TopicKey>::empty() && st[s].disjoint(u),
    ensures
        ({
            let a = subscribe_spec(ts, st, s, u);
            let b = unsubscribe_spec(a.0, a.1, s, u);
            &&& b.0 == ts
            &&& b.1 == st
            &&& b.2 == a.2
        }),
{
    let a = subscribe_spec(ts, st, s, u);
    let b = unsubscribe_spec(a.0, a.1, s, u);
    let mine = if st.contains_key(s) { st[s] } else { Set::<TopicKey>::empty() };
    assert(mine.disjoint(u));
    assert(u.difference(mine) =~= u);
    assert(mine.union(u).difference(u) =~= mine);
    assert(mine.union(u).intersect(u) =~= u);
    assert forall|t: TopicKey| ts.contains_key(t) && u.contains(t) implies !#[trigger] ts[t].contains(s) by {
        if ts[t].contains(s) {
            assert(st.contains_key(s) && st[s].contains(t));
        }
    }
    assert forall|t: TopicKey| u.contains(t) && ts.contains_key(t) implies #[trigger] ts[t].insert(
        s,
    ).remove(s) == ts[t] by {
        assert(!ts[t].contains(s));
        assert(ts[t].insert(s).remove(s) =~= ts[t]);
    }
    assert forall|t: TopicKey| u.contains(t) && !ts.contains_key(t) implies Set::<u64>::empty().insert(
        s,
    ).remove(s) == #[trigger] Set::<u64>::empty() by {
        assert(Set::<u64>::empty().insert(s).remove(s) =~= Set::<u64>::empty());
    }
    assert(b.2 =~= a.2);
    assert(b.0 =~= ts);
    if st.contains_key(s) {
        assert(st.insert(s, mine) =~= st);
    } else {
        assert(mine.union(u).difference(u) =~= Set::<TopicKey>::empty());
    }
    assert(b.1 =~= st);
}

} // verus!
