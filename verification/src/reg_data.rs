//! Grouping realtime topics into the `data` entries of a `REG` or `REMOVE`
//! request: one entry per realtime type, types in ascending order, each with its
//! items in ascending order and without repeats.
use vstd::prelude::*;
use crate::subscriptions::{lemma_to_set_push, lemma_topic_set_take, topic_set, TopicKey, WsTopic};
use crate::text::{chars_to_string, str_chars};

verus! {

/// One entry of the `data` list of a realtime `REG`/`REMOVE` request: the items
/// (stock codes) to register under the listed realtime types.
#[derive(Debug, Clone)]
pub struct WsRegData {
    pub item: Vec<String>,
    pub types: Vec<String>,
}

/// The characters of each string.
pub open spec fn strings_view(v: Seq<String>) -> Seq<Seq<char>> {
    v.map_values(|s: String| s@)
}

/// Lexicographic order on character sequences, comparing code points. Since UTF-8
/// preserves code-point order, this is the order of `str`'s `Ord`.
pub open spec fn seq_lt(a: Seq<char>, b: Seq<char>) -> bool
    decreases a.len(),
{
    if a.len() == 0 {
        b.len() > 0
    } else if b.len() == 0 {
        false
    } else if a[0] != b[0] {
        a[0] < b[0]
    } else {
        seq_lt(a.drop_first(), b.drop_first())
    }
}

/// Strictly ascending: sorted, with no repeats.
pub open spec fn strictly_sorted(v: Seq<Seq<char>>) -> bool {
    forall|i: int, j: int| 0 <= i < j < v.len() ==> seq_lt(#[trigger] v[i], #[trigger] v[j])
}

/// `r` is the grouping of the topics `topics`: one entry per realtime type with a
/// single type each, types strictly ascending, each entry's items strictly
/// ascending and not empty, and an (item, type) pair listed exactly when it is
/// one of the topics.
pub open spec fn is_grouping_of(r: Seq<WsRegData>, topics: Set<TopicKey>) -> bool {
    &&& forall|i: int| 0 <= i < r.len() ==> (#[trigger] r[i]).types@.len() == 1
    &&& forall|i: int, j: int|
        0 <= i < j < r.len() ==> seq_lt((#[trigger] r[i]).types@[0]@, (#[trigger] r[j]).types@[0]@)
    &&& forall|i: int|
        0 <= i < r.len() ==> strictly_sorted(strings_view((#[trigger] r[i]).item@)) && r[i].item@.len()
            > 0
    &&& forall|it: Seq<char>, ty: Seq<char>|
        #[trigger] topics.contains((it, ty)) <==> exists|i: int, j: int|
            0 <= i < r.len() && 0 <= j < r[i].item@.len() && (#[trigger] r[i]).types@[0]@ == ty
                && (#[trigger] r[i].item@[j])@ == it
}

proof fn lemma_seq_lt_total(a: Seq<char>, b: Seq<char>)
    ensures
        a == b || seq_lt(a, b) || seq_lt(b, a),
        !(seq_lt(a, b) && seq_lt(b, a)),
    decreases a.len(),
{
    if a.len() > 0 && b.len() > 0 {
        lemma_seq_lt_total(a.drop_first(), b.drop_first());
        if a[0] == b[0] && a.drop_first() == b.drop_first() {
            assert(a =~= seq![a[0]] + a.drop_first());
            assert(b =~= seq![b[0]] + b.drop_first());
        }
    } else if a.len() == 0 && b.len() == 0 {
        assert(a =~= b);
    }
}

proof fn lemma_seq_lt_transitive(a: Seq<char>, b: Seq<char>, c: Seq<char>)
    requires
        seq_lt(a, b),
        seq_lt(b, c),
    ensures
        seq_lt(a, c),
    decreases a.len(),
{
    if a.len() > 0 && b.len() > 0 && c.len() > 0 {
        if a[0] == b[0] && b[0] == c[0] {
            lemma_seq_lt_transitive(a.drop_first(), b.drop_first(), c.drop_first());
        }
    }
}

/// Whether `a` comes before `b` in the order of `str`.
fn chars_lt(a: &Vec<char>, b: &Vec<char>) -> (r: bool)
    ensures
        r == seq_lt(a@, b@),
{
    let mut i: usize = 0;
    assert(a@.skip(0) =~= a@ && b@.skip(0) =~= b@);
    while i < a.len() && i < b.len() && a[i] == b[i]
        invariant
            i <= a@.len(),
            i <= b@.len(),
            seq_lt(a@, b@) == seq_lt(a@.skip(i as int), b@.skip(i as int)),
        decreases a@.len() - i,
    {
        proof {
            let sa = a@.skip(i as int);
            let sb = b@.skip(i as int);
            assert(sa.drop_first() =~= a@.skip(i + 1));
            assert(sb.drop_first() =~= b@.skip(i + 1));
        }
        i = i + 1;
    }
    let ghost sa = a@.skip(i as int);
    let ghost sb = b@.skip(i as int);
    if i == a.len() {
        i < b.len()
    } else if i == b.len() {
        false
    } else {
        assert(sa[0] == a@[i as int] && sb[0] == b@[i as int]);
        a[i] < b[i]
    }
}

/// Whether `a` and `b` hold the same characters.
pub(crate) fn chars_eq(a: &Vec<char>, b: &Vec<char>) -> (r: bool)
    ensures
        r == (a@ == b@),
{
    if a.len() != b.len() {
        return false;
    }
    let mut i: usize = 0;
    while i < a.len()
        invariant
            a@.len() == b@.len(),
            i <= a@.len(),
            forall|k: int| 0 <= k < i ==> a@[k] == b@[k],
        decreases a@.len() - i,
    {
        if a[i] != b[i] {
            return false;
        }
        i = i + 1;
    }
    assert(a@ =~= b@);
    true
}

proof fn lemma_to_set_insert_at(s: Seq<Seq<char>>, i: int, x: Seq<char>)
    requires
        0 <= i <= s.len(),
    ensures
        s.insert(i, x).to_set() == s.to_set().insert(x),
{
    let t = s.insert(i, x);
    assert forall|y: Seq<char>| #[trigger] t.to_set().contains(y) <==> s.to_set().insert(x).contains(
        y,
    ) by {
        if t.contains(y) {
            let k = choose|k: int| 0 <= k < t.len() && t[k] == y;
            if k < i {
                assert(s[k] == y);
            } else if k > i {
                assert(s[k - 1] == y);
            }
        }
        if s.contains(y) {
            let k = choose|k: int| 0 <= k < s.len() && s[k] == y;
            if k < i {
                assert(t[k] == y);
            } else {
                assert(t[k + 1] == y);
            }
        }
        if y == x {
            assert(t[i] == y);
        }
    }
    assert(t.to_set() =~= s.to_set().insert(x));
}

/// Inserts `x` into the strictly ascending `v`, unless it is already there.
fn insert_sorted(v: &mut Vec<Vec<char>>, x: Vec<char>)
    requires
        strictly_sorted(old(v)@.map_values(|c: Vec<char>| c@)),
    ensures
        strictly_sorted(final(v)@.map_values(|c: Vec<char>| c@)),
        final(v)@.map_values(|c: Vec<char>| c@).to_set() == old(v)@.map_values(
            |c: Vec<char>| c@,
        ).to_set().insert(x@),
{
    let ghost vs = v@.map_values(|c: Vec<char>| c@);
    let mut i: usize = 0;
    while i < v.len()
        invariant
            i <= v@.len(),
            vs == v@.map_values(|c: Vec<char>| c@),
            vs == old(v)@.map_values(|c: Vec<char>| c@),
            strictly_sorted(vs),
            forall|k: int| 0 <= k < i ==> seq_lt(#[trigger] vs[k], x@),
        decreases v@.len() - i,
    {
        if chars_eq(&v[i], &x) {
            proof {
                assert(vs[i as int] == x@);
                assert(vs.to_set().contains(x@));
                assert(vs.to_set().insert(x@) =~= vs.to_set());
            }
            return;
        }
        if chars_lt(&x, &v[i]) {
            proof {
                assert(v@.insert(i as int, x).map_values(|c: Vec<char>| c@) =~= vs.insert(
                    i as int,
                    x@,
                ));
                lemma_to_set_insert_at(vs, i as int, x@);
                let n = vs.insert(i as int, x@);
                assert forall|a: int, b: int| 0 <= a < b < n.len() implies seq_lt(
                    #[trigger] n[a],
                    #[trigger] n[b],
                ) by {
                    if a < i && b < i {
                        assert(n[a] == vs[a] && n[b] == vs[b]);
                    } else if a < i && b == i {
                    } else if a < i && b > i {
                        assert(n[b] == vs[b - 1]);
                    } else if a == i {
                        assert(n[b] == vs[b - 1]);
                        if b - 1 > i {
                            lemma_seq_lt_transitive(x@, vs[i as int], vs[b - 1]);
                        }
                    } else {
                        assert(n[a] == vs[a - 1] && n[b] == vs[b - 1]);
                    }
                }
            }
            v.insert(i, x);
            return;
        }
        proof {
            lemma_seq_lt_total(vs[i as int], x@);
        }
        i = i + 1;
    }
    proof {
        let n = vs.push(x@);
        assert(v@.push(x).map_values(|c: Vec<char>| c@) =~= n);
        lemma_to_set_insert_at(vs, vs.len() as int, x@);
        assert(vs.insert(vs.len() as int, x@) =~= n);
        assert forall|a: int, b: int| 0 <= a < b < n.len() implies seq_lt(
            #[trigger] n[a],
            #[trigger] n[b],
        ) by {
            if b == vs.len() {
                assert(n[a] == vs[a]);
            } else {
                assert(n[a] == vs[a] && n[b] == vs[b]);
            }
        }
    }
    v.push(x);
}

/// The realtime types that occur among `topics`.
pub open spec fn types_of(topics: Set<TopicKey>) -> Set<Seq<char>> {
    Set::new(|ty: Seq<char>| exists|it: Seq<char>| #[trigger] topics.contains((it, ty)))
}

/// The items that occur under realtime type `ty` among `topics`.
pub open spec fn items_of(topics: Set<TopicKey>, ty: Seq<char>) -> Set<Seq<char>> {
    Set::new(|it: Seq<char>| topics.contains((it, ty)))
}

spec fn char_views(v: Seq<Vec<char>>) -> Seq<Seq<char>> {
    v.map_values(|c: Vec<char>| c@)
}

/// Strings holding the given character sequences, in order.
fn to_strings(v: &Vec<Vec<char>>) -> (out: Vec<String>)
    ensures
        strings_view(out@) == char_views(v@),
{
    let mut out: Vec<String> = Vec::new();
    let mut i: usize = 0;
    while i < v.len()
        invariant
            i <= v@.len(),
            strings_view(out@) == char_views(v@.take(i as int)),
        decreases v@.len() - i,
    {
        let s = chars_to_string(&v[i]);
        let ghost prev = out@;
        out.push(s);
        proof {
            assert(strings_view(out@) =~= strings_view(prev).push(s@));
            assert(char_views(v@.take(i + 1)) =~= char_views(v@.take(i as int)).push(v@[i as int]@));
        }
        i = i + 1;
    }
    assert(v@.take(v@.len() as int) =~= v@);
    out
}

/// The distinct realtime types of `topics`, ascending.
fn sorted_types(topics: &Vec<WsTopic>) -> (tv: Vec<Vec<char>>)
    ensures
        strictly_sorted(char_views(tv@)),
        char_views(tv@).to_set() == types_of(topic_set(topics@)),
{
    let mut tv: Vec<Vec<char>> = Vec::new();
    proof {
        assert(char_views(tv@).to_set() =~= Set::<Seq<char>>::empty());
        assert(topics@.take(0) =~= Seq::<WsTopic>::empty());
        assert(types_of(topic_set(topics@.take(0))) =~= Set::<Seq<char>>::empty());
    }
    let mut k: usize = 0;
    while k < topics.len()
        invariant
            k <= topics@.len(),
            strictly_sorted(char_views(tv@)),
            char_views(tv@).to_set() == types_of(topic_set(topics@.take(k as int))),
        decreases topics@.len() - k,
    {
        let ty = str_chars(topics[k].ty.as_str());
        proof {
            lemma_topic_set_take(topics@, k as int);
            let before = topic_set(topics@.take(k as int));
            let t = topics@[k as int]@;
            assert(ty@ == t.1);
            assert forall|y: Seq<char>| #[trigger] types_of(before.insert(t)).contains(y)
                <==> types_of(before).insert(ty@).contains(y) by {
                if types_of(before.insert(t)).contains(y) {
                    let it = choose|it: Seq<char>| #[trigger] before.insert(t).contains((it, y));
                    if (it, y) != t {
                        assert(before.contains((it, y)));
                    }
                }
                if y == t.1 {
                    assert(before.insert(t).contains((t.0, y)));
                } else if types_of(before).contains(y) {
                    let it = choose|it: Seq<char>| #[trigger] before.contains((it, y));
                    assert(before.insert(t).contains((it, y)));
                }
            }
            assert(types_of(before.insert(t)) =~= types_of(before).insert(ty@));
        }
        insert_sorted(&mut tv, ty);
        k = k + 1;
    }
    assert(topics@.take(topics@.len() as int) =~= topics@);
    tv
}

/// The distinct items that occur under realtime type `ty` in `topics`, ascending.
fn sorted_items(topics: &Vec<WsTopic>, ty: &Vec<char>) -> (iv: Vec<Vec<char>>)
    ensures
        strictly_sorted(char_views(iv@)),
        char_views(iv@).to_set() == items_of(topic_set(topics@), ty@),
{
    let mut iv: Vec<Vec<char>> = Vec::new();
    proof {
        assert(char_views(iv@).to_set() =~= Set::<Seq<char>>::empty());
        assert(topics@.take(0) =~= Seq::<WsTopic>::empty());
        assert(items_of(topic_set(topics@.take(0)), ty@) =~= Set::<Seq<char>>::empty());
    }
    let mut k: usize = 0;
    while k < topics.len()
        invariant
            k <= topics@.len(),
            strictly_sorted(char_views(iv@)),
            char_views(iv@).to_set() == items_of(topic_set(topics@.take(k as int)), ty@),
        decreases topics@.len() - k,
    {
        let this_ty = str_chars(topics[k].ty.as_str());
        proof {
            lemma_topic_set_take(topics@, k as int);
        }
        if chars_eq(&this_ty, ty) {
            let item = str_chars(topics[k].item.as_str());
            proof {
                let before = topic_set(topics@.take(k as int));
                let t = topics@[k as int]@;
                assert(items_of(before.insert(t), ty@) =~= items_of(before, ty@).insert(item@));
            }
            insert_sorted(&mut iv, item);
        } else {
            proof {
                let before = topic_set(topics@.take(k as int));
                let t = topics@[k as int]@;
                assert(items_of(before.insert(t), ty@) =~= items_of(before, ty@));
            }
        }
        k = k + 1;
    }
    assert(topics@.take(topics@.len() as int) =~= topics@);
    iv
}

/// Groups topics into request entries: one per realtime type, types ascending,
/// each with its distinct items ascending.
pub fn ws_topics_to_reg_data(topics: Vec<WsTopic>) -> (r: Vec<WsRegData>)
    ensures
        is_grouping_of(r@, topic_set(topics@)),
{
    let ghost all = topic_set(topics@);
    let tv = sorted_types(&topics);
    let ghost tys = char_views(tv@);
    let mut out: Vec<WsRegData> = Vec::new();
    let mut g: usize = 0;
    while g < tv.len()
        invariant
            g <= tv@.len(),
            tys == char_views(tv@),
            all == topic_set(topics@),
            strictly_sorted(tys),
            tys.to_set() == types_of(all),
            out@.len() == g,
            forall|i: int|
                0 <= i < g ==> {
                    &&& (#[trigger] out@[i]).types@.len() == 1
                    &&& out@[i].types@[0]@ == tys[i]
                    &&& strictly_sorted(strings_view(out@[i].item@))
                    &&& strings_view(out@[i].item@).to_set() == items_of(all, tys[i])
                },
        decreases tv@.len() - g,
    {
        let iv = sorted_items(&topics, &tv[g]);
        let item = to_strings(&iv);
        let mut types: Vec<String> = Vec::new();
        types.push(chars_to_string(&tv[g]));
        let ghost prev = out@;
        out.push(WsRegData { item, types });
        proof {
            assert forall|i: int| 0 <= i < g + 1 implies {
                &&& (#[trigger] out@[i]).types@.len() == 1
                &&& out@[i].types@[0]@ == tys[i]
                &&& strictly_sorted(strings_view(out@[i].item@))
                &&& strings_view(out@[i].item@).to_set() == items_of(all, tys[i])
            } by {
                if i < g {
                    assert(out@[i] == prev[i]);
                }
            }
        }
        g = g + 1;
    }
    proof {
        let r = out@;
        assert forall|i: int| 0 <= i < r.len() implies strictly_sorted(
            strings_view((#[trigger] r[i]).item@),
        ) && r[i].item@.len() > 0 by {
            assert(tys.to_set().contains(tys[i]));
            let it = choose|it: Seq<char>| #[trigger] all.contains((it, tys[i]));
            assert(items_of(all, tys[i]).contains(it));
            assert(strings_view(r[i].item@).to_set().contains(it));
        }
        assert forall|it: Seq<char>, ty: Seq<char>| #[trigger] all.contains((it, ty)) <==> exists|
            i: int,
            j: int,
        |
            0 <= i < r.len() && 0 <= j < r[i].item@.len() && (#[trigger] r[i]).types@[0]@ == ty
                && (#[trigger] r[i].item@[j])@ == it by {
            if all.contains((it, ty)) {
                assert(types_of(all).contains(ty));
                let i = choose|i: int| 0 <= i < tys.len() && tys[i] == ty;
                assert(items_of(all, ty).contains(it));
                assert(strings_view(r[i].item@).to_set().contains(it));
                let j = choose|j: int|
                    0 <= j < strings_view(r[i].item@).len() && strings_view(r[i].item@)[j] == it;
                assert(r[i].item@[j]@ == it);
            }
            if exists|i: int, j: int|
                0 <= i < r.len() && 0 <= j < r[i].item@.len() && (#[trigger] r[i]).types@[0]@ == ty
                    && (#[trigger] r[i].item@[j])@ == it {
                let (i, j) = choose|i: int, j: int|
                    0 <= i < r.len() && 0 <= j < r[i].item@.len() && (#[trigger] r[i]).types@[0]@
                        == ty && (#[trigger] r[i].item@[j])@ == it;
                assert(strings_view(r[i].item@)[j] == it);
                assert(strings_view(r[i].item@).to_set().contains(it));
                assert(items_of(all, tys[i]).contains(it));
            }
        }
    }
    out
}

/// Two strictly ascending lists with the same elements are the same list.
proof fn lemma_sorted_unique(a: Seq<Seq<char>>, b: Seq<Seq<char>>)
    requires
        strictly_sorted(a),
        strictly_sorted(b),
        a.to_set() == b.to_set(),
    ensures
        a == b,
    decreases a.len(),
{
    if a.len() == 0 {
        if b.len() > 0 {
            assert(b.to_set().contains(b[0]));
            assert(a.to_set().contains(b[0]));
        }
        assert(a =~= b);
    } else {
        assert(a.to_set().contains(a[0]));
        assert(b.to_set().contains(a[0]));
        let k = choose|k: int| 0 <= k < b.len() && b[k] == a[0];
        assert(a.to_set().contains(b[0]));
        let m = choose|m: int| 0 <= m < a.len() && a[m] == b[0];
        lemma_seq_lt_total(a[0], b[0]);
        lemma_seq_lt_total(a[0], a[0]);
        if k > 0 {
            assert(seq_lt(b[0], b[k]));
            if m > 0 {
                assert(seq_lt(a[0], a[m]));
            }
        }
        assert(a[0] == b[0]);
        let a1 = a.drop_first();
        let b1 = b.drop_first();
        assert(strictly_sorted(a1)) by {
            assert forall|i: int, j: int| 0 <= i < j < a1.len() implies seq_lt(
                #[trigger] a1[i],
                #[trigger] a1[j],
            ) by {
                assert(seq_lt(a[i + 1], a[j + 1]));
            }
        }
        assert(strictly_sorted(b1)) by {
            assert forall|i: int, j: int| 0 <= i < j < b1.len() implies seq_lt(
                #[trigger] b1[i],
                #[trigger] b1[j],
            ) by {
                assert(seq_lt(b[i + 1], b[j + 1]));
            }
        }
        assert(a1.to_set() =~= b1.to_set()) by {
            assert forall|x: Seq<char>| #[trigger] a1.to_set().contains(x) implies b1.to_set().contains(
                x,
            ) by {
                let i = choose|i: int| 0 <= i < a1.len() && a1[i] == x;
                assert(seq_lt(a[0], a[i + 1]));
                assert(x != a[0]);
                assert(a.to_set().contains(x));
                assert(b.to_set().contains(x));
                let j = choose|j: int| 0 <= j < b.len() && b[j] == x;
                assert(j != 0);
                assert(b1[j - 1] == x);
            }
            assert forall|x: Seq<char>| #[trigger] b1.to_set().contains(x) implies a1.to_set().contains(
                x,
            ) by {
                let i = choose|i: int| 0 <= i < b1.len() && b1[i] == x;
                assert(seq_lt(b[0], b[i + 1]));
                assert(x != b[0]);
                assert(b.to_set().contains(x));
                assert(a.to_set().contains(x));
                let j = choose|j: int| 0 <= j < a.len() && a[j] == x;
                assert(j != 0);
                assert(a1[j - 1] == x);
            }
        }
        lemma_sorted_unique(a1, b1);
        assert(a =~= seq![a[0]] + a1);
        assert(b =~= seq![b[0]] + b1);
    }
}

/// The realtime type of each entry of a grouping.
pub open spec fn entry_types(r: Seq<WsRegData>) -> Seq<Seq<char>> {
    r.map_values(|e: WsRegData| e.types@[0]@)
}

proof fn lemma_grouping_parts(r: Seq<WsRegData>, topics: Set<TopicKey>)
    requires
        is_grouping_of(r, topics),
    ensures
        strictly_sorted(entry_types(r)),
        entry_types(r).to_set() == types_of(topics),
        forall|i: int|
            0 <= i < r.len() ==> strings_view((#[trigger] r[i]).item@).to_set() == items_of(
                topics,
                entry_types(r)[i],
            ),
{
    let t = entry_types(r);
    assert(strictly_sorted(t)) by {
        assert forall|i: int, j: int| 0 <= i < j < t.len() implies seq_lt(#[trigger] t[i], #[trigger] t[j]) by {
            assert(seq_lt(r[i].types@[0]@, r[j].types@[0]@));
        }
    }
    assert(t.to_set() =~= types_of(topics)) by {
        assert forall|ty: Seq<char>| #[trigger] t.to_set().contains(ty) implies types_of(topics).contains(ty) by {
            let i = choose|i: int| 0 <= i < t.len() && t[i] == ty;
            assert(r[i].item@.len() > 0);
            let it = r[i].item@[0]@;
            assert(topics.contains((it, ty)));
        }
        assert forall|ty: Seq<char>| #[trigger] types_of(topics).contains(ty) implies t.to_set().contains(ty) by {
            let it = choose|it: Seq<char>| #[trigger] topics.contains((it, ty));
            let (i, j) = choose|i: int, j: int|
                0 <= i < r.len() && 0 <= j < r[i].item@.len() && (#[trigger] r[i]).types@[0]@ == ty
                    && (#[trigger] r[i].item@[j])@ == it;
            assert(t[i] == ty);
        }
    }
    assert forall|i: int| 0 <= i < r.len() implies strings_view((#[trigger] r[i]).item@).to_set()
        == items_of(topics, entry_types(r)[i]) by {
        let ty = t[i];
        let iv = strings_view(r[i].item@);
        assert(iv.to_set() =~= items_of(topics, ty)) by {
            assert forall|it: Seq<char>| #[trigger] iv.to_set().contains(it) implies items_of(
                topics,
                ty,
            ).contains(it) by {
                let j = choose|j: int| 0 <= j < iv.len() && iv[j] == it;
                assert(r[i].item@[j]@ == it);
                assert(topics.contains((it, ty)));
            }
            assert forall|it: Seq<char>| #[trigger] items_of(topics, ty).contains(it) implies iv.to_set().contains(
                it,
            ) by {
                assert(topics.contains((it, ty)));
                let (i2, j) = choose|i2: int, j: int|
                    0 <= i2 < r.len() && 0 <= j < r[i2].item@.len() && (#[trigger] r[i2]).types@[0]@
                        == ty && (#[trigger] r[i2].item@[j])@ == it;
                if i2 != i {
                    lemma_seq_lt_total(t[i], t[i]);
                    if i2 < i {
                        assert(seq_lt(t[i2], t[i]));
                    } else {
                        assert(seq_lt(t[i], t[i2]));
                    }
                }
                assert(iv[j] == it);
            }
        }
    }
}

/// The entries of a registration request depend on the set of topics alone: any
/// two groupings of the same topics, whatever order or repetition they came in,
/// are the same entries.
pub proof fn lemma_grouping_unique(r1: Seq<WsRegData>, r2: Seq<WsRegData>, topics: Set<TopicKey>)
    requires
        is_grouping_of(r1, topics),
        is_grouping_of(r2, topics),
    ensures
        r1.len() == r2.len(),
        forall|i: int|
            0 <= i < r1.len() ==> strings_view((#[trigger] r1[i]).types@) == strings_view(r2[i].types@)
                && strings_view(r1[i].item@) == strings_view(r2[i].item@),
{
    lemma_grouping_parts(r1, topics);
    lemma_grouping_parts(r2, topics);
    lemma_sorted_unique(entry_types(r1), entry_types(r2));
    assert(r1.len() == entry_types(r1).len());
    assert forall|i: int| 0 <= i < r1.len() implies strings_view((#[trigger] r1[i]).types@) == strings_view(
        r2[i].types@,
    ) && strings_view(r1[i].item@) == strings_view(r2[i].item@) by {
        assert(entry_types(r1)[i] == entry_types(r2)[i]);
        assert(r1[i].types@.len() == 1 && r2[i].types@.len() == 1);
        assert(strings_view(r1[i].types@) =~= strings_view(r2[i].types@));
        assert(strictly_sorted(strings_view(r1[i].item@)));
        assert(strictly_sorted(strings_view(r2[i].item@)));
        lemma_sorted_unique(strings_view(r1[i].item@), strings_view(r2[i].item@));
    }
}

/// A grouping is empty exactly when there are no topics to group.
pub proof fn lemma_grouping_empty(r: Seq<WsRegData>, topics: Set<TopicKey>)
    requires
        is_grouping_of(r, topics),
    ensures
        (r.len() == 0) == (topics == Set::<TopicKey>::empty()),
{
    if r.len() > 0 {
        assert(r[0].item@.len() > 0);
        let it = r[0].item@[0]@;
        let ty = r[0].types@[0]@;
        assert(topics.contains((it, ty)));
    } else {
        assert forall|p: TopicKey| !topics.contains(p) by {
            if topics.contains((p.0, p.1)) {
            }
        }
        assert(topics =~= Set::<TopicKey>::empty());
    }
}

} // verus!
