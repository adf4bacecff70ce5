//! Association lists: a sequence of key/value pairs read as a map, the model of
//! the small keyed tables this library keeps in vectors.
use vstd::prelude::*;

verus! {

/// The map that an association list denotes; a later pair wins over an earlier
/// one with the same key.
pub open spec fn pairs_map<A, B>(p: Seq<(A, B)>) -> Map<A, B>
    decreases p.len(),
{
    if p.len() == 0 {
        Map::empty()
    } else {
        pairs_map(p.drop_last()).insert(p.last().0, p.last().1)
    }
}

/// No key occurs twice.
pub open spec fn unique_keys<A, B>(p: Seq<(A, B)>) -> bool {
    forall|i: int, j: int| 0 <= i < j < p.len() ==> #[trigger] p[i].0 != #[trigger] p[j].0
}

/// The keys of an association list hold exactly the map's domain.
pub proof fn lemma_pairs_map_dom<A, B>(p: Seq<(A, B)>, k: A)
    ensures
        pairs_map(p).contains_key(k) <==> exists|i: int| 0 <= i < p.len() && #[trigger] p[i].0 == k,
    decreases p.len(),
{
    if p.len() > 0 {
        lemma_pairs_map_dom(p.drop_last(), k);
        if pairs_map(p).contains_key(k) {
            if k == p.last().0 {
                assert(p[p.len() - 1].0 == k);
            } else {
                let i = choose|i: int| 0 <= i < p.drop_last().len() && #[trigger] p.drop_last()[i].0 == k;
                assert(p[i].0 == k);
            }
        }
        if exists|i: int| 0 <= i < p.len() && #[trigger] p[i].0 == k {
            let i = choose|i: int| 0 <= i < p.len() && #[trigger] p[i].0 == k;
            if i < p.len() - 1 {
                assert(p.drop_last()[i].0 == k);
            }
        }
    }
}

/// With unique keys, each pair's value is what the map gives for its key.
pub proof fn lemma_pairs_map_index<A, B>(p: Seq<(A, B)>, i: int)
    requires
        unique_keys(p),
        0 <= i < p.len(),
    ensures
        pairs_map(p).contains_key(p[i].0),
        pairs_map(p)[p[i].0] == p[i].1,
    decreases p.len(),
{
    if i < p.len() - 1 {
        let q = p.drop_last();
        assert(q[i] == p[i]);
        assert(unique_keys(q)) by {
            assert forall|a: int, b: int| 0 <= a < b < q.len() implies #[trigger] q[a].0
                != #[trigger] q[b].0 by {
                assert(q[a] == p[a] && q[b] == p[b]);
            }
        }
        lemma_pairs_map_index(q, i);
        assert(p[i].0 != p[p.len() - 1].0);
    }
}

/// Adding a pair adds its key to the map.
pub proof fn lemma_pairs_map_push<A, B>(p: Seq<(A, B)>, x: (A, B))
    ensures
        pairs_map(p.push(x)) == pairs_map(p).insert(x.0, x.1),
{
    assert(p.push(x).drop_last() =~= p);
}

/// Replacing one pair's value replaces the value the map gives for that key.
pub proof fn lemma_pairs_map_update<A, B>(p: Seq<(A, B)>, i: int, b: B)
    requires
        unique_keys(p),
        0 <= i < p.len(),
    ensures
        pairs_map(p.update(i, (p[i].0, b))) == pairs_map(p).insert(p[i].0, b),
        unique_keys(p.update(i, (p[i].0, b))),
    decreases p.len(),
{
    let u = p.update(i, (p[i].0, b));
    assert(unique_keys(u)) by {
        assert forall|a: int, c: int| 0 <= a < c < u.len() implies #[trigger] u[a].0
            != #[trigger] u[c].0 by {
            assert(u[a].0 == p[a].0 && u[c].0 == p[c].0);
        }
    }
    let q = p.drop_last();
    assert(unique_keys(q)) by {
        assert forall|a: int, c: int| 0 <= a < c < q.len() implies #[trigger] q[a].0
            != #[trigger] q[c].0 by {
            assert(q[a] == p[a] && q[c] == p[c]);
        }
    }
    if i == p.len() - 1 {
        assert(u.drop_last() =~= q);
        lemma_pairs_map_dom(q, p[i].0);
        assert(pairs_map(u) =~= pairs_map(p).insert(p[i].0, b));
    } else {
        assert(u.drop_last() =~= q.update(i, (q[i].0, b)));
        lemma_pairs_map_update(q, i, b);
        assert(p[i].0 != p.last().0);
        assert(pairs_map(u) =~= pairs_map(p).insert(p[i].0, b));
    }
}

/// Dropping one pair drops its key from the map.
pub proof fn lemma_pairs_map_remove<A, B>(p: Seq<(A, B)>, i: int)
    requires
        unique_keys(p),
        0 <= i < p.len(),
    ensures
        pairs_map(p.remove(i)) == pairs_map(p).remove(p[i].0),
        unique_keys(p.remove(i)),
    decreases p.len(),
{
    let r = p.remove(i);
    assert(unique_keys(r)) by {
        assert forall|a: int, c: int| 0 <= a < c < r.len() implies #[trigger] r[a].0
            != #[trigger] r[c].0 by {
            let a2 = if a < i { a } else { a + 1 };
            let c2 = if c < i { c } else { c + 1 };
            assert(r[a] == p[a2] && r[c] == p[c2]);
        }
    }
    let q = p.drop_last();
    assert(unique_keys(q)) by {
        assert forall|a: int, c: int| 0 <= a < c < q.len() implies #[trigger] q[a].0
            != #[trigger] q[c].0 by {
            assert(q[a] == p[a] && q[c] == p[c]);
        }
    }
    if i == p.len() - 1 {
        assert(r =~= q);
        assert forall|k: A| #[trigger] pairs_map(q).contains_key(k) implies k != p[i].0 by {
            lemma_pairs_map_dom(q, k);
            if k == p[i].0 {
                let j = choose|j: int| 0 <= j < q.len() && #[trigger] q[j].0 == k;
                assert(p[j].0 == p[i].0);
            }
        }
        assert(pairs_map(r) =~= pairs_map(p).remove(p[i].0));
    } else {
        assert(r.drop_last() =~= q.remove(i));
        assert(r.last() == p.last());
        lemma_pairs_map_remove(q, i);
        assert(p[i].0 != p.last().0);
        assert(pairs_map(r) =~= pairs_map(p).remove(p[i].0));
    }
}

} // verus!
