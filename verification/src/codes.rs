//! Counting the distinct stock codes found anywhere in the master pages.
use vstd::prelude::*;
use crate::json::Json;
use crate::ws_messages::{pick_first_str, pick_first_str_spec};
use crate::text::{trim_spec, trimmed_chars};

verus! {

/// The keys under which a master record may carry its stock code, in the order
/// they are tried.
pub open spec fn record_code_keys() -> Seq<Seq<char>> {
    seq![
        seq!['c', 'o', 'd', 'e'],
        seq!['i', 's', 'u', '_', 'c', 'd'],
        seq!['s', 't', 'k', '_', 'c', 'd'],
        seq!['s', 'h', 'r', 'n', '_', 'i', 's', 'c', 'd'],
        seq!['i', 's', 'u', '_', 's', 'r', 't', '_', 'c', 'd'],
    ]
}

/// The code an object carries itself: the first of the code keys holding a
/// string, trimmed, when not blank.
pub open spec fn own_code(v: Json) -> Set<Seq<char>> {
    match pick_first_str_spec(v, record_code_keys()) {
        Some(c) => if trim_spec(c).len() > 0 { set![trim_spec(c)] } else { Set::empty() },
        None => Set::empty(),
    }
}

/// Every code carried by `v` or by any value nested in it.
pub open spec fn codes_in(v: Json) -> Set<Seq<char>>
    decreases v,
{
    match v {
        Json::Object(m) => own_code(v).union(codes_in_members(m@)),
        Json::Array(a) => codes_in_items(a@),
        _ => Set::empty(),
    }
}

/// Every code carried by the values of an object's members.
pub open spec fn codes_in_members(m: Seq<(String, Json)>) -> Set<Seq<char>>
    decreases m,
{
    if m.len() == 0 {
        Set::empty()
    } else {
        codes_in_members(m.drop_last()).union(codes_in(m.last().1))
    }
}

/// Every code carried by a run of values.
pub open spec fn codes_in_items(s: Seq<Json>) -> Set<Seq<char>>
    decreases s,
{
    if s.len() == 0 {
        Set::empty()
    } else {
        codes_in_items(s.drop_last()).union(codes_in(s.last()))
    }
}

/// The characters of each collected code.
pub open spec fn code_views(v: Seq<Vec<char>>) -> Seq<Seq<char>> {
    v.map_values(|c: Vec<char>| c@)
}

/// Adds `code` to the distinct codes `seen`, unless it is there.
fn insert_code(seen: &mut Vec<Vec<char>>, code: Vec<char>)
    requires
        code_views(old(seen)@).no_duplicates(),
    ensures
        code_views(final(seen)@).no_duplicates(),
        code_views(final(seen)@).to_set() == code_views(old(seen)@).to_set().insert(code@),
{
    let mut i: usize = 0;
    while i < seen.len()
        invariant
            i <= seen@.len(),
            seen@ == old(seen)@,
            code_views(old(seen)@).no_duplicates(),
            forall|k: int| 0 <= k < i ==> code_views(seen@)[k] != code@,
        decreases seen@.len() - i,
    {
        if crate::reg_data::chars_eq(&seen[i], &code) {
            proof {
                assert(code_views(seen@)[i as int] == code@);
                assert(code_views(seen@).to_set().contains(code@));
                assert(code_views(seen@).to_set().insert(code@) =~= code_views(seen@).to_set());
            }
            return;
        }
        i = i + 1;
    }
    let ghost before = code_views(seen@);
    proof {
        assert(!before.contains(code@));
    }
    seen.push(code);
    proof {
        assert(code_views(seen@) =~= before.push(code@));
        crate::subscriptions::lemma_to_set_push(before, code@);
        assert forall|a: int, b: int| 0 <= a < b < code_views(seen@).len() implies code_views(seen@)[a]
            != code_views(seen@)[b] by {
            if b == before.len() {
                assert(before.contains(before[a]));
            }
        }
    }
}

/// The code an object carries itself, if any.
fn own_code_of(v: &Json) -> (r: Option<Vec<char>>)
    ensures
        match r {
            Some(c) => own_code(*v) == set![c@],
            None => own_code(*v) == Set::<Seq<char>>::empty(),
        },
{
    let mut keys: Vec<&str> = Vec::new();
    keys.push("code");
    keys.push("isu_cd");
    keys.push("stk_cd");
    keys.push("shrn_iscd");
    keys.push("isu_srt_cd");
    proof {
        reveal_strlit("code");
        reveal_strlit("isu_cd");
        reveal_strlit("stk_cd");
        reveal_strlit("shrn_iscd");
        reveal_strlit("isu_srt_cd");
        assert(keys@.map_values(|k: &str| k@) =~= record_code_keys()) by {
            assert("code"@ =~= record_code_keys()[0]);
            assert("isu_cd"@ =~= record_code_keys()[1]);
            assert("stk_cd"@ =~= record_code_keys()[2]);
            assert("shrn_iscd"@ =~= record_code_keys()[3]);
            assert("isu_srt_cd"@ =~= record_code_keys()[4]);
        }
    }
    match pick_first_str(v, keys.as_slice()) {
        Some(c) => {
            let t = trimmed_chars(c);
            if t.len() > 0 {
                Some(t)
            } else {
                None
            }
        },
        None => None,
    }
}

/// Adds to the distinct codes `seen` every code carried by `v` or by any value
/// nested in it.
pub fn collect_codes(v: &Json, seen: &mut Vec<Vec<char>>)
    requires
        code_views(old(seen)@).no_duplicates(),
    ensures
        code_views(final(seen)@).no_duplicates(),
        code_views(final(seen)@).to_set() == code_views(old(seen)@).to_set().union(codes_in(*v)),
    decreases v,
{
    let ghost s0 = code_views(seen@).to_set();
    match v {
        Json::Object(m) => {
            match own_code_of(v) {
                Some(c) => insert_code(seen, c),
                None => {},
            }
            let ghost s1 = code_views(seen@).to_set();
            proof {
                assert(s1 == s0.union(own_code(*v))) by {
                    assert(s1 =~= s0.union(own_code(*v)));
                }
                assert(m@.take(0) =~= Seq::<(String, Json)>::empty());
                assert(s1.union(codes_in_members(m@.take(0))) =~= s1);
            }
            let mut i: usize = 0;
            while i < m.len()
                invariant
                    *v == Json::Object(*m),
                    i <= m@.len(),
                    code_views(seen@).no_duplicates(),
                    code_views(seen@).to_set() == s1.union(codes_in_members(m@.take(i as int))),
                decreases m@.len() - i,
            {
                proof {
                    assert((*v)->Object_0 == *m);
                    assert(decreases_to!(*v => (*v)->Object_0));
                    assert(decreases_to!(*m => m[i as int]));
                    assert(decreases_to!(m[i as int] => m[i as int].1));
                }
                collect_codes(&m[i].1, seen);
                proof {
                    assert(m@.take(i + 1).drop_last() =~= m@.take(i as int));
                    assert(m@.take(i + 1).last() == m@[i as int]);
                    assert(code_views(seen@).to_set() =~= s1.union(codes_in_members(m@.take(i + 1))));
                }
                i = i + 1;
            }
            proof {
                assert(m@.take(m@.len() as int) =~= m@);
                assert(code_views(seen@).to_set() =~= s0.union(codes_in(*v)));
            }
        },
        Json::Array(a) => {
            proof {
                assert(a@.take(0) =~= Seq::<Json>::empty());
                assert(s0.union(codes_in_items(a@.take(0))) =~= s0);
            }
            let mut i: usize = 0;
            while i < a.len()
                invariant
                    *v == Json::Array(*a),
                    i <= a@.len(),
                    code_views(seen@).no_duplicates(),
                    code_views(seen@).to_set() == s0.union(codes_in_items(a@.take(i as int))),
                decreases a@.len() - i,
            {
                proof {
                    assert((*v)->Array_0 == *a);
                    assert(decreases_to!(*v => (*v)->Array_0));
                    assert(decreases_to!(*a => a[i as int]));
                }
                collect_codes(&a[i], seen);
                proof {
                    assert(a@.take(i + 1).drop_last() =~= a@.take(i as int));
                    assert(a@.take(i + 1).last() == a@[i as int]);
                    assert(code_views(seen@).to_set() =~= s0.union(codes_in_items(a@.take(i + 1))));
                }
                i = i + 1;
            }
            proof {
                assert(a@.take(a@.len() as int) =~= a@);
            }
        },
        _ => {
            proof {
                assert(s0.union(codes_in(*v)) =~= s0);
            }
        },
    }
}

/// How many distinct stock codes the master pages carry, anywhere in them.
pub fn count_master_records(pages: &Vec<Json>) -> (n: usize)
    ensures
        n == codes_in_items(pages@).len(),
{
    let mut seen: Vec<Vec<char>> = Vec::new();
    proof {
        assert(code_views(seen@) =~= Seq::<Seq<char>>::empty());
        assert(code_views(seen@).to_set() =~= Set::<Seq<char>>::empty());
        assert(pages@.take(0) =~= Seq::<Json>::empty());
    }
    let mut i: usize = 0;
    while i < pages.len()
        invariant
            i <= pages@.len(),
            code_views(seen@).no_duplicates(),
            code_views(seen@).to_set() == codes_in_items(pages@.take(i as int)),
        decreases pages@.len() - i,
    {
        collect_codes(&pages[i], &mut seen);
        proof {
            assert(pages@.take(i + 1).drop_last() =~= pages@.take(i as int));
            assert(pages@.take(i + 1).last() == pages@[i as int]);
        }
        i = i + 1;
    }
    proof {
        assert(pages@.take(pages@.len() as int) =~= pages@);
        code_views(seen@).unique_seq_to_set();
    }
    seen.len()
}

} // verus!
