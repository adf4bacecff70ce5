//! The stock master list (KOSPI and KOSDAQ pages) and the ticker search over it.
use vstd::prelude::*;
use crate::json::{get_spec, get_str_spec, Json};
use crate::text::{
    chars_to_string, contains_chars, contains_spec, lowercase_spec, starts_with_chars,
    starts_with_spec, str_chars, to_lowercase, trim_spec, trimmed_chars,
};

verus! {

/// The stock master pages of both markets, as fetched at start-up.
#[derive(Debug)]
pub struct MasterData {
    pub kospi_pages: Vec<Json>,
    pub kosdaq_pages: Vec<Json>,
}

/// A stock picked in the ticker search.
#[derive(Debug, Clone)]
pub struct TickerSelection {
    pub code: String,
    pub name: String,
    pub market: String,
}

/// A search match as values: code, name, market label.
pub type Sel = (Seq<char>, Seq<char>, Seq<char>);

impl View for TickerSelection {
    type V = Sel;

    open spec fn view(&self) -> Sel {
        (self.code@, self.name@, self.market@)
    }
}

/// What the ticker search widget reports: the stock currently selected, if any.
#[derive(Debug, Clone)]
pub struct TickerSearchOutput {
    pub selected: Option<TickerSelection>,
}

impl TickerSearchOutput {
    /// Nothing selected.
    pub fn new() -> (o: TickerSearchOutput)
        ensures
            o.selected is None,
    {
        TickerSearchOutput { selected: None }
    }
}

/// What a ticker search box keeps between frames: the query being typed and the
/// stock last picked (empty strings when none).
#[derive(Debug, Clone)]
pub struct TickerSearchState {
    pub query: String,
    pub selected_code: String,
    pub selected_name: String,
    pub selected_market: String,
}

impl TickerSearchState {
    /// An empty box with nothing picked.
    pub fn new() -> (s: TickerSearchState)
        ensures
            s.query@.len() == 0,
            s.selected_code@.len() == 0,
            s.selected_name@.len() == 0,
            s.selected_market@.len() == 0,
    {
        TickerSearchState {
            query: String::new(),
            selected_code: String::new(),
            selected_name: String::new(),
            selected_market: String::new(),
        }
    }

    /// Picks a match: the box then shows the picked code, and the match becomes
    /// the selection.
    pub fn pick(&mut self, item: TickerSelection)
        ensures
            final(self).query@ == item.code@,
            final(self).selected_code == item.code,
            final(self).selected_name == item.name,
            final(self).selected_market == item.market,
    {
        let TickerSelection { code, name, market } = item;
        self.query = code.clone();
        self.selected_code = code;
        self.selected_name = name;
        self.selected_market = market;
    }

    /// Whether the match list may be shown: only while the query is not blank.
    pub fn popup_allowed(&self) -> (b: bool)
        ensures
            b == (trim_spec(self.query@).len() > 0),
    {
        trimmed_chars(self.query.as_str()).len() > 0
    }

    /// What the widget reports: the picked stock, when a code is picked.
    pub fn output(&self) -> (o: TickerSearchOutput)
        ensures
            self.selected_code@.len() == 0 ==> o.selected is None,
            self.selected_code@.len() > 0 ==> (o.selected matches Some(t) && t.code@
                == self.selected_code@ && t.name@ == self.selected_name@ && t.market@
                == self.selected_market@),
    {
        if self.selected_code.unicode_len() == 0 {
            TickerSearchOutput { selected: None }
        } else {
            TickerSearchOutput {
                selected: Some(
                    TickerSelection {
                        code: self.selected_code.clone(),
                        name: self.selected_name.clone(),
                        market: self.selected_market.clone(),
                    },
                ),
            }
        }
    }
}

pub open spec fn list_key() -> Seq<char> {
    seq!['l', 'i', 's', 't']
}

pub open spec fn code_key() -> Seq<char> {
    seq!['c', 'o', 'd', 'e']
}

pub open spec fn name_key() -> Seq<char> {
    seq!['n', 'a', 'm', 'e']
}

pub open spec fn market_name_key() -> Seq<char> {
    seq!['m', 'a', 'r', 'k', 'e', 't', 'N', 'a', 'm', 'e']
}

pub open spec fn kospi_label() -> Seq<char> {
    seq!['K', 'O', 'S', 'P', 'I']
}

pub open spec fn kosdaq_label() -> Seq<char> {
    seq!['K', 'O', 'S', 'D', 'A', 'Q']
}

/// The rows of a master page: its `list` array, or nothing.
pub open spec fn rows_spec(page: Json) -> Seq<Json> {
    match get_spec(page, list_key()) {
        Some(Json::Array(a)) => a@,
        _ => Seq::empty(),
    }
}

/// The match a master row gives for the query `q` (trimmed) whose lower-case form
/// is `ql`: the row needs a code and a name that are not blank; it matches when
/// the code starts with `q` or the lower-cased name contains `ql`; the market
/// label is the row's `marketName` when not blank, else `market`.
pub open spec fn candidate_spec(row: Json, market: Seq<char>, q: Seq<char>, ql: Seq<char>) -> Option<
    Sel,
> {
    match (get_str_spec(row, code_key()), get_str_spec(row, name_key())) {
        (Some(c), Some(n)) => {
            let code = trim_spec(c);
            let name = trim_spec(n);
            if code.len() == 0 || name.len() == 0 {
                None
            } else if !(starts_with_spec(code, q) || contains_spec(lowercase_spec(name), ql)) {
                None
            } else {
                let label = match get_str_spec(row, market_name_key()) {
                    Some(m) => if trim_spec(m).len() > 0 { trim_spec(m) } else { market },
                    None => market,
                };
                Some((code, name, label))
            }
        },
        _ => None,
    }
}

/// The matches of a run of rows, in order.
pub open spec fn row_candidates(rows: Seq<Json>, market: Seq<char>, q: Seq<char>, ql: Seq<char>) -> Seq<
    Sel,
>
    decreases rows.len(),
{
    if rows.len() == 0 {
        Seq::empty()
    } else {
        let prev = row_candidates(rows.drop_last(), market, q, ql);
        match candidate_spec(rows.last(), market, q, ql) {
            Some(c) => prev.push(c),
            None => prev,
        }
    }
}

/// The matches of a run of pages, in order.
pub open spec fn page_candidates(pages: Seq<Json>, market: Seq<char>, q: Seq<char>, ql: Seq<char>) -> Seq<
    Sel,
>
    decreases pages.len(),
{
    if pages.len() == 0 {
        Seq::empty()
    } else {
        page_candidates(pages.drop_last(), market, q, ql) + row_candidates(
            rows_spec(pages.last()),
            market,
            q,
            ql,
        )
    }
}

pub open spec fn sel_codes(s: Seq<Sel>) -> Seq<Seq<char>> {
    s.map_values(|x: Sel| x.0)
}

/// `d` followed by the matches of `s` whose code is not yet present, in order.
pub open spec fn extend_unique(d: Seq<Sel>, s: Seq<Sel>) -> Seq<Sel>
    decreases s.len(),
{
    if s.len() == 0 {
        d
    } else {
        let e = extend_unique(d, s.drop_last());
        if sel_codes(e).contains(s.last().0) {
            e
        } else {
            e.push(s.last())
        }
    }
}

/// At most `limit` elements of `s`, from the front.
pub open spec fn at_most(s: Seq<Sel>, limit: nat) -> Seq<Sel> {
    if s.len() > limit {
        s.take(limit as int)
    } else {
        s
    }
}

/// The ticker search: the first `limit` matches over the KOSPI pages and then the
/// KOSDAQ pages, each code once (its first match), for the trimmed query; nothing
/// for a blank query or a zero limit.
pub open spec fn ticker_matches_spec(
    kospi: Seq<Json>,
    kosdaq: Seq<Json>,
    query: Seq<char>,
    limit: nat,
) -> Seq<Sel> {
    let q = trim_spec(query);
    if limit == 0 || q.len() == 0 {
        Seq::empty()
    } else {
        let ql = lowercase_spec(q);
        let all = page_candidates(kospi, kospi_label(), q, ql) + page_candidates(
            kosdaq,
            kosdaq_label(),
            q,
            ql,
        );
        at_most(extend_unique(Seq::empty(), all), limit)
    }
}

pub open spec fn sels(v: Seq<TickerSelection>) -> Seq<Sel> {
    v.map_values(|t: TickerSelection| t@)
}

proof fn lemma_extend_prefix(d: Seq<Sel>, s: Seq<Sel>)
    ensures
        extend_unique(d, s).len() >= d.len(),
        extend_unique(d, s).subrange(0, d.len() as int) == d,
        extend_unique(d, s).len() <= d.len() + s.len(),
    decreases s.len(),
{
    if s.len() > 0 {
        lemma_extend_prefix(d, s.drop_last());
        let e = extend_unique(d, s.drop_last());
        assert(e.push(s.last()).subrange(0, d.len() as int) =~= e.subrange(0, d.len() as int));
    } else {
        assert(d.subrange(0, d.len() as int) =~= d);
    }
}

proof fn lemma_extend_append(d: Seq<Sel>, a: Seq<Sel>, b: Seq<Sel>)
    ensures
        extend_unique(d, a + b) == extend_unique(extend_unique(d, a), b),
    decreases b.len(),
{
    if b.len() == 0 {
        assert(a + b =~= a);
    } else {
        lemma_extend_append(d, a, b.drop_last());
        assert((a + b).drop_last() =~= a + b.drop_last());
        assert((a + b).last() == b.last());
    }
}

proof fn lemma_extend_push(d: Seq<Sel>, s: Seq<Sel>, x: Sel)
    ensures
        extend_unique(d, s.push(x)) == (if sel_codes(extend_unique(d, s)).contains(x.0) {
            extend_unique(d, s)
        } else {
            extend_unique(d, s).push(x)
        }),
{
    assert(s.push(x).drop_last() =~= s);
}

proof fn lemma_at_most_extend(p: Seq<Sel>, rest: Seq<Sel>, limit: nat)
    requires
        p.len() == limit,
    ensures
        at_most(extend_unique(p, rest), limit) == p,
{
    lemma_extend_prefix(p, rest);
    let e = extend_unique(p, rest);
    if e.len() > limit {
        assert(e.take(limit as int) =~= e.subrange(0, p.len() as int));
    } else {
        assert(e =~= e.subrange(0, p.len() as int));
    }
}

proof fn lemma_extend_distinct(d: Seq<Sel>, s: Seq<Sel>)
    requires
        sel_codes(d).no_duplicates(),
    ensures
        sel_codes(extend_unique(d, s)).no_duplicates(),
    decreases s.len(),
{
    if s.len() > 0 {
        lemma_extend_distinct(d, s.drop_last());
        let e = extend_unique(d, s.drop_last());
        let x = s.last();
        if !sel_codes(e).contains(x.0) {
            let c = sel_codes(e.push(x));
            assert(c =~= sel_codes(e).push(x.0));
            assert forall|i: int, j: int| 0 <= i < c.len() && 0 <= j < c.len() && i != j implies c[i]
                != c[j] by {
                if i == c.len() - 1 {
                    assert(sel_codes(e)[j] == c[j]);
                } else if j == c.len() - 1 {
                    assert(sel_codes(e)[i] == c[i]);
                }
            }
        }
    }
}

proof fn lemma_row_in_candidates(rows: Seq<Json>, k: int, market: Seq<char>, q: Seq<char>, ql: Seq<char>)
    requires
        0 <= k < rows.len(),
        candidate_spec(rows[k], market, q, ql) is Some,
    ensures
        row_candidates(rows, market, q, ql).contains(candidate_spec(rows[k], market, q, ql).unwrap()),
    decreases rows.len(),
{
    let c = candidate_spec(rows[k], market, q, ql).unwrap();
    let prev = row_candidates(rows.drop_last(), market, q, ql);
    if k == rows.len() - 1 {
        assert(rows.last() == rows[k]);
        assert(prev.push(c)[prev.len() as int] == c);
    } else {
        assert(rows.drop_last()[k] == rows[k]);
        lemma_row_in_candidates(rows.drop_last(), k, market, q, ql);
        let j = choose|j: int| 0 <= j < prev.len() && prev[j] == c;
        match candidate_spec(rows.last(), market, q, ql) {
            Some(x) => {
                assert(prev.push(x)[j] == c);
            },
            None => {},
        }
    }
}

proof fn lemma_page_in_candidates(
    pages: Seq<Json>,
    p: int,
    k: int,
    market: Seq<char>,
    q: Seq<char>,
    ql: Seq<char>,
)
    requires
        0 <= p < pages.len(),
        0 <= k < rows_spec(pages[p]).len(),
        candidate_spec(rows_spec(pages[p])[k], market, q, ql) is Some,
    ensures
        page_candidates(pages, market, q, ql).contains(
            candidate_spec(rows_spec(pages[p])[k], market, q, ql).unwrap(),
        ),
    decreases pages.len(),
{
    let c = candidate_spec(rows_spec(pages[p])[k], market, q, ql).unwrap();
    let before = page_candidates(pages.drop_last(), market, q, ql);
    let last = row_candidates(rows_spec(pages.last()), market, q, ql);
    if p == pages.len() - 1 {
        assert(pages.last() == pages[p]);
        lemma_row_in_candidates(rows_spec(pages[p]), k, market, q, ql);
        let j = choose|j: int| 0 <= j < last.len() && last[j] == c;
        assert((before + last)[before.len() + j] == c);
    } else {
        assert(pages.drop_last()[p] == pages[p]);
        lemma_page_in_candidates(pages.drop_last(), p, k, market, q, ql);
        let j = choose|j: int| 0 <= j < before.len() && before[j] == c;
        assert((before + last)[j] == c);
    }
}

proof fn lemma_extend_covers(d: Seq<Sel>, s: Seq<Sel>, x: Sel)
    requires
        s.contains(x),
    ensures
        sel_codes(extend_unique(d, s)).contains(x.0),
    decreases s.len(),
{
    let e0 = extend_unique(d, s.drop_last());
    if s.last() == x {
        if !sel_codes(e0).contains(x.0) {
            assert(sel_codes(e0.push(x))[e0.len() as int] == x.0);
        }
    } else {
        let j = choose|j: int| 0 <= j < s.len() && s[j] == x;
        assert(j != s.len() - 1);
        assert(s.drop_last()[j] == x);
        lemma_extend_covers(d, s.drop_last(), x);
        if !sel_codes(e0).contains(s.last().0) {
            let i = choose|i: int| 0 <= i < sel_codes(e0).len() && sel_codes(e0)[i] == x.0;
            assert(sel_codes(e0.push(s.last()))[i] == x.0);
        }
    }
}

/// The ticker search finds every stock that matches: a master row, on a KOSPI or
/// a KOSDAQ page, with a code and a name that are not blank, whose trimmed code
/// starts with the trimmed query or whose lower-cased trimmed name contains the
/// lower-cased trimmed query anywhere, has its code among the results, unless the
/// results already hold `limit` stocks.
pub proof fn lemma_ticker_search_finds_matches(
    kospi: Seq<Json>,
    kosdaq: Seq<Json>,
    query: Seq<char>,
    limit: nat,
    on_kosdaq: bool,
    p: int,
    k: int,
    code: Seq<char>,
    name: Seq<char>,
)
    requires
        0 <= p < (if on_kosdaq { kosdaq } else { kospi }).len(),
        0 <= k < rows_spec((if on_kosdaq { kosdaq } else { kospi })[p]).len(),
        get_str_spec(rows_spec((if on_kosdaq { kosdaq } else { kospi })[p])[k], code_key())
            == Some(code),
        get_str_spec(rows_spec((if on_kosdaq { kosdaq } else { kospi })[p])[k], name_key())
            == Some(name),
        trim_spec(code).len() > 0,
        trim_spec(name).len() > 0,
        trim_spec(query).len() > 0,
        starts_with_spec(trim_spec(code), trim_spec(query)) || contains_spec(
            lowercase_spec(trim_spec(name)),
            lowercase_spec(trim_spec(query)),
        ),
        ticker_matches_spec(kospi, kosdaq, query, limit).len() < limit,
    ensures
        sel_codes(ticker_matches_spec(kospi, kosdaq, query, limit)).contains(trim_spec(code)),
{
    let q = trim_spec(query);
    let ql = lowercase_spec(q);
    let pages = if on_kosdaq { kosdaq } else { kospi };
    let market = if on_kosdaq { kosdaq_label() } else { kospi_label() };
    let row = rows_spec(pages[p])[k];
    let c = candidate_spec(row, market, q, ql);
    assert(c is Some && c.unwrap().0 == trim_spec(code));
    lemma_page_in_candidates(pages, p, k, market, q, ql);
    let a = page_candidates(kospi, kospi_label(), q, ql);
    let b = page_candidates(kosdaq, kosdaq_label(), q, ql);
    let all = a + b;
    assert(all.contains(c.unwrap())) by {
        if on_kosdaq {
            let j = choose|j: int| 0 <= j < b.len() && b[j] == c.unwrap();
            assert(all[a.len() + j] == c.unwrap());
        } else {
            let j = choose|j: int| 0 <= j < a.len() && a[j] == c.unwrap();
            assert(all[j] == c.unwrap());
        }
    }
    lemma_extend_covers(Seq::<Sel>::empty(), all, c.unwrap());
    let e = extend_unique(Seq::<Sel>::empty(), all);
    assert(e.len() <= limit);
}

/// The ticker search never lists a code twice and never gives more than `limit`
/// matches.
pub proof fn lemma_ticker_matches_distinct_and_bounded(
    kospi: Seq<Json>,
    kosdaq: Seq<Json>,
    query: Seq<char>,
    limit: nat,
)
    ensures
        ticker_matches_spec(kospi, kosdaq, query, limit).len() <= limit,
        sel_codes(ticker_matches_spec(kospi, kosdaq, query, limit)).no_duplicates(),
{
    let r = ticker_matches_spec(kospi, kosdaq, query, limit);
    let q = trim_spec(query);
    if limit == 0 || q.len() == 0 {
        assert(sel_codes(r) =~= Seq::<Seq<char>>::empty());
    } else {
        let ql = lowercase_spec(q);
        let all = page_candidates(kospi, kospi_label(), q, ql) + page_candidates(
            kosdaq,
            kosdaq_label(),
            q,
            ql,
        );
        assert(sel_codes(Seq::<Sel>::empty()) =~= Seq::<Seq<char>>::empty());
        lemma_extend_distinct(Seq::empty(), all);
        let e = extend_unique(Seq::empty(), all);
        if e.len() > limit {
            let t = e.take(limit as int);
            assert forall|i: int, j: int|
                0 <= i < sel_codes(t).len() && 0 <= j < sel_codes(t).len() && i != j implies sel_codes(
                t,
            )[i] != sel_codes(t)[j] by {
                assert(sel_codes(t)[i] == sel_codes(e)[i]);
                assert(sel_codes(t)[j] == sel_codes(e)[j]);
            }
        }
    }
}

fn codes_contain(seen: &Vec<Vec<char>>, code: &Vec<char>) -> (b: bool)
    ensures
        b == seen@.map_values(|c: Vec<char>| c@).contains(code@),
{
    let ghost sv = seen@.map_values(|c: Vec<char>| c@);
    let mut i: usize = 0;
    while i < seen.len()
        invariant
            i <= seen@.len(),
            sv == seen@.map_values(|c: Vec<char>| c@),
            forall|k: int| 0 <= k < i ==> sv[k] != code@,
        decreases seen@.len() - i,
    {
        if crate::reg_data::chars_eq(&seen[i], code) {
            assert(sv[i as int] == code@);
            return true;
        }
        i = i + 1;
    }
    false
}

fn candidate(row: &Json, market: &str, q: &Vec<char>, ql: &Vec<char>) -> (r: Option<(Vec<char>, TickerSelection)>)
    ensures
        match r {
            Some((c, t)) => candidate_spec(*row, market@, q@, ql@) == Some(t@) && c@ == t.code@,
            None => candidate_spec(*row, market@, q@, ql@) is None,
        },
{
    proof {
        reveal_strlit("code");
        reveal_strlit("name");
        reveal_strlit("marketName");
        assert("code"@ =~= code_key());
        assert("name"@ =~= name_key());
        assert("marketName"@ =~= market_name_key());
    }
    let code_raw = match row.get_str("code") {
        Some(s) => s,
        None => {
            return None;
        },
    };
    let name_raw = match row.get_str("name") {
        Some(s) => s,
        None => {
            return None;
        },
    };
    let code = trimmed_chars(code_raw);
    let name = trimmed_chars(name_raw);
    if code.len() == 0 || name.len() == 0 {
        return None;
    }
    let name_string = chars_to_string(&name);
    let name_lower = str_chars(to_lowercase(name_string.as_str()).as_str());
    let matched = starts_with_chars(&code, q) || contains_chars(&name_lower, ql);
    if !matched {
        return None;
    }
    let label = match row.get_str("marketName") {
        Some(m) => {
            let mt = trimmed_chars(m);
            if mt.len() > 0 {
                chars_to_string(&mt)
            } else {
                market.to_owned()
            }
        },
        None => market.to_owned(),
    };
    let code_string = chars_to_string(&code);
    Some((code, TickerSelection { code: code_string, name: name_string, market: label }))
}

/// The matches of `s`, in order, whose code is neither in `seen` nor taken by an
/// earlier match of `s`.
spec fn fresh_unique(seen: Seq<Seq<char>>, s: Seq<Sel>) -> Seq<Sel>
    decreases s.len(),
{
    if s.len() == 0 {
        Seq::empty()
    } else {
        let f = fresh_unique(seen, s.drop_last());
        if seen.contains(s.last().0) || sel_codes(f).contains(s.last().0) {
            f
        } else {
            f.push(s.last())
        }
    }
}

/// What a list holding `n0` entries takes of the new matches `f` before it holds
/// `limit`: nothing when it is already full, else as many as fit.
spec fn taken(f: Seq<Sel>, n0: int, limit: int) -> Seq<Sel> {
    if n0 >= limit {
        Seq::empty()
    } else if f.len() > limit - n0 {
        f.take(limit - n0)
    } else {
        f
    }
}

proof fn lemma_contains_add(a: Seq<Seq<char>>, b: Seq<Seq<char>>, x: Seq<char>)
    ensures
        (a + b).contains(x) <==> a.contains(x) || b.contains(x),
{
    if (a + b).contains(x) {
        let k = choose|k: int| 0 <= k < (a + b).len() && (a + b)[k] == x;
        if k >= a.len() {
            assert(b[k - a.len()] == x);
        }
    }
    if a.contains(x) {
        let k = choose|k: int| 0 <= k < a.len() && a[k] == x;
        assert((a + b)[k] == x);
    }
    if b.contains(x) {
        let k = choose|k: int| 0 <= k < b.len() && b[k] == x;
        assert((a + b)[a.len() + k] == x);
    }
}

proof fn lemma_sel_codes_add(a: Seq<Sel>, b: Seq<Sel>)
    ensures
        sel_codes(a + b) == sel_codes(a) + sel_codes(b),
{
    assert(sel_codes(a + b) =~= sel_codes(a) + sel_codes(b));
}

/// Extending `d` with the unique matches of `s` appends the fresh ones.
proof fn lemma_fresh_extend(d: Seq<Sel>, s: Seq<Sel>)
    ensures
        extend_unique(d, s) == d + fresh_unique(sel_codes(d), s),
    decreases s.len(),
{
    if s.len() == 0 {
        assert(d + Seq::<Sel>::empty() =~= d);
    } else {
        lemma_fresh_extend(d, s.drop_last());
        let f0 = fresh_unique(sel_codes(d), s.drop_last());
        let x = s.last();
        lemma_sel_codes_add(d, f0);
        lemma_contains_add(sel_codes(d), sel_codes(f0), x.0);
        assert((d + f0).push(x) =~= d + f0.push(x));
    }
}

/// The fresh matches of a longer list begin with those of its beginning.
proof fn lemma_fresh_prefix(seen: Seq<Seq<char>>, a: Seq<Sel>, b: Seq<Sel>)
    ensures
        fresh_unique(seen, a + b).len() >= fresh_unique(seen, a).len(),
        fresh_unique(seen, a + b).subrange(0, fresh_unique(seen, a).len() as int) == fresh_unique(
            seen,
            a,
        ),
    decreases b.len(),
{
    let fa = fresh_unique(seen, a);
    if b.len() == 0 {
        assert(a + b =~= a);
        assert(fa.subrange(0, fa.len() as int) =~= fa);
    } else {
        lemma_fresh_prefix(seen, a, b.drop_last());
        assert((a + b).drop_last() =~= a + b.drop_last());
        let f0 = fresh_unique(seen, a + b.drop_last());
        assert(f0.push((a + b).last()).subrange(0, fa.len() as int) =~= f0.subrange(
            0,
            fa.len() as int,
        ));
    }
}

/// What a page scan gives, when `seen` holds the codes of `d`, is the unique
/// extension of `d` cut at `limit`.
proof fn lemma_step_as_extension(d: Seq<Sel>, cands: Seq<Sel>, limit: nat, out: Seq<Sel>, full: bool)
    requires
        d.len() < limit,
        out == d + taken(fresh_unique(sel_codes(d), cands), d.len() as int, limit as int),
        full == (d.len() + fresh_unique(sel_codes(d), cands).len() >= limit),
    ensures
        out.len() <= limit,
        full == (out.len() == limit),
        full ==> out == at_most(extend_unique(d, cands), limit),
        !full ==> out == extend_unique(d, cands),
{
    let f = fresh_unique(sel_codes(d), cands);
    lemma_fresh_extend(d, cands);
    let e = d + f;
    if f.len() > limit - d.len() {
        assert(e.take(limit as int) =~= d + f.take(limit - d.len()));
    } else if full {
        assert(e.len() == limit);
    }
}

/// Adds to `out` the new matches of one master page, skipping codes in
/// `seen_codes` and codes already taken, and records their codes in `seen_codes`;
/// stops once `out` holds `limit` matches, and returns whether it does.
fn collect_from_list_page(
    page: &Json,
    market: &str,
    query: &Vec<char>,
    query_lower: &Vec<char>,
    seen_codes: &mut Vec<Vec<char>>,
    out: &mut Vec<TickerSelection>,
    limit: usize,
) -> (full: bool)
    ensures
        ({
            let seen0 = old(seen_codes)@.map_values(|c: Vec<char>| c@);
            let n0 = old(out)@.len() as int;
            let f = fresh_unique(
                seen0,
                row_candidates(rows_spec(*page), market@, query@, query_lower@),
            );
            let t = taken(f, n0, limit as int);
            &&& sels(final(out)@) == sels(old(out)@) + t
            &&& final(seen_codes)@.map_values(|c: Vec<char>| c@) == seen0 + sel_codes(t)
            &&& full == (n0 + f.len() >= limit)
        }),
{
    let ghost seen0 = seen_codes@.map_values(|c: Vec<char>| c@);
    let ghost d0 = sels(out@);
    let ghost n0 = out@.len() as int;
    let ghost rows = rows_spec(*page);
    let ghost cands = row_candidates(rows, market@, query@, query_lower@);
    let ghost ff = fresh_unique(seen0, cands);
    if out.len() >= limit {
        proof {
            assert(d0 + Seq::<Sel>::empty() =~= d0);
            assert(seen0 + sel_codes(Seq::<Sel>::empty()) =~= seen0);
        }
        return true;
    }
    proof {
        reveal_strlit("list");
        assert("list"@ =~= list_key());
    }
    let row_list: &Vec<Json> = match page.get("list") {
        Some(Json::Array(a)) => a,
        _ => {
            proof {
                assert(rows =~= Seq::<Json>::empty());
                assert(ff =~= Seq::<Sel>::empty());
                assert(d0 + Seq::<Sel>::empty() =~= d0);
                assert(seen0 + sel_codes(Seq::<Sel>::empty()) =~= seen0);
            }
            return false;
        },
    };
    assert(row_list@ == rows);
    let mut i: usize = 0;
    proof {
        assert(rows.take(0) =~= Seq::<Json>::empty());
        assert(d0 + Seq::<Sel>::empty() =~= d0);
        assert(seen0 + sel_codes(Seq::<Sel>::empty()) =~= seen0);
    }
    while i < row_list.len()
        invariant
            i <= row_list@.len(),
            row_list@ == rows,
            rows == rows_spec(*page),
            d0 == sels(old(out)@),
            n0 == d0.len(),
            n0 < limit,
            seen0 == old(seen_codes)@.map_values(|c: Vec<char>| c@),
            cands == row_candidates(rows, market@, query@, query_lower@),
            ff == fresh_unique(seen0, cands),
            out@.len() < limit,
            sels(out@) == d0 + fresh_unique(
                seen0,
                row_candidates(rows.take(i as int), market@, query@, query_lower@),
            ),
            seen_codes@.map_values(|c: Vec<char>| c@) == seen0 + sel_codes(
                fresh_unique(seen0, row_candidates(rows.take(i as int), market@, query@, query_lower@)),
            ),
        decreases row_list@.len() - i,
    {
        let row = &row_list[i];
        let ghost prev_cands = row_candidates(rows.take(i as int), market@, query@, query_lower@);
        let ghost fi = fresh_unique(seen0, prev_cands);
        proof {
            assert(rows.take(i + 1).drop_last() =~= rows.take(i as int));
            assert(rows.take(i + 1).last() == rows[i as int]);
        }
        match candidate(row, market, query, query_lower) {
            Some((code, sel)) => {
                proof {
                    assert(row_candidates(rows.take(i + 1), market@, query@, query_lower@)
                        == prev_cands.push(sel@));
                    assert(prev_cands.push(sel@).drop_last() =~= prev_cands);
                    lemma_contains_add(seen0, sel_codes(fi), code@);
                }
                if !codes_contain(seen_codes, &code) {
                    let ghost so = seen_codes@;
                    let ghost oo = out@;
                    seen_codes.push(code);
                    out.push(sel);
                    proof {
                        let fn1 = fi.push(sel@);
                        assert(fresh_unique(seen0, prev_cands.push(sel@)) == fn1);
                        assert(sels(out@) =~= sels(oo).push(sel@));
                        assert(sels(out@) =~= d0 + fn1);
                        assert(sel_codes(fn1) =~= sel_codes(fi).push(sel@.0));
                        assert(seen_codes@.map_values(|c: Vec<char>| c@) =~= so.map_values(
                            |c: Vec<char>| c@,
                        ).push(sel@.0));
                        assert(seen_codes@.map_values(|c: Vec<char>| c@) =~= seen0 + sel_codes(fn1));
                    }
                    if out.len() >= limit {
                        proof {
                            let fn1 = fi.push(sel@);
                            let ct = row_candidates(rows.take(i + 1), market@, query@, query_lower@);
                            let cs = row_candidates(rows.skip(i + 1), market@, query@, query_lower@);
                            assert(rows =~= rows.take(i + 1) + rows.skip(i + 1));
                            lemma_row_candidates_append(
                                rows.take(i + 1),
                                rows.skip(i + 1),
                                market@,
                                query@,
                                query_lower@,
                            );
                            assert(cands == ct + cs);
                            lemma_fresh_prefix(seen0, ct, cs);
                            assert(fn1.len() == limit - n0);
                            let t = taken(ff, n0, limit as int);
                            if ff.len() > limit - n0 {
                                assert(t == ff.take(limit - n0));
                                assert(t =~= fn1);
                            } else {
                                assert(ff.subrange(0, fn1.len() as int) =~= ff);
                                assert(t == fn1);
                            }
                        }
                        return true;
                    }
                } else {
                    proof {
                        assert(fresh_unique(seen0, prev_cands.push(sel@)) == fi);
                    }
                }
            },
            None => {
                proof {
                    assert(row_candidates(rows.take(i + 1), market@, query@, query_lower@)
                        == prev_cands);
                }
            },
        }
        i = i + 1;
    }
    proof {
        assert(rows.take(rows.len() as int) =~= rows);
    }
    false
}

proof fn lemma_row_candidates_append(
    a: Seq<Json>,
    b: Seq<Json>,
    market: Seq<char>,
    q: Seq<char>,
    ql: Seq<char>,
)
    ensures
        row_candidates(a + b, market, q, ql) == row_candidates(a, market, q, ql) + row_candidates(
            b,
            market,
            q,
            ql,
        ),
    decreases b.len(),
{
    if b.len() == 0 {
        assert(a + b =~= a);
        assert(row_candidates(a, market, q, ql) + Seq::<Sel>::empty() =~= row_candidates(
            a,
            market,
            q,
            ql,
        ));
    } else {
        lemma_row_candidates_append(a, b.drop_last(), market, q, ql);
        assert((a + b).drop_last() =~= a + b.drop_last());
        assert((a + b).last() == b.last());
        let pa = row_candidates(a, market, q, ql);
        let pb = row_candidates(b.drop_last(), market, q, ql);
        match candidate_spec(b.last(), market, q, ql) {
            Some(c) => {
                assert((pa + pb).push(c) =~= pa + pb.push(c));
            },
            None => {},
        }
    }
}

proof fn lemma_at_most_extend_ge(p: Seq<Sel>, rest: Seq<Sel>, limit: nat)
    requires
        p.len() >= limit,
    ensures
        at_most(extend_unique(p, rest), limit) == at_most(p, limit),
{
    lemma_extend_prefix(p, rest);
    let e = extend_unique(p, rest);
    if e.len() > limit {
        assert(e.take(limit as int) =~= p.take(limit as int));
        if p.len() == limit {
            assert(p.take(limit as int) =~= p);
        }
    } else {
        assert(e =~= p);
    }
}

proof fn lemma_page_candidates_append(
    a: Seq<Json>,
    b: Seq<Json>,
    market: Seq<char>,
    q: Seq<char>,
    ql: Seq<char>,
)
    ensures
        page_candidates(a + b, market, q, ql) == page_candidates(a, market, q, ql)
            + page_candidates(b, market, q, ql),
    decreases b.len(),
{
    if b.len() == 0 {
        assert(a + b =~= a);
        assert(page_candidates(a, market, q, ql) + Seq::<Sel>::empty() =~= page_candidates(
            a,
            market,
            q,
            ql,
        ));
    } else {
        lemma_page_candidates_append(a, b.drop_last(), market, q, ql);
        assert((a + b).drop_last() =~= a + b.drop_last());
        assert((a + b).last() == b.last());
        let pa = page_candidates(a, market, q, ql);
        let pb = page_candidates(b.drop_last(), market, q, ql);
        let r = row_candidates(rows_spec(b.last()), market, q, ql);
        assert((pa + pb) + r =~= pa + (pb + r));
    }
}

/// Scans `pages` of one market, adding new matches to `out` until it holds `limit`;
/// returns whether it did.
fn collect_from_pages(
    pages: &Vec<Json>,
    market: &str,
    q: &Vec<char>,
    ql: &Vec<char>,
    seen: &mut Vec<Vec<char>>,
    out: &mut Vec<TickerSelection>,
    limit: usize,
) -> (full: bool)
    requires
        old(out)@.len() < limit,
        old(seen)@.map_values(|c: Vec<char>| c@) == sel_codes(sels(old(out)@)),
    ensures
        final(seen)@.map_values(|c: Vec<char>| c@) == sel_codes(sels(final(out)@)),
        full == (final(out)@.len() == limit),
        final(out)@.len() <= limit,
        ({
            let e = extend_unique(sels(old(out)@), page_candidates(pages@, market@, q@, ql@));
            &&& full ==> sels(final(out)@) == at_most(e, limit as nat)
            &&& !full ==> sels(final(out)@) == e
        }),
{
    let ghost d0 = sels(out@);
    let mut p: usize = 0;
    assert(pages@.take(0) =~= Seq::<Json>::empty());
    assert(extend_unique(d0, Seq::<Sel>::empty()) == d0);
    while p < pages.len()
        invariant
            p <= pages@.len(),
            d0 == sels(old(out)@),
            out@.len() < limit,
            seen@.map_values(|c: Vec<char>| c@) == sel_codes(sels(out@)),
            sels(out@) == extend_unique(d0, page_candidates(pages@.take(p as int), market@, q@, ql@)),
        decreases pages@.len() - p,
    {
        let ghost before = page_candidates(pages@.take(p as int), market@, q@, ql@);
        let ghost rc = row_candidates(rows_spec(pages@[p as int]), market@, q@, ql@);
        proof {
            assert(pages@.take(p + 1).drop_last() =~= pages@.take(p as int));
            assert(pages@.take(p + 1).last() == pages@[p as int]);
            assert(page_candidates(pages@.take(p + 1), market@, q@, ql@) == before + rc);
            lemma_extend_append(d0, before, rc);
        }
        let ghost dp = sels(out@);
        let full = collect_from_list_page(&pages[p], market, q, ql, seen, out, limit);
        proof {
            let f = fresh_unique(sel_codes(dp), rc);
            let t = taken(f, dp.len() as int, limit as int);
            lemma_step_as_extension(dp, rc, limit as nat, sels(out@), full);
            lemma_sel_codes_add(dp, t);
        }
        if full {
            proof {
                let rest = page_candidates(pages@.skip(p + 1), market@, q@, ql@);
                assert(pages@ =~= pages@.take(p + 1) + pages@.skip(p + 1));
                lemma_page_candidates_append(pages@.take(p + 1), pages@.skip(p + 1), market@, q@, ql@);
                lemma_extend_append(d0, before + rc, rest);
                let e = extend_unique(extend_unique(d0, before), rc);
                assert(at_most(e, limit as nat).len() == limit);
                lemma_at_most_extend_ge(e, rest, limit as nat);
            }
            return true;
        }
        p = p + 1;
    }
    assert(pages@.take(pages@.len() as int) =~= pages@);
    false
}

/// The ticker search: up to `limit` stocks whose code starts with the trimmed
/// query or whose lower-cased name contains the lower-cased query, KOSPI pages
/// first, each code once.
pub fn collect_ticker_matches(master: &MasterData, query: &str, limit: usize) -> (r: Vec<TickerSelection>)
    ensures
        sels(r@) == ticker_matches_spec(
            master.kospi_pages@,
            master.kosdaq_pages@,
            query@,
            limit as nat,
        ),
{
    let mut out: Vec<TickerSelection> = Vec::new();
    if limit == 0 {
        assert(sels(out@) =~= Seq::<Sel>::empty());
        return out;
    }
    let q = trimmed_chars(query);
    if q.len() == 0 {
        assert(sels(out@) =~= Seq::<Sel>::empty());
        return out;
    }
    let q_string = chars_to_string(&q);
    let ql = str_chars(to_lowercase(q_string.as_str()).as_str());
    let mut seen: Vec<Vec<char>> = Vec::new();
    proof {
        reveal_strlit("KOSPI");
        reveal_strlit("KOSDAQ");
        assert("KOSPI"@ =~= kospi_label());
        assert("KOSDAQ"@ =~= kosdaq_label());
        assert(sels(out@) =~= Seq::<Sel>::empty());
        assert(seen@.map_values(|c: Vec<char>| c@) =~= Seq::<Seq<char>>::empty());
        assert(sel_codes(sels(out@)) =~= Seq::<Seq<char>>::empty());
    }
    let ghost a = page_candidates(master.kospi_pages@, kospi_label(), q@, ql@);
    let ghost b = page_candidates(master.kosdaq_pages@, kosdaq_label(), q@, ql@);
    proof {
        lemma_extend_append(Seq::<Sel>::empty(), a, b);
    }
    if collect_from_pages(&master.kospi_pages, "KOSPI", &q, &ql, &mut seen, &mut out, limit) {
        proof {
            let e = extend_unique(Seq::<Sel>::empty(), a);
            assert(at_most(e, limit as nat).len() == limit);
            lemma_at_most_extend_ge(e, b, limit as nat);
        }
        return out;
    }
    if collect_from_pages(&master.kosdaq_pages, "KOSDAQ", &q, &ql, &mut seen, &mut out, limit) {
        return out;
    }
    out
}

} // verus!
