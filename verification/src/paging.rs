//! Paging through the stock master list: a page says whether another follows
//! (`cont-yn`) and where it starts (`next-key`), and the next request carries
//! both back.
use vstd::prelude::*;
use crate::json::Json;
use crate::kiwoom::{opt_view, MasterStockPage};
use crate::text::{trim_spec, trimmed_chars};

verus! {

/// Whether a `cont-yn` header asks for another page: it reads `Y` or `y` once
/// trimmed.
pub open spec fn should_continue_spec(cont_yn: Option<Seq<char>>) -> bool {
    match cont_yn {
        Some(v) => trim_spec(v) == seq!['Y'] || trim_spec(v) == seq!['y'],
        None => false,
    }
}

/// The characters of an optional string slice.
pub open spec fn opt_str_view(s: Option<&str>) -> Option<Seq<char>> {
    match s {
        Some(v) => Some(v@),
        None => None,
    }
}

/// Whether a `cont-yn` header asks for another page.
pub fn should_continue(cont_yn: Option<&str>) -> (b: bool)
    ensures
        b == should_continue_spec(opt_str_view(cont_yn)),
{
    match cont_yn {
        None => false,
        Some(v) => {
            let t = trimmed_chars(v);
            let r = t.len() == 1 && (t[0] == 'Y' || t[0] == 'y');
            proof {
                if t@.len() == 1 {
                    if t@[0] == 'Y' {
                        assert(t@ =~= seq!['Y']);
                    }
                    if t@[0] == 'y' {
                        assert(t@ =~= seq!['y']);
                    }
                }
                if t@ == seq!['Y'] {
                    assert(t@[0] == 'Y');
                }
                if t@ == seq!['y'] {
                    assert(t@[0] == 'y');
                }
            }
            r
        },
    }
}

/// The pages of one master-list download so far, and the paging headers for the
/// next request.
pub struct MasterPaging {
    pages: Vec<Json>,
    cont_yn: Option<String>,
    next_key: Option<String>,
}

impl MasterPaging {
    pub closed spec fn pages_view(&self) -> Seq<Json> {
        self.pages@
    }

    pub closed spec fn cont_view(&self) -> Option<Seq<char>> {
        opt_view(self.cont_yn)
    }

    pub closed spec fn next_view(&self) -> Option<Seq<char>> {
        opt_view(self.next_key)
    }

    /// A download that has fetched nothing; the first request carries no headers.
    pub fn new() -> (p: MasterPaging)
        ensures
            p.pages_view() == Seq::<Json>::empty(),
            p.cont_view() is None,
            p.next_view() is None,
    {
        let p = MasterPaging { pages: Vec::new(), cont_yn: None, next_key: None };
        assert(p.pages@ =~= Seq::<Json>::empty());
        p
    }

    /// The `cont-yn` header for the next request.
    pub fn cont_yn(&self) -> (r: Option<&str>)
        ensures
            opt_str_view(r) == self.cont_view(),
    {
        match &self.cont_yn {
            Some(s) => Some(s.as_str()),
            None => None,
        }
    }

    /// The `next-key` header for the next request.
    pub fn next_key(&self) -> (r: Option<&str>)
        ensures
            opt_str_view(r) == self.next_view(),
    {
        match &self.next_key {
            Some(s) => Some(s.as_str()),
            None => None,
        }
    }

    /// How many pages have been fetched.
    pub fn page_count(&self) -> (n: usize)
        ensures
            n == self.pages_view().len(),
    {
        self.pages.len()
    }

    /// Takes in a fetched page and says whether another must be fetched: when the
    /// page's `cont-yn` asks for one and it gave a `next-key`. The next request
    /// then carries this page's headers.
    pub fn accept_page(&mut self, page: MasterStockPage) -> (more: bool)
        ensures
            final(self).pages_view() == old(self).pages_view().push(page.body),
            more == (should_continue_spec(opt_view(page.cont_yn)) && page.next_key is Some),
            more ==> final(self).cont_view() == opt_view(page.cont_yn) && final(self).next_view()
                == opt_view(page.next_key),
            !more ==> final(self).cont_view() == old(self).cont_view() && final(self).next_view()
                == old(self).next_view(),
    {
        let MasterStockPage { body, cont_yn, next_key } = page;
        self.pages.push(body);
        let more = match &cont_yn {
            Some(c) => should_continue(Some(c.as_str())),
            None => should_continue(None),
        } && next_key.is_some();
        if more {
            self.cont_yn = cont_yn;
            self.next_key = next_key;
        }
        more
    }

    /// The fetched pages, in order.
    pub fn into_pages(self) -> (pages: Vec<Json>)
        ensures
            pages@ == self.pages_view(),
    {
        self.pages
    }
}

} // verus!
