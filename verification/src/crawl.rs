//! The crawl of the portal's service pages: which pages to fetch, where each is saved, and
//! how a failed fetch is recorded. Fetching and saving are left to the caller.

use vstd::prelude::*;
use crate::gateway::{decimal, decimal_chars};
use crate::text::{chars_of, string_from_chars, string_views};

verus! {

/// A page that could not be saved.
#[derive(Debug, Clone)]
pub struct CrawlFailure {
    pub list_id: String,
    pub status: Option<u16>,
    pub error: String,
}

/// What went wrong with a page.
#[derive(Debug, Clone)]
pub enum CrawlError {
    /// The request failed, with the error's text.
    Request(String),
    /// The portal answered with a status other than 200, and the status's reason phrase.
    Status(u16, Option<String>),
    /// The body of a 200 answer could not be read, with the error's text.
    Body(String),
    /// The page could not be written, with the error's text.
    Write(String),
}

/// The status of an answer that was fetched: none when the request failed.
pub open spec fn failure_status(err: CrawlError) -> Option<u16> {
    match err {
        CrawlError::Request(_) => None,
        CrawlError::Status(s, _) => Some(s),
        _ => Some(200),
    }
}

/// The message recorded for a failure: the step that failed and the error's text, or the
/// status and its reason phrase.
pub open spec fn failure_message(err: CrawlError) -> Seq<char> {
    match err {
        CrawlError::Request(e) => "request error: "@ + e@,
        CrawlError::Status(s, reason) => decimal(s as nat) + " "@ + match reason {
            Some(r) => r@,
            None => Seq::empty(),
        },
        CrawlError::Body(e) => "body read error: "@ + e@,
        CrawlError::Write(e) => "write error: "@ + e@,
    }
}

fn joined(a: &str, b: &str) -> (r: String)
    ensures
        r@ == a@ + b@,
{
    let mut v = chars_of(a);
    let mut w = chars_of(b);
    v.append(&mut w);
    string_from_chars(v.as_slice())
}

/// Record the failure of page `list_id`. Only a 200 answer is saved, so a `Status` error
/// comes with any other status.
pub fn crawl_failure(list_id: &str, err: CrawlError) -> (r: CrawlFailure)
    ensures
        r.list_id@ == list_id@,
        r.status == failure_status(err),
        r.error@ == failure_message(err),
{
    let ghost ev = err;
    let (status, error) = match err {
        CrawlError::Request(e) => (None, joined("request error: ", e.as_str())),
        CrawlError::Status(s, reason) => {
            let mut v = decimal_chars(s as u64);
            v.push(' ');
            let mut r = match &reason {
                Some(x) => chars_of(x.as_str()),
                None => Vec::new(),
            };
            v.append(&mut r);
            proof {
                reveal_strlit(" ");
            }
            (Some(s), string_from_chars(v.as_slice()))
        },
        CrawlError::Body(e) => (Some(200u16), joined("body read error: ", e.as_str())),
        CrawlError::Write(e) => (Some(200u16), joined("write error: ", e.as_str())),
    };
    assert(error@ =~= failure_message(ev));
    CrawlFailure { list_id: list_id.to_owned(), status, error }
}

/// Whether an answer's page is saved: only a 200 answer is.
pub fn page_is_saved(status: u16) -> (r: bool)
    ensures
        r == (status == 200),
{
    status == 200
}

/// The file name under which a page is saved.
pub fn page_file_name(list_id: &str) -> (r: String)
    ensures
        r@ == list_id@ + ".html"@,
{
    joined(list_id, ".html")
}

/// The ids still to crawl: those not among the pages already saved (`existing`), in order.
pub open spec fn remaining_ids(all: Seq<Seq<char>>, existing: Seq<Seq<char>>) -> Seq<Seq<char>> {
    all.filter(|id: Seq<char>| !existing.contains(id))
}

fn is_listed(v: &[String], s: &String) -> (r: bool)
    ensures
        r == string_views(v@).contains(s@),
{
    let mut i: usize = 0;
    while i < v.len()
        invariant
            i <= v@.len(),
            forall|k: int| 0 <= k < i ==> #[trigger] v@[k]@ != s@,
        decreases v@.len() - i,
    {
        if v[i] == *s {
            assert(string_views(v@)[i as int] == s@);
            return true;
        }
        i = i + 1;
    }
    assert forall|k: int| 0 <= k < string_views(v@).len() implies string_views(v@)[k] != s@ by {
        assert(string_views(v@)[k] == v@[k]@);
    }
    false
}

/// Leave out the pages already saved (a resumed crawl).
pub fn ids_to_crawl(all_ids: &[String], existing: &[String]) -> (r: Vec<String>)
    ensures
        string_views(r@) == remaining_ids(string_views(all_ids@), string_views(existing@)),
{
    let ghost av = string_views(all_ids@);
    let ghost ev = string_views(existing@);
    let mut out: Vec<String> = Vec::new();
    let mut i: usize = 0;
    assert(av.take(0) =~= Seq::<Seq<char>>::empty());
    while i < all_ids.len()
        invariant
            i <= all_ids@.len(),
            av == string_views(all_ids@),
            ev == string_views(existing@),
            string_views(out@) == remaining_ids(av.take(i as int), ev),
        decreases all_ids@.len() - i,
    {
        let ghost t = av.take(i + 1);
        assert(t.drop_last() =~= av.take(i as int));
        assert(t.last() == all_ids@[i as int]@);
        proof {
            reveal(Seq::filter);
        }
        if !is_listed(existing, &all_ids[i]) {
            let ghost before = string_views(out@);
            out.push(all_ids[i].clone());
            assert(string_views(out@) =~= before.push(all_ids@[i as int]@));
        }
        i = i + 1;
    }
    assert(av.take(all_ids@.len() as int) =~= av);
    out
}

} // verus!
