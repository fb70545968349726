//! Which page of issues to ask for next.

use vstd::prelude::*;

verus! {

/// A request for one page of issues.
#[derive(Debug, Clone)]
pub struct PageRequest {
    /// The number of the page, counted from 1.
    pub page: usize,
    /// The cursor after which the page starts; none for the first page.
    pub after: Option<String>,
}

/// The first request of a run that may ask for `pages` pages: for page 1,
/// from the start; none where no page may be asked for.
pub fn first_request(pages: usize) -> (request: Option<PageRequest>)
    ensures
        request is Some <==> pages >= 1,
        request matches Some(r) ==> r.page == 1 && r.after is None,
{
    if pages >= 1 {
        Some(PageRequest { page: 1, after: None })
    } else {
        None
    }
}

/// The request that follows `request`, whose answer said whether a page
/// follows (`has_next_page`) and where its own page ended (`end_cursor`):
/// for the next page, after that cursor; none where no page follows or
/// `pages` pages were asked for.
pub fn next_request(
    pages: usize,
    request: &PageRequest,
    has_next_page: bool,
    end_cursor: Option<String>,
) -> (next: Option<PageRequest>)
    ensures
        next is Some <==> has_next_page && request.page < pages,
        next matches Some(r) ==> r.page == request.page + 1 && r.after == end_cursor,
{
    if has_next_page && request.page < pages {
        Some(PageRequest { page: request.page + 1, after: end_cursor })
    } else {
        None
    }
}

} // verus!
