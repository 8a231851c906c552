//! The older single-page scraper: the first result page of a search only.

use vstd::prelude::*;
use crate::r34::{links_in_page, page_links, search_url, spec_search_url};

verus! {

/// The address of the first result page for `keywords`.
pub fn first_page_url(keywords: &str) -> (url: String)
    ensures
        url@ == spec_search_url(keywords@, 1),
{
    search_url(keywords, 1)
}

/// The direct links on the first result page, whose body is `html`; the caller
/// has already insisted that the answer was a success. `None` where an anchor
/// in the image list has no `href`.
pub fn fetch_direct_links(html: &str) -> (links: Option<Vec<String>>)
    ensures
        links.deep_view() == page_links(html@),
{
    links_in_page(html)
}

} // verus!
