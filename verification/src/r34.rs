//! Image search: the search address, the links a result page yields, and the
//! gallery that a user pages through with reactions.

use vstd::prelude::*;
use select::document::Document;
use select::predicate::{Class, Name};
use crate::text::{chars_of, contains_infix, decimal, has_infix, push_decimal, push_str, same_text};

verus! {

/// Reply when the search command comes without keywords.
pub const ARGS_REQUIRED: &'static str = "Arguments required for >r34";

/// Reply when a search finds nothing.
pub const NO_RESULTS: &'static str = "No results found for keywords(s)";

/// Reply to a reaction that the gallery does not know.
pub const UNKNOWN_REACTION: &'static str = "I'll cut you if you do that again.";

/// Front part of every search address.
pub const SEARCH_PREFIX: &'static str = "https://rule34.paheal.net/post/list/";

/// The page that a new search shows first.
pub const FIRST_PAGE: u32 = 1;

/// The highest page that paging up reaches before it wraps to the first.
pub const LAST_PAGE: u32 = 5;

/// The page count shown in the footer.
pub const SHOWN_PAGE_COUNT: u64 = 10;

/// Separator between the image and page counters in the footer.
pub const FOOTER_GAP: &'static str = "             Page ";

/// The search address for `keywords` and `page`.
pub open spec fn spec_search_url(keywords: Seq<char>, page: nat) -> Seq<char> {
    SEARCH_PREFIX@ + keywords + "/"@ + decimal(page)
}

/// Builds the address of result page `page` for `keywords`.
pub fn search_url(keywords: &str, page: u32) -> (url: String)
    ensures
        url@ == spec_search_url(keywords@, page as nat),
{
    let mut url = String::new();
    push_str(&mut url, SEARCH_PREFIX);
    push_str(&mut url, keywords);
    push_str(&mut url, "/");
    push_decimal(&mut url, page as u64);
    assert(url@ =~= spec_search_url(keywords@, page as nat));
    url
}

/// What the page `html` holds as the `href` of each anchor inside an element
/// of class `shm-image-list`, in document order (`None` for an anchor without one).
pub uninterp spec fn image_list_hrefs(html: Seq<char>) -> Seq<Option<Seq<char>>>;

/// Parses `html` with `select::document::Document::from` and collects, for every
/// node matched by `Class("shm-image-list")` and every node below it matched by
/// `Name("a")`, the result of `attr("href")`. The contract claims only that the
/// result is `image_list_hrefs` of the text, a function of the text alone.
#[verifier::external_body]
fn scan_image_list(html: &str) -> (hrefs: Vec<Option<String>>)
    ensures
        hrefs.deep_view() == image_list_hrefs(html@),
{
    let document = Document::from(html);
    let mut hrefs = Vec::new();
    for list in document.find(Class("shm-image-list")) {
        for anchor in list.find(Name("a")) {
            hrefs.push(anchor.attr("href").map(String::from));
        }
    }
    hrefs
}

/// The address marker that a direct link carries.
pub open spec fn secure_marker() -> Seq<char> {
    "https"@
}

/// The links among `hrefs` that contain `"https"`, in order.
pub open spec fn https_only(hrefs: Seq<Seq<char>>) -> Seq<Seq<char>>
    decreases hrefs.len(),
{
    if hrefs.len() == 0 {
        hrefs
    } else if has_infix(hrefs.last(), secure_marker()) {
        https_only(hrefs.drop_last()).push(hrefs.last())
    } else {
        https_only(hrefs.drop_last())
    }
}

/// Every anchor found carries an `href`.
pub open spec fn all_present(hrefs: Seq<Option<Seq<char>>>) -> bool {
    forall|i: int| 0 <= i < hrefs.len() ==> (#[trigger] hrefs[i]) is Some
}

/// The `href` values themselves.
pub open spec fn unwrap_all(hrefs: Seq<Option<Seq<char>>>) -> Seq<Seq<char>> {
    hrefs.map_values(|h: Option<Seq<char>>| h.unwrap())
}

/// Keeps the `href` values that contain `"https"`, in order.
pub fn https_links(hrefs: &Vec<Option<String>>) -> (links: Vec<String>)
    requires
        all_present(hrefs.deep_view()),
    ensures
        links.deep_view() == https_only(unwrap_all(hrefs.deep_view())),
{
    let marker = chars_of("https");
    let ghost all = unwrap_all(hrefs.deep_view());
    let mut links: Vec<String> = Vec::new();
    let mut i: usize = 0;
    while i < hrefs.len()
        invariant
            i <= hrefs.len(),
            marker@ == secure_marker(),
            all == unwrap_all(hrefs.deep_view()),
            all_present(hrefs.deep_view()),
            links.deep_view() == https_only(all.take(i as int)),
        decreases hrefs.len() - i,
    {
        assert(hrefs.deep_view()[i as int] is Some);
        let link = match &hrefs[i] {
            Some(h) => h,
            None => { return links; },
        };
        assert(all[i as int] == link@);
        assert(all.take(i as int) == all.take(i + 1).drop_last());
        let chars = chars_of(link.as_str());
        if contains_infix(&chars, &marker) {
            links.push(link.clone());
            assert(links.deep_view() =~= https_only(all.take(i as int)).push(link@));
        }
        i = i + 1;
    }
    assert(all.take(hrefs.len() as int) == all);
    links
}

/// Filtering keeps exactly the links that contain `"https"`: every link kept
/// contains it and is one of the `href` values, and every `href` value that
/// contains it is kept.
pub proof fn lemma_https_only(hrefs: Seq<Seq<char>>)
    ensures
        https_only(hrefs).len() <= hrefs.len(),
        forall|i: int| 0 <= i < https_only(hrefs).len() ==> {
            &&& has_infix(#[trigger] https_only(hrefs)[i], secure_marker())
            &&& hrefs.contains(https_only(hrefs)[i])
        },
        forall|j: int| 0 <= j < hrefs.len() && has_infix(#[trigger] hrefs[j], secure_marker())
            ==> https_only(hrefs).contains(hrefs[j]),
    decreases hrefs.len(),
{
    if hrefs.len() > 0 {
        let prefix = hrefs.drop_last();
        lemma_https_only(prefix);
        let kept = https_only(hrefs);
        let pkept = https_only(prefix);
        assert forall|i: int| 0 <= i < kept.len() implies {
            &&& has_infix(#[trigger] kept[i], secure_marker())
            &&& hrefs.contains(kept[i])
        } by {
            if i < pkept.len() {
                assert(kept[i] == pkept[i]);
                let k = choose|k: int| 0 <= k < prefix.len() && prefix[k] == pkept[i];
                assert(hrefs[k] == prefix[k]);
            } else {
                assert(kept[i] == hrefs[hrefs.len() - 1]);
            }
        }
        assert forall|j: int| 0 <= j < hrefs.len() && has_infix(#[trigger] hrefs[j], secure_marker())
            implies kept.contains(hrefs[j]) by {
            if j < hrefs.len() - 1 {
                assert(prefix[j] == hrefs[j]);
                assert(pkept.contains(prefix[j]));
                let k = choose|k: int| 0 <= k < pkept.len() && pkept[k] == prefix[j];
                assert(kept[k] == pkept[k]);
            } else {
                assert(kept[kept.len() - 1] == hrefs[j]);
            }
        }
    }
}

/// The direct links on a result page: `None` where some anchor in the image
/// list has no `href`, else those of its `href` values that contain `"https"`.
pub open spec fn page_links(html: Seq<char>) -> Option<Seq<Seq<char>>> {
    if all_present(image_list_hrefs(html)) {
        Some(https_only(unwrap_all(image_list_hrefs(html))))
    } else {
        None
    }
}

/// The direct links on the result page `html`; see `page_links`.
pub fn links_in_page(html: &str) -> (links: Option<Vec<String>>)
    ensures
        links.deep_view() == page_links(html@),
{
    let hrefs = scan_image_list(html);
    let mut i: usize = 0;
    while i < hrefs.len()
        invariant
            i <= hrefs.len(),
            hrefs.deep_view() == image_list_hrefs(html@),
            forall|k: int| 0 <= k < i ==> (#[trigger] hrefs.deep_view()[k]) is Some,
        decreases hrefs.len() - i,
    {
        if hrefs[i].is_none() {
            assert(hrefs.deep_view()[i as int] is None);
            assert(image_list_hrefs(html@)[i as int] is None);
            return None;
        }
        i = i + 1;
    }
    Some(https_links(&hrefs))
}

/// The links that a search answered with `status_ok` and body `html` yields:
/// none when the status was not a success, else `links_in_page` of the body
/// (`None` where the page holds an anchor without `href`).
pub fn fetch_direct_links(status_ok: bool, html: &str) -> (links: Option<Vec<String>>)
    ensures
        !status_ok ==> (links matches Some(v) && v@.len() == 0),
        status_ok ==> links.deep_view() == page_links(html@),
{
    if !status_ok {
        return Some(Vec::new());
    }
    links_in_page(html)
}

} // verus!

verus! {

/// A reaction that a user puts on the gallery message.
#[derive(Clone, Copy, PartialEq, Eq, Structural, Debug)]
pub enum Reaction {
    /// The left arrow: the image before.
    Previous,
    /// The right arrow: the image after.
    Next,
    /// The down arrow: the page before.
    PageDown,
    /// The up arrow: the page after.
    PageUp,
    /// Anything else.
    Other,
}

/// The reaction that an emoji stands for.
pub open spec fn spec_reaction_for(emoji: Seq<char>) -> Reaction {
    if emoji == "◀"@ {
        Reaction::Previous
    } else if emoji == "▶"@ {
        Reaction::Next
    } else if emoji == "🔽"@ {
        Reaction::PageDown
    } else if emoji == "🔼"@ {
        Reaction::PageUp
    } else {
        Reaction::Other
    }
}

/// Reads an emoji as a gallery reaction.
pub fn reaction_for(emoji: &str) -> (r: Reaction)
    ensures
        r == spec_reaction_for(emoji@),
{
    if same_text(emoji, "◀") {
        Reaction::Previous
    } else if same_text(emoji, "▶") {
        Reaction::Next
    } else if same_text(emoji, "🔽") {
        Reaction::PageDown
    } else if same_text(emoji, "🔼") {
        Reaction::PageUp
    } else {
        Reaction::Other
    }
}

/// The rich message that shows one image of a gallery.
pub struct Embed {
    pub title: String,
    pub image: String,
    pub color: (u8, u8, u8),
    pub footer: String,
}

/// The colour of the gallery message.
pub open spec fn embed_color() -> (u8, u8, u8) {
    (150u8, 235u8, 252u8)
}

/// The title of the gallery message for `keywords`.
pub open spec fn embed_title(keywords: Seq<char>) -> Seq<char> {
    "R34: "@ + keywords
}

/// The footer: which image of how many, and which page.
pub open spec fn embed_footer(current: nat, count: nat, page: nat) -> Seq<char> {
    "Image "@ + decimal(current + 1) + "/"@ + decimal(count) + FOOTER_GAP@ + decimal(page) + "/"@
        + decimal(SHOWN_PAGE_COUNT as nat)
}

/// The embed shows image `current` of `links` for `keywords`, on `page`.
pub open spec fn shows(e: Embed, keywords: Seq<char>, links: Seq<Seq<char>>, current: nat, page: nat) -> bool {
    &&& e.title@ == embed_title(keywords)
    &&& e.image@ == links[current as int]
    &&& e.color == embed_color()
    &&& e.footer@ == embed_footer(current, links.len(), page)
}

fn make_embed(keywords: &String, results: &Vec<String>, current: usize, page: u32) -> (e: Embed)
    requires
        current < results.len(),
    ensures
        shows(e, keywords@, results.deep_view(), current as nat, page as nat),
{
    let mut title = String::new();
    push_str(&mut title, "R34: ");
    push_str(&mut title, keywords.as_str());
    let mut footer = String::new();
    push_str(&mut footer, "Image ");
    push_decimal(&mut footer, (current + 1) as u64);
    push_str(&mut footer, "/");
    push_decimal(&mut footer, results.len() as u64);
    push_str(&mut footer, FOOTER_GAP);
    push_decimal(&mut footer, page as u64);
    push_str(&mut footer, "/");
    push_decimal(&mut footer, SHOWN_PAGE_COUNT);
    let e = Embed { title, image: results[current].clone(), color: (150u8, 235u8, 252u8), footer };
    assert(e.title@ =~= embed_title(keywords@));
    assert(e.footer@ =~= embed_footer(current as nat, results.deep_view().len(), page as nat));
    e
}

/// The image that the left arrow turns to.
pub open spec fn previous_index(current: nat, count: nat) -> nat {
    if current == 0 {
        (count - 1) as nat
    } else {
        ((current - 1) as nat) % ((count - 1) as nat)
    }
}

/// The image that the right arrow turns to.
pub open spec fn next_index(current: nat, count: nat) -> nat {
    (current + 1) % ((count - 1) as nat)
}

/// The page that the down arrow turns to.
pub open spec fn page_down(page: nat) -> nat {
    if page > 0 { (page - 1) as nat } else { page }
}

/// The page that the up arrow turns to.
pub open spec fn page_up(page: nat) -> nat {
    if page < LAST_PAGE { page + 1 } else { FIRST_PAGE as nat }
}

/// What the bot does after a reaction.
pub enum Action {
    /// Edit the gallery message to this embed.
    Show(Embed),
    /// Fetch the results of this page, then hand them to `Gallery::receive`.
    Fetch(u32),
    /// Answer with `UNKNOWN_REACTION`.
    Complain,
}

/// The state of a gallery being paged through: the search keywords, the page,
/// the results of that page and the image shown.
pub struct Gallery {
    keywords: String,
    page: u32,
    current: usize,
    results: Vec<String>,
}

impl Gallery {
    #[verifier::type_invariant]
    closed spec fn inv(self) -> bool {
        &&& self.current < self.results.len()
        &&& self.page <= LAST_PAGE
    }

    /// The search keywords.
    pub closed spec fn spec_keywords(self) -> Seq<char> {
        self.keywords@
    }

    /// The page shown.
    pub closed spec fn spec_page(self) -> nat {
        self.page as nat
    }

    /// The index of the image shown.
    pub closed spec fn spec_current(self) -> nat {
        self.current as nat
    }

    /// The links of the page shown.
    pub closed spec fn spec_links(self) -> Seq<Seq<char>> {
        self.results.deep_view()
    }

    /// The image shown is one of the links, and the page is at most `LAST_PAGE`.
    pub open spec fn well_formed(self) -> bool {
        &&& self.spec_current() < self.spec_links().len()
        &&& self.spec_page() <= LAST_PAGE
    }

    /// Starts a gallery on the first page of a search: `None` where the search
    /// found nothing, else the gallery on its first image and the embed that shows it.
    pub fn open(keywords: String, results: Vec<String>) -> (opened: Option<(Gallery, Embed)>)
        ensures
            opened is None <==> results.len() == 0,
            opened matches Some((g, e)) ==> {
                &&& g.well_formed()
                &&& g.spec_keywords() == keywords@
                &&& g.spec_page() == FIRST_PAGE
                &&& g.spec_current() == 0
                &&& g.spec_links() == results.deep_view()
                &&& shows(e, keywords@, results.deep_view(), 0, FIRST_PAGE as nat)
            },
    {
        if results.len() == 0 {
            return None;
        }
        let e = make_embed(&keywords, &results, 0, FIRST_PAGE);
        let g = Gallery { keywords, page: FIRST_PAGE, current: 0, results };
        Some((g, e))
    }

    /// The search keywords.
    pub fn keywords(&self) -> (k: &str)
        ensures
            k@ == self.spec_keywords(),
    {
        self.keywords.as_str()
    }

    /// The page shown.
    pub fn page(&self) -> (p: u32)
        ensures
            p == self.spec_page(),
    {
        self.page
    }

    /// The index of the image shown.
    pub fn current(&self) -> (c: usize)
        ensures
            c == self.spec_current(),
    {
        self.current
    }

    /// How many links the page shown has.
    pub fn link_count(&self) -> (n: usize)
        ensures
            n == self.spec_links().len(),
    {
        self.results.len()
    }

    /// The embed that shows the current image.
    pub fn embed(&self) -> (e: Embed)
        ensures
            self.well_formed(),
            shows(e, self.spec_keywords(), self.spec_links(), self.spec_current(), self.spec_page()),
    {
        proof {
            use_type_invariant(self);
        }
        make_embed(&self.keywords, &self.results, self.current, self.page)
    }

    /// Takes a reaction. The arrows left and right turn to another image and
    /// show it; the arrows down and up change the page, go back to the first
    /// image and ask for that page's results; any other reaction draws a complaint.
    pub fn react(&mut self, reaction: Reaction) -> (action: Action)
        requires
            reaction == Reaction::Next ==> old(self).spec_links().len() >= 2,
        ensures
            old(self).well_formed(),
            final(self).well_formed(),
            final(self).spec_keywords() == old(self).spec_keywords(),
            final(self).spec_links() == old(self).spec_links(),
            reaction == Reaction::Previous ==> {
                &&& final(self).spec_current() == previous_index(old(self).spec_current(), old(self).spec_links().len())
                &&& final(self).spec_page() == old(self).spec_page()
                &&& action matches Action::Show(e) && shows(e, final(self).spec_keywords(), final(self).spec_links(), final(self).spec_current(), final(self).spec_page())
            },
            reaction == Reaction::Next ==> {
                &&& final(self).spec_current() == next_index(old(self).spec_current(), old(self).spec_links().len())
                &&& final(self).spec_page() == old(self).spec_page()
                &&& action matches Action::Show(e) && shows(e, final(self).spec_keywords(), final(self).spec_links(), final(self).spec_current(), final(self).spec_page())
            },
            reaction == Reaction::PageDown ==> {
                &&& final(self).spec_page() == page_down(old(self).spec_page())
                &&& final(self).spec_current() == 0
                &&& action matches Action::Fetch(p) && p == final(self).spec_page()
            },
            reaction == Reaction::PageUp ==> {
                &&& final(self).spec_page() == page_up(old(self).spec_page())
                &&& final(self).spec_current() == 0
                &&& action matches Action::Fetch(p) && p == final(self).spec_page()
            },
            reaction == Reaction::Other ==> {
                &&& final(self).spec_page() == old(self).spec_page()
                &&& final(self).spec_current() == old(self).spec_current()
                &&& action is Complain
            },
            reaction == Reaction::Previous && old(self).spec_current() >= 1
                ==> final(self).spec_current() + 1 == old(self).spec_current(),
            reaction == Reaction::Previous && old(self).spec_current() == 0
                ==> final(self).spec_current() + 1 == old(self).spec_links().len(),
            reaction == Reaction::Next && old(self).spec_current() + 2 < old(self).spec_links().len()
                ==> final(self).spec_current() == old(self).spec_current() + 1,
            reaction == Reaction::Next && old(self).spec_current() + 2 == old(self).spec_links().len()
                ==> final(self).spec_current() == 0,
            reaction == Reaction::Next && old(self).spec_current() + 1 == old(self).spec_links().len()
                ==> final(self).spec_current() == if old(self).spec_links().len() >= 3 { 1nat } else { 0nat },
            reaction == Reaction::PageDown && old(self).spec_page() >= 1
                ==> final(self).spec_page() + 1 == old(self).spec_page(),
            reaction == Reaction::PageDown && old(self).spec_page() == 0 ==> final(self).spec_page() == 0,
            reaction == Reaction::PageUp && old(self).spec_page() < LAST_PAGE
                ==> final(self).spec_page() == old(self).spec_page() + 1,
            reaction == Reaction::PageUp && old(self).spec_page() == LAST_PAGE
                ==> final(self).spec_page() == FIRST_PAGE,
    {
        proof {
            use_type_invariant(&*self);
        }
        let action = match reaction {
            Reaction::Previous => {
                if self.current == 0 {
                    self.current = self.results.len() - 1;
                } else {
                    proof {
                        vstd::arithmetic::div_mod::lemma_small_mod(
                            (self.current - 1) as nat,
                            (self.results.len() - 1) as nat,
                        );
                    }
                    self.current = (self.current - 1) % (self.results.len() - 1);
                }
                Action::Show(make_embed(&self.keywords, &self.results, self.current, self.page))
            },
            Reaction::Next => {
                proof {
                    let c = self.current as nat;
                    let m = (self.results.len() - 1) as nat;
                    if c + 1 < m {
                        vstd::arithmetic::div_mod::lemma_small_mod(c + 1, m);
                    } else if c + 1 == m {
                        vstd::arithmetic::div_mod::lemma_mod_self_0(m as int);
                    } else if m >= 2 {
                        vstd::arithmetic::div_mod::lemma_mod_add_multiples_vanish(1, m as int);
                        vstd::arithmetic::div_mod::lemma_small_mod(1, m);
                    } else {
                        vstd::arithmetic::div_mod::lemma_mod_self_0(1);
                    }
                }
                self.current = (self.current + 1) % (self.results.len() - 1);
                Action::Show(make_embed(&self.keywords, &self.results, self.current, self.page))
            },
            Reaction::PageDown => {
                if self.page > 0 {
                    self.page = self.page - 1;
                }
                self.current = 0;
                Action::Fetch(self.page)
            },
            Reaction::PageUp => {
                if self.page < LAST_PAGE {
                    self.page = self.page + 1;
                } else {
                    self.page = FIRST_PAGE;
                }
                self.current = 0;
                Action::Fetch(self.page)
            },
            Reaction::Other => Action::Complain,
        };
        proof {
            use_type_invariant(&*self);
        }
        action
    }

    /// Takes the results of the page that `react` asked for and shows their first image.
    pub fn receive(&mut self, results: Vec<String>) -> (e: Embed)
        requires
            results.len() > 0,
        ensures
            final(self).well_formed(),
            final(self).spec_keywords() == old(self).spec_keywords(),
            final(self).spec_page() == old(self).spec_page(),
            final(self).spec_current() == 0,
            final(self).spec_links() == results.deep_view(),
            shows(e, final(self).spec_keywords(), final(self).spec_links(), 0, final(self).spec_page()),
    {
        proof {
            use_type_invariant(&*self);
        }
        self.current = 0;
        self.results = results;
        proof {
            use_type_invariant(&*self);
        }
        make_embed(&self.keywords, &self.results, 0, self.page)
    }
}

/// Turning left and then right comes back to the same image, for every image
/// but the first and the last.
pub proof fn lemma_next_undoes_previous(current: nat, count: nat)
    requires
        1 <= current,
        current + 1 < count,
    ensures
        next_index(previous_index(current, count), count) == current,
{
    assert(((current - 1) as nat) % ((count - 1) as nat) == current - 1) by {
        vstd::arithmetic::div_mod::lemma_small_mod((current - 1) as nat, (count - 1) as nat);
    }
    vstd::arithmetic::div_mod::lemma_small_mod(current, (count - 1) as nat);
}

/// Turning right and then left comes back to the same image, for every image
/// but the last two.
pub proof fn lemma_previous_undoes_next(current: nat, count: nat)
    requires
        current + 2 < count,
    ensures
        previous_index(next_index(current, count), count) == current,
{
    vstd::arithmetic::div_mod::lemma_small_mod(current + 1, (count - 1) as nat);
    vstd::arithmetic::div_mod::lemma_small_mod(current, (count - 1) as nat);
}

/// The left arrow steps back one image from every image but the first, the
/// last image included.
pub proof fn lemma_left_arrow_steps_back(current: nat, count: nat)
    requires
        1 <= current < count,
    ensures
        previous_index(current, count) + 1 == current,
{
    vstd::arithmetic::div_mod::lemma_small_mod((current - 1) as nat, (count - 1) as nat);
}

/// The down arrow steps back one page from every page from the first on, so
/// paging up from below the last page and then down returns to the same page.
pub proof fn lemma_down_arrow_steps_back(page: nat)
    requires
        1 <= page <= LAST_PAGE,
    ensures
        page_down(page) + 1 == page,
        page < LAST_PAGE ==> page_down(page_up(page)) == page,
{
}

/// Both arrows keep the image index inside the results.
pub proof fn lemma_turning_stays_inside(current: nat, count: nat)
    requires
        current < count,
    ensures
        previous_index(current, count) < count,
        count >= 2 ==> next_index(current, count) < count,
{
    if current > 0 {
        vstd::arithmetic::div_mod::lemma_mod_bound(((current - 1) as nat) as int, ((count - 1) as nat) as int);
    }
    if count >= 2 {
        vstd::arithmetic::div_mod::lemma_mod_bound((current + 1) as int, ((count - 1) as nat) as int);
    }
}

/// Paging up five times from any page between the first and the last comes
/// back to that page, and both arrows keep the page at most `LAST_PAGE`.
pub proof fn lemma_paging_cycles(page: nat)
    requires
        page <= LAST_PAGE,
    ensures
        page_down(page) <= LAST_PAGE,
        FIRST_PAGE <= page_up(page) <= LAST_PAGE,
        FIRST_PAGE <= page ==> page_up(page_up(page_up(page_up(page_up(page))))) == page,
{
}

} // verus!
