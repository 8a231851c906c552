use lisa::r34::{fetch_direct_links, links_in_page, reaction_for, search_url, Action, Embed, Gallery, Reaction};
use lisa::r_scrape;

const PAGE: &str = r#"<html><body>
<div class="other"><a href="https://elsewhere/0.png">x</a></div>
<div class="shm-image-list thumbs">
  <a href="https://img.example/1.png">one</a>
  <a href="/post/view/2">two</a>
  <span><a href="https://img.example/3.jpg">three</a></span>
</div>
</body></html>"#;

const BROKEN: &str = r#"<div class="shm-image-list"><a href="https://a/1.png">1</a><a name="x">2</a></div>"#;

fn links(n: usize) -> Vec<String> {
    (0..n).map(|i| format!("https://img/{}.png", i)).collect()
}

fn shown(e: &Embed, image: &str, footer: &str) {
    assert_eq!(e.title, "R34: cats");
    assert_eq!(e.image, image);
    assert_eq!(e.color, (150, 235, 252));
    assert_eq!(e.footer, footer);
}

#[test]
fn search_address() {
    assert_eq!(search_url("cats", 3), "https://rule34.paheal.net/post/list/cats/3");
    assert_eq!(r_scrape::first_page_url("dogs"), "https://rule34.paheal.net/post/list/dogs/1");
}

#[test]
fn links_of_a_result_page() {
    assert_eq!(
        links_in_page(PAGE),
        Some(vec!["https://img.example/1.png".to_string(), "https://img.example/3.jpg".to_string()])
    );
    assert_eq!(r_scrape::fetch_direct_links(PAGE), links_in_page(PAGE));
    assert_eq!(links_in_page("<p>nothing</p>"), Some(vec![]));
}

#[test]
fn anchor_without_href_gives_none() {
    assert_eq!(links_in_page(BROKEN), None);
    assert_eq!(r_scrape::fetch_direct_links(BROKEN), None);
}

#[test]
fn failed_answer_gives_no_links() {
    assert_eq!(fetch_direct_links(false, PAGE), Some(vec![]));
    assert_eq!(fetch_direct_links(true, PAGE), links_in_page(PAGE));
}

#[test]
fn reactions_from_emoji() {
    assert_eq!(reaction_for("◀"), Reaction::Previous);
    assert_eq!(reaction_for("▶"), Reaction::Next);
    assert_eq!(reaction_for("🔽"), Reaction::PageDown);
    assert_eq!(reaction_for("🔼"), Reaction::PageUp);
    assert_eq!(reaction_for("👍"), Reaction::Other);
}

#[test]
fn no_results_open_nothing() {
    assert!(Gallery::open("cats".to_string(), vec![]).is_none());
}

#[test]
fn opening_shows_the_first_image() {
    let (g, e) = Gallery::open("cats".to_string(), links(3)).unwrap();
    shown(&e, "https://img/0.png", "Image 1/3             Page 1/10");
    assert_eq!(g.page(), 1);
    assert_eq!(g.current(), 0);
    assert_eq!(g.link_count(), 3);
    assert_eq!(g.keywords(), "cats");
}

fn show(a: Action) -> Embed {
    match a {
        Action::Show(e) => e,
        _ => panic!("expected an embed"),
    }
}

#[test]
fn arrows_turn_images() {
    let (mut g, _) = Gallery::open("cats".to_string(), links(4)).unwrap();
    let e = show(g.react(Reaction::Previous));
    shown(&e, "https://img/3.png", "Image 4/4             Page 1/10");
    let e = show(g.react(Reaction::Next));
    // (3 + 1) % (4 - 1)
    shown(&e, "https://img/1.png", "Image 2/4             Page 1/10");
    let e = show(g.react(Reaction::Previous));
    shown(&e, "https://img/0.png", "Image 1/4             Page 1/10");
}

#[test]
fn left_then_right_returns_in_the_middle() {
    let (mut g, _) = Gallery::open("cats".to_string(), links(5)).unwrap();
    g.react(Reaction::Next);
    g.react(Reaction::Next);
    assert_eq!(g.current(), 2);
    g.react(Reaction::Previous);
    g.react(Reaction::Next);
    assert_eq!(g.current(), 2);
    g.react(Reaction::Next);
    g.react(Reaction::Previous);
    assert_eq!(g.current(), 2);
}

#[test]
fn right_arrow_never_reaches_the_last_image() {
    let (mut g, _) = Gallery::open("cats".to_string(), links(3)).unwrap();
    let mut seen = vec![];
    for _ in 0..6 {
        g.react(Reaction::Next);
        seen.push(g.current());
    }
    assert_eq!(seen, vec![1, 0, 1, 0, 1, 0]);
}

#[test]
fn single_result_left_arrow_stays() {
    let (mut g, _) = Gallery::open("cats".to_string(), links(1)).unwrap();
    let e = show(g.react(Reaction::Previous));
    shown(&e, "https://img/0.png", "Image 1/1             Page 1/10");
}

#[test]
fn paging_up_wraps_after_the_last_page() {
    let (mut g, _) = Gallery::open("cats".to_string(), links(2)).unwrap();
    let mut pages = vec![];
    for _ in 0..5 {
        match g.react(Reaction::PageUp) {
            Action::Fetch(p) => pages.push(p),
            _ => panic!("expected a fetch"),
        }
        assert_eq!(g.current(), 0);
    }
    assert_eq!(pages, vec![2, 3, 4, 5, 1]);
}

#[test]
fn paging_down_stops_at_zero() {
    let (mut g, _) = Gallery::open("cats".to_string(), links(2)).unwrap();
    g.react(Reaction::Next);
    assert!(matches!(g.react(Reaction::PageDown), Action::Fetch(0)));
    assert_eq!(g.current(), 0);
    assert!(matches!(g.react(Reaction::PageDown), Action::Fetch(0)));
    let e = g.receive(links(7));
    shown(&e, "https://img/0.png", "Image 1/7             Page 0/10");
    assert_eq!(g.link_count(), 7);
}

#[test]
fn unknown_reaction_draws_a_complaint() {
    let (mut g, _) = Gallery::open("cats".to_string(), links(2)).unwrap();
    assert!(matches!(g.react(Reaction::Other), Action::Complain));
    assert_eq!(g.current(), 0);
    assert_eq!(g.page(), 1);
    shown(&g.embed(), "https://img/0.png", "Image 1/2             Page 1/10");
}
