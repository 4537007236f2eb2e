use mtg_spoilers::cache::empty::Empty;
use mtg_spoilers::cache::file::File;
use mtg_spoilers::mythic::new_cards;
use mtg_spoilers::mythic::get_card_text;
use mtg_spoilers::Error;
use mtg_spoilers::Fetch;

const LISTING_URL: &str = "http://mythicspoiler.com//newspoilers.html";

/// A canned transport: a body per URL; anything else fails.
struct FakeClient {
    routes: Vec<(String, String)>,
}

impl FakeClient {
    fn new() -> FakeClient {
        FakeClient { routes: Vec::new() }
    }

    fn route(mut self, url: &str, body: &str) -> FakeClient {
        self.routes.push((url.to_string(), body.to_string()));
        self
    }
}

impl Fetch for FakeClient {
    fn get(&self, url: &str) -> Result<String, String> {
        for (u, b) in &self.routes {
            if u == url {
                return Ok(b.clone());
            }
        }
        Err(format!("no route to {url}"))
    }
}

/// A transport that always fails.
struct DownClient;

impl Fetch for DownClient {
    fn get(&self, url: &str) -> Result<String, String> {
        Err(format!("connection refused: {url}"))
    }
}

fn listing_abc() -> String {
    "<html><body>\
     <div class=\"grid-card\"><a href=\"a.html\"><img src=\"a.jpg\"></a></div>\
     <div class=\"grid-card\"><a href=\"b.html\"><img src=\"b.jpg\"></a></div>\
     <div class=\"grid-card\"><a href=\"c.html\"><img src=\"c.jpg\"></a></div>\
     </body></html>"
        .to_string()
}

fn name_page(name: &str) -> String {
    format!("<html><body><font><!--CARD NAME--> {name} </font></body></html>")
}

fn images(cards: &[mtg_spoilers::Spoiler]) -> Vec<&str> {
    cards.iter().map(|c| c.image.as_str()).collect()
}

#[test]
fn order_invariant_reverses_and_keeps_positions() {
    let client = FakeClient::new().route(LISTING_URL, &listing_abc());
    let cards = new_cards(Empty, &client).unwrap();
    assert_eq!(
        images(&cards),
        vec![
            "http://mythicspoiler.com//c.jpg",
            "http://mythicspoiler.com//b.jpg",
            "http://mythicspoiler.com//a.jpg",
        ]
    );
}

#[test]
fn enrichment_isolation_keeps_failed_records() {
    let listing = "<html><body>\
        <div class=\"grid-card\"><a href=\"c1.html\"><img src=\"c1.jpg\"></a></div>\
        <div class=\"grid-card\"><a href=\"c2.html\"><img src=\"c2.jpg\"></a></div>\
        <div class=\"grid-card\"><a href=\"c3.html\"><img src=\"c3.jpg\"></a></div>\
        <div class=\"grid-card\"><a href=\"c4.html\"><img src=\"c4.jpg\"></a></div>\
        <div class=\"grid-card\"><a href=\"c5.html\"><img src=\"c5.jpg\"></a></div>\
        </body></html>";
    // Only two of the five detail fetches succeed.
    let client = FakeClient::new()
        .route(LISTING_URL, listing)
        .route("http://mythicspoiler.com//c2.html", &name_page("Two"))
        .route("http://mythicspoiler.com//c4.html", &name_page("Four"));
    let cards = new_cards(Empty, &client).unwrap();
    assert_eq!(cards.len(), 5);
    // Reversed listing order: c5, c4, c3, c2, c1.
    assert_eq!(cards[0].name, None);
    assert_eq!(cards[1].name.as_deref(), Some("Four"));
    assert_eq!(cards[2].name, None);
    assert_eq!(cards[3].name.as_deref(), Some("Two"));
    assert_eq!(cards[4].name, None);
    assert_eq!(
        images(&cards),
        vec![
            "http://mythicspoiler.com//c5.jpg",
            "http://mythicspoiler.com//c4.jpg",
            "http://mythicspoiler.com//c3.jpg",
            "http://mythicspoiler.com//c2.jpg",
            "http://mythicspoiler.com//c1.jpg",
        ]
    );
}

#[test]
fn listing_fetch_failure_is_fatal() {
    match new_cards(Empty, &DownClient) {
        Err(Error::Reqwest(_)) => {}
        other => panic!("expected a Reqwest error, got {other:?}"),
    }
}

#[test]
fn file_store_filters_known_keys_across_runs() {
    let dir = tempfile::tempdir().unwrap();
    let path = dir.path().join("snap").to_str().unwrap().to_string();
    let client = FakeClient::new().route(LISTING_URL, &listing_abc());

    let store = File::new(path.clone()).unwrap();
    let first = new_cards(store, &client).unwrap();
    assert_eq!(first.len(), 3);

    let store = File::new(path).unwrap();
    let second = new_cards(store, &client).unwrap();
    assert_eq!(second.len(), 0);
}

#[test]
fn duplicate_listing_entries_are_kept_once_by_a_remembering_store() {
    let listing = "<html><body>\
        <div class=\"grid-card\"><a href=\"a.html\"><img src=\"a.jpg\"></a></div>\
        <div class=\"grid-card\"><a href=\"a2.html\"><img src=\"a.jpg\"></a></div>\
        </body></html>";
    let client = FakeClient::new().route(LISTING_URL, listing);

    let dir = tempfile::tempdir().unwrap();
    let path = dir.path().join("snap").to_str().unwrap().to_string();
    let store = File::new(path).unwrap();
    let cards = new_cards(store, &client).unwrap();
    assert_eq!(cards.len(), 1);

    // The non-remembering store keeps both copies.
    let cards = new_cards(Empty, &client).unwrap();
    assert_eq!(cards.len(), 2);
}

#[test]
fn persist_failure_aborts_the_run() {
    let dir = tempfile::tempdir().unwrap();
    let path = dir
        .path()
        .join("missing-subdir")
        .join("snap")
        .to_str()
        .unwrap()
        .to_string();
    let store = File::new(path).unwrap();
    let client = FakeClient::new().route(LISTING_URL, &listing_abc());
    match new_cards(store, &client) {
        Err(Error::Io(_)) => {}
        other => panic!("expected an Io error, got {other:?}"),
    }
}

#[test]
fn get_card_text_parses_fetched_page() {
    let url = "http://mythicspoiler.com//woe/cards/x.html";
    let page = "<html><body><table><tr>\
        <td><!--TYPE--> Instant </td>\
        <td><!--CARD TEXT--> Counter target spell. </td>\
        </tr></table></body></html>";
    let client = FakeClient::new().route(url, page);
    let texts = get_card_text(&client, url).unwrap();
    assert_eq!(texts.len(), 1);
    assert_eq!(texts[0].type_line.as_deref(), Some("Instant"));
    assert_eq!(texts[0].text.as_deref(), Some("Counter target spell."));
}

#[test]
fn get_card_text_fetch_failure_is_reqwest_error() {
    match get_card_text(&DownClient, "http://mythicspoiler.com//x.html") {
        Err(Error::Reqwest(_)) => {}
        other => panic!("expected a Reqwest error, got {other:?}"),
    }
}

#[test]
fn empty_listing_yields_no_cards() {
    let client = FakeClient::new().route(LISTING_URL, "<html><body>no cards today</body></html>");
    let cards = new_cards(Empty, &client).unwrap();
    assert_eq!(cards.len(), 0);
}

#[test]
fn persisting_an_empty_store_round_trips() {
    let dir = tempfile::tempdir().unwrap();
    let path = dir.path().join("snap").to_str().unwrap().to_string();
    let client = FakeClient::new().route(LISTING_URL, "<html><body></body></html>");
    let store = File::new(path.clone()).unwrap();
    let cards = new_cards(store, &client).unwrap();
    assert_eq!(cards.len(), 0);
    // The snapshot now exists and is empty; loading it is not an error.
    let store = File::new(path).unwrap();
    let cards = new_cards(store, &client).unwrap();
    assert_eq!(cards.len(), 0);
}
