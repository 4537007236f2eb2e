use mtg_spoilers::mythic::based;
use mtg_spoilers::mythic::detail_url;
use mtg_spoilers::mythic::normalize_source_url;
use mtg_spoilers::mythic::parse_card_texts;
use mtg_spoilers::mythic::parse_listing;
use mtg_spoilers::mythic::resolve_name;

#[test]
fn normalization_adds_scheme_to_schemeless_link() {
    assert_eq!(
        normalize_source_url("example.com/x").as_deref(),
        Some("http://example.com/x")
    );
}

#[test]
fn normalization_of_empty_link_is_absent() {
    assert_eq!(normalize_source_url(""), None);
    assert_eq!(normalize_source_url("   "), None);
}

#[test]
fn normalization_keeps_scheme_prefixed_links() {
    assert_eq!(
        normalize_source_url("https://twitch.tv/magic").as_deref(),
        Some("https://twitch.tv/magic")
    );
    assert_eq!(
        normalize_source_url("  http://a.example  ").as_deref(),
        Some("http://a.example")
    );
}

#[test]
fn based_joins_to_the_site_root() {
    assert_eq!(
        based("newspoilers.html"),
        "http://mythicspoiler.com//newspoilers.html"
    );
}

#[test]
fn detail_url_swaps_image_suffix_for_html() {
    assert_eq!(
        detail_url("http://mythicspoiler.com//brw/cards/jalumtome.jpg"),
        "http://mythicspoiler.com//brw/cards/jalumtome.html"
    );
    assert_eq!(detail_url("a.png"), "a.html");
}

#[test]
fn detail_url_strips_repeated_suffixes() {
    assert_eq!(detail_url("x.jpgjpg"), "x.html");
    assert_eq!(detail_url("x.jpgpng"), "x.jpghtml");
}

#[test]
fn detail_url_without_image_suffix_appends_html() {
    assert_eq!(detail_url("noext"), "noexthtml");
}

#[test]
fn listing_card_parses_to_stub() {
    let listing = "<html><body><div class=\"grid-card\">\
        <a href=\"brw/cards/jalumtome.html\">\
        <img class=\"\" src=\"brw/cards/jalumtome.jpg\"></a>\
        <!--URL BELOW-->\
        <a href=\"twitch.tv/magic\"></a>\
        <center><a href=\"twitch.tv/magic\">\
        <font face=\"Arial\" size=\"-4\"> WeeklyMTG </font>\
        </a></center></div></body></html>";
    let cards = parse_listing(listing);
    assert_eq!(cards.len(), 1);
    let card = &cards[0];
    assert_eq!(card.name, None);
    assert_eq!(card.image, "http://mythicspoiler.com//brw/cards/jalumtome.jpg");
    assert_eq!(
        card.source_site_url,
        "http://mythicspoiler.com//brw/cards/jalumtome.html"
    );
    let source = card.source.as_ref().unwrap();
    assert_eq!(source.name, "WeeklyMTG");
    assert_eq!(source.url.as_deref(), Some("http://twitch.tv/magic"));
}

#[test]
fn listing_card_without_image_is_dropped() {
    let listing = "<html><body>\
        <div class=\"grid-card\"><a href=\"x.html\"></a></div>\
        <div class=\"grid-card\"><span>no link at all</span></div>\
        </body></html>";
    let cards = parse_listing(listing);
    assert_eq!(cards.len(), 0);
}

#[test]
fn listing_order_is_document_order() {
    let listing = "<html><body>\
        <div class=\"grid-card\"><a href=\"a.html\"><img src=\"a.jpg\"></a></div>\
        <div class=\"grid-card\"><a href=\"b.html\"><img src=\"b.jpg\"></a></div>\
        <div class=\"grid-card\"><a href=\"c.html\"><img src=\"c.jpg\"></a></div>\
        </body></html>";
    let cards = parse_listing(listing);
    let images: Vec<&str> = cards.iter().map(|c| c.image.as_str()).collect();
    assert_eq!(
        images,
        vec![
            "http://mythicspoiler.com//a.jpg",
            "http://mythicspoiler.com//b.jpg",
            "http://mythicspoiler.com//c.jpg",
        ]
    );
}

#[test]
fn card_without_source_block_has_no_source() {
    let listing = "<html><body><div class=\"grid-card\">\
        <a href=\"a.html\"><img src=\"a.jpg\"></a></div></body></html>";
    let cards = parse_listing(listing);
    assert_eq!(cards.len(), 1);
    assert_eq!(cards[0].source, None);
}

#[test]
fn resolve_name_finds_marked_text() {
    let body = "<html><body><font><!--CARD NAME--> Jalum Tome </font></body></html>";
    assert_eq!(resolve_name(body).as_deref(), Some("Jalum Tome"));
}

#[test]
fn resolve_name_without_marker_is_absent() {
    let body = "<html><body><font> Jalum Tome </font></body></html>";
    assert_eq!(resolve_name(body), None);
}

#[test]
fn resolve_name_with_blank_marked_text_is_absent() {
    let body = "<html><body><font><!--CARD NAME-->   </font></body></html>";
    assert_eq!(resolve_name(body), None);
}

#[test]
fn resolve_name_takes_text_after_the_marker() {
    let body = "<html><body><font> Before <!--CARD NAME--> After </font></body></html>";
    assert_eq!(resolve_name(body).as_deref(), Some("After"));
}

#[test]
fn resolve_name_without_text_after_marker_is_absent() {
    let body = "<html><body><font> Before <!--CARD NAME--></font></body></html>";
    assert_eq!(resolve_name(body), None);
}

#[test]
fn resolve_name_skips_unmarked_fonts() {
    let body = "<html><body>\
        <font> Wrong </font>\
        <font><!--CARD NAME--> Right </font>\
        </body></html>";
    assert_eq!(resolve_name(body).as_deref(), Some("Right"));
}

#[test]
fn card_texts_read_type_and_text_cells() {
    let body = "<html><body><table><tr>\
        <td><!--TYPE--> Creature - Giant </td>\
        <td><!--CARD TEXT--> Some rules text. </td>\
        </tr></table></body></html>";
    let texts = parse_card_texts(body);
    assert_eq!(texts.len(), 1);
    assert_eq!(texts[0].name, None);
    assert_eq!(texts[0].type_line.as_deref(), Some("Creature - Giant"));
    assert_eq!(texts[0].text.as_deref(), Some("Some rules text."));
}

#[test]
fn second_type_cell_starts_a_new_face() {
    let body = "<html><body><table><tr>\
        <td><!--TYPE--> Creature - Giant </td>\
        <td><!--CARD TEXT--> Front text. </td>\
        <td><!--TYPE--> Adventure - Instant </td>\
        <td><!--CARD TEXT--> Back text. </td>\
        </tr></table></body></html>";
    let texts = parse_card_texts(body);
    assert_eq!(texts.len(), 2);
    assert_eq!(texts[0].type_line.as_deref(), Some("Creature - Giant"));
    assert_eq!(texts[0].text.as_deref(), Some("Front text."));
    assert_eq!(texts[1].type_line.as_deref(), Some("Adventure - Instant"));
    assert_eq!(texts[1].text.as_deref(), Some("Back text."));
}

#[test]
fn card_texts_of_plain_page_are_empty() {
    let body = "<html><body><table><tr><td>nothing marked</td></tr></table></body></html>";
    let texts = parse_card_texts(body);
    assert_eq!(texts.len(), 0);
}

#[test]
fn card_text_collapses_blank_lines_and_trailing_spaces() {
    let body = "<html><body><table><tr>\
        <td><!--CARD TEXT-->First line \nsecond line.\n\n\nThird.</td>\
        </tr></table></body></html>";
    let texts = parse_card_texts(body);
    assert_eq!(texts.len(), 1);
    assert_eq!(
        texts[0].text.as_deref(),
        Some("First line\nsecond line.\n\nThird.")
    );
}
