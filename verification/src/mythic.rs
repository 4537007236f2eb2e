//! The spoiler-site pipeline: parse the listing into stub records, drop
//! the ones the store has seen, persist the store, reverse the batch to
//! oldest-first, and resolve a display name for each record from its
//! detail page.
//!
//! HTML structure extraction is delegated to scraper behind trusted
//! wrappers whose results are named, pure functions of the document text;
//! everything done with the extracted values — joining URLs, trimming,
//! normalizing attribution links, picking the marked name — is verified.

use vstd::prelude::*;
use vstd::string::*;

use crate::Spoiler;
use crate::SpoilerModel;
use crate::SpoilerSource;
use crate::SourceModel;
use crate::text::spec_trim;
use crate::text::trim;
use crate::text::spec_starts_with;
use crate::text::starts_with;
use crate::text::spec_strip_suffix_all;
use crate::text::strip_suffix_all;
use crate::text::spec_contains;
use crate::text::contains_sub;
use crate::text::spec_first_nonempty_trimmed;
use crate::text::first_nonempty_trimmed;
use crate::text::spec_concat_all;
use crate::text::concat_all;
use crate::text::spec_replace;
use crate::text::replace;
use crate::text::str_eq;
use crate::CardText;
use crate::CardTextModel;
use crate::Error;
use crate::Fetch;
use crate::cache::Cache;

verus! {


/// The spec-level values of a batch of records, in order.
pub open spec fn views_of(cards: Seq<Spoiler>) -> Seq<SpoilerModel> {
    cards.map_values(|s: Spoiler| s@)
}

/// The spec-level values of a list of card faces, in order.
pub open spec fn card_views_of(texts: Seq<CardText>) -> Seq<CardTextModel> {
    texts.map_values(|c: CardText| c@)
}

/// The spec-level values of a list of node blocks, in order.
pub open spec fn block_views_of(blocks: Seq<NodeBlock>) -> Seq<NodeBlockModel> {
    blocks.map_values(|b: NodeBlock| b@)
}

/// The site root every relative link on the listing page is joined to.
pub open spec fn spec_based(s: Seq<char>) -> Seq<char> {
    "http://mythicspoiler.com/"@ + "/"@ + s
}

/// Joins a site-relative path to the site root, slash included, exactly
/// as the listing page's relative links expect.
pub fn based(s: &str) -> (r: String)
    ensures
        r@ == spec_based(s@),
{
    let mut r = String::from_str("http://mythicspoiler.com/");
    r.append("/");
    r.append(s);
    r
}

/// An attribution link, normalized: trimmed; empty means no link; a link
/// without a scheme prefix gets `http://` put in front of it.
pub open spec fn spec_normalize_source_url(link: Seq<char>) -> Option<Seq<char>> {
    let t = spec_trim(link);
    if t.len() == 0 {
        None
    } else if spec_starts_with(t, "http"@) {
        Some(t)
    } else {
        Some("http://"@ + t)
    }
}

/// Normalizes an attribution link as [`spec_normalize_source_url`] says.
pub fn normalize_source_url(link: &str) -> (r: Option<String>)
    ensures
        r.deep_view() == spec_normalize_source_url(link@),
{
    let t = trim(link);
    if t.unicode_len() == 0 {
        None
    } else if starts_with(t, "http") {
        Some(String::from_str(t))
    } else {
        let mut u = String::from_str("http://");
        u.append(t);
        Some(u)
    }
}

/// The detail page for an image URL: the image suffix (every trailing
/// `jpg`, then every trailing `png`) replaced by `html`.
pub open spec fn spec_detail_url(image: Seq<char>) -> Seq<char> {
    spec_strip_suffix_all(spec_strip_suffix_all(image, "jpg"@), "png"@) + "html"@
}

/// Derives the detail-page URL from a record's image URL.
pub fn detail_url(image: &str) -> (r: String)
    ensures
        r@ == spec_detail_url(image@),
{
    proof {
        reveal_strlit("jpg");
        reveal_strlit("png");
    }
    let stripped = strip_suffix_all(strip_suffix_all(image, "jpg"), "png");
    let mut r = String::from_str(stripped);
    r.append("html");
    r
}

/// The comment children and the texts of one table cell, each rendered
/// as a plain string, in document order.
pub struct NodeBlock {
    pub comments: Vec<String>,
    pub texts: Vec<String>,
}

/// Spec-level value of a [`NodeBlock`].
pub ghost struct NodeBlockModel {
    pub comments: Seq<Seq<char>>,
    pub texts: Seq<Seq<char>>,
}

impl View for NodeBlock {
    type V = NodeBlockModel;

    open spec fn view(&self) -> NodeBlockModel {
        NodeBlockModel { comments: self.comments.deep_view(), texts: self.texts.deep_view() }
    }
}

/// One child node of a `font` element: a comment's text or a text
/// node's text. The order of the children is kept, so a contract can
/// speak of what follows the name marker.
pub enum FontNode {
    Comment(String),
    Text(String),
}

/// Spec-level value of a [`FontNode`].
pub ghost enum FontNodeModel {
    Comment(Seq<char>),
    Text(Seq<char>),
}

impl View for FontNode {
    type V = FontNodeModel;

    open spec fn view(&self) -> FontNodeModel {
        match self {
            FontNode::Comment(s) => FontNodeModel::Comment(s@),
            FontNode::Text(s) => FontNodeModel::Text(s@),
        }
    }
}

/// The comment and text children of one `font` element, interleaved in
/// document order.
pub struct FontBlock {
    pub nodes: Vec<FontNode>,
}

impl View for FontBlock {
    type V = Seq<FontNodeModel>;

    open spec fn view(&self) -> Seq<FontNodeModel> {
        self.nodes@.map_values(|n: FontNode| n@)
    }
}

/// The spec-level values of a list of font blocks, in order.
pub open spec fn font_views_of(blocks: Seq<FontBlock>) -> Seq<Seq<FontNodeModel>> {
    blocks.map_values(|b: FontBlock| b@)
}

/// What the listing parser extracts: the serialized HTML of each
/// `div.grid-card` element, in document order.
pub uninterp spec fn listing_fragments_of(body: Seq<char>) -> Seq<Seq<char>>;

/// The `href` of a card fragment's first link, if any.
pub uninterp spec fn card_link_href_of(fragment: Seq<char>) -> Option<Seq<char>>;

/// The `src` of the first image under a card fragment's first link.
pub uninterp spec fn card_image_src_of(fragment: Seq<char>) -> Option<Seq<char>>;

/// The `href` of the first link inside a card fragment's first `center`.
pub uninterp spec fn source_link_href_of(fragment: Seq<char>) -> Option<Seq<char>>;

/// The first text of a card fragment's first `font` element.
pub uninterp spec fn source_font_text_of(fragment: Seq<char>) -> Option<Seq<char>>;

/// Per `font` element of a detail page: its comment and text child
/// nodes, interleaved in document order.
pub uninterp spec fn font_blocks_of(body: Seq<char>) -> Seq<Seq<FontNodeModel>>;

/// Per `td` element of a card page: its comment child nodes and all its
/// descendant texts.
pub uninterp spec fn td_blocks_of(body: Seq<char>) -> Seq<NodeBlockModel>;

/// Relies on scraper's `Html::parse_document` and selector matching: the
/// serialized HTML (`ElementRef::html`) of each `div.grid-card` element
/// of the listing page, in document order.
#[verifier::external_body]
fn listing_fragments(body: &str) -> (r: Vec<String>)
    ensures
        r.deep_view() == listing_fragments_of(body@),
{
    let doc = scraper::Html::parse_document(body);
    let sel = scraper::Selector::parse("div.grid-card").unwrap();
    doc.select(&sel).map(|card| card.html()).collect()
}

/// Relies on scraper's `Html::parse_fragment`, selector matching and
/// `ElementRef::attr`: the `href` attribute of the fragment's first `a`.
#[verifier::external_body]
fn card_link_href(fragment: &str) -> (r: Option<String>)
    ensures
        r.deep_view() == card_link_href_of(fragment@),
{
    let doc = scraper::Html::parse_fragment(fragment);
    let sel = scraper::Selector::parse("a").unwrap();
    let link = doc.select(&sel).next()?;
    link.attr("href").map(|s| s.to_string())
}

/// Relies on scraper's `Html::parse_fragment`, selector matching and
/// `ElementRef::attr`: the `src` attribute of the first `img` under the
/// fragment's first `a`.
#[verifier::external_body]
fn card_image_src(fragment: &str) -> (r: Option<String>)
    ensures
        r.deep_view() == card_image_src_of(fragment@),
{
    let doc = scraper::Html::parse_fragment(fragment);
    let sel_a = scraper::Selector::parse("a").unwrap();
    let sel_img = scraper::Selector::parse("img").unwrap();
    let link = doc.select(&sel_a).next()?;
    let img = link.select(&sel_img).next()?;
    img.attr("src").map(|s| s.to_string())
}

/// Relies on scraper's `Html::parse_fragment`, selector matching and
/// `ElementRef::attr`: the `href` attribute of the first `a` inside the
/// fragment's first `center` element.
#[verifier::external_body]
fn source_link_href(fragment: &str) -> (r: Option<String>)
    ensures
        r.deep_view() == source_link_href_of(fragment@),
{
    let doc = scraper::Html::parse_fragment(fragment);
    let sel_center = scraper::Selector::parse("center").unwrap();
    let sel_a = scraper::Selector::parse("a").unwrap();
    let center = doc.select(&sel_center).next()?;
    let link = center.select(&sel_a).next()?;
    link.attr("href").map(|s| s.to_string())
}

/// Relies on scraper's `Html::parse_fragment`, selector matching and
/// `ElementRef::text`: the first text of the fragment's first `font`.
#[verifier::external_body]
fn source_font_text(fragment: &str) -> (r: Option<String>)
    ensures
        r.deep_view() == source_font_text_of(fragment@),
{
    let doc = scraper::Html::parse_fragment(fragment);
    let sel = scraper::Selector::parse("font").unwrap();
    let font = doc.select(&sel).next()?;
    font.text().next().map(|s| s.to_string())
}

/// Relies on scraper's `Html::parse_document`, selector matching and node
/// traversal: for each `font` element of the page, in order, its comment
/// and text child nodes, interleaved in document order.
#[verifier::external_body]
fn font_blocks(body: &str) -> (r: Vec<FontBlock>)
    ensures
        font_views_of(r@) == font_blocks_of(body@),
{
    let doc = scraper::Html::parse_document(body);
    let sel = scraper::Selector::parse("font").unwrap();
    doc.select(&sel).map(|f| FontBlock {
        nodes: f.children().filter_map(|n| match n.value() {
            scraper::Node::Comment(c) => Some(FontNode::Comment(c.to_string())),
            scraper::Node::Text(t) => Some(FontNode::Text(t.to_string())),
            _ => None,
        }).collect(),
    }).collect()
}

/// Relies on scraper's `Html::parse_document`, selector matching, node
/// traversal and `ElementRef::text`: for each `td` element of the page,
/// in order, the texts of its comment children and all its descendant
/// texts.
#[verifier::external_body]
fn td_blocks(body: &str) -> (r: Vec<NodeBlock>)
    ensures
        block_views_of(r@) == td_blocks_of(body@),
{
    let doc = scraper::Html::parse_document(body);
    let sel = scraper::Selector::parse("td").unwrap();
    doc.select(&sel).map(|cell| NodeBlock {
        comments: cell.children().filter_map(|n| match n.value() {
            scraper::Node::Comment(c) => Some(c.to_string()),
            _ => None,
        }).collect(),
        texts: cell.text().map(|t| t.to_string()).collect(),
    }).collect()
}

/// The attribution of a card fragment: present only when the fragment has
/// both an attribution link and an attribution name.
pub open spec fn spec_parse_source(fragment: Seq<char>) -> Option<SourceModel> {
    match (source_link_href_of(fragment), source_font_text_of(fragment)) {
        (Some(link), Some(name)) => Some(
            SourceModel { name: spec_trim(name), url: spec_normalize_source_url(link) },
        ),
        _ => None,
    }
}

/// The stub record a card fragment denotes: dropped (`None`) when the
/// fragment has no link or no image; its name always starts absent.
pub open spec fn spec_parse_card(fragment: Seq<char>) -> Option<SpoilerModel> {
    match (card_link_href_of(fragment), card_image_src_of(fragment)) {
        (Some(href), Some(img)) => Some(
            SpoilerModel {
                name: None,
                source_site_url: spec_based(spec_trim(href)),
                image: spec_based(spec_trim(img)),
                source: spec_parse_source(fragment),
            },
        ),
        _ => None,
    }
}

/// The stub records of a list of card fragments, in order, fragments
/// without a link or an image silently dropped.
pub open spec fn spec_parse_cards(frags: Seq<Seq<char>>) -> Seq<SpoilerModel>
    decreases frags.len(),
{
    if frags.len() == 0 {
        Seq::empty()
    } else {
        match spec_parse_card(frags[0]) {
            Some(sp) => seq![sp] + spec_parse_cards(frags.drop_first()),
            None => spec_parse_cards(frags.drop_first()),
        }
    }
}

/// The stub records of one listing page, in document order.
pub open spec fn spec_parse_listing(body: Seq<char>) -> Seq<SpoilerModel> {
    spec_parse_cards(listing_fragments_of(body))
}

/// Builds the stub record of one card fragment, or `None` when the
/// fragment has no link or no image.
pub fn parse_card(fragment: &str) -> (r: Option<Spoiler>)
    ensures
        match r {
            Some(sp) => spec_parse_card(fragment@) == Some(sp@),
            None => spec_parse_card(fragment@) is None,
        },
{
    let href = match card_link_href(fragment) {
        Some(h) => h,
        None => {
            return None;
        },
    };
    let img = match card_image_src(fragment) {
        Some(i) => i,
        None => {
            return None;
        },
    };
    let source = match source_link_href(fragment) {
        None => None,
        Some(link) => match source_font_text(fragment) {
            None => None,
            Some(name) => Some(
                SpoilerSource {
                    name: String::from_str(trim(name.as_str())),
                    url: normalize_source_url(link.as_str()),
                },
            ),
        },
    };
    Some(
        Spoiler {
            name: None,
            source_site_url: based(trim(href.as_str())),
            image: based(trim(img.as_str())),
            source,
        },
    )
}

/// Parses one listing page into its stub records, in document order.
pub fn parse_listing(body: &str) -> (r: Vec<Spoiler>)
    ensures
        views_of(r@) == spec_parse_listing(body@),
{
    let frags = listing_fragments(body);
    let ghost d = frags.deep_view();
    let mut out: Vec<Spoiler> = Vec::new();
    let mut i: usize = 0;
    proof {
        assert(d.skip(0) =~= d);
        assert(views_of(out@) + spec_parse_cards(d) =~= spec_parse_cards(d));
    }
    while i < frags.len()
        invariant
            d == frags.deep_view(),
            i <= frags.len(),
            views_of(out@) + spec_parse_cards(d.skip(i as int))
                == spec_parse_cards(d),
        decreases frags.len() - i,
    {
        proof {
            assert(d.skip(i as int)[0] == d[i as int]);
            assert(d.skip(i as int).drop_first() =~= d.skip(i as int + 1));
        }
        let ghost pre = views_of(out@);
        match parse_card(frags[i].as_str()) {
            Some(sp) => {
                out.push(sp);
                proof {
                    assert(views_of(out@) =~= pre + seq![out@.last()@]);
                }
            },
            None => {},
        }
        i = i + 1;
    }
    proof {
        assert(d.skip(frags.len() as int) =~= Seq::<Seq<char>>::empty());
    }
    out
}

/// Whether a node is a comment carrying the name marker.
pub open spec fn spec_is_marker(n: FontNodeModel) -> bool {
    n matches FontNodeModel::Comment(c) && spec_contains(c, "CARD NAME"@)
}

/// The first non-blank text node, trimmed.
pub open spec fn spec_first_text(nodes: Seq<FontNodeModel>) -> Option<Seq<char>>
    decreases nodes.len(),
{
    if nodes.len() == 0 {
        None
    } else {
        match nodes[0] {
            FontNodeModel::Text(t) => if spec_trim(t).len() > 0 {
                Some(spec_trim(t))
            } else {
                spec_first_text(nodes.drop_first())
            },
            FontNodeModel::Comment(_) => spec_first_text(nodes.drop_first()),
        }
    }
}

/// The name one `font` block yields: the first non-blank text node that
/// follows the first marker comment, trimmed; nothing when the block
/// has no marker, or no non-blank text after it.
pub open spec fn spec_block_name(nodes: Seq<FontNodeModel>) -> Option<Seq<char>>
    decreases nodes.len(),
{
    if nodes.len() == 0 {
        None
    } else if spec_is_marker(nodes[0]) {
        spec_first_text(nodes.drop_first())
    } else {
        spec_block_name(nodes.drop_first())
    }
}

/// The first block that yields a name, scanned in document order.
pub open spec fn spec_resolve_blocks(bs: Seq<Seq<FontNodeModel>>) -> Option<Seq<char>>
    decreases bs.len(),
{
    if bs.len() == 0 {
        None
    } else {
        match spec_block_name(bs[0]) {
            Some(n) => Some(n),
            None => spec_resolve_blocks(bs.drop_first()),
        }
    }
}

/// The display name a detail page resolves to, if any.
pub open spec fn spec_resolve_name(body: Seq<char>) -> Option<Seq<char>> {
    spec_resolve_blocks(font_blocks_of(body))
}

/// The position of the block's first marker comment, with what the
/// block's name therefore is: the first non-blank text after it.
fn marker_index(b: &FontBlock) -> (r: Option<usize>)
    ensures
        match r {
            Some(j) => j < b.nodes@.len() && spec_block_name(b@) == spec_first_text(
                b@.skip(j as int + 1),
            ),
            None => spec_block_name(b@) is None,
        },
{
    let ghost m = b@;
    let n = b.nodes.len();
    let mut j: usize = 0;
    proof {
        assert(m.skip(0) =~= m);
    }
    while j < n
        invariant
            m == b@,
            n == b.nodes.len(),
            j <= n,
            spec_block_name(m.skip(j as int)) == spec_block_name(m),
        decreases n - j,
    {
        proof {
            assert(m.skip(j as int)[0] == m[j as int]);
            assert(m[j as int] == b.nodes@[j as int]@);
            assert(m.skip(j as int).drop_first() =~= m.skip(j as int + 1));
        }
        let found = match &b.nodes[j] {
            FontNode::Comment(c) => contains_sub(c.as_str(), "CARD NAME"),
            FontNode::Text(_) => false,
        };
        if found {
            proof {
                assert(spec_is_marker(m[j as int]));
                assert(spec_block_name(m.skip(j as int)) == spec_first_text(
                    m.skip(j as int + 1),
                ));
            }
            return Some(j);
        }
        j = j + 1;
    }
    proof {
        assert(m.skip(n as int) =~= Seq::<FontNodeModel>::empty());
    }
    None
}

/// The first non-blank text node at or after `start`, trimmed.
fn first_text_from(b: &FontBlock, start: usize) -> (r: Option<String>)
    requires
        start <= b.nodes@.len(),
    ensures
        r.deep_view() == spec_first_text(b@.skip(start as int)),
{
    let ghost m = b@;
    let n = b.nodes.len();
    let mut k = start;
    while k < n
        invariant
            m == b@,
            n == b.nodes.len(),
            start <= k <= n,
            spec_first_text(m.skip(k as int)) == spec_first_text(m.skip(start as int)),
        decreases n - k,
    {
        proof {
            assert(m.skip(k as int)[0] == m[k as int]);
            assert(m[k as int] == b.nodes@[k as int]@);
            assert(m.skip(k as int).drop_first() =~= m.skip(k as int + 1));
        }
        match &b.nodes[k] {
            FontNode::Text(t) => {
                let tt = trim(t.as_str());
                if tt.unicode_len() > 0 {
                    return Some(String::from_str(tt));
                }
            },
            FontNode::Comment(_) => {},
        }
        k = k + 1;
    }
    proof {
        assert(m.skip(n as int) =~= Seq::<FontNodeModel>::empty());
    }
    None
}

/// Resolves the display name from a detail page's text: in the first
/// `font` element whose marker comment is followed by a non-blank text
/// node, that text, trimmed; `None` when no element has both.
pub fn resolve_name(body: &str) -> (r: Option<String>)
    ensures
        r.deep_view() == spec_resolve_name(body@),
{
    let blocks = font_blocks(body);
    let ghost d = font_views_of(blocks@);
    let mut i: usize = 0;
    proof {
        assert(d =~= font_blocks_of(body@));
        assert(d.skip(0) =~= d);
    }
    while i < blocks.len()
        invariant
            d == font_views_of(blocks@),
            d == font_blocks_of(body@),
            i <= blocks.len(),
            spec_resolve_blocks(d.skip(i as int)) == spec_resolve_blocks(d),
        decreases blocks.len() - i,
    {
        proof {
            assert(d.skip(i as int)[0] == d[i as int]);
            assert(blocks@[i as int]@ == d[i as int]);
            assert(d.skip(i as int).drop_first() =~= d.skip(i as int + 1));
        }
        match marker_index(&blocks[i]) {
            Some(j) => {
                match first_text_from(&blocks[i], j + 1) {
                    Some(n) => {
                        proof {
                            assert(spec_block_name(d[i as int]) == Some(n@));
                            assert(spec_resolve_blocks(d.skip(i as int)) == Some(n@));
                        }
                        return Some(n);
                    },
                    None => {},
                }
            },
            None => {},
        }
        i = i + 1;
    }
    proof {
        assert(d.skip(blocks.len() as int) =~= Seq::<Seq<FontNodeModel>>::empty());
    }
    None
}

/// A card face with nothing filled in yet.
pub open spec fn empty_card_text() -> CardTextModel {
    CardTextModel { name: None, type_line: None, text: None }
}

/// The rules text a `td` block yields: all its texts joined and trimmed;
/// blank means none; otherwise stray blank lines and trailing spaces
/// before a newline are collapsed.
pub open spec fn spec_card_body_text(texts: Seq<Seq<char>>) -> Option<Seq<char>> {
    let t = spec_trim(spec_concat_all(texts));
    if t.len() == 0 {
        None
    } else {
        Some(spec_replace(spec_replace(t, "\n\n\n"@, "\n\n"@), " \n"@, "\n"@))
    }
}

fn card_body_text(texts: &Vec<String>) -> (r: Option<String>)
    ensures
        r.deep_view() == spec_card_body_text(texts.deep_view()),
{
    let joined = concat_all(texts);
    let t = trim(joined.as_str());
    if t.unicode_len() == 0 {
        None
    } else {
        proof {
            reveal_strlit("\n\n\n");
            reveal_strlit(" \n");
        }
        let step = replace(t, "\n\n\n", "\n\n");
        Some(replace(step.as_str(), " \n", "\n"))
    }
}

/// How one `td` block extends the accumulated card faces: a `TYPE`
/// comment fills the last face's type line or starts a new face; a
/// `CARD TEXT` comment does the same for the rules text; anything else
/// changes nothing.
pub open spec fn spec_apply_td(acc: Seq<CardTextModel>, b: NodeBlockModel) -> Seq<CardTextModel>
    recommends
        acc.len() > 0,
{
    if b.comments.len() == 0 {
        acc
    } else {
        let c = spec_trim(b.comments[0]);
        if c == "TYPE"@ {
            match spec_first_nonempty_trimmed(b.texts) {
                None => acc,
                Some(t) => if acc.last().type_line is None {
                    acc.update(
                        acc.len() - 1,
                        CardTextModel { type_line: Some(t), ..acc.last() },
                    )
                } else {
                    acc + seq![CardTextModel { name: None, type_line: Some(t), text: None }]
                },
            }
        } else if c == "CARD TEXT"@ {
            let parsed = spec_card_body_text(b.texts);
            if acc.last().text is None {
                acc.update(acc.len() - 1, CardTextModel { text: parsed, ..acc.last() })
            } else {
                acc + seq![CardTextModel { name: None, type_line: None, text: parsed }]
            }
        } else {
            acc
        }
    }
}

/// The card faces of a page's `td` blocks, folded in document order from
/// one empty face.
pub open spec fn spec_fold_tds(blocks: Seq<NodeBlockModel>) -> Seq<CardTextModel>
    decreases blocks.len(),
{
    if blocks.len() == 0 {
        seq![empty_card_text()]
    } else {
        spec_apply_td(spec_fold_tds(blocks.drop_last()), blocks.last())
    }
}

/// The card faces of one card page; a page that fills in nothing at all
/// yields no faces rather than one empty face.
pub open spec fn spec_card_texts(body: Seq<char>) -> Seq<CardTextModel> {
    let folded = spec_fold_tds(td_blocks_of(body));
    if folded == seq![empty_card_text()] {
        Seq::empty()
    } else {
        folded
    }
}

/// Assembles the card faces of one card page, as `spec_card_texts` says.
pub fn parse_card_texts(body: &str) -> (r: Vec<CardText>)
    ensures
        card_views_of(r@) == spec_card_texts(body@),
{
    let blocks = td_blocks(body);
    let ghost d = block_views_of(blocks@);
    proof {
        assert(d =~= td_blocks_of(body@));
    }
    let mut done: Vec<CardText> = Vec::new();
    let mut cur = CardText { name: None, type_line: None, text: None };
    let mut i: usize = 0;
    proof {
        assert(d.take(0) =~= Seq::<NodeBlockModel>::empty());
        assert(card_views_of(done@) + seq![cur@] =~= seq![empty_card_text()]);
    }
    while i < blocks.len()
        invariant
            d == block_views_of(blocks@),
            i <= blocks.len(),
            spec_fold_tds(d.take(i as int)) == card_views_of(done@) + seq![cur@],
        decreases blocks.len() - i,
    {
        let ghost pre_acc = spec_fold_tds(d.take(i as int));
        let ghost pre_done = card_views_of(done@);
        proof {
            assert(d.take(i as int + 1).drop_last() =~= d.take(i as int));
            assert(d.take(i as int + 1).last() == d[i as int]);
            assert(pre_acc.last() == cur@);
        }
        let b = &blocks[i];
        if b.comments.len() > 0 {
            let c = trim(b.comments[0].as_str());
            if str_eq(c, "TYPE") {
                match first_nonempty_trimmed(&b.texts) {
                    None => {},
                    Some(t) => {
                        if cur.type_line.is_none() {
                            cur.type_line = Some(t);
                            proof {
                                assert(pre_acc.update(pre_acc.len() - 1, cur@) =~= pre_done
                                    + seq![cur@]);
                            }
                        } else {
                            done.push(cur);
                            cur = CardText { name: None, type_line: Some(t), text: None };
                            proof {
                                assert(card_views_of(done@) =~= pre_done + seq![
                                    done@.last()@,
                                ]);
                                assert(pre_acc + seq![cur@] =~= card_views_of(done@)
                                    + seq![cur@]);
                            }
                        }
                    },
                }
            } else if str_eq(c, "CARD TEXT") {
                let parsed = card_body_text(&b.texts);
                if cur.text.is_none() {
                    cur.text = parsed;
                    proof {
                        assert(pre_acc.update(pre_acc.len() - 1, cur@) =~= pre_done + seq![cur@]);
                    }
                } else {
                    done.push(cur);
                    cur = CardText { name: None, type_line: None, text: parsed };
                    proof {
                        assert(card_views_of(done@) =~= pre_done + seq![
                            done@.last()@,
                        ]);
                        assert(pre_acc + seq![cur@] =~= card_views_of(done@)
                            + seq![cur@]);
                    }
                }
            }
        }
        i = i + 1;
    }
    proof {
        assert(d.take(blocks.len() as int) =~= d);
    }
    if done.len() == 0 && cur.name.is_none() && cur.type_line.is_none() && cur.text.is_none() {
        proof {
            assert(card_views_of(done@) + seq![cur@] =~= seq![empty_card_text()]);
        }
        let empty: Vec<CardText> = Vec::new();
        proof {
            assert(card_views_of(empty@) =~= Seq::<CardTextModel>::empty());
        }
        empty
    } else {
        let ghost pre_done = card_views_of(done@);
        done.push(cur);
        proof {
            assert(card_views_of(done@) =~= pre_done + seq![done@.last()@]);
            if pre_done.len() == 0 {
                assert(spec_fold_tds(d)[0] == cur@);
                assert(seq![empty_card_text()][0] == empty_card_text());
            }
        }
        done
    }
}


/// The stubs that survive the dedup gate, in order: each stub whose key
/// the evolving store has not seen; a remembering store records every
/// key it is asked about, so a duplicate later in the same batch is
/// dropped too.
pub open spec fn spec_filter_new(
    stubs: Seq<SpoilerModel>,
    known: Set<Seq<char>>,
    remembers: bool,
) -> Seq<SpoilerModel>
    decreases stubs.len(),
{
    if stubs.len() == 0 {
        Seq::empty()
    } else {
        let key = stubs[0].image;
        let rest_known = if remembers {
            known.insert(key)
        } else {
            known
        };
        let rest = spec_filter_new(stubs.drop_first(), rest_known, remembers);
        if known.contains(key) {
            rest
        } else {
            seq![stubs[0]] + rest
        }
    }
}

/// Gates the stubs through the store's `is_new`, in order. This is the
/// only place the store's set is touched, and it happens sequentially,
/// so key-insertion order is deterministic for a fixed listing.
pub fn filter_new<Db: Cache>(db: &mut Db, stubs: Vec<Spoiler>) -> (r: Vec<Spoiler>)
    requires
        old(db).wf(),
    ensures
        final(db).wf(),
        final(db).remembers() == old(db).remembers(),
        final(db).persists_trivially() == old(db).persists_trivially(),
        final(db).snapshot_path() == old(db).snapshot_path(),
        views_of(r@) == spec_filter_new(
            views_of(stubs@),
            old(db).known(),
            old(db).remembers(),
        ),
{
    let ghost d = views_of(stubs@);
    let ghost known0 = old(db).known();
    let ghost rem = old(db).remembers();
    let mut rest = stubs;
    let mut out: Vec<Spoiler> = Vec::new();
    proof {
        assert(views_of(out@) + spec_filter_new(d, known0, rem)
            =~= spec_filter_new(d, known0, rem));
    }
    while rest.len() > 0
        invariant
            db.wf(),
            db.remembers() == rem,
            db.persists_trivially() == old(db).persists_trivially(),
            db.snapshot_path() == old(db).snapshot_path(),
            views_of(out@) + spec_filter_new(
                views_of(rest@),
                db.known(),
                rem,
            ) == spec_filter_new(d, known0, rem),
        decreases rest.len(),
    {
        let ghost pre_rest = views_of(rest@);
        let ghost pre_known = db.known();
        let ghost pre_out = views_of(out@);
        let s = rest.remove(0);
        proof {
            assert(pre_rest[0] == s@);
            assert(views_of(rest@) =~= pre_rest.drop_first());
        }
        let fresh = db.is_new(&s);
        if fresh {
            out.push(s);
            proof {
                assert(views_of(out@) =~= pre_out + seq![out@.last()@]);
            }
        }
    }
    proof {
        assert(views_of(rest@) =~= Seq::<SpoilerModel>::empty());
        assert(views_of(out@) + Seq::<SpoilerModel>::empty() =~= views_of(out@));
    }
    out
}

/// Reverses a batch: the listing is newest-first, the caller gets the
/// new records oldest-first.
pub fn reverse_vec(v: Vec<Spoiler>) -> (r: Vec<Spoiler>)
    ensures
        r@.len() == v@.len(),
        forall|i: int| 0 <= i < v@.len() ==> r@[i] == v@[v@.len() - 1 - i],
{
    let ghost orig = v@;
    let mut rest = v;
    let mut out: Vec<Spoiler> = Vec::new();
    while rest.len() > 0
        invariant
            rest@ == orig.take(rest@.len() as int),
            out@.len() + rest@.len() == orig.len(),
            forall|j: int| 0 <= j < out@.len() ==> out@[j] == orig[orig.len() - 1 - j],
        decreases rest.len(),
    {
        match rest.pop() {
            Some(x) => {
                proof {
                    assert(rest@ =~= orig.take(rest@.len() as int));
                }
                out.push(x);
            },
            None => {
                proof {
                    assert(false);
                }
            },
        }
    }
    out
}

/// How enrichment may change one record: every field but the name is
/// untouched, and the name either stays what it was or becomes the name
/// some detail page body resolves to.
pub open spec fn spec_enriched_from(before: SpoilerModel, after: SpoilerModel) -> bool {
    &&& after.image == before.image
    &&& after.source_site_url == before.source_site_url
    &&& after.source == before.source
    &&& (after.name == before.name || (after.name is Some && exists|body: Seq<char>|
        after.name == spec_resolve_name(body)))
}

/// Enriches one record in place: fetches its detail page and, when the
/// page resolves to a name, sets it. A transport failure, an undecodable
/// body, a page without the marker or one with only blank texts all
/// leave the record exactly as it was.
pub fn enrich_one<F: Fetch>(client: &F, card: &mut Spoiler)
    ensures
        spec_enriched_from(old(card)@, final(card)@),
{
    let url = detail_url(card.image.as_str());
    match client.get(url.as_str()) {
        Err(_m) => {},
        Ok(body) => {
            match resolve_name(body.as_str()) {
                None => {},
                Some(n) => {
                    card.name = Some(n);
                    proof {
                        assert(card@.name == spec_resolve_name(body@));
                    }
                },
            }
        },
    }
}

/// Enriches every record of the batch, one request per record; a failed
/// record is returned unchanged in its place, and the batch's length and
/// order never change.
pub fn enrich_all<F: Fetch>(client: &F, cards: Vec<Spoiler>) -> (r: Vec<Spoiler>)
    ensures
        r@.len() == cards@.len(),
        forall|i: int| 0 <= i < cards@.len() ==> spec_enriched_from(cards@[i]@, #[trigger] r@[i]@),
{
    let ghost orig = cards@;
    let mut rest = cards;
    let mut out: Vec<Spoiler> = Vec::new();
    while rest.len() > 0
        invariant
            out@.len() + rest@.len() == orig.len(),
            rest@ == orig.skip(out@.len() as int),
            forall|j: int| 0 <= j < out@.len() ==> spec_enriched_from(
                orig[j]@,
                #[trigger] out@[j]@,
            ),
        decreases rest.len(),
    {
        let mut s = rest.remove(0);
        proof {
            assert(orig.skip(out@.len() as int)[0] == orig[out@.len() as int]);
            assert(rest@ =~= orig.skip(out@.len() as int + 1));
        }
        enrich_one(client, &mut s);
        out.push(s);
    }
    out
}


/// Pairwise distinct dedup keys.
pub open spec fn distinct_images(cards: Seq<SpoilerModel>) -> bool {
    forall|i: int, j: int|
        #![trigger cards[i].image, cards[j].image]
        0 <= i < j < cards.len() ==> cards[i].image != cards[j].image
}

/// No card's key is in `known`.
pub open spec fn none_known(cards: Seq<SpoilerModel>, known: Set<Seq<char>>) -> bool {
    forall|i: int| 0 <= i < cards.len() ==> !known.contains(#[trigger] cards[i].image)
}

/// The one-shot gate: a store that knows nothing and records nothing
/// (the no-op store) passes every stub through unchanged.
pub proof fn lemma_filter_new_no_store(stubs: Seq<SpoilerModel>)
    ensures
        spec_filter_new(stubs, Set::empty(), false) == stubs,
    decreases stubs.len(),
{
    if stubs.len() > 0 {
        lemma_filter_new_no_store(stubs.drop_first());
        assert(seq![stubs[0]] + stubs.drop_first() =~= stubs);
    }
}

/// A key reported new is never reported new again within the same run:
/// the records a remembering store lets through carry pairwise distinct
/// keys, none of them previously known.
pub proof fn lemma_filter_new_distinct(stubs: Seq<SpoilerModel>, known: Set<Seq<char>>)
    ensures
        distinct_images(spec_filter_new(stubs, known, true)),
        none_known(spec_filter_new(stubs, known, true), known),
    decreases stubs.len(),
{
    if stubs.len() > 0 {
        let key = stubs[0].image;
        let known2 = known.insert(key);
        lemma_filter_new_distinct(stubs.drop_first(), known2);
        let rest = spec_filter_new(stubs.drop_first(), known2, true);
        if !known.contains(key) {
            let kept = seq![stubs[0]] + rest;
            assert forall|i: int, j: int|
                #![trigger kept[i].image, kept[j].image]
                0 <= i < j < kept.len() implies kept[i].image != kept[j].image by {
                if i == 0 {
                    assert(kept[j] == rest[j - 1]);
                    assert(!known2.contains(rest[j - 1].image));
                } else {
                    assert(kept[i] == rest[i - 1]);
                    assert(kept[j] == rest[j - 1]);
                }
            }
            assert forall|i: int| 0 <= i < kept.len() implies !known.contains(
                #[trigger] kept[i].image,
            ) by {
                if i > 0 {
                    assert(kept[i] == rest[i - 1]);
                    assert(!known2.contains(rest[i - 1].image));
                }
            }
        }
    }
}

/// What a successful run returns, given the store's state and the
/// listing body: exactly the new stubs of the listing, oldest-first
/// (reversed), each enriched in place or left as parsed.
pub open spec fn spec_run_post(
    known0: Set<Seq<char>>,
    remembers: bool,
    body: Seq<char>,
    out: Seq<SpoilerModel>,
) -> bool {
    let kept = spec_filter_new(spec_parse_listing(body), known0, remembers);
    &&& out.len() == kept.len()
    &&& forall|i: int| 0 <= i < out.len() ==> spec_enriched_from(
        kept[kept.len() - 1 - i],
        #[trigger] out[i],
    )
}

/// The run on one already-fetched listing body: parse, gate through the
/// store in document order, persist the store, reverse, enrich. A
/// persistence failure is surfaced and aborts the run before enrichment;
/// a store with nothing to persist can never fail.
pub fn new_cards_from_listing<Db: Cache, F: Fetch>(db: Db, client: &F, body: &str) -> (r: Result<
    Vec<Spoiler>,
    Error,
>)
    requires
        db.wf(),
    ensures
        match r {
            Ok(cards) => spec_run_post(
                db.known(),
                db.remembers(),
                body@,
                views_of(cards@),
            ),
            Err(e) => e is Io && !db.persists_trivially(),
        },
{
    let ghost known0 = db.known();
    let ghost rem = db.remembers();
    let mut db = db;
    let stubs = parse_listing(body);
    let kept = filter_new(&mut db, stubs);
    let ghost kept_model = views_of(kept@);
    match db.persist() {
        Err(e) => {
            return Err(e);
        },
        Ok(()) => {},
    }
    let rev = reverse_vec(kept);
    let ghost rev_model = views_of(rev@);
    proof {
        assert forall|i: int| 0 <= i < rev_model.len() implies rev_model[i]
            == kept_model[kept_model.len() - 1 - i] by {
            assert(rev@[i] == kept@[kept@.len() - 1 - i]);
        }
    }
    let out = enrich_all(client, rev);
    let ghost out_model = views_of(out@);
    proof {
        assert forall|i: int| 0 <= i < out_model.len() implies spec_enriched_from(
            kept_model[kept_model.len() - 1 - i],
            #[trigger] out_model[i],
        ) by {
            assert(spec_enriched_from(rev@[i]@, out@[i]@));
            assert(rev_model[i] == rev@[i]@);
            assert(out_model[i] == out@[i]@);
        }
    }
    Ok(out)
}

/// One full run: fetch the listing, then run the pipeline on its body.
/// A listing fetch failure is fatal and reported as `Reqwest`; the only
/// other failure is the store's persistence.
pub fn new_cards<Db: Cache, F: Fetch>(db: Db, client: &F) -> (r: Result<Vec<Spoiler>, Error>)
    requires
        db.wf(),
    ensures
        match r {
            Ok(cards) => exists|body: Seq<char>| spec_run_post(
                db.known(),
                db.remembers(),
                body,
                views_of(cards@),
            ),
            Err(e) => e is Reqwest || (e is Io && !db.persists_trivially()),
        },
{
    let url = based("newspoilers.html");
    match client.get(url.as_str()) {
        Err(m) => Err(Error::Reqwest(m)),
        Ok(body) => {
            match new_cards_from_listing(db, client, body.as_str()) {
                Ok(cards) => {
                    proof {
                        assert(spec_run_post(
                            db.known(),
                            db.remembers(),
                            body@,
                            views_of(cards@),
                        ));
                    }
                    Ok(cards)
                },
                Err(e) => Err(e),
            }
        },
    }
}

/// The faces of one card page: fetch the page at `url`, then assemble
/// its faces. Only a fetch failure is an error.
pub fn get_card_text<F: Fetch>(client: &F, url: &str) -> (r: Result<Vec<CardText>, Error>)
    ensures
        match r {
            Ok(texts) => exists|body: Seq<char>|
                card_views_of(texts@) == #[trigger] spec_card_texts(body),
            Err(e) => e is Reqwest,
        },
{
    match client.get(url) {
        Err(m) => Err(Error::Reqwest(m)),
        Ok(body) => {
            let texts = parse_card_texts(body.as_str());
            proof {
                assert(card_views_of(texts@) == spec_card_texts(body@));
            }
            Ok(texts)
        },
    }
}

fn is_send<T: Send>(_t: T) {
}

/// Compile-time check that the stores handed to the pipeline can cross
/// task boundaries.
pub fn _assert() {
    is_send(crate::cache::empty::Empty);
}


} // verus!
