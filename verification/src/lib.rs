//! Incremental discovery of newly spoiled trading cards.
//!
//! The crate turns one listing page into a batch of [`Spoiler`] records,
//! drops the ones an injected [`cache::Cache`] has already seen, persists
//! the cache, and then resolves a display name for each remaining record
//! from its detail page. Transport is injected through [`Fetch`], so the
//! pipeline itself is deterministic given the bodies the client returns.

use vstd::prelude::*;

pub mod cache;
pub mod mythic;
pub mod text;

verus! {

/// Attribution for a spoiler: who previewed the card, and (optionally)
/// a normalized link to where it was previewed.
#[derive(Debug, Clone, PartialEq, Eq, Hash)]
pub struct SpoilerSource {
    pub name: String,
    pub url: Option<String>,
}

/// Spec-level value of a [`SpoilerSource`].
pub ghost struct SourceModel {
    pub name: Seq<char>,
    pub url: Option<Seq<char>>,
}

impl View for SpoilerSource {
    type V = SourceModel;

    open spec fn view(&self) -> SourceModel {
        SourceModel { name: self.name@, url: self.url.deep_view() }
    }
}

/// One discovered card. `image` is the canonical image URL: it is both the
/// dedup key and the base from which the detail page URL is derived.
/// `name` stays `None` until enrichment succeeds.
#[derive(Debug, Clone, PartialEq, Eq, Hash)]
pub struct Spoiler {
    pub name: Option<String>,
    pub source_site_url: String,
    pub image: String,
    pub source: Option<SpoilerSource>,
}

/// Spec-level value of a [`Spoiler`].
pub ghost struct SpoilerModel {
    pub name: Option<Seq<char>>,
    pub source_site_url: Seq<char>,
    pub image: Seq<char>,
    pub source: Option<SourceModel>,
}

impl View for Spoiler {
    type V = SpoilerModel;

    open spec fn view(&self) -> SpoilerModel {
        SpoilerModel {
            name: self.name.deep_view(),
            source_site_url: self.source_site_url@,
            image: self.image@,
            source: match self.source {
                Some(s) => Some(s@),
                None => None,
            },
        }
    }
}

/// The rules text of one card face, scraped from a card page.
#[derive(Debug, Clone, Default, PartialEq, Eq)]
pub struct CardText {
    pub name: Option<String>,
    pub type_line: Option<String>,
    pub text: Option<String>,
}

/// Spec-level value of a [`CardText`].
pub ghost struct CardTextModel {
    pub name: Option<Seq<char>>,
    pub type_line: Option<Seq<char>>,
    pub text: Option<Seq<char>>,
}

impl View for CardText {
    type V = CardTextModel;

    open spec fn view(&self) -> CardTextModel {
        CardTextModel {
            name: self.name.deep_view(),
            type_line: self.type_line.deep_view(),
            text: self.text.deep_view(),
        }
    }
}

/// A fatal pipeline failure: either the listing fetch failed (`Reqwest`)
/// or the dedup snapshot could not be read or written (`Io`). Each variant
/// carries the underlying error rendered as text.
#[derive(Debug, Clone, PartialEq, Eq)]
pub enum Error {
    Reqwest(String),
    Io(String),
}

/// The outbound HTTP port: one plain GET, body decoded as UTF-8 text.
///
/// The pipeline takes the client as a parameter instead of reaching for a
/// process-wide singleton, so a run can be driven by any transport — the
/// real one lives outside the verified crate. Nothing is assumed about
/// what a `get` returns: every caller states what holds of its result
/// whatever body or error comes back.
pub trait Fetch {
    fn get(&self, url: &str) -> Result<String, String>;
}

} // verus!
