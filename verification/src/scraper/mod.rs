use vstd::prelude::*;

pub mod selector;

use crate::anilist::AnilistId;
use crate::anime::AnimeId;
use crate::text::{chars_of, string_of};

verus! {

/// A query to a remote archive, with the AniList id of the anime where it is known.
#[derive(Debug, Clone)]
pub struct Search {
    pub id: Option<AnimeId>,
    pub string: String,
}

impl Search {
    pub fn new(string: &str, id: Option<AnimeId>) -> (r: Self)
        ensures
            r.string@ == string@,
            r.id == id,
    {
        Search { id, string: string_of(chars_of(string).as_slice()) }
    }

    /// A copy of the query.
    pub fn duplicate(&self) -> (r: Self)
        ensures
            r.string@ == self.string@,
            r.id == self.id,
    {
        Search { id: self.id, string: self.string.clone() }
    }
}

/// How the scraper connects: a session cookie, a proxy and the AniList client.
#[derive(Debug)]
pub struct ScraperConfig {
    pub cookie: Option<String>,
    pub proxy: Option<String>,
    pub anilist_id: Option<AnilistId>,
}

} // verus!
