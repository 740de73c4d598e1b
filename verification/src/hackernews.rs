//! Hacker News API model: items, errors, and endpoint URLs.

use vstd::prelude::*;
use crate::text::{append_str, chars_of, decimal, push_decimal, string_of};

verus! {

/// The Hacker News API base URL.
pub const DEFAULT_BASE_URL: &'static str = "https://hacker-news.firebaseio.com/v0";

/// A Hacker News item (story, comment, job...).
#[derive(Debug, Clone)]
pub struct HnItem {
    pub id: u64,
    pub title: Option<String>,
    pub url: Option<String>,
    pub score: Option<u32>,
    pub by: Option<String>,
    pub time: Option<i64>,
    pub item_type: Option<String>,
    pub descendants: Option<u32>,
}

/// Why a Hacker News call failed.
#[derive(Debug, Clone)]
pub enum HackerNewsError {
    Api(String),
    Decode(String),
    Other(String),
}

/// The text of each error.
pub open spec fn hn_error_message(e: HackerNewsError) -> Seq<char> {
    match e {
        HackerNewsError::Api(m) => "API error: "@ + m@,
        HackerNewsError::Decode(m) => "decode error: "@ + m@,
        HackerNewsError::Other(m) => m@,
    }
}

impl HackerNewsError {
    /// Human-readable description of the error.
    pub fn message(&self) -> (r: String)
        ensures
            r@ == hn_error_message(*self),
    {
        match self {
            HackerNewsError::Api(m) => {
                let mut v = chars_of("API error: ");
                append_str(&mut v, m.as_str());
                string_of(&v)
            },
            HackerNewsError::Decode(m) => {
                let mut v = chars_of("decode error: ");
                append_str(&mut v, m.as_str());
                string_of(&v)
            },
            HackerNewsError::Other(m) => m.clone(),
        }
    }
}

/// `{base}/topstories.json`.
pub fn top_stories_url(base_url: &str) -> (r: String)
    ensures
        r@ == base_url@ + "/topstories.json"@,
{
    let mut v = chars_of(base_url);
    append_str(&mut v, "/topstories.json");
    string_of(&v)
}

/// `{base}/item/{id}.json`.
pub fn item_url(base_url: &str, id: u64) -> (r: String)
    ensures
        r@ == base_url@ + "/item/"@ + decimal(id as nat) + ".json"@,
{
    let mut v = chars_of(base_url);
    append_str(&mut v, "/item/");
    push_decimal(&mut v, id);
    append_str(&mut v, ".json");
    string_of(&v)
}

} // verus!
