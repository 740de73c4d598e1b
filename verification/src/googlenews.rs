//! Google News RSS: the feed model, article identifiers, description cleanup
//! and search URLs.

use vstd::prelude::*;
use crate::text::{append_str, chars_of, join, join_chars, percent_encode, split_whitespace_chars, string_of, url_encode, words};

verus! {

/// The Google News RSS search endpoint.
pub const RSS_BASE: &'static str = "https://news.google.com/rss/search";

/// A parsed RSS document.
#[derive(Debug, Clone)]
pub struct RssFeed {
    pub channel: Channel,
}

/// The channel of a feed and its items.
#[derive(Debug, Clone)]
pub struct Channel {
    pub items: Vec<RssItem>,
}

/// One article of a feed.
#[derive(Debug, Clone)]
pub struct RssItem {
    pub title: Option<String>,
    pub link: Option<String>,
    pub guid: Option<Guid>,
    pub pub_date: Option<String>,
    pub description: Option<String>,
    pub source: Option<Source>,
}

/// The `guid` element, whose text is the article's stable identifier.
#[derive(Debug, Clone)]
pub struct Guid {
    pub value: String,
}

/// The `source` element: the publisher's URL attribute and its name.
#[derive(Debug, Clone)]
pub struct Source {
    pub url: Option<String>,
    pub name: String,
}

impl Default for RssItem {
    fn default() -> (r: RssItem)
        ensures
            r.title is None && r.link is None && r.guid is None && r.pub_date is None
                && r.description is None && r.source is None,
    {
        RssItem { title: None, link: None, guid: None, pub_date: None, description: None, source: None }
    }
}

/// The stable identifier of an item: the non-empty guid, else the non-empty
/// link.
pub open spec fn stable_id_spec(item: RssItem) -> Option<Seq<char>> {
    if item.guid matches Some(g) && g.value@.len() > 0 {
        Some(item.guid->0.value@)
    } else if item.link matches Some(l) && l@.len() > 0 {
        Some(item.link->0@)
    } else {
        None
    }
}

impl RssItem {
    /// Stable identifier for an article: the RSS `guid`, falling back to the link.
    pub fn stable_id(&self) -> (r: Option<&str>)
        ensures
            match stable_id_spec(*self) {
                Some(s) => r matches Some(v) && v@ == s,
                None => r is None,
            },
    {
        if let Some(g) = &self.guid {
            if !g.value.as_str().is_empty() {
                return Some(g.value.as_str());
            }
        }
        if let Some(l) = &self.link {
            if !l.as_str().is_empty() {
                return Some(l.as_str());
            }
        }
        None
    }

    /// The publisher's name, when present and not empty.
    pub fn source_name(&self) -> (r: Option<&str>)
        ensures
            match self.source {
                Some(s) => if s.name@.len() > 0 {
                    r matches Some(v) && v@ == s.name@
                } else {
                    r is None
                },
                None => r is None,
            },
    {
        match &self.source {
            Some(s) => {
                if s.name.as_str().is_empty() {
                    None
                } else {
                    Some(s.name.as_str())
                }
            },
            None => None,
        }
    }
}

/// Every character that is not an ASCII letter or digit replaced by `_`.
pub open spec fn sanitize_id_spec(raw: Seq<char>) -> Seq<char> {
    raw.map_values(|c: char| if crate::text::is_ascii_alnum_c(c) { c } else { '_' })
}

/// Sanitizes an article's stable id into a key safe for use in database ids.
pub fn sanitize_id(raw: &str) -> (r: String)
    ensures
        r@ == sanitize_id_spec(raw@),
        r@.len() == raw@.len(),
{
    let cs = chars_of(raw);
    let mut out: Vec<char> = Vec::new();
    let mut i: usize = 0;
    while i < cs.len()
        invariant
            i <= cs.len(),
            out@ == sanitize_id_spec(cs@.take(i as int)),
        decreases cs.len() - i,
    {
        let c = cs[i];
        let d = if crate::text::is_ascii_alphanumeric(c) { c } else { '_' };
        out.push(d);
        assert(sanitize_id_spec(cs@.take(i + 1)) == sanitize_id_spec(cs@.take(i as int)).push(d));
        i = i + 1;
    }
    assert(cs@.take(cs.len() as int) == cs@);
    string_of(&out)
}

/// The characters of `s` outside `<...>` tags: `<` opens a tag, `>` closes it.
pub open spec fn outside_tags(s: Seq<char>) -> (Seq<char>, bool)
    decreases s.len(),
{
    if s.len() == 0 {
        (Seq::empty(), false)
    } else {
        let (out, in_tag) = outside_tags(s.drop_last());
        let c = s.last();
        if c == '<' {
            (out, true)
        } else if c == '>' {
            (out, false)
        } else if !in_tag {
            (out.push(c), in_tag)
        } else {
            (out, in_tag)
        }
    }
}

/// The text of `s` without tags, its words separated by single spaces.
pub open spec fn strip_html_spec(s: Seq<char>) -> Seq<char> {
    join(words(outside_tags(s).0), seq![' '])
}

/// Strips HTML tags from an RSS description snippet and collapses whitespace.
pub fn strip_html(text: &str) -> (r: String)
    ensures
        r@ == strip_html_spec(text@),
{
    let cs = chars_of(text);
    let mut out: Vec<char> = Vec::new();
    let mut in_tag = false;
    let mut i: usize = 0;
    while i < cs.len()
        invariant
            i <= cs.len(),
            outside_tags(cs@.take(i as int)) == (out@, in_tag),
        decreases cs.len() - i,
    {
        let c = cs[i];
        assert(cs@.take(i + 1).drop_last() == cs@.take(i as int));
        assert(cs@.take(i + 1).last() == c);
        if c == '<' {
            in_tag = true;
        } else if c == '>' {
            in_tag = false;
        } else if !in_tag {
            out.push(c);
        }
        i = i + 1;
    }
    assert(cs@.take(cs.len() as int) == cs@);
    let ws = split_whitespace_chars(&out);
    let sep: Vec<char> = vec![' '];
    let joined = join_chars(&ws, &sep);
    assert(crate::text::views(ws@) == words(out@));
    assert(sep@ == seq![' ']);
    string_of(&joined)
}

/// The search query: the keyword, with ` when:W` after it when a time window
/// is given.
pub open spec fn search_query(keyword: Seq<char>, when: Seq<char>) -> Seq<char> {
    if when.len() == 0 {
        keyword
    } else {
        keyword + " when:"@ + when
    }
}

/// The URL-encoded form of `s`.
pub open spec fn enc(s: Seq<char>) -> Seq<char> {
    percent_encode(vstd::utf8::encode_utf8(s))
}

/// `{base}?q={query}&hl={language}&gl={country}&ceid={country}:{language}`,
/// every parameter URL-encoded.
pub open spec fn search_url_spec(base: Seq<char>, keyword: Seq<char>, when: Seq<char>, language: Seq<char>, country: Seq<char>) -> Seq<char> {
    base + "?q="@ + enc(search_query(keyword, when)) + "&hl="@ + enc(language) + "&gl="@ + enc(
        country,
    ) + "&ceid="@ + enc(country + ":"@ + language)
}

/// Builds a Google News RSS search URL for a single keyword.
pub fn build_search_url(base_url: &str, keyword: &str, when: &str, language: &str, country: &str) -> (r: String)
    ensures
        r@ == search_url_spec(base_url@, keyword@, when@, language@, country@),
{
    let mut query = chars_of(keyword);
    if !when.is_empty() {
        append_str(&mut query, " when:");
        append_str(&mut query, when);
    }
    let query_s = string_of(&query);
    let mut ceid = chars_of(country);
    append_str(&mut ceid, ":");
    append_str(&mut ceid, language);
    let ceid_s = string_of(&ceid);
    let q = url_encode(query_s.as_str());
    let hl = url_encode(language);
    let gl = url_encode(country);
    let ce = url_encode(ceid_s.as_str());
    let mut out = chars_of(base_url);
    append_str(&mut out, "?q=");
    append_str(&mut out, q.as_str());
    append_str(&mut out, "&hl=");
    append_str(&mut out, hl.as_str());
    append_str(&mut out, "&gl=");
    append_str(&mut out, gl.as_str());
    append_str(&mut out, "&ceid=");
    append_str(&mut out, ce.as_str());
    string_of(&out)
}

} // verus!
