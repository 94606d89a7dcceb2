//! What the editor reads when it starts: the user's configuration file and,
//! in a browser, a document named in the page's address.

use vstd::prelude::*;
use crate::workspace::AppState;

verus! {

/// The string stored under the top-level `key` of the TOML document `text`:
/// `None` when `text` is not a TOML document, `Some(None)` when the key is
/// absent or holds something other than a string.
pub uninterp spec fn toml_string_field(text: Seq<char>, key: Seq<char>) -> Option<Option<Seq<char>>>;

/// The name/value pairs of the query of the URL `href`, in order, decoded;
/// `None` when `href` is not a URL.
pub uninterp spec fn url_query_pairs(href: Seq<char>) -> Option<Seq<(Seq<char>, Seq<char>)>>;

/// The URLs that a link finder recognizes in `text`, in order.
pub uninterp spec fn url_links(text: Seq<char>) -> Seq<Seq<char>>;

/// An optional string, by value.
pub open spec fn opt_view(s: Option<String>) -> Option<Seq<char>> {
    match s {
        Some(t) => Some(t@),
        None => None,
    }
}

/// Reads `text` as a TOML document (`toml::from_str` into a `toml::Value`)
/// and returns the string under the top-level `key` (`Value::get`, then
/// `Value::as_str`). The contract names the result and states nothing more
/// of the TOML grammar.
#[verifier::external_body]
fn read_toml_string(text: &str, key: &str) -> (field: Option<Option<String>>)
    ensures
        (match field {
            Some(v) => Some(opt_view(v)),
            None => None,
        }) == toml_string_field(text@, key@),
{
    match toml::from_str::<toml::Value>(text) {
        Err(_) => None,
        Ok(doc) => match doc.get(key) {
            None => Some(None),
            Some(v) => Some(v.as_str().map(str::to_owned)),
        },
    }
}

/// Parses `href` as a URL (`url::Url::parse`) and returns its decoded query
/// pairs in order (`Url::query_pairs`, owned); `None` when parsing fails.
#[verifier::external_body]
fn read_query_pairs(href: &str) -> (pairs: Option<Vec<(String, String)>>)
    ensures
        (match pairs {
            Some(p) => Some(p@.map_values(|kv: (String, String)| (kv.0@, kv.1@))),
            None => None,
        }) == url_query_pairs(href@),
{
    match url::Url::parse(href) {
        Err(_) => None,
        Ok(url) => Some(url.query_pairs().into_owned().collect()),
    }
}

/// The URLs in `text`, in order, as `linkify::LinkFinder` finds them when
/// restricted to `LinkKind::Url`.
#[verifier::external_body]
fn find_url_links(text: &str) -> (links: Vec<String>)
    ensures
        links@.map_values(|l: String| l@) == url_links(text@),
{
    let mut finder = linkify::LinkFinder::new();
    finder.kinds(&[linkify::LinkKind::Url]);
    finder.links(text).map(|l| l.as_str().to_owned()).collect()
}

/// The configuration file's key for the GitHub access token.
pub const GITHUB_TOKEN_KEY: &'static str = "github_access_token";

/// The user's configuration.
pub struct Config {
    pub github_access_token: Option<String>,
}

/// The configuration read from the text of the configuration file: none
/// when the text is not TOML; otherwise the token is the string under
/// `github_access_token`, if there is one.
pub fn parse_config(text: &str) -> (config: Option<Config>)
    ensures
        match toml_string_field(text@, GITHUB_TOKEN_KEY@) {
            None => config is None,
            Some(token) => config is Some && opt_view(config->0.github_access_token) == token,
        },
{
    match read_toml_string(text, GITHUB_TOKEN_KEY) {
        None => None,
        Some(token) => Some(Config { github_access_token: token }),
    }
}

impl AppState {
    /// Takes the GitHub token from the configuration, when the configuration
    /// could be read and holds one; the state is otherwise unchanged.
    pub fn apply_config(&mut self, config: Option<Config>)
        ensures
            final(self).github_token == (match config {
                Some(c) => match c.github_access_token {
                    Some(t) => Some(t),
                    None => old(self).github_token,
                },
                None => old(self).github_token,
            }),
            final(self).current_document == old(self).current_document,
            final(self).docs == old(self).docs,
    {
        match config {
            Some(c) => match c.github_access_token {
                Some(t) => {
                    self.github_token = Some(t);
                },
                None => {},
            },
            None => {},
        }
    }
}

/// The name of the query parameter that names a document to open.
pub const DOCUMENT_PARAM: &'static str = "document";

/// The value of the last pair named `name`; later pairs win, as when the
/// pairs are gathered into a map.
pub open spec fn last_value(pairs: Seq<(Seq<char>, Seq<char>)>, name: Seq<char>) -> Option<Seq<char>>
    decreases pairs.len(),
{
    if pairs.len() == 0 {
        None
    } else if pairs.last().0 == name {
        Some(pairs.last().1)
    } else {
        last_value(pairs.drop_last(), name)
    }
}

/// The only element of a sequence of exactly one element.
pub open spec fn only_one(links: Seq<Seq<char>>) -> Option<Seq<char>> {
    if links.len() == 1 {
        Some(links[0])
    } else {
        None
    }
}

/// The document to fetch for a page address whose query pairs are given:
/// the value of its `document` parameter, if that value holds exactly one
/// URL.
pub open spec fn document_to_fetch_from(pairs: Seq<(Seq<char>, Seq<char>)>) -> Option<Seq<char>> {
    match last_value(pairs, DOCUMENT_PARAM@) {
        Some(v) => only_one(url_links(v)),
        None => None,
    }
}

fn str_eq(a: &str, b: &str) -> (same: bool)
    ensures
        same == (a@ == b@),
{
    let ac = crate::text::chars_of(a);
    let bc = crate::text::chars_of(b);
    if ac.len() != bc.len() {
        return false;
    }
    let mut i: usize = 0;
    while i < ac.len()
        invariant
            ac@ == a@,
            bc@ == b@,
            ac.len() == bc.len(),
            i <= ac.len(),
            forall|k: int| 0 <= k < i ==> ac@[k] == bc@[k],
        decreases ac.len() - i,
    {
        if ac[i] != bc[i] {
            return false;
        }
        i = i + 1;
    }
    proof {
        assert(a@ =~= b@);
    }
    true
}

/// The value of the last query pair named `document` (see `last_value`).
pub fn document_param(pairs: &Vec<(String, String)>) -> (value: Option<String>)
    ensures
        opt_view(value) == last_value(
            pairs@.map_values(|kv: (String, String)| (kv.0@, kv.1@)),
            DOCUMENT_PARAM@,
        ),
{
    let ghost views = pairs@.map_values(|kv: (String, String)| (kv.0@, kv.1@));
    let mut i: usize = pairs.len();
    proof {
        assert(views.take(i as int) =~= views);
    }
    while i > 0
        invariant
            i <= pairs.len(),
            views == pairs@.map_values(|kv: (String, String)| (kv.0@, kv.1@)),
            last_value(views, DOCUMENT_PARAM@) == last_value(views.take(i as int), DOCUMENT_PARAM@),
        decreases i,
    {
        proof {
            assert(views.take(i as int).drop_last() =~= views.take(i - 1));
            assert(views.take(i as int).last() == views[i - 1]);
        }
        if str_eq(pairs[i - 1].0.as_str(), DOCUMENT_PARAM) {
            return Some(pairs[i - 1].1.clone());
        }
        i = i - 1;
    }
    None
}

/// The document to fetch when the page's address is `href` (see
/// `document_to_fetch_from`); the address must be a URL.
pub fn document_to_fetch(href: &str) -> (url: Option<String>)
    requires
        url_query_pairs(href@) is Some,
    ensures
        opt_view(url) == document_to_fetch_from(url_query_pairs(href@)->0),
{
    let pairs = read_query_pairs(href).unwrap();
    match document_param(&pairs) {
        None => None,
        Some(value) => {
            let links = find_url_links(value.as_str());
            if links.len() == 1 {
                Some(links[0].clone())
            } else {
                None
            }
        },
    }
}

/// The document to fetch when the page's address is `href`: `None` when
/// `href` is not a URL, else the answer of `document_to_fetch`.
pub fn try_document_to_fetch(href: &str) -> (url: Option<Option<String>>)
    ensures
        url is Some <==> url_query_pairs(href@) is Some,
        url is Some ==> opt_view(url->0) == document_to_fetch_from(url_query_pairs(href@)->0),
{
    match read_query_pairs(href) {
        None => None,
        Some(_) => Some(document_to_fetch(href)),
    }
}

} // verus!
