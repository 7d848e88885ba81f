//! Endpoint URLs: a base host, with or without a scheme, and a path below it.

use crate::text::{chars_of, join2, string_of, trim_start_char, without_leading};
use vstd::prelude::*;

verus! {

/// The error of the `url` crate's parser.
#[verifier::external_type_specification]
#[verifier::external_body]
pub struct ExParseError(url::ParseError);

/// The text of the URL that `url::Url::parse` makes of `text`; `None` where it refuses `text`.
pub uninterp spec fn parsed_url(text: Seq<char>) -> Option<Seq<char>>;

/// The text of the URL `url` after `url::Url::set_path` has set its path to `path`; `None`
/// where `url` is no URL.
pub uninterp spec fn url_with_path(url: Seq<char>, path: Seq<char>) -> Option<Seq<char>>;

/// The text of the URL `url` after the pair `key`, `value` was appended to its query, as
/// `url::Url::query_pairs_mut` and `append_pair` do it; `None` where `url` is no URL.
pub uninterp spec fn url_with_query_pair(
    url: Seq<char>,
    key: Seq<char>,
    value: Seq<char>,
) -> Option<Seq<char>>;

/// Whether a URL and a text to be put into it are short enough for the `url` crate, which
/// keeps its offsets in 32 bits and panics beyond them. Every character of either text may
/// take four bytes, and three times that once the parser has percent-encoded it.
pub open spec fn fits_in_url(url: Seq<char>, added: Seq<char>) -> bool {
    12 * url.len() + 12 * added.len() + 16 <= u32::MAX
}

/// `url::Url::parse`: the parsed URL's text is named [`parsed_url`]; the call fails exactly
/// where that is `None`.
#[verifier::external_body]
fn parse_url(text: &str) -> (parsed: Result<String, url::ParseError>)
    ensures
        match parsed {
            Ok(url) => parsed_url(text@) == Some(url@),
            Err(_) => parsed_url(text@) is None,
        },
{
    url::Url::parse(text).map(String::from)
}

/// `url::Url::set_path` on the URL that `url` writes: the resulting text is named
/// [`url_with_path`]. The lengths are bounded because the crate panics on a URL of more than
/// `u32::MAX` bytes, and `url` is parsed, and so encoded, once more on the way.
#[verifier::external_body]
fn set_url_path(url: &str, path: &str) -> (changed: Result<String, url::ParseError>)
    requires
        fits_in_url(url@, path@),
    ensures
        match changed {
            Ok(text) => url_with_path(url@, path@) == Some(text@),
            Err(_) => url_with_path(url@, path@) is None,
        },
{
    let mut parsed = url::Url::parse(url)?;
    parsed.set_path(path);
    Ok(String::from(parsed))
}

/// `append_pair` on the `url::Url::query_pairs_mut` of the URL that `url` writes: the
/// resulting text is named [`url_with_query_pair`]. The lengths are bounded as for the path.
#[verifier::external_body]
fn append_url_query_pair(url: &str, key: &str, value: &str) -> (changed: Result<
    String,
    url::ParseError,
>)
    requires
        fits_in_url(url@, key@ + value@),
    ensures
        match changed {
            Ok(text) => url_with_query_pair(url@, key@, value@) == Some(text@),
            Err(_) => url_with_query_pair(url@, key@, value@) is None,
        },
{
    let mut parsed = url::Url::parse(url)?;
    parsed.query_pairs_mut().append_pair(key, value);
    Ok(String::from(parsed))
}

/// Why no URL could be built.
#[derive(Clone, Copy, Debug, PartialEq, Eq, Structural)]
pub enum UrlError {
    /// The base is no URL, with or without the default scheme in front.
    Invalid,
    /// The URL would be longer than the parser can hold.
    TooLong,
}

/// The URL of a base host: `base` as it stands if it is an absolute URL, else `base` behind
/// the default scheme `http://`.
pub open spec fn base_url(base: Seq<char>) -> Option<Seq<char>> {
    match parsed_url(base) {
        Some(url) => Some(url),
        None => parsed_url("http://"@ + base),
    }
}

/// The URL of `base` with its path set to `path`.
pub open spec fn url_at(base: Seq<char>, path: Seq<char>) -> Result<Seq<char>, UrlError> {
    match base_url(base) {
        None => Err(UrlError::Invalid),
        Some(url) => if !fits_in_url(url, path) {
            Err(UrlError::TooLong)
        } else {
            match url_with_path(url, path) {
                Some(text) => Ok(text),
                None => Err(UrlError::Invalid),
            }
        },
    }
}

/// `path` behind exactly one `/`: its own leading slashes are dropped first. What follows
/// them stays as it is, a trailing `/` included.
pub open spec fn rooted(path: Seq<char>) -> Seq<char> {
    seq!['/'] + without_leading(path, '/')
}

/// `path` with a `/` in front unless it begins with one.
pub open spec fn with_leading_slash(path: Seq<char>) -> Seq<char> {
    if path.len() > 0 && path[0] == '/' {
        path
    } else {
        seq!['/'] + path
    }
}

/// `path` with a `/` behind it unless it ends in one.
pub open spec fn with_trailing_slash(path: Seq<char>) -> Seq<char> {
    if path.len() > 0 && path.last() == '/' {
        path
    } else {
        path.push('/')
    }
}

fn chars_fit(url: &str, added: &str) -> (fits: bool)
    ensures
        fits == fits_in_url(url@, added@),
{
    let a = url.unicode_len();
    let b = added.unicode_len();
    12 * (a as u128) + 12 * (b as u128) + 16 <= 0xffff_ffff
}

fn parse_base(base: &str) -> (url: Option<String>)
    ensures
        match url {
            Some(text) => base_url(base@) == Some(text@),
            None => base_url(base@) is None,
        },
{
    match parse_url(base) {
        Ok(url) => Some(url),
        Err(_) => {
            let with_scheme = join2("http://", base);
            match parse_url(with_scheme.as_str()) {
                Ok(url) => Some(url),
                Err(_) => None,
            }
        },
    }
}

fn url_of(base: &str, path: &str) -> (url: Result<String, UrlError>)
    ensures
        match url {
            Ok(text) => url_at(base@, path@) == Ok::<Seq<char>, UrlError>(text@),
            Err(e) => url_at(base@, path@) == Err::<Seq<char>, UrlError>(e),
        },
{
    match parse_base(base) {
        None => Err(UrlError::Invalid),
        Some(parsed) => {
            if !chars_fit(parsed.as_str(), path) {
                return Err(UrlError::TooLong);
            }
            match set_url_path(parsed.as_str(), path) {
                Ok(text) => Ok(text),
                Err(_) => Err(UrlError::Invalid),
            }
        },
    }
}

/// `path` without its leading slashes.
pub fn endpoint_path(path: &str) -> (cleaned: String)
    ensures
        cleaned@ == without_leading(path@, '/'),
{
    trim_start_char(path, '/')
}

/// `path` behind exactly one `/`.
pub fn rooted_path(path: &str) -> (r: String)
    ensures
        r@ == rooted(path@),
{
    let cleaned = endpoint_path(path);
    proof {
        reveal_strlit("/");
        assert("/"@ =~= seq!['/']);
    }
    join2("/", cleaned.as_str())
}

/// The URL of `endpoint` on `base`. `base` is taken as an absolute URL, or else as a bare
/// `host[:port]` behind `http://`; the URL's path is then set to `endpoint` behind exactly
/// one `/`, whatever path `base` had. Fails where `base` is no URL either way, and where the
/// URL would be too long for the parser.
pub fn build_endpoint_url(base: &str, endpoint: &str) -> (url: Result<String, UrlError>)
    ensures
        match url {
            Ok(text) => url_at(base@, rooted(endpoint@)) == Ok::<Seq<char>, UrlError>(text@),
            Err(e) => url_at(base@, rooted(endpoint@)) == Err::<Seq<char>, UrlError>(e),
        },
{
    let path = rooted_path(endpoint);
    url_of(base, path.as_str())
}

/// The URL of the remote `path` on `base`, for downloads and listings: as
/// [`build_endpoint_url`]. The trailing `/` of `path`, which tells a directory from a file,
/// is part of what is handed over.
pub fn normalize_url(base: &str, path: &str) -> (url: Result<String, UrlError>)
    ensures
        match url {
            Ok(text) => url_at(base@, rooted(path@)) == Ok::<Seq<char>, UrlError>(text@),
            Err(e) => url_at(base@, rooted(path@)) == Err::<Seq<char>, UrlError>(e),
        },
{
    build_endpoint_url(base, path)
}

/// `url` with the pair `key`, `value` appended to its query.
pub open spec fn url_and_pair(url: Seq<char>, key: Seq<char>, value: Seq<char>) -> Result<
    Seq<char>,
    UrlError,
> {
    if !fits_in_url(url, key + value) {
        Err(UrlError::TooLong)
    } else {
        match url_with_query_pair(url, key, value) {
            Some(text) => Ok(text),
            None => Err(UrlError::Invalid),
        }
    }
}

/// Appends the pair `key`, `value` to the query of `url`. Fails where `url` is no URL, and
/// where the result would be too long for the parser.
pub fn with_query_pair(url: &str, key: &str, value: &str) -> (changed: Result<String, UrlError>)
    ensures
        match changed {
            Ok(text) => url_and_pair(url@, key@, value@) == Ok::<Seq<char>, UrlError>(text@),
            Err(e) => url_and_pair(url@, key@, value@) == Err::<Seq<char>, UrlError>(e),
        },
{
    let both = join2(key, value);
    if !chars_fit(url, both.as_str()) {
        return Err(UrlError::TooLong);
    }
    match append_url_query_pair(url, key, value) {
        Ok(text) => Ok(text),
        Err(_) => Err(UrlError::Invalid),
    }
}

/// `path` with a `/` in front unless it begins with one.
pub fn ensure_leading_slash(path: &str) -> (r: String)
    ensures
        r@ == with_leading_slash(path@),
{
    let v = chars_of(path);
    if v.len() > 0 && v[0] == '/' {
        string_of(&v)
    } else {
        proof {
            reveal_strlit("/");
            assert("/"@ =~= seq!['/']);
        }
        join2("/", path)
    }
}

/// `path` with a `/` behind it unless it ends in one.
pub fn ensure_trailing_slash(path: &str) -> (r: String)
    ensures
        r@ == with_trailing_slash(path@),
{
    let v = chars_of(path);
    if v.len() > 0 && v[v.len() - 1] == '/' {
        string_of(&v)
    } else {
        proof {
            reveal_strlit("/");
            assert(path@ + "/"@ =~= path@.push('/'));
        }
        join2(path, "/")
    }
}

/// `n` slashes.
pub open spec fn slashes(n: nat) -> Seq<char> {
    Seq::new(n, |i: int| '/')
}

/// How many slashes stand at the front of `path`.
pub open spec fn leading_slashes(path: Seq<char>) -> nat
    decreases path.len(),
{
    if path.len() > 0 && path[0] == '/' {
        1 + leading_slashes(path.drop_first())
    } else {
        0
    }
}

/// Dropping the leading slashes of a path drops slashes only, and all of them: what is left
/// does not begin with a slash, and ends as the path ends.
pub proof fn lemma_without_leading_slashes(path: Seq<char>)
    ensures
        path == slashes(leading_slashes(path)) + without_leading(path, '/'),
        without_leading(path, '/').len() > 0 ==> without_leading(path, '/')[0] != '/',
        without_leading(path, '/').len() > 0 ==> without_leading(path, '/').last() == path.last(),
    decreases path.len(),
{
    let rest = without_leading(path, '/');
    if path.len() > 0 && path[0] == '/' {
        let tail = path.drop_first();
        lemma_without_leading_slashes(tail);
        let m = leading_slashes(tail);
        assert(path =~= seq!['/'] + tail);
        assert(slashes(m + 1) =~= seq!['/'] + slashes(m));
        assert(path =~= slashes(m + 1) + rest);
        if rest.len() > 0 {
            assert(tail.last() == path.last());
        }
    } else {
        assert(path =~= slashes(0) + rest);
    }
}

/// The path handed to the URL for a remote path begins with exactly one `/`; behind it stands
/// the remote path without its leading slashes, so a trailing `/` is kept.
pub proof fn lemma_rooted_has_one_leading_slash(path: Seq<char>)
    ensures
        rooted(path)[0] == '/',
        rooted(path).len() > 1 ==> rooted(path)[1] != '/',
        path == slashes(leading_slashes(path)) + rooted(path).skip(1),
        rooted(path).len() > 1 ==> rooted(path).last() == path.last(),
{
    lemma_without_leading_slashes(path);
    assert(rooted(path).skip(1) =~= without_leading(path, '/'));
}

} // verus!
