use vstd::prelude::*;

verus! {

/// Whether `url::Url::parse` accepts the text.
pub uninterp spec fn url_parse_accepts(s: Seq<char>) -> bool;

/// The serialization (`Url::as_str`) of the URL that `url::Url::parse` makes of the text.
pub uninterp spec fn url_serialization(s: Seq<char>) -> Seq<char>;

/// The host (`Url::host_str`) of the URL that `url::Url::parse` makes of the text.
pub uninterp spec fn url_host(s: Seq<char>) -> Option<Seq<char>>;

/// Relies on `url::Url::parse` to accept or refuse the text, and on the parsed
/// URL's `as_str` and `host_str`. Parsing resolves default ports, case and an
/// empty path, so that equivalent spellings serialize alike.
#[verifier::external_body]
fn parse_url(s: &str) -> (r: Option<(String, Option<String>)>)
    ensures
        r is Some == url_parse_accepts(s@),
        r matches Some((text, host)) ==> {
            &&& text@ == url_serialization(s@)
            &&& host is Some == url_host(s@) is Some
            &&& host matches Some(h) ==> url_host(s@) == Some(h@)
        },
{
    match url::Url::parse(s) {
        Ok(u) => Some((u.as_str().to_string(), u.host_str().map(|h| h.to_string()))),
        Err(_) => None,
    }
}

/// A URL can be crawled when it parses and names a host.
pub open spec fn crawlable(s: Seq<char>) -> bool {
    url_parse_accepts(s) && url_host(s) is Some
}

/// Drops the trailing slash of the path, so that `a/b/` and `a/b` are the
/// same key. A URL with a query or a fragment keeps its text as it is.
pub open spec fn trim_slash(s: Seq<char>) -> Seq<char> {
    if s.len() > 0 && s.last() == '/' && !s.contains('?') && !s.contains('#') {
        s.drop_last()
    } else {
        s
    }
}

/// The canonical form of a crawlable URL: the key under which it is deduplicated.
pub open spec fn canonical(s: Seq<char>) -> Seq<char> {
    trim_slash(url_serialization(s))
}

/// The domain of a crawlable URL: its host.
pub open spec fn domain_of(s: Seq<char>) -> Seq<char> {
    url_host(s)->0
}

/// Whether the text holds the character.
fn has_char(s: &str, c: char) -> (r: bool)
    ensures
        r == s@.contains(c),
{
    let n = s.unicode_len();
    let mut i: usize = 0;
    while i < n
        invariant
            n == s@.len(),
            0 <= i <= n,
            forall|j: int| 0 <= j < i ==> s@[j] != c,
        decreases n - i,
    {
        if s.get_char(i) == c {
            return true;
        }
        i += 1;
    }
    false
}

/// A URL in canonical form together with its domain.
#[derive(Clone, Debug)]
pub struct CanonicalUrl {
    pub url: String,
    pub domain: String,
}

/// Parses and normalizes a URL; `None` when it does not parse or has no host.
pub fn canonicalize(s: &str) -> (r: Option<CanonicalUrl>)
    ensures
        r is Some == crawlable(s@),
        r matches Some(c) ==> c.url@ == canonical(s@) && c.domain@ == domain_of(s@),
{
    match parse_url(s) {
        Some((text, Some(host))) => {
            let n = text.as_str().unicode_len();
            let url = if n > 0 && text.as_str().get_char(n - 1) == '/' && !has_char(
                text.as_str(),
                '?',
            ) && !has_char(text.as_str(), '#') {
                text.as_str().substring_char(0, n - 1).to_owned()
            } else {
                text
            };
            proof {
                if n > 0 && url@ != text@ {
                    assert(url_serialization(s@).drop_last() =~= url_serialization(s@).subrange(0, n - 1));
                }
            }
            Some(CanonicalUrl { url, domain: host })
        },
        _ => None,
    }
}

} // verus!
