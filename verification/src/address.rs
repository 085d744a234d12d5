//! Absolute URLs as the crawl sees them, and the calls into the `url` crate
//! that make them.

use vstd::prelude::*;
use vstd::string::StringExecFns;

verus! {

/// What the crawl reads of a URL: its canonical text, by which two URLs are
/// the same, and its domain where the host is a domain name.
pub struct UrlModel {
    pub address: Seq<char>,
    pub domain: Option<Seq<char>>,
}

/// An absolute URL.
#[derive(Debug, Clone, PartialEq, Eq)]
pub struct ResolvedUrl {
    /// The serialization of the URL.
    pub address: String,
    /// The host, where it is a domain name and not an IP address.
    pub domain: Option<String>,
}

impl View for ResolvedUrl {
    type V = UrlModel;

    open spec fn view(&self) -> UrlModel {
        UrlModel {
            address: self.address@,
            domain: match self.domain {
                Some(d) => Some(d@),
                None => None,
            },
        }
    }
}

impl ResolvedUrl {
    /// A copy of this URL.
    pub fn duplicate(&self) -> (copy: ResolvedUrl)
        ensures
            copy@ == self@,
    {
        let domain = match &self.domain {
            Some(d) => Some(d.clone()),
            None => None,
        };
        ResolvedUrl { address: self.address.clone(), domain }
    }

    /// Whether the host of this URL is the domain `domain`.
    pub fn on_domain(&self, domain: &str) -> (same: bool)
        ensures
            same == (self@.domain == Some(domain@)),
    {
        match &self.domain {
            Some(d) => {
                let wanted = String::from_str(domain);
                *d == wanted
            },
            None => false,
        }
    }
}

#[verifier::external_type_specification]
#[verifier::external_body]
pub struct ExParseError(url::ParseError);

/// The URL that `url::Url::parse` reads from `input`, or `None` where it
/// returns an error.
pub uninterp spec fn parsed_url(input: Seq<char>) -> Option<UrlModel>;

/// The URL that `url::Url::join` resolves `reference` to against the URL that
/// `url::Url::parse` reads from `base`, or `None` where either returns an
/// error.
pub uninterp spec fn joined_url(base: Seq<char>, reference: Seq<char>) -> Option<UrlModel>;

/// Calls `url::Url::parse` on `input`. The result holds the serialization
/// (`Url::as_str`) and the domain (`Url::domain`) of the URL that was read;
/// the crate's error comes back as it is.
#[verifier::external_body]
fn parse_absolute(input: &str) -> (r: Result<ResolvedUrl, url::ParseError>)
    ensures
        match r {
            Ok(u) => parsed_url(input@) == Some(u@),
            Err(_) => parsed_url(input@) is None,
        },
{
    match url::Url::parse(input) {
        Ok(u) => Ok(ResolvedUrl { domain: u.domain().map(str::to_owned), address: u.into() }),
        Err(e) => Err(e),
    }
}

/// Reads `base` with `url::Url::parse` and calls `url::Url::join` on it with
/// `reference`. The result holds the serialization and the domain of the URL
/// that `join` made; an error of either call comes back as it is.
#[verifier::external_body]
pub(crate) fn join_reference(base: &str, reference: &str) -> (r: Result<ResolvedUrl, url::ParseError>)
    ensures
        match r {
            Ok(u) => joined_url(base@, reference@) == Some(u@),
            Err(_) => joined_url(base@, reference@) is None,
        },
{
    match url::Url::parse(base) {
        Ok(b) => match b.join(reference) {
            Ok(u) => Ok(ResolvedUrl { domain: u.domain().map(str::to_owned), address: u.into() }),
            Err(e) => Err(e),
        },
        Err(e) => Err(e),
    }
}

/// The absolute URL that `path` names on the site `domain`: `path` joined
/// onto `http://domain`. `None` where the base or the joined text is no URL.
pub open spec fn resolved(domain: Seq<char>, path: Seq<char>) -> Option<UrlModel> {
    joined_url("http://"@ + domain, path)
}

/// Why a crawl cannot start from a text.
#[derive(Debug, Clone, PartialEq, Eq)]
pub enum SeedError {
    /// The text is no absolute URL.
    Unparsable,
    /// The URL has no domain to confine the crawl to.
    NoDomain,
}

/// Whether a crawl can start from what reading a text gave: it has to be a
/// URL whose host is a domain name.
pub fn seed_of(parsed: Result<ResolvedUrl, url::ParseError>) -> (seed: Result<
    ResolvedUrl,
    SeedError,
>)
    ensures
        match parsed {
            Ok(url) => if url@.domain is Some {
                seed is Ok && seed->Ok_0@ == url@
            } else {
                seed == Err::<ResolvedUrl, SeedError>(SeedError::NoDomain)
            },
            Err(_) => seed == Err::<ResolvedUrl, SeedError>(SeedError::Unparsable),
        },
{
    match parsed {
        Ok(url) => {
            if url.domain.is_some() {
                Ok(url)
            } else {
                Err(SeedError::NoDomain)
            }
        },
        Err(_) => Err(SeedError::Unparsable),
    }
}

/// Reads the URL to start a crawl from. It has to be an absolute URL whose
/// host is a domain name.
pub fn seed_url(text: &str) -> (seed: Result<ResolvedUrl, SeedError>)
    ensures
        match seed {
            Ok(url) => parsed_url(text@) == Some(url@) && url@.domain is Some,
            Err(SeedError::Unparsable) => parsed_url(text@) is None,
            Err(SeedError::NoDomain) => parsed_url(text@) is Some && parsed_url(
                text@,
            )->0.domain is None,
        },
{
    seed_of(parse_absolute(text))
}

} // verus!
