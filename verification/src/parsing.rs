//! The links of a page: which texts a document offers as links, and which
//! absolute URLs they name on the site being crawled.

use crate::address::{join_reference, resolved, ResolvedUrl, UrlModel};
use crate::fetching::{ErrorModel, UrlError};
use vstd::prelude::*;
use vstd::string::StringExecFns;

verus! {

/// For each element that `scraper::Html::select` yields, in that order, for
/// the selector that `scraper::Selector::parse` reads from `selector`, in the
/// document that `scraper::Html::parse_document` reads from `source`: what
/// `scraper::node::Element::attr` returns for `attribute`. `None` where
/// `selector` is no selector.
pub uninterp spec fn selected_attributes(
    source: Seq<char>,
    selector: Seq<char>,
    attribute: Seq<char>,
) -> Option<Seq<Option<Seq<char>>>>;

/// The texts of a list of strings.
pub open spec fn texts(strings: Seq<String>) -> Seq<Seq<char>> {
    strings.map_values(|s: String| s@)
}

/// The texts of a list of attribute values, some of them absent.
pub open spec fn attribute_texts(values: Seq<Option<String>>) -> Seq<Option<Seq<char>>> {
    values.map_values(
        |v: Option<String>|
            match v {
                Some(s) => Some(s@),
                None => None,
            },
    )
}

/// Parses `source` with `scraper::Html::parse_document` and `selector` with
/// `scraper::Selector::parse`, walks the elements that `scraper::Html::select`
/// yields, and takes from each what `scraper::node::Element::attr` returns
/// for `attribute`. `None` where the selector does not parse.
#[verifier::external_body]
fn select_attribute(source: &str, selector: &str, attribute: &str) -> (found: Option<
    Vec<Option<String>>,
>)
    ensures
        match found {
            Some(values) => selected_attributes(source@, selector@, attribute@) == Some(
                attribute_texts(values@),
            ),
            None => selected_attributes(source@, selector@, attribute@) is None,
        },
{
    match scraper::Selector::parse(selector) {
        Ok(parsed) => {
            let document = scraper::Html::parse_document(source);
            let mut values = Vec::new();
            for node in document.select(&parsed) {
                values.push(node.value().attr(attribute).map(str::to_owned));
            }
            Some(values)
        },
        Err(_) => None,
    }
}

/// The attribute values that are there, in order.
pub open spec fn present(values: Seq<Option<Seq<char>>>) -> Seq<Seq<char>>
    decreases values.len(),
{
    if values.len() == 0 {
        Seq::empty()
    } else {
        let before = present(values.drop_last());
        match values.last() {
            Some(text) => before.push(text),
            None => before,
        }
    }
}

/// The link texts that one kind of element contributes.
pub open spec fn links_of(source: Seq<char>, selector: Seq<char>, attribute: Seq<char>) -> Seq<
    Seq<char>,
> {
    match selected_attributes(source, selector, attribute) {
        Some(values) => present(values),
        None => Seq::empty(),
    }
}

/// Every link text of a document: the `href` of its anchors, then the `src`
/// of its images, then the `href` of its `link` elements.
pub open spec fn links_in(source: Seq<char>) -> Seq<Seq<char>> {
    links_of(source, "a"@, "href"@) + links_of(source, "img"@, "src"@) + links_of(
        source,
        "link"@,
        "href"@,
    )
}

/// Appends to `urls` those of `values` that are there, in order.
pub fn keep_present(urls: &mut Vec<String>, values: &Vec<Option<String>>)
    ensures
        texts(final(urls)@) == texts(old(urls)@) + present(attribute_texts(values@)),
{
    let ghost before = texts(urls@);
    let ghost all = attribute_texts(values@);
    let mut i: usize = 0;
    while i < values.len()
        invariant
            i <= values.len(),
            all == attribute_texts(values@),
            texts(urls@) == before + present(all.take(i as int)),
        decreases values.len() - i,
    {
        proof {
            assert(all.take(i + 1).drop_last() == all.take(i as int));
            assert(all.take(i + 1).last() == all[i as int]);
        }
        match &values[i] {
            Some(text) => {
                let ghost grown = texts(urls@).push(text@);
                urls.push(text.clone());
                assert(texts(urls@) == grown);
            },
            None => {},
        }
        i += 1;
    }
    assert(all.take(values.len() as int) == all);
}

/// Appends to `urls` the values of `attribute` on the elements of `source`
/// that `selector` matches.
fn collect_links(urls: &mut Vec<String>, source: &str, selector: &str, attribute: &str)
    ensures
        texts(final(urls)@) == texts(old(urls)@) + links_of(source@, selector@, attribute@),
{
    match select_attribute(source, selector, attribute) {
        Some(values) => keep_present(urls, &values),
        None => {},
    }
}

/// Extracts all the link texts from `source_str`.
pub fn get_urls(source_str: &str) -> (urls: Vec<String>)
    ensures
        texts(urls@) == links_in(source_str@),
{
    let mut urls: Vec<String> = Vec::new();
    assert(texts(urls@) == Seq::<Seq<char>>::empty());
    collect_links(&mut urls, source_str, "a", "href");
    collect_links(&mut urls, source_str, "img", "src");
    collect_links(&mut urls, source_str, "link", "href");
    urls
}

/// What resolving the link text `path` comes to, where `joined` is what
/// joining it onto the site gave: the URL, or the text reported as malformed,
/// unchanged.
pub fn or_malformed(joined: Result<ResolvedUrl, url::ParseError>, path: &str) -> (r: Result<
    ResolvedUrl,
    UrlError,
>)
    ensures
        match joined {
            Ok(url) => r is Ok && r->Ok_0@ == url@,
            Err(_) => r is Err && r->Err_0@ == ErrorModel::Malformed(path@),
        },
{
    match joined {
        Ok(url) => Ok(url),
        Err(_) => Err(UrlError::Malformed(String::from_str(path))),
    }
}

/// Resolves `path`, as found in a page of the site `domain`, to an absolute
/// URL. A text that does not resolve is reported as malformed, unchanged.
pub fn build_url(domain: &str, path: &str) -> (r: Result<ResolvedUrl, UrlError>)
    ensures
        match r {
            Ok(url) => resolved(domain@, path@) == Some(url@),
            Err(e) => resolved(domain@, path@) is None && e@ == ErrorModel::Malformed(path@),
        },
{
    let base_url_string = String::from_str("http://").concat(domain);
    or_malformed(join_reference(base_url_string.as_str(), path), path)
}

/// The links of a page, sorted into those that name a URL and those that do
/// not.
#[derive(Debug, PartialEq, Eq)]
pub struct ParsedUrls {
    pub urls: Vec<ResolvedUrl>,
    pub malformed_urls: Vec<String>,
}

/// The mathematical value of a [`ParsedUrls`].
pub struct LinksModel {
    pub urls: Seq<UrlModel>,
    pub malformed_urls: Seq<Seq<char>>,
}

/// The values of a list of URLs.
pub open spec fn url_models(urls: Seq<ResolvedUrl>) -> Seq<UrlModel> {
    urls.map_values(|u: ResolvedUrl| u@)
}

impl View for ParsedUrls {
    type V = LinksModel;

    open spec fn view(&self) -> LinksModel {
        LinksModel { urls: url_models(self.urls@), malformed_urls: texts(self.malformed_urls@) }
    }
}

/// Sorts link texts found on the site `domain`: those that resolve, as the
/// URLs they resolve to, and those that do not, as they are; each list in the
/// order of `candidates`.
pub open spec fn sort_links(candidates: Seq<Seq<char>>, domain: Seq<char>) -> LinksModel
    decreases candidates.len(),
{
    if candidates.len() == 0 {
        LinksModel { urls: Seq::empty(), malformed_urls: Seq::empty() }
    } else {
        let before = sort_links(candidates.drop_last(), domain);
        match resolved(domain, candidates.last()) {
            Some(url) => LinksModel { urls: before.urls.push(url), ..before },
            None => LinksModel {
                malformed_urls: before.malformed_urls.push(candidates.last()),
                ..before
            },
        }
    }
}

/// Resolves each of `candidates` against the site `domain`.
pub fn resolve_all(candidates: &Vec<String>, domain: &str) -> (links: ParsedUrls)
    ensures
        links@ == sort_links(texts(candidates@), domain@),
{
    let mut urls: Vec<ResolvedUrl> = Vec::new();
    let mut malformed_urls: Vec<String> = Vec::new();
    let ghost all = texts(candidates@);
    let mut i: usize = 0;
    assert(url_models(urls@) == Seq::<UrlModel>::empty());
    assert(texts(malformed_urls@) == Seq::<Seq<char>>::empty());
    while i < candidates.len()
        invariant
            i <= candidates.len(),
            all == texts(candidates@),
            url_models(urls@) == sort_links(all.take(i as int), domain@).urls,
            texts(malformed_urls@) == sort_links(all.take(i as int), domain@).malformed_urls,
        decreases candidates.len() - i,
    {
        proof {
            assert(all.take(i + 1).drop_last() == all.take(i as int));
            assert(all.take(i + 1).last() == candidates@[i as int]@);
        }
        match build_url(domain, candidates[i].as_str()) {
            Ok(url) => {
                let ghost grown = url_models(urls@).push(url@);
                urls.push(url);
                assert(url_models(urls@) == grown);
            },
            Err(_) => {
                let ghost grown = texts(malformed_urls@).push(candidates@[i as int]@);
                malformed_urls.push(candidates[i].clone());
                assert(texts(malformed_urls@) == grown);
            },
        }
        i += 1;
    }
    assert(all.take(candidates.len() as int) == all);
    ParsedUrls { urls, malformed_urls }
}

/// Extracts all the URLs from `html_src`, a page of the site `domain`.
pub fn get_parsed_urls(html_src: &str, domain: &str) -> (links: ParsedUrls)
    ensures
        links@ == sort_links(links_in(html_src@), domain@),
{
    let maybe_urls = get_urls(html_src);
    resolve_all(&maybe_urls, domain)
}

} // verus!
