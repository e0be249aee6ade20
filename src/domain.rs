//! The registrable domain of a URL (`youtube.com` for
//! `https://www.youtube.com/watch?v=...`), through tldextract.

use vstd::prelude::*;
use crate::text::{chars_of, same_chars, string_of};

verus! {

#[verifier::external_type_specification]
#[verifier::external_body]
pub struct ExTldExtractor(tldextract::TldExtractor);

/// Relies on tldextract's `TldExtractor::new` with default options, which
/// loads the public-suffix list from a local cache file or, failing that,
/// from the copy built into the crate.
#[verifier::external_body]
fn new_extractor() -> tldextract::TldExtractor {
    tldextract::TldExtractor::new(tldextract::TldOption::default())
}

/// Relies on `TldExtractor::extract`: the registrable label and the public
/// suffix of the host of `url`, or `None` where the URL does not parse.
/// Nothing is promised of the parts, which depend on the suffix list read.
#[verifier::external_body]
fn extract_parts(ex: &tldextract::TldExtractor, url: &str) -> (r: Option<(Option<String>, Option<String>)>) {
    match ex.extract(url) {
        Ok(t) => Some((t.domain, t.suffix)),
        Err(_) => None,
    }
}

/// The domain made of a registrable label and a public suffix.
pub open spec fn joined_domain(label: Seq<char>, suffix: Seq<char>) -> Seq<char> {
    label + seq!['.'] + suffix
}

/// The domain that extraction parts give: both parts are needed.
pub open spec fn domain_spec(parts: Option<(Option<String>, Option<String>)>) -> Option<Seq<char>> {
    match parts {
        Some((Some(label), Some(suffix))) => Some(joined_domain(label@, suffix@)),
        _ => None,
    }
}

/// Joins the parts that extraction gave into a domain.
pub fn domain_from_parts(parts: Option<(Option<String>, Option<String>)>) -> (r: Option<String>)
    ensures
        match r {
            Some(d) => domain_spec(parts) == Some(d@),
            None => domain_spec(parts) is None,
        },
{
    match parts {
        Some((Some(label), Some(suffix))) => {
            let mut v = chars_of(label.as_str());
            v.push('.');
            let s = chars_of(suffix.as_str());
            let mut i: usize = 0;
            let ghost base = v@;
            while i < s.len()
                invariant
                    i <= s.len(),
                    v@ == base + s@.take(i as int),
                decreases s.len() - i,
            {
                v.push(s[i]);
                i = i + 1;
                assert(v@ =~= base + s@.take(i as int));
            }
            assert(s@.take(i as int) =~= s@);
            assert(v@ =~= joined_domain(label@, suffix@));
            Some(string_of(&v))
        },
        _ => None,
    }
}

/// The registrable domain of `url`, where one can be found. What comes back
/// depends on the suffix list in use; when it is a domain, it is a label and
/// a suffix joined by a dot.
pub fn registrable_domain(url: &str) -> (r: Option<String>)
    ensures
        r matches Some(d) ==> exists|l: Seq<char>, s: Seq<char>| d@ == joined_domain(l, s),
{
    let ex = new_extractor();
    let parts = extract_parts(&ex, url);
    let ghost p = parts;
    let r = domain_from_parts(parts);
    proof {
        if let Some((Some(l), Some(s))) = p {
            assert(r.unwrap()@ == joined_domain(l@, s@));
        }
    }
    r
}

/// The one domain whose channels can be added and listed.
pub open spec fn supported_domain() -> Seq<char> {
    seq!['y', 'o', 'u', 't', 'u', 'b', 'e', '.', 'c', 'o', 'm']
}

/// Whether `domain` is the supported one.
pub fn is_supported_domain(domain: &str) -> (r: bool)
    ensures
        r == (domain@ == supported_domain()),
{
    let s = vec!['y', 'o', 'u', 't', 'u', 'b', 'e', '.', 'c', 'o', 'm'];
    assert(s@ =~= supported_domain());
    same_chars(&chars_of(domain), &s)
}

} // verus!
