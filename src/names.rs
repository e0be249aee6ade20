//! Normalized channel names, the form used to route by name: quotes
//! removed, each run of whitespace made one hyphen, lower case.

use vstd::prelude::*;
use crate::text::{chars_of, is_space, is_space_char, string_of};

verus! {

/// What `str::to_lowercase` makes of `s`.
pub uninterp spec fn lower_of(s: Seq<char>) -> Seq<char>;

/// Relies on `str::to_lowercase`: the result depends on the characters
/// alone, and an empty text stays empty.
#[verifier::external_body]
fn lowercase(s: &str) -> (r: String)
    ensures
        r@ == lower_of(s@),
        s@.len() == 0 ==> r@.len() == 0,
{
    s.to_lowercase()
}

/// Whether `c` is a quote character.
pub open spec fn is_quote(c: char) -> bool {
    c == '\'' || c == '"'
}

/// `s` without its quote characters.
pub open spec fn without_quotes(s: Seq<char>) -> Seq<char> {
    s.filter(|c: char| !is_quote(c))
}

/// Relies on regex's `Regex::new` and `Regex::replace_all`: the class
/// `['"]` matches one single or double quote, and replacing every match
/// with nothing keeps the other characters in order. The pattern is a
/// fixed, valid one, so building the regex does not fail.
#[verifier::external_body]
fn strip_quotes(s: &str) -> (r: String)
    ensures
        r@ == without_quotes(s@),
{
    regex::Regex::new("['\"]").unwrap().replace_all(s, "").into_owned()
}

/// `s` with each run of whitespace made one hyphen.
pub open spec fn hyphenate(s: Seq<char>) -> Seq<char>
    decreases s.len(),
{
    if s.len() == 0 {
        s
    } else if !is_space(s.last()) {
        hyphenate(s.drop_last()).push(s.last())
    } else if s.len() > 1 && is_space(s.drop_last().last()) {
        hyphenate(s.drop_last())
    } else {
        hyphenate(s.drop_last()).push('-')
    }
}

/// Makes each run of whitespace in `s` one hyphen.
pub fn hyphenate_spaces(s: &Vec<char>) -> (r: Vec<char>)
    ensures
        r@ == hyphenate(s@),
{
    let mut r: Vec<char> = Vec::new();
    let mut i: usize = 0;
    while i < s.len()
        invariant
            i <= s.len(),
            r@ == hyphenate(s@.take(i as int)),
        decreases s.len() - i,
    {
        let c = s[i];
        let ghost t = s@.take(i + 1);
        assert(t.drop_last() =~= s@.take(i as int));
        assert(t.last() == c);
        if !is_space_char(c) {
            r.push(c);
        } else if i > 0 && is_space_char(s[i - 1]) {
            assert(t.drop_last().last() == s@[i - 1]);
        } else {
            r.push('-');
        }
        i = i + 1;
    }
    assert(s@.take(i as int) =~= s@);
    r
}

/// The normalized form of a channel name.
pub open spec fn normalized_name(name: Seq<char>) -> Seq<char> {
    lower_of(hyphenate(without_quotes(name)))
}

/// Normalizes a channel name: quotes removed, whitespace runs made
/// hyphens, then lower case.
pub fn normalize_channel_name(name: &str) -> (r: String)
    ensures
        r@ == normalized_name(name@),
{
    let unquoted = strip_quotes(name);
    let hyphenated = string_of(&hyphenate_spaces(&chars_of(unquoted.as_str())));
    lowercase(hyphenated.as_str())
}

} // verus!
