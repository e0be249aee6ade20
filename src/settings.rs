//! The runtime configuration the workers read: scratch directory, media
//! root, subtitle languages and the retry limit, taken from the stored
//! key-value pairs.

use vstd::prelude::*;
use crate::text::chars_of;

verus! {

/// The retry limit used when none is configured.
pub const DEFAULT_RETRY_LIMIT: u32 = 3;

/// The configuration the workers and the dispatcher read.
pub struct RunConfig {
    pub path_temp: String,
    pub path_media: String,
    pub sub_lang: String,
    pub retry_limit: u32,
}

/// A required setting that is missing.
#[derive(PartialEq, Eq, Structural, Clone, Copy, Debug)]
pub enum MissingSetting {
    PathTemp,
    PathMedia,
    SubLang,
}

/// The views of stored key-value pairs.
pub open spec fn pairs_view(entries: Seq<(String, String)>) -> Seq<(Seq<char>, Seq<char>)> {
    entries.map_values(|e: (String, String)| (e.0@, e.1@))
}

/// The value of the first pair with key `key`.
pub open spec fn value_for(entries: Seq<(Seq<char>, Seq<char>)>, key: Seq<char>) -> Option<Seq<char>>
    decreases entries.len(),
{
    if entries.len() == 0 {
        None
    } else if entries[0].0 == key {
        Some(entries[0].1)
    } else {
        value_for(entries.drop_first(), key)
    }
}

fn find_value(entries: &Vec<(String, String)>, key: &str) -> (r: Option<String>)
    ensures
        match r {
            Some(v) => value_for(pairs_view(entries@), key@) == Some(v@),
            None => value_for(pairs_view(entries@), key@) is None,
        },
{
    let k = String::from_str(key);
    let ghost all = pairs_view(entries@);
    let mut i: usize = 0;
    assert(all.skip(0) =~= all);
    while i < entries.len()
        invariant
            i <= entries@.len(),
            k@ == key@,
            all == pairs_view(entries@),
            value_for(all, key@) == value_for(all.skip(i as int), key@),
        decreases entries@.len() - i,
    {
        let ghost rest = all.skip(i as int);
        assert(rest[0] == all[i as int]);
        if entries[i].0 == k {
            return Some(entries[i].1.clone());
        }
        assert(rest.drop_first() =~= all.skip(i + 1));
        i = i + 1;
    }
    assert(all.skip(i as int) =~= Seq::<(Seq<char>, Seq<char>)>::empty());
    None
}

/// A digit's value.
pub open spec fn digit_value(c: char) -> int {
    (c as u32) - ('0' as u32)
}

/// Whether `c` is an ASCII digit.
pub open spec fn is_digit(c: char) -> bool {
    '0' <= c && c <= '9'
}

/// The value of a decimal numeral.
pub open spec fn decimal(s: Seq<char>) -> int
    decreases s.len(),
{
    if s.len() == 0 {
        0
    } else {
        decimal(s.drop_last()) * 10 + digit_value(s.last())
    }
}

/// The `u32` a text writes in decimal digits, if it is one.
pub open spec fn u32_of(s: Seq<char>) -> Option<u32> {
    if s.len() > 0 && (forall|i: int| 0 <= i < s.len() ==> is_digit(#[trigger] s[i])) && decimal(s) <= u32::MAX {
        Some(decimal(s) as u32)
    } else {
        None
    }
}

proof fn lemma_decimal_grows(s: Seq<char>)
    requires
        forall|i: int| 0 <= i < s.len() ==> is_digit(#[trigger] s[i]),
    ensures
        decimal(s) >= 0,
    decreases s.len(),
{
    if s.len() > 0 {
        assert forall|i: int| 0 <= i < s.drop_last().len() implies is_digit(#[trigger] s.drop_last()[i]) by {
            assert(s.drop_last()[i] == s[i]);
        }
        lemma_decimal_grows(s.drop_last());
    }
}

/// Reads a decimal numeral into a `u32`.
pub fn parse_u32(s: &str) -> (r: Option<u32>)
    ensures
        r == u32_of(s@),
{
    let c = chars_of(s);
    if c.len() == 0 {
        return None;
    }
    let mut v: u64 = 0;
    let mut i: usize = 0;
    while i < c.len()
        invariant
            i <= c.len(),
            c@ == s@,
            forall|k: int| 0 <= k < i ==> is_digit(#[trigger] c@[k]),
            v as int == decimal(c@.take(i as int)),
            v <= u32::MAX,
        decreases c.len() - i,
    {
        let ch = c[i];
        assert(c@.take(i + 1).drop_last() =~= c@.take(i as int));
        if !('0' <= ch && ch <= '9') {
            assert(!is_digit(s@[i as int]));
            return None;
        }
        let d = (ch as u32 - '0' as u32) as u64;
        let next = v * 10 + d;
        if next > u32::MAX as u64 {
            proof {
                assert forall|k: int| 0 <= k < i + 1 implies is_digit(#[trigger] c@.take(i + 1)[k]) by {}
                if forall|k: int| 0 <= k < s@.len() ==> is_digit(#[trigger] s@[k]) {
                    lemma_decimal_prefix(c@, i + 1);
                }
            }
            return None;
        }
        v = next;
        i = i + 1;
    }
    assert(c@.take(i as int) =~= c@);
    Some(v as u32)
}

proof fn lemma_decimal_prefix(s: Seq<char>, n: int)
    requires
        0 <= n <= s.len(),
        forall|i: int| 0 <= i < s.len() ==> is_digit(#[trigger] s[i]),
    ensures
        decimal(s) >= decimal(s.take(n)),
    decreases s.len() - n,
{
    if n < s.len() {
        lemma_decimal_prefix(s, n + 1);
        assert(s.take(n + 1).drop_last() =~= s.take(n));
        assert forall|i: int| 0 <= i < s.take(n).len() implies is_digit(#[trigger] s.take(n)[i]) by {
            assert(s.take(n)[i] == s[i]);
        }
        lemma_decimal_grows(s.take(n));
    } else {
        assert(s.take(n) =~= s);
    }
}

/// The retry limit a stored value gives: its number, or the default when
/// it is missing or not a number.
pub open spec fn retry_limit_of(v: Option<Seq<char>>) -> u32 {
    match v {
        Some(s) => match u32_of(s) {
            Some(n) => n,
            None => DEFAULT_RETRY_LIMIT,
        },
        None => DEFAULT_RETRY_LIMIT,
    }
}

impl RunConfig {
    /// Reads the configuration from stored key-value pairs; the first pair
    /// of a key counts. `path_temp`, `path_media` and `sub_lang` are
    /// required; `retry_limit` falls back to the default.
    pub fn from_entries(entries: &Vec<(String, String)>) -> (r: Result<RunConfig, MissingSetting>)
        ensures
            ({
                let e = pairs_view(entries@);
                &&& value_for(e, "path_temp"@) is None ==> r == Err::<RunConfig, MissingSetting>(MissingSetting::PathTemp)
                &&& value_for(e, "path_temp"@) is Some && value_for(e, "path_media"@) is None
                    ==> r == Err::<RunConfig, MissingSetting>(MissingSetting::PathMedia)
                &&& value_for(e, "path_temp"@) is Some && value_for(e, "path_media"@) is Some
                    && value_for(e, "sub_lang"@) is None ==> r == Err::<RunConfig, MissingSetting>(MissingSetting::SubLang)
                &&& r matches Ok(c) ==> (Some(c.path_temp@) == value_for(e, "path_temp"@)
                    && Some(c.path_media@) == value_for(e, "path_media"@)
                    && Some(c.sub_lang@) == value_for(e, "sub_lang"@)
                    && c.retry_limit == retry_limit_of(value_for(e, "retry_limit"@)))
                &&& (value_for(e, "path_temp"@) is Some && value_for(e, "path_media"@) is Some
                    && value_for(e, "sub_lang"@) is Some) ==> r is Ok
            }),
    {
        let path_temp = match find_value(entries, "path_temp") {
            Some(v) => v,
            None => {
                return Err(MissingSetting::PathTemp);
            },
        };
        let path_media = match find_value(entries, "path_media") {
            Some(v) => v,
            None => {
                return Err(MissingSetting::PathMedia);
            },
        };
        let sub_lang = match find_value(entries, "sub_lang") {
            Some(v) => v,
            None => {
                return Err(MissingSetting::SubLang);
            },
        };
        let retry_limit = match find_value(entries, "retry_limit") {
            Some(v) => match parse_u32(v.as_str()) {
                Some(n) => n,
                None => DEFAULT_RETRY_LIMIT,
            },
            None => DEFAULT_RETRY_LIMIT,
        };
        Ok(RunConfig { path_temp, path_media, sub_lang, retry_limit })
    }
}

} // verus!
