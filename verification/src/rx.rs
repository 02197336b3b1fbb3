//! Regular expressions, by way of the `regex` crate.
//!
//! What a pattern matches is for that crate to say. This module gives its
//! answers a name each, so that the rest of the crate can state what it does
//! with them, and hands them over as plain values.

use vstd::prelude::*;

verus! {

/// The groups of the first match of `pattern` in `text`, as
/// `regex::Regex::captures` reports them: group 0 is the whole match, and a
/// group that took no part in the match is `None`. There are no groups where
/// `text` has no match, and none where `pattern` is no regular expression.
pub uninterp spec fn regex_captures(pattern: Seq<char>, text: Seq<char>) -> Option<Seq<Option<Seq<char>>>>;

/// The model of a list of groups.
pub open spec fn groups(caps: Seq<Option<&str>>) -> Seq<Option<Seq<char>>> {
    Seq::new(
        caps.len(),
        |i: int|
            match caps[i] {
                Some(s) => Some(s@),
                None => None,
            },
    )
}

/// Compiles `pattern` with `regex::Regex::new` and runs
/// `regex::Regex::captures` on `text`. The contract claims only that the
/// result is a function of the two texts, named [`regex_captures`]: a pattern
/// that does not compile gives `None`, as does a text without a match, and a
/// match gives its groups as slices of `text`.
#[verifier::external_body]
pub(crate) fn captures<'a>(pattern: &str, text: &'a str) -> (r: Option<Vec<Option<&'a str>>>)
    ensures
        match r {
            Some(caps) => regex_captures(pattern@, text@) == Some(groups(caps@)),
            None => regex_captures(pattern@, text@).is_none(),
        },
{
    let re = match regex::Regex::new(pattern) {
        Ok(re) => re,
        Err(_) => return None,
    };
    match re.captures(text) {
        Some(caps) => Some(caps.iter().map(|m| m.map(|m| m.as_str())).collect()),
        None => None,
    }
}

/// The groups of every match of `pattern` in `text`, one match after the
/// other without overlap, as `regex::Regex::captures_iter` reports them.
/// There are no matches where `pattern` is no regular expression.
pub uninterp spec fn regex_all_captures(pattern: Seq<char>, text: Seq<char>) -> Seq<Seq<Option<Seq<char>>>>;

/// The model of a list of lists of groups.
pub open spec fn all_groups(all: Seq<Vec<Option<&str>>>) -> Seq<Seq<Option<Seq<char>>>> {
    Seq::new(all.len(), |i: int| groups(all[i]@))
}

/// Compiles `pattern` with `regex::Regex::new` and collects what
/// `captures_iter` yields on `text`. The contract claims only that the result
/// is a function of the two texts, named [`regex_all_captures`].
#[verifier::external_body]
pub(crate) fn all_captures<'a>(pattern: &str, text: &'a str) -> (r: Vec<Vec<Option<&'a str>>>)
    ensures
        all_groups(r@) == regex_all_captures(pattern@, text@),
{
    match regex::Regex::new(pattern) {
        Ok(re) => re.captures_iter(text).map(|c| c.iter().map(|m| m.map(|m| m.as_str())).collect()).collect(),
        Err(_) => Vec::new(),
    }
}

/// `text` with the first match of `pattern` replaced by `with`, in which
/// `$1` and the like stand for the groups of the match, as
/// `regex::Regex::replace` does it. It is `text` itself where `pattern` has no
/// match in it, and where `pattern` is no regular expression.
pub uninterp spec fn regex_replaced(pattern: Seq<char>, text: Seq<char>, with: Seq<char>) -> Seq<char>;

/// Compiles `pattern` with `regex::Regex::new` and runs `replace` on `text`.
/// The contract claims only that the result is a function of the three
/// texts, named [`regex_replaced`].
#[verifier::external_body]
pub(crate) fn replace(pattern: &str, text: &str, with: &str) -> (r: String)
    ensures
        r@ == regex_replaced(pattern@, text@, with@),
{
    match regex::Regex::new(pattern) {
        Ok(re) => re.replace(text, with).into_owned(),
        Err(_) => text.to_string(),
    }
}

/// Whether `pattern` matches somewhere in `data`, as
/// `regex::bytes::Regex::is_match` reports it. A pattern that is no regular
/// expression matches nothing.
pub uninterp spec fn regex_matches_bytes(pattern: Seq<char>, data: Seq<u8>) -> bool;

/// Compiles `pattern` with `regex::bytes::Regex::new` and runs `is_match` on
/// `data`. The contract claims only that the result is a function of the
/// pattern and the bytes, named [`regex_matches_bytes`].
#[verifier::external_body]
pub(crate) fn matches_bytes(pattern: &str, data: &[u8]) -> (r: bool)
    ensures
        r == regex_matches_bytes(pattern@, data@),
{
    match regex::bytes::Regex::new(pattern) {
        Ok(re) => re.is_match(data),
        Err(_) => false,
    }
}

/// The groups of the first match of `pattern` in `data`, as
/// `regex::bytes::Regex::captures` reports them; see [`regex_captures`].
pub uninterp spec fn regex_captures_bytes(pattern: Seq<char>, data: Seq<u8>) -> Option<Seq<Option<Seq<u8>>>>;

/// The model of a list of groups of bytes.
pub open spec fn byte_groups(caps: Seq<Option<&[u8]>>) -> Seq<Option<Seq<u8>>> {
    Seq::new(
        caps.len(),
        |i: int|
            match caps[i] {
                Some(s) => Some(s@),
                None => None,
            },
    )
}

/// Compiles `pattern` with `regex::bytes::Regex::new` and runs `captures` on
/// `data`. The contract claims only that the result is a function of the
/// pattern and the bytes, named [`regex_captures_bytes`].
#[verifier::external_body]
pub(crate) fn captures_bytes<'a>(pattern: &str, data: &'a [u8]) -> (r: Option<Vec<Option<&'a [u8]>>>)
    ensures
        match r {
            Some(caps) => regex_captures_bytes(pattern@, data@) == Some(byte_groups(caps@)),
            None => regex_captures_bytes(pattern@, data@).is_none(),
        },
{
    let re = match regex::bytes::Regex::new(pattern) {
        Ok(re) => re,
        Err(_) => return None,
    };
    match re.captures(data) {
        Some(caps) => Some(caps.iter().map(|m| m.map(|m| m.as_bytes())).collect()),
        None => None,
    }
}

/// The groups of every match of `pattern` in `data`, one match after the
/// other without overlap, as `regex::bytes::Regex::captures_iter` reports
/// them. There are no matches where `pattern` is no regular expression.
pub uninterp spec fn regex_all_captures_bytes(pattern: Seq<char>, data: Seq<u8>) -> Seq<Seq<Option<Seq<u8>>>>;

/// The model of a list of lists of groups of bytes.
pub open spec fn byte_matches(all: Seq<Vec<Option<&[u8]>>>) -> Seq<Seq<Option<Seq<u8>>>> {
    Seq::new(all.len(), |i: int| byte_groups(all[i]@))
}

/// Compiles `pattern` with `regex::bytes::Regex::new` and collects what
/// `captures_iter` yields on `data`. The contract claims only that the result
/// is a function of the pattern and the bytes, named
/// [`regex_all_captures_bytes`].
#[verifier::external_body]
pub(crate) fn all_captures_bytes<'a>(pattern: &str, data: &'a [u8]) -> (r: Vec<Vec<Option<&'a [u8]>>>)
    ensures
        byte_matches(r@) == regex_all_captures_bytes(pattern@, data@),
{
    match regex::bytes::Regex::new(pattern) {
        Ok(re) => re.captures_iter(data).map(|c| c.iter().map(|m| m.map(|m| m.as_bytes())).collect()).collect(),
        Err(_) => Vec::new(),
    }
}

/// Where the first match of `pattern` in `data` begins and ends, in bytes
/// from the start of `data`, as `regex::bytes::Regex::find` reports it. There
/// is no match where `pattern` is no regular expression.
pub uninterp spec fn regex_find_bytes(pattern: Seq<char>, data: Seq<u8>) -> Option<(usize, usize)>;

/// Compiles `pattern` with `regex::bytes::Regex::new` and runs `find` on
/// `data`. The contract claims only that the result is a function of the
/// pattern and the bytes, named [`regex_find_bytes`].
#[verifier::external_body]
pub(crate) fn find_bytes(pattern: &str, data: &[u8]) -> (r: Option<(usize, usize)>)
    ensures
        r == regex_find_bytes(pattern@, data@),
{
    match regex::bytes::Regex::new(pattern) {
        Ok(re) => re.find(data).map(|m| (m.start(), m.end())),
        Err(_) => None,
    }
}

/// Where the matches of `pattern` in `data` begin and end, one match after
/// the other without overlap, as `regex::bytes::Regex::find_iter` reports
/// them. There are no matches where `pattern` is no regular expression.
pub uninterp spec fn regex_find_all_bytes(pattern: Seq<char>, data: Seq<u8>) -> Seq<(usize, usize)>;

/// Compiles `pattern` with `regex::bytes::Regex::new` and collects what
/// `find_iter` yields on `data`. The contract claims only that the result is
/// a function of the pattern and the bytes, named [`regex_find_all_bytes`].
#[verifier::external_body]
pub(crate) fn find_all_bytes(pattern: &str, data: &[u8]) -> (r: Vec<(usize, usize)>)
    ensures
        r@ == regex_find_all_bytes(pattern@, data@),
{
    match regex::bytes::Regex::new(pattern) {
        Ok(re) => re.find_iter(data).map(|m| (m.start(), m.end())).collect(),
        Err(_) => Vec::new(),
    }
}

} // verus!
