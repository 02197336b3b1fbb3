//! Addresses on the web, by way of the `url` crate.

use vstd::prelude::*;
use crate::charset::string_or_none;

verus! {

/// The parts of a URL that this crate looks at.
#[derive(Clone, Debug, PartialEq, Eq)]
pub struct Address {
    /// The scheme, in lowercase, without the colon.
    pub scheme: String,
    /// The host, where the URL has one.
    pub host: Option<String>,
    /// The last segment of the path, where the URL has a path of segments.
    pub last_segment: Option<String>,
    /// The whole URL in its normal form.
    pub text: String,
}

/// The model of an [`Address`].
pub struct Location {
    pub scheme: Seq<char>,
    pub host: Option<Seq<char>>,
    pub last_segment: Option<Seq<char>>,
    pub text: Seq<char>,
}

impl View for Address {
    type V = Location;

    open spec fn view(&self) -> Location {
        Location {
            scheme: self.scheme@,
            host: string_or_none(self.host),
            last_segment: string_or_none(self.last_segment),
            text: self.text@,
        }
    }
}

/// The parts of the URL that `text` is, as `url::Url::parse` reads it.
/// There are none where `text` is no URL.
pub uninterp spec fn url_parts(text: Seq<char>) -> Option<Location>;

/// Calls `url::Url::parse` and takes from the URL its `scheme`, its
/// `host_str`, the last of its `path_segments` and its `as_str`. The contract
/// claims only that the result is a function of the text, named
/// [`url_parts`].
#[verifier::external_body]
pub(crate) fn parse_url(text: &str) -> (r: Option<Address>)
    ensures
        match r {
            Some(a) => url_parts(text@) == Some(a@),
            None => url_parts(text@).is_none(),
        },
{
    match url::Url::parse(text) {
        Ok(u) => Some(Address {
            scheme: u.scheme().to_string(),
            host: u.host_str().map(|h| h.to_string()),
            last_segment: u.path_segments().and_then(|s| s.last()).map(|s| s.to_string()),
            text: u.as_str().to_string(),
        }),
        Err(_) => None,
    }
}

/// The text that `data` is once every `%` with two hexadecimal digits
/// behind it has been replaced by the byte they denote, as
/// `url::percent_encoding::percent_decode` does it. There is none where the
/// result is no valid UTF-8.
pub uninterp spec fn percent_decoded(data: Seq<u8>) -> Option<Seq<char>>;

/// Calls `url::percent_encoding::percent_decode` and, on its result,
/// `decode_utf8`. The contract claims only that the result is a function of
/// the bytes, named [`percent_decoded`].
#[verifier::external_body]
pub(crate) fn percent_decode(data: &[u8]) -> (r: Option<String>)
    ensures
        string_or_none(r) == percent_decoded(data@),
{
    match url::percent_encoding::percent_decode(data).decode_utf8() {
        Ok(s) => Some(s.to_string()),
        Err(_) => None,
    }
}

} // verus!
