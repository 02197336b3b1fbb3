//! Where a package or an index is to be had from.
//!
//! Fetching is the business of whoever uses this crate. What is decided here
//! is how a path is to be opened, under which name a fetched file is kept,
//! and what a directory listing of a web server lists.

use vstd::prelude::*;
use vstd::utf8::encode_utf8;
use crate::hash::{sha1, sha1_digest};
use crate::rx::{all_captures_bytes, byte_groups, byte_matches, regex_all_captures_bytes};
use crate::text::same_text;
use crate::urls::{Address, Location, parse_url, percent_decode, percent_decoded, url_parts};

verus! {

/// The directory in which fetched files are kept.
pub const CACHE_PATH: &'static str = "/var/tmp/manned-indexer";

/// For how many seconds a fetched file is kept.
pub const CACHE_TIME: u64 = 20 * 3600;

/// A file to open: a URL, or the path of a local file.
#[derive(Clone, Copy)]
pub struct Path<'a> {
    /// The URL or the local path.
    pub path: &'a str,
    /// Whether a fetched copy may be kept and used again.
    pub cache: bool,
    /// Whether a path that is no URL may name a local file.
    pub canbelocal: bool,
}

/// Why a path cannot be opened.
#[derive(Clone, Copy, Debug, PartialEq, Eq, Structural)]
pub enum Refusal {
    /// It is a URL of another scheme than `http`.
    InvalidScheme,
    /// It is no URL, and may not be a local path.
    InvalidUrl,
}

impl Refusal {
    /// The reason in words.
    pub fn message(&self) -> (r: &'static str)
        ensures
            r@ == match *self {
                Refusal::InvalidScheme => "Invalid scheme"@,
                Refusal::InvalidUrl => "Invalid URL"@,
            },
    {
        match *self {
            Refusal::InvalidScheme => "Invalid scheme",
            Refusal::InvalidUrl => "Invalid URL",
        }
    }
}

/// How a path is to be opened.
#[derive(Clone, Debug, PartialEq, Eq)]
pub enum Plan {
    /// Not at all.
    Refuse(Refusal),
    /// From the file `file`, which is first to be fetched from `url` if it
    /// is not there.
    Cached { file: String, url: String },
    /// By fetching the URL.
    Fetch(String),
    /// As a local file.
    Local,
}

/// The model of a [`Plan`].
pub enum Route {
    Refuse(Refusal),
    Cached { file: Seq<char>, url: Seq<char> },
    Fetch(Seq<char>),
    Local,
}

impl View for Plan {
    type V = Route;

    open spec fn view(&self) -> Route {
        match *self {
            Plan::Refuse(r) => Route::Refuse(r),
            Plan::Cached { file, url } => Route::Cached { file: file@, url: url@ },
            Plan::Fetch(url) => Route::Fetch(url@),
            Plan::Local => Route::Local,
        }
    }
}

/// The number that the bytes of `bytes` make, the first byte counting most.
pub open spec fn big_endian(bytes: Seq<u8>) -> nat
    decreases bytes.len(),
{
    if bytes.len() == 0 {
        0
    } else {
        big_endian(bytes.drop_last()) * 256 + bytes.last() as nat
    }
}

/// The character for one hexadecimal digit: `0` is character 48, `a` is
/// character 97.
pub open spec fn hex_digit(d: nat) -> char
    recommends
        d < 16,
{
    if d < 10 {
        (48 + d) as char
    } else {
        (97 + d - 10) as char
    }
}

/// `n` in hexadecimal, with small letters and no more digits than needed.
pub open spec fn hex(n: nat) -> Seq<char>
    decreases n,
{
    if n < 16 {
        seq![hex_digit(n)]
    } else {
        hex(n / 16).push(hex_digit(n % 16))
    }
}

/// Writes `n` in hexadecimal, with small letters and no more digits than
/// needed.
pub fn to_hex(n: u64) -> (r: String)
    ensures
        r@ == hex(n as nat),
    decreases n,
{
    let d = (n % 16) as u8;
    let c = if d < 10 {
        (48u8 + d) as char
    } else {
        (97u8 + (d - 10)) as char
    };
    if n < 16 {
        let mut r = String::new();
        r.push(c);
        proof {
            assert(r@ =~= seq![hex_digit(n as nat)]);
        }
        r
    } else {
        let mut r = to_hex(n / 16);
        r.push(c);
        r
    }
}

spec fn power_of_256(k: nat) -> nat
    decreases k,
{
    if k == 0 {
        1
    } else {
        256 * power_of_256((k - 1) as nat)
    }
}

/// The number that the first eight bytes of `bytes` make, the first byte
/// counting most.
pub fn first_eight(bytes: &Vec<u8>) -> (r: u64)
    requires
        bytes.len() >= 8,
    ensures
        r == big_endian(bytes@.take(8)),
{
    let mut a: u64 = 0;
    let mut k: usize = 0;
    proof {
        reveal_with_fuel(power_of_256, 10);
    }
    while k < 8
        invariant
            k <= 8 <= bytes.len(),
            a == big_endian(bytes@.take(k as int)),
            a < power_of_256(k as nat),
        decreases 8 - k,
    {
        proof {
            reveal_with_fuel(power_of_256, 10);
            assert(bytes@.take(k + 1).drop_last() =~= bytes@.take(k as int));
            assert(power_of_256(k as nat) <= power_of_256(7));
            assert(power_of_256(7) == 0x100_0000_0000_0000);
        }
        a = a * 256 + bytes[k] as u64;
        k += 1;
    }
    a
}

/// The name of the file in which what is fetched from a URL is kept: the
/// cache directory, then the host, the last segment of the path, or `index`
/// where that is empty, and a number made of the SHA-1 digest of the URL.
/// There is none for a URL without a host or without a path of segments.
pub open spec fn cache_name(a: Location) -> Option<Seq<char>> {
    if a.host is Some && a.last_segment is Some && encode_utf8(a.text).len() < 0x2000_0000_0000_0000 {
        Some(
            CACHE_PATH@ + seq!['/'] + a.host->0 + seq!['-'] + (if a.last_segment->0.len() == 0 {
                "index"@
            } else {
                a.last_segment->0
            }) + seq!['-'] + hex(big_endian(sha1(encode_utf8(a.text)).take(8))),
        )
    } else {
        None
    }
}

/// The name of the file in which what is fetched from a URL is kept.
pub fn cache_fn(a: &Address) -> (r: Option<String>)
    ensures
        crate::charset::string_or_none(r) == cache_name(a@),
{
    let host = match &a.host {
        Some(h) => h,
        None => {
            return None;
        },
    };
    let last = match &a.last_segment {
        Some(l) => l,
        None => {
            return None;
        },
    };
    let bytes = a.text.as_str().as_bytes();
    if bytes.len() as u64 >= 0x2000_0000_0000_0000u64 {
        return None;
    }
    let digest = sha1_digest(bytes);
    let number = to_hex(first_eight(&digest));
    let mut r = String::from_str(CACHE_PATH);
    r.push('/');
    r.append(host.as_str());
    r.push('-');
    if last.as_str().unicode_len() == 0 {
        r.append("index");
    } else {
        r.append(last.as_str());
    }
    r.push('-');
    r.append(number.as_str());
    proof {
        assert(r@ =~= cache_name(a@)->0);
    }
    Some(r)
}

/// How the path `path` is to be opened. A URL is fetched, by way of the
/// cache where `cache` allows it, if its scheme is `http`. What is no URL is
/// a local file where `canbelocal` allows it.
pub open spec fn route(path: Seq<char>, cache: bool, canbelocal: bool) -> Route {
    match url_parts(path) {
        Some(a) => if a.scheme != "http"@ {
            Route::Refuse(Refusal::InvalidScheme)
        } else if cache {
            match cache_name(a) {
                Some(file) => Route::Cached { file, url: a.text },
                None => Route::Refuse(Refusal::InvalidUrl),
            }
        } else {
            Route::Fetch(a.text)
        },
        None => if canbelocal {
            Route::Local
        } else {
            Route::Refuse(Refusal::InvalidUrl)
        },
    }
}

impl<'a> Path<'a> {
    /// Decides how the path is to be opened.
    pub fn plan(&self) -> (r: Plan)
        ensures
            r@ == route(self.path@, self.cache, self.canbelocal),
    {
        match parse_url(self.path) {
            Some(a) => {
                if !same_text(a.scheme.as_str(), "http") {
                    Plan::Refuse(Refusal::InvalidScheme)
                } else if self.cache {
                    match cache_fn(&a) {
                        Some(file) => Plan::Cached { file, url: a.text },
                        None => Plan::Refuse(Refusal::InvalidUrl),
                    }
                } else {
                    Plan::Fetch(a.text)
                }
            },
            None => {
                if self.canbelocal {
                    Plan::Local
                } else {
                    Plan::Refuse(Refusal::InvalidUrl)
                }
            },
        }
    }
}

/// A link in a directory listing as web servers write them. Group 1 is the
/// name, group 2 the slash that marks a directory.
pub const LISTING: &'static str = "(?i:<a +href *= *\"([^?/\"]+)(/)?\">)";

/// What a line of a directory listing lists, given the matches of
/// [`LISTING`] in it: the name of a file or directory, and whether it is a
/// directory. A line lists something where it holds just one link, whose
/// name is neither `..` (twice byte 46) nor begins with a slash (byte 47), and
/// is valid text.
pub open spec fn listed_by(found: Seq<Seq<Option<Seq<u8>>>>) -> Option<(Seq<char>, bool)> {
    if found.len() == 1 && found[0].len() == 3 && found[0][1] is Some {
        let name = found[0][1]->0;
        if name == seq![46u8, 46u8] || (name.len() > 0 && name[0] == 47u8) {
            None
        } else {
            match percent_decoded(name) {
                Some(text) => Some((text, found[0][2] is Some)),
                None => None,
            }
        }
    } else {
        None
    }
}

/// What a line of a directory listing lists.
pub open spec fn listed(line: Seq<u8>) -> Option<(Seq<char>, bool)> {
    listed_by(regex_all_captures_bytes(LISTING@, line))
}

/// Whether an executable item of a listing is the given model item.
pub open spec fn item_is(r: Option<(String, bool)>, m: Option<(Seq<char>, bool)>) -> bool {
    match r {
        Some((name, dir)) => m == Some((name@, dir)),
        None => m.is_none(),
    }
}

/// Reads what a line of a directory listing lists off the matches of
/// [`LISTING`] in it.
pub fn listing_item(found: &Vec<Vec<Option<&[u8]>>>) -> (r: Option<(String, bool)>)
    ensures
        item_is(r, listed_by(byte_matches(found@))),
{
    if found.len() != 1 {
        return None;
    }
    let cap = &found[0];
    proof {
        assert(byte_matches(found@)[0] == byte_groups(cap@));
    }
    if cap.len() != 3 {
        return None;
    }
    let name = match cap[1] {
        Some(n) => n,
        None => {
            return None;
        },
    };
    if name.len() == 2 && name[0] == 46u8 && name[1] == 46u8 {
        proof {
            assert(name@ =~= seq![46u8, 46u8]);
        }
        return None;
    }
    if name.len() > 0 && name[0] == 47u8 {
        return None;
    }
    let dir = cap[2].is_some();
    match percent_decode(name) {
        Some(text) => Some((text, dir)),
        None => None,
    }
}

/// What a line of a directory listing lists.
pub fn parse_listing_line(line: &[u8]) -> (r: Option<(String, bool)>)
    ensures
        item_is(r, listed(line@)),
{
    let found = all_captures_bytes(LISTING, line);
    listing_item(&found)
}

/// What the lines from `i` on list, in order.
pub open spec fn listing_from(lines: Seq<Vec<u8>>, i: int) -> Seq<(Seq<char>, bool)>
    decreases lines.len() - i,
{
    if i < 0 || i >= lines.len() {
        Seq::empty()
    } else {
        match listed(lines[i]@) {
            Some(item) => seq![item] + listing_from(lines, i + 1),
            None => listing_from(lines, i + 1),
        }
    }
}

/// The models of a vector of items of a listing.
pub open spec fn items(v: Seq<(String, bool)>) -> Seq<(Seq<char>, bool)> {
    Seq::new(v.len(), |i: int| (v[i].0@, v[i].1))
}

/// Reads a directory listing, given as its lines: the names of the files
/// and directories it lists, each with whether it is a directory.
pub fn dirlist(lines: &Vec<Vec<u8>>) -> (r: Vec<(String, bool)>)
    ensures
        items(r@) == listing_from(lines@, 0),
{
    let mut r: Vec<(String, bool)> = Vec::new();
    let mut i: usize = 0;
    proof {
        assert(items(r@) =~= Seq::empty());
    }
    while i < lines.len()
        invariant
            i <= lines.len(),
            listing_from(lines@, 0) == items(r@) + listing_from(lines@, i as int),
        decreases lines.len() - i,
    {
        let ghost before = items(r@);
        if let Some(item) = parse_listing_line(lines[i].as_slice()) {
            r.push(item);
            proof {
                assert(items(r@) =~= before + seq![(item.0@, item.1)]);
            }
        }
        i += 1;
    }
    proof {
        assert(items(r@) + Seq::<(Seq<char>, bool)>::empty() =~= items(r@));
    }
    r
}

} // verus!
