//! The package index of the repositories of FreeBSD from 9.3 on.
//!
//! The index holds one package to a line, as a JSON object. Five of its
//! fields are of interest, and five patterns find them.

use vstd::prelude::*;
use vstd::utf8::{decode_utf8, valid_utf8};
use crate::rx::{byte_groups, captures_bytes, regex_captures_bytes};
use crate::text::text_of_utf8;

verus! {

/// The name of a package.
pub const NAME: &'static str = r#""name"\s*:\s*"(?u:([^ "]+))""#;

/// Its version.
pub const VERSION: &'static str = r#""version"\s*:\s*"(?u:([^ "]+))""#;

/// Its category: the first part of its origin.
pub const ORIGIN: &'static str = r#""origin"\s*:\s*"(?u:([^ "/]+))"#;

/// The path of its file.
pub const PATH: &'static str = r#""path"\s*:\s*"(?u:([^ "]+))""#;

/// Its architecture.
pub const ARCH: &'static str = r#""arch"\s*:\s*"(?u:([^ "]+))""#;

/// A package as the index describes it.
#[derive(Clone, Debug, PartialEq, Eq)]
pub struct SitePkg {
    pub name: String,
    pub version: String,
    pub category: String,
    pub path: String,
    pub arch: String,
}

/// The model of a [`SitePkg`].
pub struct Described {
    pub name: Seq<char>,
    pub version: Seq<char>,
    pub category: Seq<char>,
    pub path: Seq<char>,
    pub arch: Seq<char>,
}

impl View for SitePkg {
    type V = Described;

    open spec fn view(&self) -> Described {
        Described {
            name: self.name@,
            version: self.version@,
            category: self.category@,
            path: self.path@,
            arch: self.arch@,
        }
    }
}

/// The text of the one group of a match, where the match has just that
/// group and the group is valid UTF-8.
pub open spec fn one_group(caps: Seq<Option<Seq<u8>>>) -> Option<Seq<char>> {
    if caps.len() == 2 && caps[1] is Some && valid_utf8(caps[1]->0) {
        Some(decode_utf8(caps[1]->0))
    } else {
        None
    }
}

/// The text that the group of `pattern` holds in `line`.
pub open spec fn field(pattern: Seq<char>, line: Seq<u8>) -> Option<Seq<char>> {
    match regex_captures_bytes(pattern, line) {
        Some(caps) => one_group(caps),
        None => None,
    }
}

/// The package that a line of the index describes: there is one where the
/// line holds all five fields.
pub open spec fn described(line: Seq<u8>) -> Option<Described> {
    if field(NAME@, line) is Some && field(VERSION@, line) is Some && field(ORIGIN@, line) is Some && field(
        PATH@,
        line,
    ) is Some && field(ARCH@, line) is Some {
        Some(
            Described {
                name: field(NAME@, line)->0,
                version: field(VERSION@, line)->0,
                category: field(ORIGIN@, line)->0,
                path: field(PATH@, line)->0,
                arch: field(ARCH@, line)->0,
            },
        )
    } else {
        None
    }
}

/// Reads the text of the one group off the groups of a match.
pub fn group_text<'a>(caps: &Vec<Option<&'a [u8]>>) -> (r: Option<&'a str>)
    ensures
        crate::archive::text_or_none(r) == one_group(byte_groups(caps@)),
{
    if caps.len() != 2 {
        return None;
    }
    match caps[1] {
        Some(raw) => text_of_utf8(raw),
        None => None,
    }
}

fn find<'a>(pattern: &str, line: &'a [u8]) -> (r: Option<&'a str>)
    ensures
        crate::archive::text_or_none(r) == field(pattern@, line@),
{
    match captures_bytes(pattern, line) {
        Some(caps) => group_text(&caps),
        None => None,
    }
}

/// Reads the package that a line of the index describes.
pub fn parse_packagesite(line: &[u8]) -> (r: Option<SitePkg>)
    ensures
        match r {
            Some(p) => described(line@) == Some(p@),
            None => described(line@).is_none(),
        },
{
    let name = match find(NAME, line) {
        Some(x) => x,
        None => {
            return None;
        },
    };
    let version = match find(VERSION, line) {
        Some(x) => x,
        None => {
            return None;
        },
    };
    let category = match find(ORIGIN, line) {
        Some(x) => x,
        None => {
            return None;
        },
    };
    let path = match find(PATH, line) {
        Some(x) => x,
        None => {
            return None;
        },
    };
    let arch = match find(ARCH, line) {
        Some(x) => x,
        None => {
            return None;
        },
    };
    Some(
        SitePkg {
            name: String::from_str(name),
            version: String::from_str(version),
            category: String::from_str(category),
            path: String::from_str(path),
            arch: String::from_str(arch),
        },
    )
}

/// Whether an entry of the index archive is the index itself.
pub fn is_packagesite(path: Option<&str>) -> (r: bool)
    ensures
        r == (crate::archive::text_or_none(path) == Some("packagesite.yaml"@)),
{
    match path {
        Some(p) => crate::text::same_text(p, "packagesite.yaml"),
        None => false,
    }
}

} // verus!
