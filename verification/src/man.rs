//! Telling manual pages from other files by their paths.

use vstd::prelude::*;
use vstd::utf8::{decode_utf8, valid_utf8};
use crate::charset::{decode_strictly, decoded, encoding_name, name_of_label};
use crate::hash::{sha1, sha1_digest};
use crate::rx::{
    captures, captures_bytes, groups, matches_bytes, regex_captures, regex_captures_bytes,
    regex_matches_bytes,
};
use crate::text::{lowercase, same_text, text_of_utf8, to_lowercase};

verus! {

/// The shape of the path of a manual page:
/// `man[/locale]/man<x>/name.section[.compression]...`.
pub const MAN_PATH: &'static str = r"(?x)
            man
            (?: / ([^/]+) )?   # Optional locale
            /man[a-z0-9]/      # Subdir
            ([^/]+?)           # Man page name (non-greedy)
            \. ([^/\.]+)       # Section
            (?: \. (?: gz|lzma|bz2|xz ))* $  # Any number of compression extensions
        ";

/// A manual page as its path describes it: name, section and locale.
pub type Page = (Seq<char>, Seq<char>, Seq<char>);

/// Names and sections of files that lie where manual pages lie and are none.
pub open spec fn is_no_page(name: Seq<char>, section: Seq<char>) -> bool {
    ||| (name == "Makefile"@ && section == "am"@)
    ||| name == ".cvsignore"@
    ||| section == "in"@
    ||| section == "gz"@
    ||| section == "lzma"@
    ||| section == "bz2"@
    ||| section == "xz"@
    ||| section == "html"@
}

/// Directory names that stand where a locale would stand and are none.
pub open spec fn is_no_locale(locale: Seq<char>) -> bool {
    ||| locale == "5man"@
    ||| locale == "c"@
    ||| locale == "man1"@
    ||| locale == "man2"@
    ||| locale == "man3"@
    ||| locale == "man4"@
    ||| locale == "man5"@
    ||| locale == "man6"@
    ||| locale == "man7"@
    ||| locale == "man8"@
    ||| locale == "Man-Part1"@
    ||| locale == "Man-Part2"@
}

/// The manual page that the three parts of a path describe, if they
/// describe one.
pub open spec fn sifted(name: Seq<char>, section: Seq<char>, locale: Seq<char>) -> Option<Page> {
    if is_no_page(name, section) {
        None
    } else if is_no_locale(locale) {
        Some((name, section, Seq::empty()))
    } else {
        Some((name, section, locale))
    }
}

/// The manual page that the groups of a match of [`MAN_PATH`] describe:
/// group 1 is the locale, if there is one, group 2 the name and group 3 the
/// section.
pub open spec fn page_of(caps: Seq<Option<Seq<char>>>) -> Option<Page> {
    if caps.len() == 4 && caps[2] is Some && caps[3] is Some {
        sifted(
            caps[2]->0,
            caps[3]->0,
            match caps[1] {
                Some(l) => l,
                None => Seq::empty(),
            },
        )
    } else {
        None
    }
}

/// The manual page that `path` describes, if it describes one.
pub open spec fn parsed(path: Seq<char>) -> Option<Page> {
    match regex_captures(MAN_PATH@, path) {
        Some(caps) => page_of(caps),
        None => None,
    }
}

/// Whether an executable page is the given model page.
pub open spec fn page_is(r: Option<(&str, &str, &str)>, m: Option<Page>) -> bool {
    match r {
        Some((n, s, l)) => m == Some((n@, s@, l@)),
        None => m.is_none(),
    }
}

/// Sorts out what only looks like a manual page: build files and leftovers
/// of compression among the names, and directories that are no locales.
pub fn sift<'a>(name: &'a str, section: &'a str, locale: &'a str) -> (r: Option<(&'a str, &'a str, &'a str)>)
    ensures
        page_is(r, sifted(name@, section@, locale@)),
{
    if (same_text(name, "Makefile") && same_text(section, "am")) || same_text(name, ".cvsignore")
        || same_text(section, "in") || same_text(section, "gz") || same_text(section, "lzma")
        || same_text(section, "bz2") || same_text(section, "xz") || same_text(section, "html") {
        return None;
    }
    if same_text(locale, "5man") || same_text(locale, "c") || same_text(locale, "man1") || same_text(
        locale,
        "man2",
    ) || same_text(locale, "man3") || same_text(locale, "man4") || same_text(locale, "man5")
        || same_text(locale, "man6") || same_text(locale, "man7") || same_text(locale, "man8")
        || same_text(locale, "Man-Part1") || same_text(locale, "Man-Part2") {
        let none: &'static str = "";
        proof {
            reveal_strlit("");
            assert(none@ =~= Seq::<char>::empty());
        }
        return Some((name, section, none));
    }
    Some((name, section, locale))
}

/// Reads a manual page off the groups of a match of [`MAN_PATH`].
pub fn page<'a>(caps: &Vec<Option<&'a str>>) -> (r: Option<(&'a str, &'a str, &'a str)>)
    ensures
        page_is(r, page_of(groups(caps@))),
{
    if caps.len() != 4 {
        return None;
    }
    let name = match caps[2] {
        Some(n) => n,
        None => {
            return None;
        },
    };
    let section = match caps[3] {
        Some(s) => s,
        None => {
            return None;
        },
    };
    let locale = match caps[1] {
        Some(l) => l,
        None => {
            let none: &'static str = "";
            proof {
                reveal_strlit("");
                assert(none@ =~= Seq::<char>::empty());
            }
            none
        },
    };
    sift(name, section, locale)
}

/// Checks a path for a manual page. Returns the page's name, section and
/// locale, the locale empty where the path names none, or `None` where the
/// path is not that of a manual page.
pub fn parse_path(path: &str) -> (r: Option<(&str, &str, &str)>)
    ensures
        page_is(r, parsed(path@)),
{
    match captures(MAN_PATH, path) {
        Some(caps) => page(&caps),
        None => None,
    }
}

/// Whether `path` is the path of a manual page.
pub fn ismanpath(path: &str) -> (r: bool)
    ensures
        r == parsed(path@).is_some(),
{
    parse_path(path).is_some()
}

/// Anything as large as this is no manual page.
pub const MAX_MAN_SIZE: usize = 20 * 1024 * 1024;

/// Nor is anything smaller than this.
pub const MIN_MAN_SIZE: usize = 9;

/// The start of an HTML file.
pub const HTML: &'static str = r"^\s*<(?:html|head|!DOCTYPE)";

/// Why a file is no manual page.
#[derive(Clone, Copy, Debug, PartialEq, Eq, Structural)]
pub enum Invalid {
    TooLarge,
    TooSmall,
    SoMan3,
    Timestamp,
    Elf,
    Html,
}

impl Invalid {
    /// The reason in words.
    pub fn message(&self) -> (r: &'static str)
        ensures
            r@ == match *self {
                Invalid::TooLarge => "File too large"@,
                Invalid::TooSmall => "File too small"@,
                Invalid::SoMan3 => "Contents: '.so man3/'"@,
                Invalid::Timestamp => "Contents: 'timestamp'"@,
                Invalid::Elf => "Looks like an ELF binary"@,
                Invalid::Html => "Looks like an HTML file"@,
            },
    {
        match *self {
            Invalid::TooLarge => "File too large",
            Invalid::TooSmall => "File too small",
            Invalid::SoMan3 => "Contents: '.so man3/'",
            Invalid::Timestamp => "Contents: 'timestamp'",
            Invalid::Elf => "Looks like an ELF binary",
            Invalid::Html => "Looks like an HTML file",
        }
    }
}

/// The bytes of a text of ASCII characters.
pub open spec fn ascii_bytes(text: Seq<char>) -> Seq<u8> {
    Seq::new(text.len(), |i: int| text[i] as u8)
}

/// Whether `data` holds just the bytes of the ASCII text `text`.
pub fn holds_text(data: &[u8], text: &str) -> (r: bool)
    requires
        text.is_ascii(),
    ensures
        r == (data@ == ascii_bytes(text@)),
{
    let expected = text.as_bytes();
    proof {
        vstd::string::is_ascii_spec_bytes(text);
        assert(expected@ =~= ascii_bytes(text@));
    }
    if data.len() != expected.len() {
        return false;
    }
    let mut i: usize = 0;
    while i < data.len()
        invariant
            i <= data.len(),
            data.len() == expected.len(),
            expected@ == ascii_bytes(text@),
            forall|j: int| 0 <= j < i ==> data@[j] == expected@[j],
        decreases data.len() - i,
    {
        if data[i] != expected[i] {
            return false;
        }
        i += 1;
    }
    proof {
        assert(data@ =~= expected@);
    }
    true
}

/// Why `data` is no manual page, if it is none that can be told by its size
/// or by how it begins.
pub open spec fn validated(data: Seq<u8>) -> Option<Invalid> {
    if data.len() >= MAX_MAN_SIZE {
        Some(Invalid::TooLarge)
    } else if data.len() < MIN_MAN_SIZE {
        Some(Invalid::TooSmall)
    } else if data == ascii_bytes(".so man3/\n"@) {
        Some(Invalid::SoMan3)
    } else if data == ascii_bytes("timestamp\n"@) {
        Some(Invalid::Timestamp)
    } else if data == ascii_bytes("\x75ELF"@) {
        Some(Invalid::Elf)
    } else if regex_matches_bytes(HTML@, data) {
        Some(Invalid::Html)
    } else {
        None
    }
}

/// Sorts out what is no manual page by its size or by how it begins.
pub fn validate(data: &[u8]) -> (r: Option<Invalid>)
    ensures
        r == validated(data@),
{
    proof {
        reveal_strlit(".so man3/\n");
        reveal_strlit("timestamp\n");
        reveal_strlit("\x75ELF");
    }
    if data.len() >= MAX_MAN_SIZE {
        Some(Invalid::TooLarge)
    } else if data.len() < MIN_MAN_SIZE {
        Some(Invalid::TooSmall)
    } else if holds_text(data, ".so man3/\n") {
        Some(Invalid::SoMan3)
    } else if holds_text(data, "timestamp\n") {
        Some(Invalid::Timestamp)
    } else if holds_text(data, "\x75ELF") {
        Some(Invalid::Elf)
    } else if matches_bytes(HTML, data) {
        Some(Invalid::Html)
    } else {
        None
    }
}

/// A character encoding: a label that selects it, and its name.
#[derive(Clone, Debug, PartialEq, Eq)]
pub struct Codec {
    pub label: String,
    pub name: String,
}

/// The model of a [`Codec`].
pub struct Charset {
    pub label: Seq<char>,
    pub name: Seq<char>,
}

impl View for Codec {
    type V = Charset;

    open spec fn view(&self) -> Charset {
        Charset { label: self.label@, name: self.name@ }
    }
}

/// Whether an executable choice of encoding is the given model choice.
pub open spec fn codec_is(r: Option<Codec>, m: Option<Charset>) -> bool {
    match r {
        Some(c) => m == Some(c@),
        None => m.is_none(),
    }
}

/// The encoding that `label` selects, if it selects one.
pub open spec fn labelled(label: Seq<char>) -> Option<Charset> {
    match encoding_name(label) {
        Some(name) => Some(Charset { label, name }),
        None => None,
    }
}

impl Codec {
    /// The encoding that `label` selects, if it selects one.
    pub fn by_label(label: &str) -> (r: Option<Codec>)
        ensures
            codec_is(r, labelled(label@)),
    {
        match name_of_label(label) {
            Some(name) => Some(Codec { label: String::from_str(label), name }),
            None => None,
        }
    }
}

/// A coding tag in the style of Emacs, as `preconv` reads it, anywhere in a
/// file.
pub const TAG: &'static str = r"-\*-.*coding:\s*(?u:([^\s;]+)).*-\*";

/// Coding tags that claim an encoding which UTF-8 includes. A file with
/// such a tag that is no UTF-8 carries a wrong tag.
pub open spec fn is_unicode_tag(tag: Seq<char>) -> bool {
    ||| tag == "us-ascii"@
    ||| tag == "ascii"@
    ||| tag == "utf8"@
    ||| tag == "utf-8"@
    ||| tag == "utf-8-unix"@
}

/// The encoding that a coding tag names, the tag in lowercase.
pub open spec fn tagged(tag: Seq<char>) -> Option<Charset> {
    if is_unicode_tag(tag) {
        None
    } else if tag == "latin-1"@ {
        labelled("windows-1252"@)
    } else {
        labelled(tag)
    }
}

/// The encoding that a coding tag names, whatever its case.
pub fn codec_for_tag(tag: &str) -> (r: Option<Codec>)
    ensures
        codec_is(r, tagged(lowercase(tag@))),
{
    let low = to_lowercase(tag);
    let t = low.as_str();
    if same_text(t, "us-ascii") || same_text(t, "ascii") || same_text(t, "utf8") || same_text(t, "utf-8")
        || same_text(t, "utf-8-unix") {
        None
    } else if same_text(t, "latin-1") {
        Codec::by_label("windows-1252")
    } else {
        Codec::by_label(t)
    }
}

/// The encoding that the groups of a match of [`TAG`] name: group 1 is the
/// tag.
pub open spec fn tag_codec(caps: Seq<Option<Seq<u8>>>) -> Option<Charset> {
    if caps.len() == 2 && caps[1] is Some && valid_utf8(caps[1]->0) {
        tagged(lowercase(decode_utf8(caps[1]->0)))
    } else {
        None
    }
}

/// The encoding that a coding tag in `data` names, if there is such a tag.
pub open spec fn codec_of_data(data: Seq<u8>) -> Option<Charset> {
    match regex_captures_bytes(TAG@, data) {
        Some(caps) => tag_codec(caps),
        None => None,
    }
}

/// Looks for a coding tag in a file and returns the encoding it names.
pub fn codec_from_tag(data: &[u8]) -> (r: Option<Codec>)
    ensures
        codec_is(r, codec_of_data(data@)),
{
    let caps = match captures_bytes(TAG, data) {
        Some(caps) => caps,
        None => {
            return None;
        },
    };
    if caps.len() != 2 {
        return None;
    }
    let raw = match caps[1] {
        Some(raw) => raw,
        None => {
            return None;
        },
    };
    match text_of_utf8(raw) {
        Some(tag) => codec_for_tag(tag),
        None => None,
    }
}

/// The shape of a locale: language, territory, script and encoding.
pub const LOCALE: &'static str = r"^(?x)
           ([a-z]+)           # primary language
           (?:_  ([a-z]+))?   # secondary language
           (?:@  [a-z]+)?     # script
           (?:\. ([^\.@]+))?  # encoding
        $";

/// The encoding that the encoding part of a locale names by a rule of this
/// crate, as a label.
pub open spec fn coded_label(lang: Seq<char>, enc: Seq<char>) -> Seq<char> {
    if enc == "eucjp"@ || enc == "ujis"@ || (lang == "ja"@ && enc == "euc"@) {
        "euc-jp"@
    } else if enc == "euckr"@ {
        "windows-949"@
    } else if lang == "ja"@ && enc == "pck"@ {
        "windows-31j"@
    } else if lang == "ja"@ && enc == "jis7"@ {
        "iso-2022-jp"@
    } else {
        enc
    }
}

/// The encoding that texts in a language are most often written in, as a
/// label, where this crate knows of one.
pub open spec fn spoken_label(lang: Seq<char>, territory: Option<Seq<char>>) -> Option<Seq<char>> {
    if lang == "pl"@ || lang == "cs"@ || lang == "hr"@ || lang == "hu"@ || lang == "sl"@ || lang == "sk"@ {
        Some("iso-8859-2"@)
    } else if lang == "bg"@ || lang == "be"@ || lang == "uk"@ {
        Some("iso-8859-5"@)
    } else if lang == "el"@ {
        Some("iso-8859-7"@)
    } else if lang == "et"@ {
        Some("iso-8859-15"@)
    } else if lang == "tr"@ {
        Some("windows-1254"@)
    } else if lang == "ru"@ {
        Some("koi8-r"@)
    } else if lang == "ja"@ || lang == "jp"@ {
        Some("euc-jp"@)
    } else if lang == "zh"@ {
        if territory == Some("cn"@) {
            Some("gbk"@)
        } else {
            Some("big5"@)
        }
    } else if lang == "ko"@ {
        Some("windows-949"@)
    } else {
        None
    }
}

/// The encoding that the parts of a locale point to: the one that its
/// encoding part names, where it has one and the name is known, else the one
/// that is usual for its language.
pub open spec fn local(lang: Seq<char>, territory: Option<Seq<char>>, enc: Option<Seq<char>>) -> Option<Charset> {
    let named = match enc {
        Some(e) => labelled(coded_label(lang, e)),
        None => None,
    };
    match named {
        Some(c) => Some(c),
        None => match spoken_label(lang, territory) {
            Some(l) => labelled(l),
            None => None,
        },
    }
}

/// The encoding that the parts of a locale point to, the parts in
/// lowercase.
pub fn codec_for_locale(lang: &str, territory: Option<&str>, enc: Option<&str>) -> (r: Option<Codec>)
    ensures
        codec_is(
            r,
            local(
                lang@,
                match territory {
                    Some(t) => Some(t@),
                    None => None,
                },
                match enc {
                    Some(e) => Some(e@),
                    None => None,
                },
            ),
        ),
{
    if let Some(e) = enc {
        let label = if same_text(e, "eucjp") || same_text(e, "ujis") || (same_text(lang, "ja") && same_text(
            e,
            "euc",
        )) {
            "euc-jp"
        } else if same_text(e, "euckr") {
            "windows-949"
        } else if same_text(lang, "ja") && same_text(e, "pck") {
            "windows-31j"
        } else if same_text(lang, "ja") && same_text(e, "jis7") {
            "iso-2022-jp"
        } else {
            e
        };
        if let Some(c) = Codec::by_label(label) {
            return Some(c);
        }
    }
    let of_china = match territory {
        Some(t) => same_text(t, "cn"),
        None => false,
    };
    if same_text(lang, "pl") || same_text(lang, "cs") || same_text(lang, "hr") || same_text(lang, "hu")
        || same_text(lang, "sl") || same_text(lang, "sk") {
        Codec::by_label("iso-8859-2")
    } else if same_text(lang, "bg") || same_text(lang, "be") || same_text(lang, "uk") {
        Codec::by_label("iso-8859-5")
    } else if same_text(lang, "el") {
        Codec::by_label("iso-8859-7")
    } else if same_text(lang, "et") {
        Codec::by_label("iso-8859-15")
    } else if same_text(lang, "tr") {
        Codec::by_label("windows-1254")
    } else if same_text(lang, "ru") {
        Codec::by_label("koi8-r")
    } else if same_text(lang, "ja") || same_text(lang, "jp") {
        Codec::by_label("euc-jp")
    } else if same_text(lang, "zh") {
        if of_china {
            Codec::by_label("gbk")
        } else {
            Codec::by_label("big5")
        }
    } else if same_text(lang, "ko") {
        Codec::by_label("windows-949")
    } else {
        None
    }
}

/// The encoding that the groups of a match of [`LOCALE`] point to: group 1
/// is the language, group 2 the territory and group 3 the encoding.
pub open spec fn locale_codec(caps: Seq<Option<Seq<char>>>) -> Option<Charset> {
    if caps.len() == 4 && caps[1] is Some {
        local(caps[1]->0, caps[2], caps[3])
    } else {
        None
    }
}

/// The encoding that the locale in the path of a manual page points to.
pub open spec fn codec_of_path(path: Seq<char>) -> Option<Charset> {
    match parsed(path) {
        Some((_, _, locale)) => if locale.len() == 0 {
            None
        } else {
            match regex_captures(LOCALE@, lowercase(locale)) {
                Some(caps) => locale_codec(caps),
                None => None,
            }
        },
        None => None,
    }
}

/// Guesses the encoding of a manual page from the locale in its path.
pub fn codec_from_path(path: &str) -> (r: Option<Codec>)
    ensures
        codec_is(r, codec_of_path(path@)),
{
    let locale = match parse_path(path) {
        Some((_, _, l)) => l,
        None => {
            return None;
        },
    };
    if locale.unicode_len() == 0 {
        return None;
    }
    let low = to_lowercase(locale);
    let caps = match captures(LOCALE, low.as_str()) {
        Some(caps) => caps,
        None => {
            return None;
        },
    };
    if caps.len() != 4 {
        return None;
    }
    proof {
        assert(groups(caps@)[1] == match caps@[1] {
            Some(s) => Some(s@),
            None => None,
        });
        assert(groups(caps@)[2] == match caps@[2] {
            Some(s) => Some(s@),
            None => None,
        });
        assert(groups(caps@)[3] == match caps@[3] {
            Some(s) => Some(s@),
            None => None,
        });
    }
    match caps[1] {
        Some(lang) => codec_for_locale(lang, caps[2], caps[3]),
        None => None,
    }
}

/// A manual page made readable.
#[derive(Clone, Debug, PartialEq, Eq)]
pub struct Decoded {
    /// The SHA-1 digest of the page as it was found.
    pub digest: Vec<u8>,
    /// The name of the encoding it was found in.
    pub encoding: String,
    /// Its text.
    pub text: String,
}

/// The model of a [`Decoded`].
pub struct Readable {
    pub digest: Seq<u8>,
    pub encoding: Seq<char>,
    pub text: Seq<char>,
}

impl View for Decoded {
    type V = Readable;

    open spec fn view(&self) -> Readable {
        Readable { digest: self.digest@, encoding: self.encoding@, text: self.text@ }
    }
}

/// The text of `data` read as ISO 8859-1: each byte is the character with
/// that number.
pub open spec fn latin1(data: Seq<u8>) -> Seq<char> {
    Seq::new(data.len(), |i: int| data[i] as char)
}

/// `data` read in the encoding `c`, with the name of the encoding, where
/// there is an encoding and `data` is a text in it.
pub open spec fn read_in(c: Option<Charset>, data: Seq<u8>) -> Option<(Seq<char>, Seq<char>)> {
    match c {
        Some(c) => match decoded(c.label, data) {
            Some(text) => Some((c.name, text)),
            None => None,
        },
        None => None,
    }
}

/// `data` read in the encoding that the first of the paths from `i` on
/// points to in which `data` is a text.
pub open spec fn read_by_path(paths: Seq<Seq<char>>, data: Seq<u8>, i: int) -> Option<(Seq<char>, Seq<char>)>
    decreases paths.len() - i,
{
    if i < 0 || i >= paths.len() {
        None
    } else {
        match read_in(codec_of_path(paths[i]), data) {
            Some(found) => Some(found),
            None => read_by_path(paths, data, i + 1),
        }
    }
}

/// What a file found under the given paths is made of: nothing where it is
/// no manual page; else its text as UTF-8 where it is UTF-8, else in the
/// encoding that a coding tag in it names, else in an encoding that one of
/// its paths points to, else as ISO 8859-1.
pub open spec fn readable(paths: Seq<Seq<char>>, data: Seq<u8>) -> Result<Readable, Invalid> {
    match validated(data) {
        Some(why) => Err(why),
        None => Ok(
            if valid_utf8(data) {
                Readable { digest: sha1(data), encoding: "utf8"@, text: decode_utf8(data) }
            } else {
                match read_in(codec_of_data(data), data) {
                    Some((name, text)) => Readable { digest: sha1(data), encoding: name, text },
                    None => match read_by_path(paths, data, 0) {
                        Some((name, text)) => Readable { digest: sha1(data), encoding: name, text },
                        None => Readable { digest: sha1(data), encoding: "iso-8859-1"@, text: latin1(data) },
                    },
                }
            },
        ),
    }
}

/// The views of a slice of string slices.
pub open spec fn slices(v: Seq<&str>) -> Seq<Seq<char>> {
    Seq::new(v.len(), |i: int| v[i]@)
}

fn read_as(c: Option<Codec>, data: &[u8]) -> (r: Option<(String, String)>)
    ensures
        match r {
            Some((name, text)) => read_in(
                match c {
                    Some(c) => Some(c@),
                    None => None,
                },
                data@,
            ) == Some((name@, text@)),
            None => read_in(
                match c {
                    Some(c) => Some(c@),
                    None => None,
                },
                data@,
            ).is_none(),
        },
{
    match c {
        Some(c) => match decode_strictly(c.label.as_str(), data) {
            Some(text) => Some((c.name, text)),
            None => None,
        },
        None => None,
    }
}

fn read_latin1(data: &[u8]) -> (r: String)
    ensures
        r@ == latin1(data@),
{
    let mut r = String::new();
    let mut i: usize = 0;
    while i < data.len()
        invariant
            i <= data.len(),
            r@ == latin1(data@).take(i as int),
        decreases data.len() - i,
    {
        r.push(data[i] as char);
        i += 1;
        proof {
            assert(r@ =~= latin1(data@).take(i as int));
        }
    }
    proof {
        assert(latin1(data@).take(data.len() as int) =~= latin1(data@));
    }
    r
}

/// Makes a manual page readable: checks that `data`, found under `paths`, can
/// be a manual page, and returns its SHA-1 digest, the name of its encoding
/// and its text.
pub fn decode(paths: &[&str], data: &[u8]) -> (r: Result<Decoded, Invalid>)
    ensures
        match r {
            Ok(d) => readable(slices(paths@), data@) == Ok::<Readable, Invalid>(d@),
            Err(e) => readable(slices(paths@), data@) == Err::<Readable, Invalid>(e),
        },
{
    if let Some(why) = validate(data) {
        return Err(why);
    }
    let digest = sha1_digest(data);
    if let Some(text) = text_of_utf8(data) {
        return Ok(Decoded { digest, encoding: String::from_str("utf8"), text: String::from_str(text) });
    }
    if let Some((encoding, text)) = read_as(codec_from_tag(data), data) {
        return Ok(Decoded { digest, encoding, text });
    }
    let mut i: usize = 0;
    while i < paths.len()
        invariant
            i <= paths.len(),
            validated(data@).is_none(),
            !valid_utf8(data@),
            read_in(codec_of_data(data@), data@).is_none(),
            digest@ == sha1(data@),
            read_by_path(slices(paths@), data@, 0) == read_by_path(slices(paths@), data@, i as int),
        decreases paths.len() - i,
    {
        proof {
            assert(slices(paths@)[i as int] == paths@[i as int]@);
        }
        if let Some((encoding, text)) = read_as(codec_from_path(paths[i]), data) {
            return Ok(Decoded { digest, encoding, text });
        }
        i += 1;
    }
    Ok(Decoded { digest, encoding: String::from_str("iso-8859-1"), text: read_latin1(data) })
}

} // verus!
