//! The index of an Arch Linux repository.
//!
//! The index is an archive with one directory to a package. In the
//! directory, `desc` describes the package and `files` lists its files.

use vstd::prelude::*;
use crate::calendar::{format_timestamp, timestamp_text};
use crate::charset::string_or_none;
use crate::man::{ismanpath, parsed};
use crate::pkg::DAY;
use crate::rx::{all_captures, all_groups, groups, regex_all_captures};
use crate::text::{ends_with, number, parse_number, same_text};

verus! {

/// What `desc` tells of a package.
#[derive(Clone, Debug, PartialEq, Eq)]
pub struct Meta {
    pub filename: String,
    pub name: String,
    pub version: String,
    pub date: String,
    pub arch: Option<String>,
}

/// The model of a [`Meta`].
pub struct Told {
    pub filename: Seq<char>,
    pub name: Seq<char>,
    pub version: Seq<char>,
    pub date: Seq<char>,
    pub arch: Option<Seq<char>>,
}

impl View for Meta {
    type V = Told;

    open spec fn view(&self) -> Told {
        Told {
            filename: self.filename@,
            name: self.name@,
            version: self.version@,
            date: self.date@,
            arch: string_or_none(self.arch),
        }
    }
}

/// A field of `desc`: its name between percent signs on one line, group 1,
/// and its value on the next, group 2.
pub const DESC_FIELD: &'static str = r"\s*%([^%]+)%\s*\n\s*([^\n]+)\s*\n";

/// The fields of interest as far as they have been read.
pub struct Fields {
    pub filename: Option<Seq<char>>,
    pub name: Option<Seq<char>>,
    pub version: Option<Seq<char>>,
    pub builddate: Option<i64>,
    pub arch: Option<Seq<char>>,
}

/// The fields after one more match of [`DESC_FIELD`]. A field that comes
/// again replaces what came before, and a build date that is no number
/// leaves none.
pub open spec fn fields_with(f: Fields, caps: Seq<Option<Seq<char>>>) -> Fields {
    if caps.len() == 3 && caps[1] is Some && caps[2] is Some {
        let key = caps[1]->0;
        let value = caps[2]->0;
        if key == "FILENAME"@ {
            Fields { filename: Some(value), ..f }
        } else if key == "NAME"@ {
            Fields { name: Some(value), ..f }
        } else if key == "VERSION"@ {
            Fields { version: Some(value), ..f }
        } else if key == "BUILDDATE"@ {
            Fields { builddate: number(value), ..f }
        } else if key == "ARCH"@ {
            Fields { arch: Some(value), ..f }
        } else {
            f
        }
    } else {
        f
    }
}

/// The fields after all the given matches.
pub open spec fn fields_of(found: Seq<Seq<Option<Seq<char>>>>) -> Fields
    decreases found.len(),
{
    if found.len() == 0 {
        Fields { filename: None, name: None, version: None, builddate: None, arch: None }
    } else {
        fields_with(fields_of(found.drop_last()), found.last())
    }
}

/// What the fields tell of a package: something where the name of the
/// file, the name, the version and the time of the build are there, and the
/// time is one that the calendar knows.
pub open spec fn told_by(f: Fields) -> Option<Told> {
    if f.filename is Some && f.name is Some && f.version is Some && f.builddate is Some {
        match timestamp_text(f.builddate->0 as int, DAY@) {
            Some(date) => Some(
                Told { filename: f.filename->0, name: f.name->0, version: f.version->0, date, arch: f.arch },
            ),
            None => None,
        }
    } else {
        None
    }
}

/// What a `desc` with the given text tells of a package.
pub open spec fn told(data: Seq<char>) -> Option<Told> {
    told_by(fields_of(regex_all_captures(DESC_FIELD@, data)))
}

/// Whether an executable description is the given model description.
pub open spec fn meta_is(r: Option<Meta>, m: Option<Told>) -> bool {
    match r {
        Some(x) => m == Some(x@),
        None => m.is_none(),
    }
}

/// Reads what the matches of [`DESC_FIELD`] in a `desc` tell of a package.
pub fn desc_of(found: &Vec<Vec<Option<&str>>>) -> (r: Option<Meta>)
    ensures
        meta_is(r, told_by(fields_of(all_groups(found@)))),
{
    let mut filename: Option<&str> = None;
    let mut name: Option<&str> = None;
    let mut version: Option<&str> = None;
    let mut builddate: Option<i64> = None;
    let mut arch: Option<&str> = None;
    let ghost all = all_groups(found@);
    let mut i: usize = 0;
    while i < found.len()
        invariant
            i <= found.len(),
            all == all_groups(found@),
            fields_of(all.take(i as int)) == (Fields {
                filename: crate::archive::text_or_none(filename),
                name: crate::archive::text_or_none(name),
                version: crate::archive::text_or_none(version),
                builddate,
                arch: crate::archive::text_or_none(arch),
            }),
        decreases found.len() - i,
    {
        let caps = &found[i];
        proof {
            assert(all.take(i + 1).drop_last() =~= all.take(i as int));
            assert(all.take(i + 1).last() == groups(caps@));
        }
        if caps.len() == 3 {
            if let (Some(key), Some(value)) = (caps[1], caps[2]) {
                if same_text(key, "FILENAME") {
                    filename = Some(value);
                } else if same_text(key, "NAME") {
                    name = Some(value);
                } else if same_text(key, "VERSION") {
                    version = Some(value);
                } else if same_text(key, "BUILDDATE") {
                    builddate = parse_number(value);
                } else if same_text(key, "ARCH") {
                    arch = Some(value);
                }
            }
        }
        i += 1;
    }
    proof {
        assert(all.take(found.len() as int) =~= all);
    }
    match (filename, name, version, builddate) {
        (Some(f), Some(n), Some(v), Some(b)) => match format_timestamp(b, DAY) {
            Some(date) => Some(
                Meta {
                    filename: String::from_str(f),
                    name: String::from_str(n),
                    version: String::from_str(v),
                    date,
                    arch: match arch {
                        Some(a) => Some(String::from_str(a)),
                        None => None,
                    },
                },
            ),
            None => None,
        },
        _ => None,
    }
}

/// Reads what a `desc` tells of a package.
pub fn read_desc(data: &str) -> (r: Option<Meta>)
    ensures
        meta_is(r, told(data@)),
{
    let found = all_captures(DESC_FIELD, data);
    desc_of(&found)
}

/// Whether one of the given lines is the path of a manual page.
pub fn read_files(lines: &Vec<String>) -> (r: bool)
    ensures
        r == exists|i: int| 0 <= i < lines.len() && parsed((#[trigger] lines[i])@) is Some,
{
    let mut i: usize = 0;
    while i < lines.len()
        invariant
            i <= lines.len(),
            forall|j: int| 0 <= j < i ==> parsed((#[trigger] lines[j])@) is None,
        decreases lines.len() - i,
    {
        if ismanpath(lines[i].as_str()) {
            return true;
        }
        i += 1;
    }
    false
}

/// What an entry of the index is.
#[derive(Clone, Copy, Debug, PartialEq, Eq, Structural)]
pub enum Member {
    /// The directory of a package.
    Directory,
    /// The list of the files of a package.
    Files,
    /// The description of a package.
    Desc,
    /// Anything else.
    Other,
}

/// Says what an entry of the index is, from whether it is a directory and
/// from its path.
pub fn member(is_dir: bool, path: Option<&str>) -> (r: Member)
    ensures
        r == if is_dir {
            Member::Directory
        } else {
            match path {
                Some(p) => if "/files"@.is_suffix_of(p@) {
                    Member::Files
                } else if "/desc"@.is_suffix_of(p@) {
                    Member::Desc
                } else {
                    Member::Other
                },
                None => Member::Other,
            }
        },
{
    if is_dir {
        return Member::Directory;
    }
    match path {
        Some(p) => {
            if ends_with(p, "/files") {
                Member::Files
            } else if ends_with(p, "/desc") {
                Member::Desc
            } else {
                Member::Other
            }
        },
        None => Member::Other,
    }
}

/// What has been read of the package whose directory the index is in.
pub struct Reader {
    /// Whether it is known to hold a manual page.
    pub hasman: bool,
    /// Its description.
    pub meta: Option<Meta>,
}

/// What an entry of the index brings.
pub enum Event {
    /// A new package begins.
    Directory,
    /// The files of the package were read: whether one is a manual page.
    Files(bool),
    /// The description of the package was read.
    Desc(Option<Meta>),
    /// Nothing.
    Other,
}

impl Reader {
    /// A reader that has read nothing.
    pub fn new() -> (r: Reader)
        ensures
            !r.hasman,
            r.meta is None,
    {
        Reader { hasman: false, meta: None }
    }

    /// Takes in what an entry of the index brings.
    ///
    /// Returns the description of the package as soon as the package is
    /// known to hold a manual page and its description has been read; the
    /// package is then done with.
    pub fn step(&mut self, event: Event) -> (r: Option<Meta>)
        ensures
            ({
                let hasman = match event {
                    Event::Directory => false,
                    Event::Files(h) => h,
                    _ => old(self).hasman,
                };
                let meta = match event {
                    Event::Directory => None,
                    Event::Desc(m) => m,
                    _ => old(self).meta,
                };
                if hasman && meta is Some {
                    r == meta && !final(self).hasman && final(self).meta is None
                } else {
                    r is None && final(self).hasman == hasman && final(self).meta == meta
                }
            }),
    {
        match event {
            Event::Directory => {
                self.hasman = false;
                self.meta = None;
            },
            Event::Files(h) => {
                self.hasman = h;
            },
            Event::Desc(m) => {
                self.meta = m;
            },
            Event::Other => {},
        }
        if self.hasman && self.meta.is_some() {
            self.hasman = false;
            self.meta.take()
        } else {
            None
        }
    }
}

/// The address of the index of the repository `repo` on `mirror`.
pub fn index_url(mirror: &str, repo: &str) -> (r: String)
    ensures
        r@ == mirror@ + seq!['/'] + repo@ + "/os/x86_64/"@ + repo@ + ".files.tar.gz"@,
{
    let mut r = String::from_str(mirror);
    r.push('/');
    r.append(repo);
    r.append("/os/x86_64/");
    r.append(repo);
    r.append(".files.tar.gz");
    r
}

/// The address of the package file `filename` of the repository `repo` on
/// `mirror`.
pub fn package_url(mirror: &str, repo: &str, filename: &str) -> (r: String)
    ensures
        r@ == mirror@ + seq!['/'] + repo@ + "/os/x86_64/"@ + filename@,
{
    let mut r = String::from_str(mirror);
    r.push('/');
    r.append(repo);
    r.append("/os/x86_64/");
    r.append(filename);
    r
}

} // verus!
