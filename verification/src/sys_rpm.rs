//! The indexes of an RPM repository.
//!
//! `repomd.xml` says where the other indexes are. `filelists.xml` lists the
//! files of every package, and `primary.xml` describes every package. All
//! three are XML; they are read here as a stream of events, which whoever
//! parses the XML hands in one by one.

use vstd::prelude::*;
use crate::calendar::{format_timestamp, timestamp_text};
use crate::charset::string_or_none;
use crate::man::{ismanpath, parsed};
use crate::pkg::DAY;
use crate::text::{number, parse_number, same_text};

verus! {

/// One attribute of an XML element.
#[derive(Clone, Debug, PartialEq, Eq)]
pub enum Attr {
    /// A name and a value.
    Pair(String, String),
    /// A name with a value that is no valid text.
    NoText(String),
    /// Something that is no attribute.
    Broken,
}

/// The model of an [`Attr`].
pub enum Attribute {
    Pair(Seq<char>, Seq<char>),
    NoText(Seq<char>),
    Broken,
}

impl View for Attr {
    type V = Attribute;

    open spec fn view(&self) -> Attribute {
        match *self {
            Attr::Pair(k, v) => Attribute::Pair(k@, v@),
            Attr::NoText(k) => Attribute::NoText(k@),
            Attr::Broken => Attribute::Broken,
        }
    }
}

/// The models of a vector of attributes.
pub open spec fn attributes(v: Seq<Attr>) -> Seq<Attribute> {
    Seq::new(v.len(), |i: int| v[i]@)
}

/// One event in the reading of an XML document.
#[derive(Clone, Debug, PartialEq, Eq)]
pub enum Event {
    /// An element begins, or stands alone: its name and its attributes.
    Open(String, Vec<Attr>),
    /// Text.
    Text(String),
    /// An element ends: its name.
    Close(String),
    /// Anything else.
    Other,
}

/// The model of an [`Event`].
pub enum Happening {
    Open(Seq<char>, Seq<Attribute>),
    Text(Seq<char>),
    Close(Seq<char>),
    Other,
}

impl View for Event {
    type V = Happening;

    open spec fn view(&self) -> Happening {
        match *self {
            Event::Open(n, a) => Happening::Open(n@, attributes(a@)),
            Event::Text(t) => Happening::Text(t@),
            Event::Close(n) => Happening::Close(n@),
            Event::Other => Happening::Other,
        }
    }
}

/// Why the reading of an index fails.
#[derive(Clone, Debug, PartialEq, Eq)]
pub enum Fault {
    /// An element holds something that is no attribute.
    Malformed,
    /// The value of the attribute is no valid text.
    NotText,
    /// The element lacks the attribute of this name.
    NotFound(&'static str),
    /// The time of the build is no number.
    NotANumber,
    /// An element that should hold text holds none.
    Empty,
}

/// The model of a [`Fault`].
pub enum Failure {
    Malformed,
    NotText,
    NotFound(Seq<char>),
    NotANumber,
    Empty,
}

impl View for Fault {
    type V = Failure;

    open spec fn view(&self) -> Failure {
        match *self {
            Fault::Malformed => Failure::Malformed,
            Fault::NotText => Failure::NotText,
            Fault::NotFound(a) => Failure::NotFound(a@),
            Fault::NotANumber => Failure::NotANumber,
            Fault::Empty => Failure::Empty,
        }
    }
}

impl Fault {
    /// The fault in words.
    pub fn message(&self) -> (r: String)
        ensures
            r@ == match *self {
                Fault::Malformed => "Malformed attribute"@,
                Fault::NotText => "Attribute value is not valid UTF-8"@,
                Fault::NotFound(a) => "Attribute '"@ + a@ + "' not found"@,
                Fault::NotANumber => "Build time is not a number"@,
                Fault::Empty => "Element without text"@,
            },
    {
        match *self {
            Fault::Malformed => String::from_str("Malformed attribute"),
            Fault::NotText => String::from_str("Attribute value is not valid UTF-8"),
            Fault::NotFound(a) => {
                let mut r = String::from_str("Attribute '");
                r.append(a);
                r.append("' not found");
                r
            },
            Fault::NotANumber => String::from_str("Build time is not a number"),
            Fault::Empty => String::from_str("Element without text"),
        }
    }
}

/// The value of the attribute `name` among the attributes from `i` on: that
/// of the first attribute of that name. The search fails at whatever is no
/// attribute, at a value that is no text, and at the end.
pub open spec fn value_from(attrs: Seq<Attribute>, name: Seq<char>, i: int) -> Result<Seq<char>, Failure>
    decreases attrs.len() - i,
{
    if i < 0 || i >= attrs.len() {
        Err(Failure::NotFound(name))
    } else {
        match attrs[i] {
            Attribute::Broken => Err(Failure::Malformed),
            Attribute::Pair(k, v) => if k == name {
                Ok(v)
            } else {
                value_from(attrs, name, i + 1)
            },
            Attribute::NoText(k) => if k == name {
                Err(Failure::NotText)
            } else {
                value_from(attrs, name, i + 1)
            },
        }
    }
}

/// The value of the attribute `name` among `attrs`.
pub open spec fn value_of(attrs: Seq<Attribute>, name: Seq<char>) -> Result<Seq<char>, Failure> {
    value_from(attrs, name, 0)
}

/// Whether an executable result is the given model result.
pub open spec fn value_is(r: Result<String, Fault>, m: Result<Seq<char>, Failure>) -> bool {
    match r {
        Ok(v) => m == Ok::<Seq<char>, Failure>(v@),
        Err(e) => m == Err::<Seq<char>, Failure>(e@),
    }
}

/// Looks up the value of an attribute.
pub fn xml_getattr(attrs: &Vec<Attr>, name: &'static str) -> (r: Result<String, Fault>)
    ensures
        value_is(r, value_of(attributes(attrs@), name@)),
{
    let mut i: usize = 0;
    while i < attrs.len()
        invariant
            i <= attrs.len(),
            value_of(attributes(attrs@), name@) == value_from(attributes(attrs@), name@, i as int),
        decreases attrs.len() - i,
    {
        proof {
            assert(attributes(attrs@)[i as int] == attrs@[i as int]@);
        }
        match &attrs[i] {
            Attr::Broken => {
                return Err(Fault::Malformed);
            },
            Attr::Pair(k, v) => {
                if same_text(k.as_str(), name) {
                    return Ok(v.clone());
                }
            },
            Attr::NoText(k) => {
                if same_text(k.as_str(), name) {
                    return Err(Fault::NotText);
                }
            },
        }
        i += 1;
    }
    Err(Fault::NotFound(name))
}

/// What the indexes tell of a package.
#[derive(Clone, Debug, PartialEq, Eq)]
pub struct PkgInfo {
    pub name: Option<String>,
    pub arch: Option<String>,
    pub ver: Option<String>,
    pub date: Option<i64>,
    pub path: Option<String>,
    pub hasman: bool,
}

/// The model of a [`PkgInfo`].
pub struct Info {
    pub name: Option<Seq<char>>,
    pub arch: Option<Seq<char>>,
    pub ver: Option<Seq<char>>,
    pub date: Option<i64>,
    pub path: Option<Seq<char>>,
    pub hasman: bool,
}

impl View for PkgInfo {
    type V = Info;

    open spec fn view(&self) -> Info {
        Info {
            name: string_or_none(self.name),
            arch: string_or_none(self.arch),
            ver: string_or_none(self.ver),
            date: self.date,
            path: string_or_none(self.path),
            hasman: self.hasman,
        }
    }
}

/// A package of which nothing is known.
pub open spec fn unknown() -> Info {
    Info { name: None, arch: None, ver: None, date: None, path: None, hasman: false }
}

impl PkgInfo {
    /// A package of which nothing is known.
    pub fn new() -> (r: PkgInfo)
        ensures
            r@ == unknown(),
    {
        PkgInfo { name: None, arch: None, ver: None, date: None, path: None, hasman: false }
    }
}

/// The reader of `primary.xml` and of `filelists.xml`.
pub struct PkgReader {
    /// Whether the next text is to be kept.
    pub savestr: bool,
    /// The text kept.
    pub saved: Option<String>,
    /// The package being read.
    pub pkg: PkgInfo,
}

/// The model of a [`PkgReader`].
pub struct Progress {
    pub savestr: bool,
    pub saved: Option<Seq<char>>,
    pub pkg: Info,
}

impl View for PkgReader {
    type V = Progress;

    open spec fn view(&self) -> Progress {
        Progress { savestr: self.savestr, saved: string_or_none(self.saved), pkg: self.pkg@ }
    }
}

/// What a value that may be missing is worth where a missing value counts
/// for nothing.
pub open spec fn known(r: Result<Seq<char>, Failure>) -> Option<Seq<char>> {
    match r {
        Ok(v) => Some(v),
        Err(_) => None,
    }
}

/// The reader after an element has begun.
pub open spec fn opened(p: Progress, name: Seq<char>, attrs: Seq<Attribute>) -> Result<Progress, Failure> {
    if name == "name"@ || name == "file"@ || name == "arch"@ {
        Ok(Progress { savestr: true, ..p })
    } else if name == "version"@ {
        match value_of(attrs, "ver"@) {
            Err(e) => Err(e),
            Ok(ver) => match value_of(attrs, "rel"@) {
                Err(e) => Err(e),
                Ok(rel) => Ok(Progress { pkg: Info { ver: Some(ver + seq!['-'] + rel), ..p.pkg }, ..p }),
            },
        }
    } else if name == "location"@ {
        match value_of(attrs, "href"@) {
            Err(e) => Err(e),
            Ok(href) => Ok(Progress { pkg: Info { path: Some(href), ..p.pkg }, ..p }),
        }
    } else if name == "time"@ {
        match value_of(attrs, "build"@) {
            Err(e) => Err(e),
            Ok(build) => match number(build) {
                Some(t) => Ok(Progress { pkg: Info { date: Some(t), ..p.pkg }, ..p }),
                None => Err(Failure::NotANumber),
            },
        }
    } else if name == "package"@ {
        Ok(
            Progress {
                pkg: Info { name: known(value_of(attrs, "name"@)), arch: known(value_of(attrs, "arch"@)), ..p.pkg },
                ..p
            },
        )
    } else {
        Ok(p)
    }
}

/// The reader after an element has ended, and the package that is complete
/// with it, if one is. Source packages are left out.
pub open spec fn closed(p: Progress, name: Seq<char>) -> Result<(Progress, Option<Info>), Failure> {
    if name == "name"@ || name == "arch"@ || name == "file"@ {
        match p.saved {
            None => Err(Failure::Empty),
            Some(text) => Ok(
                (
                    Progress {
                        savestr: false,
                        saved: None,
                        pkg: if name == "name"@ {
                            Info { name: Some(text), ..p.pkg }
                        } else if name == "arch"@ {
                            Info { arch: Some(text), ..p.pkg }
                        } else {
                            Info { hasman: p.pkg.hasman || parsed(text) is Some, ..p.pkg }
                        },
                    },
                    None,
                ),
            ),
        }
    } else if name == "package"@ {
        Ok(
            (
                Progress { savestr: false, saved: p.saved, pkg: unknown() },
                if p.pkg.arch == Some("src"@) {
                    None
                } else {
                    Some(p.pkg)
                },
            ),
        )
    } else {
        Ok((Progress { savestr: false, ..p }, None))
    }
}

/// The reader after one more event, and the package that is complete with
/// it, if one is.
pub open spec fn progress(p: Progress, e: Happening) -> Result<(Progress, Option<Info>), Failure> {
    match e {
        Happening::Open(name, attrs) => match opened(p, name, attrs) {
            Ok(q) => Ok((q, None)),
            Err(f) => Err(f),
        },
        Happening::Text(t) => if p.savestr {
            Ok((Progress { savestr: false, saved: Some(t), ..p }, None))
        } else {
            Ok((p, None))
        },
        Happening::Close(name) => closed(p, name),
        Happening::Other => Ok((p, None)),
    }
}

impl PkgReader {
    /// A reader that has read nothing.
    pub fn new() -> (r: PkgReader)
        ensures
            r@ == (Progress { savestr: false, saved: None, pkg: unknown() }),
    {
        PkgReader { savestr: false, saved: None, pkg: PkgInfo::new() }
    }

    fn open(&mut self, name: &str, attrs: &Vec<Attr>) -> (r: Result<(), Fault>)
        ensures
            match r {
                Ok(_) => opened(old(self)@, name@, attributes(attrs@)) == Ok::<Progress, Failure>(final(self)@),
                Err(f) => opened(old(self)@, name@, attributes(attrs@)) == Err::<Progress, Failure>(f@),
            },
    {
        if same_text(name, "name") || same_text(name, "file") || same_text(name, "arch") {
            self.savestr = true;
        } else if same_text(name, "version") {
            let ver = match xml_getattr(attrs, "ver") {
                Ok(v) => v,
                Err(e) => {
                    return Err(e);
                },
            };
            let rel = match xml_getattr(attrs, "rel") {
                Ok(v) => v,
                Err(e) => {
                    return Err(e);
                },
            };
            let ghost first = ver@;
            let mut full = ver;
            full.push('-');
            full.append(rel.as_str());
            proof {
                assert(full@ =~= first + seq!['-'] + rel@);
            }
            self.pkg.ver = Some(full);
        } else if same_text(name, "location") {
            match xml_getattr(attrs, "href") {
                Ok(href) => {
                    self.pkg.path = Some(href);
                },
                Err(e) => {
                    return Err(e);
                },
            }
        } else if same_text(name, "time") {
            let build = match xml_getattr(attrs, "build") {
                Ok(v) => v,
                Err(e) => {
                    return Err(e);
                },
            };
            match parse_number(build.as_str()) {
                Some(t) => {
                    self.pkg.date = Some(t);
                },
                None => {
                    return Err(Fault::NotANumber);
                },
            }
        } else if same_text(name, "package") {
            self.pkg.name = match xml_getattr(attrs, "name") {
                Ok(v) => Some(v),
                Err(_) => None,
            };
            self.pkg.arch = match xml_getattr(attrs, "arch") {
                Ok(v) => Some(v),
                Err(_) => None,
            };
        }
        Ok(())
    }

    fn close(&mut self, name: &str) -> (r: Result<Option<PkgInfo>, Fault>)
        ensures
            match r {
                Ok(done) => closed(old(self)@, name@) == Ok::<(Progress, Option<Info>), Failure>(
                    (
                        final(self)@,
                        match done {
                            Some(d) => Some(d@),
                            None => None,
                        },
                    ),
                ),
                Err(f) => closed(old(self)@, name@) == Err::<(Progress, Option<Info>), Failure>(f@),
            },
    {
        self.savestr = false;
        if same_text(name, "name") {
            match self.saved.take() {
                Some(text) => {
                    self.pkg.name = Some(text);
                },
                None => {
                    return Err(Fault::Empty);
                },
            }
        } else if same_text(name, "arch") {
            match self.saved.take() {
                Some(text) => {
                    self.pkg.arch = Some(text);
                },
                None => {
                    return Err(Fault::Empty);
                },
            }
        } else if same_text(name, "file") {
            match self.saved.take() {
                Some(text) => {
                    let man = ismanpath(text.as_str());
                    self.pkg.hasman = self.pkg.hasman || man;
                },
                None => {
                    return Err(Fault::Empty);
                },
            }
        } else if same_text(name, "package") {
            let mut done = PkgInfo::new();
            core::mem::swap(&mut self.pkg, &mut done);
            let source = match &done.arch {
                Some(a) => same_text(a.as_str(), "src"),
                None => false,
            };
            if !source {
                return Ok(Some(done));
            }
        }
        Ok(None)
    }

    /// Takes in one event.
    ///
    /// Returns the package that is complete with the event, if one is, or
    /// the fault that ends the reading; after a fault the reader is of no
    /// more use.
    pub fn step(&mut self, event: &Event) -> (r: Result<Option<PkgInfo>, Fault>)
        ensures
            match r {
                Ok(done) => progress(old(self)@, event@) == Ok::<(Progress, Option<Info>), Failure>(
                    (
                        final(self)@,
                        match done {
                            Some(d) => Some(d@),
                            None => None,
                        },
                    ),
                ),
                Err(f) => progress(old(self)@, event@) == Err::<(Progress, Option<Info>), Failure>(f@),
            },
    {
        match event {
            Event::Open(name, attrs) => match self.open(name.as_str(), attrs) {
                Ok(_) => Ok(None),
                Err(f) => Err(f),
            },
            Event::Text(t) => {
                if self.savestr {
                    self.saved = Some(t.clone());
                    self.savestr = false;
                }
                Ok(None)
            },
            Event::Close(name) => self.close(name.as_str()),
            Event::Other => Ok(None),
        }
    }
}

/// Which index a `data` element of `repomd.xml` is about.
#[derive(Clone, Copy, Debug, PartialEq, Eq, Structural)]
pub enum Index {
    Primary,
    Filelists,
    Other,
}

/// The reader of `repomd.xml`.
pub struct RepoMd {
    /// Which index the current `data` element is about.
    pub datatype: Index,
    /// The path of `primary.xml`.
    pub primary: String,
    /// The path of `filelists.xml`.
    pub filelists: String,
}

/// The model of a [`RepoMd`].
pub struct Paths {
    pub datatype: Index,
    pub primary: Seq<char>,
    pub filelists: Seq<char>,
}

impl View for RepoMd {
    type V = Paths;

    open spec fn view(&self) -> Paths {
        Paths { datatype: self.datatype, primary: self.primary@, filelists: self.filelists@ }
    }
}

/// The index that a `type` attribute names.
pub open spec fn index_named(kind: Seq<char>) -> Index {
    if kind == "primary"@ {
        Index::Primary
    } else if kind == "filelists"@ {
        Index::Filelists
    } else {
        Index::Other
    }
}

/// The reader of `repomd.xml` after one more event. A `data` element says
/// which index it is about, and a `location` element in it where that index
/// is.
pub open spec fn paths_after(p: Paths, e: Happening) -> Result<Paths, Failure> {
    match e {
        Happening::Open(name, attrs) => if name == "data"@ {
            match value_of(attrs, "type"@) {
                Ok(kind) => Ok(Paths { datatype: index_named(kind), ..p }),
                Err(f) => Err(f),
            }
        } else if name == "location"@ && p.datatype != Index::Other {
            match value_of(attrs, "href"@) {
                Ok(href) => Ok(
                    if p.datatype == Index::Primary {
                        Paths { primary: href, ..p }
                    } else {
                        Paths { filelists: href, ..p }
                    },
                ),
                Err(f) => Err(f),
            }
        } else {
            Ok(p)
        },
        _ => Ok(p),
    }
}

impl RepoMd {
    /// A reader that has read nothing.
    pub fn new() -> (r: RepoMd)
        ensures
            r@ == (Paths { datatype: Index::Other, primary: Seq::empty(), filelists: Seq::empty() }),
    {
        RepoMd { datatype: Index::Other, primary: String::new(), filelists: String::new() }
    }

    /// Takes in one event, or fails with the fault that ends the reading;
    /// after a fault the reader is of no more use.
    pub fn step(&mut self, event: &Event) -> (r: Result<(), Fault>)
        ensures
            match r {
                Ok(_) => paths_after(old(self)@, event@) == Ok::<Paths, Failure>(final(self)@),
                Err(f) => paths_after(old(self)@, event@) == Err::<Paths, Failure>(f@),
            },
    {
        if let Event::Open(name, attrs) = event {
            if same_text(name.as_str(), "data") {
                match xml_getattr(attrs, "type") {
                    Ok(kind) => {
                        self.datatype = if same_text(kind.as_str(), "primary") {
                            Index::Primary
                        } else if same_text(kind.as_str(), "filelists") {
                            Index::Filelists
                        } else {
                            Index::Other
                        };
                    },
                    Err(f) => {
                        return Err(f);
                    },
                }
            } else if same_text(name.as_str(), "location") && self.datatype != Index::Other {
                match xml_getattr(attrs, "href") {
                    Ok(href) => {
                        if self.datatype == Index::Primary {
                            self.primary = href;
                        } else {
                            self.filelists = href;
                        }
                    },
                    Err(f) => {
                        return Err(f);
                    },
                }
            }
        }
        Ok(())
    }
}

/// A package to index: where its file is, and what is known of it.
#[derive(Clone, Debug, PartialEq, Eq)]
pub struct Job {
    pub uri: String,
    pub name: String,
    pub ver: String,
    pub date: String,
    pub arch: String,
}

/// The model of a [`Job`].
pub struct Task {
    pub uri: Seq<char>,
    pub name: Seq<char>,
    pub ver: Seq<char>,
    pub date: Seq<char>,
    pub arch: Seq<char>,
}

impl View for Job {
    type V = Task;

    open spec fn view(&self) -> Task {
        Task { uri: self.uri@, name: self.name@, ver: self.ver@, date: self.date@, arch: self.arch@ }
    }
}

/// The package to index that `primary.xml` describes: there is one where
/// name, version, architecture, path and time of the build are all there, and
/// the time is one that the calendar knows.
pub open spec fn task(mirror: Seq<char>, i: Info) -> Option<Task> {
    if i.name is Some && i.ver is Some && i.arch is Some && i.path is Some && i.date is Some {
        match timestamp_text(i.date->0 as int, DAY@) {
            Some(date) => Some(
                Task { uri: mirror + i.path->0, name: i.name->0, ver: i.ver->0, date, arch: i.arch->0 },
            ),
            None => None,
        }
    } else {
        None
    }
}

/// Makes of a package that `primary.xml` describes a package to index.
pub fn job(mirror: &str, pkg: &PkgInfo) -> (r: Option<Job>)
    ensures
        match r {
            Some(j) => task(mirror@, pkg@) == Some(j@),
            None => task(mirror@, pkg@).is_none(),
        },
{
    match (&pkg.name, &pkg.ver, &pkg.arch, &pkg.path, pkg.date) {
        (Some(name), Some(ver), Some(arch), Some(path), Some(t)) => match format_timestamp(t, DAY) {
            Some(date) => {
                let mut uri = String::from_str(mirror);
                uri.append(path.as_str());
                Some(Job { uri, name: name.clone(), ver: ver.clone(), date, arch: arch.clone() })
            },
            None => None,
        },
        _ => None,
    }
}

} // verus!
