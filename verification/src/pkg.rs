//! What is known of a package before and while it is indexed.

use vstd::prelude::*;
use crate::archive::Format;
use crate::calendar::{format_timestamp, timestamp_text};
use crate::open::Path;
use crate::text::{same_text, starts_with};

verus! {

/// The release date of a package, or where it is to be found.
#[derive(Debug, Clone, Copy)]
pub enum Date<'a> {
    /// Known beforehand.
    Known(&'a str),
    /// Found in the package: seconds since the start of 1970.
    Found(i64),
    /// To be read from the time of the `debian-binary` member.
    Deb,
    /// To be read from the package's description.
    Desc,
    /// To be taken from the latest member of the package.
    Max,
}

/// What to index, and as what.
pub struct PkgOpt<'a> {
    /// Whether to index the package again if it has been indexed.
    pub force: bool,
    /// The system the package belongs to.
    pub sys: i32,
    /// Its category.
    pub cat: &'a str,
    /// Its name.
    pub pkg: &'a str,
    /// Its version.
    pub ver: &'a str,
    /// Its release date.
    pub date: Date<'a>,
    /// Its architecture.
    pub arch: Option<&'a str>,
    /// Where its archive is.
    pub file: Path<'a>,
}

/// Whether an entry is the `debian-binary` member that every Debian
/// package begins with: an entry of that name in an `ar` archive.
pub open spec fn marks_deb(format: Format, path: Option<Seq<char>>) -> bool {
    format == Format::Ar && path == Some("debian-binary"@)
}

/// Whether an entry is the `debian-binary` member that every Debian
/// package begins with.
pub fn is_deb_marker(format: Format, path: Option<&str>) -> (r: bool)
    ensures
        r == marks_deb(format, crate::archive::text_or_none(path)),
{
    match path {
        Some(p) => format == Format::Ar && same_text(p, "debian-binary"),
        None => false,
    }
}

/// Whether an entry of a Debian package is the archive of the package's
/// files: its name begins with `data.tar`.
pub fn is_data_member(path: Option<&str>) -> (r: bool)
    ensures
        r == match path {
            Some(p) => "data.tar"@.is_prefix_of(p@),
            None => false,
        },
{
    match path {
        Some(p) => starts_with(p, "data.tar"),
        None => false,
    }
}

/// The date after an entry with the given format, path and time has been
/// seen: a date that is to be read from `debian-binary` is found when that
/// member passes, and no other date changes.
pub open spec fn date_after<'a>(date: Date<'a>, format: Format, path: Option<Seq<char>>, mtime: i64) -> Date<'a> {
    if date is Deb && marks_deb(format, path) {
        Date::Found(mtime)
    } else {
        date
    }
}

/// The format in which release dates are written.
pub const DAY: &'static str = "%Y-%m-%d";

/// The date written down for a package whose date is not known yet.
pub const NO_DAY: &'static str = "1980-01-01";

/// What is to be done about the release date once a package has been read.
#[derive(Debug, Clone, PartialEq, Eq)]
pub enum Release {
    /// Nothing: it was known beforehand.
    Keep,
    /// It was found in the package: write down this day.
    Day(String),
    /// No valid date was found: the package cannot be indexed.
    Missing,
}

/// The model of a [`Release`].
pub enum Released {
    Keep,
    Day(Seq<char>),
    Missing,
}

impl View for Release {
    type V = Released;

    open spec fn view(&self) -> Released {
        match *self {
            Release::Keep => Released::Keep,
            Release::Day(d) => Released::Day(d@),
            Release::Missing => Released::Missing,
        }
    }
}

/// What is to be done about a release date once the package has been read.
pub open spec fn released(date: Date) -> Released {
    match date {
        Date::Known(_) => Released::Keep,
        Date::Found(t) => match timestamp_text(t as int, DAY@) {
            Some(day) => Released::Day(day),
            None => Released::Missing,
        },
        _ => Released::Missing,
    }
}

impl<'a> Date<'a> {
    /// Takes note of an entry that passes while the package is read.
    pub fn update(&mut self, format: Format, path: Option<&str>, mtime: i64)
        ensures
            *final(self) == date_after(*old(self), format, crate::archive::text_or_none(path), mtime),
    {
        if let Date::Deb = *self {
            if is_deb_marker(format, path) {
                *self = Date::Found(mtime);
            }
        }
    }

    /// The day to write down when the package is first recorded: the known
    /// day, or a day that stands for none.
    pub fn first_day(&self) -> (r: &'a str)
        ensures
            r@ == match *self {
                Date::Known(d) => d@,
                _ => NO_DAY@,
            },
    {
        match *self {
            Date::Known(d) => d,
            _ => NO_DAY,
        }
    }

    /// What is to be done about the date once the package has been read.
    pub fn release(&self) -> (r: Release)
        ensures
            r@ == released(*self),
    {
        match *self {
            Date::Known(_) => Release::Keep,
            Date::Found(t) => match format_timestamp(t, DAY) {
                Some(day) => Release::Day(day),
                None => Release::Missing,
            },
            _ => Release::Missing,
        }
    }
}

/// What to do with a package that is to be indexed.
#[derive(Debug, Clone, Copy, PartialEq, Eq, Structural)]
pub enum Intake {
    /// It is new: record it and index it.
    Insert,
    /// It is known and to be indexed again: drop what was indexed of it.
    Overwrite,
    /// It is known: leave it.
    Skip,
}

/// Decides what to do with a package, given whether this version of it is
/// known already and whether known packages are to be indexed again.
pub fn intake(known: bool, force: bool) -> (r: Intake)
    ensures
        r == if !known {
            Intake::Insert
        } else if force {
            Intake::Overwrite
        } else {
            Intake::Skip
        },
{
    if !known {
        Intake::Insert
    } else if force {
        Intake::Overwrite
    } else {
        Intake::Skip
    }
}

/// The locale to record for a manual page: none where the path names none.
pub fn locale_of<'b>(locale: &'b str) -> (r: Option<&'b str>)
    ensures
        match r {
            Some(l) => locale@.len() > 0 && l == locale,
            None => locale@.len() == 0,
        },
{
    if locale.unicode_len() == 0 {
        None
    } else {
        Some(locale)
    }
}

} // verus!
