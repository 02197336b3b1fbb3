//! What an archive tells of each of its entries.
//!
//! Decoding an archive is the business of whoever feeds this crate. What the
//! crate works on is the header of each entry as plain values, an [`Entry`],
//! in the order in which the archive holds them.

use vstd::prelude::*;
use crate::text::{chars_of, copy_range, text_of};

verus! {

/// The type of an archive entry.
#[derive(Debug, Clone, PartialEq, Eq)]
pub enum FileType {
    /// A regular file.
    File,
    /// A directory.
    Directory,
    /// A symbolic or hard link, with its target. A hard link's target is
    /// written with a leading slash, as a path from the archive's root.
    Link(String),
    /// Anything else, a link with an unreadable target included.
    Other,
}

/// The model of a [`FileType`].
pub enum Kind {
    File,
    Directory,
    Link(Seq<char>),
    Other,
}

impl View for FileType {
    type V = Kind;

    open spec fn view(&self) -> Kind {
        match *self {
            FileType::File => Kind::File,
            FileType::Directory => Kind::Directory,
            FileType::Link(t) => Kind::Link(t@),
            FileType::Other => Kind::Other,
        }
    }
}

/// The container format of an archive, as far as this crate cares.
#[derive(Debug, Clone, Copy, PartialEq, Eq, Structural)]
pub enum Format {
    Tar,
    Ar,
    Other,
}

/// The header of one archive entry.
#[derive(Debug, Clone, PartialEq, Eq)]
pub struct Entry {
    /// The normalized path, or `None` where the name is no valid text.
    pub path: Option<String>,
    /// The size of the content in bytes.
    pub size: usize,
    /// The number of hard links to the entry.
    pub nlink: u32,
    /// The type of the entry.
    pub filetype: FileType,
}

/// The model of an [`Entry`].
pub struct Header {
    pub path: Option<Seq<char>>,
    pub size: nat,
    pub nlink: nat,
    pub kind: Kind,
}

impl View for Entry {
    type V = Header;

    open spec fn view(&self) -> Header {
        Header {
            path: match self.path {
                Some(p) => Some(p@),
                None => None,
            },
            size: self.size as nat,
            nlink: self.nlink as nat,
            kind: self.filetype@,
        }
    }
}

/// The file type bits that mark a directory.
pub const AE_IFDIR: u32 = 0o040000;

/// The file type bits that mark a regular file.
pub const AE_IFREG: u32 = 0o100000;

/// The format that a format code stands for. The code's upper sixteen bits
/// name the family of formats; the lower bits tell its variants apart.
pub open spec fn format_of(code: int) -> Format {
    if code / 0x10000 == 3 {
        Format::Tar
    } else if code / 0x10000 == 7 {
        Format::Ar
    } else {
        Format::Other
    }
}

impl Format {
    /// The format that an archive reader's format code stands for.
    pub fn from_code(code: i32) -> (r: Format)
        ensures
            r == format_of(code as int),
    {
        if 0x30000 <= code && code < 0x40000 {
            Format::Tar
        } else if 0x70000 <= code && code < 0x80000 {
            Format::Ar
        } else {
            Format::Other
        }
    }
}

/// The type of an entry with the given link targets and file type bits. An
/// entry with a target is a link, whatever its bits say, and a symbolic link
/// before it is a hard link. The name that a hard link points to gets a
/// leading slash: it is a path from the root of the archive.
pub open spec fn kind_of(symlink: Option<Seq<char>>, hardlink: Option<Seq<char>>, mode: int) -> Kind {
    match symlink {
        Some(target) => Kind::Link(target),
        None => match hardlink {
            Some(name) => Kind::Link(seq!['/'] + name),
            None => if mode == AE_IFDIR {
                Kind::Directory
            } else if mode == AE_IFREG {
                Kind::File
            } else {
                Kind::Other
            },
        },
    }
}

/// The model of a text that may be missing.
pub open spec fn text_or_none(s: Option<&str>) -> Option<Seq<char>> {
    match s {
        Some(s) => Some(s@),
        None => None,
    }
}

impl FileType {
    /// The type of an entry, from the target of its symbolic link, the name
    /// its hard link points to, and its file type bits.
    pub fn of(symlink: Option<&str>, hardlink: Option<&str>, mode: u32) -> (r: FileType)
        ensures
            r@ == kind_of(text_or_none(symlink), text_or_none(hardlink), mode as int),
    {
        if let Some(target) = symlink {
            return FileType::Link(String::from_str(target));
        }
        if let Some(name) = hardlink {
            let mut target = String::new();
            target.push('/');
            target.append(name);
            proof {
                assert(target@ =~= seq!['/'] + name@);
            }
            return FileType::Link(target);
        }
        if mode == AE_IFDIR {
            FileType::Directory
        } else if mode == AE_IFREG {
            FileType::File
        } else {
            FileType::Other
        }
    }
}

/// `s` without the slashes it starts with.
pub open spec fn without_leading_slashes(s: Seq<char>) -> Seq<char>
    decreases s.len(),
{
    if s.len() > 0 && s[0] == '/' {
        without_leading_slashes(s.drop_first())
    } else {
        s
    }
}

/// `s` without the `./` it starts with, however often it is repeated.
pub open spec fn without_leading_dots(s: Seq<char>) -> Seq<char>
    decreases s.len(),
{
    if s.len() >= 2 && s[0] == '.' && s[1] == '/' {
        without_leading_dots(s.skip(2))
    } else {
        s
    }
}

/// `s` without the slashes it ends with.
pub open spec fn without_trailing_slashes(s: Seq<char>) -> Seq<char>
    decreases s.len(),
{
    if s.len() > 0 && s.last() == '/' {
        without_trailing_slashes(s.drop_last())
    } else {
        s
    }
}

/// The path under which an entry is known: its name in the archive without
/// leading slashes, then without leading `./`, then without trailing slashes.
pub open spec fn normalized(raw: Seq<char>) -> Seq<char> {
    without_trailing_slashes(without_leading_dots(without_leading_slashes(raw)))
}

/// Brings the name of an entry into the form under which it is recorded.
pub fn normalize(raw: &str) -> (r: String)
    ensures
        r@ == normalized(raw@),
{
    let s = chars_of(raw);
    let n = s.len();
    let mut i: usize = 0;
    proof {
        assert(s@.skip(0) =~= s@);
    }
    while i < n && s[i] == '/'
        invariant
            i <= n,
            n == s.len(),
            without_leading_slashes(s@) == without_leading_slashes(s@.skip(i as int)),
        decreases n - i,
    {
        proof {
            assert(s@.skip(i as int).drop_first() =~= s@.skip(i + 1));
        }
        i += 1;
    }
    let ghost a = s@.skip(i as int);
    assert(without_leading_slashes(s@) == a);
    let mut j: usize = i;
    while n - j >= 2 && s[j] == '.' && s[j + 1] == '/'
        invariant
            i <= j <= n,
            n == s.len(),
            without_leading_dots(a) == without_leading_dots(s@.skip(j as int)),
        decreases n - j,
    {
        proof {
            assert(s@.skip(j as int).skip(2) =~= s@.skip(j + 2));
        }
        j += 2;
    }
    let ghost b = s@.skip(j as int);
    assert(without_leading_dots(a) == b);
    let mut e: usize = n;
    proof {
        assert(s@.subrange(j as int, n as int) =~= b);
    }
    while e > j && s[e - 1] == '/'
        invariant
            j <= e <= n,
            n == s.len(),
            without_trailing_slashes(b) == without_trailing_slashes(s@.subrange(j as int, e as int)),
        decreases e,
    {
        proof {
            assert(s@.subrange(j as int, e as int).drop_last() =~= s@.subrange(j as int, e - 1));
        }
        e -= 1;
    }
    let kept = copy_range(&s, j, e);
    text_of(&kept)
}

impl Entry {
    /// The header of an entry, from what an archive reader tells of it: its
    /// name, where that is valid text, the size of its content, the number of
    /// its links, the target of its symbolic link and the name its hard link
    /// points to, where it has them and they are valid text, and its file type
    /// bits.
    pub fn new(
        name: Option<&str>,
        size: usize,
        nlink: u32,
        symlink: Option<&str>,
        hardlink: Option<&str>,
        mode: u32,
    ) -> (r: Entry)
        ensures
            r@ == (Header {
                path: match name {
                    Some(raw) => Some(normalized(raw@)),
                    None => None,
                },
                size: size as nat,
                nlink: nlink as nat,
                kind: kind_of(text_or_none(symlink), text_or_none(hardlink), mode as int),
            }),
    {
        let path = match name {
            Some(raw) => Some(normalize(raw)),
            None => None,
        };
        Entry { path, size, nlink, filetype: FileType::of(symlink, hardlink, mode) }
    }
}

/// The models of a vector of entries.
pub open spec fn headers(entries: Seq<Entry>) -> Seq<Header> {
    Seq::new(entries.len(), |i: int| entries[i]@)
}

} // verus!
