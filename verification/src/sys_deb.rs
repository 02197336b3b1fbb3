//! The indexes of a Debian repository.
//!
//! `Contents` says which package holds which file; it serves to pick the
//! packages that hold manual pages. `Packages` describes every package of the
//! repository; it serves to find the packages picked.

use vstd::prelude::*;
use vstd::hash_set::StringHashSet;
use vstd::utf8::{decode_utf8, valid_utf8};
use crate::charset::string_or_none;
use crate::man::{ismanpath, parsed};
use crate::rx::{
    captures_bytes, matches_bytes, regex_captures_bytes, regex_matches_bytes, regex_replaced,
    replace,
};
use crate::text::{
    chars_of, lowercase, same_text, split, split_chars, starts_with, stripped, text_of,
    text_of_utf8, texts, to_lowercase, trim, views,
};

verus! {

/// The line after which the list of files begins in `Contents`.
pub const FILE_HEADER: &'static str = "FILE  ";

/// The path that the words of a line of `Contents` but the last make up:
/// each word with a space before it.
pub open spec fn spaced(words: Seq<Seq<char>>) -> Seq<char>
    decreases words.len(),
{
    if words.len() == 0 {
        Seq::empty()
    } else {
        spaced(words.drop_last()) + seq![' '] + words.last()
    }
}

/// The names of the packages listed in the last word of a line of
/// `Contents`: the word lists packages with commas between them, and each by
/// its section and its name with slashes between them.
pub open spec fn listed_pkgs(word: Seq<char>) -> Seq<Seq<char>> {
    let items = split(word, ',');
    Seq::new(items.len(), |i: int| split(items[i], '/').last())
}

/// The packages that a line of `Contents` names, where the file it lists
/// is a manual page.
pub open spec fn man_pkgs(line: Seq<char>) -> Seq<Seq<char>> {
    let words = split(line, ' ');
    if parsed(stripped(spaced(words.drop_last()))) is Some {
        listed_pkgs(words.last())
    } else {
        Seq::empty()
    }
}

/// The packages that a line of `Contents` names, where the file it lists
/// is a manual page.
pub fn contents_line(line: &str) -> (r: Vec<String>)
    ensures
        texts(r@) == man_pkgs(line@),
{
    let chars = chars_of(line);
    let words = split_chars(&chars, ' ');
    proof {
        crate::text::lemma_split_nonempty(line@, ' ');
    }
    let mut path: Vec<char> = Vec::new();
    let mut i: usize = 0;
    let n = words.len() - 1;
    proof {
        assert(views(words@).drop_last().take(0) =~= Seq::<Seq<char>>::empty());
    }
    while i < n
        invariant
            i <= n,
            n == words.len() - 1,
            path@ == spaced(views(words@).drop_last().take(i as int)),
        decreases n - i,
    {
        let ghost front = views(words@).drop_last();
        proof {
            assert(front.take(i + 1).drop_last() =~= front.take(i as int));
            assert(front.take(i + 1).last() == words@[i as int]@);
        }
        path.push(' ');
        let w = &words[i];
        let ghost start = path@;
        let mut k: usize = 0;
        while k < w.len()
            invariant
                k <= w.len(),
                path@ == start + w@.take(k as int),
            decreases w.len() - k,
        {
            path.push(w[k]);
            k += 1;
            proof {
                assert(path@ =~= start + w@.take(k as int));
            }
        }
        proof {
            assert(w@.take(w.len() as int) =~= w@);
        }
        i += 1;
    }
    proof {
        assert(views(words@).drop_last().take(n as int) =~= views(words@).drop_last());
    }
    let path = text_of(&path);
    let mut r: Vec<String> = Vec::new();
    if !ismanpath(trim(path.as_str())) {
        proof {
            assert(texts(r@) =~= Seq::empty());
        }
        return r;
    }
    let items = split_chars(&words[n], ',');
    let ghost want = listed_pkgs(words@[n as int]@);
    let mut j: usize = 0;
    proof {
        assert(views(words@).last() == words@[n as int]@);
        assert(texts(r@) =~= want.take(0));
    }
    while j < items.len()
        invariant
            j <= items.len(),
            views(items@) == split(words@[n as int]@, ','),
            want == listed_pkgs(words@[n as int]@),
            texts(r@) == want.take(j as int),
        decreases items.len() - j,
    {
        let parts = split_chars(&items[j], '/');
        proof {
            crate::text::lemma_split_nonempty(items@[j as int]@, '/');
            assert(views(items@)[j as int] == items@[j as int]@);
            assert(views(parts@).last() == parts@[parts.len() - 1]@);
        }
        let ghost before = texts(r@);
        r.push(text_of(&parts[parts.len() - 1]));
        proof {
            assert(texts(r@) =~= before.push(want[j as int]));
            assert(want.take(j + 1) =~= want.take(j as int).push(want[j as int]));
        }
        j += 1;
    }
    proof {
        assert(want.take(items.len() as int) =~= want);
    }
    r
}

/// The reader of `Contents`: it knows whether the list of files has begun,
/// and gathers the packages that hold manual pages.
pub struct Contents {
    started: bool,
    pkgs: StringHashSet,
}

impl Contents {
    /// Whether the list of files has begun.
    pub closed spec fn started(&self) -> bool {
        self.started
    }

    /// The packages found to hold manual pages.
    pub closed spec fn pkgs(&self) -> Set<Seq<char>> {
        self.pkgs@
    }

    /// A reader that has read nothing.
    pub fn new() -> (r: Contents)
        ensures
            !r.started(),
            r.pkgs() == Set::<Seq<char>>::empty(),
    {
        Contents { started: false, pkgs: StringHashSet::new() }
    }

    /// Reads one line. Lines that are no text are passed over, as are the
    /// lines before the header of the list of files. Of every line after the
    /// header that lists a manual page, the packages are gathered.
    pub fn line(&mut self, line: &[u8])
        ensures
            final(self).started() == (old(self).started() || (valid_utf8(line@) && FILE_HEADER@.is_prefix_of(
                decode_utf8(line@),
            ))),
            final(self).pkgs() == if valid_utf8(line@) && old(self).started() && !FILE_HEADER@.is_prefix_of(
                decode_utf8(line@),
            ) {
                old(self).pkgs().union(man_pkgs(decode_utf8(line@)).to_set())
            } else {
                old(self).pkgs()
            },
    {
        let text = match text_of_utf8(line) {
            Some(t) => t,
            None => {
                return ;
            },
        };
        if starts_with(text, FILE_HEADER) {
            self.started = true;
            return ;
        }
        if !self.started {
            return ;
        }
        let mut found = contents_line(text);
        let ghost all = texts(found@);
        let ghost was = self.pkgs@;
        proof {
            assert(was.union(all.take(0).to_set()) =~= was);
        }
        let mut i: usize = 0;
        while i < found.len()
            invariant
                i <= found.len(),
                all == texts(found@),
                self.started == old(self).started,
                self.pkgs@ == was.union(all.take(i as int).to_set()),
            decreases found.len() - i,
        {
            let name = found[i].clone();
            self.pkgs.insert(name);
            proof {
                let more = all.take(i + 1);
                let less = all.take(i as int);
                assert(more =~= less.push(all[i as int]));
                assert forall|x: Seq<char>| more.to_set().contains(x) <==> less.to_set().insert(
                    all[i as int],
                ).contains(x) by {
                    if more.contains(x) {
                        let k = choose|k: int| 0 <= k < more.len() && more[k] == x;
                        if k < i {
                            assert(less[k] == x);
                        }
                    }
                    if less.contains(x) {
                        let k = choose|k: int| 0 <= k < less.len() && less[k] == x;
                        assert(more[k] == x);
                    }
                    if x == all[i as int] {
                        assert(more[i as int] == x);
                    }
                }
                assert(more.to_set() =~= less.to_set().insert(all[i as int]));
                assert(self.pkgs@ =~= was.union(more.to_set()));
            }
            i += 1;
        }
        proof {
            assert(all.take(found.len() as int) =~= all);
        }
    }

    /// Whether the package `name` is to be indexed: it is where it was found
    /// to hold a manual page, and also where no package at all was found to
    /// hold one, for then there was no `Contents` to go by.
    pub fn wants(&self, name: &str) -> (r: bool)
        ensures
            r == (self.pkgs().len() == 0 || self.pkgs().contains(name@)),
    {
        self.pkgs.len() == 0 || self.pkgs.contains(name)
    }
}

/// A package as `Packages` describes it, as far as it has been read.
#[derive(Clone, Debug, PartialEq, Eq)]
pub struct Pkg {
    pub name: Option<String>,
    pub section: Option<String>,
    pub arch: Option<String>,
    pub version: Option<String>,
    pub filename: Option<String>,
}

/// The model of a [`Pkg`].
pub struct Stanza {
    pub name: Option<Seq<char>>,
    pub section: Option<Seq<char>>,
    pub arch: Option<Seq<char>>,
    pub version: Option<Seq<char>>,
    pub filename: Option<Seq<char>>,
}

impl View for Pkg {
    type V = Stanza;

    open spec fn view(&self) -> Stanza {
        Stanza {
            name: string_or_none(self.name),
            section: string_or_none(self.section),
            arch: string_or_none(self.arch),
            version: string_or_none(self.version),
            filename: string_or_none(self.filename),
        }
    }
}

/// A stanza of which nothing has been read.
pub open spec fn blank() -> Stanza {
    Stanza { name: None, section: None, arch: None, version: None, filename: None }
}

/// A line that ends a stanza.
pub const EMPTY_LINE: &'static str = r"^\s*$";

/// A field of a stanza: group 1 is its name, group 2 its value.
pub const FIELD: &'static str = r"^(?u:([^#-][^ :]*)\s*:\s*(.+))$";

/// The stanza with the field `key`, its name in lowercase, set to `value`.
/// Fields that are of no interest change nothing.
pub open spec fn with_field(s: Stanza, key: Seq<char>, value: Seq<char>) -> Stanza {
    if key == "package"@ {
        Stanza { name: Some(value), ..s }
    } else if key == "section"@ {
        Stanza { section: Some(value), ..s }
    } else if key == "version"@ {
        Stanza { version: Some(value), ..s }
    } else if key == "architecture"@ {
        Stanza { arch: Some(value), ..s }
    } else if key == "filename"@ {
        Stanza { filename: Some(value), ..s }
    } else {
        s
    }
}

/// The name and the value of the field that the groups of a match of
/// [`FIELD`] give.
pub open spec fn field_of(caps: Seq<Option<Seq<u8>>>) -> Option<(Seq<char>, Seq<char>)> {
    if caps.len() == 3 && caps[1] is Some && caps[2] is Some && valid_utf8(caps[1]->0) && valid_utf8(caps[2]->0) {
        Some((decode_utf8(caps[1]->0), decode_utf8(caps[2]->0)))
    } else {
        None
    }
}

/// The name and the value of the field that a line holds.
pub open spec fn field_in(line: Seq<u8>) -> Option<(Seq<char>, Seq<char>)> {
    match regex_captures_bytes(FIELD@, line) {
        Some(caps) => field_of(caps),
        None => None,
    }
}

/// The stanza after one more line: an empty line begins a new stanza, and
/// a line with a field of interest sets it, whatever the case of its name.
pub open spec fn stanza_after(s: Stanza, line: Seq<u8>) -> Stanza {
    let begun = if regex_matches_bytes(EMPTY_LINE@, line) {
        blank()
    } else {
        s
    };
    match field_in(line) {
        Some((key, value)) => with_field(begun, lowercase(key), value),
        None => begun,
    }
}

impl Pkg {
    /// A package of which nothing has been read.
    pub fn new() -> (r: Pkg)
        ensures
            r@ == blank(),
    {
        Pkg { name: None, section: None, arch: None, version: None, filename: None }
    }

    /// Sets a field, whatever the case of its name.
    pub fn set(&mut self, key: &str, value: &str)
        ensures
            final(self)@ == with_field(old(self)@, lowercase(key@), value@),
    {
        let low = to_lowercase(key);
        let k = low.as_str();
        if same_text(k, "package") {
            self.name = Some(String::from_str(value));
        } else if same_text(k, "section") {
            self.section = Some(String::from_str(value));
        } else if same_text(k, "version") {
            self.version = Some(String::from_str(value));
        } else if same_text(k, "architecture") {
            self.arch = Some(String::from_str(value));
        } else if same_text(k, "filename") {
            self.filename = Some(String::from_str(value));
        }
    }

    /// Reads one line of `Packages`.
    ///
    /// Returns the package that the line ends, where it is an empty line:
    /// the package as it has been read up to there.
    pub fn line(&mut self, line: &[u8]) -> (r: Option<Pkg>)
        ensures
            final(self)@ == stanza_after(old(self)@, line@),
            match r {
                Some(done) => regex_matches_bytes(EMPTY_LINE@, line@) && done@ == old(self)@,
                None => !regex_matches_bytes(EMPTY_LINE@, line@),
            },
    {
        let mut done: Option<Pkg> = None;
        if matches_bytes(EMPTY_LINE, line) {
            let mut fresh = Pkg::new();
            core::mem::swap(self, &mut fresh);
            done = Some(fresh);
        }
        if let Some(caps) = captures_bytes(FIELD, line) {
            if caps.len() == 3 {
                if let (Some(k), Some(v)) = (caps[1], caps[2]) {
                    if let (Some(key), Some(value)) = (text_of_utf8(k), text_of_utf8(v)) {
                        self.set(key, value);
                    }
                }
            }
        }
        done
    }
}

/// The pattern that finds the directory of an old release at the start of
/// a file name.
pub const OLD_RELEASE: &'static str = "^(Debian-1.[12])/";

/// Where the directory of an old release belongs.
pub const OLD_RELEASE_HOME: &'static str = "dists/$1/main/";

/// The address of a package file. The file name counts from the mirror;
/// but in the repositories of the systems 18 and 19 some file names count
/// from elsewhere, and are set right first.
pub open spec fn uri(sys: int, mirror: Seq<char>, filename: Seq<char>) -> Seq<char> {
    if sys == 18 || sys == 19 {
        let moved = regex_replaced(OLD_RELEASE@, filename, OLD_RELEASE_HOME@);
        if "contrib/"@.is_prefix_of(moved) {
            mirror + "dists/Debian-1."@ + (if sys == 18 {
                seq!['1']
            } else {
                seq!['2']
            }) + seq!['/'] + moved
        } else {
            mirror + moved
        }
    } else {
        mirror + filename
    }
}

/// The address of a package file.
pub fn package_uri(sys: i32, mirror: &str, filename: &str) -> (r: String)
    ensures
        r@ == uri(sys as int, mirror@, filename@),
{
    let mut r = String::from_str(mirror);
    if sys == 18 || sys == 19 {
        let moved = replace(OLD_RELEASE, filename, OLD_RELEASE_HOME);
        if starts_with(moved.as_str(), "contrib/") {
            r.append("dists/Debian-1.");
            r.push(if sys == 18 {
                '1'
            } else {
                '2'
            });
            r.push('/');
        }
        r.append(moved.as_str());
        proof {
            assert(r@ =~= uri(sys as int, mirror@, filename@));
        }
    } else {
        r.append(filename);
    }
    r
}

/// What to do with a package that has been read.
#[derive(Clone, Debug, PartialEq, Eq)]
pub enum Job {
    /// Nothing: it has no name, or it holds no manual page.
    Skip,
    /// Nothing, and that is an error: the named field is missing.
    Broken(&'static str),
    /// Index the package file at this address.
    Index(String),
}

/// The model of a [`Job`].
pub enum Task {
    Skip,
    Broken(Seq<char>),
    Index(Seq<char>),
}

impl View for Job {
    type V = Task;

    open spec fn view(&self) -> Task {
        match *self {
            Job::Skip => Task::Skip,
            Job::Broken(f) => Task::Broken(f@),
            Job::Index(u) => Task::Index(u@),
        }
    }
}

/// What to do with a package that has been read, given whether it is
/// wanted.
pub open spec fn task(s: Stanza, wanted: bool, sys: int, mirror: Seq<char>) -> Task {
    if s.name is None || !wanted {
        Task::Skip
    } else if s.section is None {
        Task::Broken("section"@)
    } else if s.version is None {
        Task::Broken("version"@)
    } else if s.filename is None {
        Task::Broken("filename"@)
    } else {
        Task::Index(uri(sys, mirror, s.filename->0))
    }
}

/// Decides what to do with a package that has been read.
pub fn handlepkg(sys: i32, mirror: &str, manpkgs: &Contents, pkg: &Pkg) -> (r: Job)
    ensures
        r@ == task(
            pkg@,
            pkg@.name is Some && (manpkgs.pkgs().len() == 0 || manpkgs.pkgs().contains(pkg@.name->0)),
            sys as int,
            mirror@,
        ),
{
    let name = match &pkg.name {
        Some(n) => n,
        None => {
            return Job::Skip;
        },
    };
    if !manpkgs.wants(name.as_str()) {
        return Job::Skip;
    }
    if pkg.section.is_none() {
        return Job::Broken("section");
    }
    if pkg.version.is_none() {
        return Job::Broken("version");
    }
    match &pkg.filename {
        Some(f) => Job::Index(package_uri(sys, mirror, f.as_str())),
        None => Job::Broken("filename"),
    }
}

} // verus!
