//! Reading an archive for the files of interest in it, links included.
//!
//! An archive is read front to back, once. Regular files of interest are
//! handed out as they pass. Links cannot be followed while the archive
//! streams, because a link may come before its target, so every path is
//! recorded in a [`FileList`], and the links of interest are resolved against
//! that record when the stream has ended. A link to a file that has been
//! handed out is reported at once; a link to a file that was passed over makes
//! that file interesting after the fact, and a [`MissedFiles`] says which
//! files a second read has to fetch.

use vstd::prelude::*;
use vstd::hash_map::StringHashMap;
use crate::archive::{Entry, FileType, headers};
use crate::charset::string_or_none;
use crate::model::{
    Delivered, Dropped, Listing, Missed, Outcome, answers, asks_first, delivered, dropped,
    fetched, left, listing_of, missed, nothing, notices, outcomes, record, with_alias,
};
use crate::reading::lemma_record_answers;
use crate::resolve::{Broken, Class, Found, Tree, components, follow, resolve, walk};
use crate::text::{
    chars_of, copy_range, join, join_chars, rfind_char, split_chars, text_of, texts, texts_of,
    views,
};

verus! {

/// What is known of a path that has been seen in an archive.
#[derive(Clone, Debug, PartialEq, Eq)]
pub enum EntryType {
    /// Regular file that has been handed out.
    Handled,
    /// Regular file that was passed over because nobody asked for it. It may
    /// still turn out to be wanted, if a link of interest leads to it.
    Regular,
    /// Link to another path, with its target as written.
    Link(String),
    /// First member of a group of hard links, whose content is still to come.
    Hardlink,
    /// Directory.
    Directory,
    /// Device, socket, fifo and the like: nothing a link of interest can
    /// usefully lead to.
    Other,
}

impl View for EntryType {
    type V = Class;

    open spec fn view(&self) -> Class {
        match *self {
            EntryType::Handled => Class::Handled,
            EntryType::Regular => Class::Regular,
            EntryType::Link(t) => Class::Link(t@),
            EntryType::Hardlink => Class::Hardlink,
            EntryType::Directory => Class::Directory,
            EntryType::Other => Class::Other,
        }
    }
}

/// How many links a resolution that starts at a recorded link may follow
/// inside one another.
pub const MAX_DEPTH: usize = 32;

/// The paths seen in an archive, and the links among them that are of
/// interest.
pub struct FileList {
    seen: StringHashMap<EntryType>,
    links: Vec<String>,
}

/// What became of one entry that was put before a [`FileList`].
#[derive(Clone, Debug, PartialEq, Eq)]
pub enum Step {
    /// Its name is no text: passed over.
    Unnamed,
    /// Its path has been seen before: passed over.
    Duplicate,
    /// Recorded. Where a path is given, the content that comes with the
    /// entry is to be handed out under that path.
    Accepted(Option<String>),
}

impl View for Step {
    type V = Outcome;

    open spec fn view(&self) -> Outcome {
        match *self {
            Step::Unnamed => Outcome::Unnamed,
            Step::Duplicate => Outcome::Duplicate,
            Step::Accepted(Some(p)) => Outcome::Accepted(Some(p@)),
            Step::Accepted(None) => Outcome::Accepted(None),
        }
    }
}

/// One content to hand out: the position in the archive of the entry that
/// carries it, and the paths under which it is wanted.
#[derive(Clone, Debug, PartialEq, Eq)]
pub struct Delivery {
    pub index: usize,
    pub paths: Vec<String>,
}

impl View for Delivery {
    type V = Delivered;

    open spec fn view(&self) -> Delivered {
        Delivered { index: self.index as int, paths: texts(self.paths@) }
    }
}

/// What the first read of an archive yields.
pub struct Reading {
    /// The paths seen and the links of interest among them.
    pub list: FileList,
    /// What became of each entry, in order.
    pub steps: Vec<Step>,
    /// The contents to hand out, in order.
    pub handed: Vec<Delivery>,
}

/// The models of a vector of steps.
pub open spec fn steps(v: Seq<Step>) -> Seq<Outcome> {
    Seq::new(v.len(), |i: int| v[i]@)
}

/// The models of a vector of deliveries.
pub open spec fn deliveries(v: Seq<Delivery>) -> Seq<Delivered> {
    Seq::new(v.len(), |i: int| v[i]@)
}

/// Whether `f` can serve as a test of interest: it accepts every path, and
/// its answer is a function of the path's text.
pub open spec fn is_predicate<F: Fn(&str) -> bool>(f: &F) -> bool {
    &&& forall|p: &str| call_requires(*f, (p,))
    &&& forall|p: &str, q: &str, a: bool, b: bool|
        p@ == q@ && #[trigger] call_ensures(*f, (p,), a) && #[trigger] call_ensures(*f, (q,), b) ==> a == b
}

/// The paths that `f` takes an interest in.
pub open spec fn choice<F: Fn(&str) -> bool>(f: &F) -> spec_fn(Seq<char>) -> bool {
    |s: Seq<char>| exists|p: &str| p@ == s && call_ensures(*f, (p,), true)
}

fn ask<F: Fn(&str) -> bool>(interest: &F, path: &str) -> (r: bool)
    requires
        is_predicate(interest),
    ensures
        r == choice(interest)(path@),
{
    interest(path)
}

/// The files that were passed over in the first read and that a link of
/// interest leads to, each with the links that lead to it.
pub struct MissedFiles(StringHashMap<Vec<String>>);

/// Why a link of interest came to nothing.
#[derive(Clone, Copy, Debug, PartialEq, Eq, Structural)]
pub enum Lost {
    /// It leads to the first member of a group of hard links whose content
    /// never came.
    Unfilled,
    /// It leads to a directory.
    Directory,
    /// It does not resolve.
    Broken(Broken),
    /// It is not recorded as a link.
    NotALink,
}

impl View for Lost {
    type V = Dropped;

    open spec fn view(&self) -> Dropped {
        match *self {
            Lost::Unfilled => Dropped::Unfilled,
            Lost::Directory => Dropped::Directory,
            Lost::Broken(why) => Dropped::Broken(why),
            Lost::NotALink => Dropped::NotALink,
        }
    }
}

/// What the links of interest in an archive came to.
pub struct Links {
    /// Each link that leads to a file that has been handed out, with the
    /// path of that file.
    pub found: Vec<(String, String)>,
    /// Each link that came to nothing, with the reason.
    pub dropped: Vec<(String, Lost)>,
    /// The files that links lead to and that were passed over, if there are
    /// any.
    pub missed: Option<MissedFiles>,
}

/// The models of a vector of dropped links.
pub open spec fn drops(v: Seq<(String, Lost)>) -> Seq<(Seq<char>, Dropped)> {
    Seq::new(v.len(), |i: int| (v[i].0@, v[i].1@))
}

/// The models of a vector of pairs of strings.
pub open spec fn pairs(v: Seq<(String, String)>) -> Seq<(Seq<char>, Seq<char>)> {
    Seq::new(v.len(), |i: int| (v[i].0@, v[i].1@))
}

fn copy_texts(v: &Vec<String>) -> (r: Vec<String>)
    ensures
        texts(r@) == texts(v@),
{
    let mut r: Vec<String> = Vec::new();
    let mut i: usize = 0;
    while i < v.len()
        invariant
            i <= v.len(),
            texts(r@) == texts(v@).take(i as int),
        decreases v.len() - i,
    {
        let ghost before = texts(r@);
        r.push(v[i].clone());
        i += 1;
        proof {
            assert(texts(r@) =~= before.push(v@[i - 1]@));
            assert(texts(r@) =~= texts(v@).take(i as int));
        }
    }
    proof {
        assert(texts(v@).take(v.len() as int) =~= texts(v@));
    }
    r
}

/// Whether an executable resolution result is the given model result.
pub open spec fn found_is(r: Option<(EntryType, Vec<String>)>, m: Option<Found>) -> bool {
    match r {
        Some((c, d)) => m == Some((c@, texts(d@))),
        None => m.is_none(),
    }
}

/// Whether an executable result of following a link is the given model
/// result.
pub open spec fn followed_is(r: Result<(EntryType, Vec<String>), Broken>, m: Result<Found, Broken>) -> bool {
    match r {
        Ok((c, d)) => m == Ok::<Found, Broken>((c@, texts(d@))),
        Err(why) => m == Err::<Found, Broken>(why),
    }
}

spec fn followed_chars_is(r: Result<(EntryType, Vec<Vec<char>>), Broken>, m: Result<Found, Broken>) -> bool {
    match r {
        Ok((c, d)) => m == Ok::<Found, Broken>((c@, views(d@))),
        Err(why) => m == Err::<Found, Broken>(why),
    }
}

impl FileList {
    /// The model of the list.
    pub open spec fn view(&self) -> Listing {
        Listing { tree: self.tree(), links: self.pending() }
    }

    /// A list in which nothing is recorded.
    pub fn new() -> (r: FileList)
        ensures
            r@ == nothing(),
    {
        let r = FileList { seen: StringHashMap::new(), links: Vec::new() };
        proof {
            assert(r.tree() =~= Map::empty());
            assert(r.pending() =~= Seq::empty());
        }
        r
    }

    /// What is recorded of `path`, if anything.
    pub fn get(&self, path: &str) -> (r: Option<EntryType>)
        ensures
            match r {
                Some(c) => self@.tree.contains_key(path@) && self@.tree[path@] == c@,
                None => !self@.tree.contains_key(path@),
            },
    {
        match self.seen.get(path) {
            Some(EntryType::Handled) => Some(EntryType::Handled),
            Some(EntryType::Regular) => Some(EntryType::Regular),
            Some(EntryType::Link(t)) => Some(EntryType::Link(t.clone())),
            Some(EntryType::Hardlink) => Some(EntryType::Hardlink),
            Some(EntryType::Directory) => Some(EntryType::Directory),
            Some(EntryType::Other) => Some(EntryType::Other),
            None => None,
        }
    }

    /// The number of paths recorded.
    pub fn len(&self) -> (r: usize)
        ensures
            r == self@.tree.dom().len(),
    {
        proof {
            assert(self.tree().dom() =~= self.seen@.dom());
        }
        self.seen.len()
    }

    /// The path of the first member of the group of hard links that `entry`
    /// would fill if it were recorded now: there is one where `entry` is a
    /// link that carries the content of a group whose first member is recorded
    /// and still without content.
    pub fn placeholder(&self, entry: &Entry) -> (r: Option<String>)
        ensures
            string_or_none(r) == asks_first(self@, entry@),
    {
        let path = match &entry.path {
            Some(p) => p,
            None => {
                return None;
            },
        };
        if self.seen.contains_key(path.as_str()) {
            return None;
        }
        if let FileType::Link(target) = &entry.filetype {
            if entry.size > 0 && entry.nlink > 1 {
                let b = chars_of(path.as_str());
                let t = chars_of(target.as_str());
                if let Ok((EntryType::Hardlink, comps)) = self.resolve_chars(&b, &t, MAX_DEPTH) {
                    return Some(text_of(&join_chars(&comps, '/')));
                }
            }
        }
        None
    }

    /// Records one entry of the archive, given the answers of the test of
    /// interest: `wanted` for the path of the entry, and `first_wanted` for the
    /// path that [`FileList::placeholder`] gives for it.
    pub fn record_answers(&mut self, entry: &Entry, wanted: bool, first_wanted: bool) -> (r: Step)
        ensures
            (final(self)@, r@) == record(old(self)@, entry@, answers(old(self)@, entry@, wanted, first_wanted)),
    {
        let path = match &entry.path {
            Some(p) => p,
            None => {
                return Step::Unnamed;
            },
        };
        if self.seen.contains_key(path.as_str()) {
            return Step::Duplicate;
        }
        let ghost was = self@;
        let ghost want = answers(was, entry@, wanted, first_wanted);
        let mut deliver: Option<String> = None;
        let mut noted = false;
        let class = match &entry.filetype {
            FileType::File => {
                if entry.size == 0 && entry.nlink > 1 {
                    EntryType::Hardlink
                } else if wanted {
                    deliver = Some(path.clone());
                    EntryType::Handled
                } else {
                    EntryType::Regular
                }
            },
            FileType::Link(target) => {
                if first_wanted {
                    if let Some(first) = self.placeholder(entry) {
                        proof {
                            crate::reading::lemma_placeholder_is_recorded(was, path@, entry@);
                            assert(want(first@) == first_wanted);
                        }
                        deliver = Some(first.clone());
                        let ghost early = self.tree();
                        self.seen.insert(first, EntryType::Handled);
                        proof {
                            assert(self.tree() =~= early.insert(first@, Class::Handled));
                        }
                    }
                } else {
                    proof {
                        if asks_first(was, entry@) is Some {
                            crate::reading::lemma_placeholder_is_recorded(was, path@, entry@);
                            assert(want(asks_first(was, entry@)->0) == first_wanted);
                        }
                    }
                }
                noted = wanted;
                EntryType::Link(target.clone())
            },
            FileType::Directory => EntryType::Directory,
            FileType::Other => EntryType::Other,
        };
        let ghost mid = self.tree();
        self.seen.insert(path.clone(), class);
        proof {
            assert(self.tree() =~= mid.insert(path@, class@));
        }
        if noted {
            let ghost before = self.pending();
            self.links.push(path.clone());
            proof {
                assert(self.pending() =~= before.push(path@));
            }
        }
        proof {
            let ghost now = record(was, entry@, want);
            assert(want(path@) == wanted);
            assert(self@.tree =~= now.0.tree);
            assert(self@.links =~= now.0.links);
        }
        Step::Accepted(deliver)
    }

    /// Records one entry of the archive and says what became of it.
    ///
    /// An entry without a proper name, or with a path that is recorded
    /// already, changes nothing. Any other entry is recorded under its path.
    /// A regular file of interest is marked as handed out, and the result
    /// asks for just that. A link that carries the content of a group of hard
    /// links has the content handed out under the path of the group's first
    /// member, if that path is of interest. A link of interest is noted for
    /// [`FileList::links`]. The test of interest is asked about no other path
    /// than these two.
    pub fn record<F: Fn(&str) -> bool>(&mut self, entry: &Entry, interest: &F) -> (r: Step)
        requires
            is_predicate(interest),
        ensures
            (final(self)@, r@) == record(old(self)@, entry@, choice(interest)),
    {
        proof {
            lemma_record_answers(self@, entry@, choice(interest));
        }
        let first_wanted = match self.placeholder(entry) {
            Some(first) => ask(interest, first.as_str()),
            None => false,
        };
        let wanted = match &entry.path {
            Some(path) => {
                if self.seen.contains_key(path.as_str()) {
                    false
                } else {
                    match &entry.filetype {
                        FileType::File => !(entry.size == 0 && entry.nlink > 1) && ask(interest, path.as_str()),
                        FileType::Link(_) => ask(interest, path.as_str()),
                        _ => false,
                    }
                }
            },
            None => false,
        };
        self.record_answers(entry, wanted, first_wanted)
    }

    /// Reads a whole archive, given as the headers of its entries in order.
    ///
    /// Returns the list of what was seen, what became of each entry, and the
    /// contents to hand out: for each, the position of the entry that carries
    /// it and the one path under which it is wanted.
    pub fn read<F: Fn(&str) -> bool>(entries: &Vec<Entry>, interest: F) -> (r: Reading)
        requires
            is_predicate(&interest),
        ensures
            r.list@ == listing_of(headers(entries@), choice(&interest)),
            steps(r.steps@) == outcomes(headers(entries@), choice(&interest)),
            deliveries(r.handed@) == delivered(headers(entries@), choice(&interest)),
    {
        let mut list = FileList::new();
        let mut seen: Vec<Step> = Vec::new();
        let mut out: Vec<Delivery> = Vec::new();
        let ghost want = choice(&interest);
        let ghost all = headers(entries@);
        proof {
            assert(deliveries(out@) =~= Seq::empty());
            assert(steps(seen@) =~= Seq::empty());
        }
        let mut i: usize = 0;
        while i < entries.len()
            invariant
                i <= entries.len(),
                is_predicate(&interest),
                want == choice(&interest),
                all == headers(entries@),
                list@ == listing_of(all.take(i as int), want),
                steps(seen@) == outcomes(all.take(i as int), want),
                deliveries(out@) == delivered(all.take(i as int), want),
            decreases entries.len() - i,
        {
            proof {
                assert(all.take(i + 1).drop_last() =~= all.take(i as int));
                assert(all.take(i + 1).last() == entries@[i as int]@);
            }
            let step = list.record(&entries[i], &interest);
            if let Step::Accepted(Some(path)) = &step {
                let ghost before = deliveries(out@);
                let mut paths: Vec<String> = Vec::new();
                paths.push(path.clone());
                proof {
                    assert(texts(paths@) =~= seq![path@]);
                }
                out.push(Delivery { index: i, paths });
                proof {
                    assert(deliveries(out@) =~= before.push(Delivered { index: i as int, paths: seq![path@] }));
                }
            }
            let ghost marked = steps(seen@);
            seen.push(step);
            proof {
                assert(steps(seen@) =~= marked.push(step@));
            }
            i += 1;
        }
        proof {
            assert(all.take(entries.len() as int) =~= all);
        }
        Reading { list, steps: seen, handed: out }
    }

    /// Resolves every link of interest.
    ///
    /// Returns each link that leads to a file that has been handed out, with
    /// the path of that file; each link that came to nothing, with the
    /// reason; and the files that links lead to and that were passed over, if
    /// there are any.
    pub fn links(self) -> (r: Links)
        ensures
            pairs(r.found@) == notices(self@.tree, self@.links),
            drops(r.dropped@) == dropped(self@.tree, self@.links),
            match r.missed {
                Some(m) => m@ == missed(self@.tree, self@.links) && !m@.is_empty(),
                None => missed(self@.tree, self@.links).is_empty(),
            },
    {
        let mut found: Vec<(String, String)> = Vec::new();
        let mut lost: Vec<(String, Lost)> = Vec::new();
        let mut miss = MissedFiles(StringHashMap::new());
        let ghost tree = self.tree();
        let ghost links = self.pending();
        proof {
            assert(pairs(found@) =~= Seq::empty());
            assert(drops(lost@) =~= Seq::empty());
            assert(miss@ =~= Map::empty());
        }
        let mut i: usize = 0;
        while i < self.links.len()
            invariant
                i <= self.links.len(),
                tree == self.tree(),
                links == self.pending(),
                pairs(found@) == notices(tree, links.take(i as int)),
                drops(lost@) == dropped(tree, links.take(i as int)),
                miss@ == missed(tree, links.take(i as int)),
            decreases self.links.len() - i,
        {
            let p = &self.links[i];
            proof {
                assert(links.take(i + 1).drop_last() =~= links.take(i as int));
                assert(links.take(i + 1).last() == p@);
                assert(tree.contains_key(p@) == self.seen@.contains_key(p@));
                assert(self.seen@.contains_key(p@) ==> tree[p@] == self.seen@[p@]@);
            }
            let ghost gone = drops(lost@);
            let why = if let Some(EntryType::Link(target)) = self.seen.get(p.as_str()) {
                let b = chars_of(p.as_str());
                let t = chars_of(target.as_str());
                match self.resolve_chars(&b, &t, MAX_DEPTH) {
                    Ok((EntryType::Handled, comps)) => {
                        let ghost before = pairs(found@);
                        let to = text_of(&join_chars(&comps, '/'));
                        found.push((p.clone(), to));
                        proof {
                            assert(pairs(found@) =~= before.push((p@, join(views(comps@), '/'))));
                        }
                        None
                    },
                    Ok((EntryType::Regular, comps)) => {
                        let to = text_of(&join_chars(&comps, '/'));
                        miss.add(to, p.clone());
                        None
                    },
                    Ok((EntryType::Hardlink, _)) => Some(Lost::Unfilled),
                    Ok(_) => Some(Lost::Directory),
                    Err(why) => Some(Lost::Broken(why)),
                }
            } else {
                Some(Lost::NotALink)
            };
            if let Some(why) = why {
                lost.push((p.clone(), why));
                proof {
                    assert(drops(lost@) =~= gone.push((p@, why@)));
                }
            }
            i += 1;
        }
        proof {
            assert(links.take(self.links.len() as int) =~= links);
        }
        if miss.is_empty() {
            Links { found, dropped: lost, missed: None }
        } else {
            Links { found, dropped: lost, missed: Some(miss) }
        }
    }

    /// The recorded paths with their classes.
    pub closed spec fn tree(&self) -> Tree {
        Map::new(|k: Seq<char>| self.seen@.contains_key(k), |k: Seq<char>| self.seen@[k]@)
    }

    /// The links of interest, in the order in which they were seen.
    pub closed spec fn pending(&self) -> Seq<Seq<char>> {
        texts(self.links@)
    }

    /// Follows `path`, the target of the link recorded at `base`, through
    /// at most `depth` links inside one another.
    ///
    /// Returns the class of the file or directory that the target finally
    /// names, with the components of its path, or the reason why the target
    /// leads nowhere.
    pub fn follow(&self, base: &str, path: &str, depth: usize) -> (r: Result<(EntryType, Vec<String>), Broken>)
        ensures
            followed_is(r, follow(self@.tree, base@, path@, depth as nat)),
    {
        let b = chars_of(base);
        let t = chars_of(path);
        match self.resolve_chars(&b, &t, depth) {
            Ok((c, d)) => Ok((c, texts_of(&d))),
            Err(why) => Err(why),
        }
    }

    /// Resolves `path`, the target of the link recorded at `base`, following
    /// at most `depth` links inside one another.
    ///
    /// Returns the class of the file or directory that the target finally
    /// names, with the components of its path, or `None` where the target
    /// leads nowhere: to a missing or special file, through a file that is no
    /// directory, or through more links than `depth` allows.
    pub fn resolve_link(&self, base: &str, path: &str, depth: usize) -> (r: Option<(EntryType, Vec<String>)>)
        ensures
            found_is(r, resolve(self@.tree, base@, path@, depth as nat)),
    {
        match self.follow(base, path, depth) {
            Ok(found) => Some(found),
            Err(_) => None,
        }
    }

    fn resolve_chars(&self, base: &Vec<char>, target: &Vec<char>, depth: usize) -> (r: Result<
        (EntryType, Vec<Vec<char>>),
        Broken,
    >)
        ensures
            followed_chars_is(r, follow(self.tree(), base@, target@, depth as nat)),
        decreases depth,
    {
        let cut = match rfind_char(base, '/') {
            Some(i) => i,
            None => {
                return Err(Broken::NoDirectory);
            },
        };
        let mut comps: Vec<Vec<char>> = Vec::new();
        if !(target.len() > 0 && target[0] == '/') {
            let dir = copy_range(base, 0, cut);
            comps = split_chars(&dir, '/');
            proof {
                assert(base@.take(cut as int) =~= base@.subrange(0, cut as int));
            }
        }
        let ghost lead = views(comps@);
        let mut rest = split_chars(target, '/');
        comps.append(&mut rest);
        proof {
            assert(views(comps@) =~= lead + crate::text::split(target@, '/'));
            assert(Seq::<Seq<char>>::empty() + crate::text::split(target@, '/') =~= crate::text::split(target@, '/'));
            assert(components(base@, target@) == Some(views(comps@)));
        }
        let ghost tree = self.tree();
        let ghost goal = follow(tree, base@, target@, depth as nat);
        let mut dest: Vec<Vec<char>> = Vec::new();
        proof {
            assert(views(dest@) =~= Seq::<Seq<char>>::empty());
        }
        let mut i: usize = 0;
        while i < comps.len()
            invariant
                i <= comps.len(),
                tree == self.tree(),
                goal == follow(tree, base@, target@, depth as nat),
                goal == walk(tree, views(comps@), i as int, views(dest@), depth as nat),
            decreases comps.len() - i,
        {
            let c = &comps[i];
            let last = i == comps.len() - 1;
            proof {
                assert(views(comps@)[i as int] == c@);
            }
            if c.len() == 0 || (c.len() == 1 && c[0] == '.') {
                i += 1;
                continue;
            }
            if c.len() == 2 && c[0] == '.' && c[1] == '.' {
                if dest.len() > 1 {
                    let ghost before = views(dest@);
                    dest.pop();
                    proof {
                        assert(views(dest@) =~= before.drop_last());
                    }
                }
                i += 1;
                continue;
            }
            let ghost before = views(dest@);
            dest.push(copy_range(c, 0, c.len()));
            proof {
                assert(c@.subrange(0, c.len() as int) =~= c@);
                assert(views(dest@) =~= before.push(c@));
            }
            let cur = join_chars(&dest, '/');
            let curpath = text_of(&cur);
            proof {
                assert(curpath@ == join(views(dest@), '/'));
                assert(tree.contains_key(curpath@) == self.seen@.contains_key(curpath@));
                assert(self.seen@.contains_key(curpath@) ==> tree[curpath@] == self.seen@[curpath@]@);
            }
            match self.seen.get(curpath.as_str()) {
                None => {
                    if last {
                        return Err(Broken::Missing);
                    }
                },
                Some(EntryType::Directory) => {},
                Some(EntryType::Regular) => {
                    return if last {
                        Ok((EntryType::Regular, dest))
                    } else {
                        Err(Broken::NotADirectory)
                    };
                },
                Some(EntryType::Hardlink) => {
                    return if last {
                        Ok((EntryType::Hardlink, dest))
                    } else {
                        Err(Broken::NotADirectory)
                    };
                },
                Some(EntryType::Handled) => {
                    return if last {
                        Ok((EntryType::Handled, dest))
                    } else {
                        Err(Broken::NotADirectory)
                    };
                },
                Some(EntryType::Link(next)) => {
                    if depth == 0 {
                        return Err(Broken::DepthExceeded);
                    }
                    let next_target = chars_of(next.as_str());
                    match self.resolve_chars(&cur, &next_target, depth - 1) {
                        Ok((EntryType::Directory, there)) => {
                            dest = there;
                        },
                        Ok((EntryType::Regular, there)) => {
                            return if last {
                                Ok((EntryType::Regular, there))
                            } else {
                                Err(Broken::NotADirectory)
                            };
                        },
                        Ok((EntryType::Hardlink, there)) => {
                            return if last {
                                Ok((EntryType::Hardlink, there))
                            } else {
                                Err(Broken::NotADirectory)
                            };
                        },
                        Ok((EntryType::Handled, there)) => {
                            return if last {
                                Ok((EntryType::Handled, there))
                            } else {
                                Err(Broken::NotADirectory)
                            };
                        },
                        Ok(_) => {
                            return Err(Broken::NotADirectory);
                        },
                        Err(why) => {
                            return Err(why);
                        },
                    }
                },
                Some(EntryType::Other) => {
                    return Err(Broken::Missing);
                },
            }
            i += 1;
        }
        Ok((EntryType::Directory, dest))
    }
}

impl MissedFiles {
    /// The missed files with the links that lead to each.
    pub closed spec fn view(&self) -> Missed {
        Map::new(|k: Seq<char>| self.0@.contains_key(k), |k: Seq<char>| texts(self.0@[k]@))
    }

    fn add(&mut self, path: String, link: String)
        ensures
            final(self)@ == with_alias(old(self)@, path@, link@),
    {
        let ghost was = self@;
        let mut aliases = match self.0.get(path.as_str()) {
            Some(v) => copy_texts(v),
            None => Vec::new(),
        };
        let ghost before = texts(aliases@);
        proof {
            if !was.contains_key(path@) {
                assert(before =~= Seq::empty());
            }
        }
        aliases.push(link);
        proof {
            assert(texts(aliases@) =~= before.push(link@));
        }
        self.0.insert(path, aliases);
        proof {
            assert(self@ =~= with_alias(was, path@, link@));
        }
    }

    /// Whether no file is missed any more.
    pub fn is_empty(&self) -> (r: bool)
        ensures
            r == self@.is_empty(),
    {
        let r = self.0.is_empty();
        proof {
            assert(self@.dom() =~= self.0@.dom());
        }
        r
    }

    /// Takes the file at `path` off the missed files.
    ///
    /// Returns the links that lead to the file, where it was missed, and
    /// `None` where it was not.
    pub fn take(&mut self, path: &str) -> (r: Option<Vec<String>>)
        ensures
            match r {
                Some(v) => old(self)@.contains_key(path@) && texts(v@) == old(self)@[path@] && final(self)@
                    == old(self)@.remove(path@),
                None => !old(self)@.contains_key(path@) && final(self)@ == old(self)@,
            },
    {
        let ghost was = self@;
        let aliases = match self.0.get(path) {
            Some(v) => copy_texts(v),
            None => {
                return None;
            },
        };
        self.0.remove(path);
        proof {
            assert(self@ =~= was.remove(path@));
        }
        Some(aliases)
    }

    /// Reads the archive a second time, given as the headers of its entries
    /// in order.
    ///
    /// Returns the contents to hand out: for each missed file that the
    /// archive holds, the position of the entry that carries it and all the
    /// links that led to it; and with them the files that are still missed
    /// because the archive does not hold them. The read stops as soon as no
    /// file is missed any more.
    pub fn read(self, entries: &Vec<Entry>) -> (r: (Vec<Delivery>, MissedFiles))
        ensures
            deliveries(r.0@) == fetched(self@, headers(entries@)),
            r.1@ == left(self@, headers(entries@)),
    {
        let mut rest = self;
        let mut out: Vec<Delivery> = Vec::new();
        let ghost all = headers(entries@);
        proof {
            assert(deliveries(out@) =~= Seq::empty());
        }
        let mut i: usize = 0;
        while i < entries.len() && !rest.is_empty()
            invariant
                i <= entries.len(),
                all == headers(entries@),
                rest@ == left(self@, all.take(i as int)),
                deliveries(out@) == fetched(self@, all.take(i as int)),
            decreases entries.len() - i,
        {
            proof {
                assert(all.take(i + 1).drop_last() =~= all.take(i as int));
                assert(all.take(i + 1).last() == entries@[i as int]@);
            }
            if let Some(path) = &entries[i].path {
                if let Some(paths) = rest.take(path.as_str()) {
                    let ghost before = deliveries(out@);
                    out.push(Delivery { index: i, paths });
                    proof {
                        assert(deliveries(out@) =~= before.push(
                            Delivered { index: i as int, paths: texts(paths@) },
                        ));
                    }
                }
            }
            i += 1;
        }
        proof {
            crate::model::lemma_nothing_left(self@, all, i as int);
        }
        (out, rest)
    }
}

} // verus!
