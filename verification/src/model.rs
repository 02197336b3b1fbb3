//! The mathematical model of the two reads of an archive.
//!
//! The first read folds [`record`] over the headers of the archive; the
//! result is a [`Listing`] and the sequence of contents handed out on the way.
//! [`notices`] and [`missed`] say what the links of interest in a listing come
//! to, and [`fetched`] what a second read hands out for the files that were
//! missed.

use vstd::prelude::*;
use crate::archive::{Header, Kind};
use crate::resolve::{Broken, Class, Found, Tree, follow, resolve};
use crate::text::join;

verus! {

/// The model of a file list: the classes of the paths seen, and the links of
/// interest among them in the order in which they were seen.
pub struct Listing {
    pub tree: Tree,
    pub links: Seq<Seq<char>>,
}

/// What became of one entry.
pub enum Outcome {
    /// Its name is no text: passed over.
    Unnamed,
    /// Its path has been seen before: passed over.
    Duplicate,
    /// Recorded. Where a path is given, the content that comes with the
    /// entry is to be handed out under that path.
    Accepted(Option<Seq<char>>),
}

/// One content handed out: the position in the archive of the entry that
/// carries it, and the paths under which it is wanted.
pub struct Delivered {
    pub index: int,
    pub paths: Seq<Seq<char>>,
}

/// The budget of every resolution that starts at a recorded link.
pub open spec fn max_depth() -> nat {
    32
}

/// The listing of an archive of which nothing has been read.
pub open spec fn nothing() -> Listing {
    Listing { tree: Map::empty(), links: Seq::empty() }
}

/// A first member of a group of hard links: a file without content that has
/// more than one link. Its content comes with a later member.
pub open spec fn opens_group(h: Header) -> bool {
    h.kind is File && h.size == 0 && h.nlink > 1
}

/// A member of a group of hard links that carries the group's content: a
/// link with content and more than one link.
pub open spec fn closes_group(h: Header) -> bool {
    h.kind is Link && h.size > 0 && h.nlink > 1
}

/// The path of the first member of the group that the entry `h` at `path`
/// closes, where it closes one whose first member is still without content.
pub open spec fn placeholder(tree: Tree, path: Seq<char>, h: Header) -> Option<Seq<char>> {
    match h.kind {
        Kind::Link(target) => if closes_group(h) {
            match resolve(tree, path, target, max_depth()) {
                Some((Class::Hardlink, comps)) => Some(join(comps, '/')),
                _ => None,
            }
        } else {
            None
        },
        _ => None,
    }
}

/// The listing after one more entry, and what became of the entry. `want`
/// says of which paths the content is of interest.
pub open spec fn record(l: Listing, h: Header, want: spec_fn(Seq<char>) -> bool) -> (Listing, Outcome) {
    match h.path {
        None => (l, Outcome::Unnamed),
        Some(path) => if l.tree.contains_key(path) {
            (l, Outcome::Duplicate)
        } else {
            match h.kind {
                Kind::File => if opens_group(h) {
                    (Listing { tree: l.tree.insert(path, Class::Hardlink), links: l.links }, Outcome::Accepted(None))
                } else if want(path) {
                    (
                        Listing { tree: l.tree.insert(path, Class::Handled), links: l.links },
                        Outcome::Accepted(Some(path)),
                    )
                } else {
                    (Listing { tree: l.tree.insert(path, Class::Regular), links: l.links }, Outcome::Accepted(None))
                },
                Kind::Link(target) => {
                    let filled = match placeholder(l.tree, path, h) {
                        Some(first) => if want(first) {
                            Some(first)
                        } else {
                            None
                        },
                        None => None,
                    };
                    let tree = match filled {
                        Some(first) => l.tree.insert(first, Class::Handled),
                        None => l.tree,
                    };
                    (
                        Listing {
                            tree: tree.insert(path, Class::Link(target)),
                            links: if want(path) {
                                l.links.push(path)
                            } else {
                                l.links
                            },
                        },
                        Outcome::Accepted(filled),
                    )
                },
                Kind::Directory => (
                    Listing { tree: l.tree.insert(path, Class::Directory), links: l.links },
                    Outcome::Accepted(None),
                ),
                Kind::Other => (
                    Listing { tree: l.tree.insert(path, Class::Other), links: l.links },
                    Outcome::Accepted(None),
                ),
            }
        },
    }
}

/// Whether recording the entry `h` asks whether its own path is of
/// interest: it does so for links, and for regular files that bring their
/// content along, where the path is not recorded yet.
pub open spec fn asks_path(l: Listing, h: Header) -> bool {
    h.path is Some && !l.tree.contains_key(h.path->0) && (h.kind is Link || (h.kind is File && !opens_group(h)))
}

/// The path of the first member of the group that recording the entry `h`
/// would fill, if it is of interest.
pub open spec fn asks_first(l: Listing, h: Header) -> Option<Seq<char>> {
    if h.path is Some && !l.tree.contains_key(h.path->0) {
        placeholder(l.tree, h.path->0, h)
    } else {
        None
    }
}

/// The test of interest that answers `wanted` for the path of `h`,
/// `first_wanted` for the first member of the group that `h` closes, and no
/// for every other path.
pub open spec fn answers(l: Listing, h: Header, wanted: bool, first_wanted: bool) -> spec_fn(Seq<char>) -> bool {
    |s: Seq<char>|
        if h.path == Some(s) {
            wanted
        } else if asks_first(l, h) == Some(s) {
            first_wanted
        } else {
            false
        }
}

/// The listing after the given entries, read in order.
pub open spec fn listing_of(entries: Seq<Header>, want: spec_fn(Seq<char>) -> bool) -> Listing
    decreases entries.len(),
{
    if entries.len() == 0 {
        nothing()
    } else {
        record(listing_of(entries.drop_last(), want), entries.last(), want).0
    }
}

/// What becomes of the last of the given entries when they are read in
/// order.
pub open spec fn outcome_of_last(entries: Seq<Header>, want: spec_fn(Seq<char>) -> bool) -> Outcome
    recommends
        entries.len() > 0,
{
    record(listing_of(entries.drop_last(), want), entries.last(), want).1
}

/// The contents handed out while the given entries are read, in order.
pub open spec fn delivered(entries: Seq<Header>, want: spec_fn(Seq<char>) -> bool) -> Seq<Delivered>
    decreases entries.len(),
{
    if entries.len() == 0 {
        Seq::empty()
    } else {
        let before = delivered(entries.drop_last(), want);
        match outcome_of_last(entries, want) {
            Outcome::Accepted(Some(path)) => before.push(Delivered { index: entries.len() - 1, paths: seq![path] }),
            _ => before,
        }
    }
}

/// What becomes of each of the given entries when they are read in order.
pub open spec fn outcomes(entries: Seq<Header>, want: spec_fn(Seq<char>) -> bool) -> Seq<Outcome>
    decreases entries.len(),
{
    if entries.len() == 0 {
        Seq::empty()
    } else {
        outcomes(entries.drop_last(), want).push(outcome_of_last(entries, want))
    }
}

/// Every link of interest is recorded as a link.
pub open spec fn sound(l: Listing) -> bool {
    forall|i: int| 0 <= i < l.links.len() ==> l.tree.contains_key(#[trigger] l.links[i]) && l.tree[l.links[i]] is Link
}

/// The model of the files that were missed: the path of each file that a
/// second read has to fetch, with the links of interest that lead to it.
pub type Missed = Map<Seq<char>, Seq<Seq<char>>>;

/// What the link recorded at `path` comes to.
pub open spec fn outcome(tree: Tree, path: Seq<char>) -> Option<Found> {
    if tree.contains_key(path) {
        match tree[path] {
            Class::Link(target) => resolve(tree, path, target, max_depth()),
            _ => None,
        }
    } else {
        None
    }
}

/// The links among `links` that lead to a file that has been handed out,
/// each with the path of that file, in order.
pub open spec fn notices(tree: Tree, links: Seq<Seq<char>>) -> Seq<(Seq<char>, Seq<char>)>
    decreases links.len(),
{
    if links.len() == 0 {
        Seq::empty()
    } else {
        let before = notices(tree, links.drop_last());
        match outcome(tree, links.last()) {
            Some((Class::Handled, comps)) => before.push((links.last(), join(comps, '/'))),
            _ => before,
        }
    }
}

/// `missed` with one more link that leads to the file at `path`.
pub open spec fn with_alias(missed: Missed, path: Seq<char>, link: Seq<char>) -> Missed {
    missed.insert(
        path,
        if missed.contains_key(path) {
            missed[path].push(link)
        } else {
            seq![link]
        },
    )
}

/// The files that the links among `links` lead to and that were passed over,
/// each with the links that lead to it, in order.
pub open spec fn missed(tree: Tree, links: Seq<Seq<char>>) -> Missed
    decreases links.len(),
{
    if links.len() == 0 {
        Map::empty()
    } else {
        let before = missed(tree, links.drop_last());
        match outcome(tree, links.last()) {
            Some((Class::Regular, comps)) => with_alias(before, join(comps, '/'), links.last()),
            _ => before,
        }
    }
}

/// Why a link of interest comes to nothing.
pub enum Dropped {
    /// It leads to the first member of a group of hard links whose content
    /// never came.
    Unfilled,
    /// It leads to a directory.
    Directory,
    /// It does not resolve.
    Broken(Broken),
    /// It is not recorded as a link.
    NotALink,
}

/// Why the link recorded at `path` comes to nothing, if it does.
pub open spec fn lost(tree: Tree, path: Seq<char>) -> Option<Dropped> {
    if tree.contains_key(path) {
        match tree[path] {
            Class::Link(target) => match follow(tree, path, target, max_depth()) {
                Ok((Class::Handled, _)) => None,
                Ok((Class::Regular, _)) => None,
                Ok((Class::Hardlink, _)) => Some(Dropped::Unfilled),
                Ok(_) => Some(Dropped::Directory),
                Err(why) => Some(Dropped::Broken(why)),
            },
            _ => Some(Dropped::NotALink),
        }
    } else {
        Some(Dropped::NotALink)
    }
}

/// The links among `links` that come to nothing, each with the reason, in
/// order.
pub open spec fn dropped(tree: Tree, links: Seq<Seq<char>>) -> Seq<(Seq<char>, Dropped)>
    decreases links.len(),
{
    if links.len() == 0 {
        Seq::empty()
    } else {
        let before = dropped(tree, links.drop_last());
        match lost(tree, links.last()) {
            Some(why) => before.push((links.last(), why)),
            None => before,
        }
    }
}

/// Whether the entry `h` carries a file that is still missed.
pub open spec fn fetches(missed: Missed, h: Header) -> bool {
    h.path is Some && missed.contains_key(h.path->0)
}

/// The files still missed after a second read has come past the given
/// entries.
pub open spec fn left(missed: Missed, entries: Seq<Header>) -> Missed
    decreases entries.len(),
{
    if entries.len() == 0 {
        missed
    } else {
        let before = left(missed, entries.drop_last());
        if fetches(before, entries.last()) {
            before.remove(entries.last().path->0)
        } else {
            before
        }
    }
}

/// The contents that a second read hands out while it comes past the given
/// entries, in order.
pub open spec fn fetched(missed: Missed, entries: Seq<Header>) -> Seq<Delivered>
    decreases entries.len(),
{
    if entries.len() == 0 {
        Seq::empty()
    } else {
        let before = left(missed, entries.drop_last());
        let sofar = fetched(missed, entries.drop_last());
        if fetches(before, entries.last()) {
            sofar.push(Delivered { index: entries.len() - 1, paths: before[entries.last().path->0] })
        } else {
            sofar
        }
    }
}

/// Once no file is missed any more, the rest of the archive brings nothing:
/// a second read may stop there.
pub proof fn lemma_nothing_left(missed: Missed, entries: Seq<Header>, i: int)
    requires
        0 <= i <= entries.len(),
        i == entries.len() || left(missed, entries.take(i)).is_empty(),
    ensures
        fetched(missed, entries) == fetched(missed, entries.take(i)),
        left(missed, entries) == left(missed, entries.take(i)),
    decreases entries.len() - i,
{
    if i == entries.len() {
        assert(entries.take(i) =~= entries);
    } else {
        let before = left(missed, entries.take(i));
        assert(entries.take(i + 1).drop_last() =~= entries.take(i));
        assert(before =~= Map::empty());
        assert(!fetches(before, entries.take(i + 1).last()));
        lemma_nothing_left(missed, entries, i + 1);
    }
}

} // verus!
