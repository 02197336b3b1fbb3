//! The path resolver, stated over the mathematical model of a file list.
//!
//! A file list is modelled as a map from path text to [`Class`]. Resolution
//! follows a link's target through that map the way `realpath` follows it
//! through a file system, with a budget that bounds how many links may be
//! followed inside one another.

use vstd::prelude::*;
use crate::text::{join, last_index_of, split};

verus! {

/// What a path in an archive stands for.
pub enum Class {
    /// A regular file whose content has been delivered.
    Handled,
    /// A regular file whose content has not been delivered.
    Regular,
    /// A symbolic or hard link, with its target as the archive wrote it.
    Link(Seq<char>),
    /// The first, empty member of a group of hard links whose content comes
    /// with a later member.
    Hardlink,
    /// A directory.
    Directory,
    /// Anything that can never hold content of interest.
    Other,
}

/// The model of the recorded entries: path text to class.
pub type Tree = Map<Seq<char>, Class>;

/// What a successful resolution yields: the class found and the components
/// of the path at which it was found.
pub type Found = (Class, Seq<Seq<char>>);

/// Why a link does not resolve.
#[derive(Clone, Copy, Debug, PartialEq, Eq, Structural)]
pub enum Broken {
    /// The link lies in no directory, so that there is nothing to resolve
    /// its target against.
    NoDirectory,
    /// More links follow inside one another than the budget allows.
    DepthExceeded,
    /// The target leads through a file that is no directory.
    NotADirectory,
    /// The target names a special file, or nothing at all.
    Missing,
}

impl Broken {
    /// The reason in words.
    pub fn message(&self) -> (r: &'static str)
        ensures
            r@ == match *self {
                Broken::NoDirectory => "Link outside of any directory"@,
                Broken::DepthExceeded => "Recursion depth exceeded"@,
                Broken::NotADirectory => "Non-directory component"@,
                Broken::Missing => "Special or non-existing file"@,
            },
    {
        match *self {
            Broken::NoDirectory => "Link outside of any directory",
            Broken::DepthExceeded => "Recursion depth exceeded",
            Broken::NotADirectory => "Non-directory component",
            Broken::Missing => "Special or non-existing file",
        }
    }
}

/// Classes at which a resolution ends with a file.
pub open spec fn is_file(c: Class) -> bool {
    c is Regular || c is Hardlink || c is Handled
}

/// Components that leave the walk where it is: the empty one and `.`.
pub open spec fn stays(c: Seq<char>) -> bool {
    c.len() == 0 || (c.len() == 1 && c[0] == '.')
}

/// The component `..`.
pub open spec fn goes_up(c: Seq<char>) -> bool {
    c.len() == 2 && c[0] == '.' && c[1] == '.'
}

/// One step up from `dest`, never above the first component.
pub open spec fn parent_of(dest: Seq<Seq<char>>) -> Seq<Seq<char>> {
    if dest.len() > 1 {
        dest.drop_last()
    } else {
        dest
    }
}

/// The components to walk for `target` as seen from the entry at `base`:
/// those of an absolute target alone, those of a relative target after the
/// components of the directory that holds `base`. There are none where `base`
/// lies in no directory.
pub open spec fn components(base: Seq<char>, target: Seq<char>) -> Option<Seq<Seq<char>>> {
    match last_index_of(base, '/') {
        None => None,
        Some(i) => Some(
            if target.len() > 0 && target[0] == '/' {
                split(target, '/')
            } else {
                split(base.take(i), '/') + split(target, '/')
            },
        ),
    }
}

/// Walks `comps` from index `i` on, with `dest` the components reached so
/// far, following at most `depth` links inside one another.
pub open spec fn walk(tree: Tree, comps: Seq<Seq<char>>, i: int, dest: Seq<Seq<char>>, depth: nat) -> Result<
    Found,
    Broken,
>
    decreases depth, 0nat, comps.len() - i,
{
    if i < 0 || i >= comps.len() {
        Ok((Class::Directory, dest))
    } else if stays(comps[i]) {
        walk(tree, comps, i + 1, dest, depth)
    } else if goes_up(comps[i]) {
        walk(tree, comps, i + 1, parent_of(dest), depth)
    } else {
        let here = dest.push(comps[i]);
        let path = join(here, '/');
        let last = i == comps.len() - 1;
        if !tree.contains_key(path) {
            if last {
                Err(Broken::Missing)
            } else {
                walk(tree, comps, i + 1, here, depth)
            }
        } else {
            match tree[path] {
                Class::Directory => walk(tree, comps, i + 1, here, depth),
                Class::Regular | Class::Hardlink | Class::Handled => if last {
                    Ok((tree[path], here))
                } else {
                    Err(Broken::NotADirectory)
                },
                Class::Link(target) => if depth == 0 {
                    Err(Broken::DepthExceeded)
                } else {
                    match follow(tree, path, target, (depth - 1) as nat) {
                        Ok((Class::Directory, there)) => walk(tree, comps, i + 1, there, depth),
                        Ok((c, there)) => if is_file(c) && last {
                            Ok((c, there))
                        } else {
                            Err(Broken::NotADirectory)
                        },
                        Err(why) => Err(why),
                    }
                },
                Class::Other => Err(Broken::Missing),
            }
        }
    }
}

/// Follows `target`, the target of the link recorded at `base`, to the
/// class it finally names and the components of the path that holds it, or
/// to the reason why it names nothing.
pub open spec fn follow(tree: Tree, base: Seq<char>, target: Seq<char>, depth: nat) -> Result<Found, Broken>
    decreases depth, 1nat, 0nat,
{
    match components(base, target) {
        None => Err(Broken::NoDirectory),
        Some(comps) => walk(tree, comps, 0, Seq::empty(), depth),
    }
}

/// What a result is worth where the reason of a failure is of no
/// interest.
pub open spec fn found(r: Result<Found, Broken>) -> Option<Found> {
    match r {
        Ok(f) => Some(f),
        Err(_) => None,
    }
}

/// Resolves `target`, the target of the link recorded at `base`, to the
/// class it finally names and the components of the path that holds it.
pub open spec fn resolve(tree: Tree, base: Seq<char>, target: Seq<char>, depth: nat) -> Option<Found> {
    found(follow(tree, base, target, depth))
}

/// Where a walk ends: at a directory, or at a file that is recorded under
/// the very path the walk reports, with the class it reports.
pub open spec fn lands(tree: Tree, found: Option<Found>) -> bool {
    match found {
        Some((c, there)) => c is Directory || (is_file(c) && tree.contains_key(join(there, '/'))
            && tree[join(there, '/')] == c),
        None => true,
    }
}

/// Every walk lands.
pub proof fn lemma_walk_lands(tree: Tree, comps: Seq<Seq<char>>, i: int, dest: Seq<Seq<char>>, depth: nat)
    ensures
        lands(tree, found(walk(tree, comps, i, dest, depth))),
    decreases depth, 0nat, comps.len() - i,
{
    if i < 0 || i >= comps.len() {
    } else if stays(comps[i]) {
        lemma_walk_lands(tree, comps, i + 1, dest, depth);
    } else if goes_up(comps[i]) {
        lemma_walk_lands(tree, comps, i + 1, parent_of(dest), depth);
    } else {
        let here = dest.push(comps[i]);
        let path = join(here, '/');
        if !tree.contains_key(path) {
            lemma_walk_lands(tree, comps, i + 1, here, depth);
        } else {
            match tree[path] {
                Class::Directory => {
                    lemma_walk_lands(tree, comps, i + 1, here, depth);
                },
                Class::Link(target) => {
                    if depth > 0 {
                        lemma_resolve_lands(tree, path, target, (depth - 1) as nat);
                        match follow(tree, path, target, (depth - 1) as nat) {
                            Ok((Class::Directory, there)) => {
                                lemma_walk_lands(tree, comps, i + 1, there, depth);
                            },
                            _ => {},
                        }
                    }
                },
                _ => {},
            }
        }
    }
}

/// A resolution that succeeds ends at a directory, or at a file that is
/// recorded under the path it reports, with the class it reports. It never
/// ends at a link or at a special file.
pub proof fn lemma_resolve_lands(tree: Tree, base: Seq<char>, target: Seq<char>, depth: nat)
    ensures
        lands(tree, resolve(tree, base, target, depth)),
    decreases depth, 1nat, 0nat,
{
    match components(base, target) {
        None => {},
        Some(comps) => {
            lemma_walk_lands(tree, comps, 0, Seq::empty(), depth);
        },
    }
}

} // verus!
