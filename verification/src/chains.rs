//! What holds of the resolver, whatever the archive: budgets, chains of
//! links and links that lead in a circle.

use vstd::prelude::*;
use crate::model::{max_depth, outcome};
use crate::resolve::{
    Broken, Class, Tree, components, follow, goes_up, lemma_resolve_lands, parent_of, resolve,
    stays, walk,
};
use crate::text::join;

verus! {

proof fn lemma_walk_with_more(tree: Tree, comps: Seq<Seq<char>>, i: int, dest: Seq<Seq<char>>, depth: nat)
    requires
        walk(tree, comps, i, dest, depth) is Ok,
    ensures
        walk(tree, comps, i, dest, depth + 1) == walk(tree, comps, i, dest, depth),
    decreases depth, 0nat, comps.len() - i,
{
    if i < 0 || i >= comps.len() {
    } else if stays(comps[i]) {
        lemma_walk_with_more(tree, comps, i + 1, dest, depth);
    } else if goes_up(comps[i]) {
        lemma_walk_with_more(tree, comps, i + 1, parent_of(dest), depth);
    } else {
        let here = dest.push(comps[i]);
        let path = join(here, '/');
        if !tree.contains_key(path) {
            if i != comps.len() - 1 {
                lemma_walk_with_more(tree, comps, i + 1, here, depth);
            }
        } else {
            match tree[path] {
                Class::Directory => {
                    lemma_walk_with_more(tree, comps, i + 1, here, depth);
                },
                Class::Link(target) => {
                    lemma_follow_with_more(tree, path, target, (depth - 1) as nat);
                    match follow(tree, path, target, (depth - 1) as nat) {
                        Ok((Class::Directory, there)) => {
                            lemma_walk_with_more(tree, comps, i + 1, there, depth);
                        },
                        _ => {},
                    }
                },
                _ => {},
            }
        }
    }
}

proof fn lemma_follow_with_more(tree: Tree, base: Seq<char>, target: Seq<char>, depth: nat)
    requires
        follow(tree, base, target, depth) is Ok,
    ensures
        follow(tree, base, target, depth + 1) == follow(tree, base, target, depth),
    decreases depth, 1nat, 0nat,
{
    lemma_walk_with_more(tree, components(base, target)->0, 0, Seq::empty(), depth);
}

/// A resolution that succeeds comes to the same with a larger budget: the
/// budget decides whether a link resolves, never what it resolves to.
pub proof fn lemma_more_budget_keeps(tree: Tree, base: Seq<char>, target: Seq<char>, depth: nat)
    requires
        resolve(tree, base, target, depth) is Some,
    ensures
        resolve(tree, base, target, depth + 1) == resolve(tree, base, target, depth),
{
    lemma_follow_with_more(tree, base, target, depth);
}

/// A link as a resolution meets it: its path and its target.
pub struct Hop {
    pub path: Seq<char>,
    pub target: Seq<char>,
}

/// The first link that a walk comes upon, going through directories only.
/// There is none where the walk ends, or fails, before it meets a link.
pub open spec fn first_link(tree: Tree, comps: Seq<Seq<char>>, i: int, dest: Seq<Seq<char>>) -> Option<Hop>
    decreases comps.len() - i,
{
    if i < 0 || i >= comps.len() {
        None
    } else if stays(comps[i]) {
        first_link(tree, comps, i + 1, dest)
    } else if goes_up(comps[i]) {
        first_link(tree, comps, i + 1, parent_of(dest))
    } else {
        let here = dest.push(comps[i]);
        let path = join(here, '/');
        if !tree.contains_key(path) {
            if i == comps.len() - 1 {
                None
            } else {
                first_link(tree, comps, i + 1, here)
            }
        } else {
            match tree[path] {
                Class::Directory => first_link(tree, comps, i + 1, here),
                Class::Link(target) => Some(Hop { path, target }),
                _ => None,
            }
        }
    }
}

/// The first link that resolving `target` from `base` comes upon.
pub open spec fn next_link(tree: Tree, base: Seq<char>, target: Seq<char>) -> Option<Hop> {
    match components(base, target) {
        Some(comps) => first_link(tree, comps, 0, Seq::empty()),
        None => None,
    }
}

/// The link that a walk ends at, going through directories only: the link
/// that the last component names. There is none where the walk ends
/// elsewhere.
pub open spec fn final_link(tree: Tree, comps: Seq<Seq<char>>, i: int, dest: Seq<Seq<char>>) -> Option<Hop>
    decreases comps.len() - i,
{
    if i < 0 || i >= comps.len() {
        None
    } else if stays(comps[i]) {
        final_link(tree, comps, i + 1, dest)
    } else if goes_up(comps[i]) {
        final_link(tree, comps, i + 1, parent_of(dest))
    } else {
        let here = dest.push(comps[i]);
        let path = join(here, '/');
        if !tree.contains_key(path) {
            if i == comps.len() - 1 {
                None
            } else {
                final_link(tree, comps, i + 1, here)
            }
        } else {
            match tree[path] {
                Class::Directory => final_link(tree, comps, i + 1, here),
                Class::Link(target) => if i == comps.len() - 1 {
                    Some(Hop { path, target })
                } else {
                    None
                },
                _ => None,
            }
        }
    }
}

/// The link that `target` names as seen from `base`, where it names a
/// link.
pub open spec fn names_link(tree: Tree, base: Seq<char>, target: Seq<char>) -> Option<Hop> {
    match components(base, target) {
        Some(comps) => final_link(tree, comps, 0, Seq::empty()),
        None => None,
    }
}

proof fn lemma_walk_to_link(tree: Tree, comps: Seq<Seq<char>>, i: int, dest: Seq<Seq<char>>, depth: nat)
    requires
        final_link(tree, comps, i, dest) is Some,
        depth > 0,
    ensures
        walk(tree, comps, i, dest, depth) == follow(
            tree,
            final_link(tree, comps, i, dest)->0.path,
            final_link(tree, comps, i, dest)->0.target,
            (depth - 1) as nat,
        ),
    decreases comps.len() - i,
{
    if i < 0 || i >= comps.len() {
    } else if stays(comps[i]) {
        lemma_walk_to_link(tree, comps, i + 1, dest, depth);
    } else if goes_up(comps[i]) {
        lemma_walk_to_link(tree, comps, i + 1, parent_of(dest), depth);
    } else {
        let here = dest.push(comps[i]);
        let path = join(here, '/');
        if !tree.contains_key(path) {
            lemma_walk_to_link(tree, comps, i + 1, here, depth);
        } else {
            match tree[path] {
                Class::Directory => {
                    lemma_walk_to_link(tree, comps, i + 1, here, depth);
                },
                Class::Link(target) => {
                    lemma_resolve_lands(tree, path, target, (depth - 1) as nat);
                    match follow(tree, path, target, (depth - 1) as nat) {
                        Ok((Class::Directory, there)) => {
                            assert(walk(tree, comps, i + 1, there, depth) == Ok::<crate::resolve::Found, Broken>(
                                (Class::Directory, there),
                            ));
                        },
                        _ => {},
                    }
                },
                _ => {},
            }
        }
    }
}

/// A link to a link resolves to what that link resolves to, class and
/// components alike, on a budget that is larger by one, and fails for the
/// reason for which that link fails: it makes no difference to the outcome
/// through how many links a file is reached, nor whether a link stands before
/// or after its target in the archive.
pub proof fn lemma_link_to_link(tree: Tree, base: Seq<char>, target: Seq<char>, depth: nat)
    requires
        names_link(tree, base, target) is Some,
    ensures
        follow(tree, base, target, depth + 1) == follow(
            tree,
            names_link(tree, base, target)->0.path,
            names_link(tree, base, target)->0.target,
            depth,
        ),
        resolve(tree, base, target, depth + 1) == resolve(
            tree,
            names_link(tree, base, target)->0.path,
            names_link(tree, base, target)->0.target,
            depth,
        ),
{
    lemma_walk_to_link(tree, components(base, target)->0, 0, Seq::empty(), depth + 1);
}

/// The link reached from the link at `base` with target `target` after
/// going from link to link `n` times.
pub open spec fn link_after(tree: Tree, base: Seq<char>, target: Seq<char>, n: nat) -> Option<Hop>
    decreases n,
{
    if n == 0 {
        Some(Hop { path: base, target })
    } else {
        match next_link(tree, base, target) {
            Some(hop) => link_after(tree, hop.path, hop.target, (n - 1) as nat),
            None => None,
        }
    }
}

proof fn lemma_walk_meets_first_link(tree: Tree, comps: Seq<Seq<char>>, i: int, dest: Seq<Seq<char>>, depth: nat)
    requires
        first_link(tree, comps, i, dest) is Some,
    ensures
        depth == 0 ==> walk(tree, comps, i, dest, depth) == Err::<crate::resolve::Found, Broken>(Broken::DepthExceeded),
        depth > 0 ==> match follow(
            tree,
            first_link(tree, comps, i, dest)->0.path,
            first_link(tree, comps, i, dest)->0.target,
            (depth - 1) as nat,
        ) {
            Err(why) => walk(tree, comps, i, dest, depth) == Err::<crate::resolve::Found, Broken>(why),
            Ok(_) => true,
        },
    decreases comps.len() - i,
{
    if i < 0 || i >= comps.len() {
    } else if stays(comps[i]) {
        lemma_walk_meets_first_link(tree, comps, i + 1, dest, depth);
    } else if goes_up(comps[i]) {
        lemma_walk_meets_first_link(tree, comps, i + 1, parent_of(dest), depth);
    } else {
        let here = dest.push(comps[i]);
        let path = join(here, '/');
        if !tree.contains_key(path) {
            lemma_walk_meets_first_link(tree, comps, i + 1, here, depth);
        } else {
            match tree[path] {
                Class::Directory => {
                    lemma_walk_meets_first_link(tree, comps, i + 1, here, depth);
                },
                _ => {},
            }
        }
    }
}

/// A resolution that comes upon a link fails where the budget does not let
/// it follow that link, and fails for the reason for which the link itself
/// fails on what is left of the budget.
pub proof fn lemma_follow_meets_next_link(tree: Tree, base: Seq<char>, target: Seq<char>, depth: nat)
    requires
        next_link(tree, base, target) is Some,
    ensures
        depth == 0 ==> follow(tree, base, target, depth) == Err::<crate::resolve::Found, Broken>(Broken::DepthExceeded),
        depth > 0 ==> match follow(
            tree,
            next_link(tree, base, target)->0.path,
            next_link(tree, base, target)->0.target,
            (depth - 1) as nat,
        ) {
            Err(why) => follow(tree, base, target, depth) == Err::<crate::resolve::Found, Broken>(why),
            Ok(_) => true,
        },
{
    lemma_walk_meets_first_link(tree, components(base, target)->0, 0, Seq::empty(), depth);
}

/// A resolution that comes upon a link succeeds only if the budget lets it
/// follow that link, and the link itself resolves on what is left of the
/// budget.
pub proof fn lemma_resolve_needs_next_link(tree: Tree, base: Seq<char>, target: Seq<char>, depth: nat)
    requires
        next_link(tree, base, target) is Some,
        resolve(tree, base, target, depth) is Some,
    ensures
        depth > 0,
        resolve(
            tree,
            next_link(tree, base, target)->0.path,
            next_link(tree, base, target)->0.target,
            (depth - 1) as nat,
        ) is Some,
{
    lemma_follow_meets_next_link(tree, base, target, depth);
}

/// A chain of links that is longer than the budget does not resolve, whether
/// it ends at a file or not: where more than `depth` links follow the link
/// at `base`, one after the other, its resolution with budget `depth` fails,
/// and fails because the budget is spent.
pub proof fn lemma_long_chain_fails(tree: Tree, base: Seq<char>, target: Seq<char>, depth: nat)
    requires
        link_after(tree, base, target, depth + 1) is Some,
    ensures
        follow(tree, base, target, depth) == Err::<crate::resolve::Found, Broken>(Broken::DepthExceeded),
        resolve(tree, base, target, depth) is None,
    decreases depth,
{
    let next = next_link(tree, base, target)->0;
    lemma_follow_meets_next_link(tree, base, target, depth);
    if depth > 0 {
        lemma_long_chain_fails(tree, next.path, next.target, (depth - 1) as nat);
    }
}

/// A recorded link that more than 32 links follow, one after the other,
/// comes to nothing.
pub proof fn lemma_chain_of_33_fails(tree: Tree, path: Seq<char>, target: Seq<char>)
    requires
        tree.contains_key(path),
        tree[path] == Class::Link(target),
        link_after(tree, path, target, 33) is Some,
    ensures
        outcome(tree, path) is None,
{
    lemma_long_chain_fails(tree, path, target, max_depth());
}

proof fn lemma_link_after_sum(tree: Tree, base: Seq<char>, target: Seq<char>, a: nat, b: nat)
    requires
        link_after(tree, base, target, a) is Some,
    ensures
        link_after(tree, base, target, a + b) == link_after(
            tree,
            link_after(tree, base, target, a)->0.path,
            link_after(tree, base, target, a)->0.target,
            b,
        ),
    decreases a,
{
    if a > 0 {
        let next = next_link(tree, base, target)->0;
        lemma_link_after_sum(tree, next.path, next.target, (a - 1) as nat, b);
        assert(a + b - 1 == (a - 1) as nat + b);
    }
}

proof fn lemma_link_after_fewer(tree: Tree, base: Seq<char>, target: Seq<char>, a: nat, b: nat)
    requires
        link_after(tree, base, target, a + b) is Some,
    ensures
        link_after(tree, base, target, a) is Some,
    decreases a,
{
    if a > 0 {
        let next = next_link(tree, base, target)->0;
        assert(a + b - 1 == (a - 1) as nat + b);
        lemma_link_after_fewer(tree, next.path, next.target, (a - 1) as nat, b);
    }
}

proof fn lemma_cycle_goes_on(tree: Tree, base: Seq<char>, target: Seq<char>, period: nat, n: nat)
    requires
        period > 0,
        link_after(tree, base, target, period) == Some(Hop { path: base, target }),
    ensures
        link_after(tree, base, target, n) is Some,
    decreases n,
{
    if n >= period {
        lemma_cycle_goes_on(tree, base, target, period, (n - period) as nat);
        lemma_link_after_sum(tree, base, target, period, (n - period) as nat);
        assert(period + (n - period) as nat == n);
    } else {
        assert(n + (period - n) as nat == period);
        lemma_link_after_fewer(tree, base, target, n, (period - n) as nat);
    }
}

/// A link that leads back to itself does not resolve, whatever the budget:
/// neither one that names itself, nor one that comes back to itself by way
/// of other links. Every budget is spent on it.
pub proof fn lemma_cycle_fails(tree: Tree, base: Seq<char>, target: Seq<char>, period: nat, depth: nat)
    requires
        period > 0,
        link_after(tree, base, target, period) == Some(Hop { path: base, target }),
    ensures
        follow(tree, base, target, depth) == Err::<crate::resolve::Found, Broken>(Broken::DepthExceeded),
        resolve(tree, base, target, depth) is None,
{
    lemma_cycle_goes_on(tree, base, target, period, depth + 1);
    lemma_long_chain_fails(tree, base, target, depth);
}

} // verus!
