//! What holds of the links of interest and of the second read, whatever the
//! archive.

use vstd::prelude::*;
use crate::archive::Header;
use crate::model::{
    Missed, dropped, fetched, fetches, left, lost, max_depth, missed, notices, outcome,
};
use crate::reading::{is_first, named};
use crate::resolve::{Class, Tree, lemma_resolve_lands};
use crate::text::join;

verus! {

/// Whether the link at `link` leads to the file at `path`, and that file
/// was passed over.
pub open spec fn leads_to_missed(tree: Tree, link: Seq<char>, path: Seq<char>) -> bool {
    match outcome(tree, link) {
        Some((Class::Regular, comps)) => join(comps, '/') == path,
        _ => false,
    }
}

/// The notice that the link at `link` gives rise to: the link with the path
/// of the file it leads to, where that file has been handed out.
pub open spec fn notice_of(tree: Tree, link: Seq<char>) -> Option<(Seq<char>, Seq<char>)> {
    match outcome(tree, link) {
        Some((Class::Handled, comps)) => Some((link, join(comps, '/'))),
        _ => None,
    }
}

/// The links that lead to a file that has been handed out are noticed, each
/// with the path of that file, in the order in which they were seen, and no
/// others: a link to a file that was passed over gives no notice.
pub proof fn lemma_notices(tree: Tree, links: Seq<Seq<char>>)
    ensures
        notices(tree, links) == links.filter_map(|link: Seq<char>| notice_of(tree, link)),
    decreases links.len(),
{
    if links.len() > 0 {
        let f = |link: Seq<char>| notice_of(tree, link);
        lemma_notices(tree, links.drop_last());
        match f(links.last()) {
            Some(n) => {
                assert(links.drop_last().filter_map(f) + seq![n] =~= links.drop_last().filter_map(f).push(n));
            },
            None => {},
        }
    }
}

/// The links that come to nothing are dropped, each with the reason, in
/// the order in which they were seen, and no others.
pub proof fn lemma_dropped(tree: Tree, links: Seq<Seq<char>>)
    ensures
        dropped(tree, links) == links.filter_map(
            |link: Seq<char>|
                match lost(tree, link) {
                    Some(why) => Some((link, why)),
                    None => None,
                },
        ),
    decreases links.len(),
{
    if links.len() > 0 {
        let f = |link: Seq<char>|
            match lost(tree, link) {
                Some(why) => Some((link, why)),
                None => None,
            };
        lemma_dropped(tree, links.drop_last());
        match f(links.last()) {
            Some(n) => {
                assert(links.drop_last().filter_map(f) + seq![n] =~= links.drop_last().filter_map(f).push(n));
            },
            None => {},
        }
    }
}

/// Every link of interest comes to one thing and one only: it is noticed,
/// because the file it leads to has been handed out; or that file is missed
/// on its account; or it is dropped, and the reason is given.
pub proof fn lemma_one_fate(tree: Tree, link: Seq<char>)
    ensures
        notice_of(tree, link) is Some || lost(tree, link) is Some || exists|path: Seq<char>|
            leads_to_missed(tree, link, path),
        !(notice_of(tree, link) is Some && lost(tree, link) is Some),
        forall|path: Seq<char>| leads_to_missed(tree, link, path) ==> notice_of(tree, link) is None && lost(tree, link) is None,
{
    match outcome(tree, link) {
        Some((Class::Regular, comps)) => {
            assert(leads_to_missed(tree, link, join(comps, '/')));
        },
        _ => {},
    }
}

/// A file is missed where a link of interest leads to it, and with it stand
/// all the links of interest that lead to it, in the order in which they
/// were seen.
pub proof fn lemma_missed_batches(tree: Tree, links: Seq<Seq<char>>, path: Seq<char>)
    ensures
        missed(tree, links).contains_key(path) <==> links.filter(
            |link: Seq<char>| leads_to_missed(tree, link, path),
        ).len() > 0,
        missed(tree, links).contains_key(path) ==> missed(tree, links)[path] == links.filter(
            |link: Seq<char>| leads_to_missed(tree, link, path),
        ),
    decreases links.len(),
{
    reveal(Seq::filter);
    if links.len() > 0 {
        lemma_missed_batches(tree, links.drop_last(), path);
    }
}

/// Every file that is missed is recorded, and as a regular file that was
/// passed over: the second read fetches nothing that the first read has
/// handed out.
pub proof fn lemma_missed_are_passed_over(tree: Tree, links: Seq<Seq<char>>, path: Seq<char>)
    requires
        missed(tree, links).contains_key(path),
    ensures
        tree.contains_key(path),
        tree[path] is Regular,
    decreases links.len(),
{
    if links.len() > 0 {
        let link = links.last();
        if missed(tree, links.drop_last()).contains_key(path) {
            lemma_missed_are_passed_over(tree, links.drop_last(), path);
        } else {
            match tree[link] {
                Class::Link(target) => {
                    lemma_resolve_lands(tree, link, target, max_depth());
                },
                _ => {},
            }
        }
    }
}

/// A second read leaves those files missed that it did not come upon, with
/// the links that lead to them.
pub proof fn lemma_left(m: Missed, entries: Seq<Header>)
    ensures
        forall|k: Seq<char>| #[trigger]
            left(m, entries).contains_key(k) <==> m.contains_key(k) && !named(entries, k),
        forall|k: Seq<char>| #[trigger] left(m, entries).contains_key(k) ==> left(m, entries)[k] == m[k],
    decreases entries.len(),
{
    if entries.len() > 0 {
        let front = entries.drop_last();
        lemma_left(m, front);
        assert forall|k: Seq<char>| #[trigger]
            left(m, entries).contains_key(k) <==> m.contains_key(k) && !named(entries, k) by {
            let before = left(m, front);
            assert(before.contains_key(k) <==> m.contains_key(k) && !named(front, k));
            assert(entries.last() == entries[entries.len() - 1]);
            if named(front, k) {
                let i = choose|i: int| 0 <= i < front.len() && (#[trigger] front[i]).path == Some(k);
                assert(entries[i].path == Some(k));
            }
            if entries.last().path == Some(k) {
                assert(entries[entries.len() - 1].path == Some(k));
            }
            if named(entries, k) {
                let i = choose|i: int| 0 <= i < entries.len() && (#[trigger] entries[i]).path == Some(k);
                if i < front.len() {
                    assert(front[i].path == Some(k));
                }
            }
        }
        assert forall|k: Seq<char>| #[trigger] left(m, entries).contains_key(k) implies left(m, entries)[k]
            == m[k] by {
            assert(left(m, front).contains_key(k));
        }
    } else {
        assert forall|k: Seq<char>| !named(entries, k) by {}
    }
}

/// Whether entry `i` carries a missed file, and is the first entry to do
/// so.
pub open spec fn brings(m: Missed, entries: Seq<Header>, i: int) -> bool {
    is_first(entries, i) && m.contains_key(entries[i].path->0)
}

/// A second read hands out every missed file that the archive holds, once,
/// as the first entry with its path passes, for all the links that lead to
/// it at once; it hands out nothing else, and goes by the order of the
/// archive.
pub proof fn lemma_fetched(m: Missed, entries: Seq<Header>)
    ensures
        forall|n: int|
            0 <= n < fetched(m, entries).len() ==> brings(m, entries, (#[trigger] fetched(m, entries)[n]).index)
                && fetched(m, entries)[n].paths == m[entries[fetched(m, entries)[n].index].path->0],
        forall|i: int| #[trigger]
            brings(m, entries, i) ==> exists|n: int|
                0 <= n < fetched(m, entries).len() && (#[trigger] fetched(m, entries)[n]).index == i,
        forall|n: int, k: int|
            0 <= n < k < fetched(m, entries).len() ==> (#[trigger] fetched(m, entries)[n]).index < (
            #[trigger] fetched(m, entries)[k]).index,
    decreases entries.len(),
{
    if entries.len() > 0 {
        let front = entries.drop_last();
        let last = entries.last();
        let z = entries.len() - 1;
        let now = fetched(m, entries);
        let sofar = fetched(m, front);
        let before = left(m, front);
        lemma_fetched(m, front);
        lemma_left(m, front);
        if last.path is Some && named(front, last.path->0) {
            let j = choose|j: int| 0 <= j < front.len() && (#[trigger] front[j]).path == Some(last.path->0);
            assert(entries[j].path == last.path);
            assert(!is_first(entries, z));
        }
        if last.path is Some && !named(front, last.path->0) {
            assert forall|j: int| 0 <= j < z implies (#[trigger] entries[j]).path != entries[z].path by {
                if entries[j].path == entries[z].path {
                    assert(front[j].path == Some(last.path->0));
                }
            }
            assert(is_first(entries, z));
        }
        assert(fetches(before, last) <==> brings(m, entries, z));
        assert forall|i: int| 0 <= i < z implies (is_first(front, i) <==> is_first(entries, i)) by {
            assert(front[i] == entries[i]);
            if is_first(front, i) {
                assert forall|j: int| 0 <= j < i implies (#[trigger] entries[j]).path != entries[i].path by {
                    assert(front[j].path != front[i].path);
                }
            }
            if is_first(entries, i) {
                assert forall|j: int| 0 <= j < i implies (#[trigger] front[j]).path != front[i].path by {
                    assert(entries[j].path != entries[i].path);
                }
            }
        }
        assert forall|n: int| 0 <= n < now.len() implies brings(m, entries, (#[trigger] now[n]).index)
            && now[n].paths == m[entries[now[n].index].path->0] by {
            if n < sofar.len() {
                assert(now[n] == sofar[n]);
                assert(brings(m, front, sofar[n].index));
                assert(front[sofar[n].index] == entries[sofar[n].index]);
            }
        }
        assert forall|i: int| #[trigger] brings(m, entries, i) implies exists|n: int|
            0 <= n < now.len() && (#[trigger] now[n]).index == i by {
            if i < z {
                assert(front[i] == entries[i]);
                assert(brings(m, front, i));
                let n = choose|n: int| 0 <= n < sofar.len() && (#[trigger] sofar[n]).index == i;
                assert(now[n] == sofar[n]);
            } else {
                assert(now[now.len() - 1].index == z);
            }
        }
        assert forall|n: int, k: int| 0 <= n < k < now.len() implies (#[trigger] now[n]).index < (
        #[trigger] now[k]).index by {
            assert(now[n] == sofar[n]);
            assert(brings(m, front, sofar[n].index));
            if k < sofar.len() {
                assert(now[k] == sofar[k]);
            }
        }
    }
}

} // verus!
