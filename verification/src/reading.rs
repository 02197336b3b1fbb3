//! What holds of the first read of an archive, whatever the archive.

use vstd::prelude::*;
use crate::archive::{Header, Kind};
use crate::model::{
    Listing, Outcome, answers, asks_first, asks_path, delivered, listing_of, max_depth,
    opens_group, outcome_of_last, outcomes, placeholder, record, sound,
};
use crate::resolve::{Class, lemma_resolve_lands};

verus! {

/// Whether some entry among `entries` has the path `p`.
pub open spec fn named(entries: Seq<Header>, p: Seq<char>) -> bool {
    exists|i: int| 0 <= i < entries.len() && (#[trigger] entries[i]).path == Some(p)
}

/// Whether entry `i` is the first among `entries` with its path.
pub open spec fn is_first(entries: Seq<Header>, i: int) -> bool {
    &&& 0 <= i < entries.len()
    &&& entries[i].path is Some
    &&& forall|j: int| 0 <= j < i ==> (#[trigger] entries[j]).path != entries[i].path
}

/// The class under which an entry that is no link is recorded.
pub open spec fn plain_class(h: Header, want: spec_fn(Seq<char>) -> bool) -> Class {
    match h.kind {
        Kind::File => if opens_group(h) {
            Class::Hardlink
        } else if want(h.path->0) {
            Class::Handled
        } else {
            Class::Regular
        },
        Kind::Directory => Class::Directory,
        Kind::Other => Class::Other,
        Kind::Link(target) => Class::Link(target),
    }
}

/// Whether the content of entry `i` is handed out as it passes: it is the
/// first entry with its path, a regular file with content of its own, and of
/// interest.
pub open spec fn is_wanted_file(entries: Seq<Header>, want: spec_fn(Seq<char>) -> bool, i: int) -> bool {
    &&& is_first(entries, i)
    &&& entries[i].kind is File
    &&& !opens_group(entries[i])
    &&& want(entries[i].path->0)
}

/// The first member of a group that an entry fills is recorded, and as a
/// first member without content.
pub proof fn lemma_placeholder_is_recorded(l: Listing, path: Seq<char>, h: Header)
    requires
        placeholder(l.tree, path, h) is Some,
    ensures
        l.tree.contains_key(placeholder(l.tree, path, h)->0),
        l.tree[placeholder(l.tree, path, h)->0] is Hardlink,
{
    match h.kind {
        Kind::Link(target) => {
            lemma_resolve_lands(l.tree, path, target, max_depth());
        },
        _ => {},
    }
}

/// Recording an entry asks the test of interest about the entry's own path
/// and about the first member of the group that the entry closes, and about
/// nothing else: two tests that agree there record alike.
pub proof fn lemma_record_asks(l: Listing, h: Header, one: spec_fn(Seq<char>) -> bool, other: spec_fn(Seq<char>) -> bool)
    requires
        asks_path(l, h) ==> one(h.path->0) == other(h.path->0),
        asks_first(l, h) is Some ==> one(asks_first(l, h)->0) == other(asks_first(l, h)->0),
    ensures
        record(l, h, one) == record(l, h, other),
{
}

/// Recording an entry comes to the same with the test of interest as with
/// the answers that the test gives where it is asked.
pub proof fn lemma_record_answers(l: Listing, h: Header, want: spec_fn(Seq<char>) -> bool)
    ensures
        record(l, h, want) == record(
            l,
            h,
            answers(
                l,
                h,
                asks_path(l, h) && want(h.path->0),
                asks_first(l, h) is Some && want(asks_first(l, h)->0),
            ),
        ),
{
    if asks_first(l, h) is Some {
        lemma_placeholder_is_recorded(l, h.path->0, h);
    }
    lemma_record_asks(
        l,
        h,
        want,
        answers(l, h, asks_path(l, h) && want(h.path->0), asks_first(l, h) is Some && want(asks_first(l, h)->0)),
    );
}

/// Recording an entry adds its path to the recorded paths, where it has
/// one, and no other.
pub proof fn lemma_record_paths(l: Listing, h: Header, want: spec_fn(Seq<char>) -> bool)
    ensures
        forall|p: Seq<char>|
            record(l, h, want).0.tree.contains_key(p) <==> l.tree.contains_key(p) || h.path == Some(p),
{
    match h.path {
        Some(path) => {
            if placeholder(l.tree, path, h) is Some {
                lemma_placeholder_is_recorded(l, path, h);
            }
        },
        None => {},
    }
}

/// Recording an entry leaves the class of every other path as it was, but
/// that it may turn a first member of a group of hard links into a file
/// that has been handed out.
pub proof fn lemma_record_classes(l: Listing, h: Header, want: spec_fn(Seq<char>) -> bool, p: Seq<char>)
    requires
        l.tree.contains_key(p),
    ensures
        record(l, h, want).0.tree.contains_key(p),
        record(l, h, want).0.tree[p] == l.tree[p] || (l.tree[p] is Hardlink && record(l, h, want).0.tree[p] is Handled
            && h.kind is Link),
{
    match h.path {
        Some(path) => {
            if placeholder(l.tree, path, h) is Some {
                lemma_placeholder_is_recorded(l, path, h);
            }
        },
        None => {},
    }
}

/// The links of interest in a listing stay recorded as links when an entry
/// is recorded.
pub proof fn lemma_record_sound(l: Listing, h: Header, want: spec_fn(Seq<char>) -> bool)
    requires
        sound(l),
    ensures
        sound(record(l, h, want).0),
{
    let after = record(l, h, want).0;
    assert forall|i: int| 0 <= i < after.links.len() implies after.tree.contains_key(#[trigger] after.links[i])
        && after.tree[after.links[i]] is Link by {
        if i < l.links.len() {
            assert(after.links[i] == l.links[i]);
            lemma_record_classes(l, h, want, l.links[i]);
        }
    }
}

/// After every read, each link of interest is recorded as a link.
pub proof fn lemma_listing_sound(entries: Seq<Header>, want: spec_fn(Seq<char>) -> bool)
    ensures
        sound(listing_of(entries, want)),
    decreases entries.len(),
{
    if entries.len() > 0 {
        lemma_listing_sound(entries.drop_last(), want);
        lemma_record_sound(listing_of(entries.drop_last(), want), entries.last(), want);
    }
}

/// The paths recorded after a read are the paths of the entries read: each
/// path once, however often the archive holds it.
pub proof fn lemma_listing_paths(entries: Seq<Header>, want: spec_fn(Seq<char>) -> bool)
    ensures
        forall|p: Seq<char>| listing_of(entries, want).tree.contains_key(p) <==> named(entries, p),
    decreases entries.len(),
{
    if entries.len() > 0 {
        let front = entries.drop_last();
        lemma_listing_paths(front, want);
        lemma_record_paths(listing_of(front, want), entries.last(), want);
        assert forall|p: Seq<char>| listing_of(entries, want).tree.contains_key(p) <==> named(entries, p) by {
            if named(front, p) {
                let i = choose|i: int| 0 <= i < front.len() && (#[trigger] front[i]).path == Some(p);
                assert(entries[i].path == Some(p));
            }
            if entries.last().path == Some(p) {
                assert(entries[entries.len() - 1].path == Some(p));
            }
            if named(entries, p) {
                let i = choose|i: int| 0 <= i < entries.len() && (#[trigger] entries[i]).path == Some(p);
                if i < front.len() {
                    assert(front[i].path == Some(p));
                }
            }
        }
    }
}

/// Of two entries with the same path the first wins: the second is passed
/// over as a duplicate, changes nothing in the listing, and has no content
/// handed out.
pub proof fn lemma_duplicate_is_passed_over(entries: Seq<Header>, want: spec_fn(Seq<char>) -> bool, i: int, j: int)
    requires
        0 <= i < j < entries.len(),
        entries[i].path is Some,
        entries[j].path == entries[i].path,
    ensures
        outcome_of_last(entries.take(j + 1), want) == Outcome::Duplicate,
        listing_of(entries.take(j + 1), want) == listing_of(entries.take(j), want),
        delivered(entries.take(j + 1), want) == delivered(entries.take(j), want),
{
    let upto = entries.take(j + 1);
    let front = entries.take(j);
    assert(upto.drop_last() =~= front);
    assert(upto.last() == entries[j]);
    lemma_listing_paths(front, want);
    assert(front[i].path == Some(entries[j].path->0));
    assert(named(front, entries[j].path->0));
}

/// Every entry meets one of three ends: it is recorded if it is the first
/// with its path, passed over as a duplicate if an earlier entry has its
/// path, and passed over as unnamed if it has no path.
pub proof fn lemma_outcomes(entries: Seq<Header>, want: spec_fn(Seq<char>) -> bool)
    ensures
        outcomes(entries, want).len() == entries.len(),
        forall|i: int|
            0 <= i < entries.len() ==> ((#[trigger] outcomes(entries, want)[i]) is Accepted <==> is_first(
                entries,
                i,
            )),
        forall|i: int|
            0 <= i < entries.len() ==> ((#[trigger] outcomes(entries, want)[i]) is Unnamed
                <==> entries[i].path is None),
    decreases entries.len(),
{
    if entries.len() > 0 {
        let front = entries.drop_last();
        let last = entries.last();
        let n = entries.len() - 1;
        let now = outcomes(entries, want);
        let sofar = outcomes(front, want);
        lemma_outcomes(front, want);
        lemma_listing_paths(front, want);
        if last.path is Some && named(front, last.path->0) {
            let j = choose|j: int| 0 <= j < front.len() && (#[trigger] front[j]).path == Some(last.path->0);
            assert(entries[j].path == last.path);
            assert(!is_first(entries, n));
        }
        if last.path is Some && !named(front, last.path->0) {
            assert forall|j: int| 0 <= j < n implies (#[trigger] entries[j]).path != entries[n].path by {
                if entries[j].path == entries[n].path {
                    assert(front[j].path == Some(last.path->0));
                }
            }
            assert(is_first(entries, n));
        }
        assert forall|i: int| 0 <= i < n implies (is_first(front, i) <==> is_first(entries, i)) by {
            assert(front[i] == entries[i]);
            if is_first(front, i) {
                assert forall|j: int| 0 <= j < i implies (#[trigger] entries[j]).path != entries[i].path by {
                    assert(front[j].path != front[i].path);
                }
            }
            if is_first(entries, i) {
                assert forall|j: int| 0 <= j < i implies (#[trigger] front[j]).path != front[i].path by {
                    assert(entries[j].path != entries[i].path);
                }
            }
        }
        assert forall|i: int| 0 <= i < entries.len() implies ((#[trigger] now[i]) is Accepted <==> is_first(
            entries,
            i,
        )) by {
            if i < n {
                assert(now[i] == sofar[i]);
            }
        }
        assert forall|i: int| 0 <= i < entries.len() implies ((#[trigger] now[i]) is Unnamed
            <==> entries[i].path is None) by {
            if i < n {
                assert(now[i] == sofar[i]);
                assert(front[i] == entries[i]);
            }
        }
    }
}

/// The class recorded for a path is the class that its first entry got, but
/// that a first member of a group of hard links may have been filled since.
pub proof fn lemma_first_entry_decides(entries: Seq<Header>, want: spec_fn(Seq<char>) -> bool, i: int)
    requires
        is_first(entries, i),
    ensures
        listing_of(entries, want).tree.contains_key(entries[i].path->0),
        ({
            let now = listing_of(entries, want).tree[entries[i].path->0];
            let then = plain_class(entries[i], want);
            now == then || (then is Hardlink && now is Handled)
        }),
    decreases entries.len(),
{
    let p = entries[i].path->0;
    let front = entries.drop_last();
    let before = listing_of(front, want);
    if i == entries.len() - 1 {
        lemma_listing_paths(front, want);
        if named(front, p) {
            let j = choose|j: int| 0 <= j < front.len() && (#[trigger] front[j]).path == Some(p);
            assert(entries[j].path == Some(p));
        }
        if placeholder(before.tree, p, entries[i]) is Some {
            lemma_placeholder_is_recorded(before, p, entries[i]);
        }
    } else {
        assert(front[i] == entries[i]);
        assert forall|j: int| 0 <= j < i implies (#[trigger] front[j]).path != front[i].path by {
            assert(entries[j].path != entries[i].path);
        }
        lemma_first_entry_decides(front, want, i);
        lemma_record_classes(before, entries.last(), want, p);
    }
}

/// Contents are handed out in the order of the archive, each under one
/// path, and no entry has its content handed out twice.
pub proof fn lemma_delivered_in_order(entries: Seq<Header>, want: spec_fn(Seq<char>) -> bool)
    ensures
        forall|k: int|
            0 <= k < delivered(entries, want).len() ==> 0 <= (#[trigger] delivered(entries, want)[k]).index
                < entries.len() && delivered(entries, want)[k].paths.len() == 1,
        forall|k: int, m: int|
            0 <= k < m < delivered(entries, want).len() ==> (#[trigger] delivered(entries, want)[k]).index
                < (#[trigger] delivered(entries, want)[m]).index,
    decreases entries.len(),
{
    if entries.len() > 0 {
        let now = delivered(entries, want);
        let sofar = delivered(entries.drop_last(), want);
        lemma_delivered_in_order(entries.drop_last(), want);
        assert forall|k: int| 0 <= k < now.len() implies 0 <= (#[trigger] now[k]).index < entries.len()
            && now[k].paths.len() == 1 by {
            if k < sofar.len() {
                assert(now[k] == sofar[k]);
            }
        }
        assert forall|k: int, m: int| 0 <= k < m < now.len() implies (#[trigger] now[k]).index < (
        #[trigger] now[m]).index by {
            assert(now[k] == sofar[k]);
            if m < sofar.len() {
                assert(now[m] == sofar[m]);
            }
        }
    }
}

/// Every path under which a content was handed out is recorded as a file
/// that has been handed out.
pub proof fn lemma_delivered_are_handled(entries: Seq<Header>, want: spec_fn(Seq<char>) -> bool)
    ensures
        forall|k: int|
            0 <= k < delivered(entries, want).len() ==> (#[trigger] delivered(entries, want)[k]).paths.len() == 1
                && listing_of(entries, want).tree.contains_key(delivered(entries, want)[k].paths[0]) && listing_of(
                entries,
                want,
            ).tree[delivered(entries, want)[k].paths[0]] is Handled,
    decreases entries.len(),
{
    if entries.len() > 0 {
        let front = entries.drop_last();
        let last = entries.last();
        let before = listing_of(front, want);
        let after = listing_of(entries, want);
        let now = delivered(entries, want);
        let sofar = delivered(front, want);
        lemma_delivered_are_handled(front, want);
        if last.path is Some && placeholder(before.tree, last.path->0, last) is Some {
            lemma_placeholder_is_recorded(before, last.path->0, last);
        }
        assert forall|k: int| 0 <= k < now.len() implies (#[trigger] now[k]).paths.len() == 1
            && after.tree.contains_key(now[k].paths[0]) && after.tree[now[k].paths[0]] is Handled by {
            if k < sofar.len() {
                assert(now[k] == sofar[k]);
                lemma_record_classes(before, last, want, sofar[k].paths[0]);
            }
        }
    }
}

/// No path has a content handed out under it twice: each file of interest
/// is handed out once, whether its content comes with its own entry or with
/// the entry that closes its group of hard links.
pub proof fn lemma_delivered_once(entries: Seq<Header>, want: spec_fn(Seq<char>) -> bool)
    ensures
        forall|k: int, m: int|
            0 <= k < m < delivered(entries, want).len() ==> (#[trigger] delivered(entries, want)[k]).paths != (
            #[trigger] delivered(entries, want)[m]).paths,
    decreases entries.len(),
{
    if entries.len() > 0 {
        let front = entries.drop_last();
        let last = entries.last();
        let before = listing_of(front, want);
        let now = delivered(entries, want);
        let sofar = delivered(front, want);
        lemma_delivered_once(front, want);
        lemma_delivered_are_handled(front, want);
        if last.path is Some && placeholder(before.tree, last.path->0, last) is Some {
            lemma_placeholder_is_recorded(before, last.path->0, last);
        }
        assert forall|k: int, m: int| 0 <= k < m < now.len() implies (#[trigger] now[k]).paths != (
        #[trigger] now[m]).paths by {
            assert(now[k] == sofar[k]);
            if m < sofar.len() {
                assert(now[m] == sofar[m]);
            } else {
                assert(before.tree.contains_key(sofar[k].paths[0]) && before.tree[sofar[k].paths[0]] is Handled);
                assert(now[m].paths[0] != sofar[k].paths[0]);
            }
        }
    }
}

/// In an archive without links, the contents handed out are those of the
/// regular files of interest: each once, under its own path, in the order of
/// the archive. No link is noted, and every path is recorded with the class
/// of its first entry.
pub proof fn lemma_without_links(entries: Seq<Header>, want: spec_fn(Seq<char>) -> bool)
    requires
        forall|i: int| 0 <= i < entries.len() ==> !((#[trigger] entries[i]).kind is Link),
    ensures
        listing_of(entries, want).links.len() == 0,
        forall|k: int|
            0 <= k < delivered(entries, want).len() ==> is_wanted_file(
                entries,
                want,
                (#[trigger] delivered(entries, want)[k]).index,
            ) && delivered(entries, want)[k].paths == seq![entries[delivered(entries, want)[k].index].path->0],
        forall|i: int| #[trigger]
            is_wanted_file(entries, want, i) ==> exists|k: int|
                0 <= k < delivered(entries, want).len() && (#[trigger] delivered(entries, want)[k]).index == i,
        forall|i: int| #[trigger]
            is_first(entries, i) ==> listing_of(entries, want).tree.contains_key(entries[i].path->0)
                && listing_of(entries, want).tree[entries[i].path->0] == plain_class(entries[i], want),
    decreases entries.len(),
{
    if entries.len() > 0 {
        let front = entries.drop_last();
        let last = entries.last();
        let n = entries.len() - 1;
        let before = listing_of(front, want);
        let now = delivered(entries, want);
        let sofar = delivered(front, want);
        assert forall|i: int| 0 <= i < front.len() implies !((#[trigger] front[i]).kind is Link) by {
            assert(front[i] == entries[i]);
        }
        lemma_without_links(front, want);
        lemma_listing_paths(front, want);
        assert(!(entries[n].kind is Link));
        // whether the last entry is the first with its path
        if last.path is Some && named(front, last.path->0) {
            let j = choose|j: int| 0 <= j < front.len() && (#[trigger] front[j]).path == Some(last.path->0);
            assert(entries[j].path == last.path);
            assert(!is_first(entries, n));
        }
        if last.path is Some && !named(front, last.path->0) {
            assert forall|j: int| 0 <= j < n implies (#[trigger] entries[j]).path != entries[n].path by {
                if entries[j].path == entries[n].path {
                    assert(front[j].path == Some(last.path->0));
                }
            }
            assert(is_first(entries, n));
        }
        assert forall|i: int| 0 <= i < n implies (is_first(front, i) <==> is_first(entries, i)) by {
            assert(front[i] == entries[i]);
            if is_first(front, i) {
                assert forall|j: int| 0 <= j < i implies (#[trigger] entries[j]).path != entries[i].path by {
                    assert(front[j].path != front[i].path);
                }
            }
            if is_first(entries, i) {
                assert forall|j: int| 0 <= j < i implies (#[trigger] front[j]).path != front[i].path by {
                    assert(entries[j].path != entries[i].path);
                }
            }
        }
        assert forall|k: int| 0 <= k < now.len() implies is_wanted_file(entries, want, (#[trigger] now[k]).index)
            && now[k].paths == seq![entries[now[k].index].path->0] by {
            if k < sofar.len() {
                assert(now[k] == sofar[k]);
                assert(is_wanted_file(front, want, sofar[k].index));
                assert(front[sofar[k].index] == entries[sofar[k].index]);
            }
        }
        assert forall|i: int| #[trigger] is_wanted_file(entries, want, i) implies exists|k: int|
            0 <= k < now.len() && (#[trigger] now[k]).index == i by {
            if i < n {
                assert(front[i] == entries[i]);
                assert(is_wanted_file(front, want, i));
                let k = choose|k: int| 0 <= k < sofar.len() && (#[trigger] sofar[k]).index == i;
                assert(now[k] == sofar[k]);
            } else {
                assert(now[now.len() - 1].index == n);
            }
        }
        assert forall|i: int| #[trigger] is_first(entries, i) implies listing_of(entries, want).tree.contains_key(
            entries[i].path->0,
        ) && listing_of(entries, want).tree[entries[i].path->0] == plain_class(entries[i], want) by {
            if i < n {
                assert(front[i] == entries[i]);
                assert(is_first(front, i));
                lemma_record_classes(before, last, want, entries[i].path->0);
            }
        }
    }
}

} // verus!
