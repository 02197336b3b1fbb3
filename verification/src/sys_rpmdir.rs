//! Package names in a bare directory of RPM packages.

use vstd::prelude::*;
use crate::rx::{captures, groups, regex_captures};

verus! {

/// The name of an RPM package file: `<name>-<version>-<release>.<arch>.rpm`.
/// Version, release and architecture hold no dash, so the name parts in one
/// way only. Group 1 is the name, group 2 version and release, group 3 the
/// architecture.
pub const RPM_FILE: &'static str = r"^(.+)-([^-]+-[^-]+)\.([^\.-]+)\.rpm$";

/// Name, version with release, and architecture.
pub type Rpm = (Seq<char>, Seq<char>, Seq<char>);

/// The three parts that the groups of a match of [`RPM_FILE`] give.
pub open spec fn rpm_parts(caps: Seq<Option<Seq<char>>>) -> Option<Rpm> {
    if caps.len() == 4 && caps[1] is Some && caps[2] is Some && caps[3] is Some {
        Some((caps[1]->0, caps[2]->0, caps[3]->0))
    } else {
        None
    }
}

/// The package that the file name `file` names, if it is the name of an RPM
/// package file.
pub open spec fn rpm_named(file: Seq<char>) -> Option<Rpm> {
    match regex_captures(RPM_FILE@, file) {
        Some(caps) => rpm_parts(caps),
        None => None,
    }
}

/// Whether an executable triple of texts is the given model triple.
pub open spec fn rpm_is(r: Option<(&str, &str, &str)>, m: Option<Rpm>) -> bool {
    match r {
        Some((a, b, c)) => m == Some((a@, b@, c@)),
        None => m.is_none(),
    }
}

/// Reads name, version and architecture off the groups of a match of
/// [`RPM_FILE`].
pub fn triple<'a>(caps: &Vec<Option<&'a str>>) -> (r: Option<(&'a str, &'a str, &'a str)>)
    ensures
        rpm_is(r, rpm_parts(groups(caps@))),
{
    if caps.len() != 4 {
        return None;
    }
    match (caps[1], caps[2], caps[3]) {
        (Some(a), Some(b), Some(c)) => Some((a, b, c)),
        _ => None,
    }
}

/// Parts the name of an RPM package file into the package's name, its
/// version with release, and its architecture.
pub fn parse_rpm_name(file: &str) -> (r: Option<(&str, &str, &str)>)
    ensures
        rpm_is(r, rpm_named(file@)),
{
    match captures(RPM_FILE, file) {
        Some(caps) => triple(&caps),
        None => None,
    }
}

/// The models of a vector of strings, as a sequence.
pub open spec fn names_of(v: Seq<String>) -> Seq<Seq<char>> {
    Seq::new(v.len(), |i: int| v[i]@)
}

/// The names of the files among the items of a directory listing, in
/// order.
pub open spec fn files_from(items: Seq<(String, bool)>, i: int) -> Seq<Seq<char>>
    decreases items.len() - i,
{
    if i < 0 || i >= items.len() {
        Seq::empty()
    } else if items[i].1 {
        files_from(items, i + 1)
    } else {
        seq![items[i].0@] + files_from(items, i + 1)
    }
}

/// Picks the files out of a directory listing.
pub fn files_of(items: &Vec<(String, bool)>) -> (r: Vec<String>)
    ensures
        names_of(r@) == files_from(items@, 0),
{
    let mut r: Vec<String> = Vec::new();
    let mut i: usize = 0;
    proof {
        assert(names_of(r@) =~= Seq::empty());
    }
    while i < items.len()
        invariant
            i <= items.len(),
            files_from(items@, 0) == names_of(r@) + files_from(items@, i as int),
        decreases items.len() - i,
    {
        let ghost before = names_of(r@);
        if !items[i].1 {
            r.push(items[i].0.clone());
            proof {
                assert(names_of(r@) =~= before + seq![items@[i as int].0@]);
            }
        }
        i += 1;
    }
    proof {
        assert(names_of(r@) + Seq::<Seq<char>>::empty() =~= names_of(r@));
    }
    r
}

} // verus!
