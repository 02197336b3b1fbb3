//! Package names in the repositories of FreeBSD up to 9.2.
//!
//! A package file is named after the package and its version, with a dash
//! between them, and both may hold dashes of their own. Where the package is
//! known by name, that name decides; where it is not, the split is a guess.

use vstd::prelude::*;
use crate::rx::{captures, groups, regex_captures};
use crate::text::{chars_of, copy_range, same_chars, same_text, text_of};

verus! {

/// `s` without the suffix `suffix` at its end, however often it is
/// repeated there.
pub open spec fn without_trailing(s: Seq<char>, suffix: Seq<char>) -> Seq<char>
    decreases s.len(),
{
    if suffix.len() > 0 && suffix.is_suffix_of(s) {
        without_trailing(s.take(s.len() - suffix.len()), suffix)
    } else {
        s
    }
}

/// The name of a package file without the extensions of package files.
pub open spec fn trimmed(n: Seq<char>) -> Seq<char> {
    without_trailing(without_trailing(n, ".tgz"@), ".tbz"@)
}

fn trim_end(s: &Vec<char>, end: usize, suffix: &Vec<char>) -> (r: usize)
    requires
        end <= s.len(),
        suffix.len() > 0,
    ensures
        r <= end,
        s@.take(r as int) == without_trailing(s@.take(end as int), suffix@),
{
    let mut e = end;
    while e >= suffix.len()
        invariant
            e <= end <= s.len(),
            suffix.len() > 0,
            without_trailing(s@.take(end as int), suffix@) == without_trailing(s@.take(e as int), suffix@),
        decreases e,
    {
        let tail = copy_range(s, e - suffix.len(), e);
        proof {
            assert(s@.take(e as int).subrange(e - suffix@.len(), e as int) =~= tail@);
            assert(s@.take(e as int).take(e - suffix@.len()) =~= s@.take(e - suffix@.len()));
        }
        if !same_chars(&tail, suffix) {
            return e;
        }
        e -= suffix.len();
    }
    e
}

/// Strips the extensions of package files off a file name.
pub fn trimext(n: &str) -> (r: String)
    ensures
        r@ == trimmed(n@),
{
    let s = chars_of(n);
    let tgz = chars_of(".tgz");
    let tbz = chars_of(".tbz");
    proof {
        reveal_strlit(".tgz");
        reveal_strlit(".tbz");
        assert(s@.take(s.len() as int) =~= s@);
    }
    let a = trim_end(&s, s.len(), &tgz);
    let b = trim_end(&s, a, &tbz);
    let kept = copy_range(&s, 0, b);
    proof {
        assert(kept@ =~= s@.take(b as int));
    }
    text_of(&kept)
}

/// A name, a dash, and a version that begins with a digit; the name as
/// short as can be.
pub const NAME_AND_NUMBER: &'static str = "^(.+?)-([0-9].*)$";

/// A name, a dash, and a version without a dash.
pub const NAME_AND_REST: &'static str = "^(.+)-([^-]+)$";

/// The two parts that the groups of a match give: groups 1 and 2.
pub open spec fn two_parts(caps: Seq<Option<Seq<char>>>) -> Option<(Seq<char>, Seq<char>)> {
    if caps.len() == 3 && caps[1] is Some && caps[2] is Some {
        Some((caps[1]->0, caps[2]->0))
    } else {
        None
    }
}

/// The two parts that `pattern` finds in `n`.
pub open spec fn parts_by(pattern: Seq<char>, n: Seq<char>) -> Option<(Seq<char>, Seq<char>)> {
    match regex_captures(pattern, n) {
        Some(caps) => two_parts(caps),
        None => None,
    }
}

/// The name and the version that the name of a package file is guessed to
/// be made of: the version begins at the first dash that a digit follows, or
/// else at the last dash.
pub open spec fn guessed(n: Seq<char>) -> Option<(Seq<char>, Seq<char>)> {
    match parts_by(NAME_AND_NUMBER@, n) {
        Some(parts) => Some(parts),
        None => parts_by(NAME_AND_REST@, n),
    }
}

/// Whether an executable pair of texts is the given model pair.
pub open spec fn parts_are(r: Option<(&str, &str)>, m: Option<(Seq<char>, Seq<char>)>) -> bool {
    match r {
        Some((a, b)) => m == Some((a@, b@)),
        None => m.is_none(),
    }
}

/// Reads two parts off the groups of a match.
pub fn pair<'a>(caps: &Vec<Option<&'a str>>) -> (r: Option<(&'a str, &'a str)>)
    ensures
        parts_are(r, two_parts(groups(caps@))),
{
    if caps.len() != 3 {
        return None;
    }
    match (caps[1], caps[2]) {
        (Some(a), Some(b)) => Some((a, b)),
        _ => None,
    }
}

fn split_by<'a>(pattern: &str, n: &'a str) -> (r: Option<(&'a str, &'a str)>)
    ensures
        parts_are(r, parts_by(pattern@, n@)),
{
    match captures(pattern, n) {
        Some(caps) => pair(&caps),
        None => None,
    }
}

/// Guesses where the name of a package file parts into name and version.
pub fn splitver(n: &str) -> (r: Option<(&str, &str)>)
    ensures
        parts_are(r, guessed(n@)),
{
    match split_by(NAME_AND_NUMBER, n) {
        Some(parts) => Some(parts),
        None => split_by(NAME_AND_REST, n),
    }
}

/// Whether the file name `name` is the package name `pkg`, a dash, and
/// something more.
pub open spec fn is_name_of(pkg: Seq<char>, name: Seq<char>) -> bool {
    name.len() > pkg.len() + 1 && pkg.is_prefix_of(name) && name[pkg.len() as int] == '-'
}

fn names(pkg: &Vec<char>, name: &Vec<char>) -> (r: bool)
    ensures
        r == is_name_of(pkg@, name@),
{
    if name.len() < 2 || pkg.len() > name.len() - 2 {
        return false;
    }
    if name[pkg.len()] != '-' {
        return false;
    }
    let head = copy_range(name, 0, pkg.len());
    let r = same_chars(&head, pkg);
    proof {
        if r {
            assert(pkg@ =~= name@.subrange(0, pkg@.len() as int));
        }
        if pkg@.is_prefix_of(name@) {
            assert(head@ =~= pkg@);
        }
    }
    r
}

/// Parts a file name at the longest of the known package names that it
/// begins with.
///
/// Returns that name and what follows the dash after it, or `None` where
/// the file name begins with none of the known names.
pub fn split_known(pkgs: &Vec<String>, name: &str) -> (r: Option<(String, String)>)
    ensures
        match r {
            Some((pkg, ver)) => {
                &&& name@ == pkg@ + seq!['-'] + ver@
                &&& ver@.len() > 0
                &&& exists|i: int| 0 <= i < pkgs.len() && (#[trigger] pkgs[i])@ == pkg@
                &&& forall|i: int|
                    0 <= i < pkgs.len() && is_name_of((#[trigger] pkgs[i])@, name@) ==> pkgs[i]@.len() <= pkg@.len()
            },
            None => forall|i: int| 0 <= i < pkgs.len() ==> !is_name_of((#[trigger] pkgs[i])@, name@),
        },
{
    let n = chars_of(name);
    let mut best: Option<usize> = None;
    let mut len: usize = 0;
    let mut i: usize = 0;
    while i < pkgs.len()
        invariant
            i <= pkgs.len(),
            n@ == name@,
            match best {
                Some(b) => b < i && is_name_of(pkgs[b as int]@, n@) && len == pkgs[b as int]@.len(),
                None => true,
            },
            forall|j: int|
                0 <= j < i && is_name_of((#[trigger] pkgs[j])@, n@) ==> best is Some && pkgs[j]@.len() <= len,
        decreases pkgs.len() - i,
    {
        let p = chars_of(pkgs[i].as_str());
        if names(&p, &n) {
            if best.is_none() || p.len() > len {
                best = Some(i);
                len = p.len();
            }
        }
        i += 1;
    }
    match best {
        Some(b) => {
            let pkg = copy_range(&n, 0, len);
            let ver = copy_range(&n, len + 1, n.len());
            proof {
                assert(pkg@ =~= pkgs[b as int]@);
                assert(n@ =~= pkg@ + seq!['-'] + ver@);
            }
            Some((text_of(&pkg), text_of(&ver)))
        },
        None => None,
    }
}

/// Whether an item of the listing of a repository is a category of
/// packages: a directory other than `All` and `Latest`.
pub fn is_category(name: &str, is_dir: bool) -> (r: bool)
    ensures
        r == (is_dir && name@ != "All"@ && name@ != "Latest"@),
{
    is_dir && !same_text(name, "All") && !same_text(name, "Latest")
}

/// Packages that the listing of the latest packages tends to lack, and whose
/// names would otherwise be taken for a shorter name and the start of a
/// version.
pub const EXTRA_PKGS: [&'static str; 68] = [
    "amanda-client",
    "amanda-server",
    "apache-event",
    "apache-itk",
    "apache-peruser",
    "apache-tomcat",
    "apache-worker",
    "bison-devel",
    "boxbackup-devel",
    "boxbackup-devel",
    "ffmpeg-devel",
    "flex-sdk",
    "fpc-gdb",
    "freeradius-mysql",
    "gdb-insight",
    "glib-reference",
    "gmime-24",
    "gmime-24-sharp",
    "gtk-reference",
    "gtk-sharp",
    "gtkmm-reference",
    "horde-content",
    "horde-groupware",
    "horde-timeobjects",
    "horde-webmail",
    "hping-devel",
    "ja-jvim-direct_canna",
    "ja-mutt-devel",
    "kdelibs-experimental",
    "kdepim-runtime",
    "lame-devel",
    "libdivxdecore-devel",
    "libquicktime-lame",
    "libtorrent-rasterbar",
    "linux-netscape-communicator",
    "mkisofs-devel",
    "mldonkey-core-devel",
    "mldonkey-gui-devel",
    "mod_log_sql-dtc",
    "nethack-qt",
    "nfdump-devel",
    "openssl-beta",
    "pear-PHPUnit",
    "pear-XML_Query2XML",
    "pear-phpunit-PHPUnit",
    "pgadmin3-unicode",
    "proftpd-mod_ldap",
    "proftpd-mod_sql_mysql",
    "proftpd-mod_sql_odbc",
    "proftpd-mod_sql_postgres",
    "proftpd-mod_sql_sqlite",
    "proftpd-mod_sql_tds",
    "qt-static",
    "rsyslog-gnutls",
    "rsyslog-gssapi",
    "rsyslog-libdbi",
    "rsyslog-mysql",
    "rsyslog-pgsql",
    "rsyslog-relp",
    "rsyslog-rfc3195",
    "rsyslog-snmp",
    "samba-libsmbclient",
    "samba-nmblookup",
    "squirrelmail-shared_calendars-plugin",
    "tcl-thread",
    "wxgtk2-common-devel",
    "wxgtk2-contrib-common-devel",
    "wxgtk2-utils-devel",
];

} // verus!
