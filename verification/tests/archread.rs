use indexer::archive::{Entry, FileType};
use indexer::archread::{Delivery, Lost, EntryType, FileList, Links, MissedFiles, Reading, Step};
use indexer::resolve::Broken;

fn links_of(list: FileList) -> (Vec<(String, String)>, Option<MissedFiles>) {
    let Links { found, dropped: _, missed } = list.links();
    (found, missed)
}

fn read_all<F: Fn(&str) -> bool>(entries: &Vec<Entry>, interest: F) -> (FileList, Vec<Delivery>) {
    let Reading { list, steps: _, handed } = FileList::read(entries, interest);
    (list, handed)
}

fn file(path: &str, size: usize) -> Entry {
    Entry { path: Some(path.to_string()), size, nlink: 1, filetype: FileType::File }
}

fn dir(path: &str) -> Entry {
    Entry { path: Some(path.to_string()), size: 0, nlink: 2, filetype: FileType::Directory }
}

fn link(path: &str, target: &str) -> Entry {
    Entry { path: Some(path.to_string()), size: 0, nlink: 1, filetype: FileType::Link(target.to_string()) }
}

fn other(path: &str) -> Entry {
    Entry { path: Some(path.to_string()), size: 0, nlink: 1, filetype: FileType::Other }
}

fn strings(v: &[&str]) -> Vec<String> {
    v.iter().map(|s| s.to_string()).collect()
}

fn is_man(p: &str) -> bool {
    p.starts_with("man/man")
}

// An archive with every kind of link that the resolver has to cope with.
fn test_archive() -> Vec<Entry> {
    vec![
        dir("man"),
        dir("man/man1"),
        link("man/man1/symlinkbefore.1", "../man3/helloworld.3"),
        link("man/man1/badsymlink1.1", "../../../man3/helloworld.3"),
        link("man/man1/badsymlink2.1", "../man3/nonexistent.3"),
        link("man/man1/badsymlink3.1", "../fifo"),
        link("man/man1/badsymlink4.1", "../man3/helloworld.3/further"),
        link("man/man1/badsymlink5.1", "/man/notman/readme/further"),
        link("man/man1/doublesymlink1.1", "symlinkbefore.1"),
        link("man/man1/doublesymlink2.1", "../mans/helloworld.3"),
        link("man/man1/triplesymlink.1", "doublesymlink1.1"),
        link("man/man1/infinitesymlink.1", "infinitesymlink.1"),
        dir("man/man3"),
        file("man/man3/helloworld.3", 12),
        link("man/man3/needreread.3", "../notman/readme"),
        link("man/mans", "man3"),
        dir("man/man6"),
        link("man/man6/hardlink.6", "/man/man3/helloworld.3"),
        link("man/man6/symlinkafter.6", "../man3/helloworld.3"),
        link("man/man6/needreread.6", "/man/notman/readme"),
        dir("man/notman"),
        file("man/notman/readme", 29),
        other("man/fifo"),
    ]
}

fn contents(index: usize) -> &'static str {
    match index {
        13 => "Hello World\n",
        21 => "Potentially interesting file\n",
        _ => "",
    }
}

fn test_read() -> FileList {
    let entries = test_archive();
    let (list, handed) = read_all(&entries, is_man);
    let mut cnt = 0;
    for d in handed.iter() {
        assert_eq!(cnt, 0);
        cnt += 1;
        assert_eq!(d.paths, strings(&["man/man3/helloworld.3"]));
        assert_eq!(entries[d.index].size, 12);
        assert_eq!(contents(d.index), "Hello World\n");
    }
    assert_eq!(cnt, 1);
    list
}

fn test_resolve_links(r: &FileList) {
    let res = |p: &str| {
        if let Some(EntryType::Link(l)) = r.get(p) {
            r.resolve_link(p, &l, 5)
        } else {
            panic!("Not found or not a link: {}", p);
        }
    };
    let helloworld = Some((
        EntryType::Handled,
        vec!["man".to_string(), "man3".to_string(), "helloworld.3".to_string()],
    ));

    assert_eq!(res("man/mans"), Some((EntryType::Directory, vec!["man".to_string(), "man3".to_string()])));
    assert_eq!(res("man/man6/hardlink.6"), helloworld);
    assert_eq!(res("man/man1/symlinkbefore.1"), helloworld);
    assert_eq!(res("man/man6/symlinkafter.6"), helloworld);

    assert_eq!(res("man/man1/badsymlink2.1"), None);
    assert_eq!(res("man/man1/badsymlink3.1"), None);
    assert_eq!(res("man/man1/badsymlink4.1"), None);
    assert_eq!(res("man/man1/badsymlink5.1"), None);

    assert_eq!(res("man/man1/doublesymlink1.1"), helloworld);
    assert_eq!(res("man/man1/doublesymlink2.1"), helloworld);
    assert_eq!(res("man/man1/triplesymlink.1"), helloworld);
    assert_eq!(res("man/man1/infinitesymlink.1"), None);
}

fn test_links(r: FileList) -> Option<MissedFiles> {
    let (mut links, missed) = links_of(r);
    links.sort();

    {
        let mut res = |p: &str| {
            let r = links.remove(0);
            assert_eq!(r.0, p.to_string());
            assert_eq!(r.1, "man/man3/helloworld.3".to_string());
        };
        res("man/man1/badsymlink1.1");
        res("man/man1/doublesymlink1.1");
        res("man/man1/doublesymlink2.1");
        res("man/man1/symlinkbefore.1");
        res("man/man1/triplesymlink.1");
        res("man/man6/hardlink.6");
        res("man/man6/symlinkafter.6");
    }
    assert_eq!(links.len(), 0);
    missed
}

fn test_reread(r: MissedFiles) {
    let entries = test_archive();
    let mut files = Vec::new();
    for d in r.read(&entries).0 {
        let cont = contents(d.index).to_string();
        files.extend(d.paths.iter().map(|x| (x.to_string(), cont.clone())));
    }
    files.sort();

    {
        let mut res = |a: &str, b: &str| {
            let r = files.remove(0);
            assert_eq!(&r.0, a);
            assert_eq!(&r.1, b);
        };
        res("man/man3/needreread.3", "Potentially interesting file\n");
        res("man/man6/needreread.6", "Potentially interesting file\n");
    }
    assert_eq!(files.len(), 0);
}

#[test]
fn test_reader() {
    let r = test_read();
    test_resolve_links(&r);
    let l = test_links(r).unwrap();
    test_reread(l);
}

#[test]
fn no_links_each_wanted_file_once_in_order() {
    let entries = vec![
        dir("man"),
        file("man/man1/a.1", 3),
        file("doc/readme", 4),
        file("man/man1/b.1", 5),
        other("man/man1/dev"),
        file("man/man8/c.8", 0),
    ];
    let (list, handed) = read_all(&entries, is_man);
    assert_eq!(
        handed,
        vec![
            Delivery { index: 1, paths: strings(&["man/man1/a.1"]) },
            Delivery { index: 3, paths: strings(&["man/man1/b.1"]) },
            Delivery { index: 5, paths: strings(&["man/man8/c.8"]) },
        ]
    );
    assert_eq!(list.len(), 6);
    assert_eq!(list.get("man"), Some(EntryType::Directory));
    assert_eq!(list.get("man/man1/a.1"), Some(EntryType::Handled));
    assert_eq!(list.get("doc/readme"), Some(EntryType::Regular));
    assert_eq!(list.get("man/man1/b.1"), Some(EntryType::Handled));
    assert_eq!(list.get("man/man1/dev"), Some(EntryType::Other));
    assert_eq!(list.get("man/man8/c.8"), Some(EntryType::Handled));
    assert_eq!(list.get("man/man1"), None);
    let (links, missed) = links_of(list);
    assert!(links.is_empty());
    assert!(missed.is_none());
}

#[test]
fn duplicate_path_first_wins() {
    let entries = vec![file("man/man1/a.1", 3), file("man/man1/a.1", 7), dir("man/man1/a.1")];
    let (list, handed) = read_all(&entries, is_man);
    assert_eq!(handed, vec![Delivery { index: 0, paths: strings(&["man/man1/a.1"]) }]);
    assert_eq!(list.len(), 1);
    assert_eq!(list.get("man/man1/a.1"), Some(EntryType::Handled));

    let mut list = FileList::new();
    assert_eq!(list.record(&dir("x"), &is_man), Step::Accepted(None));
    assert_eq!(list.record(&file("x", 1), &is_man), Step::Duplicate);
    assert_eq!(list.get("x"), Some(EntryType::Directory));
}

#[test]
fn every_entry_meets_its_end() {
    let unnamed = Entry { path: None, size: 3, nlink: 1, filetype: FileType::File };
    let entries = vec![
        dir("man"),
        unnamed,
        file("man/a", 1),
        file("man/a", 2),
        link("man/l", "a"),
        dir("man"),
        file("man/man1/b.1", 3),
    ];
    let r = FileList::read(&entries, is_man);
    assert_eq!(
        r.steps,
        vec![
            Step::Accepted(None),
            Step::Unnamed,
            Step::Accepted(None),
            Step::Duplicate,
            Step::Accepted(None),
            Step::Duplicate,
            Step::Accepted(Some("man/man1/b.1".to_string())),
        ]
    );
    assert_eq!(r.handed, vec![Delivery { index: 6, paths: strings(&["man/man1/b.1"]) }]);
    assert_eq!(r.list.len(), 4);
}

#[test]
fn unnamed_entry_is_passed_over() {
    let mut list = FileList::new();
    let e = Entry { path: None, size: 3, nlink: 1, filetype: FileType::File };
    assert_eq!(list.record(&e, &is_man), Step::Unnamed);
    assert_eq!(list.len(), 0);
}

#[test]
fn links_before_and_after_target_agree() {
    let entries = vec![
        link("man/man1/before.1", "../man3/t.3"),
        link("man/man1/double.1", "before.1"),
        link("man/man1/triple.1", "double.1"),
        file("man/man3/t.3", 5),
        link("man/man1/after.1", "../man3/t.3"),
    ];
    let (list, handed) = read_all(&entries, is_man);
    assert_eq!(handed, vec![Delivery { index: 3, paths: strings(&["man/man3/t.3"]) }]);
    let want = Some((EntryType::Handled, strings(&["man", "man3", "t.3"])));
    assert_eq!(list.resolve_link("man/man1/before.1", "../man3/t.3", 32), want);
    assert_eq!(list.resolve_link("man/man1/after.1", "../man3/t.3", 32), want);
    assert_eq!(list.resolve_link("man/man1/double.1", "before.1", 32), want);
    assert_eq!(list.resolve_link("man/man1/triple.1", "double.1", 32), want);
    let (links, missed) = links_of(list);
    assert_eq!(
        links,
        vec![
            ("man/man1/before.1".to_string(), "man/man3/t.3".to_string()),
            ("man/man1/double.1".to_string(), "man/man3/t.3".to_string()),
            ("man/man1/triple.1".to_string(), "man/man3/t.3".to_string()),
            ("man/man1/after.1".to_string(), "man/man3/t.3".to_string()),
        ]
    );
    assert!(missed.is_none());
}

fn chain(n: usize) -> Vec<Entry> {
    let mut entries = vec![file("d/target", 1)];
    for i in 0..n {
        let to = if i + 1 == n { "target".to_string() } else { format!("l{}", i + 1) };
        entries.push(link(&format!("d/l{}", i), &to));
    }
    entries
}

#[test]
fn chain_longer_than_the_budget_fails() {
    // l0 -> l1 -> ... -> l32 -> target: 32 links are followed from within l0.
    let (list, _) = read_all(&chain(33), |_p: &str| false);
    assert_eq!(
        list.resolve_link("d/l0", "l1", 32),
        Some((EntryType::Regular, strings(&["d", "target"])))
    );
    assert_eq!(list.resolve_link("d/l0", "l1", 31), None);
    // One link more and the budget of 32 is spent before the file is reached.
    let (list, _) = read_all(&chain(34), |_p: &str| false);
    assert_eq!(list.resolve_link("d/l0", "l1", 32), None);
    assert_eq!(
        list.resolve_link("d/l0", "l1", 33),
        Some((EntryType::Regular, strings(&["d", "target"])))
    );
    let (list, _) = read_all(&chain(34), |_p: &str| true);
    let (links, missed) = links_of(list);
    assert_eq!(links.len(), 33);
    assert_eq!(links[0].0, "d/l1");
    assert!(missed.is_none());
}

#[test]
fn budget_counts_only_links() {
    let (list, _) = read_all(&vec![dir("a"), dir("a/b"), file("a/b/f", 1), link("a/l", "b/f")], is_man);
    assert_eq!(list.resolve_link("a/l", "b/f", 0), Some((EntryType::Regular, strings(&["a", "b", "f"]))));
    assert_eq!(list.resolve_link("a/l", "b", 0), Some((EntryType::Directory, strings(&["a", "b"]))));
    assert_eq!(list.resolve_link("a/x", "l", 0), None);
    assert_eq!(list.resolve_link("a/x", "l", 1), Some((EntryType::Regular, strings(&["a", "b", "f"]))));
}

#[test]
fn cyclic_links_fail() {
    let entries = vec![link("d/self", "self"), link("d/a", "b"), link("d/b", "/d/a")];
    let (list, handed) = read_all(&entries, |_p: &str| true);
    assert!(handed.is_empty());
    assert_eq!(list.resolve_link("d/self", "self", 32), None);
    assert_eq!(list.resolve_link("d/self", "self", 1000), None);
    assert_eq!(list.resolve_link("d/a", "b", 32), None);
    let (links, missed) = links_of(list);
    assert!(links.is_empty());
    assert!(missed.is_none());
}

#[test]
fn resolver_edge_cases() {
    let entries = vec![
        dir("top"),
        file("top/f", 1),
        link("top/up", ".."),
        link("top/d", "sub"),
        dir("top/sub"),
        file("top/sub/g", 1),
        other("top/dev"),
        link("toplink", "top/f"),
        file("rpm/implicit/dir/h", 2),
    ];
    let (list, _) = read_all(&entries, |_p: &str| false);
    // a base that lies in no directory has nothing to resolve against
    assert_eq!(list.resolve_link("toplink", "top/f", 32), None);
    assert_eq!(list.resolve_link("toplink", "/top/f", 32), None);
    // empty components and dots are skipped
    assert_eq!(
        list.resolve_link("top/x", ".//f", 32),
        Some((EntryType::Regular, strings(&["top", "f"])))
    );
    // an empty target names the directory of the link
    assert_eq!(list.resolve_link("top/x", "", 32), Some((EntryType::Directory, strings(&["top"]))));
    // `..` never leaves the first component
    assert_eq!(
        list.resolve_link("top/x", "../../../f", 32),
        Some((EntryType::Regular, strings(&["top", "f"])))
    );
    assert_eq!(list.resolve_link("top/x", "/..", 32), Some((EntryType::Directory, strings(&[]))));
    // a link to a directory is walked through
    assert_eq!(
        list.resolve_link("top/x", "d/g", 32),
        Some((EntryType::Regular, strings(&["top", "sub", "g"])))
    );
    assert_eq!(list.resolve_link("top/x", "d", 32), Some((EntryType::Directory, strings(&["top", "sub"]))));
    // a file is no directory
    assert_eq!(list.resolve_link("top/x", "f/g", 32), None);
    // special and missing files
    assert_eq!(list.resolve_link("top/x", "dev", 32), None);
    assert_eq!(list.resolve_link("top/x", "missing", 32), None);
    // directories without an entry of their own
    assert_eq!(
        list.resolve_link("top/x", "/rpm/implicit/dir/h", 32),
        Some((EntryType::Regular, strings(&["rpm", "implicit", "dir", "h"])))
    );
    assert_eq!(list.resolve_link("top/x", "/rpm/implicit", 32), None);
    // absolute targets start at the root
    assert_eq!(
        list.resolve_link("some/where/else", "/top/sub/g", 32),
        Some((EntryType::Regular, strings(&["top", "sub", "g"])))
    );
}

#[test]
fn link_to_passed_over_file_is_fetched_in_second_read() {
    let entries = vec![
        file("share/doc/page.txt", 9),
        link("man/man1/one.1", "/share/doc/page.txt"),
        link("man/man1/two.1", "/share/doc/page.txt"),
        file("share/doc/other.txt", 9),
        link("man/man5/three.5", "/share/doc/other.txt"),
    ];
    let (list, handed) = read_all(&entries, is_man);
    assert!(handed.is_empty());
    assert_eq!(list.get("share/doc/page.txt"), Some(EntryType::Regular));
    let (links, missed) = links_of(list);
    assert!(links.is_empty());
    let mut missed = missed.unwrap();
    assert!(!missed.is_empty());
    assert_eq!(missed.take("share/doc/nothing"), None);
    let (again, still) = MissedFiles::read(missed_copy(&entries), &entries);
    assert!(still.is_empty());
    assert_eq!(
        again,
        vec![
            Delivery { index: 0, paths: strings(&["man/man1/one.1", "man/man1/two.1"]) },
            Delivery { index: 3, paths: strings(&["man/man5/three.5"]) },
        ]
    );
    assert_eq!(missed.take("share/doc/page.txt"), Some(strings(&["man/man1/one.1", "man/man1/two.1"])));
    assert_eq!(missed.take("share/doc/page.txt"), None);
    assert!(!missed.is_empty());
    assert_eq!(missed.take("share/doc/other.txt"), Some(strings(&["man/man5/three.5"])));
    assert!(missed.is_empty());
}

fn missed_copy(entries: &Vec<Entry>) -> MissedFiles {
    links_of(read_all(entries, is_man).0).1.unwrap()
}

#[test]
fn second_read_delivers_each_file_once_and_may_miss_some() {
    let first = vec![file("doc/a", 1), link("man/man1/a.1", "/doc/a"), file("doc/b", 1), link("man/man1/b.1", "/doc/b")];
    let missed = missed_copy(&first);
    // the second stream repeats doc/a and lacks doc/b
    let second = vec![file("doc/a", 1), file("doc/a", 1), file("doc/c", 1)];
    let (handed, mut still) = missed.read(&second);
    assert_eq!(handed, vec![Delivery { index: 0, paths: strings(&["man/man1/a.1"]) }]);
    assert!(!still.is_empty());
    assert_eq!(still.take("doc/a"), None);
    assert_eq!(still.take("doc/b"), Some(strings(&["man/man1/b.1"])));
    assert!(still.is_empty());
}

#[test]
fn cpio_hardlink_group() {
    let first = Entry { path: Some("man/man1/a.1".to_string()), size: 0, nlink: 3, filetype: FileType::File };
    let middle = Entry {
        path: Some("man/man1/b.1".to_string()),
        size: 0,
        nlink: 3,
        filetype: FileType::Link("/man/man1/a.1".to_string()),
    };
    let closing = Entry {
        path: Some("man/man1/c.1".to_string()),
        size: 12,
        nlink: 3,
        filetype: FileType::Link("/man/man1/a.1".to_string()),
    };
    let entries = vec![first, middle.clone(), middle, closing];
    let (list, handed) = read_all(&entries, is_man);
    assert_eq!(handed, vec![Delivery { index: 3, paths: strings(&["man/man1/a.1"]) }]);
    assert_eq!(list.len(), 3);
    assert_eq!(list.get("man/man1/a.1"), Some(EntryType::Handled));
    assert_eq!(list.get("man/man1/b.1"), Some(EntryType::Link("/man/man1/a.1".to_string())));
    assert_eq!(list.get("man/man1/c.1"), Some(EntryType::Link("/man/man1/a.1".to_string())));
    let (links, missed) = links_of(list);
    assert_eq!(
        links,
        vec![
            ("man/man1/b.1".to_string(), "man/man1/a.1".to_string()),
            ("man/man1/c.1".to_string(), "man/man1/a.1".to_string()),
        ]
    );
    assert!(missed.is_none());
}

#[test]
fn cpio_hardlink_group_of_no_interest() {
    let first = Entry { path: Some("doc/a".to_string()), size: 0, nlink: 2, filetype: FileType::File };
    let closing = Entry {
        path: Some("man/man1/c.1".to_string()),
        size: 12,
        nlink: 2,
        filetype: FileType::Link("/doc/a".to_string()),
    };
    let mut list = FileList::new();
    assert_eq!(list.record(&first, &is_man), Step::Accepted(None));
    assert_eq!(list.get("doc/a"), Some(EntryType::Hardlink));
    assert_eq!(list.record(&closing, &is_man), Step::Accepted(None));
    assert_eq!(list.get("doc/a"), Some(EntryType::Hardlink));
    // the link of interest leads to a first member that was never filled: dropped
    let (links, missed) = links_of(list);
    assert!(links.is_empty());
    assert!(missed.is_none());
}

#[test]
fn hello_world_archive() {
    let entries = vec![
        link("man/man1/symlinkbefore.1", "../man3/helloworld.3"),
        file("man/man3/helloworld.3", 12),
        link("man/man6/hardlink.6", "/man/man3/helloworld.3"),
    ];
    let (list, handed) = read_all(&entries, is_man);
    assert_eq!(handed, vec![Delivery { index: 1, paths: strings(&["man/man3/helloworld.3"]) }]);
    let (links, missed) = links_of(list);
    assert_eq!(
        links,
        vec![
            ("man/man1/symlinkbefore.1".to_string(), "man/man3/helloworld.3".to_string()),
            ("man/man6/hardlink.6".to_string(), "man/man3/helloworld.3".to_string()),
        ]
    );
    assert!(missed.is_none());
}

#[test]
fn recording_with_given_answers() {
    let first = Entry { path: Some("man/man1/a.1".to_string()), size: 0, nlink: 2, filetype: FileType::File };
    let closing = Entry {
        path: Some("man/man1/c.1".to_string()),
        size: 12,
        nlink: 2,
        filetype: FileType::Link("/man/man1/a.1".to_string()),
    };
    let mut list = FileList::new();
    assert_eq!(list.placeholder(&first), None);
    assert_eq!(list.record_answers(&first, true, true), Step::Accepted(None));
    assert_eq!(list.placeholder(&first), None);
    assert_eq!(list.placeholder(&closing), Some("man/man1/a.1".to_string()));
    assert_eq!(list.placeholder(&link("man/man1/d.1", "/man/man1/a.1")), None);
    assert_eq!(list.placeholder(&file("man/man1/e.1", 3)), None);

    let mut unfilled = FileList::new();
    unfilled.record_answers(&first, false, false);
    assert_eq!(unfilled.record_answers(&closing, true, false), Step::Accepted(None));
    assert_eq!(unfilled.get("man/man1/a.1"), Some(EntryType::Hardlink));
    assert_eq!(unfilled.links().dropped, vec![("man/man1/c.1".to_string(), Lost::Unfilled)]);

    assert_eq!(list.record_answers(&closing, false, true), Step::Accepted(Some("man/man1/a.1".to_string())));
    assert_eq!(list.get("man/man1/a.1"), Some(EntryType::Handled));
    assert_eq!(list.placeholder(&closing), None);
    assert_eq!(list.record_answers(&closing, true, true), Step::Duplicate);
    assert_eq!(list.record_answers(&file("doc/x", 1), false, true), Step::Accepted(None));
    assert_eq!(list.record_answers(&file("doc/y", 1), true, false), Step::Accepted(Some("doc/y".to_string())));
    assert_eq!(list.record_answers(&dir("doc"), true, true), Step::Accepted(None));
    assert_eq!(list.record_answers(&link("doc/l", "y"), true, true), Step::Accepted(None));
    assert_eq!(list.get("doc/x"), Some(EntryType::Regular));
    assert_eq!(list.get("doc/y"), Some(EntryType::Handled));
    assert_eq!(list.get("doc"), Some(EntryType::Directory));
    let (links, missed) = links_of(list);
    assert_eq!(links, vec![("doc/l".to_string(), "doc/y".to_string())]);
    assert!(missed.is_none());
}

#[test]
fn broken_links_say_why() {
    let mut entries = chain(34);
    entries.extend(vec![
        dir("top"),
        file("top/f", 1),
        other("top/dev"),
        link("top/self", "self"),
        link("top/tofile", "f"),
        link("top/todev", "dev"),
        link("top/tonothing", "nothing"),
        link("top/todir", "."),
        link("toplink", "top/f"),
    ]);
    let (list, _) = read_all(&entries, |_p: &str| false);
    assert_eq!(list.follow("top/x", "f", 32), Ok((EntryType::Regular, strings(&["top", "f"]))));
    assert_eq!(list.follow("top/x", "todir/f", 32), Ok((EntryType::Regular, strings(&["top", "f"]))));
    assert_eq!(list.follow("top/x", "todir", 32), Ok((EntryType::Directory, strings(&["top"]))));
    assert_eq!(list.follow("toplink", "top/f", 32), Err(Broken::NoDirectory));
    assert_eq!(list.follow("top/x", "self", 32), Err(Broken::DepthExceeded));
    assert_eq!(list.follow("top/x", "self", 0), Err(Broken::DepthExceeded));
    assert_eq!(list.follow("d/l0", "l1", 32), Err(Broken::DepthExceeded));
    assert_eq!(list.follow("top/x", "tofile", 0), Err(Broken::DepthExceeded));
    assert_eq!(list.follow("top/x", "f/g", 32), Err(Broken::NotADirectory));
    assert_eq!(list.follow("top/x", "tofile/g", 32), Err(Broken::NotADirectory));
    assert_eq!(list.follow("top/x", "dev", 32), Err(Broken::Missing));
    assert_eq!(list.follow("top/x", "nothing", 32), Err(Broken::Missing));
    assert_eq!(list.follow("top/x", "todev", 32), Err(Broken::Missing));
    assert_eq!(list.follow("top/x", "tonothing", 32), Err(Broken::Missing));
    assert_eq!(list.follow("top/x", "/toplink", 32), Err(Broken::NoDirectory));
    assert_eq!(list.resolve_link("top/x", "tonothing", 32), None);
    assert_eq!(Broken::NoDirectory.message(), "Link outside of any directory");
    assert_eq!(Broken::DepthExceeded.message(), "Recursion depth exceeded");
    assert_eq!(Broken::NotADirectory.message(), "Non-directory component");
    assert_eq!(Broken::Missing.message(), "Special or non-existing file");
}

#[test]
fn dropped_links_say_why() {
    let entries = vec![
        dir("man"),
        dir("man/man1"),
        file("man/man1/a.1", 1),
        file("man/readme", 1),
        link("man/man1/good.1", "a.1"),
        link("man/man1/late.1", "../readme"),
        link("man/man1/dir.1", "."),
        link("man/man1/self.1", "self.1"),
        link("man/man1/gone.1", "nothing"),
        link("man/man1/deep.1", "a.1/x"),
        link("man/mantop", "man1/a.1"),
        Entry { path: Some("man/first".to_string()), size: 0, nlink: 2, filetype: FileType::File },
        link("man/man1/unfilled.1", "/man/first"),
    ];
    let (list, _) = read_all(&entries, is_man);
    let r = list.links();
    assert_eq!(
        r.found,
        vec![
            ("man/man1/good.1".to_string(), "man/man1/a.1".to_string()),
            ("man/mantop".to_string(), "man/man1/a.1".to_string()),
        ]
    );
    assert_eq!(
        r.dropped,
        vec![
            ("man/man1/dir.1".to_string(), Lost::Directory),
            ("man/man1/self.1".to_string(), Lost::Broken(Broken::DepthExceeded)),
            ("man/man1/gone.1".to_string(), Lost::Broken(Broken::Missing)),
            ("man/man1/deep.1".to_string(), Lost::Broken(Broken::NotADirectory)),
            ("man/man1/unfilled.1".to_string(), Lost::Unfilled),
        ]
    );
    let mut missed = r.missed.unwrap();
    assert_eq!(missed.take("man/readme"), Some(strings(&["man/man1/late.1"])));
    assert!(missed.is_empty());
}
