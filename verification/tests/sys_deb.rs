use indexer::sys_arch::{desc_of, index_url, member, package_url, read_desc, read_files, Event, Member, Meta, Reader};
use indexer::sys_deb::{contents_line, handlepkg, package_uri, Contents, Job, Pkg};

fn strings(v: &[&str]) -> Vec<String> {
    v.iter().map(|s| s.to_string()).collect()
}

#[test]
fn contents_lines() {
    assert_eq!(contents_line("usr/share/man/man1/ls.1.gz utils/coreutils"), strings(&["coreutils"]));
    assert_eq!(contents_line("usr/share/man/man1/ls.1.gz    utils/coreutils,admin/busybox,plain"), strings(&["coreutils", "busybox", "plain"]));
    assert_eq!(contents_line("usr/share/man/man1/a b.1.gz x/y/z"), strings(&["z"]));
    assert_eq!(contents_line("usr/bin/ls utils/coreutils"), strings(&[]));
    assert_eq!(contents_line("usr/share/man/man1/ls.1.gz"), strings(&[]));
    assert_eq!(contents_line(""), strings(&[]));
}

#[test]
fn contents_reader() {
    let mut c = Contents::new();
    assert!(c.wants("anything"));
    c.line(b"This file maps each file available in the Debian system");
    c.line(b"usr/share/man/man1/early.1.gz utils/early");
    assert!(c.wants("early"));
    c.line(b"FILE                                                    LOCATION");
    c.line(b"usr/share/man/man1/ls.1.gz utils/coreutils,admin/busybox");
    c.line(b"usr/bin/zsh shells/zsh");
    c.line(b"usr/share/man/man1/\xff.1.gz shells/broken");
    c.line(b"usr/share/man/man8/cron.8.gz admin/cron");
    assert!(c.wants("coreutils"));
    assert!(c.wants("busybox"));
    assert!(c.wants("cron"));
    assert!(!c.wants("zsh"));
    assert!(!c.wants("early"));
    assert!(!c.wants("broken"));
    assert!(!c.wants("utils/coreutils"));
}

#[test]
fn packages_stanzas() {
    let mut p = Pkg::new();
    assert_eq!(p.line(b"Package: zsh"), None);
    assert_eq!(p.line(b"priority: optional"), None);
    assert_eq!(p.line(b"Section: shells"), None);
    assert_eq!(p.line(b"VERSION : 5.0.2-3"), None);
    assert_eq!(p.line(b"architecture:amd64"), None);
    assert_eq!(p.line(b"Description: a shell"), None);
    assert_eq!(p.line(b" continued: here"), None);
    assert_eq!(p.line(b"#Filename: commented"), None);
    assert_eq!(p.line(b"Filename: pool/main/z/zsh/zsh_5.0.2-3_amd64.deb"), None);
    let done = p.line(b"").unwrap();
    assert_eq!(
        done,
        Pkg {
            name: Some("zsh".to_string()),
            section: Some("shells".to_string()),
            arch: Some("amd64".to_string()),
            version: Some("5.0.2-3".to_string()),
            filename: Some("pool/main/z/zsh/zsh_5.0.2-3_amd64.deb".to_string()),
        }
    );
    assert_eq!(p, Pkg::new());
    assert_eq!(p.line(b"   "), Some(Pkg::new()));
    p.set("PACKAGE", "a");
    p.set("Unknown", "b");
    assert_eq!(p.name, Some("a".to_string()));
    assert_eq!(p.section, None);

    let all = Contents::new();
    assert_eq!(handlepkg(1, "http://m/", &all, &done), Job::Index("http://m/pool/main/z/zsh/zsh_5.0.2-3_amd64.deb".to_string()));
    assert_eq!(handlepkg(1, "http://m/", &all, &Pkg::new()), Job::Skip);
    assert_eq!(handlepkg(1, "http://m/", &all, &Pkg { section: None, ..done.clone() }), Job::Broken("section"));
    assert_eq!(handlepkg(1, "http://m/", &all, &Pkg { version: None, ..done.clone() }), Job::Broken("version"));
    assert_eq!(handlepkg(1, "http://m/", &all, &Pkg { filename: None, ..done.clone() }), Job::Broken("filename"));
    assert_eq!(handlepkg(1, "http://m/", &all, &Pkg { section: None, version: None, ..done.clone() }), Job::Broken("section"));
    let mut some = Contents::new();
    some.line(b"FILE  LOCATION");
    some.line(b"usr/share/man/man1/ls.1.gz utils/coreutils");
    assert_eq!(handlepkg(1, "http://m/", &some, &done), Job::Skip);
    assert_eq!(handlepkg(1, "http://m/", &some, &Pkg { section: None, ..done.clone() }), Job::Skip);
    some.line(b"usr/share/man/man1/zsh.1.gz shells/zsh");
    assert_eq!(handlepkg(1, "http://m/", &some, &Pkg { section: None, ..done.clone() }), Job::Broken("section"));
}

#[test]
fn package_uris() {
    assert_eq!(package_uri(1, "http://m/", "pool/a.deb"), "http://m/pool/a.deb");
    assert_eq!(package_uri(1, "http://m/", "Debian-1.1/a.deb"), "http://m/Debian-1.1/a.deb");
    assert_eq!(package_uri(18, "http://m/", "Debian-1.1/a.deb"), "http://m/dists/Debian-1.1/main/a.deb");
    assert_eq!(package_uri(19, "http://m/", "Debian-1.2/x/a.deb"), "http://m/dists/Debian-1.2/main/x/a.deb");
    assert_eq!(package_uri(18, "http://m/", "Debian-1.3/a.deb"), "http://m/Debian-1.3/a.deb");
    assert_eq!(package_uri(18, "http://m/", "contrib/a.deb"), "http://m/dists/Debian-1.1/contrib/a.deb");
    assert_eq!(package_uri(19, "http://m/", "contrib/a.deb"), "http://m/dists/Debian-1.2/contrib/a.deb");
    assert_eq!(package_uri(20, "http://m/", "contrib/a.deb"), "http://m/contrib/a.deb");
    assert_eq!(package_uri(18, "http://m/", "pool/contrib/a.deb"), "http://m/pool/contrib/a.deb");
}

#[test]
fn arch_desc() {
    let desc = "%FILENAME%\nzsh-5.0.2-1-x86_64.pkg.tar.xz\n\n%NAME%\nzsh\n\n%VERSION%\n5.0.2-1\n\n%DESC%\nA shell\n\n%BUILDDATE%\n1479627842\n\n%ARCH%\nx86_64\n\n";
    assert_eq!(
        read_desc(desc),
        Some(Meta {
            filename: "zsh-5.0.2-1-x86_64.pkg.tar.xz".to_string(),
            name: "zsh".to_string(),
            version: "5.0.2-1".to_string(),
            date: "2016-11-20".to_string(),
            arch: Some("x86_64".to_string()),
        })
    );
    assert_eq!(read_desc("%FILENAME%\nf\n\n%NAME%\nn\n\n%VERSION%\nv\n\n%BUILDDATE%\n0\n\n").unwrap().arch, None);
    assert_eq!(read_desc("%FILENAME%\nf\n\n%NAME%\nn\n\n%VERSION%\nv\n\n%BUILDDATE%\n0\n\n").unwrap().date, "1970-01-01");
    assert_eq!(read_desc("%FILENAME%\nf\n\n%NAME%\nn\n\n%VERSION%\nv\n\n"), None);
    assert_eq!(read_desc("%FILENAME%\nf\n\n%NAME%\nn\n\n%VERSION%\nv\n\n%BUILDDATE%\nsoon\n\n"), None);
    assert_eq!(read_desc("%FILENAME%\nf\n\n%NAME%\nn\n\n%VERSION%\nv\n\n%BUILDDATE%\n1\n\n%BUILDDATE%\nsoon\n\n"), None);
    assert_eq!(read_desc("%NAME%\nn\n\n%VERSION%\nv\n\n%BUILDDATE%\n0\n\n"), None);
    assert_eq!(read_desc(""), None);
    let found = vec![
        vec![Some("w"), Some("NAME"), Some("a")],
        vec![Some("w"), Some("NAME"), Some("b")],
        vec![Some("w"), Some("FILENAME"), Some("f")],
        vec![Some("w"), Some("VERSION"), Some("1")],
        vec![Some("w"), None, Some("1")],
        vec![Some("w"), Some("BUILDDATE"), Some("86400")],
        vec![Some("w"), Some("OTHER"), Some("x")],
    ];
    let m = desc_of(&found).unwrap();
    assert_eq!(m.name, "b");
    assert_eq!(m.date, "1970-01-02");
}

#[test]
fn arch_index() {
    assert_eq!(member(true, Some("zsh-5.0.2-1")), Member::Directory);
    assert_eq!(member(true, Some("zsh-5.0.2-1/files")), Member::Directory);
    assert_eq!(member(false, Some("zsh-5.0.2-1/files")), Member::Files);
    assert_eq!(member(false, Some("zsh-5.0.2-1/desc")), Member::Desc);
    assert_eq!(member(false, Some("zsh-5.0.2-1/depends")), Member::Other);
    assert_eq!(member(false, Some("files")), Member::Other);
    assert_eq!(member(false, None), Member::Other);
    assert!(read_files(&strings(&["%FILES%", "usr/", "usr/share/man/man1/zsh.1.gz"])));
    assert!(!read_files(&strings(&["%FILES%", "usr/", "usr/bin/zsh"])));
    assert!(!read_files(&vec![]));
    assert_eq!(index_url("http://m", "core"), "http://m/core/os/x86_64/core.files.tar.gz");
    assert_eq!(package_url("http://m", "core", "zsh.pkg.tar.xz"), "http://m/core/os/x86_64/zsh.pkg.tar.xz");

    let meta = Meta { filename: "f".to_string(), name: "n".to_string(), version: "v".to_string(), date: "d".to_string(), arch: None };
    let mut r = Reader::new();
    assert_eq!(r.step(Event::Directory), None);
    assert_eq!(r.step(Event::Desc(Some(meta.clone()))), None);
    assert_eq!(r.step(Event::Other), None);
    assert_eq!(r.step(Event::Files(true)), Some(meta.clone()));
    assert!(!r.hasman);
    assert_eq!(r.meta, None);
    assert_eq!(r.step(Event::Files(true)), None);
    assert_eq!(r.step(Event::Desc(None)), None);
    assert_eq!(r.step(Event::Desc(Some(meta.clone()))), Some(meta.clone()));
    assert_eq!(r.step(Event::Files(false)), None);
    assert_eq!(r.step(Event::Desc(Some(meta.clone()))), None);
    assert_eq!(r.step(Event::Directory), None);
    assert_eq!(r.meta, None);
    assert_eq!(r.step(Event::Files(true)), None);
    assert_eq!(r.step(Event::Directory), None);
    assert!(!r.hasman);
}
