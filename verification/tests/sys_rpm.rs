use indexer::sys_rpm::{job, xml_getattr, Attr, Event, Fault, Index, Job, PkgInfo, PkgReader, RepoMd};
use indexer::sys_rpmdir::{files_of, parse_rpm_name, triple};

fn pair(k: &str, v: &str) -> Attr {
    Attr::Pair(k.to_string(), v.to_string())
}

fn open(name: &str, attrs: Vec<Attr>) -> Event {
    Event::Open(name.to_string(), attrs)
}

fn close(name: &str) -> Event {
    Event::Close(name.to_string())
}

fn text(t: &str) -> Event {
    Event::Text(t.to_string())
}

#[test]
fn rpm_file_names() {
    assert_eq!(parse_rpm_name("zsh-5.0.2-7.el7.x86_64.rpm"), Some(("zsh", "5.0.2-7.el7", "x86_64")));
    assert_eq!(parse_rpm_name("perl-Text-Tabs+Wrap-2013.0523-3.fc20.noarch.rpm"), Some(("perl-Text-Tabs+Wrap", "2013.0523-3.fc20", "noarch")));
    assert_eq!(parse_rpm_name("zsh-5.0.2.x86_64.rpm"), None);
    assert_eq!(parse_rpm_name("zsh-5.0.2-7.el7.x86_64.deb"), None);
    assert_eq!(parse_rpm_name("repodata"), None);
    assert_eq!(triple(&vec![Some("w"), Some("a"), Some("b"), Some("c")]), Some(("a", "b", "c")));
    assert_eq!(triple(&vec![Some("w"), Some("a"), None, Some("c")]), None);
    assert_eq!(triple(&vec![Some("w"), Some("a"), Some("b")]), None);
    let items = vec![("repodata".to_string(), true), ("a.rpm".to_string(), false), ("b.rpm".to_string(), false), ("d".to_string(), true)];
    assert_eq!(files_of(&items), vec!["a.rpm".to_string(), "b.rpm".to_string()]);
    assert_eq!(files_of(&vec![]), Vec::<String>::new());
}

#[test]
fn attributes() {
    let attrs = vec![pair("epoch", "0"), pair("ver", "5.0.2"), Attr::NoText("junk".to_string()), pair("rel", "7"), pair("ver", "6")];
    assert_eq!(xml_getattr(&attrs, "ver"), Ok("5.0.2".to_string()));
    assert_eq!(xml_getattr(&attrs, "rel"), Ok("7".to_string()));
    assert_eq!(xml_getattr(&attrs, "junk"), Err(Fault::NotText));
    assert_eq!(xml_getattr(&attrs, "href"), Err(Fault::NotFound("href")));
    let attrs = vec![pair("a", "1"), Attr::Broken, pair("b", "2")];
    assert_eq!(xml_getattr(&attrs, "a"), Ok("1".to_string()));
    assert_eq!(xml_getattr(&attrs, "b"), Err(Fault::Malformed));
    assert_eq!(xml_getattr(&vec![], "a"), Err(Fault::NotFound("a")));
    assert_eq!(Fault::NotFound("href").message(), "Attribute 'href' not found");
    assert_eq!(Fault::Malformed.message(), "Malformed attribute");
    assert_eq!(Fault::NotText.message(), "Attribute value is not valid UTF-8");
    assert_eq!(Fault::NotANumber.message(), "Build time is not a number");
    assert_eq!(Fault::Empty.message(), "Element without text");
}

#[test]
fn primary_xml() {
    let mut r = PkgReader::new();
    let events = vec![
        open("metadata", vec![pair("packages", "2")]),
        open("package", vec![pair("type", "rpm")]),
        open("name", vec![]),
        text("zsh"),
        close("name"),
        open("arch", vec![]),
        text("x86_64"),
        close("arch"),
        open("version", vec![pair("epoch", "0"), pair("ver", "5.0.2"), pair("rel", "7.el7")]),
        open("summary", vec![]),
        text("Powerful interactive shell"),
        close("summary"),
        open("time", vec![pair("file", "1"), pair("build", "1479627842")]),
        open("location", vec![pair("href", "Packages/zsh-5.0.2-7.el7.x86_64.rpm")]),
        Event::Other,
    ];
    for e in events.iter() {
        assert_eq!(r.step(e), Ok(None));
    }
    let done = r.step(&close("package")).unwrap().unwrap();
    assert_eq!(
        done,
        PkgInfo {
            name: Some("zsh".to_string()),
            arch: Some("x86_64".to_string()),
            ver: Some("5.0.2-7.el7".to_string()),
            date: Some(1479627842),
            path: Some("Packages/zsh-5.0.2-7.el7.x86_64.rpm".to_string()),
            hasman: false,
        }
    );
    assert_eq!(r.pkg, PkgInfo::new());
    assert_eq!(
        job("http://mirror/", &done),
        Some(Job {
            uri: "http://mirror/Packages/zsh-5.0.2-7.el7.x86_64.rpm".to_string(),
            name: "zsh".to_string(),
            ver: "5.0.2-7.el7".to_string(),
            date: "2016-11-20".to_string(),
            arch: "x86_64".to_string(),
        })
    );
    assert_eq!(job("http://mirror/", &PkgInfo { path: None, ..done.clone() }), None);
    assert_eq!(job("http://mirror/", &PkgInfo { date: Some(i64::MAX), ..done.clone() }), None);

    // source packages are left out
    for e in [open("package", vec![]), open("arch", vec![]), text("src"), close("arch")] {
        assert_eq!(r.step(&e), Ok(None));
    }
    assert_eq!(r.step(&close("package")), Ok(None));
    assert_eq!(r.pkg, PkgInfo::new());
}

#[test]
fn filelists_xml() {
    let mut r = PkgReader::new();
    let events = vec![
        open("package", vec![pair("pkgid", "abc"), pair("name", "zsh"), pair("arch", "x86_64")]),
        open("version", vec![pair("epoch", "0"), pair("ver", "5.0.2"), pair("rel", "7.el7")]),
        open("file", vec![]),
        text("/usr/bin/zsh"),
        close("file"),
        open("file", vec![]),
        text("/usr/share/man/man1/zsh.1.gz"),
        close("file"),
        open("file", vec![pair("type", "dir")]),
        text("/usr/share/zsh"),
        close("file"),
    ];
    for e in events.iter() {
        assert_eq!(r.step(e), Ok(None));
    }
    let done = r.step(&close("package")).unwrap().unwrap();
    assert_eq!(done.name, Some("zsh".to_string()));
    assert_eq!(done.arch, Some("x86_64".to_string()));
    assert!(done.hasman);
    // text is kept only where it was asked for
    let mut r = PkgReader::new();
    assert_eq!(r.step(&text("stray")), Ok(None));
    assert_eq!(r.saved, None);
    assert_eq!(r.step(&open("name", vec![])), Ok(None));
    assert!(r.savestr);
    assert_eq!(r.step(&close("other")), Ok(None));
    assert!(!r.savestr);
}

#[test]
fn faults_in_primary_xml() {
    let mut r = PkgReader::new();
    assert_eq!(r.step(&open("version", vec![pair("ver", "1")])), Err(Fault::NotFound("rel")));
    let mut r = PkgReader::new();
    assert_eq!(r.step(&open("version", vec![pair("rel", "1")])), Err(Fault::NotFound("ver")));
    let mut r = PkgReader::new();
    assert_eq!(r.step(&open("location", vec![])), Err(Fault::NotFound("href")));
    let mut r = PkgReader::new();
    assert_eq!(r.step(&open("time", vec![pair("build", "soon")])), Err(Fault::NotANumber));
    let mut r = PkgReader::new();
    assert_eq!(r.step(&open("time", vec![Attr::NoText("build".to_string())])), Err(Fault::NotText));
    let mut r = PkgReader::new();
    assert_eq!(r.step(&open("name", vec![])), Ok(None));
    assert_eq!(r.step(&close("name")), Err(Fault::Empty));
    let mut r = PkgReader::new();
    assert_eq!(r.step(&open("package", vec![Attr::Broken])), Ok(None));
    assert_eq!(r.pkg.name, None);
}

#[test]
fn repomd_xml() {
    let mut r = RepoMd::new();
    let events = vec![
        open("repomd", vec![]),
        open("location", vec![pair("href", "ignored")]),
        open("data", vec![pair("type", "other")]),
        open("location", vec![pair("href", "repodata/other.xml.gz")]),
        close("data"),
        open("data", vec![pair("type", "filelists")]),
        open("checksum", vec![pair("type", "sha256")]),
        text("abc"),
        open("location", vec![pair("href", "repodata/filelists.xml.gz")]),
        close("data"),
        open("data", vec![pair("type", "primary")]),
        open("location", vec![pair("href", "repodata/primary.xml.gz")]),
        close("data"),
    ];
    for e in events.iter() {
        assert_eq!(r.step(e), Ok(()));
    }
    assert_eq!(r.primary, "repodata/primary.xml.gz");
    assert_eq!(r.filelists, "repodata/filelists.xml.gz");
    assert_eq!(r.datatype, Index::Primary);
    assert_eq!(r.step(&open("data", vec![])), Err(Fault::NotFound("type")));
    let mut r = RepoMd::new();
    assert_eq!(r.step(&open("data", vec![pair("type", "primary")])), Ok(()));
    assert_eq!(r.step(&open("location", vec![])), Err(Fault::NotFound("href")));
}
