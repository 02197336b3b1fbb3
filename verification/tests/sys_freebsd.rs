use indexer::sys_freebsd1::{is_category, pair, split_known, splitver, trimext, EXTRA_PKGS};
use indexer::sys_freebsd2::{group_text, is_packagesite, parse_packagesite, SitePkg};

#[test]
fn trimext_strips_package_extensions() {
    assert_eq!(trimext("zsh-5.0.tbz"), "zsh-5.0");
    assert_eq!(trimext("zsh-5.0.tgz"), "zsh-5.0");
    assert_eq!(trimext("zsh-5.0.tgz.tgz"), "zsh-5.0");
    assert_eq!(trimext("zsh-5.0.tbz.tbz.tbz"), "zsh-5.0");
    assert_eq!(trimext("zsh-5.0.tbz.tgz"), "zsh-5.0");
    assert_eq!(trimext("zsh-5.0.tgz.tbz"), "zsh-5.0.tgz");
    assert_eq!(trimext("zsh-5.0.txz"), "zsh-5.0.txz");
    assert_eq!(trimext(".tbz"), "");
    assert_eq!(trimext(""), "");
    assert_eq!(trimext("tbz"), "tbz");
}

#[test]
fn splitver_guesses() {
    assert_eq!(splitver("zsh-5.0.2"), Some(("zsh", "5.0.2")));
    assert_eq!(splitver("pear-PHPUnit-1.3.3"), Some(("pear-PHPUnit", "1.3.3")));
    assert_eq!(splitver("gmime-24-2.4.33"), Some(("gmime", "24-2.4.33")));
    assert_eq!(splitver("foo-bar-baz"), Some(("foo-bar", "baz")));
    assert_eq!(splitver("nodash"), None);
    assert_eq!(splitver("-1"), None);
    assert_eq!(splitver("a-"), None);
    assert_eq!(splitver(""), None);
}

#[test]
fn pair_reads_two_groups() {
    assert_eq!(pair(&vec![Some("a-1"), Some("a"), Some("1")]), Some(("a", "1")));
    assert_eq!(pair(&vec![Some("a-1"), None, Some("1")]), None);
    assert_eq!(pair(&vec![Some("a-1"), Some("a"), None]), None);
    assert_eq!(pair(&vec![Some("a-1"), Some("a")]), None);
    assert_eq!(pair(&vec![]), None);
}

#[test]
fn split_known_prefers_the_longest_name() {
    let pkgs: Vec<String> = ["gmime", "gmime-24", "gmime-24-sharp", "pear", "zsh"].iter().map(|s| s.to_string()).collect();
    let s = |n: &str| split_known(&pkgs, n);
    assert_eq!(s("gmime-24-2.4.33"), Some(("gmime-24".to_string(), "2.4.33".to_string())));
    assert_eq!(s("gmime-24-sharp-2.4"), Some(("gmime-24-sharp".to_string(), "2.4".to_string())));
    assert_eq!(s("gmime-2.2"), Some(("gmime".to_string(), "2.2".to_string())));
    assert_eq!(s("pear-PHPUnit-1.3.3"), Some(("pear".to_string(), "PHPUnit-1.3.3".to_string())));
    assert_eq!(s("zsh-5.0"), Some(("zsh".to_string(), "5.0".to_string())));
    assert_eq!(s("zsh-"), None);
    assert_eq!(s("zsh"), None);
    assert_eq!(s("zshx-1"), None);
    assert_eq!(s("bash-4.3"), None);
    assert_eq!(s(""), None);
    assert_eq!(split_known(&vec![], "zsh-5.0"), None);
    let mut all: Vec<String> = EXTRA_PKGS.iter().map(|s| s.to_string()).collect();
    all.push("pear".to_string());
    assert_eq!(
        split_known(&all, "pear-PHPUnit-1.3.3"),
        Some(("pear-PHPUnit".to_string(), "1.3.3".to_string()))
    );
    assert_eq!(EXTRA_PKGS.len(), 68);
    assert_eq!(EXTRA_PKGS[0], "amanda-client");
    assert_eq!(EXTRA_PKGS[67], "wxgtk2-utils-devel");
}

#[test]
fn categories() {
    assert!(is_category("www", true));
    assert!(!is_category("www", false));
    assert!(!is_category("All", true));
    assert!(!is_category("Latest", true));
    assert!(is_category("all", true));
}

#[test]
fn packagesite_lines() {
    let line = br#"{"name":"zsh","origin":"shells/zsh","version":"5.0.2","comment":"The Z shell","arch":"freebsd:10:x86:64","path":"All/zsh-5.0.2.txz"}"#;
    assert_eq!(
        parse_packagesite(line),
        Some(SitePkg {
            name: "zsh".to_string(),
            version: "5.0.2".to_string(),
            category: "shells".to_string(),
            path: "All/zsh-5.0.2.txz".to_string(),
            arch: "freebsd:10:x86:64".to_string(),
        })
    );
    let spaced = br#"{ "name" : "a", "version": "1", "origin" :"x/a", "path":  "All/a.txz", "arch": "any" }"#;
    assert_eq!(parse_packagesite(spaced).unwrap().category, "x");
    assert_eq!(parse_packagesite(br#"{"name":"zsh","origin":"shells/zsh","version":"5.0.2","path":"All/zsh.txz"}"#), None);
    assert_eq!(parse_packagesite(br#"{"name":"z sh","origin":"shells/zsh","version":"5","arch":"a","path":"p"}"#), None);
    assert_eq!(parse_packagesite(b""), None);
    let whole: &[u8] = b"\"name\":\"x\"";
    let x: &[u8] = b"x";
    let bad: &[u8] = b"\xff";
    assert_eq!(group_text(&vec![Some(whole), Some(x)]), Some("x"));
    assert_eq!(group_text(&vec![Some(whole), Some(bad)]), None);
    assert_eq!(group_text(&vec![Some(whole), None]), None);
    assert_eq!(group_text(&vec![Some(whole)]), None);
    assert!(is_packagesite(Some("packagesite.yaml")));
    assert!(!is_packagesite(Some("packagesite.yaml.pub")));
    assert!(!is_packagesite(None));
}
