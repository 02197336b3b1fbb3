use indexer::man::{ismanpath, page, parse_path, sift};

#[test]
fn test_parse_path() {
    // Generic tests
    assert_eq!(parse_path("/"), None);
    assert_eq!(parse_path("/man1/ncdu.1"), None);
    assert_eq!(parse_path("/man/man?/ncdu.1"), None);
    assert_eq!(parse_path("/man/man1/ncdu.1"), Some(("ncdu", "1", "")));
    assert_eq!(parse_path("/man/man1/ncdu.1.gz.lzma.xz.bz2.gz"), Some(("ncdu", "1", ""))); // This stuff happens
    assert_eq!(parse_path("/man/en_US.UTF-8/man1/ncdu.1"), Some(("ncdu", "1", "en_US.UTF-8")));

    // Special cases
    assert_eq!(parse_path("/usr/share/man/man1/INDEX"), None);
    assert_eq!(parse_path("/usr/share/man/man1/Makefile"), None);
    assert_eq!(parse_path("/usr/share/man/man1/Makefile.am"), None);
    assert_eq!(parse_path("/usr/share/man/man1/Makefile.in"), None);
    assert_eq!(parse_path("/usr/share/man/man1/.cvsignore"), None);
    assert_eq!(parse_path("/usr/share/man/man1/.cvsignore.gz"), None);

    // Some actual locations
    assert_eq!(parse_path("/usr/local/man/man1/list_audio_tracks.1.gz"), Some(("list_audio_tracks", "1", "")));
    assert_eq!(parse_path("/usr/local/lib/perl5/site_perl/man/man3/DBIx::Class::Helper::ResultSet::DateMethods1::Announcement.3.gz"), Some(("DBIx::Class::Helper::ResultSet::DateMethods1::Announcement", "3", "")));
    assert_eq!(parse_path("/usr/man/man3/exit.3tk"), Some(("exit", "3tk", "")));
    assert_eq!(parse_path("/usr/local/brlcad/share/man/mann/exit.nged.gz"), Some(("exit", "nged", "")));
    assert_eq!(parse_path("/usr/X11R6/man/man3/intro.3xglut.gz"), Some(("intro", "3xglut", "")));
    assert_eq!(parse_path("/usr/local/share/man/ko_KR.eucKR/man3/intro.3.gz"), Some(("intro", "3", "ko_KR.eucKR")));

    assert_eq!(parse_path("/usr/lib/scilab/man/Man-Part1/man1/ans.1"), Some(("ans", "1", "")));
    assert_eq!(parse_path("/heirloom/usr/share/man/5man/man1/chgrp.1.gz"), Some(("chgrp", "1", "")));

    assert_eq!(parse_path("/usr/local/plan9/man/man8/index.html"), None);
    assert_eq!(parse_path("/usr/local/share/doc/gmt/html/man/grdpaste.html"), None);
}

#[test]
fn ismanpath_follows_parse_path() {
    assert!(ismanpath("man/man3/helloworld.3"));
    assert!(ismanpath("usr/share/man/de/man1/ls.1.gz"));
    assert!(!ismanpath("usr/share/doc/ls/README"));
    assert!(!ismanpath("man/man1/Makefile.in"));
    assert!(!ismanpath(""));
}

#[test]
fn sift_sorts_out_what_is_no_page() {
    assert_eq!(sift("Makefile", "am", ""), None);
    assert_eq!(sift("Makefile", "1", ""), Some(("Makefile", "1", "")));
    assert_eq!(sift(".cvsignore", "1", "de"), None);
    for s in ["in", "gz", "lzma", "bz2", "xz", "html"] {
        assert_eq!(sift("page", s, ""), None);
    }
    for l in [
        "5man", "c", "man1", "man2", "man3", "man4", "man5", "man6", "man7", "man8", "Man-Part1",
        "Man-Part2",
    ] {
        assert_eq!(sift("page", "1", l), Some(("page", "1", "")));
    }
    assert_eq!(sift("page", "1", "C"), Some(("page", "1", "C")));
    assert_eq!(sift("page", "1", "man9"), Some(("page", "1", "man9")));
}

#[test]
fn page_reads_the_groups() {
    assert_eq!(page(&vec![Some("man/man1/a.1"), None, Some("a"), Some("1")]), Some(("a", "1", "")));
    assert_eq!(page(&vec![Some("man/fr/man1/a.1"), Some("fr"), Some("a"), Some("1")]), Some(("a", "1", "fr")));
    assert_eq!(page(&vec![Some("x"), None, None, Some("1")]), None);
    assert_eq!(page(&vec![Some("x"), None, Some("a"), None]), None);
    assert_eq!(page(&vec![Some("x"), None, Some("a")]), None);
    assert_eq!(page(&vec![]), None);
}

use indexer::man::{codec_for_locale, codec_for_tag, codec_from_path, codec_from_tag, decode, validate, Codec, Invalid};

#[test]
fn test_codec_from_path() {
    let t = |p, n| {
        assert_eq!(codec_from_path(p).unwrap().name, n);
    };
    t("man/de_DE.ISO8859-15/man1/scribus.1.gz", "iso-8859-15");
    t("man/de_DE.ISO_8859-1/man1/scribus.1.gz", "windows-1252");
    t("man/ja.UTF-8/man1/test.1", "utf-8");
    t("man/ja_JP/man1/test.1", "euc-jp");
    t("man/ja_JP.EUC/man1/test.1", "euc-jp");
    t("man/ja_JP.SJIS/man1/test.1", "windows-31j");
    t("man/jp.eucJP/man1/test.1", "euc-jp");
    t("man/jp/man1/test.1", "euc-jp");
    t("man/lt.ISO8859-13/man1/test.1", "iso-8859-13");
    t("man/ru/man1/test.1", "koi8-r");
    t("man/ru_RU@Cyr/man1/test.1", "koi8-r");
    t("man/zh_CN/man1/test.1", "gbk");
    t("man/zh_TW/man1/test.1", "big5-2003");
}

#[test]
fn codec_from_path_without_a_usable_locale() {
    assert_eq!(codec_from_path("man/man1/test.1"), None);
    assert_eq!(codec_from_path("man/de/man1/test.1"), None);
    assert_eq!(codec_from_path("man/de.nonsense/man1/test.1"), None);
    assert_eq!(codec_from_path("man/ko.nonsense/man1/test.1").unwrap().name, "windows-949");
    assert_eq!(codec_from_path("man/9x/man1/test.1"), None);
    assert_eq!(codec_from_path("doc/readme"), None);
}

#[test]
fn codec_for_locale_rules() {
    let name = |l, t, e| codec_for_locale(l, t, e).map(|c| c.name);
    for l in ["pl", "cs", "hr", "hu", "sl", "sk"] {
        assert_eq!(name(l, None, None), Some("iso-8859-2".to_string()));
    }
    for l in ["bg", "be", "uk"] {
        assert_eq!(name(l, None, None), Some("iso-8859-5".to_string()));
    }
    assert_eq!(name("el", None, None), Some("iso-8859-7".to_string()));
    assert_eq!(name("et", None, None), Some("iso-8859-15".to_string()));
    assert_eq!(name("tr", None, None), Some("windows-1254".to_string()));
    assert_eq!(name("ko", None, None), Some("windows-949".to_string()));
    assert_eq!(name("zh", Some("cn"), None), Some("gbk".to_string()));
    assert_eq!(name("zh", Some("hk"), None), Some("big5-2003".to_string()));
    assert_eq!(name("zh", None, None), Some("big5-2003".to_string()));
    assert_eq!(name("fr", None, None), None);
    assert_eq!(name("fr", None, Some("eucjp")), Some("euc-jp".to_string()));
    assert_eq!(name("fr", None, Some("ujis")), Some("euc-jp".to_string()));
    assert_eq!(name("ja", None, Some("euc")), Some("euc-jp".to_string()));
    assert_eq!(name("fr", None, Some("euc")), None);
    assert_eq!(name("fr", None, Some("euckr")), Some("windows-949".to_string()));
    assert_eq!(name("ja", None, Some("pck")), Some("windows-31j".to_string()));
    assert_eq!(name("ja", None, Some("jis7")), Some("iso-2022-jp".to_string()));
    assert_eq!(name("ja", None, Some("nonsense")), Some("euc-jp".to_string()));
    assert_eq!(
        codec_for_locale("de", Some("de"), Some("iso8859-15")),
        Some(Codec { label: "iso8859-15".to_string(), name: "iso-8859-15".to_string() })
    );
}

#[test]
fn codec_for_tag_rules() {
    for t in ["us-ascii", "ascii", "utf8", "utf-8", "utf-8-unix", "UTF-8", "Ascii"] {
        assert_eq!(codec_for_tag(t), None);
    }
    assert_eq!(codec_for_tag("latin-1").unwrap().name, "windows-1252");
    assert_eq!(codec_for_tag("Latin-1").unwrap().name, "windows-1252");
    assert_eq!(codec_for_tag("KOI8-R").unwrap().name, "koi8-r");
    assert_eq!(codec_for_tag("euc-kr").unwrap().name, "windows-949");
    assert_eq!(codec_for_tag("no-such-encoding"), None);
    assert_eq!(codec_for_tag("armscii-8"), None);
    assert_eq!(Codec::by_label("big5").unwrap().name, "big5-2003");
    assert_eq!(Codec::by_label("nothing"), None);
}

#[test]
fn codec_from_tag_finds_the_tag() {
    assert_eq!(codec_from_tag(b"'\\\" t -*- coding: ISO-8859-2 -*-\n.TH X 1\n").unwrap().name, "iso-8859-2");
    assert_eq!(codec_from_tag(b".\\\" -*- mode: troff; coding: koi8-r; -*-\n").unwrap().name, "koi8-r");
    assert_eq!(codec_from_tag(b".\\\" -*- coding: utf-8 -*-\n"), None);
    assert_eq!(codec_from_tag(b".TH X 1\ncoding: koi8-r\n"), None);
    assert_eq!(codec_from_tag(b""), None);
}

#[test]
fn validate_sorts_out_what_is_no_page() {
    assert_eq!(validate(b"12345678"), Some(Invalid::TooSmall));
    assert_eq!(validate(b""), Some(Invalid::TooSmall));
    assert_eq!(validate(b"123456789"), None);
    assert_eq!(validate(b".so man3/\n"), Some(Invalid::SoMan3));
    assert_eq!(validate(b".so man3/x\n"), None);
    assert_eq!(validate(b"timestamp\n"), Some(Invalid::Timestamp));
    assert_eq!(validate(b"uELF"), Some(Invalid::TooSmall));
    assert_eq!(validate(b"  \n <html><body>"), Some(Invalid::Html));
    assert_eq!(validate(b"<!DOCTYPE html>"), Some(Invalid::Html));
    assert_eq!(validate(b"<head><title>x</title>"), Some(Invalid::Html));
    assert_eq!(validate(b".TH <html> 1"), None);
    assert_eq!(validate(&vec![b'a'; 20 * 1024 * 1024 - 1]), None);
    assert_eq!(validate(&vec![b'a'; 20 * 1024 * 1024]), Some(Invalid::TooLarge));
    assert_eq!(Invalid::TooLarge.message(), "File too large");
    assert_eq!(Invalid::TooSmall.message(), "File too small");
    assert_eq!(Invalid::SoMan3.message(), "Contents: '.so man3/'");
    assert_eq!(Invalid::Timestamp.message(), "Contents: 'timestamp'");
    assert_eq!(Invalid::Elf.message(), "Looks like an ELF binary");
    assert_eq!(Invalid::Html.message(), "Looks like an HTML file");
}

fn hex(d: &[u8]) -> String {
    d.iter().map(|b| format!("{:02x}", b)).collect()
}

#[test]
fn decode_utf8_page() {
    let d = decode(&["man/man1/abc.1"], b"abc").unwrap_err();
    assert_eq!(d, Invalid::TooSmall);
    let d = decode(&["man/man1/abc.1"], ".TH ABC 1\nGr\u{fc}\u{df}e\n".as_bytes()).unwrap();
    assert_eq!(d.encoding, "utf8");
    assert_eq!(d.text, ".TH ABC 1\nGr\u{fc}\u{df}e\n");
    assert_eq!(d.digest.len(), 20);
    // sha1 of "The quick brown fox jumps over the lazy dog"
    let d = decode(&[], b"The quick brown fox jumps over the lazy dog").unwrap();
    assert_eq!(hex(&d.digest), "2fd4e1c67a2d28fced849ee1bb76e7391b93eb12");
}

#[test]
fn decode_by_tag_path_and_fallback() {
    // "Grüße" in ISO 8859-2 and ISO 8859-1 alike: 0xfc 0xdf
    let tagged = b".\\\" -*- coding: iso-8859-2 -*-\nGr\xfc\xdfe\n";
    let d = decode(&["man/man1/x.1"], tagged).unwrap();
    assert_eq!(d.encoding, "iso-8859-2");
    assert_eq!(d.text, ".\\\" -*- coding: iso-8859-2 -*-\nGr\u{fc}\u{df}e\n");

    // 0xc4 0xe3 0xba 0xc3 is "你好" in GBK
    let page = b".TH X 1\n\xc4\xe3\xba\xc3\n";
    let d = decode(&["nonsense", "/usr/share/man/zh_CN/man3/exit.3.gz"], page).unwrap();
    assert_eq!(d.encoding, "gbk");
    assert_eq!(d.text, ".TH X 1\n\u{4f60}\u{597d}\n");

    // no tag, no locale: every byte is the character with its number
    let d = decode(&["man/man1/x.1"], page).unwrap();
    assert_eq!(d.encoding, "iso-8859-1");
    assert_eq!(d.text, ".TH X 1\n\u{c4}\u{e3}\u{ba}\u{c3}\n");

    // a tag that does not fit the bytes is passed over: 0x80 is nothing in EUC-JP
    let wrong = b".\\\" -*- coding: euc-jp -*-\n\x80\x80\n";
    let d = decode(&["man/ru/man1/x.1"], wrong).unwrap();
    assert_eq!(d.encoding, "koi8-r");
}
