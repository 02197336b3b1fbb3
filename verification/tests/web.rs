use indexer::web::{flush, flush_skip, flush_to, grotty2html, pushfmt, CharParse, Flush, FmtBuf, FmtChar};

#[test]
fn overstrikes() {
    let mut s = CharParse::Start;
    assert_eq!(s.update('a'), None);
    assert_eq!(s, CharParse::Token('a', FmtChar::Regular));
    assert_eq!(s.update('\u{8}'), None);
    assert_eq!(s, CharParse::Escape('a', FmtChar::Regular));
    assert_eq!(s.update('a'), None);
    assert_eq!(s, CharParse::Token('a', FmtChar::Bold));
    assert_eq!(s.update('_'), Some(('a', FmtChar::Bold)));
    assert_eq!(s, CharParse::Token('_', FmtChar::Regular));
    assert_eq!(s.update('\u{8}'), None);
    assert_eq!(s.update('b'), None);
    assert_eq!(s, CharParse::Token('b', FmtChar::Italic));
    assert_eq!(s.update('\u{8}'), None);
    assert_eq!(s, CharParse::Escape('b', FmtChar::Italic));
    assert_eq!(s.update('b'), None);
    assert_eq!(s, CharParse::Token('b', FmtChar::Bold));
    assert_eq!(s.update('c'), Some(('b', FmtChar::Bold)));
    assert_eq!(s.update('d'), Some(('c', FmtChar::Regular)));
}

#[test]
fn tags() {
    let t = |a, b| {
        let mut out = b"x".to_vec();
        pushfmt(&mut out, a, b);
        String::from_utf8(out).unwrap()
    };
    assert_eq!(t(FmtChar::Regular, FmtChar::Regular), "x");
    assert_eq!(t(FmtChar::Bold, FmtChar::Bold), "x");
    assert_eq!(t(FmtChar::Regular, FmtChar::Bold), "x<b>");
    assert_eq!(t(FmtChar::Regular, FmtChar::Italic), "x<i>");
    assert_eq!(t(FmtChar::Bold, FmtChar::Regular), "x</b>");
    assert_eq!(t(FmtChar::Italic, FmtChar::Regular), "x</i>");
    assert_eq!(t(FmtChar::Italic, FmtChar::Bold), "x</i><b>");
    assert_eq!(t(FmtChar::Bold, FmtChar::Italic), "x</b><i>");
}

#[test]
fn plain_text_and_escapes() {
    assert_eq!(grotty2html(""), "");
    assert_eq!(grotty2html("a"), "a");
    assert_eq!(grotty2html("hello world\n"), "hello world\n");
    assert_eq!(grotty2html("a<b&c>\"d\""), "a&lt;b&amp;c>\"d\"");
    assert_eq!(grotty2html("Gr\u{fc}\u{df}e \u{4f60}\u{597d}\n"), "Gr\u{fc}\u{df}e \u{4f60}\u{597d}\n");
}

#[test]
fn bold_and_italic() {
    assert_eq!(grotty2html("a\u{8}ab"), "<b>a</b>b");
    assert_eq!(grotty2html("_\u{8}ab"), "<i>a</i>b");
    assert_eq!(grotty2html("xa\u{8}ay"), "x<b>a</b>y");
    assert_eq!(grotty2html("a\u{8}ab\u{8}bc"), "<b>ab</b>c");
    assert_eq!(grotty2html("a\u{8}a_\u{8}bc"), "<b>a</b><i>b</i>c");
    // spaces and underscores take the formatting of what stands before them
    assert_eq!(grotty2html("a\u{8}a b\u{8}bc"), "<b>a b</b>c");
    assert_eq!(grotty2html("a\u{8}a_b\u{8}bc"), "<b>a_b</b>c");
    assert_eq!(grotty2html("_\u{8}a _\u{8}b c"), "<i>a b </i>c");
    assert_eq!(grotty2html("_\u{8}a _\u{8}b c d\u{8}de"), "<i>a b </i>c <b>d</b>e");
    // an underscore struck over an underscore
    assert_eq!(grotty2html("_\u{8}_x"), "_x");
    // bold and italic at once comes out bold
    assert_eq!(grotty2html("_\u{8}a\u{8}ab"), "<b>a</b>b");
    assert_eq!(grotty2html("<\u{8}<x"), "<b>&lt;</b>x");
    // what stands at the very end is set in regular type
    assert_eq!(grotty2html("xa\u{8}a"), "xa");
    assert_eq!(grotty2html("a\u{8}ab\u{8}b"), "ab");
    assert_eq!(grotty2html("a\u{8}a_\u{8}b"), "<b>a</b>b");
    // a backspace at the end takes the character before it along
    assert_eq!(grotty2html("a\u{8}"), "");
    assert_eq!(grotty2html("\u{8}"), "\u{8}");
}

#[test]
fn references() {
    assert_eq!(
        grotty2html("TITLE\nsee ls(1) for\nFOOTER\n"),
        "TITLE\nsee <a href=\"/ls.1\">ls(1)</a> for\nFOOTER\n"
    );
    assert_eq!(
        grotty2html("T\nperl(1), Foo::Bar(3pm), x-y_z.w(n), git-log(1)\nE\n"),
        "T\n<a href=\"/perl.1\">perl(1)</a>, <a href=\"/Foo::Bar.3pm\">Foo::Bar(3pm)</a>, <a href=\"/x-y_z.w.n\">x-y_z.w(n)</a>, <a href=\"/git-log.1\">git-log(1)</a>\nE\n"
    );
    // not on the first line, nor on the last
    assert_eq!(grotty2html("ls(1)\nmiddle\nend\n"), "ls(1)\nmiddle\nend\n");
    assert_eq!(grotty2html("T\nmiddle\nls(1)\n\n\n"), "T\nmiddle\nls(1)\n\n\n");
    assert_eq!(grotty2html("T\nls(1)\nE"), "T\n<a href=\"/ls.1\">ls(1)</a>\nE");
    assert_eq!(grotty2html("T\nls(1)"), "T\nls(1)");
    // not where the text goes on
    assert_eq!(grotty2html("T\nfoo(1)x foo(1)_ foo(1)\u{e9} foo(1).\nE\n"), "T\nfoo(1)x foo(1)_ foo(1)\u{e9} <a href=\"/foo.1\">foo(1)</a>.\nE\n");
    // not every section
    assert_eq!(grotty2html("T\nfoo(0) foo(3x) foo(l)\nE\n"), "T\nfoo(0) foo(3x) <a href=\"/foo.l\">foo(l)</a>\nE\n");
    // formatting goes on around links
    assert_eq!(
        grotty2html("T\nl\u{8}ls\u{8}s(1) x\nE\n"),
        "T\n<a href=\"/ls.1\">ls(1)</a> x\nE\n"
    );
    assert_eq!(
        grotty2html("T\nb\u{8}b ls(1) c\u{8}c\nE\n"),
        "T\n<b>b </b><a href=\"/ls.1\">ls(1)</a> <b>c</b>\nE\n"
    );
}

#[test]
fn addresses() {
    assert_eq!(
        grotty2html("T\nsee http://example.com/page. More\nE\n"),
        "T\nsee <a href=\"http://example.com/page\" rel=\"nofollow\">http://example.com/page</a>. More\nE\n"
    );
    assert_eq!(
        grotty2html("T\n<https://example.com/a(1)b>\nE\n"),
        "T\n&lt;<a href=\"https://example.com/a(1)b\" rel=\"nofollow\">https://example.com/a(1)b</a>>\nE\n"
    );
    assert_eq!(
        grotty2html("T\n(see http://example.com/x);:\nE\n"),
        "T\n(see <a href=\"http://example.com/x\" rel=\"nofollow\">http://example.com/x</a>);:\nE\n"
    );
    assert_eq!(
        grotty2html("T\n\u{27e8}http://example.com/x\u{27e9}\nE\n"),
        "T\n\u{27e8}<a href=\"http://example.com/x\" rel=\"nofollow\">http://example.com/x</a>\u{27e9}\nE\n"
    );
    // too short to be an address
    assert_eq!(grotty2html("T\nhttp://a \nE\n"), "T\nhttp://a \nE\n");
    // ends nowhere
    assert_eq!(grotty2html("T\nA\nhttp://example.com/x"), "T\nA\nhttp://example.com/x");
    // not on the first line
    assert_eq!(grotty2html("http://example.com/x y\nA\nE\n"), "http://example.com/x y\nA\nE\n");
}

#[test]
fn included_pages() {
    assert_eq!(
        grotty2html("[[[MANNEDINCLUDEman1/ls.1]]]\n"),
        ">> Included manual page: <a href=\"/ls.1\">man1/ls.1</a>\n"
    );
    assert_eq!(
        grotty2html("T\n[[[MANNEDINCLUDEgit\u{2010}log.1]]] x\nE\n"),
        "T\n>> Included manual page: <a href=\"/git-log.1\">git\u{2010}log.1</a> x\nE\n"
    );
    // the mark stands at the start of a line, and a name follows it
    assert_eq!(grotty2html("x [[[MANNEDINCLUDEls.1]]]\n"), "x [[[MANNEDINCLUDEls.1]]]\n");
    assert_eq!(grotty2html("[[[MANNEDINCLUDE ls.1]]]\n"), "[[[MANNEDINCLUDE ls.1]]]\n");
    assert_eq!(grotty2html("[[[MANNEDINCLUDEls.1]]\n"), "[[[MANNEDINCLUDEls.1]]\n");
}

#[test]
fn flushing_by_hand() {
    let mut b = FmtBuf::new();
    for (c, f) in [('a', FmtChar::Regular), ('b', FmtChar::Bold), ('<', FmtChar::Bold), ('c', FmtChar::Italic)] {
        b.push(c, f);
    }
    assert_eq!(String::from_utf8(b.flush()).unwrap(), "a<b>b&lt;</b>c");

    let bytes = b"abcdef";
    let marks = vec![(2, FmtChar::Regular), (4, FmtChar::Bold), (6, FmtChar::Regular)];
    assert_eq!(String::from_utf8(flush(bytes, &marks)).unwrap(), "ab<b>cd</b>ef");
    let mut st = Flush { out: Vec::new(), idx: 0, pos: 0 };
    flush_to(bytes, &marks, &mut st, 3);
    assert_eq!((st.out.clone(), st.idx, st.pos), (b"ab<b>c</b>".to_vec(), 3, 1));
    flush_to(bytes, &marks, &mut st, 1);
    assert_eq!((st.out.clone(), st.idx, st.pos), (b"ab<b>c</b>".to_vec(), 3, 1));
    flush_skip(bytes, &marks, &mut st, 4);
    assert_eq!((st.out.clone(), st.idx, st.pos), (b"ab<b>c</b>".to_vec(), 4, 2));
    flush_to(bytes, &marks, &mut st, 6);
    assert_eq!((st.out.clone(), st.idx, st.pos), (b"ab<b>c</b>ef".to_vec(), 6, 3));
    let mut st = Flush { out: Vec::new(), idx: 0, pos: 0 };
    flush_skip(bytes, &marks, &mut st, 6);
    assert_eq!((st.idx, st.pos), (6, 0));
}
