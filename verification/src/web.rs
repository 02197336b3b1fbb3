//! Manual pages as `grotty` writes them, turned into HTML.
//!
//! `grotty` marks a bold or italic character the way typewriters did: by
//! overstriking. The text is first read character by character and freed of
//! the overstrikes; what is left is escaped for HTML and kept in a buffer with
//! the places where the formatting changes. The buffer is then written out
//! with tags for the formatting, and with links for the references to other
//! manual pages, the addresses on the web and the marks of included pages
//! that are found in it.

use vstd::prelude::*;
use vstd::utf8::encode_utf8;
use crate::rx::{
    captures_bytes, find_all_bytes, find_bytes, regex_captures_bytes, regex_find_all_bytes,
    regex_find_bytes,
};
use crate::text::{alphanumeric, is_alphanumeric, lossy, lossy_text};

verus! {

/// How a character is set.
#[derive(Clone, Copy, Debug, PartialEq, Eq, Structural)]
pub enum FmtChar {
    Regular,
    Italic,
    Bold,
}

/// The reader of overstruck text. An underscore, a backspace and a
/// character make the character italic; any other character, a backspace and
/// a character make the second character bold.
#[derive(Clone, Copy, Debug, PartialEq, Eq, Structural)]
pub enum CharParse {
    /// Nothing has been read.
    Start,
    /// A character has been read, which may yet be struck over.
    Token(char, FmtChar),
    /// A character and a backspace after it have been read.
    Escape(char, FmtChar),
}

/// The reader after one more character, and the character that is complete
/// with it, if one is, with its formatting.
pub open spec fn parse_step(state: CharParse, chr: char) -> (CharParse, Option<(char, FmtChar)>) {
    match state {
        CharParse::Start => (CharParse::Token(chr, FmtChar::Regular), None),
        CharParse::Token(c, f) => if chr == '\u{8}' {
            (CharParse::Escape(c, f), None)
        } else {
            (CharParse::Token(chr, FmtChar::Regular), Some((c, f)))
        },
        CharParse::Escape(c, _) => (
            CharParse::Token(
                chr,
                if c == '_' {
                    FmtChar::Italic
                } else {
                    FmtChar::Bold
                },
            ),
            None,
        ),
    }
}

impl CharParse {
    /// Reads one more character.
    ///
    /// Returns the character that is complete with it, if one is, with its
    /// formatting.
    pub fn update(&mut self, chr: char) -> (r: Option<(char, FmtChar)>)
        ensures
            (*final(self), r) == parse_step(*old(self), chr),
    {
        match *self {
            CharParse::Start => {
                *self = CharParse::Token(chr, FmtChar::Regular);
                None
            },
            CharParse::Token(c, f) => {
                if chr == '\u{8}' {
                    *self = CharParse::Escape(c, f);
                    None
                } else {
                    *self = CharParse::Token(chr, FmtChar::Regular);
                    Some((c, f))
                }
            },
            CharParse::Escape(c, _) => {
                *self = CharParse::Token(
                    chr,
                    if c == '_' {
                        FmtChar::Italic
                    } else {
                        FmtChar::Bold
                    },
                );
                None
            },
        }
    }
}

/// The bytes of a text of ASCII characters.
pub open spec fn ascii(text: Seq<char>) -> Seq<u8> {
    Seq::new(text.len(), |i: int| text[i] as u8)
}

/// The tag that ends the formatting `f`.
pub open spec fn closing(f: FmtChar) -> Seq<u8> {
    match f {
        FmtChar::Regular => Seq::empty(),
        FmtChar::Italic => ascii("</i>"@),
        FmtChar::Bold => ascii("</b>"@),
    }
}

/// The tag that begins the formatting `f`.
pub open spec fn opening(f: FmtChar) -> Seq<u8> {
    match f {
        FmtChar::Regular => Seq::empty(),
        FmtChar::Italic => ascii("<i>"@),
        FmtChar::Bold => ascii("<b>"@),
    }
}

/// The tags that lead from the formatting `from` to the formatting `to`.
pub open spec fn change(from: FmtChar, to: FmtChar) -> Seq<u8> {
    if to == from {
        Seq::empty()
    } else {
        closing(from) + opening(to)
    }
}

/// Appends the bytes of an ASCII text.
pub fn push_ascii(out: &mut Vec<u8>, text: &str)
    requires
        text.is_ascii(),
    ensures
        final(out)@ == old(out)@ + ascii(text@),
{
    let bytes = text.as_bytes();
    proof {
        vstd::string::is_ascii_spec_bytes(text);
        assert(bytes@ =~= ascii(text@));
    }
    push_bytes(out, bytes);
}

/// Appends bytes.
pub fn push_bytes(out: &mut Vec<u8>, bytes: &[u8])
    ensures
        final(out)@ == old(out)@ + bytes@,
{
    let mut i: usize = 0;
    while i < bytes.len()
        invariant
            i <= bytes.len(),
            out@ == old(out)@ + bytes@.take(i as int),
        decreases bytes.len() - i,
    {
        out.push(bytes[i]);
        i += 1;
        proof {
            assert(out@ =~= old(out)@ + bytes@.take(i as int));
        }
    }
    proof {
        assert(bytes@.take(bytes.len() as int) =~= bytes@);
    }
}

/// Writes the tags that lead from one formatting to another.
pub fn pushfmt(out: &mut Vec<u8>, from: FmtChar, to: FmtChar)
    ensures
        final(out)@ == old(out)@ + change(from, to),
{
    proof {
        reveal_strlit("</i>");
        reveal_strlit("</b>");
        reveal_strlit("<i>");
        reveal_strlit("<b>");
    }
    let ghost start = out@;
    if to != from && from != FmtChar::Regular {
        push_ascii(
            out,
            if from == FmtChar::Italic {
                "</i>"
            } else {
                "</b>"
            },
        );
    }
    let ghost mid = out@;
    assert(mid =~= start + (if to == from {
        Seq::<u8>::empty()
    } else {
        closing(from)
    }));
    if to != from && to != FmtChar::Regular {
        push_ascii(
            out,
            if to == FmtChar::Italic {
                "<i>"
            } else {
                "<b>"
            },
        );
    }
    assert(out@ =~= start + change(from, to));
}

/// The UTF-8 encoding of two texts, one after the other, is the encoding
/// of the first followed by the encoding of the second.
pub proof fn lemma_encode_concat(a: Seq<char>, b: Seq<char>)
    ensures
        encode_utf8(a + b) == encode_utf8(a) + encode_utf8(b),
    decreases a.len(),
{
    if a.len() == 0 {
        assert(a + b =~= b);
        assert(encode_utf8(a) =~= Seq::<u8>::empty());
        assert(encode_utf8(a) + encode_utf8(b) =~= encode_utf8(b));
    } else {
        lemma_encode_concat(a.drop_first(), b);
        assert((a + b).drop_first() =~= a.drop_first() + b);
        assert((a + b)[0] == a[0]);
        assert(encode_utf8(a + b) =~= encode_utf8(a) + encode_utf8(b));
    }
}

/// A place in the buffer where the formatting changes: the number of bytes
/// before it, and the formatting of the text that ends there.
pub type Mark = (usize, FmtChar);

/// The model of a [`FmtBuf`].
pub struct Buffer {
    /// The text, escaped for HTML.
    pub text: Seq<char>,
    /// Where the formatting changes.
    pub marks: Seq<Mark>,
    /// The formatting of the text after the last mark.
    pub last: FmtChar,
}

/// What a character is written as in HTML.
pub open spec fn escaped(chr: char) -> Seq<char> {
    if chr == '<' {
        "&lt;"@
    } else if chr == '&' {
        "&amp;"@
    } else {
        seq![chr]
    }
}

/// Whether a character with the formatting `fmt` changes the formatting
/// of a buffer whose last formatting is `last`. Spaces and underscores never
/// do: they look the same in every formatting.
pub open spec fn turns(last: FmtChar, chr: char, fmt: FmtChar) -> bool {
    last != fmt && !(chr == ' ' || chr == '_')
}

/// The buffer with one more character.
pub open spec fn pushed(b: Buffer, chr: char, fmt: FmtChar) -> Buffer {
    Buffer {
        text: b.text + escaped(chr),
        marks: if turns(b.last, chr, fmt) {
            b.marks.push((encode_utf8(b.text).len() as usize, b.last))
        } else {
            b.marks
        },
        last: if turns(b.last, chr, fmt) {
            fmt
        } else {
            b.last
        },
    }
}

/// Whether the marks are in order and within `len` bytes.
pub open spec fn in_order(marks: Seq<Mark>, len: int) -> bool {
    &&& forall|i: int, j: int| 0 <= i <= j < marks.len() ==> (#[trigger] marks[i]).0 <= (#[trigger] marks[j]).0
    &&& forall|i: int| 0 <= i < marks.len() ==> (#[trigger] marks[i]).0 <= len
}

/// The buffer between the reading and the writing: the text, escaped for
/// HTML, and the places where its formatting changes.
pub struct FmtBuf {
    buf: String,
    fmt: Vec<Mark>,
    lastfmt: FmtChar,
}

impl FmtBuf {
    /// The model of the buffer.
    pub closed spec fn view(&self) -> Buffer {
        Buffer { text: self.buf@, marks: self.fmt@, last: self.lastfmt }
    }

    /// An empty buffer.
    pub fn new() -> (r: FmtBuf)
        ensures
            r@ == (Buffer { text: Seq::empty(), marks: Seq::empty(), last: FmtChar::Regular }),
            in_order(r@.marks, encode_utf8(r@.text).len() as int),
    {
        FmtBuf { buf: String::new(), fmt: Vec::new(), lastfmt: FmtChar::Regular }
    }

    /// Appends a character with its formatting.
    pub fn push(&mut self, chr: char, fmt: FmtChar)
        ensures
            final(self)@ == pushed(old(self)@, chr, fmt),
            in_order(old(self)@.marks, encode_utf8(old(self)@.text).len() as int) ==> in_order(
                final(self)@.marks,
                encode_utf8(final(self)@.text).len() as int,
            ),
    {
        let n = self.buf.as_str().as_bytes().len();
        proof {
            lemma_encode_concat(self.buf@, escaped(chr));
            assert(n == encode_utf8(self.buf@).len());
        }
        if self.lastfmt != fmt && !(chr == ' ' || chr == '_') {
            self.fmt.push((n, self.lastfmt));
            self.lastfmt = fmt;
            proof {
                if in_order(old(self).fmt@, n as int) {
                    assert forall|i: int, j: int| 0 <= i <= j < self.fmt@.len() implies (#[trigger] self.fmt@[i]).0 <= (
                    #[trigger] self.fmt@[j]).0 by {
                        if j < old(self).fmt@.len() {
                            assert(self.fmt@[i] == old(self).fmt@[i]);
                            assert(self.fmt@[j] == old(self).fmt@[j]);
                        } else if i < old(self).fmt@.len() {
                            assert(self.fmt@[i] == old(self).fmt@[i]);
                        }
                    }
                    assert(in_order(self.fmt@, n as int));
                }
            }
        }
        let ghost marked = self.fmt@;
        if chr == '<' {
            self.buf.append("&lt;");
        } else if chr == '&' {
            self.buf.append("&amp;");
        } else {
            self.buf.push(chr);
            proof {
                assert(self.buf@ =~= old(self).buf@ + seq![chr]);
            }
        }
        proof {
            assert(self.fmt@ == marked);
            assert(encode_utf8(self.buf@).len() >= n);
        }
    }
}

/// How far the writing has come.
pub struct Flush {
    /// What has been written.
    pub out: Vec<u8>,
    /// The number of bytes of the buffer that are done with.
    pub idx: usize,
    /// The number of marks that are done with.
    pub pos: usize,
}

/// The model of a [`Flush`].
pub struct Cursor {
    pub out: Seq<u8>,
    pub idx: int,
    pub pos: int,
}

impl View for Flush {
    type V = Cursor;

    open spec fn view(&self) -> Cursor {
        Cursor { out: self.out@, idx: self.idx as int, pos: self.pos as int }
    }
}

/// Whether the cursor fits the marks: the marks before it end at or before
/// its place in the text, and the marks from it on end at or after that
/// place.
pub open spec fn fits(marks: Seq<Mark>, len: int, c: Cursor) -> bool {
    &&& 0 <= c.idx <= len
    &&& 0 <= c.pos <= marks.len()
    &&& forall|k: int| 0 <= k < c.pos ==> (#[trigger] marks[k]).0 <= c.idx
    &&& c.idx < len ==> forall|k: int| c.pos <= k < marks.len() ==> (#[trigger] marks[k]).0 >= c.idx
}

/// Whether the marks are complete: in order, and the last one at the end
/// of the text.
pub open spec fn complete(marks: Seq<Mark>, len: int) -> bool {
    in_order(marks, len) && marks.len() > 0 && marks.last().0 == len
}

/// The cursor after the text up to `end` has been written from the place
/// `idx` on, mark by mark, the text before having the formatting `last`.
pub open spec fn written(
    bytes: Seq<u8>,
    marks: Seq<Mark>,
    out: Seq<u8>,
    idx: int,
    pos: int,
    end: int,
    last: FmtChar,
) -> Cursor
    decreases marks.len() - pos,
{
    if idx < end && 0 <= pos < marks.len() {
        let chunk = marks[pos].0 as int;
        let fmt = marks[pos].1;
        if chunk > end {
            Cursor {
                out: out + change(last, fmt) + bytes.subrange(idx, end) + change(fmt, FmtChar::Regular),
                idx: end,
                pos,
            }
        } else {
            written(bytes, marks, out + change(last, fmt) + bytes.subrange(idx, chunk), chunk, pos + 1, end, fmt)
        }
    } else {
        Cursor { out: out + change(last, FmtChar::Regular), idx, pos }
    }
}

/// The cursor after the text up to `end` has been written, with the tags
/// for its formatting. The writing ends in regular formatting.
pub open spec fn flushed_to(bytes: Seq<u8>, marks: Seq<Mark>, c: Cursor, end: int) -> Cursor {
    written(bytes, marks, c.out, c.idx, c.pos, end, FmtChar::Regular)
}

/// The number of marks done with once the text up to `idx` is done with.
pub open spec fn skipped(marks: Seq<Mark>, len: int, idx: int, pos: int) -> int
    decreases marks.len() - pos,
{
    if idx < len && 0 <= pos < marks.len() && marks[pos].0 <= idx {
        skipped(marks, len, idx, pos + 1)
    } else {
        pos
    }
}

/// The cursor after the text up to `end` has been passed over.
pub open spec fn skipped_to(marks: Seq<Mark>, len: int, c: Cursor, end: int) -> Cursor {
    Cursor { out: c.out, idx: end, pos: skipped(marks, len, end, c.pos) }
}

/// Writes the text from where the cursor is up to `end`, with the tags for
/// its formatting.
pub fn flush_to(bytes: &[u8], marks: &Vec<Mark>, st: &mut Flush, end: usize)
    requires
        end <= bytes.len(),
        complete(marks@, bytes@.len() as int),
        fits(marks@, bytes@.len() as int, old(st)@),
    ensures
        final(st)@ == flushed_to(bytes@, marks@, old(st)@, end as int),
        fits(marks@, bytes@.len() as int, final(st)@),
        final(st).idx == if old(st).idx < end {
            end
        } else {
            old(st).idx
        },
{
    let mut lastfmt = FmtChar::Regular;
    let ghost len = bytes@.len() as int;
    while st.idx < end
        invariant
            end <= bytes.len(),
            len == bytes@.len(),
            complete(marks@, len),
            fits(marks@, len, st@),
            old(st).idx <= st.idx,
            old(st).idx < end ==> st.idx <= end,
            flushed_to(bytes@, marks@, old(st)@, end as int) == written(
                bytes@,
                marks@,
                st.out@,
                st.idx as int,
                st.pos as int,
                end as int,
                lastfmt,
            ),
        decreases marks.len() - st.pos, end - st.idx,
    {
        proof {
            if st.pos >= marks.len() {
                assert(marks@[marks.len() - 1].0 <= st.idx);
            }
        }
        let (chunk, fmt) = marks[st.pos];
        let stop = if chunk > end {
            end
        } else {
            st.pos = st.pos + 1;
            chunk
        };
        pushfmt(&mut st.out, lastfmt, fmt);
        push_bytes(&mut st.out, &bytes[st.idx..stop]);
        st.idx = stop;
        lastfmt = fmt;
        proof {
            if chunk > end {
                assert(written(bytes@, marks@, st.out@, end as int, st.pos as int, end as int, fmt).out =~= st.out@
                    + change(fmt, FmtChar::Regular));
            }
        }
    }
    pushfmt(&mut st.out, lastfmt, FmtChar::Regular);
}

/// Passes over the text from where the cursor is up to `end`.
pub fn flush_skip(bytes: &[u8], marks: &Vec<Mark>, st: &mut Flush, end: usize)
    requires
        old(st).idx <= end <= bytes.len(),
        complete(marks@, bytes@.len() as int),
        fits(marks@, bytes@.len() as int, old(st)@),
    ensures
        final(st)@ == skipped_to(marks@, bytes@.len() as int, old(st)@, end as int),
        fits(marks@, bytes@.len() as int, final(st)@),
        final(st).idx == end,
{
    st.idx = end;
    let ghost len = bytes@.len() as int;
    while st.idx < bytes.len() && marks[st.pos].0 <= st.idx
        invariant
            st.idx == end <= bytes.len(),
            len == bytes@.len(),
            st.out == old(st).out,
            complete(marks@, len),
            st.pos <= marks.len(),
            forall|k: int| 0 <= k < st.pos ==> (#[trigger] marks@[k]).0 <= st.idx,
            st.idx < len ==> st.pos < marks.len(),
            skipped(marks@, len, end as int, old(st).pos as int) == skipped(marks@, len, end as int, st.pos as int),
        decreases marks.len() - st.pos,
    {
        st.pos = st.pos + 1;
        proof {
            if st.pos >= marks.len() {
                assert(marks@[marks.len() - 1].0 <= st.idx);
            }
        }
    }
}

/// `b` from byte `i` on, with a minus sign for every hyphen: `groff` turns
/// the dashes in the names of files into hyphens, U+2010, which is the bytes
/// 0xE2 0x80 0x90 in UTF-8, and no link would work with them.
pub open spec fn dashed(b: Seq<u8>, i: int) -> Seq<u8>
    decreases b.len() - i,
{
    if i < 0 || i >= b.len() {
        Seq::empty()
    } else if i + 3 <= b.len() && b[i] == 0xE2 && b[i + 1] == 0x80 && b[i + 2] == 0x90 {
        seq![45u8] + dashed(b, i + 3)
    } else {
        seq![b[i]] + dashed(b, i + 1)
    }
}

fn push_dashed(out: &mut Vec<u8>, b: &[u8])
    ensures
        final(out)@ == old(out)@ + dashed(b@, 0),
{
    let mut i: usize = 0;
    proof {
        assert(old(out)@ + dashed(b@, 0) =~= out@ + dashed(b@, 0));
    }
    while i < b.len()
        invariant
            i <= b.len(),
            old(out)@ + dashed(b@, 0) == out@ + dashed(b@, i as int),
        decreases b.len() - i,
    {
        let ghost before = out@;
        if b.len() - i >= 3 && b[i] == 0xE2 && b[i + 1] == 0x80 && b[i + 2] == 0x90 {
            out.push(45u8);
            proof {
                assert(before + (seq![45u8] + dashed(b@, i + 3)) =~= out@ + dashed(b@, i + 3));
            }
            i += 3;
        } else {
            out.push(b[i]);
            proof {
                assert(before + (seq![b@[i as int]] + dashed(b@, i + 1)) =~= out@ + dashed(b@, i + 1));
            }
            i += 1;
        }
    }
    proof {
        assert(out@ + dashed(b@, b.len() as int) =~= out@);
    }
}

/// The name of an included page after its mark, up to the brackets that
/// close the mark. Group 1 is the name as written, group 2 its last part.
pub const INCLUDED: &'static str = r#"^((?:[^"\s\]]*/)?([^"\s/\]]+))\]\]\]"#;

/// What may not be part of an address on the web.
pub const URL_END: &'static str = "(?:\"|&lt;|>|\\s)";

/// A reference to a manual page just before a place in the text. Group 1 is
/// the name of the page, group 2 its section.
pub const REFERENCE: &'static str = r"([A-Za-z0-9:\._-]+)\(([1-9nl]|3tcl|3pm|3tk)\)$";

/// What may be the mark of an included page, the start of an address, or a
/// reference to a manual page.
pub const SEARCH: &'static str = r"(?m)(^\[\[\[MANNEDINCLUDE|https?://|[A-Za-z0-9]+\(([1-9nl]|3tcl|3pm|3tk)\))";

/// The three groups of a match, where it has just three and none is
/// missing.
pub open spec fn three(caps: Option<Seq<Option<Seq<u8>>>>) -> Option<(Seq<u8>, Seq<u8>, Seq<u8>)> {
    match caps {
        Some(c) => if c.len() == 3 && c[0] is Some && c[1] is Some && c[2] is Some {
            Some((c[0]->0, c[1]->0, c[2]->0))
        } else {
            None
        },
        None => None,
    }
}

fn three_of<'a>(pattern: &str, data: &'a [u8]) -> (r: Option<(&'a [u8], &'a [u8], &'a [u8])>)
    ensures
        match r {
            Some((a, b, c)) => three(regex_captures_bytes(pattern@, data@)) == Some((a@, b@, c@)),
            None => three(regex_captures_bytes(pattern@, data@)).is_none(),
        },
{
    match captures_bytes(pattern, data) {
        Some(caps) => {
            if caps.len() != 3 {
                return None;
            }
            match (caps[0], caps[1], caps[2]) {
                (Some(a), Some(b), Some(c)) => Some((a, b, c)),
                _ => None,
            }
        },
        None => None,
    }
}

/// The cursor after the mark of an included page between `start` and `end`
/// has been dealt with: where the name of a page follows the mark, the text
/// before the mark is written, then a link to the page, and the mark with the
/// name is passed over.
pub open spec fn included(bytes: Seq<u8>, marks: Seq<Mark>, c: Cursor, start: int, end: int) -> Cursor {
    match three(regex_captures_bytes(INCLUDED@, bytes.skip(end))) {
        Some((whole, name, last)) => if whole.len() <= bytes.len() - end {
            let before = flushed_to(bytes, marks, c, start);
            skipped_to(
                marks,
                bytes.len() as int,
                Cursor {
                    out: before.out + ascii(">> Included manual page: <a href=\"/"@) + dashed(last, 0) + ascii(
                        "\">"@,
                    ) + name + ascii("</a>"@),
                    ..before
                },
                end + whole.len(),
            )
        } else {
            c
        },
        None => c,
    }
}

/// Deals with the mark of an included page between `start` and `end`.
pub fn flush_include(bytes: &[u8], marks: &Vec<Mark>, st: &mut Flush, start: usize, end: usize)
    requires
        old(st).idx <= start <= end <= bytes.len(),
        complete(marks@, bytes@.len() as int),
        fits(marks@, bytes@.len() as int, old(st)@),
    ensures
        final(st)@ == included(bytes@, marks@, old(st)@, start as int, end as int),
        fits(marks@, bytes@.len() as int, final(st)@),
        final(st).idx >= old(st).idx,
{
    proof {
        assert(bytes@.subrange(end as int, bytes@.len() as int) =~= bytes@.skip(end as int));
    }
    let (whole, name, last) = match three_of(INCLUDED, &bytes[end..bytes.len()]) {
        Some(m) => m,
        None => {
            return ;
        },
    };
    if whole.len() > bytes.len() - end {
        return ;
    }
    proof {
        reveal_strlit(">> Included manual page: <a href=\"/");
        reveal_strlit("\">");
        reveal_strlit("</a>");
    }
    flush_to(bytes, marks, st, start);
    let ghost before = st@;
    push_ascii(&mut st.out, ">> Included manual page: <a href=\"/");
    push_dashed(&mut st.out, last);
    push_ascii(&mut st.out, "\">");
    push_bytes(&mut st.out, name);
    push_ascii(&mut st.out, "</a>");
    proof {
        assert(st.out@ =~= before.out + ascii(">> Included manual page: <a href=\"/"@) + dashed(last@, 0) + ascii(
            "\">"@,
        ) + name@ + ascii("</a>"@));
    }
    flush_skip(bytes, marks, st, end + whole.len());
}

/// Whether an address on the web never ends with this byte: a full stop, a
/// comma, a semicolon, a closing bracket of any kind, an apostrophe or a
/// colon.
pub open spec fn ends_no_url(b: u8) -> bool {
    b == 46 || b == 44 || b == 59 || b == 41 || b == 39 || b == 58 || b == 93 || b == 125
}

/// Where the address that begins at `start` ends, if it ends before `e`:
/// what an address never ends with is left off, and so is the angle bracket
/// U+27E9, the bytes 0xE2 0x9F 0xA9, with which `groff` at times ends an
/// address.
pub open spec fn url_end(bytes: Seq<u8>, start: int, e: int) -> int
    decreases e,
{
    if 0 <= start < e <= bytes.len() && ends_no_url(bytes[e - 1]) {
        url_end(bytes, start, e - 1)
    } else if 0 <= start && start + 3 <= e <= bytes.len() && bytes[e - 3] == 0xE2 && bytes[e - 2] == 0x9F && bytes[e
        - 1] == 0xA9 {
        url_end(bytes, start, e - 3)
    } else {
        e
    }
}

fn trim_url(bytes: &[u8], start: usize, end: usize) -> (r: usize)
    requires
        start <= end <= bytes.len(),
    ensures
        start <= r <= end,
        r == url_end(bytes@, start as int, end as int),
{
    let mut e = end;
    loop
        invariant
            start <= e <= end <= bytes.len(),
            url_end(bytes@, start as int, end as int) == url_end(bytes@, start as int, e as int),
        ensures
            start <= e <= end,
            e == url_end(bytes@, start as int, end as int),
        decreases e,
    {
        if e > start && (bytes[e - 1] == 46 || bytes[e - 1] == 44 || bytes[e - 1] == 59 || bytes[e - 1] == 41
            || bytes[e - 1] == 39 || bytes[e - 1] == 58 || bytes[e - 1] == 93 || bytes[e - 1] == 125) {
            e -= 1;
        } else if e - start >= 3 && bytes[e - 3] == 0xE2 && bytes[e - 2] == 0x9F && bytes[e - 1] == 0xA9 {
            e -= 3;
        } else {
            break ;
        }
    }
    e
}

/// The cursor after the start of an address at `start` has been dealt
/// with: where the address ends somewhere and is ten bytes long or longer, the
/// text before it is written, then a link to the address with the address as
/// its text, and the address is passed over.
pub open spec fn linked(bytes: Seq<u8>, marks: Seq<Mark>, c: Cursor, start: int) -> Cursor {
    match regex_find_bytes(URL_END@, bytes.skip(start)) {
        Some((s, _)) => if s <= bytes.len() - start {
            let e = url_end(bytes, start, start + s);
            if e - start < 10 {
                c
            } else {
                let url = bytes.subrange(start, e);
                let before = flushed_to(bytes, marks, c, start);
                skipped_to(
                    marks,
                    bytes.len() as int,
                    Cursor {
                        out: before.out + ascii("<a href=\""@) + url + ascii("\" rel=\"nofollow\">"@) + url + ascii(
                            "</a>"@,
                        ),
                        ..before
                    },
                    e,
                )
            }
        } else {
            c
        },
        None => c,
    }
}

/// Deals with the start of an address at `start`.
pub fn flush_url(bytes: &[u8], marks: &Vec<Mark>, st: &mut Flush, start: usize)
    requires
        old(st).idx <= start <= bytes.len(),
        complete(marks@, bytes@.len() as int),
        fits(marks@, bytes@.len() as int, old(st)@),
    ensures
        final(st)@ == linked(bytes@, marks@, old(st)@, start as int),
        fits(marks@, bytes@.len() as int, final(st)@),
        final(st).idx >= old(st).idx,
{
    proof {
        assert(bytes@.subrange(start as int, bytes@.len() as int) =~= bytes@.skip(start as int));
    }
    let s = match find_bytes(URL_END, &bytes[start..bytes.len()]) {
        Some((s, _)) => s,
        None => {
            return ;
        },
    };
    if s > bytes.len() - start {
        return ;
    }
    let e = trim_url(bytes, start, start + s);
    if e - start < 10 {
        return ;
    }
    proof {
        reveal_strlit("<a href=\"");
        reveal_strlit("\" rel=\"nofollow\">");
        reveal_strlit("</a>");
    }
    let url = &bytes[start..e];
    flush_to(bytes, marks, st, start);
    let ghost before = st@;
    push_ascii(&mut st.out, "<a href=\"");
    push_bytes(&mut st.out, url);
    push_ascii(&mut st.out, "\" rel=\"nofollow\">");
    push_bytes(&mut st.out, url);
    push_ascii(&mut st.out, "</a>");
    proof {
        assert(st.out@ =~= before.out + ascii("<a href=\""@) + url@ + ascii("\" rel=\"nofollow\">"@) + url@ + ascii(
            "</a>"@,
        ));
    }
    flush_skip(bytes, marks, st, e);
}

/// The character that the text goes on with at `at`, if it goes on.
pub open spec fn next_char(bytes: Seq<u8>, at: int) -> Option<char> {
    let window = bytes.subrange(
        at,
        if at + 4 <= bytes.len() {
            at + 4
        } else {
            bytes.len() as int
        },
    );
    if lossy_text(window).len() > 0 {
        Some(lossy_text(window)[0])
    } else {
        None
    }
}

fn char_at(bytes: &[u8], at: usize) -> (r: Option<char>)
    requires
        at <= bytes.len(),
    ensures
        r == next_char(bytes@, at as int),
{
    let to = if bytes.len() - at >= 4 {
        at + 4
    } else {
        bytes.len()
    };
    let text = lossy(&bytes[at..to]);
    if text.as_str().unicode_len() > 0 {
        Some(text.as_str().get_char(0))
    } else {
        None
    }
}

/// Whether the text goes on at `at` in a way that makes what stands before
/// no reference to a manual page: with an underscore, a letter or a number.
pub open spec fn goes_on(bytes: Seq<u8>, at: int) -> bool {
    at < bytes.len() && match next_char(bytes, at) {
        Some(c) => c == '_' || alphanumeric(c),
        None => false,
    }
}

/// The cursor after a reference to a manual page that ends at `end` has
/// been dealt with: where the text does not go on there, the text before the
/// reference is written, the reference is passed over, and a link to the page
/// is written with the reference as its text.
pub open spec fn referred(bytes: Seq<u8>, marks: Seq<Mark>, c: Cursor, end: int) -> Cursor {
    if goes_on(bytes, end) {
        c
    } else {
        match three(regex_captures_bytes(REFERENCE@, bytes.take(end))) {
            Some((whole, name, section)) => if whole.len() <= end {
                let before = flushed_to(bytes, marks, c, end - whole.len());
                let after = skipped_to(marks, bytes.len() as int, before, end);
                Cursor {
                    out: after.out + ascii("<a href=\"/"@) + name + seq![46u8] + section + ascii("\">"@) + whole
                        + ascii("</a>"@),
                    ..after
                }
            } else {
                c
            },
            None => c,
        }
    }
}

/// Deals with a reference to a manual page that ends at `end`.
pub fn flush_ref(bytes: &[u8], marks: &Vec<Mark>, st: &mut Flush, end: usize)
    requires
        old(st).idx <= end <= bytes.len(),
        complete(marks@, bytes@.len() as int),
        fits(marks@, bytes@.len() as int, old(st)@),
    ensures
        final(st)@ == referred(bytes@, marks@, old(st)@, end as int),
        fits(marks@, bytes@.len() as int, final(st)@),
        final(st).idx >= old(st).idx,
{
    if bytes.len() > end {
        if let Some(ch) = char_at(bytes, end) {
            if ch == '_' || is_alphanumeric(ch) {
                return ;
            }
        }
    }
    proof {
        assert(bytes@.subrange(0, end as int) =~= bytes@.take(end as int));
    }
    let (whole, name, section) = match three_of(REFERENCE, &bytes[0..end]) {
        Some(m) => m,
        None => {
            return ;
        },
    };
    if whole.len() > end {
        return ;
    }
    proof {
        reveal_strlit("<a href=\"/");
        reveal_strlit("\">");
        reveal_strlit("</a>");
    }
    flush_to(bytes, marks, st, end - whole.len());
    flush_skip(bytes, marks, st, end);
    let ghost after = st@;
    push_ascii(&mut st.out, "<a href=\"/");
    push_bytes(&mut st.out, name);
    st.out.push(46u8);
    push_bytes(&mut st.out, section);
    push_ascii(&mut st.out, "\">");
    push_bytes(&mut st.out, whole);
    push_ascii(&mut st.out, "</a>");
    proof {
        assert(st.out@ =~= after.out + ascii("<a href=\"/"@) + name@ + seq![46u8] + section@ + ascii("\">"@) + whole@
            + ascii("</a>"@));
    }
}

/// The place of the first line feed, byte 10, from `i` on, or the length
/// of the text where there is none.
pub open spec fn first_newline(bytes: Seq<u8>, i: int) -> int
    decreases bytes.len() - i,
{
    if i < 0 || i >= bytes.len() {
        bytes.len() as int
    } else if bytes[i] == 10 {
        i
    } else {
        first_newline(bytes, i + 1)
    }
}

/// The length of the text before `e` without the line feeds it ends with.
pub open spec fn without_newlines(bytes: Seq<u8>, e: int) -> int
    decreases e,
{
    if 0 < e <= bytes.len() && bytes[e - 1] == 10 {
        without_newlines(bytes, e - 1)
    } else {
        e
    }
}

/// The place of the last line feed before `e`, or 0 where there is none.
pub open spec fn last_newline(bytes: Seq<u8>, e: int) -> int
    decreases e,
{
    if e <= 0 || e > bytes.len() {
        0
    } else if bytes[e - 1] == 10 {
        e - 1
    } else {
        last_newline(bytes, e - 1)
    }
}

/// Where the first line ends.
pub open spec fn first_line_end(bytes: Seq<u8>) -> int {
    first_newline(bytes, 0)
}

/// Where the last line begins: at the last line feed that text follows.
pub open spec fn last_line_start(bytes: Seq<u8>) -> int {
    last_newline(bytes, without_newlines(bytes, bytes.len() as int))
}

fn find_first_line_end(bytes: &[u8]) -> (r: usize)
    ensures
        r == first_line_end(bytes@),
        r <= bytes.len(),
{
    let mut i: usize = 0;
    while i < bytes.len()
        invariant
            i <= bytes.len(),
            first_line_end(bytes@) == first_newline(bytes@, i as int),
        decreases bytes.len() - i,
    {
        if bytes[i] == 10 {
            return i;
        }
        i += 1;
    }
    i
}

fn find_last_line_start(bytes: &[u8]) -> (r: usize)
    ensures
        r == last_line_start(bytes@),
        r <= bytes.len(),
{
    let mut e: usize = bytes.len();
    while e > 0 && bytes[e - 1] == 10
        invariant
            e <= bytes.len(),
            without_newlines(bytes@, bytes@.len() as int) == without_newlines(bytes@, e as int),
        decreases e,
    {
        e -= 1;
    }
    let ghost top = e;
    assert(top == without_newlines(bytes@, bytes@.len() as int));
    while e > 0
        invariant
            e <= top <= bytes.len(),
            top == without_newlines(bytes@, bytes@.len() as int),
            last_newline(bytes@, top as int) == last_newline(bytes@, e as int),
        decreases e,
    {
        if bytes[e - 1] == 10 {
            return e - 1;
        }
        e -= 1;
    }
    0
}

/// The cursor after the match from `start` to `end` has been dealt with.
/// A match that begins in text that is done with is passed over. The mark of
/// an included page, which ends with `E`, byte 0x45, counts everywhere;
/// addresses, whose start ends with a slash, byte 0x2F, and references count
/// only between the first line and the last, which hold the title of the page.
pub open spec fn handled(bytes: Seq<u8>, marks: Seq<Mark>, c: Cursor, start: int, end: int) -> Cursor {
    if c.idx > start || !(start < end <= bytes.len()) {
        c
    } else {
        let allowed = start > first_line_end(bytes) && start < last_line_start(bytes);
        if bytes[end - 1] == 0x45 {
            included(bytes, marks, c, start, end)
        } else if bytes[end - 1] == 0x2F && allowed {
            linked(bytes, marks, c, start)
        } else if allowed {
            referred(bytes, marks, c, end)
        } else {
            c
        }
    }
}

/// The cursor after the matches from the `i`-th on have been dealt with.
pub open spec fn run(bytes: Seq<u8>, marks: Seq<Mark>, found: Seq<(usize, usize)>, i: int, c: Cursor) -> Cursor
    decreases found.len() - i,
{
    if i < 0 || i >= found.len() {
        c
    } else {
        run(bytes, marks, found, i + 1, handled(bytes, marks, c, found[i].0 as int, found[i].1 as int))
    }
}

/// The text with tags for its formatting and with links for what
/// [`SEARCH`] finds in it.
pub open spec fn flushed(bytes: Seq<u8>, marks: Seq<Mark>) -> Seq<u8> {
    flushed_to(
        bytes,
        marks,
        run(bytes, marks, regex_find_all_bytes(SEARCH@, bytes), 0, Cursor { out: Seq::empty(), idx: 0, pos: 0 }),
        bytes.len() as int,
    ).out
}

/// Writes out the text with tags for its formatting and with links.
pub fn flush(bytes: &[u8], marks: &Vec<Mark>) -> (r: Vec<u8>)
    requires
        complete(marks@, bytes@.len() as int),
    ensures
        r@ == flushed(bytes@, marks@),
{
    let first_end = find_first_line_end(bytes);
    let last_start = find_last_line_start(bytes);
    let found = find_all_bytes(SEARCH, bytes);
    let mut st = Flush { out: Vec::new(), idx: 0, pos: 0 };
    let ghost len = bytes@.len() as int;
    let mut i: usize = 0;
    while i < found.len()
        invariant
            i <= found.len(),
            len == bytes@.len(),
            first_end == first_line_end(bytes@),
            last_start == last_line_start(bytes@),
            complete(marks@, len),
            fits(marks@, len, st@),
            run(bytes@, marks@, found@, 0, Cursor { out: Seq::empty(), idx: 0, pos: 0 }) == run(
                bytes@,
                marks@,
                found@,
                i as int,
                st@,
            ),
        decreases found.len() - i,
    {
        let (start, end) = found[i];
        i += 1;
        if st.idx > start || !(start < end && end <= bytes.len()) {
            continue ;
        }
        let allowed = start > first_end && start < last_start;
        let last = bytes[end - 1];
        if last == 0x45 {
            flush_include(bytes, marks, &mut st, start, end);
        } else if last == 0x2F && allowed {
            flush_url(bytes, marks, &mut st, start);
        } else if allowed {
            flush_ref(bytes, marks, &mut st, end);
        }
    }
    flush_to(bytes, marks, &mut st, bytes.len());
    st.out
}

/// The reader and the buffer after the characters of `input`.
pub open spec fn read(input: Seq<char>) -> (CharParse, Buffer)
    decreases input.len(),
{
    if input.len() == 0 {
        (CharParse::Start, Buffer { text: Seq::empty(), marks: Seq::empty(), last: FmtChar::Regular })
    } else {
        let before = read(input.drop_last());
        let step = parse_step(before.0, input.last());
        (
            step.0,
            match step.1 {
                Some((c, f)) => pushed(before.1, c, f),
                None => before.1,
            },
        )
    }
}

/// The buffer that holds all of `input`: the last character is complete
/// when the input ends.
pub open spec fn buffered(input: Seq<char>) -> Buffer {
    match read(input).0 {
        CharParse::Token(c, f) => pushed(read(input).1, c, f),
        _ => read(input).1,
    }
}

/// The HTML for the page `input`, in bytes. What stands after the last
/// change of formatting is written in regular type.
pub open spec fn html(input: Seq<char>) -> Seq<u8> {
    let b = buffered(input);
    flushed(encode_utf8(b.text), b.marks.push((encode_utf8(b.text).len() as usize, FmtChar::Regular)))
}

impl FmtBuf {
    /// Whether the marks of the buffer are in order and within its text.
    pub open spec fn wf(&self) -> bool {
        in_order(self@.marks, encode_utf8(self@.text).len() as int)
    }

    /// Writes out the buffer with tags for its formatting and with links.
    pub fn flush(self) -> (r: Vec<u8>)
        requires
            self.wf(),
        ensures
            r@ == flushed(
                encode_utf8(self@.text),
                self@.marks.push((encode_utf8(self@.text).len() as usize, FmtChar::Regular)),
            ),
    {
        let mut marks = self.fmt;
        let bytes = self.buf.as_str().as_bytes();
        marks.push((bytes.len(), FmtChar::Regular));
        proof {
            let len = bytes@.len() as int;
            assert forall|i: int, j: int| 0 <= i <= j < marks@.len() implies (#[trigger] marks@[i]).0 <= (
            #[trigger] marks@[j]).0 by {
                if j < self.fmt@.len() {
                    assert(marks@[i] == self.fmt@[i]);
                    assert(marks@[j] == self.fmt@[j]);
                } else if i < self.fmt@.len() {
                    assert(marks@[i] == self.fmt@[i]);
                }
            }
            assert forall|i: int| 0 <= i < marks@.len() implies (#[trigger] marks@[i]).0 <= len by {
                if i < self.fmt@.len() {
                    assert(marks@[i] == self.fmt@[i]);
                }
            }
        }
        flush(bytes, &marks)
    }
}

/// Turns a manual page as `grotty` writes it into HTML.
pub fn grotty2html(input: &str) -> (r: String)
    ensures
        r@ == lossy_text(html(input@)),
{
    let mut state = CharParse::Start;
    let mut buf = FmtBuf::new();
    for chr in it: input.chars()
        invariant
            it.seq() == input@,
            (state, buf@) == read(input@.take(it.index() as int)),
            buf.wf(),
    {
        proof {
            assert(input@.take(it.index() + 1).drop_last() =~= input@.take(it.index() as int));
        }
        if let Some((c, fmt)) = state.update(chr) {
            buf.push(c, fmt);
        }
    }
    proof {
        assert(input@.take(input@.len() as int) =~= input@);
    }
    if let CharParse::Token(c, fmt) = state {
        buf.push(c, fmt);
    }
    let out = buf.flush();
    lossy(out.as_slice())
}

} // verus!
