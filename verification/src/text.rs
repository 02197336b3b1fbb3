//! Text as sequences of characters: splitting, joining and searching.
//!
//! Paths are handled as `Vec<char>` internally so that every index is a
//! character index; `&str` and `String` appear only at the edges.

use vstd::prelude::*;
use vstd::utf8::{decode_utf8, valid_utf8};

verus! {

/// The lowercase equivalent of `s`, as `str::to_lowercase` gives it.
pub uninterp spec fn lowercase(s: Seq<char>) -> Seq<char>;

/// `str::to_lowercase` returns the lowercase equivalent of a string slice
/// as a new string. The contract claims only that the result is a function
/// of the text, named [`lowercase`].
#[verifier::external_body]
pub(crate) fn to_lowercase(s: &str) -> (r: String)
    ensures
        r@ == lowercase(s@),
{
    s.to_lowercase()
}

/// The text that `data` is when read as UTF-8, with a replacement character
/// for whatever in it is no UTF-8, as `String::from_utf8_lossy` gives it.
pub uninterp spec fn lossy_text(data: Seq<u8>) -> Seq<char>;

/// `String::from_utf8_lossy` turns bytes into a string, and puts a
/// replacement character for every sequence of bytes that is no UTF-8. The
/// contract claims only that the result is a function of the bytes, named
/// [`lossy_text`].
#[verifier::external_body]
pub(crate) fn lossy(data: &[u8]) -> (r: String)
    ensures
        r@ == lossy_text(data@),
{
    String::from_utf8_lossy(data).into_owned()
}

/// Whether `c` is a letter or a number, as `char::is_alphanumeric` tells
/// it.
pub uninterp spec fn alphanumeric(c: char) -> bool;

/// `char::is_alphanumeric` says whether a character is alphabetic or
/// numeric by the Unicode standard. The contract claims only that the result
/// is a function of the character, named [`alphanumeric`].
#[verifier::external_body]
pub(crate) fn is_alphanumeric(c: char) -> (r: bool)
    ensures
        r == alphanumeric(c),
{
    c.is_alphanumeric()
}

/// The number that `s` is written out in decimal, as `i64::from_str` reads
/// it. There is none where `s` is no such number.
pub uninterp spec fn number(s: Seq<char>) -> Option<i64>;

/// `i64::from_str` reads a number written in decimal, with or without a
/// sign. The contract claims only that the result is a function of the text,
/// named [`number`].
#[verifier::external_body]
pub(crate) fn parse_number(s: &str) -> (r: Option<i64>)
    ensures
        r == number(s@),
{
    s.parse::<i64>().ok()
}

/// `s` without the white space at its start and at its end, as `str::trim`
/// gives it.
pub uninterp spec fn stripped(s: Seq<char>) -> Seq<char>;

/// `str::trim` returns a string slice with leading and trailing white space
/// removed. The contract claims only that the result is a function of the
/// text, named [`stripped`].
#[verifier::external_body]
pub(crate) fn trim(s: &str) -> (r: &str)
    ensures
        r@ == stripped(s@),
{
    s.trim()
}

/// `core::str::from_utf8` turns bytes into a string slice where they are
/// valid UTF-8, and refuses them where they are not.
#[verifier::external_body]
pub(crate) fn text_of_utf8(data: &[u8]) -> (r: Option<&str>)
    ensures
        match r {
            Some(s) => valid_utf8(data@) && s@ == decode_utf8(data@),
            None => !valid_utf8(data@),
        },
{
    core::str::from_utf8(data).ok()
}

/// `String::push` appends one character to the end of the string.
pub assume_specification[ String::push ](s: &mut String, c: char)
    ensures
        final(s)@ == old(s)@.push(c),
;

/// The pieces of `s` between occurrences of `sep`, in order. There is always
/// at least one piece; two adjacent separators enclose an empty piece.
pub open spec fn split(s: Seq<char>, sep: char) -> Seq<Seq<char>>
    decreases s.len(),
{
    if s.len() == 0 {
        seq![Seq::<char>::empty()]
    } else {
        let before = split(s.drop_last(), sep);
        if s.last() == sep {
            before.push(Seq::<char>::empty())
        } else {
            before.update(before.len() - 1, before.last().push(s.last()))
        }
    }
}

/// The pieces written one after another with `sep` between neighbours.
pub open spec fn join(parts: Seq<Seq<char>>, sep: char) -> Seq<char>
    decreases parts.len(),
{
    if parts.len() == 0 {
        Seq::<char>::empty()
    } else if parts.len() == 1 {
        parts[0]
    } else {
        join(parts.drop_last(), sep).push(sep) + parts.last()
    }
}

/// The index of the last occurrence of `c` in `s`.
pub open spec fn last_index_of(s: Seq<char>, c: char) -> Option<int>
    decreases s.len(),
{
    if s.len() == 0 {
        None
    } else if s.last() == c {
        Some(s.len() - 1)
    } else {
        last_index_of(s.drop_last(), c)
    }
}

/// The views of a vector of character vectors.
pub open spec fn views(v: Seq<Vec<char>>) -> Seq<Seq<char>> {
    Seq::new(v.len(), |i: int| v[i]@)
}

/// The views of a vector of strings.
pub open spec fn texts(v: Seq<String>) -> Seq<Seq<char>> {
    Seq::new(v.len(), |i: int| v[i]@)
}

/// Splitting yields at least one piece, whatever the text.
pub proof fn lemma_split_nonempty(s: Seq<char>, sep: char)
    ensures
        split(s, sep).len() >= 1,
    decreases s.len(),
{
    if s.len() > 0 {
        lemma_split_nonempty(s.drop_last(), sep);
    }
}

/// The characters of a string slice.
pub fn chars_of(s: &str) -> (v: Vec<char>)
    ensures
        v@ == s@,
{
    let mut v: Vec<char> = Vec::new();
    for c in it: s.chars()
        invariant
            it.seq() == s@,
            v@ == s@.take(it.index() as int),
    {
        v.push(c);
    }
    v
}

/// The string made of the given characters.
pub fn text_of(v: &Vec<char>) -> (s: String)
    ensures
        s@ == v@,
{
    let mut s = String::new();
    let mut i: usize = 0;
    while i < v.len()
        invariant
            i <= v.len(),
            s@ == v@.take(i as int),
        decreases v.len() - i,
    {
        s.push(v[i]);
        i += 1;
    }
    s
}

/// Whether two string slices hold the same text.
pub fn same_text(a: &str, b: &str) -> (r: bool)
    ensures
        r == (a@ == b@),
{
    let x = chars_of(a);
    let y = chars_of(b);
    same_chars(&x, &y)
}

/// Whether two character vectors are equal.
pub fn same_chars(a: &Vec<char>, b: &Vec<char>) -> (r: bool)
    ensures
        r == (a@ == b@),
{
    if a.len() != b.len() {
        return false;
    }
    let mut i: usize = 0;
    while i < a.len()
        invariant
            i <= a.len(),
            a.len() == b.len(),
            forall|j: int| 0 <= j < i ==> a@[j] == b@[j],
        decreases a.len() - i,
    {
        if a[i] != b[i] {
            return false;
        }
        i += 1;
    }
    assert(a@ =~= b@);
    true
}

/// Splits `s` at every occurrence of `sep`.
pub fn split_chars(s: &Vec<char>, sep: char) -> (parts: Vec<Vec<char>>)
    ensures
        views(parts@) == split(s@, sep),
{
    let mut parts: Vec<Vec<char>> = Vec::new();
    let mut cur: Vec<char> = Vec::new();
    let mut i: usize = 0;
    while i < s.len()
        invariant
            i <= s.len(),
            views(parts@).push(cur@) == split(s@.take(i as int), sep),
        decreases s.len() - i,
    {
        let ghost before = split(s@.take(i as int), sep);
        proof {
            assert(s@.take(i + 1).drop_last() =~= s@.take(i as int));
            assert(before.len() == parts.len() + 1);
            assert(before.last() == cur@);
        }
        if s[i] == sep {
            let ghost shown = views(parts@).push(cur@);
            parts.push(cur);
            cur = Vec::new();
            proof {
                assert(views(parts@) =~= shown);
            }
        } else {
            cur.push(s[i]);
            proof {
                assert(views(parts@).push(cur@) =~= before.update(
                    before.len() - 1,
                    before.last().push(s@[i as int]),
                ));
            }
        }
        i += 1;
    }
    proof {
        assert(s@.take(s.len() as int) =~= s@);
    }
    let ghost shown = views(parts@).push(cur@);
    parts.push(cur);
    proof {
        assert(views(parts@) =~= shown);
    }
    parts
}

/// Joins the pieces with `sep` between neighbours.
pub fn join_chars(parts: &Vec<Vec<char>>, sep: char) -> (s: Vec<char>)
    ensures
        s@ == join(views(parts@), sep),
{
    let mut s: Vec<char> = Vec::new();
    let mut i: usize = 0;
    while i < parts.len()
        invariant
            i <= parts.len(),
            s@ == join(views(parts@).take(i as int), sep),
        decreases parts.len() - i,
    {
        let ghost head = views(parts@).take(i as int);
        let ghost next = views(parts@).take(i + 1);
        proof {
            assert(next.drop_last() =~= head);
            assert(next.last() == parts@[i as int]@);
        }
        if i > 0 {
            s.push(sep);
        }
        let piece = &parts[i];
        let mut k: usize = 0;
        let ghost start = s@;
        while k < piece.len()
            invariant
                k <= piece.len(),
                s@ == start + piece@.take(k as int),
            decreases piece.len() - k,
        {
            s.push(piece[k]);
            k += 1;
            proof {
                assert(piece@.take(k as int) =~= piece@.take(k - 1).push(piece@[k - 1]));
                assert(s@ =~= start + piece@.take(k as int));
            }
        }
        proof {
            assert(piece@.take(piece.len() as int) =~= piece@);
            if i == 0 {
                assert(start =~= Seq::<char>::empty());
                assert(s@ =~= piece@);
            }
        }
        i += 1;
    }
    proof {
        assert(views(parts@).take(parts.len() as int) =~= views(parts@));
    }
    s
}

/// The characters of `v` from index `from` up to, not including, `to`.
pub fn copy_range(v: &Vec<char>, from: usize, to: usize) -> (r: Vec<char>)
    requires
        from <= to <= v.len(),
    ensures
        r@ == v@.subrange(from as int, to as int),
{
    let mut r: Vec<char> = Vec::new();
    let mut i: usize = from;
    while i < to
        invariant
            from <= i <= to <= v.len(),
            r@ == v@.subrange(from as int, i as int),
        decreases to - i,
    {
        r.push(v[i]);
        i += 1;
        proof {
            assert(r@ =~= v@.subrange(from as int, i as int));
        }
    }
    r
}

/// The strings made of each of the given character vectors.
pub fn texts_of(parts: &Vec<Vec<char>>) -> (r: Vec<String>)
    ensures
        texts(r@) == views(parts@),
{
    let mut r: Vec<String> = Vec::new();
    let mut i: usize = 0;
    while i < parts.len()
        invariant
            i <= parts.len(),
            texts(r@) == views(parts@).take(i as int),
        decreases parts.len() - i,
    {
        let ghost before = texts(r@);
        r.push(text_of(&parts[i]));
        i += 1;
        proof {
            assert(texts(r@) =~= before.push(parts@[i - 1]@));
            assert(texts(r@) =~= views(parts@).take(i as int));
        }
    }
    proof {
        assert(views(parts@).take(parts.len() as int) =~= views(parts@));
    }
    r
}

/// Whether `text` begins with `prefix`.
pub fn starts_with(text: &str, prefix: &str) -> (r: bool)
    ensures
        r == prefix@.is_prefix_of(text@),
{
    let t = chars_of(text);
    let p = chars_of(prefix);
    if p.len() > t.len() {
        return false;
    }
    let head = copy_range(&t, 0, p.len());
    let r = same_chars(&head, &p);
    proof {
        if r {
            assert(p@ =~= t@.subrange(0, p@.len() as int));
        }
        if p@.is_prefix_of(t@) {
            assert(head@ =~= p@);
        }
    }
    r
}

/// Whether `text` ends with `suffix`.
pub fn ends_with(text: &str, suffix: &str) -> (r: bool)
    ensures
        r == suffix@.is_suffix_of(text@),
{
    let t = chars_of(text);
    let p = chars_of(suffix);
    if p.len() > t.len() {
        return false;
    }
    let tail = copy_range(&t, t.len() - p.len(), t.len());
    let r = same_chars(&tail, &p);
    proof {
        if r {
            assert(p@ =~= t@.subrange(t@.len() - p@.len(), t@.len() as int));
        }
        if p@.is_suffix_of(t@) {
            assert(tail@ =~= p@);
        }
    }
    r
}

/// The position of the last `c` in `s`, if there is one.
pub fn rfind_char(s: &Vec<char>, c: char) -> (r: Option<usize>)
    ensures
        match r {
            Some(i) => i < s.len() && last_index_of(s@, c) == Some(i as int),
            None => last_index_of(s@, c).is_none(),
        },
{
    let mut i: usize = s.len();
    proof {
        assert(s@.take(s.len() as int) =~= s@);
    }
    while i > 0
        invariant
            i <= s.len(),
            last_index_of(s@, c) == last_index_of(s@.take(i as int), c),
        decreases i,
    {
        proof {
            assert(s@.take(i as int).drop_last() =~= s@.take(i - 1));
        }
        if s[i - 1] == c {
            return Some(i - 1);
        }
        i -= 1;
    }
    None
}

} // verus!
