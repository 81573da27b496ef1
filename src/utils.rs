//! Source and output paths, titles from file names, text positions.

use vstd::prelude::*;
use crate::text::{byte_offset, char_utf8_len, chars_of, slice_chars, string_of, utf8_len};
use crate::directive::push_all;

verus! {

/// Number of line breaks among the first `k` characters.
pub open spec fn line_of(s: Seq<char>, k: int) -> nat
    decreases k,
{
    if k <= 0 {
        0
    } else if s[k - 1] == '\n' {
        line_of(s, k - 1) + 1
    } else {
        line_of(s, k - 1)
    }
}

/// Number of characters between the last line break before index `k` (or the
/// start) and index `k`.
pub open spec fn col_of(s: Seq<char>, k: int) -> nat
    decreases k,
{
    if k <= 0 {
        0
    } else if s[k - 1] == '\n' {
        0
    } else {
        col_of(s, k - 1) + 1
    }
}

/// Why a byte position could not be mapped to a line and a column.
#[derive(Debug, Clone, Copy, PartialEq, Eq, Structural)]
pub enum PositionError {
    /// No character of the text starts at that byte.
    NotACharacterStart,
}

proof fn lemma_byte_offset_grows(s: Seq<char>, j: int, k: int)
    requires
        0 <= j <= k,
    ensures
        byte_offset(s, j) + (k - j) <= byte_offset(s, k),
    decreases k - j,
{
    if j < k {
        lemma_byte_offset_grows(s, j, k - 1);
    }
}

/// Maps a byte position of `text` to a zero-based (line, column) pair, where
/// the column counts characters. The position must be where a character of
/// `text` starts.
pub fn position_to_line_and_col_number(text: &str, position: usize) -> (r: Result<
    (usize, usize),
    PositionError,
>)
    ensures
        match r {
            Ok((line, col)) => exists|k: int|
                0 <= k < text@.len() && byte_offset(text@, k) == position && line == line_of(
                    text@,
                    k,
                ) && col == col_of(text@, k),
            Err(_) => forall|k: int| 0 <= k < text@.len() ==> byte_offset(text@, k) != position,
        },
{
    let chars = chars_of(text);
    let mut line: usize = 0;
    let mut col: usize = 0;
    let mut current: usize = 0;
    let mut i: usize = 0;
    while i < chars.len()
        invariant
            chars@ == text@,
            0 <= i <= chars@.len(),
            current == byte_offset(text@, i as int),
            current <= position,
            line == line_of(text@, i as int),
            col == col_of(text@, i as int),
            line <= i,
            col <= i,
            forall|k: int| 0 <= k < i ==> byte_offset(text@, k) < position,
        decreases chars@.len() - i,
    {
        if current == position {
            return Ok((line, col));
        }
        let c = chars[i];
        let n = char_utf8_len(c);
        if position - current < n {
            proof {
                assert forall|k: int| 0 <= k < text@.len() implies byte_offset(text@, k)
                    != position by {
                    if k > i {
                        lemma_byte_offset_grows(text@, i as int + 1, k);
                    }
                }
            }
            return Err(PositionError::NotACharacterStart);
        }
        if c == '\n' {
            line = line + 1;
            col = 0;
        } else {
            col = col + 1;
        }
        current = current + n;
        i = i + 1;
    }
    Err(PositionError::NotACharacterStart)
}

/// Index of the last `c` among the first `i` characters, or -1.
pub open spec fn last_index(s: Seq<char>, c: char, i: int) -> int
    decreases i,
{
    if i <= 0 {
        -1
    } else if s[i - 1] == c {
        i - 1
    } else {
        last_index(s, c, i - 1)
    }
}

/// Length of `s[..n]` once trailing separators and trailing `/.`
/// components are dropped.
pub open spec fn base_len(s: Seq<char>, n: int) -> int
    decreases n,
{
    if n <= 0 {
        0
    } else if s[n - 1] == '/' {
        base_len(s, n - 1)
    } else if n >= 2 && s[n - 1] == '.' && s[n - 2] == '/' {
        base_len(s, n - 2)
    } else {
        n
    }
}

/// `s` without trailing separators and trailing `/.` components.
pub open spec fn base(s: Seq<char>) -> Seq<char> {
    s.subrange(0, base_len(s, s.len() as int))
}

/// The last component of `base(s)`.
pub open spec fn last_component(s: Seq<char>) -> Seq<char> {
    let b = base(s);
    b.subrange(last_index(b, '/', b.len() as int) + 1, b.len() as int)
}

/// The file name of a `/`-separated path, as `Path::file_name` gives it:
/// trailing separators are ignored, and a path ending in `.` or `..` (or
/// an empty one) has none, which is written as the empty text.
pub open spec fn file_name(s: Seq<char>) -> Seq<char> {
    let c = last_component(s);
    if c == seq!['.'] || c == seq!['.', '.'] {
        Seq::empty()
    } else {
        c
    }
}

/// Length of a file name without its extension: up to its last dot, unless
/// that dot starts the name.
pub open spec fn stem_len(f: Seq<char>) -> int {
    let d = last_index(f, '.', f.len() as int);
    if d > 0 {
        d
    } else {
        f.len() as int
    }
}

/// The file name of `s` without its extension.
pub open spec fn file_stem(s: Seq<char>) -> Seq<char> {
    file_name(s).subrange(0, stem_len(file_name(s)))
}

/// `s` with the extension of its file name replaced by `html`, as
/// `Path::with_extension` gives it; unchanged when it has no file name.
pub open spec fn with_html_extension(s: Seq<char>) -> Seq<char> {
    let f = file_name(s);
    if f.len() == 0 {
        s
    } else {
        let b = base(s);
        b.subrange(0, last_index(b, '/', b.len() as int) + 1 + stem_len(f)) + seq!['.', 'h', 't', 'm', 'l']
    }
}

pub open spec fn posts_prefix() -> Seq<char> {
    seq!['p', 'o', 's', 't', 's', '/']
}

/// `s` without a leading `posts` component.
pub open spec fn strip_posts(s: Seq<char>) -> Seq<char> {
    if s == posts_prefix().subrange(0, 5) {
        Seq::empty()
    } else if s.len() >= 6 && s.subrange(0, 6) == posts_prefix() {
        s.subrange(6, s.len() as int)
    } else {
        s
    }
}

pub open spec fn replace_char(s: Seq<char>, from: char, to: char) -> Seq<char> {
    s.map_values(|c: char| if c == from { to } else { c })
}

/// The output path of a source path: the HTML file beside it (or, when
/// `flat`, its file name alone), with spaces turned into underscores. A
/// flat output path of a source path without a file name is empty.
pub open spec fn dst_file_name(src: Seq<char>, flat: bool) -> Seq<char> {
    if flat {
        replace_char(with_html_extension(file_name(src)), ' ', '_')
    } else {
        replace_char(with_html_extension(strip_posts(src)), ' ', '_')
    }
}

proof fn lemma_last_index_bounds(s: Seq<char>, c: char, i: int)
    requires
        0 <= i <= s.len(),
    ensures
        -1 <= last_index(s, c, i) < i,
    decreases i,
{
    if i > 0 && s[i - 1] != c {
        lemma_last_index_bounds(s, c, i - 1);
    }
}

pub fn find_last(v: &Vec<char>, c: char) -> (r: Option<usize>)
    ensures
        match r {
            Some(k) => last_index(v@, c, v@.len() as int) == k as int && k < v@.len(),
            None => last_index(v@, c, v@.len() as int) == -1,
        },
{
    let mut i: usize = v.len();
    while i > 0
        invariant
            0 <= i <= v@.len(),
            last_index(v@, c, i as int) == last_index(v@, c, v@.len() as int),
        decreases i,
    {
        if v[i - 1] == c {
            return Some(i - 1);
        }
        i = i - 1;
    }
    None
}

pub fn replace_chars(v: &Vec<char>, from: char, to: char) -> (r: Vec<char>)
    ensures
        r@ == replace_char(v@, from, to),
{
    let mut r: Vec<char> = Vec::new();
    let mut i: usize = 0;
    while i < v.len()
        invariant
            0 <= i <= v@.len(),
            r@ == replace_char(v@.subrange(0, i as int), from, to),
        decreases v@.len() - i,
    {
        if v[i] == from {
            r.push(to);
        } else {
            r.push(v[i]);
        }
        i = i + 1;
        assert(r@ =~= replace_char(v@.subrange(0, i as int), from, to));
    }
    assert(v@.subrange(0, v@.len() as int) == v@);
    r
}

proof fn lemma_base_len_bounds(s: Seq<char>, n: int)
    requires
        0 <= n <= s.len(),
    ensures
        0 <= base_len(s, n) <= n,
    decreases n,
{
    if n > 0 && s[n - 1] == '/' {
        lemma_base_len_bounds(s, n - 1);
    } else if n >= 2 && s[n - 1] == '.' && s[n - 2] == '/' {
        lemma_base_len_bounds(s, n - 2);
    }
}

fn base_len_exec(v: &Vec<char>) -> (r: usize)
    ensures
        r as int == base_len(v@, v@.len() as int),
        r <= v@.len(),
{
    proof {
        lemma_base_len_bounds(v@, v@.len() as int);
    }
    let mut n: usize = v.len();
    while n > 0 && (v[n - 1] == '/' || (n >= 2 && v[n - 1] == '.' && v[n - 2] == '/'))
        invariant
            n <= v@.len(),
            base_len(v@, n as int) == base_len(v@, v@.len() as int),
        decreases n,
    {
        if v[n - 1] == '/' {
            n = n - 1;
        } else {
            n = n - 2;
        }
    }
    proof {
        lemma_base_len_bounds(v@, n as int);
    }
    n
}

/// Where the last component of `base(v)` starts, and where `base(v)` ends.
fn last_component_bounds(v: &Vec<char>) -> (r: (usize, usize))
    ensures
        r.1 as int == base_len(v@, v@.len() as int),
        r.0 <= r.1 <= v@.len(),
        r.0 as int == last_index(base(v@), '/', base(v@).len() as int) + 1,
        v@.subrange(r.0 as int, r.1 as int) == last_component(v@),
{
    let end = base_len_exec(v);
    let b = slice_chars(v, 0, end);
    proof {
        lemma_last_index_bounds(b@, '/', b@.len() as int);
    }
    let start: usize = match find_last(&b, '/') {
        Some(k) => k + 1,
        None => 0,
    };
    assert(v@.subrange(start as int, end as int) =~= b@.subrange(start as int, end as int));
    (start, end)
}

fn file_name_chars(v: &Vec<char>) -> (r: Vec<char>)
    ensures
        r@ == file_name(v@),
{
    let (start, end) = last_component_bounds(v);
    let c = slice_chars(v, start, end);
    let dot: Vec<char> = vec!['.'];
    let dots: Vec<char> = vec!['.', '.'];
    assert(dot@ =~= seq!['.']);
    assert(dots@ =~= seq!['.', '.']);
    if crate::directive::chars_eq(&c, &dot) || crate::directive::chars_eq(&c, &dots) {
        Vec::new()
    } else {
        c
    }
}

fn stem_len_exec(f: &Vec<char>) -> (r: usize)
    ensures
        r as int == stem_len(f@),
        r <= f@.len(),
{
    match find_last(f, '.') {
        Some(d) => if d > 0 {
            d
        } else {
            f.len()
        },
        None => f.len(),
    }
}

fn with_html_chars(v: &Vec<char>) -> (r: Vec<char>)
    ensures
        r@ == with_html_extension(v@),
{
    let f = file_name_chars(v);
    if f.len() == 0 {
        return slice_chars(v, 0, v.len());
    }
    let (start, end) = last_component_bounds(v);
    let n = stem_len_exec(&f);
    proof {
        assert(f@ == last_component(v@));
        assert(f@.len() == end - start);
    }
    let mut r = slice_chars(v, 0, start + n);
    push_all(&mut r, &vec!['.', 'h', 't', 'm', 'l']);
    proof {
        assert(v@.subrange(0, start + n) =~= base(v@).subrange(0, start + n));
    }
    r
}

/// The output file name for a source path; see `dst_file_name`.
pub fn create_dst_file_name(article_path: &str, flat: bool) -> (r: String)
    ensures
        r@ == dst_file_name(article_path@, flat),
{
    let v = chars_of(article_path);
    let base = if flat {
        file_name_chars(&v)
    } else if crate::directive::chars_eq(&v, &vec!['p', 'o', 's', 't', 's']) {
        assert(posts_prefix().subrange(0, 5) =~= seq!['p', 'o', 's', 't', 's']);
        assert(v@ =~= posts_prefix().subrange(0, 5));
        Vec::new()
    } else if v.len() >= 6 && v[0] == 'p' && v[1] == 'o' && v[2] == 's' && v[3] == 't' && v[4] == 's'
        && v[5] == '/' {
        assert(v@.subrange(0, 6) =~= posts_prefix());
        assert(v@ != posts_prefix().subrange(0, 5));
        slice_chars(&v, 6, v.len())
    } else {
        proof {
            assert(posts_prefix().subrange(0, 5) =~= seq!['p', 'o', 's', 't', 's']);
            if v@.len() >= 6 {
                assert(v@.subrange(0, 6) != posts_prefix()) by {
                    if v@.subrange(0, 6) == posts_prefix() {
                        assert(v@.subrange(0, 6)[0] == 'p');
                        assert(v@.subrange(0, 6)[1] == 'o');
                        assert(v@.subrange(0, 6)[2] == 's');
                        assert(v@.subrange(0, 6)[3] == 't');
                        assert(v@.subrange(0, 6)[4] == 's');
                        assert(v@.subrange(0, 6)[5] == '/');
                    }
                }
            }
        }
        v
    };
    string_of(&replace_chars(&with_html_chars(&base), ' ', '_'))
}

/// The default title of a document: its file stem with underscores turned
/// into spaces.
pub fn article_src_file_name_to_title(article_src_file_name: &str) -> (r: String)
    ensures
        r@ == replace_char(file_stem(article_src_file_name@), '_', ' '),
{
    let v = chars_of(article_src_file_name);
    let f = file_name_chars(&v);
    let n = stem_len_exec(&f);
    proof {
        lemma_last_index_bounds(f@, '.', f@.len() as int);
    }
    let stem = slice_chars(&f, 0, n);
    string_of(&replace_chars(&stem, '_', ' '))
}

} // verus!
