//! Character-level helpers: trimming, word splitting, UTF-8 lengths.

use vstd::prelude::*;

verus! {

/// Relies on `str::chars` collected into a `Vec`: the characters of the
/// string, in order.
#[verifier::external_body]
pub(crate) fn chars_of(s: &str) -> (r: Vec<char>)
    ensures
        r@ == s@,
{
    s.chars().collect()
}

/// Relies on collecting `char`s into a `String`: the string made of exactly
/// these characters, in order.
#[verifier::external_body]
pub(crate) fn string_of(v: &Vec<char>) -> (r: String)
    ensures
        r@ == v@,
{
    v.iter().collect()
}

/// Number of bytes that the UTF-8 encoding of `c` takes.
pub open spec fn utf8_len(c: char) -> nat {
    if (c as u32) < 0x80 {
        1
    } else if (c as u32) < 0x800 {
        2
    } else if (c as u32) < 0x10000 {
        3
    } else {
        4
    }
}

/// Byte offset at which the character with index `k` starts.
pub open spec fn byte_offset(s: Seq<char>, k: int) -> nat
    decreases k,
{
    if k <= 0 {
        0
    } else {
        byte_offset(s, k - 1) + utf8_len(s[k - 1])
    }
}

pub fn char_utf8_len(c: char) -> (r: usize)
    ensures
        r == utf8_len(c),
{
    if (c as u32) < 0x80 {
        1
    } else if (c as u32) < 0x800 {
        2
    } else if (c as u32) < 0x10000 {
        3
    } else {
        4
    }
}

/// Whether `c` is white space in the sense of `char::is_whitespace`.
pub open spec fn is_space(c: char) -> bool {
    c == ' ' || c == '\t' || c == '\n' || c == '\r' || c == '\x0B' || c == '\x0C'
        || c == '\u{85}' || c == '\u{A0}' || c == '\u{1680}' || ('\u{2000}' <= c && c <= '\u{200A}')
        || c == '\u{2028}' || c == '\u{2029}' || c == '\u{202F}' || c == '\u{205F}'
        || c == '\u{3000}'
}

pub fn char_is_space(c: char) -> (r: bool)
    ensures
        r == is_space(c),
{
    c == ' ' || c == '\t' || c == '\n' || c == '\r' || c == '\x0B' || c == '\x0C'
        || c == '\u{85}' || c == '\u{A0}' || c == '\u{1680}' || ('\u{2000}' <= c && c <= '\u{200A}')
        || c == '\u{2028}' || c == '\u{2029}' || c == '\u{202F}' || c == '\u{205F}'
        || c == '\u{3000}'
}

/// Index of the first non-space character at or after `i`, or the length.
pub open spec fn first_non_space(s: Seq<char>, i: int) -> int
    decreases s.len() - i,
{
    if i >= s.len() {
        s.len() as int
    } else if is_space(s[i]) {
        first_non_space(s, i + 1)
    } else {
        i
    }
}

/// End of the text once trailing spaces before `j` are dropped.
pub open spec fn end_non_space(s: Seq<char>, j: int) -> int
    decreases j,
{
    if j <= 0 {
        0
    } else if is_space(s[j - 1]) {
        end_non_space(s, j - 1)
    } else {
        j
    }
}

/// `s` without leading and trailing white space, as `str::trim` gives it.
pub open spec fn trim(s: Seq<char>) -> Seq<char> {
    let i = first_non_space(s, 0);
    let j = end_non_space(s, s.len() as int);
    if i < j {
        s.subrange(i, j)
    } else {
        Seq::empty()
    }
}

/// The characters `v[from..to]`.
pub fn slice_chars(v: &Vec<char>, from: usize, to: usize) -> (r: Vec<char>)
    requires
        from <= to <= v@.len(),
    ensures
        r@ == v@.subrange(from as int, to as int),
{
    let mut r: Vec<char> = Vec::new();
    let mut i: usize = from;
    while i < to
        invariant
            from <= i <= to,
            to <= v@.len(),
            r@ == v@.subrange(from as int, i as int),
        decreases to - i,
    {
        r.push(v[i]);
        i = i + 1;
    }
    r
}

/// `v` without leading and trailing white space.
pub fn trim_chars(v: &Vec<char>) -> (r: Vec<char>)
    ensures
        r@ == trim(v@),
{
    let mut i: usize = 0;
    while i < v.len() && char_is_space(v[i])
        invariant
            0 <= i <= v@.len(),
            first_non_space(v@, i as int) == first_non_space(v@, 0),
        decreases v@.len() - i,
    {
        i = i + 1;
    }
    let mut j: usize = v.len();
    while j > 0 && char_is_space(v[j - 1])
        invariant
            0 <= j <= v@.len(),
            end_non_space(v@, j as int) == end_non_space(v@, v@.len() as int),
        decreases j,
    {
        j = j - 1;
    }
    if i < j {
        slice_chars(v, i, j)
    } else {
        Vec::new()
    }
}

/// Whether `v` holds a line break or a tab.
pub fn has_newline_or_tab(v: &Vec<char>) -> (r: bool)
    ensures
        r == exists|k: int| 0 <= k < v@.len() && (v@[k] == '\n' || v@[k] == '\t'),
{
    let mut i: usize = 0;
    while i < v.len()
        invariant
            0 <= i <= v@.len(),
            forall|k: int| 0 <= k < i ==> v@[k] != '\n' && v@[k] != '\t',
        decreases v@.len() - i,
    {
        if v[i] == '\n' || v[i] == '\t' {
            return true;
        }
        i = i + 1;
    }
    false
}

/// The white-space separated words of `s` from index `i` on, where `start`
/// is where the word being read began, as `str::split_whitespace` gives them.
pub open spec fn words_from(s: Seq<char>, i: int, start: Option<int>) -> Seq<Seq<char>>
    decreases s.len() - i,
{
    if i >= s.len() {
        match start {
            Some(st) => seq![s.subrange(st, s.len() as int)],
            None => Seq::empty(),
        }
    } else if is_space(s[i]) {
        match start {
            Some(st) => seq![s.subrange(st, i)] + words_from(s, i + 1, None),
            None => words_from(s, i + 1, None),
        }
    } else {
        match start {
            Some(st) => words_from(s, i + 1, Some(st)),
            None => words_from(s, i + 1, Some(i)),
        }
    }
}

pub open spec fn words(s: Seq<char>) -> Seq<Seq<char>> {
    words_from(s, 0, None)
}

/// The string views of a sequence of strings.
pub open spec fn string_views(v: Seq<String>) -> Seq<Seq<char>> {
    v.map_values(|x: String| x@)
}

/// The white-space separated words of `v`.
pub fn split_words(v: &Vec<char>) -> (r: Vec<String>)
    ensures
        string_views(r@) == words(v@),
{
    let mut r: Vec<String> = Vec::new();
    let mut start: Option<usize> = None;
    let mut i: usize = 0;
    while i < v.len()
        invariant
            0 <= i <= v@.len(),
            match start {
                Some(st) => st < i,
                None => true,
            },
            string_views(r@) + words_from(
                v@,
                i as int,
                match start {
                    Some(st) => Some(st as int),
                    None => None,
                },
            ) == words(v@),
        decreases v@.len() - i,
    {
        let ghost r0 = string_views(r@);
        if char_is_space(v[i]) {
            match start {
                Some(st) => {
                    let w = slice_chars(v, st, i);
                    r.push(string_of(&w));
                    proof {
                        assert(string_views(r@) =~= r0.push(v@.subrange(st as int, i as int)));
                        assert(r0 + (seq![v@.subrange(st as int, i as int)] + words_from(v@, i + 1, None))
                            =~= r0.push(v@.subrange(st as int, i as int)) + words_from(v@, i + 1, None));
                    }
                },
                None => {},
            }
            start = None;
        } else {
            match start {
                Some(_) => {},
                None => {
                    start = Some(i);
                },
            }
        }
        i = i + 1;
    }
    match start {
        Some(st) => {
            let ghost r0 = string_views(r@);
            let w = slice_chars(v, st, v.len());
            r.push(string_of(&w));
            proof {
                assert(string_views(r@) =~= r0.push(v@.subrange(st as int, v@.len() as int)));
                assert(r0 + seq![v@.subrange(st as int, v@.len() as int)] =~= r0.push(
                    v@.subrange(st as int, v@.len() as int),
                ));
            }
        },
        None => {
            assert(string_views(r@) + Seq::<Seq<char>>::empty() =~= string_views(r@));
        },
    }
    r
}

} // verus!
