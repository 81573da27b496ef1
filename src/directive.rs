//! The directive parser: `[[!name argument]]` markers in a document body.

use vstd::prelude::*;
use crate::article::{tags_view, text_view, ArticleWithTags};
use crate::text::{
    chars_of, has_newline_or_tab, is_space, slice_chars, split_words, string_of, string_views,
    trim, trim_chars, words, char_is_space,
};

verus! {

/// The kinds of directive the parser knows; any other name is unsupported.
#[derive(Debug, Clone, Copy, PartialEq, Eq, Structural)]
pub enum Directive {
    Title,
    SpecialPage,
    Draft,
    Meta,
    Series,
    Tag,
    Img,
    Summary,
    Unsupported,
}

/// Why a directive was left in the text as it stands.
#[derive(Debug, Clone, Copy, PartialEq, Eq, Structural)]
pub enum PluginError {
    /// The text between the markers is not a name optionally followed by
    /// white space and an argument.
    Undecodable,
    /// The name is not one of the known directives.
    Unsupported,
    /// The argument holds a line break or a tab, or no valid timestamp.
    InvalidArgument,
}

/// A directive that was left in place, by the index of its first character.
#[derive(Debug, Clone, Copy, PartialEq, Eq, Structural)]
pub struct DirectiveFailure {
    pub start: usize,
    pub error: PluginError,
}

/// The part of a record that directives set.
pub struct MetaView {
    pub title: Option<Seq<char>>,
    pub modification_date: Option<i64>,
    pub summary: Option<Seq<char>>,
    pub tags: Option<Seq<Seq<char>>>,
    pub series: Option<Seq<char>>,
    pub draft: Option<bool>,
    pub special_page: Option<bool>,
}

pub open spec fn meta_of(a: ArticleWithTags) -> MetaView {
    MetaView {
        title: text_view(a.title),
        modification_date: a.modification_date,
        summary: text_view(a.summary),
        tags: match tags_view(a.tags) {
            Some(t) => Some(string_views(t)),
            None => None,
        },
        series: text_view(a.series),
        draft: a.draft,
        special_page: a.special_page,
    }
}

/// The fields of a record that no directive touches are equal.
pub open spec fn same_identity(a: ArticleWithTags, b: ArticleWithTags) -> bool {
    &&& a.id == b.id
    &&& a.src_file_name == b.src_file_name
    &&& a.dst_file_name == b.dst_file_name
    &&& a.timeline == b.timeline
    &&& a.anchorjs == b.anchorjs
    &&& a.tocify == b.tocify
    &&& a.live_updates == b.live_updates
}

/// A name for what chrono's `NaiveDateTime::parse_from_str` gives for a text
/// and a format: the seconds since the Unix epoch of that date and time read
/// as UTC, or `None` when the text does not match the format.
pub uninterp spec fn parsed_datetime(s: Seq<char>, fmt: Seq<char>) -> Option<i64>;

/// Relies on `chrono::NaiveDateTime::parse_from_str` followed by
/// `and_utc().timestamp()`: the result depends on the two texts alone.
#[verifier::external_body]
fn parse_datetime(s: &str, fmt: &str) -> (r: Option<i64>)
    ensures
        r == parsed_datetime(s@, fmt@),
{
    match chrono::NaiveDateTime::parse_from_str(s, fmt) {
        Ok(d) => Some(d.and_utc().timestamp()),
        Err(_) => None,
    }
}

pub open spec fn is_digit(c: char) -> bool {
    '0' <= c && c <= '9'
}

pub open spec fn is_word(c: char) -> bool {
    ('a' <= c && c <= 'z') || ('A' <= c && c <= 'Z') || is_digit(c) || c == '_'
}

/// ASCII lower case of `c`; other characters are unchanged.
pub open spec fn lower(c: char) -> char {
    match c {
        'A' => 'a',
        'B' => 'b',
        'C' => 'c',
        'D' => 'd',
        'E' => 'e',
        'F' => 'f',
        'G' => 'g',
        'H' => 'h',
        'I' => 'i',
        'J' => 'j',
        'K' => 'k',
        'L' => 'l',
        'M' => 'm',
        'N' => 'n',
        'O' => 'o',
        'P' => 'p',
        'Q' => 'q',
        'R' => 'r',
        'S' => 's',
        'T' => 't',
        'U' => 'u',
        'V' => 'v',
        'W' => 'w',
        'X' => 'x',
        'Y' => 'y',
        'Z' => 'z',
        _ => c,
    }
}

/// A timestamp of the shape `dddd-dd-dd dd:dd` starts at index `k`.
pub open spec fn date_at(s: Seq<char>, k: int) -> bool {
    &&& 0 <= k && k + 16 <= s.len()
    &&& is_digit(s[k]) && is_digit(s[k + 1]) && is_digit(s[k + 2]) && is_digit(s[k + 3])
    &&& s[k + 4] == '-' && is_digit(s[k + 5]) && is_digit(s[k + 6])
    &&& s[k + 7] == '-' && is_digit(s[k + 8]) && is_digit(s[k + 9])
    &&& s[k + 10] == ' ' && is_digit(s[k + 11]) && is_digit(s[k + 12])
    &&& s[k + 13] == ':' && is_digit(s[k + 14]) && is_digit(s[k + 15])
}

/// Index of the first timestamp of that shape in `s`.
pub open spec fn first_date(s: Seq<char>) -> Option<int> {
    if exists|k: int| date_at(s, k) {
        Some(choose|k: int| date_at(s, k) && forall|j: int| 0 <= j < k ==> !date_at(s, j))
    } else {
        None
    }
}

pub open spec fn datetime_format() -> Seq<char> {
    seq!['%', 'Y', '-', '%', 'm', '-', '%', 'd', ' ', '%', 'H', ':', '%', 'M']
}

pub open spec fn has_newline_or_tab_spec(s: Seq<char>) -> bool {
    exists|k: int| 0 <= k < s.len() && (s[k] == '\n' || s[k] == '\t')
}

/// `ws` joined by single spaces.
pub open spec fn join_spaced(ws: Seq<Seq<char>>) -> Seq<char>
    decreases ws.len(),
{
    if ws.len() == 0 {
        Seq::empty()
    } else if ws.len() == 1 {
        ws[0]
    } else {
        join_spaced(ws.drop_last()) + seq![' '] + ws.last()
    }
}

/// The markup an image directive is replaced by.
pub open spec fn img_markup(arg: Seq<char>) -> Seq<char> {
    let ws = words(arg);
    let url = if ws.len() > 0 {
        ws[0]
    } else {
        Seq::empty()
    };
    let attrs = if ws.len() > 0 {
        join_spaced(ws.subrange(1, ws.len() as int))
    } else {
        Seq::empty()
    };
    seq!['<', 'a', ' ', 'h', 'r', 'e', 'f', '=', '"'] + url + seq!['"', '>', '<', 'i', 'm', 'g', ' ', 's', 'r', 'c', '=', '"']
        + url + seq!['"', ' '] + attrs + seq!['>', '<', '/', 'a', '>']
}

/// What a directive of kind `kind` with argument `arg` does to the metadata
/// `m`: the text it is replaced by and the new metadata, or why it fails.
/// An argument holding a line break or a tab is malformed for every kind.
pub open spec fn apply_spec(kind: Directive, arg: Seq<char>, m: MetaView) -> Result<(Seq<char>, MetaView), PluginError> {
    if kind == Directive::Unsupported {
        Err(PluginError::Unsupported)
    } else if has_newline_or_tab_spec(arg) {
        Err(PluginError::InvalidArgument)
    } else {
        match kind {
            Directive::Title => Ok((Seq::empty(), MetaView { title: Some(trim(arg)), ..m })),
            Directive::SpecialPage => Ok((Seq::empty(), MetaView { special_page: Some(true), ..m })),
            Directive::Draft => Ok((Seq::empty(), MetaView { draft: Some(true), ..m })),
            Directive::Meta => match first_date(arg) {
                Some(k) => match parsed_datetime(arg.subrange(k, k + 16), datetime_format()) {
                    Some(t) => Ok((Seq::empty(), MetaView { modification_date: Some(t), ..m })),
                    None => Err(PluginError::InvalidArgument),
                },
                None => Err(PluginError::InvalidArgument),
            },
            Directive::Series => Ok((Seq::empty(), MetaView { series: Some(arg), ..m })),
            Directive::Tag => Ok((Seq::empty(), MetaView { tags: Some(words(arg)), ..m })),
            Directive::Img => Ok((img_markup(arg), m)),
            Directive::Summary => Ok((Seq::empty(), MetaView { summary: Some(trim(arg)), ..m })),
            Directive::Unsupported => Err(PluginError::Unsupported),
        }
    }
}

/// Length of the run of word characters at the start of `s` from `i`.
pub open spec fn word_run_end(s: Seq<char>, i: int) -> int
    decreases s.len() - i,
{
    if i >= s.len() || !is_word(s[i]) {
        i
    } else {
        word_run_end(s, i + 1)
    }
}

pub open spec fn lowered(s: Seq<char>) -> Seq<char> {
    s.map_values(|c: char| lower(c))
}

/// The directive kind a name selects, ignoring ASCII case.
pub open spec fn directive_of(name: Seq<char>) -> Directive {
    let n = lowered(name);
    if n == seq!['t', 'i', 't', 'l', 'e'] {
        Directive::Title
    } else if n == seq!['s', 'p', 'e', 'c', 'i', 'a', 'l', 'p', 'a', 'g', 'e'] {
        Directive::SpecialPage
    } else if n == seq!['d', 'r', 'a', 'f', 't'] {
        Directive::Draft
    } else if n == seq!['m', 'e', 't', 'a'] {
        Directive::Meta
    } else if n == seq!['s', 'e', 'r', 'i', 'e', 's'] {
        Directive::Series
    } else if n == seq!['t', 'a', 'g'] {
        Directive::Tag
    } else if n == seq!['i', 'm', 'g'] {
        Directive::Img
    } else if n == seq!['s', 'u', 'm', 'm', 'a', 'r', 'y'] {
        Directive::Summary
    } else {
        Directive::Unsupported
    }
}

/// Splits the text between the markers into a directive kind and its
/// trimmed argument: a non-empty run of word characters, then nothing or
/// white space and the argument.
pub open spec fn decode_spec(content: Seq<char>) -> Result<(Directive, Seq<char>), PluginError> {
    let e = word_run_end(content, 0);
    if e == 0 {
        Err(PluginError::Undecodable)
    } else if e < content.len() && !is_space(content[e]) {
        Err(PluginError::Undecodable)
    } else {
        Ok((directive_of(content.subrange(0, e)), trim(content.subrange(e, content.len() as int))))
    }
}

/// The outcome of the directive whose text between the markers is `content`.
#[verifier::opaque]
pub open spec fn run_spec(content: Seq<char>, m: MetaView) -> Result<(Seq<char>, MetaView), PluginError> {
    match decode_spec(content) {
        Ok((kind, arg)) => apply_spec(kind, arg, m),
        Err(e) => Err(e),
    }
}

pub fn lower_char(c: char) -> (r: char)
    ensures
        r == lower(c),
{
    match c {
        'A' => 'a',
        'B' => 'b',
        'C' => 'c',
        'D' => 'd',
        'E' => 'e',
        'F' => 'f',
        'G' => 'g',
        'H' => 'h',
        'I' => 'i',
        'J' => 'j',
        'K' => 'k',
        'L' => 'l',
        'M' => 'm',
        'N' => 'n',
        'O' => 'o',
        'P' => 'p',
        'Q' => 'q',
        'R' => 'r',
        'S' => 's',
        'T' => 't',
        'U' => 'u',
        'V' => 'v',
        'W' => 'w',
        'X' => 'x',
        'Y' => 'y',
        'Z' => 'z',
        _ => c,
    }
}

pub fn is_digit_exec(c: char) -> (r: bool)
    ensures
        r == is_digit(c),
{
    '0' <= c && c <= '9'
}

pub fn is_word_exec(c: char) -> (r: bool)
    ensures
        r == is_word(c),
{
    ('a' <= c && c <= 'z') || ('A' <= c && c <= 'Z') || is_digit_exec(c) || c == '_'
}

pub fn chars_eq(a: &Vec<char>, b: &Vec<char>) -> (r: bool)
    ensures
        r == (a@ == b@),
{
    if a.len() != b.len() {
        return false;
    }
    let mut i: usize = 0;
    while i < a.len()
        invariant
            a@.len() == b@.len(),
            0 <= i <= a@.len(),
            forall|k: int| 0 <= k < i ==> a@[k] == b@[k],
        decreases a@.len() - i,
    {
        if a[i] != b[i] {
            return false;
        }
        i = i + 1;
    }
    assert(a@ =~= b@);
    true
}

/// The directive kind that `name` selects.
pub fn directive_kind(name: &Vec<char>) -> (r: Directive)
    ensures
        r == directive_of(name@),
{
    let mut n: Vec<char> = Vec::new();
    let mut i: usize = 0;
    while i < name.len()
        invariant
            0 <= i <= name@.len(),
            n@ == lowered(name@.subrange(0, i as int)),
        decreases name@.len() - i,
    {
        n.push(lower_char(name[i]));
        i = i + 1;
        assert(n@ =~= lowered(name@.subrange(0, i as int)));
    }
    assert(name@.subrange(0, name@.len() as int) == name@);
    if chars_eq(&n, &vec!['t', 'i', 't', 'l', 'e']) {
        Directive::Title
    } else if chars_eq(&n, &vec!['s', 'p', 'e', 'c', 'i', 'a', 'l', 'p', 'a', 'g', 'e']) {
        Directive::SpecialPage
    } else if chars_eq(&n, &vec!['d', 'r', 'a', 'f', 't']) {
        Directive::Draft
    } else if chars_eq(&n, &vec!['m', 'e', 't', 'a']) {
        Directive::Meta
    } else if chars_eq(&n, &vec!['s', 'e', 'r', 'i', 'e', 's']) {
        Directive::Series
    } else if chars_eq(&n, &vec!['t', 'a', 'g']) {
        Directive::Tag
    } else if chars_eq(&n, &vec!['i', 'm', 'g']) {
        Directive::Img
    } else if chars_eq(&n, &vec!['s', 'u', 'm', 'm', 'a', 'r', 'y']) {
        Directive::Summary
    } else {
        Directive::Unsupported
    }
}

/// Splits the text between the markers into kind and trimmed argument.
pub fn decode(content: &Vec<char>) -> (r: Result<(Directive, Vec<char>), PluginError>)
    ensures
        match decode_spec(content@) {
            Ok((kind, arg)) => r is Ok && r.unwrap().0 == kind && r.unwrap().1@ == arg,
            Err(e) => r == Err::<(Directive, Vec<char>), PluginError>(e),
        },
{
    let mut e: usize = 0;
    while e < content.len() && is_word_exec(content[e])
        invariant
            0 <= e <= content@.len(),
            word_run_end(content@, e as int) == word_run_end(content@, 0),
        decreases content@.len() - e,
    {
        e = e + 1;
    }
    if e == 0 {
        return Err(PluginError::Undecodable);
    }
    if e < content.len() && !char_is_space(content[e]) {
        return Err(PluginError::Undecodable);
    }
    let name = slice_chars(content, 0, e);
    let rest = slice_chars(content, e, content.len());
    Ok((directive_kind(&name), trim_chars(&rest)))
}

/// The outcome of a handler: its result and the metadata before and after
/// agree with `expected`.
pub open spec fn handled(
    r: Result<String, PluginError>,
    expected: Result<(Seq<char>, MetaView), PluginError>,
    before: ArticleWithTags,
    after: ArticleWithTags,
) -> bool {
    &&& same_identity(before, after)
    &&& match expected {
        Ok((out, m)) => r is Ok && r.unwrap()@ == out && meta_of(after) == m,
        Err(e) => r == Err::<String, PluginError>(e) && meta_of(after) == meta_of(before),
    }
}

/// The title directive: sets the title to the trimmed argument.
pub fn title(input: &str, article: &mut ArticleWithTags) -> (r: Result<String, PluginError>)
    ensures
        handled(r, apply_spec(Directive::Title, input@, meta_of(*old(article))), *old(article), *final(article)),
{
    let v = chars_of(input);
    if has_newline_or_tab(&v) {
        return Err(PluginError::InvalidArgument);
    }
    article.title = Some(string_of(&trim_chars(&v)));
    Ok(String::new())
}

/// The specialpage directive: marks the record as a special page.
pub fn specialpage(input: &str, article: &mut ArticleWithTags) -> (r: Result<String, PluginError>)
    ensures
        handled(r, apply_spec(Directive::SpecialPage, input@, meta_of(*old(article))), *old(article), *final(article)),
{
    let v = chars_of(input);
    if has_newline_or_tab(&v) {
        return Err(PluginError::InvalidArgument);
    }
    article.special_page = Some(true);
    Ok(String::new())
}

/// The draft directive: marks the record as a draft.
pub fn draft(input: &str, article: &mut ArticleWithTags) -> (r: Result<String, PluginError>)
    ensures
        handled(r, apply_spec(Directive::Draft, input@, meta_of(*old(article))), *old(article), *final(article)),
{
    let v = chars_of(input);
    if has_newline_or_tab(&v) {
        return Err(PluginError::InvalidArgument);
    }
    article.draft = Some(true);
    Ok(String::new())
}

/// The series directive: sets the series name to the argument.
pub fn series(input: &str, article: &mut ArticleWithTags) -> (r: Result<String, PluginError>)
    ensures
        handled(r, apply_spec(Directive::Series, input@, meta_of(*old(article))), *old(article), *final(article)),
{
    let v = chars_of(input);
    if has_newline_or_tab(&v) {
        return Err(PluginError::InvalidArgument);
    }
    article.series = Some(string_of(&v));
    Ok(String::new())
}

/// The summary directive: sets the summary to the trimmed argument.
pub fn summary(input: &str, article: &mut ArticleWithTags) -> (r: Result<String, PluginError>)
    ensures
        handled(r, apply_spec(Directive::Summary, input@, meta_of(*old(article))), *old(article), *final(article)),
{
    let v = chars_of(input);
    if has_newline_or_tab(&v) {
        return Err(PluginError::InvalidArgument);
    }
    article.summary = Some(string_of(&trim_chars(&v)));
    Ok(String::new())
}

/// The tag directive: sets the tags to the white-space separated words of
/// the argument.
pub fn tag(input: &str, article: &mut ArticleWithTags) -> (r: Result<String, PluginError>)
    ensures
        handled(r, apply_spec(Directive::Tag, input@, meta_of(*old(article))), *old(article), *final(article)),
{
    let v = chars_of(input);
    if has_newline_or_tab(&v) {
        return Err(PluginError::InvalidArgument);
    }
    article.tags = Some(split_words(&v));
    Ok(String::new())
}

pub fn date_at_exec(v: &Vec<char>, k: usize) -> (r: bool)
    ensures
        r == date_at(v@, k as int),
{
    if k > v.len() || v.len() - k < 16 {
        return false;
    }
    is_digit_exec(v[k]) && is_digit_exec(v[k + 1]) && is_digit_exec(v[k + 2]) && is_digit_exec(
        v[k + 3],
    ) && v[k + 4] == '-' && is_digit_exec(v[k + 5]) && is_digit_exec(v[k + 6]) && v[k + 7] == '-'
        && is_digit_exec(v[k + 8]) && is_digit_exec(v[k + 9]) && v[k + 10] == ' ' && is_digit_exec(
        v[k + 11],
    ) && is_digit_exec(v[k + 12]) && v[k + 13] == ':' && is_digit_exec(v[k + 14]) && is_digit_exec(
        v[k + 15],
    )
}

/// The meta directive: sets the timestamp to the first `YYYY-MM-DD HH:MM`
/// of the argument, read as UTC.
pub fn meta(input: &str, article: &mut ArticleWithTags) -> (r: Result<String, PluginError>)
    ensures
        handled(r, apply_spec(Directive::Meta, input@, meta_of(*old(article))), *old(article), *final(article)),
{
    let v = chars_of(input);
    if has_newline_or_tab(&v) {
        return Err(PluginError::InvalidArgument);
    }
    let mut k: usize = 0;
    while k < v.len()
        invariant
            0 <= k <= v@.len(),
            v@ == input@,
            !has_newline_or_tab_spec(v@),
            *article == *old(article),
            forall|j: int| 0 <= j < k ==> !date_at(v@, j),
        decreases v@.len() - k,
    {
        if date_at_exec(&v, k) {
            proof {
                let c = choose|c: int| date_at(v@, c) && forall|j: int| 0 <= j < c ==> !date_at(v@, j);
                assert(c == k) by {
                    if c < k {
                    } else if c > k {
                        assert(!date_at(v@, k as int));
                    }
                }
            }
            let stamp = string_of(&slice_chars(&v, k, k + 16));
            let fmt = "%Y-%m-%d %H:%M";
            proof {
                reveal_strlit("%Y-%m-%d %H:%M");
                assert(fmt@ =~= datetime_format());
            }
            match parse_datetime(stamp.as_str(), fmt) {
                Some(t) => {
                    article.modification_date = Some(t);
                    return Ok(String::new());
                },
                None => {
                    return Err(PluginError::InvalidArgument);
                },
            }
        }
        k = k + 1;
    }
    proof {
        assert forall|j: int| !date_at(v@, j) by {
            if 0 <= j < v@.len() {
            }
        }
    }
    Err(PluginError::InvalidArgument)
}

/// Appends the characters of `s` to `out`.
pub fn push_all(out: &mut Vec<char>, s: &Vec<char>)
    ensures
        final(out)@ == old(out)@ + s@,
{
    let mut i: usize = 0;
    while i < s.len()
        invariant
            0 <= i <= s@.len(),
            out@ == old(out)@ + s@.subrange(0, i as int),
        decreases s@.len() - i,
    {
        out.push(s[i]);
        i = i + 1;
        assert(out@ =~= old(out)@ + s@.subrange(0, i as int));
    }
    assert(s@.subrange(0, s@.len() as int) == s@);
}

/// The img directive: replaced by a link to the image around the image
/// itself, with the remaining words of the argument as attributes.
pub fn img(input: &str, article: &mut ArticleWithTags) -> (r: Result<String, PluginError>)
    ensures
        handled(r, apply_spec(Directive::Img, input@, meta_of(*old(article))), *old(article), *final(article)),
{
    let v = chars_of(input);
    if has_newline_or_tab(&v) {
        return Err(PluginError::InvalidArgument);
    }
    let ws = split_words(&v);
    let ghost w = words(input@);
    let mut url: Vec<char> = Vec::new();
    let mut attrs: Vec<char> = Vec::new();
    if ws.len() > 0 {
        url = chars_of(ws[0].as_str());
        assert(url@ == w[0]);
        let mut i: usize = 1;
        while i < ws.len()
            invariant
                1 <= i <= ws@.len(),
                string_views(ws@) == w,
                attrs@ == join_spaced(w.subrange(1, i as int)),
            decreases ws@.len() - i,
        {
            let ghost a0 = attrs@;
            if i > 1 {
                attrs.push(' ');
            }
            let word = chars_of(ws[i].as_str());
            push_all(&mut attrs, &word);
            proof {
                let sub = w.subrange(1, i + 1);
                assert(sub.drop_last() =~= w.subrange(1, i as int));
                assert(sub.last() == w[i as int]);
                if i > 1 {
                    assert(attrs@ =~= a0 + seq![' '] + w[i as int]);
                } else {
                    assert(sub.len() == 1);
                    assert(attrs@ =~= w[i as int]);
                }
            }
            i = i + 1;
        }
    } else {
        assert(url@ =~= Seq::<char>::empty());
    }
    let mut out: Vec<char> = Vec::new();
    push_all(&mut out, &vec!['<', 'a', ' ', 'h', 'r', 'e', 'f', '=', '"']);
    push_all(&mut out, &url);
    push_all(&mut out, &vec!['"', '>', '<', 'i', 'm', 'g', ' ', 's', 'r', 'c', '=', '"']);
    push_all(&mut out, &url);
    push_all(&mut out, &vec!['"', ' ']);
    push_all(&mut out, &attrs);
    push_all(&mut out, &vec!['>', '<', '/', 'a', '>']);
    proof {
        if w.len() > 0 {
            assert(attrs@ == join_spaced(w.subrange(1, w.len() as int)));
        } else {
            assert(attrs@ =~= Seq::<char>::empty());
        }
        assert(out@ =~= img_markup(input@));
    }
    Ok(string_of(&out))
}

/// Runs the directive whose text between the markers is `content`.
pub fn run_directive(content: &Vec<char>, article: &mut ArticleWithTags) -> (r: Result<String, PluginError>)
    ensures
        handled(r, run_spec(content@, meta_of(*old(article))), *old(article), *final(article)),
{
    reveal(run_spec);
    match decode(content) {
        Err(e) => Err(e),
        Ok((kind, arg)) => {
            let a = string_of(&arg);
            let input = a.as_str();
            match kind {
                Directive::Title => title(input, article),
                Directive::SpecialPage => specialpage(input, article),
                Directive::Draft => draft(input, article),
                Directive::Meta => meta(input, article),
                Directive::Series => series(input, article),
                Directive::Tag => tag(input, article),
                Directive::Img => img(input, article),
                Directive::Summary => summary(input, article),
                Directive::Unsupported => Err(PluginError::Unsupported),
            }
        },
    }
}

/// `[[!` starts at index `i`.
pub open spec fn opens_at(s: Seq<char>, i: int) -> bool {
    0 <= i && i + 3 <= s.len() && s[i] == '[' && s[i + 1] == '[' && s[i + 2] == '!'
}

/// Index of the first `]]` at or after `j` with no line break before it.
pub open spec fn close_from(s: Seq<char>, j: int) -> Option<int>
    decreases s.len() - j,
{
    if j < 0 || j + 1 >= s.len() {
        None
    } else if s[j] == ']' && s[j + 1] == ']' {
        Some(j)
    } else if s[j] == '\n' {
        None
    } else {
        close_from(s, j + 1)
    }
}

/// Index just past the directive that starts at `i`, or -1 when none does.
pub open spec fn directive_end(s: Seq<char>, i: int) -> int {
    if opens_at(s, i) && close_from(s, i + 3) is Some {
        close_from(s, i + 3).unwrap() + 2
    } else {
        -1
    }
}

/// The text from index `i` on with every directive replaced, and the
/// metadata the directives leave, starting from `m`. A directive that fails
/// stays in the text as it stands.
#[verifier::opaque]
pub open spec fn scan(s: Seq<char>, i: int, m: MetaView) -> (Seq<char>, MetaView)
    decreases s.len() - i,
{
    if i < 0 || i >= s.len() {
        (Seq::empty(), m)
    } else if i < directive_end(s, i) <= s.len() {
        let e = directive_end(s, i) - 2;
        let (out, m1) = match run_spec(s.subrange(i + 3, e), m) {
            Ok((o, m1)) => (o, m1),
            Err(_) => (s.subrange(i, e + 2), m),
        };
        let (rest, m2) = scan(s, e + 2, m1);
        (out + rest, m2)
    } else {
        let (rest, m2) = scan(s, i + 1, m);
        (seq![s[i]] + rest, m2)
    }
}

/// The failures that `scan` meets from index `i` on, each with the index of
/// the directive's first character.
#[verifier::opaque]
pub open spec fn scan_failures(s: Seq<char>, i: int, m: MetaView) -> Seq<DirectiveFailure>
    decreases s.len() - i,
{
    if i < 0 || i >= s.len() {
        Seq::empty()
    } else if i < directive_end(s, i) <= s.len() {
        let e = directive_end(s, i) - 2;
        match run_spec(s.subrange(i + 3, e), m) {
            Ok((_, m1)) => scan_failures(s, e + 2, m1),
            Err(err) => seq![DirectiveFailure { start: i as usize, error: err }] + scan_failures(s, e + 2, m),
        }
    } else {
        scan_failures(s, i + 1, m)
    }
}

proof fn lemma_close_from_bounds(s: Seq<char>, j: int)
    ensures
        close_from(s, j) is Some ==> j <= close_from(s, j).unwrap() && close_from(s, j).unwrap() + 2
            <= s.len(),
    decreases s.len() - j,
{
    if j >= 0 && j + 1 < s.len() && !(s[j] == ']' && s[j + 1] == ']') && s[j] != '\n' {
        lemma_close_from_bounds(s, j + 1);
    }
}

/// One step of `scan` and `scan_failures` at index `i`.
proof fn lemma_scan_step(s: Seq<char>, i: int, m: MetaView)
    requires
        0 <= i < s.len(),
    ensures
        i < directive_end(s, i) <= s.len() ==> {
            let e = directive_end(s, i) - 2;
            match run_spec(s.subrange(i + 3, e), m) {
                Ok((o, m1)) => scan(s, i, m) == (o + scan(s, e + 2, m1).0, scan(s, e + 2, m1).1)
                    && scan_failures(s, i, m) == scan_failures(s, e + 2, m1),
                Err(err) => scan(s, i, m) == (s.subrange(i, e + 2) + scan(s, e + 2, m).0, scan(s, e + 2, m).1)
                    && scan_failures(s, i, m) == seq![DirectiveFailure { start: i as usize, error: err }]
                    + scan_failures(s, e + 2, m),
            }
        },
        !(i < directive_end(s, i) <= s.len()) ==> scan(s, i, m) == (seq![s[i]] + scan(s, i + 1, m).0, scan(s, i + 1, m).1)
            && scan_failures(s, i, m) == scan_failures(s, i + 1, m),
{
    reveal_with_fuel(scan, 1);
    reveal_with_fuel(scan_failures, 1);
}

proof fn lemma_scan_end(s: Seq<char>, m: MetaView)
    ensures
        scan(s, s.len() as int, m) == (Seq::<char>::empty(), m),
        scan_failures(s, s.len() as int, m) == Seq::<DirectiveFailure>::empty(),
{
    reveal_with_fuel(scan, 1);
    reveal_with_fuel(scan_failures, 1);
}

pub fn find_close(v: &Vec<char>, j: usize) -> (r: Option<usize>)
    ensures
        match r {
            Some(e) => close_from(v@, j as int) == Some(e as int),
            None => close_from(v@, j as int) is None,
        },
{
    let mut k: usize = j;
    while k < v.len()
        invariant
            j <= k,
            close_from(v@, k as int) == close_from(v@, j as int),
        decreases v@.len() - k,
    {
        if k + 1 >= v.len() {
            return None;
        }
        if v[k] == ']' && v[k + 1] == ']' {
            return Some(k);
        }
        if v[k] == '\n' {
            return None;
        }
        k = k + 1;
    }
    None
}

/// Replaces every directive `[[!name argument]]` of `text` by what it
/// stands for and applies it to `article`. A directive that fails stays in
/// the text verbatim and is reported in `failures` with the index of its
/// first character; the rest of the text is still processed.
pub fn eval_plugins_reporting(
    text: &str,
    article: &mut ArticleWithTags,
    failures: &mut Vec<DirectiveFailure>,
) -> (r: String)
    ensures
        r@ == scan(text@, 0, meta_of(*old(article))).0,
        meta_of(*final(article)) == scan(text@, 0, meta_of(*old(article))).1,
        same_identity(*old(article), *final(article)),
        final(failures)@ == old(failures)@ + scan_failures(text@, 0, meta_of(*old(article))),
{
    let v = chars_of(text);
    let mut out: Vec<char> = Vec::new();
    let mut i: usize = 0;
    while i < v.len()
        invariant
            v@ == text@,
            0 <= i <= v@.len(),
            out@ + scan(v@, i as int, meta_of(*article)).0 == scan(v@, 0, meta_of(*old(article))).0,
            scan(v@, i as int, meta_of(*article)).1 == scan(v@, 0, meta_of(*old(article))).1,
            same_identity(*old(article), *article),
            failures@ + scan_failures(v@, i as int, meta_of(*article)) == old(failures)@
                + scan_failures(v@, 0, meta_of(*old(article))),
        decreases v@.len() - i,
    {
        let ghost m0 = meta_of(*article);
        let ghost s = v@;
        let ghost f0 = failures@;
        let opens = v.len() - i >= 3 && v[i] == '[' && v[i + 1] == '[' && v[i + 2] == '!';
        let close = if opens {
            find_close(&v, i + 3)
        } else {
            None
        };
        proof {
            lemma_close_from_bounds(s, i + 3);
        }
        match close {
            Some(e) => {
                let content = slice_chars(&v, i + 3, e);
                let ghost before = *article;
                match run_directive(&content, article) {
                    Ok(o) => {
                        let oc = chars_of(o.as_str());
                        push_all(&mut out, &oc);
                    },
                    Err(err) => {
                        let verbatim = slice_chars(&v, i, e + 2);
                        push_all(&mut out, &verbatim);
                        failures.push(DirectiveFailure { start: i, error: err });
                    },
                }
                proof {
                    lemma_scan_step(s, i as int, m0);
                    let (o1, m1) = match run_spec(s.subrange(i + 3, e as int), m0) {
                        Ok((o, m1)) => (o, m1),
                        Err(_) => (s.subrange(i as int, e + 2), m0),
                    };
                    assert(meta_of(*article) == m1);
                    assert(scan(s, i as int, m0).0 == o1 + scan(s, e + 2, m1).0);
                    assert(scan(s, i as int, m0).1 == scan(s, e + 2, m1).1);
                    assert(out@ + scan(s, e + 2, m1).0 =~= scan(s, 0, meta_of(*old(article))).0);
                    match run_spec(s.subrange(i + 3, e as int), m0) {
                        Ok(_) => {
                            assert(failures@ == f0);
                        },
                        Err(err) => {
                            assert(failures@ == f0.push(DirectiveFailure { start: i, error: err }));
                            assert(failures@ + scan_failures(s, e + 2, m1) =~= f0 + scan_failures(s, i as int, m0));
                        },
                    }
                }
                i = e + 2;
            },
            None => {
                out.push(v[i]);
                proof {
                    lemma_scan_step(s, i as int, m0);
                    assert(scan(s, i as int, m0).0 == seq![s[i as int]] + scan(s, i + 1, m0).0);
                    assert(out@ + scan(s, i + 1, m0).0 =~= scan(s, 0, meta_of(*old(article))).0);
                    assert(scan_failures(s, i as int, m0) == scan_failures(s, i + 1, m0));
                }
                i = i + 1;
            },
        }
    }
    proof {
        lemma_scan_end(v@, meta_of(*article));
        assert(out@ + Seq::<char>::empty() =~= out@);
        assert(failures@ + Seq::<DirectiveFailure>::empty() =~= failures@);
    }
    string_of(&out)
}

/// Replaces the directives of `text` and applies them to `article`; see
/// `eval_plugins_reporting`. The result is always `Ok`.
pub fn eval_plugins(text: &str, article: &mut ArticleWithTags) -> (r: Result<String, PluginError>)
    ensures
        r is Ok,
        r.unwrap()@ == scan(text@, 0, meta_of(*old(article))).0,
        meta_of(*final(article)) == scan(text@, 0, meta_of(*old(article))).1,
        same_identity(*old(article), *final(article)),
{
    let mut failures: Vec<DirectiveFailure> = Vec::new();
    Ok(eval_plugins_reporting(text, article, &mut failures))
}

/// Runs a whole directive `[[!name argument]]` on `article`.
pub fn exec_plugin(input: &str, article: &mut ArticleWithTags) -> (r: Result<String, PluginError>)
    ensures
        ({
            let s = input@;
            if s.len() >= 5 && opens_at(s, 0) && s[s.len() - 2] == ']' && s[s.len() - 1] == ']' {
                handled(r, run_spec(s.subrange(3, s.len() - 2), meta_of(*old(article))), *old(article), *final(article))
            } else {
                r == Err::<String, PluginError>(PluginError::Undecodable) && *final(article) == *old(article)
            }
        }),
{
    let v = chars_of(input);
    let n = v.len();
    if n >= 5 && v[0] == '[' && v[1] == '[' && v[2] == '!' && v[n - 2] == ']' && v[n - 1] == ']' {
        let content = slice_chars(&v, 3, n - 2);
        run_directive(&content, article)
    } else {
        Err(PluginError::Undecodable)
    }
}

} // verus!
