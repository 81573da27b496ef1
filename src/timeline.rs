//! Link buttons of the timeline page.

use vstd::prelude::*;
use crate::article::ArticleWithTags;
use crate::text::{chars_of, string_of};

verus! {

/// Appends the characters of `s` to `out`.
pub fn push_str(out: &mut Vec<char>, s: &str)
    ensures
        final(out)@ == old(out)@ + s@,
{
    let v = chars_of(s);
    crate::directive::push_all(out, &v);
}

/// The timeline link of one tag.
pub open spec fn tag_link(t: Seq<char>) -> Seq<char> {
    "<a href=\"timeline.html?filter=tag::"@ + t + "\" class=\"tagbtn btn btn-primary\">"@ + t + "</a>"@
}

/// The timeline links of the first `n` tags, in order.
pub open spec fn tag_links(tags: Seq<String>, n: int) -> Seq<char>
    decreases n,
{
    if n <= 0 {
        Seq::empty()
    } else {
        tag_links(tags, n - 1) + tag_link(tags[n - 1]@)
    }
}

/// Links from each tag of a record to the timeline filtered by that tag.
pub fn tag_links_to_timeline(tags: Option<Vec<String>>) -> (r: String)
    ensures
        r@ == match tags {
            Some(t) => tag_links(t@, t@.len() as int),
            None => Seq::empty(),
        },
{
    match tags {
        Some(t) => {
            let mut out: Vec<char> = Vec::new();
            let mut i: usize = 0;
            while i < t.len()
                invariant
                    0 <= i <= t@.len(),
                    out@ == tag_links(t@, i as int),
                decreases t@.len() - i,
            {
                push_str(&mut out, "<a href=\"timeline.html?filter=tag::");
                push_str(&mut out, t[i].as_str());
                push_str(&mut out, "\" class=\"tagbtn btn btn-primary\">");
                push_str(&mut out, t[i].as_str());
                push_str(&mut out, "</a>");
                i = i + 1;
                assert(out@ =~= tag_links(t@, i as int));
            }
            string_of(&out)
        },
        None => String::new(),
    }
}

/// The timeline button of a series.
pub open spec fn series_link(s: Seq<char>) -> Seq<char> {
    "<a class=\"seriesbtn btn btn-primary\" onClick=\"setFilter('series::"@ + s + "', 1)\">"@ + s
        + "</a>"@
}

/// The timeline filter button of a record's series, empty without one.
pub fn series_to_link_list(series: Option<String>) -> (r: String)
    ensures
        r@ == match series {
            Some(s) => series_link(s@),
            None => Seq::empty(),
        },
{
    match series {
        Some(s) => {
            let mut out: Vec<char> = Vec::new();
            push_str(&mut out, "<a class=\"seriesbtn btn btn-primary\" onClick=\"setFilter('series::");
            push_str(&mut out, s.as_str());
            push_str(&mut out, "', 1)\">");
            push_str(&mut out, s.as_str());
            push_str(&mut out, "</a>");
            assert(out@ =~= series_link(s@));
            string_of(&out)
        },
        None => String::new(),
    }
}

/// The timeline filter button of one tag.
pub open spec fn tag_filter(t: Seq<char>) -> Seq<char> {
    "<a class=\"tagbtn btn btn-primary\" onClick=\"setFilter('tag::"@ + t + "', 1)\">"@ + t + "</a>"@
}

/// The filter buttons of the first `n` tags, in order.
pub open spec fn tag_filters(tags: Seq<String>, n: int) -> Seq<char>
    decreases n,
{
    if n <= 0 {
        Seq::empty()
    } else {
        tag_filters(tags, n - 1) + tag_filter(tags[n - 1]@)
    }
}

/// The timeline filter buttons of a record's tags, empty without tags.
pub fn tag_to_link_list(article: &ArticleWithTags) -> (r: String)
    ensures
        r@ == match article.tags {
            Some(t) => tag_filters(t@, t@.len() as int),
            None => Seq::empty(),
        },
{
    let mut out: Vec<char> = Vec::new();
    match &article.tags {
        Some(t) => {
            let mut i: usize = 0;
            while i < t.len()
                invariant
                    0 <= i <= t@.len(),
                    out@ == tag_filters(t@, i as int),
                decreases t@.len() - i,
            {
                push_str(&mut out, "<a class=\"tagbtn btn btn-primary\" onClick=\"setFilter('tag::");
                push_str(&mut out, t[i].as_str());
                push_str(&mut out, "', 1)\">");
                push_str(&mut out, t[i].as_str());
                push_str(&mut out, "</a>");
                i = i + 1;
                assert(out@ =~= tag_filters(t@, i as int));
            }
        },
        None => {},
    }
    string_of(&out)
}

} // verus!
