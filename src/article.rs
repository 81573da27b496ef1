//! Document records as stored and as handed out, with their tags.

use vstd::prelude::*;

verus! {

/// A document record as handed to and returned by the store, with its tags.
/// `id` is `None` for a record that has not been stored yet.
/// `modification_date` is in seconds since the Unix epoch (UTC).
#[derive(Debug, Clone, PartialEq, Eq)]
pub struct ArticleWithTags {
    pub id: Option<u64>,
    pub src_file_name: String,
    pub dst_file_name: String,
    pub title: Option<String>,
    pub modification_date: Option<i64>,
    pub summary: Option<String>,
    pub tags: Option<Vec<String>>,
    pub series: Option<String>,
    pub draft: Option<bool>,
    pub special_page: Option<bool>,
    pub timeline: Option<bool>,
    pub anchorjs: Option<bool>,
    pub tocify: Option<bool>,
    pub live_updates: Option<bool>,
}

/// A stored document record, without its tags.
#[derive(Debug, Clone, PartialEq, Eq)]
pub struct Article {
    pub id: u64,
    pub src_file_name: String,
    pub dst_file_name: String,
    pub title: Option<String>,
    pub modification_date: Option<i64>,
    pub summary: Option<String>,
    pub series: Option<String>,
    pub draft: Option<bool>,
    pub special_page: Option<bool>,
    pub timeline: Option<bool>,
    pub anchorjs: Option<bool>,
    pub tocify: Option<bool>,
    pub live_updates: Option<bool>,
}

/// A row of the tag table.
#[derive(Debug)]
pub struct Tag {
    pub id: u64,
    pub name: String,
}

/// A row of the association between documents and tags.
#[derive(Debug, Clone, Copy, PartialEq, Eq, Structural)]
pub struct ArticleTag {
    pub article_id: u64,
    pub tag_id: u64,
}

pub fn clone_opt_string(s: &Option<String>) -> (r: Option<String>)
    ensures
        r == *s,
{
    match s {
        Some(x) => Some(x.clone()),
        None => None,
    }
}

/// The tag list of a record as a sequence, `None` where no tag list is set.
pub open spec fn tags_view(t: Option<Vec<String>>) -> Option<Seq<String>> {
    match t {
        Some(v) => Some(v@),
        None => None,
    }
}

/// The stored row for `a` under identity `id`.
pub open spec fn row_of(a: ArticleWithTags, id: u64) -> Article {
    Article {
        id,
        src_file_name: a.src_file_name,
        dst_file_name: a.dst_file_name,
        title: a.title,
        modification_date: a.modification_date,
        summary: a.summary,
        series: a.series,
        draft: a.draft,
        special_page: a.special_page,
        timeline: a.timeline,
        anchorjs: a.anchorjs,
        tocify: a.tocify,
        live_updates: a.live_updates,
    }
}

impl ArticleWithTags {
    /// A record for `src_file_name`, written to `dst_file_name`, with every
    /// optional field unset.
    pub fn new(src_file_name: String, dst_file_name: String) -> (r: ArticleWithTags)
        ensures
            r.id == None::<u64>,
            r.src_file_name == src_file_name,
            r.dst_file_name == dst_file_name,
            r.title == None::<String>,
            r.modification_date == None::<i64>,
            r.summary == None::<String>,
            r.tags == None::<Vec<String>>,
            r.series == None::<String>,
            r.draft == None::<bool>,
            r.special_page == None::<bool>,
            r.timeline == None::<bool>,
            r.anchorjs == None::<bool>,
            r.tocify == None::<bool>,
            r.live_updates == None::<bool>,
    {
        ArticleWithTags {
            id: None,
            src_file_name,
            dst_file_name,
            title: None,
            modification_date: None,
            summary: None,
            tags: None,
            series: None,
            draft: None,
            special_page: None,
            timeline: None,
            anchorjs: None,
            tocify: None,
            live_updates: None,
        }
    }
}

impl Article {
    /// This row with its tags attached.
    pub fn with_tags(&self, tags: Option<Vec<String>>) -> (r: ArticleWithTags)
        ensures
            r.id == Some(self.id),
            r.tags == tags,
            row_of(r, self.id) == *self,
    {
        ArticleWithTags {
            id: Some(self.id),
            src_file_name: self.src_file_name.clone(),
            dst_file_name: self.dst_file_name.clone(),
            title: clone_opt_string(&self.title),
            modification_date: self.modification_date,
            summary: clone_opt_string(&self.summary),
            tags,
            series: clone_opt_string(&self.series),
            draft: self.draft,
            special_page: self.special_page,
            timeline: self.timeline,
            anchorjs: self.anchorjs,
            tocify: self.tocify,
            live_updates: self.live_updates,
        }
    }
}

/// A stored row as plain values.
pub struct RowView {
    pub id: u64,
    pub src_file_name: Seq<char>,
    pub dst_file_name: Seq<char>,
    pub title: Option<Seq<char>>,
    pub modification_date: Option<i64>,
    pub summary: Option<Seq<char>>,
    pub series: Option<Seq<char>>,
    pub draft: Option<bool>,
    pub special_page: Option<bool>,
    pub timeline: Option<bool>,
    pub anchorjs: Option<bool>,
    pub tocify: Option<bool>,
    pub live_updates: Option<bool>,
}

pub open spec fn text_view(s: Option<String>) -> Option<Seq<char>> {
    match s {
        Some(t) => Some(t@),
        None => None,
    }
}

pub open spec fn row_view(a: Article) -> RowView {
    RowView {
        id: a.id,
        src_file_name: a.src_file_name@,
        dst_file_name: a.dst_file_name@,
        title: text_view(a.title),
        modification_date: a.modification_date,
        summary: text_view(a.summary),
        series: text_view(a.series),
        draft: a.draft,
        special_page: a.special_page,
        timeline: a.timeline,
        anchorjs: a.anchorjs,
        tocify: a.tocify,
        live_updates: a.live_updates,
    }
}

} // verus!
