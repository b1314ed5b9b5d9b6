//! The feed aggregate and its mathematical model.

use vstd::prelude::*;

verus! {

/// The views of a sequence of strings, element by element.
pub open spec fn texts(v: Seq<String>) -> Seq<Seq<char>> {
    Seq::new(v.len(), |i: int| v[i]@)
}

/// Model of one link: every field as a sequence of characters.
pub struct LinkView {
    pub id: Seq<char>,
    pub title: Seq<char>,
    pub url: Seq<char>,
    pub date: Seq<char>,
    pub summary: Seq<char>,
    pub tags: Seq<Seq<char>>,
    pub via: Seq<char>,
}

/// Model of a feed: title, version and the links, newest first.
pub struct FeedView {
    pub title: Seq<char>,
    pub version: u32,
    pub links: Seq<LinkView>,
}

/// One entry of a feed.
#[derive(Debug, PartialEq, Eq)]
pub struct Link {
    pub id: String,
    pub title: String,
    pub url: String,
    pub date: String,
    pub summary: String,
    pub tags: Vec<String>,
    pub via: String,
}

/// The persisted aggregate: index 0 of `links` is the most recently added link.
#[derive(Debug, PartialEq, Eq)]
pub struct Feed {
    pub title: String,
    pub version: u32,
    pub links: Vec<Link>,
}

/// The views of a sequence of links, element by element.
pub open spec fn link_views(v: Seq<Link>) -> Seq<LinkView> {
    Seq::new(v.len(), |i: int| v[i]@)
}

impl View for Link {
    type V = LinkView;

    open spec fn view(&self) -> LinkView {
        LinkView {
            id: self.id@,
            title: self.title@,
            url: self.url@,
            date: self.date@,
            summary: self.summary@,
            tags: texts(self.tags@),
            via: self.via@,
        }
    }
}

impl View for Feed {
    type V = FeedView;

    open spec fn view(&self) -> FeedView {
        FeedView { title: self.title@, version: self.version, links: link_views(self.links@) }
    }
}

/// Copies a list of strings.
pub fn copy_texts(v: &Vec<String>) -> (out: Vec<String>)
    ensures
        texts(out@) == texts(v@),
{
    let mut out: Vec<String> = Vec::new();
    let mut i: usize = 0;
    while i < v.len()
        invariant
            i <= v.len(),
            out@.len() == i,
            forall|k: int| 0 <= k < i ==> out@[k]@ == v@[k]@,
        decreases v.len() - i,
    {
        out.push(v[i].clone());
        i += 1;
    }
    assert(texts(out@) =~= texts(v@));
    out
}

/// Copies a list of links.
pub fn copy_links(v: &Vec<Link>) -> (out: Vec<Link>)
    ensures
        link_views(out@) == link_views(v@),
{
    let mut out: Vec<Link> = Vec::new();
    let mut i: usize = 0;
    while i < v.len()
        invariant
            i <= v.len(),
            out@.len() == i,
            forall|k: int| 0 <= k < i ==> out@[k]@ == v@[k]@,
        decreases v.len() - i,
    {
        out.push(v[i].clone());
        i += 1;
    }
    assert(link_views(out@) =~= link_views(v@));
    out
}

impl Clone for Link {
    fn clone(&self) -> (out: Link)
        ensures
            out@ == self@,
    {
        Link {
            id: self.id.clone(),
            title: self.title.clone(),
            url: self.url.clone(),
            date: self.date.clone(),
            summary: self.summary.clone(),
            tags: copy_texts(&self.tags),
            via: self.via.clone(),
        }
    }
}

impl Clone for Feed {
    fn clone(&self) -> (out: Feed)
        ensures
            out@ == self@,
    {
        Feed { title: self.title.clone(), version: self.version, links: copy_links(&self.links) }
    }
}

impl Feed {
    /// The title given to a feed that is created on first use.
    pub open spec fn placeholder_title() -> Seq<char> {
        "My Links"@
    }

    /// The feed that stands for a file that does not exist yet.
    pub open spec fn fresh() -> FeedView {
        FeedView { title: Self::placeholder_title(), version: 1, links: Seq::empty() }
    }

    /// A new empty feed: placeholder title, version 1, no links.
    pub fn new_empty() -> (feed: Feed)
        ensures
            feed@ == Self::fresh(),
    {
        let feed = Feed { title: String::from_str("My Links"), version: 1, links: Vec::new() };
        assert(link_views(feed.links@) =~= Seq::empty());
        feed
    }
}

} // verus!
