//! The records exchanged with a caller: plain copies of the feed's data, the
//! request for a new link, and one page of a listing.

use vstd::prelude::*;
use crate::model::{texts, Feed, FeedView, Link, LinkView};

verus! {

/// A link as handed to a caller.
#[derive(Debug, PartialEq, Eq)]
pub struct LinkDto {
    pub id: String,
    pub title: String,
    pub url: String,
    pub date: String,
    pub summary: String,
    pub tags: Vec<String>,
    pub via: String,
}

/// A feed as handed to a caller.
#[derive(Debug, PartialEq, Eq)]
pub struct FeedDto {
    pub title: String,
    pub version: u32,
    pub links: Vec<LinkDto>,
}

/// The request for a new link. Absent fields take their defaults; `id`, when
/// present, is used verbatim, and `date`, when present, replaces today's date.
#[derive(Debug, PartialEq, Eq)]
pub struct AddLinkDto {
    pub title: String,
    pub url: String,
    pub summary: Option<String>,
    pub tags: Vec<String>,
    pub via: Option<String>,
    pub id: Option<String>,
    pub date: Option<String>,
}

/// One page of a listing: the size of the whole listing and the items of the page.
#[derive(Debug, PartialEq, Eq)]
pub struct PageDto {
    pub total: usize,
    pub items: Vec<LinkDto>,
}

/// The views of a sequence of link records, element by element.
pub open spec fn dto_views(v: Seq<LinkDto>) -> Seq<LinkView> {
    Seq::new(v.len(), |i: int| v[i]@)
}

impl View for LinkDto {
    type V = LinkView;

    open spec fn view(&self) -> LinkView {
        LinkView {
            id: self.id@,
            title: self.title@,
            url: self.url@,
            date: self.date@,
            summary: self.summary@,
            tags: texts(self.tags@),
            via: self.via@,
        }
    }
}

impl View for FeedDto {
    type V = FeedView;

    open spec fn view(&self) -> FeedView {
        FeedView { title: self.title@, version: self.version, links: dto_views(self.links@) }
    }
}

impl vstd::std_specs::convert::FromSpecImpl<Link> for LinkDto {
    open spec fn obeys_from_spec() -> bool {
        true
    }

    open spec fn from_spec(x: Link) -> LinkDto {
        LinkDto {
            id: x.id,
            title: x.title,
            url: x.url,
            date: x.date,
            summary: x.summary,
            tags: x.tags,
            via: x.via,
        }
    }
}

impl From<Link> for LinkDto {
    /// Moves every field of the link into the record, unchanged.
    fn from(x: Link) -> (out: LinkDto) {
        LinkDto {
            id: x.id,
            title: x.title,
            url: x.url,
            date: x.date,
            summary: x.summary,
            tags: x.tags,
            via: x.via,
        }
    }
}

impl vstd::std_specs::convert::FromSpecImpl<Feed> for FeedDto {
    open spec fn obeys_from_spec() -> bool {
        false
    }

    open spec fn from_spec(x: Feed) -> FeedDto {
        arbitrary()
    }
}

impl From<Feed> for FeedDto {
    /// Keeps title and version and converts every link, in order.
    fn from(x: Feed) -> (out: FeedDto)
        ensures
            out@ == x@,
    {
        let Feed { title, version, links } = x;
        let ghost before = crate::model::link_views(links@);
        let mut links = links;
        let mut items: Vec<LinkDto> = Vec::new();
        let mut rest: Vec<Link> = Vec::new();
        let n = links.len();
        // Links are taken from the back, then the records are put in order.
        while links.len() > 0
            invariant
                links@.len() + rest@.len() == n,
                n == before.len(),
                forall|k: int| 0 <= k < links@.len() ==> links@[k]@ == before[k],
                forall|k: int| 0 <= k < rest@.len() ==> rest@[k]@ == before[n - 1 - k],
            decreases links@.len(),
        {
            let l = links.pop().unwrap();
            rest.push(l);
        }
        while rest.len() > 0
            invariant
                items@.len() + rest@.len() == n,
                n == before.len(),
                forall|k: int| 0 <= k < rest@.len() ==> rest@[k]@ == before[n - 1 - k],
                forall|k: int| 0 <= k < items@.len() ==> items@[k]@ == before[k],
            decreases rest@.len(),
        {
            let l = rest.pop().unwrap();
            items.push(LinkDto::from(l));
        }
        let out = FeedDto { title, version, links: items };
        assert(dto_views(out.links@) =~= before);
        out
    }
}

} // verus!
