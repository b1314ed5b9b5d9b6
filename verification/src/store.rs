//! The feed store: what `list` and `add` decide, from what reading the feed's
//! file gave to the bytes that are to be written back.
//!
//! The store does no file access of its own and reads no clock. A caller
//! reads the file and passes the outcome as a [`FileRead`]; for an addition
//! it also passes the moment, writes the bytes of the [`Pending`] addition in
//! one atomic step and reports the outcome to [`commit`].

use vstd::prelude::*;
use crate::clock::{utc_date, utc_date_text};
use crate::codec::{dec_feed, decode, enc_feed, encode};
use crate::dto::{dto_views, AddLinkDto, LinkDto, PageDto};
use crate::error::StoreError;
use crate::ident::{derive_id, derived_id};
use crate::model::{link_views, texts, Feed, FeedView, Link, LinkView};

verus! {

/// What reading the file at a feed's path gave.
#[derive(Debug, PartialEq, Eq)]
pub enum FileRead {
    /// No file exists there.
    Absent,
    /// The whole content of the file.
    Bytes(Vec<u8>),
    /// Storage failed, with the cause.
    Failed(String),
}

/// An addition that is decided but not yet on disk: the feed with the new
/// link in front, the link, and the feed's bytes.
#[derive(Debug, PartialEq, Eq)]
pub struct Pending {
    pub feed: Feed,
    pub link: Link,
    pub bytes: Vec<u8>,
}

/// Model of a request for a new link.
pub struct RequestView {
    pub title: Seq<char>,
    pub url: Seq<char>,
    pub summary: Option<Seq<char>>,
    pub tags: Seq<Seq<char>>,
    pub via: Option<Seq<char>>,
    pub id: Option<Seq<char>>,
    pub date: Option<Seq<char>>,
}

/// The view of an optional string.
pub open spec fn opt_text(o: Option<String>) -> Option<Seq<char>> {
    match o {
        None => None,
        Some(s) => Some(s@),
    }
}

/// The text of an optional field, empty where it is absent.
pub open spec fn or_empty(o: Option<Seq<char>>) -> Seq<char> {
    match o {
        None => Seq::empty(),
        Some(s) => s,
    }
}

impl View for AddLinkDto {
    type V = RequestView;

    open spec fn view(&self) -> RequestView {
        RequestView {
            title: self.title@,
            url: self.url@,
            summary: opt_text(self.summary),
            tags: texts(self.tags@),
            via: opt_text(self.via),
            id: opt_text(self.id),
            date: opt_text(self.date),
        }
    }
}

// ---------------------------------------------------------------- loading

/// The feed that a read gives to `list`: an absent file is `NotFound`.
pub open spec fn loaded(read: FileRead) -> Result<FeedView, StoreError> {
    match read {
        FileRead::Absent => Err(StoreError::NotFound),
        FileRead::Failed(cause) => Err(StoreError::IoFailure(cause)),
        FileRead::Bytes(b) => match dec_feed(b@) {
            Some(f) => Ok(f),
            None => Err(StoreError::MalformedFeed),
        },
    }
}

/// The feed that a read gives to `add`: an absent file is a fresh feed.
pub open spec fn loaded_or_fresh(read: FileRead) -> Result<FeedView, StoreError> {
    match read {
        FileRead::Absent => Ok(Feed::fresh()),
        _ => loaded(read),
    }
}

/// Turns what was read into a feed. An absent file is `NotFound`, a failed
/// read is `IoFailure` with its cause, and bytes that hold no feed are
/// `MalformedFeed`.
pub fn load(read: FileRead) -> (out: Result<Feed, StoreError>)
    ensures
        match loaded(read) {
            Ok(f) => out is Ok && out.unwrap()@ == f,
            Err(e) => out is Err && out.unwrap_err() == e,
        },
{
    match read {
        FileRead::Absent => Err(StoreError::NotFound),
        FileRead::Failed(cause) => Err(StoreError::IoFailure(cause)),
        FileRead::Bytes(b) => decode(b.as_slice()),
    }
}

/// As [`load`], but an absent file gives a new empty feed: the first use of
/// a path is no error.
pub fn load_or_fresh(read: FileRead) -> (out: Result<Feed, StoreError>)
    ensures
        match loaded_or_fresh(read) {
            Ok(f) => out is Ok && out.unwrap()@ == f,
            Err(e) => out is Err && out.unwrap_err() == e,
        },
{
    match read {
        FileRead::Absent => Ok(Feed::new_empty()),
        other => load(other),
    }
}

// ---------------------------------------------------------------- listing

/// Whether a link passes the filters: it carries the tag, if one is asked
/// for, and its provenance is the one asked for, if any. Both are exact
/// matches.
pub open spec fn passes(l: LinkView, tag: Option<Seq<char>>, via: Option<Seq<char>>) -> bool {
    &&& tag matches Some(t) ==> l.tags.contains(t)
    &&& via matches Some(v) ==> l.via == v
}

/// The links that pass the filters, in their order.
pub open spec fn kept(links: Seq<LinkView>, tag: Option<Seq<char>>, via: Option<Seq<char>>) -> Seq<
    LinkView,
>
    decreases links.len(),
{
    if links.len() == 0 {
        Seq::empty()
    } else {
        let before = kept(links.drop_last(), tag, via);
        if passes(links.last(), tag, via) {
            before.push(links.last())
        } else {
            before
        }
    }
}

/// The feed with only the links that pass the filters.
pub open spec fn filtered(f: FeedView, tag: Option<Seq<char>>, via: Option<Seq<char>>) -> FeedView {
    FeedView { title: f.title, version: f.version, links: kept(f.links, tag, via) }
}

/// Whether the link carries exactly this tag.
pub fn has_tag(link: &Link, tag: &String) -> (found: bool)
    ensures
        found == link@.tags.contains(tag@),
{
    let mut i: usize = 0;
    while i < link.tags.len()
        invariant
            i <= link.tags@.len(),
            forall|k: int| 0 <= k < i ==> texts(link.tags@)[k] != tag@,
        decreases link.tags@.len() - i,
    {
        if link.tags[i] == *tag {
            assert(texts(link.tags@)[i as int] == tag@);
            return true;
        }
        i += 1;
    }
    false
}

/// Whether the link passes the filters.
pub fn link_passes(link: &Link, tag: &Option<String>, via: &Option<String>) -> (yes: bool)
    ensures
        yes == passes(link@, opt_text(*tag), opt_text(*via)),
{
    let tag_ok = match tag {
        None => true,
        Some(t) => has_tag(link, t),
    };
    let via_ok = match via {
        None => true,
        Some(v) => link.via == *v,
    };
    tag_ok && via_ok
}

/// Keeps the links that pass the filters. The order is not changed.
pub fn filter_links(links: &Vec<Link>, tag: &Option<String>, via: &Option<String>) -> (out: Vec<
    Link,
>)
    ensures
        link_views(out@) == kept(link_views(links@), opt_text(*tag), opt_text(*via)),
{
    let mut out: Vec<Link> = Vec::new();
    let mut i: usize = 0;
    let ghost all = link_views(links@);
    assert(link_views(out@) =~= kept(all.take(0), opt_text(*tag), opt_text(*via)));
    while i < links.len()
        invariant
            i <= links@.len(),
            all == link_views(links@),
            link_views(out@) == kept(all.take(i as int), opt_text(*tag), opt_text(*via)),
        decreases links@.len() - i,
    {
        let ghost done = link_views(out@);
        proof {
            assert(all.take(i + 1).drop_last() =~= all.take(i as int));
            assert(all.take(i + 1).last() == links@[i as int]@);
        }
        if link_passes(&links[i], tag, via) {
            let l = links[i].clone();
            out.push(l);
            assert(link_views(out@) =~= done.push(links@[i as int]@));
        }
        i += 1;
    }
    assert(all.take(i as int) =~= all);
    out
}

/// Lists a feed: the feed that was read, with only the links that pass the
/// filters, newest first. An absent file is `NotFound`; no empty feed is made
/// up for it.
pub fn list(read: FileRead, tag_filter: Option<String>, via_filter: Option<String>) -> (out: Result<
    Feed,
    StoreError,
>)
    ensures
        match loaded(read) {
            Ok(f) => out is Ok && out.unwrap()@ == filtered(
                f,
                opt_text(tag_filter),
                opt_text(via_filter),
            ),
            Err(e) => out is Err && out.unwrap_err() == e,
        },
{
    match load(read) {
        Err(e) => Err(e),
        Ok(feed) => {
            let links = filter_links(&feed.links, &tag_filter, &via_filter);
            Ok(Feed { title: feed.title, version: feed.version, links })
        },
    }
}

/// A link is among the kept ones exactly if it is among the links and
/// passes the filters, and filtering never gives more links than there were.
pub proof fn lemma_kept_passes(links: Seq<LinkView>, tag: Option<Seq<char>>, via: Option<Seq<char>>)
    ensures
        kept(links, tag, via).len() <= links.len(),
        forall|l: LinkView| #[trigger]
            kept(links, tag, via).contains(l) <==> links.contains(l) && passes(l, tag, via),
    decreases links.len(),
{
    let out = kept(links, tag, via);
    if links.len() > 0 {
        let front = links.drop_last();
        let last = links.last();
        lemma_kept_passes(front, tag, via);
        let before = kept(front, tag, via);
        assert forall|l: LinkView| #[trigger]
            out.contains(l) <==> links.contains(l) && passes(l, tag, via) by {
            if out.contains(l) {
                let i = choose|i: int| 0 <= i < out.len() && out[i] == l;
                if i < before.len() {
                    assert(before[i] == l);
                    assert(before.contains(l));
                    let j = choose|j: int| 0 <= j < front.len() && front[j] == l;
                    assert(links[j] == l);
                } else {
                    assert(l == last);
                    assert(links[links.len() - 1] == l);
                }
            }
            if links.contains(l) && passes(l, tag, via) {
                let j = choose|j: int| 0 <= j < links.len() && links[j] == l;
                if j < front.len() {
                    assert(front[j] == l);
                    assert(front.contains(l));
                    assert(before.contains(l));
                    let i = choose|i: int| 0 <= i < before.len() && before[i] == l;
                    assert(out[i] == l);
                } else {
                    assert(out[out.len() - 1] == l);
                }
            }
        }
    }
}

/// The two filters compose as a conjunction: filtering by tag and then by
/// provenance is filtering by both at once.
pub proof fn lemma_filters_compose(
    links: Seq<LinkView>,
    tag: Option<Seq<char>>,
    via: Option<Seq<char>>,
)
    ensures
        kept(kept(links, tag, None), None, via) == kept(links, tag, via),
    decreases links.len(),
{
    if links.len() > 0 {
        let front = links.drop_last();
        let last = links.last();
        lemma_filters_compose(front, tag, via);
        if passes(last, tag, None) {
            let mid = kept(front, tag, None).push(last);
            assert(mid.drop_last() =~= kept(front, tag, None));
            assert(mid.last() == last);
        }
    }
}

// ---------------------------------------------------------------- pages

/// Where a page starts in a listing of `total` items: at `offset`, or at the
/// end where `offset` lies beyond it.
pub open spec fn page_start(total: int, offset: int) -> int {
    if offset >= total {
        total
    } else {
        offset
    }
}

/// Where a page ends: `limit` items after `offset`, or at the end of the
/// listing where that lies beyond it.
pub open spec fn page_end(total: int, offset: int, limit: int) -> int {
    if offset >= total {
        total
    } else if offset + limit >= total {
        total
    } else {
        offset + limit
    }
}

/// Cuts one page out of a listing: the items from `offset` up to, but not
/// including, `offset + limit`, as far as the listing reaches, with the size
/// of the whole listing.
pub fn paginate(links: &Vec<Link>, offset: usize, limit: usize) -> (page: PageDto)
    ensures
        page.total == links@.len(),
        dto_views(page.items@) == link_views(links@).subrange(
            page_start(links@.len() as int, offset as int),
            page_end(links@.len() as int, offset as int, limit as int),
        ),
{
    let total = links.len();
    let start: usize = if offset >= total {
        total
    } else {
        offset
    };
    let end: usize = if limit >= total - start {
        total
    } else {
        start + limit
    };
    let mut items: Vec<LinkDto> = Vec::new();
    let mut i: usize = start;
    while i < end
        invariant
            start <= i <= end <= links@.len(),
            items@.len() == i - start,
            forall|k: int| 0 <= k < items@.len() ==> items@[k]@ == links@[start + k]@,
        decreases end - i,
    {
        items.push(LinkDto::from(links[i].clone()));
        i += 1;
    }
    assert(dto_views(items@) =~= link_views(links@).subrange(start as int, end as int));
    PageDto { total, items }
}

/// Reads one page of a feed: the whole feed's size and the links of the page,
/// newest first.
pub fn read_feed_page(read: FileRead, offset: usize, limit: usize) -> (out: Result<
    PageDto,
    StoreError,
>)
    ensures
        match loaded(read) {
            Ok(f) => {
                &&& out is Ok
                &&& out.unwrap().total == f.links.len()
                &&& dto_views(out.unwrap().items@) == f.links.subrange(
                    page_start(f.links.len() as int, offset as int),
                    page_end(f.links.len() as int, offset as int, limit as int),
                )
            },
            Err(e) => out is Err && out.unwrap_err() == e,
        },
{
    proof {
        if let Ok(f) = loaded(read) {
            lemma_kept_all(f.links);
        }
    }
    match list(read, None, None) {
        Err(e) => Err(e),
        Ok(feed) => {
            Ok(paginate(&feed.links, offset, limit))
        },
    }
}

/// Without filters every link is kept.
pub proof fn lemma_kept_all(links: Seq<LinkView>)
    ensures
        kept(links, None, None) == links,
    decreases links.len(),
{
    if links.len() > 0 {
        lemma_kept_all(links.drop_last());
        assert(links.drop_last().push(links.last()) =~= links);
    } else {
        assert(links =~= Seq::empty());
    }
}

// ---------------------------------------------------------------- adding

/// A request is valid when it has a title and an address.
pub open spec fn valid_request(r: RequestView) -> bool {
    r.title.len() > 0 && r.url.len() > 0
}

/// The date of the new link: the one in the request, else today's.
pub open spec fn link_date(r: RequestView, today: Seq<char>) -> Seq<char> {
    match r.date {
        Some(d) => d,
        None => today,
    }
}

/// The link that a request gives. Its id is the one in the request, used
/// verbatim, else the one derived from address and date; summary and
/// provenance are empty where the request has none.
pub open spec fn new_link(r: RequestView, today: Seq<char>) -> LinkView {
    LinkView {
        id: match r.id {
            Some(id) => id,
            None => derived_id(r.url, link_date(r, today)),
        },
        title: r.title,
        url: r.url,
        date: link_date(r, today),
        summary: or_empty(r.summary),
        tags: r.tags,
        via: or_empty(r.via),
    }
}

/// The feed with one more link, in front of all others.
pub open spec fn with_link(f: FeedView, l: LinkView) -> FeedView {
    FeedView { title: f.title, version: f.version, links: seq![l] + f.links }
}

/// The feed after adding the links of `ls` one after another, first to last.
pub open spec fn with_links(f: FeedView, ls: Seq<LinkView>) -> FeedView
    decreases ls.len(),
{
    if ls.len() == 0 {
        f
    } else {
        with_link(with_links(f, ls.drop_last()), ls.last())
    }
}

/// Builds the link that a request asks for.
pub fn build_link(request: AddLinkDto, today: &str) -> (link: Link)
    ensures
        link@ == new_link(request@, today@),
{
    let AddLinkDto { title, url, summary, tags, via, id, date } = request;
    let date = match date {
        Some(d) => d,
        None => String::from_str(today),
    };
    let id = match id {
        Some(id) => id,
        None => derive_id(url.as_str(), date.as_str()),
    };
    let summary = match summary {
        Some(s) => s,
        None => String::new(),
    };
    let via = match via {
        Some(v) => v,
        None => String::new(),
    };
    Link { id, title, url, date, summary, tags, via }
}

/// Puts a link in front of all others. Title and version stay.
pub fn insert_front(feed: &mut Feed, link: Link)
    ensures
        final(feed)@ == with_link(old(feed)@, link@),
{
    feed.links.insert(0, link);
    assert(link_views(feed.links@) =~= seq![link@] + link_views(old(feed).links@));
}

/// What a decided addition holds, for the feed `f` that was loaded: the
/// link that the request gives, the feed with that link in front, and the
/// bytes of that feed, which read back as that feed.
pub open spec fn addition(f: FeedView, r: RequestView, today: Seq<char>, p: Pending) -> bool {
    &&& p.link@ == new_link(r, today)
    &&& p.feed@ == with_link(f, new_link(r, today))
    &&& p.bytes@ == enc_feed(p.feed@)
    &&& dec_feed(p.bytes@) == Some(p.feed@)
}

/// Decides an addition, with `today` as the date of a link whose request
/// names none. A request without a title or an address is `InvalidInput`.
/// Otherwise the feed is the one that was read, or a new empty one where the
/// file is absent; a failed read or a damaged file ends the addition with
/// that error. The new link goes in front, and the bytes are those of the
/// feed with it.
pub fn add(read: FileRead, request: AddLinkDto, today: &str) -> (out: Result<Pending, StoreError>)
    ensures
        !valid_request(request@) ==> out is Err && out.unwrap_err() is InvalidInput,
        valid_request(request@) ==> match loaded_or_fresh(read) {
            Err(e) => out is Err && out.unwrap_err() == e,
            Ok(f) => out is Ok && addition(f, request@, today@, out.unwrap()),
        },
{
    if request.title.as_str().is_empty() || request.url.as_str().is_empty() {
        return Err(StoreError::InvalidInput);
    }
    let mut feed = match load_or_fresh(read) {
        Err(e) => { return Err(e); },
        Ok(f) => f,
    };
    let link = build_link(request, today);
    insert_front(&mut feed, link.clone());
    let bytes = encode(&feed);
    Ok(Pending { feed, link, bytes })
}

/// The date that stands for today in an addition decided at the moment
/// `unix_seconds`: the date of that moment in UTC. A request that names its
/// date needs none, and any text will do for it; `None` where a date is
/// needed and the moment has none.
pub open spec fn today_at(r: RequestView, unix_seconds: i64) -> Option<Seq<char>> {
    if r.date is Some {
        Some(Seq::empty())
    } else {
        utc_date_text(unix_seconds)
    }
}

/// Decides an addition at the moment `unix_seconds` after the Unix epoch, as
/// [`add`] does with the date of that moment in UTC. Where the request names
/// no date and the moment has none, the addition is `InvalidInput`.
pub fn add_at(read: FileRead, request: AddLinkDto, unix_seconds: i64) -> (out: Result<
    Pending,
    StoreError,
>)
    ensures
        match today_at(request@, unix_seconds) {
            None => out is Err && out.unwrap_err() is InvalidInput,
            Some(today) => {
                &&& !valid_request(request@) ==> out is Err && out.unwrap_err() is InvalidInput
                &&& valid_request(request@) ==> match loaded_or_fresh(read) {
                    Err(e) => out is Err && out.unwrap_err() == e,
                    Ok(f) => out is Ok && addition(f, request@, today, out.unwrap()),
                }
            },
        },
{
    let today = if request.date.is_some() {
        String::new()
    } else {
        match utc_date(unix_seconds) {
            None => { return Err(StoreError::InvalidInput); },
            Some(text) => text,
        }
    };
    crate::store::add(read, request, today.as_str())
}

/// Ends an addition once the bytes were written, or were not. The link is
/// handed out only if the write succeeded; a failed write is `IoFailure`
/// with its cause, and the addition is dropped.
pub fn commit(pending: Pending, written: Result<(), String>) -> (out: Result<Link, StoreError>)
    ensures
        match written {
            Ok(_) => out == Ok::<Link, StoreError>(pending.link),
            Err(cause) => out == Err::<Link, StoreError>(StoreError::IoFailure(cause)),
        },
{
    match written {
        Ok(_) => Ok(pending.link),
        Err(cause) => Err(StoreError::IoFailure(cause)),
    }
}

// ---------------------------------------------------------------- order

/// Newest first: after adding the links of `ls` one after another, the feed
/// holds them in reverse order of addition, the last one added at index 0,
/// in front of the links that it held before, which keep their order.
pub proof fn lemma_newest_first(f: FeedView, ls: Seq<LinkView>)
    ensures
        with_links(f, ls).title == f.title,
        with_links(f, ls).version == f.version,
        with_links(f, ls).links.len() == ls.len() + f.links.len(),
        forall|i: int| 0 <= i < ls.len() ==> with_links(f, ls).links[i] == ls[ls.len() - 1 - i],
        forall|j: int|
            0 <= j < f.links.len() ==> with_links(f, ls).links[ls.len() + j] == f.links[j],
    decreases ls.len(),
{
    if ls.len() > 0 {
        lemma_newest_first(f, ls.drop_last());
    }
}

/// First use: adding to a file that does not exist gives a feed of version 1
/// that holds the new link and nothing else.
pub proof fn lemma_first_use(l: LinkView)
    ensures
        loaded_or_fresh(FileRead::Absent) == Ok::<FeedView, StoreError>(Feed::fresh()),
        with_link(Feed::fresh(), l).version == 1,
        with_link(Feed::fresh(), l).links == seq![l],
{
    assert(seq![l] + Seq::<LinkView>::empty() =~= seq![l]);
}

} // verus!
