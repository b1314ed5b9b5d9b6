use linkleaf_feed::codec::{decode, encode};
use linkleaf_feed::dto::{AddLinkDto, FeedDto, LinkDto};
use linkleaf_feed::error::StoreError;
use linkleaf_feed::ident::derive_id;
use linkleaf_feed::model::{Feed, Link};
use linkleaf_feed::store::{
    add, add_at, build_link, commit, filter_links, has_tag, insert_front, list, load, load_or_fresh,
    paginate, read_feed_page, FileRead,
};

fn link(id: &str, tags: &[&str], via: &str) -> Link {
    Link {
        id: id.to_string(),
        title: format!("title {}", id),
        url: format!("https://example.com/{}", id),
        date: "2024-05-06".to_string(),
        summary: String::new(),
        tags: tags.iter().map(|t| t.to_string()).collect(),
        via: via.to_string(),
    }
}

fn request(title: &str, url: &str) -> AddLinkDto {
    AddLinkDto {
        title: title.to_string(),
        url: url.to_string(),
        summary: None,
        tags: vec![],
        via: None,
        id: None,
        date: None,
    }
}

fn five() -> Feed {
    Feed {
        title: "five".to_string(),
        version: 1,
        links: vec![
            link("e", &[], ""),
            link("d", &[], ""),
            link("c", &[], ""),
            link("b", &[], ""),
            link("a", &[], ""),
        ],
    }
}

fn tagged() -> Feed {
    Feed {
        title: "tagged".to_string(),
        version: 3,
        links: vec![link("1", &["a"], "hn"), link("2", &["b"], "hn"), link("3", &["a", "b"], "rss")],
    }
}

fn ids(links: &[Link]) -> Vec<String> {
    links.iter().map(|l| l.id.clone()).collect()
}

fn dto_ids(links: &[LinkDto]) -> Vec<String> {
    links.iter().map(|l| l.id.clone()).collect()
}

#[test]
fn list_missing_file_is_not_found() {
    assert_eq!(list(FileRead::Absent, None, None), Err(StoreError::NotFound));
    assert_eq!(load(FileRead::Absent), Err(StoreError::NotFound));
}

#[test]
fn list_failed_read_is_io_failure() {
    assert_eq!(
        list(FileRead::Failed("permission denied".to_string()), None, None),
        Err(StoreError::IoFailure("permission denied".to_string()))
    );
}

#[test]
fn list_damaged_file_is_malformed() {
    assert_eq!(list(FileRead::Bytes(vec![1, 2, 3]), None, None), Err(StoreError::MalformedFeed));
    assert_eq!(
        add(FileRead::Bytes(vec![1, 2, 3]), request("t", "u"), "2024-01-01"),
        Err(StoreError::MalformedFeed)
    );
}

#[test]
fn list_without_filters_returns_everything() {
    let out = list(FileRead::Bytes(encode(&tagged())), None, None).unwrap();
    assert_eq!(out, tagged());
}

#[test]
fn filter_by_tag() {
    let out = list(FileRead::Bytes(encode(&tagged())), Some("a".to_string()), None).unwrap();
    assert_eq!(ids(&out.links), vec!["1", "3"]);
    assert_eq!(out.title, "tagged");
    assert_eq!(out.version, 3);
}

#[test]
fn filter_by_tag_and_via() {
    let bytes = encode(&tagged());
    let out =
        list(FileRead::Bytes(bytes.clone()), Some("a".to_string()), Some("hn".to_string())).unwrap();
    assert_eq!(ids(&out.links), vec!["1"]);
    let out =
        list(FileRead::Bytes(bytes.clone()), Some("b".to_string()), Some("rss".to_string())).unwrap();
    assert_eq!(ids(&out.links), vec!["3"]);
    let out = list(FileRead::Bytes(bytes), None, Some("hn".to_string())).unwrap();
    assert_eq!(ids(&out.links), vec!["1", "2"]);
}

#[test]
fn filter_is_exact_match() {
    let feed = Feed {
        title: "t".to_string(),
        version: 1,
        links: vec![link("1", &["rust"], "hn"), link("2", &["rustacean"], "hnx"), link("3", &["Rust"], "")],
    };
    let out = filter_links(&feed.links, &Some("rust".to_string()), &None);
    assert_eq!(ids(&out), vec!["1"]);
    let out = filter_links(&feed.links, &Some("rus".to_string()), &None);
    assert!(out.is_empty());
    let out = filter_links(&feed.links, &None, &Some("hn".to_string()));
    assert_eq!(ids(&out), vec!["1"]);
    let out = filter_links(&feed.links, &None, &Some("".to_string()));
    assert_eq!(ids(&out), vec!["3"]);
    assert!(has_tag(&feed.links[1], &"rustacean".to_string()));
    assert!(!has_tag(&feed.links[1], &"rust".to_string()));
}

#[test]
fn pagination_edge_cases() {
    let feed = five();
    let page = paginate(&feed.links, 0, 2);
    assert_eq!(page.total, 5);
    assert_eq!(dto_ids(&page.items), vec!["e", "d"]);
    let page = paginate(&feed.links, 5, 2);
    assert_eq!(page.total, 5);
    assert!(page.items.is_empty());
    let page = paginate(&feed.links, 3, 10);
    assert_eq!(page.total, 5);
    assert_eq!(dto_ids(&page.items), vec!["b", "a"]);
}

#[test]
fn pagination_does_not_overflow() {
    let feed = five();
    let page = paginate(&feed.links, 1, usize::MAX);
    assert_eq!(dto_ids(&page.items), vec!["d", "c", "b", "a"]);
    let page = paginate(&feed.links, usize::MAX, usize::MAX);
    assert!(page.items.is_empty());
    assert_eq!(page.total, 5);
    let page = paginate(&feed.links, 2, 0);
    assert!(page.items.is_empty());
    let page = paginate(&Vec::new(), 0, 3);
    assert_eq!(page.total, 0);
    assert!(page.items.is_empty());
}

#[test]
fn read_feed_page_reads_and_cuts() {
    let page = read_feed_page(FileRead::Bytes(encode(&five())), 1, 2).unwrap();
    assert_eq!(page.total, 5);
    assert_eq!(dto_ids(&page.items), vec!["d", "c"]);
    assert_eq!(page.items[0], LinkDto::from(link("d", &[], "")));
    assert_eq!(read_feed_page(FileRead::Absent, 0, 2), Err(StoreError::NotFound));
}

#[test]
fn add_to_missing_file_creates_feed() {
    let pending = add(FileRead::Absent, request("Rust", "https://rust-lang.org"), "2024-02-03").unwrap();
    assert_eq!(pending.feed.version, 1);
    assert_eq!(pending.feed.title, "My Links");
    assert_eq!(pending.feed.links.len(), 1);
    assert_eq!(pending.feed.links[0], pending.link);
    assert_eq!(decode(&pending.bytes), Ok(pending.feed));
    assert_eq!(load_or_fresh(FileRead::Absent), Ok(Feed { title: "My Links".to_string(), version: 1, links: vec![] }));
}

#[test]
fn add_fills_defaults_and_derives_id() {
    let pending = add(FileRead::Absent, request("Rust", "https://rust-lang.org"), "2024-02-03").unwrap();
    let l = pending.link;
    assert_eq!(l.id, derive_id("https://rust-lang.org", "2024-02-03"));
    assert_eq!(l.title, "Rust");
    assert_eq!(l.url, "https://rust-lang.org");
    assert_eq!(l.date, "2024-02-03");
    assert_eq!(l.summary, "");
    assert!(l.tags.is_empty());
    assert_eq!(l.via, "");
}

#[test]
fn add_uses_supplied_fields_verbatim() {
    let req = AddLinkDto {
        title: "T".to_string(),
        url: "https://u".to_string(),
        summary: Some("S".to_string()),
        tags: vec!["x".to_string(), "x".to_string(), "y".to_string()],
        via: Some("hn".to_string()),
        id: Some("6f9619ff-8b86-d011-b42d-00c04fc964ff".to_string()),
        date: Some("2020-12-31".to_string()),
    };
    let l = build_link(req, "2024-02-03");
    assert_eq!(l.id, "6f9619ff-8b86-d011-b42d-00c04fc964ff");
    assert_eq!(l.date, "2020-12-31");
    assert_eq!(l.summary, "S");
    assert_eq!(l.tags, vec!["x", "x", "y"]);
    assert_eq!(l.via, "hn");
}

#[test]
fn add_derives_id_from_supplied_date() {
    let mut req = request("T", "https://u");
    req.date = Some("2020-12-31".to_string());
    let l = build_link(req, "2024-02-03");
    assert_eq!(l.id, derive_id("https://u", "2020-12-31"));
}

#[test]
fn add_rejects_empty_title_or_url() {
    assert_eq!(add(FileRead::Absent, request("", "https://u"), "2024-01-01"), Err(StoreError::InvalidInput));
    assert_eq!(add(FileRead::Absent, request("t", ""), "2024-01-01"), Err(StoreError::InvalidInput));
    assert_eq!(
        add(FileRead::Failed("x".to_string()), request("", ""), "2024-01-01"),
        Err(StoreError::InvalidInput)
    );
}

#[test]
fn add_failed_read_is_io_failure() {
    assert_eq!(
        add(FileRead::Failed("disk".to_string()), request("t", "u"), "2024-01-01"),
        Err(StoreError::IoFailure("disk".to_string()))
    );
}

#[test]
fn add_keeps_newest_first() {
    let mut read = FileRead::Absent;
    let mut added: Vec<Link> = Vec::new();
    for i in 0..6 {
        let req = request(&format!("t{}", i), &format!("https://example.com/{}", i));
        let pending = add(read, req, &format!("2024-01-0{}", i + 1)).unwrap();
        assert_eq!(pending.feed.links[0], pending.link);
        read = FileRead::Bytes(pending.bytes.clone());
        added.push(commit(pending, Ok(())).unwrap());
    }
    let feed = load(read).unwrap();
    added.reverse();
    assert_eq!(feed.links, added);
    assert_eq!(feed.version, 1);
    assert_eq!(feed.links[0].title, "t5");
    assert_eq!(feed.links[5].title, "t0");
}

#[test]
fn add_keeps_title_and_version() {
    let pending = add(FileRead::Bytes(encode(&tagged())), request("n", "https://n"), "2024-01-01").unwrap();
    assert_eq!(pending.feed.title, "tagged");
    assert_eq!(pending.feed.version, 3);
    assert_eq!(pending.feed.links.len(), 4);
    assert_eq!(pending.feed.links[1..], tagged().links[..]);
}

#[test]
fn add_does_not_deduplicate() {
    let first = add(FileRead::Absent, request("t", "https://u"), "2024-01-01").unwrap();
    let second = add(FileRead::Bytes(first.bytes.clone()), request("t", "https://u"), "2024-01-01").unwrap();
    assert_eq!(second.feed.links.len(), 2);
    assert_eq!(second.feed.links[0].id, second.feed.links[1].id);
}

#[test]
fn insert_front_puts_link_first() {
    let mut feed = five();
    insert_front(&mut feed, link("f", &[], ""));
    assert_eq!(ids(&feed.links), vec!["f", "e", "d", "c", "b", "a"]);
    assert_eq!(feed.title, "five");
    assert_eq!(feed.version, 1);
}

#[test]
fn commit_hands_out_link_only_after_write() {
    let pending = add(FileRead::Absent, request("t", "https://u"), "2024-01-01").unwrap();
    let link = pending.link.clone();
    assert_eq!(commit(pending, Ok(())), Ok(link));
    let pending = add(FileRead::Absent, request("t", "https://u"), "2024-01-01").unwrap();
    assert_eq!(
        commit(pending, Err("disk full".to_string())),
        Err(StoreError::IoFailure("disk full".to_string()))
    );
}

#[test]
fn error_kind_names() {
    assert_eq!(StoreError::NotFound.kind_name(), "not found");
    assert_eq!(StoreError::MalformedFeed.kind_name(), "malformed feed");
    assert_eq!(StoreError::IoFailure("x".to_string()).kind_name(), "i/o failure");
    assert_eq!(StoreError::InvalidInput.kind_name(), "invalid input");
}

#[test]
fn link_dto_from_link_keeps_fields() {
    let l = link("z", &["a", "b"], "hn");
    let d = LinkDto::from(l.clone());
    assert_eq!(d.id, l.id);
    assert_eq!(d.title, l.title);
    assert_eq!(d.url, l.url);
    assert_eq!(d.date, l.date);
    assert_eq!(d.summary, l.summary);
    assert_eq!(d.tags, l.tags);
    assert_eq!(d.via, l.via);
}

#[test]
fn feed_dto_from_feed_keeps_order() {
    let d = FeedDto::from(five());
    assert_eq!(d.title, "five");
    assert_eq!(d.version, 1);
    assert_eq!(dto_ids(&d.links), vec!["e", "d", "c", "b", "a"]);
    let empty = FeedDto::from(Feed { title: "".to_string(), version: 0, links: vec![] });
    assert!(empty.links.is_empty());
}

#[test]
fn clone_keeps_everything() {
    assert_eq!(tagged().clone(), tagged());
    assert_eq!(link("q", &["a"], "v").clone(), link("q", &["a"], "v"));
}

#[test]
fn add_at_dates_the_link_in_utc() {
    let p = add_at(FileRead::Absent, request("t", "https://u"), 0).unwrap();
    assert_eq!(p.link.date, "1970-01-01");
    assert_eq!(p.link.id, derive_id("https://u", "1970-01-01"));
    let p = add_at(FileRead::Absent, request("t", "https://u"), 86_399).unwrap();
    assert_eq!(p.link.date, "1970-01-01");
    let p = add_at(FileRead::Absent, request("t", "https://u"), 86_400).unwrap();
    assert_eq!(p.link.date, "1970-01-02");
    let p = add_at(FileRead::Absent, request("t", "https://u"), -1).unwrap();
    assert_eq!(p.link.date, "1969-12-31");
    let p = add_at(FileRead::Absent, request("t", "https://u"), 1_700_000_000).unwrap();
    assert_eq!(p.link.date, "2023-11-14");
    let p = add_at(FileRead::Absent, request("t", "https://u"), 951_782_400).unwrap();
    assert_eq!(p.link.date, "2000-02-29");
}

#[test]
fn add_at_prefers_the_date_of_the_request() {
    let mut req = request("t", "https://u");
    req.date = Some("2020-12-31".to_string());
    let p = add_at(FileRead::Absent, req, i64::MAX).unwrap();
    assert_eq!(p.link.date, "2020-12-31");
    assert_eq!(p.link.id, derive_id("https://u", "2020-12-31"));
}

#[test]
fn add_at_rejects_moment_without_date() {
    assert_eq!(add_at(FileRead::Absent, request("t", "https://u"), i64::MAX), Err(StoreError::InvalidInput));
    assert_eq!(add_at(FileRead::Absent, request("t", "https://u"), i64::MIN), Err(StoreError::InvalidInput));
    assert_eq!(add_at(FileRead::Absent, request("", "https://u"), 0), Err(StoreError::InvalidInput));
}
