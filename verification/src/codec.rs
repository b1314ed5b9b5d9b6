//! The byte form of a feed.
//!
//! A number is eight bytes, least significant first. A text is the number of
//! its UTF-8 bytes, then those bytes. A link is its id, title, url, date,
//! summary and via as texts, then the number of its tags and each tag as a
//! text. A feed is its title, its version, the number of its links and each
//! link, newest first. Bytes after the last link are not read, so that later
//! versions can append to the layout.

use vstd::prelude::*;
use vstd::bytes::{
    lemma_auto_spec_u64_to_from_le_bytes, spec_u64_from_le_bytes, spec_u64_to_le_bytes,
    u64_from_le_bytes, u64_to_le_bytes,
};
use vstd::slice::{slice_subrange, slice_to_vec};
use vstd::utf8::{
    decode_utf8, decode_utf8_encode_utf8, encode_utf8, encode_utf8_decode_utf8,
    encode_utf8_valid_utf8, valid_utf8,
};
use crate::error::StoreError;
use crate::model::{link_views, texts, Feed, FeedView, Link, LinkView};

verus! {

// ---------------------------------------------------------------- layout

/// The bytes of a number.
pub open spec fn enc_num(n: u64) -> Seq<u8> {
    spec_u64_to_le_bytes(n)
}

/// The bytes of a text.
pub open spec fn enc_text(s: Seq<char>) -> Seq<u8> {
    enc_num(encode_utf8(s).len() as u64) + encode_utf8(s)
}

/// The bytes of a run of texts, without their count.
pub open spec fn enc_texts(ts: Seq<Seq<char>>) -> Seq<u8>
    decreases ts.len(),
{
    if ts.len() == 0 {
        Seq::empty()
    } else {
        enc_text(ts.first()) + enc_texts(ts.drop_first())
    }
}

/// The bytes of a link.
#[verifier::opaque]
pub open spec fn enc_link(l: LinkView) -> Seq<u8> {
    enc_text(l.id) + enc_text(l.title) + enc_text(l.url) + enc_text(l.date) + enc_text(l.summary)
        + enc_text(l.via) + enc_num(l.tags.len() as u64) + enc_texts(l.tags)
}

/// The bytes of a run of links, without their count.
pub open spec fn enc_links(ls: Seq<LinkView>) -> Seq<u8>
    decreases ls.len(),
{
    if ls.len() == 0 {
        Seq::empty()
    } else {
        enc_link(ls.first()) + enc_links(ls.drop_first())
    }
}

/// The bytes of a feed.
pub open spec fn enc_feed(f: FeedView) -> Seq<u8> {
    enc_text(f.title) + enc_num(f.version as u64) + enc_num(f.links.len() as u64) + enc_links(
        f.links,
    )
}

/// A text whose byte length can be written as a number.
pub open spec fn text_fits(s: Seq<char>) -> bool {
    encode_utf8(s).len() <= u64::MAX
}

/// A run of texts whose count and lengths can be written.
pub open spec fn texts_fit(ts: Seq<Seq<char>>) -> bool {
    &&& ts.len() <= u64::MAX
    &&& forall|i: int| 0 <= i < ts.len() ==> text_fits(#[trigger] ts[i])
}

/// A link whose every part can be written.
pub open spec fn link_fits(l: LinkView) -> bool {
    &&& text_fits(l.id)
    &&& text_fits(l.title)
    &&& text_fits(l.url)
    &&& text_fits(l.date)
    &&& text_fits(l.summary)
    &&& text_fits(l.via)
    &&& texts_fit(l.tags)
}

/// A run of links whose count and parts can be written.
pub open spec fn links_fit(ls: Seq<LinkView>) -> bool {
    &&& ls.len() <= u64::MAX
    &&& forall|i: int| 0 <= i < ls.len() ==> link_fits(#[trigger] ls[i])
}

/// A feed that the layout can hold. Every feed in memory is one.
pub open spec fn feed_fits(f: FeedView) -> bool {
    text_fits(f.title) && links_fit(f.links)
}

// ---------------------------------------------------------------- reading, as a model

/// Reads a number from the front of `b`: the number and the bytes after it.
pub open spec fn parse_num(b: Seq<u8>) -> Option<(u64, Seq<u8>)> {
    if b.len() < 8 {
        None
    } else {
        Some((spec_u64_from_le_bytes(b.take(8)), b.skip(8)))
    }
}

/// Reads a text from the front of `b`.
pub open spec fn parse_text(b: Seq<u8>) -> Option<(Seq<char>, Seq<u8>)> {
    match parse_num(b) {
        None => None,
        Some((n, r)) => if n <= r.len() && valid_utf8(r.take(n as int)) {
            Some((decode_utf8(r.take(n as int)), r.skip(n as int)))
        } else {
            None
        },
    }
}

/// Puts what was read before in front of what was read after it.
pub open spec fn extend<T>(done: Seq<T>, more: Option<(Seq<T>, Seq<u8>)>) -> Option<
    (Seq<T>, Seq<u8>),
> {
    match more {
        None => None,
        Some((items, rest)) => Some((done + items, rest)),
    }
}

/// Reads `n` texts from the front of `b`.
pub open spec fn parse_texts(b: Seq<u8>, n: nat) -> Option<(Seq<Seq<char>>, Seq<u8>)>
    decreases n,
{
    if n == 0 {
        Some((Seq::empty(), b))
    } else {
        match parse_text(b) {
            None => None,
            Some((t, r)) => extend(seq![t], parse_texts(r, (n - 1) as nat)),
        }
    }
}

/// Reads a link from the front of `b`.
#[verifier::opaque]
pub open spec fn parse_link(b: Seq<u8>) -> Option<(LinkView, Seq<u8>)> {
    match parse_text(b) {
        None => None,
        Some((id, b1)) => match parse_text(b1) {
            None => None,
            Some((title, b2)) => match parse_text(b2) {
                None => None,
                Some((url, b3)) => match parse_text(b3) {
                    None => None,
                    Some((date, b4)) => match parse_text(b4) {
                        None => None,
                        Some((summary, b5)) => match parse_text(b5) {
                            None => None,
                            Some((via, b6)) => match parse_num(b6) {
                                None => None,
                                Some((n, b7)) => match parse_texts(b7, n as nat) {
                                    None => None,
                                    Some((tags, b8)) => Some(
                                        (LinkView { id, title, url, date, summary, tags, via }, b8),
                                    ),
                                },
                            },
                        },
                    },
                },
            },
        },
    }
}

/// Reads `n` links from the front of `b`.
pub open spec fn parse_links(b: Seq<u8>, n: nat) -> Option<(Seq<LinkView>, Seq<u8>)>
    decreases n,
{
    if n == 0 {
        Some((Seq::empty(), b))
    } else {
        match parse_link(b) {
            None => None,
            Some((l, r)) => extend(seq![l], parse_links(r, (n - 1) as nat)),
        }
    }
}

/// The feed that `b` holds, if `b` has the shape of one: a title, a version
/// that fits in 32 bits, a count, and that many links. Anything after the
/// last link is ignored.
pub open spec fn dec_feed(b: Seq<u8>) -> Option<FeedView> {
    match parse_text(b) {
        None => None,
        Some((title, b1)) => match parse_num(b1) {
            None => None,
            Some((version, b2)) => match parse_num(b2) {
                None => None,
                Some((n, b3)) => match parse_links(b3, n as nat) {
                    None => None,
                    Some((links, rest)) => if version <= u32::MAX {
                        Some(FeedView { title, version: version as u32, links })
                    } else {
                        None
                    },
                },
            },
        },
    }
}

// ---------------------------------------------------------------- what was written can be read

/// A number that was written is read back, and the bytes after it are left.
pub proof fn lemma_read_num(n: u64, rest: Seq<u8>)
    ensures
        parse_num(enc_num(n) + rest) == Some((n, rest)),
{
    lemma_auto_spec_u64_to_from_le_bytes();
    let b = enc_num(n) + rest;
    assert(b.take(8) =~= enc_num(n));
    assert(b.skip(8) =~= rest);
}

/// A text that was written is read back, and the bytes after it are left.
pub proof fn lemma_read_text(s: Seq<char>, rest: Seq<u8>)
    requires
        text_fits(s),
    ensures
        parse_text(enc_text(s) + rest) == Some((s, rest)),
{
    let body = encode_utf8(s);
    let n = body.len() as u64;
    let r = body + rest;
    assert(enc_text(s) + rest =~= enc_num(n) + r);
    lemma_read_num(n, r);
    assert(r.take(n as int) =~= body);
    assert(r.skip(n as int) =~= rest);
    encode_utf8_valid_utf8(s);
    encode_utf8_decode_utf8(s);
}

/// Texts that were written are read back in order.
pub proof fn lemma_read_texts(ts: Seq<Seq<char>>, rest: Seq<u8>)
    requires
        texts_fit(ts),
    ensures
        parse_texts(enc_texts(ts) + rest, ts.len()) == Some((ts, rest)),
    decreases ts.len(),
{
    if ts.len() == 0 {
        assert(enc_texts(ts) + rest =~= rest);
        assert(ts =~= Seq::empty());
    } else {
        let tail = ts.drop_first();
        let r = enc_texts(tail) + rest;
        assert(enc_texts(ts) + rest =~= enc_text(ts.first()) + r);
        assert(text_fits(ts[0]));
        lemma_read_text(ts.first(), r);
        assert forall|i: int| 0 <= i < tail.len() implies text_fits(#[trigger] tail[i]) by {
            assert(tail[i] == ts[i + 1]);
        }
        lemma_read_texts(tail, rest);
        assert(seq![ts.first()] + tail =~= ts);
    }
}

/// A link that was written is read back, and the bytes after it are left.
pub proof fn lemma_read_link(l: LinkView, rest: Seq<u8>)
    requires
        link_fits(l),
    ensures
        parse_link(enc_link(l) + rest) == Some((l, rest)),
{
    reveal(enc_link);
    reveal(parse_link);
    let n = l.tags.len() as u64;
    let t7 = enc_texts(l.tags) + rest;
    let t6 = enc_num(n) + t7;
    let t5 = enc_text(l.via) + t6;
    let t4 = enc_text(l.summary) + t5;
    let t3 = enc_text(l.date) + t4;
    let t2 = enc_text(l.url) + t3;
    let t1 = enc_text(l.title) + t2;
    assert(enc_link(l) + rest =~= enc_text(l.id) + t1);
    lemma_read_text(l.id, t1);
    lemma_read_text(l.title, t2);
    lemma_read_text(l.url, t3);
    lemma_read_text(l.date, t4);
    lemma_read_text(l.summary, t5);
    lemma_read_text(l.via, t6);
    lemma_read_num(n, t7);
    lemma_read_texts(l.tags, rest);
}

/// Links that were written are read back in order.
pub proof fn lemma_read_links(ls: Seq<LinkView>, rest: Seq<u8>)
    requires
        links_fit(ls),
    ensures
        parse_links(enc_links(ls) + rest, ls.len()) == Some((ls, rest)),
    decreases ls.len(),
{
    if ls.len() == 0 {
        assert(enc_links(ls) + rest =~= rest);
        assert(ls =~= Seq::empty());
    } else {
        let tail = ls.drop_first();
        let r = enc_links(tail) + rest;
        assert(enc_links(ls) + rest =~= enc_link(ls.first()) + r);
        assert(link_fits(ls[0]));
        lemma_read_link(ls.first(), r);
        assert forall|i: int| 0 <= i < tail.len() implies link_fits(#[trigger] tail[i]) by {
            assert(tail[i] == ls[i + 1]);
        }
        lemma_read_links(tail, rest);
        assert(seq![ls.first()] + tail =~= ls);
    }
}

/// Reading what was written gives the feed back, whatever bytes follow it.
pub proof fn lemma_decode_encode(f: FeedView, rest: Seq<u8>)
    requires
        feed_fits(f),
    ensures
        dec_feed(enc_feed(f) + rest) == Some(f),
{
    let n = f.links.len() as u64;
    let t3 = enc_links(f.links) + rest;
    let t2 = enc_num(n) + t3;
    let t1 = enc_num(f.version as u64) + t2;
    assert(enc_feed(f) + rest =~= enc_text(f.title) + t1);
    lemma_read_text(f.title, t1);
    lemma_read_num(f.version as u64, t2);
    lemma_read_num(n, t3);
    lemma_read_links(f.links, rest);
}

// ---------------------------------------------------------------- what was read can be written

/// A text that was read can be written.
pub proof fn lemma_parsed_text_fits(b: Seq<u8>)
    ensures
        parse_text(b) matches Some((t, _)) ==> text_fits(t),
{
    if let Some((n, r)) = parse_num(b) {
        if n <= r.len() && valid_utf8(r.take(n as int)) {
            decode_utf8_encode_utf8(r.take(n as int));
        }
    }
}

/// Texts that were read are as many as were asked for, and can be written.
pub proof fn lemma_parsed_texts_fit(b: Seq<u8>, n: nat)
    requires
        n <= u64::MAX,
    ensures
        parse_texts(b, n) matches Some((ts, _)) ==> ts.len() == n && texts_fit(ts),
    decreases n,
{
    if n > 0 {
        lemma_parsed_text_fits(b);
        if let Some((t, r)) = parse_text(b) {
            lemma_parsed_texts_fit(r, (n - 1) as nat);
            if let Some((ts, _)) = parse_texts(r, (n - 1) as nat) {
                let all = seq![t] + ts;
                assert forall|i: int| 0 <= i < all.len() implies text_fits(#[trigger] all[i]) by {
                    if i > 0 {
                        assert(all[i] == ts[i - 1]);
                    }
                }
            }
        }
    }
}

/// A link that was read can be written.
pub proof fn lemma_parsed_link_fits(b: Seq<u8>)
    ensures
        parse_link(b) matches Some((l, _)) ==> link_fits(l),
{
    reveal(parse_link);
    lemma_parsed_text_fits(b);
    if let Some((_, b1)) = parse_text(b) {
        lemma_parsed_text_fits(b1);
        if let Some((_, b2)) = parse_text(b1) {
            lemma_parsed_text_fits(b2);
            if let Some((_, b3)) = parse_text(b2) {
                lemma_parsed_text_fits(b3);
                if let Some((_, b4)) = parse_text(b3) {
                    lemma_parsed_text_fits(b4);
                    if let Some((_, b5)) = parse_text(b4) {
                        lemma_parsed_text_fits(b5);
                        if let Some((_, b6)) = parse_text(b5) {
                            if let Some((n, b7)) = parse_num(b6) {
                                lemma_parsed_texts_fit(b7, n as nat);
                            }
                        }
                    }
                }
            }
        }
    }
}

/// Links that were read are as many as were asked for, and can be written.
pub proof fn lemma_parsed_links_fit(b: Seq<u8>, n: nat)
    requires
        n <= u64::MAX,
    ensures
        parse_links(b, n) matches Some((ls, _)) ==> ls.len() == n && links_fit(ls),
    decreases n,
{
    if n > 0 {
        lemma_parsed_link_fits(b);
        if let Some((l, r)) = parse_link(b) {
            lemma_parsed_links_fit(r, (n - 1) as nat);
            if let Some((ls, _)) = parse_links(r, (n - 1) as nat) {
                let all = seq![l] + ls;
                assert forall|i: int| 0 <= i < all.len() implies link_fits(#[trigger] all[i]) by {
                    if i > 0 {
                        assert(all[i] == ls[i - 1]);
                    }
                }
            }
        }
    }
}

/// Writing a feed that was read, and reading that again, gives the same
/// feed: reading loses nothing that writing needs.
pub proof fn lemma_encode_decode(b: Seq<u8>)
    ensures
        dec_feed(b) matches Some(f) ==> feed_fits(f) && dec_feed(enc_feed(f)) == Some(f),
{
    lemma_parsed_text_fits(b);
    if let Some((_, b1)) = parse_text(b) {
        if let Some((_, b2)) = parse_num(b1) {
            if let Some((n, b3)) = parse_num(b2) {
                lemma_parsed_links_fit(b3, n as nat);
            }
        }
    }
    if let Some(f) = dec_feed(b) {
        lemma_decode_encode(f, Seq::empty());
        assert(enc_feed(f) + Seq::<u8>::empty() =~= enc_feed(f));
    }
}

/// Appending a text to a run appends its bytes.
pub proof fn lemma_enc_texts_push(ts: Seq<Seq<char>>, t: Seq<char>)
    ensures
        enc_texts(ts.push(t)) == enc_texts(ts) + enc_text(t),
    decreases ts.len(),
{
    let all = ts.push(t);
    if ts.len() == 0 {
        assert(all.drop_first() =~= Seq::empty());
        assert(enc_texts(all.drop_first()) =~= Seq::empty());
        assert(enc_texts(all) =~= enc_texts(ts) + enc_text(t));
    } else {
        assert(all.drop_first() =~= ts.drop_first().push(t));
        lemma_enc_texts_push(ts.drop_first(), t);
        assert(enc_texts(all) =~= enc_texts(ts) + enc_text(t));
    }
}

/// Appending a link to a run appends its bytes.
pub proof fn lemma_enc_links_push(ls: Seq<LinkView>, l: LinkView)
    ensures
        enc_links(ls.push(l)) == enc_links(ls) + enc_link(l),
    decreases ls.len(),
{
    let all = ls.push(l);
    if ls.len() == 0 {
        assert(all.drop_first() =~= Seq::empty());
        assert(enc_links(all.drop_first()) =~= Seq::empty());
        assert(enc_links(all) =~= enc_links(ls) + enc_link(l));
    } else {
        assert(all.drop_first() =~= ls.drop_first().push(l));
        lemma_enc_links_push(ls.drop_first(), l);
        assert(enc_links(all) =~= enc_links(ls) + enc_link(l));
    }
}

// ---------------------------------------------------------------- writing

/// Appends a copy of `src` to `out`.
pub fn append_bytes(out: &mut Vec<u8>, src: &[u8])
    ensures
        final(out)@ == old(out)@ + src@,
{
    let mut i: usize = 0;
    while i < src.len()
        invariant
            i <= src@.len(),
            out@ == old(out)@ + src@.take(i as int),
        decreases src@.len() - i,
    {
        out.push(src[i]);
        assert(out@ =~= old(out)@ + src@.take(i + 1));
        i += 1;
    }
    assert(src@.take(i as int) =~= src@);
}

fn write_num(out: &mut Vec<u8>, n: u64)
    ensures
        final(out)@ == old(out)@ + enc_num(n),
{
    let b = u64_to_le_bytes(n);
    append_bytes(out, b.as_slice());
}

fn write_text(out: &mut Vec<u8>, s: &str)
    ensures
        final(out)@ == old(out)@ + enc_text(s@),
        text_fits(s@),
{
    let body = s.as_bytes();
    write_num(out, body.len() as u64);
    append_bytes(out, body);
    assert(out@ =~= old(out)@ + enc_text(s@));
}

fn write_texts(out: &mut Vec<u8>, ts: &Vec<String>)
    ensures
        final(out)@ == old(out)@ + enc_num(ts@.len() as u64) + enc_texts(texts(ts@)),
        texts_fit(texts(ts@)),
{
    write_num(out, ts.len() as u64);
    let ghost base = out@;
    let mut i: usize = 0;
    while i < ts.len()
        invariant
            i <= ts@.len(),
            out@ == base + enc_texts(texts(ts@).take(i as int)),
            forall|k: int| 0 <= k < i ==> text_fits(#[trigger] texts(ts@)[k]),
        decreases ts@.len() - i,
    {
        let ghost before = out@;
        write_text(out, ts[i].as_str());
        proof {
            let all = texts(ts@);
            assert(all.take(i + 1) =~= all.take(i as int).push(all[i as int]));
            lemma_enc_texts_push(all.take(i as int), all[i as int]);
            assert(out@ =~= base + enc_texts(all.take(i + 1)));
        }
        i += 1;
    }
    assert(texts(ts@).take(i as int) =~= texts(ts@));
}

fn write_link(out: &mut Vec<u8>, l: &Link)
    ensures
        final(out)@ == old(out)@ + enc_link(l@),
        link_fits(l@),
{
    write_text(out, l.id.as_str());
    write_text(out, l.title.as_str());
    write_text(out, l.url.as_str());
    write_text(out, l.date.as_str());
    write_text(out, l.summary.as_str());
    write_text(out, l.via.as_str());
    write_texts(out, &l.tags);
    proof {
        reveal(enc_link);
    }
    assert(out@ =~= old(out)@ + enc_link(l@));
}

/// Writes a feed in the layout of this module. Total: every feed in memory
/// can be written, and the same feed always gives the same bytes.
pub fn encode(feed: &Feed) -> (out: Vec<u8>)
    ensures
        out@ == enc_feed(feed@),
        feed_fits(feed@),
        dec_feed(out@) == Some(feed@),
{
    let mut out: Vec<u8> = Vec::new();
    write_text(&mut out, feed.title.as_str());
    write_num(&mut out, feed.version as u64);
    write_num(&mut out, feed.links.len() as u64);
    let ghost base = out@;
    let mut i: usize = 0;
    while i < feed.links.len()
        invariant
            i <= feed.links@.len(),
            out@ == base + enc_links(link_views(feed.links@).take(i as int)),
            forall|k: int| 0 <= k < i ==> link_fits(#[trigger] link_views(feed.links@)[k]),
        decreases feed.links@.len() - i,
    {
        write_link(&mut out, &feed.links[i]);
        proof {
            let all = link_views(feed.links@);
            assert(all.take(i + 1) =~= all.take(i as int).push(all[i as int]));
            lemma_enc_links_push(all.take(i as int), all[i as int]);
            assert(out@ =~= base + enc_links(all.take(i + 1)));
        }
        i += 1;
    }
    proof {
        assert(link_views(feed.links@).take(i as int) =~= link_views(feed.links@));
        assert(out@ =~= enc_feed(feed@));
        lemma_decode_encode(feed@, Seq::empty());
        assert(enc_feed(feed@) + Seq::<u8>::empty() =~= enc_feed(feed@));
    }
    out
}

// ---------------------------------------------------------------- reading

/// `String::from_utf8`: succeeds exactly on well-formed UTF-8, and the string
/// then holds the characters that the bytes encode.
#[verifier::external_body]
fn text_from_utf8(bytes: Vec<u8>) -> (out: Option<String>)
    ensures
        out is Some <==> valid_utf8(bytes@),
        out is Some ==> out.unwrap()@ == decode_utf8(bytes@),
{
    String::from_utf8(bytes).ok()
}

fn read_num(bytes: &[u8], pos: usize) -> (out: Option<(u64, usize)>)
    requires
        pos <= bytes@.len(),
    ensures
        match parse_num(bytes@.skip(pos as int)) {
            None => out is None,
            Some((n, rest)) => {
                &&& out is Some
                &&& out.unwrap().0 == n
                &&& pos <= out.unwrap().1 <= bytes@.len()
                &&& bytes@.skip(out.unwrap().1 as int) == rest
            },
        },
{
    if bytes.len() - pos < 8 {
        return None;
    }
    let field = slice_subrange(bytes, pos, pos + 8);
    let n = u64_from_le_bytes(field);
    proof {
        let b = bytes@.skip(pos as int);
        assert(field@ =~= b.take(8));
        assert(bytes@.skip(pos + 8) =~= b.skip(8));
    }
    Some((n, pos + 8))
}

fn read_text(bytes: &[u8], pos: usize) -> (out: Option<(String, usize)>)
    requires
        pos <= bytes@.len(),
    ensures
        match parse_text(bytes@.skip(pos as int)) {
            None => out is None,
            Some((t, rest)) => {
                &&& out is Some
                &&& out.unwrap().0@ == t
                &&& pos <= out.unwrap().1 <= bytes@.len()
                &&& bytes@.skip(out.unwrap().1 as int) == rest
            },
        },
{
    let (n, p) = match read_num(bytes, pos) {
        None => { return None; },
        Some(x) => x,
    };
    if n > (bytes.len() - p) as u64 {
        return None;
    }
    let len = n as usize;
    let field = slice_subrange(bytes, p, p + len);
    proof {
        let r = bytes@.skip(p as int);
        assert(field@ =~= r.take(n as int));
        assert(bytes@.skip(p + len) =~= r.skip(n as int));
    }
    match text_from_utf8(slice_to_vec(field)) {
        None => None,
        Some(s) => Some((s, p + len)),
    }
}

fn read_texts(bytes: &[u8], pos: usize, n: u64) -> (out: Option<(Vec<String>, usize)>)
    requires
        pos <= bytes@.len(),
    ensures
        match parse_texts(bytes@.skip(pos as int), n as nat) {
            None => out is None,
            Some((ts, rest)) => {
                &&& out is Some
                &&& texts(out.unwrap().0@) == ts
                &&& pos <= out.unwrap().1 <= bytes@.len()
                &&& bytes@.skip(out.unwrap().1 as int) == rest
            },
        },
{
    let ghost start = bytes@.skip(pos as int);
    let mut items: Vec<String> = Vec::new();
    let mut p: usize = pos;
    let mut i: u64 = 0;
    assert(texts(items@) + Seq::<Seq<char>>::empty() =~= Seq::<Seq<char>>::empty());
    assert(extend(texts(items@), parse_texts(start, n as nat)) == parse_texts(start, n as nat)) by {
        match parse_texts(start, n as nat) {
            None => {},
            Some((ts, rest)) => {
                assert(texts(items@) + ts =~= ts);
            },
        }
    }
    while i < n
        invariant
            i <= n,
            pos <= p <= bytes@.len(),
            start == bytes@.skip(pos as int),
            parse_texts(start, n as nat) == extend(
                texts(items@),
                parse_texts(bytes@.skip(p as int), (n - i) as nat),
            ),
        decreases n - i,
    {
        let ghost cur = bytes@.skip(p as int);
        let ghost done = texts(items@);
        match read_text(bytes, p) {
            None => {
                assert(parse_texts(cur, (n - i) as nat) is None);
                return None;
            },
            Some((s, at2)) => {
                proof {
                    let r = bytes@.skip(at2 as int);
                    let more = parse_texts(r, (n - i - 1) as nat);
                    assert(parse_texts(cur, (n - i) as nat) == extend(seq![s@], more));
                    assert(texts(items@.push(s)) =~= done.push(s@));
                    match more {
                        None => {},
                        Some((ts, rest)) => {
                            assert(done + (seq![s@] + ts) =~= done.push(s@) + ts);
                        },
                    }
                }
                items.push(s);
                p = at2;
                i += 1;
            },
        }
    }
    assert(texts(items@) + Seq::<Seq<char>>::empty() =~= texts(items@));
    Some((items, p))
}

fn read_link(bytes: &[u8], pos: usize) -> (out: Option<(Link, usize)>)
    requires
        pos <= bytes@.len(),
    ensures
        match parse_link(bytes@.skip(pos as int)) {
            None => out is None,
            Some((l, rest)) => {
                &&& out is Some
                &&& out.unwrap().0@ == l
                &&& pos <= out.unwrap().1 <= bytes@.len()
                &&& bytes@.skip(out.unwrap().1 as int) == rest
            },
        },
{
    proof {
        reveal(parse_link);
    }
    let (id, at1) = match read_text(bytes, pos) {
        None => { return None; },
        Some(x) => x,
    };
    let (title, at2) = match read_text(bytes, at1) {
        None => { return None; },
        Some(x) => x,
    };
    let (url, at3) = match read_text(bytes, at2) {
        None => { return None; },
        Some(x) => x,
    };
    let (date, at4) = match read_text(bytes, at3) {
        None => { return None; },
        Some(x) => x,
    };
    let (summary, at5) = match read_text(bytes, at4) {
        None => { return None; },
        Some(x) => x,
    };
    let (via, at6) = match read_text(bytes, at5) {
        None => { return None; },
        Some(x) => x,
    };
    let (n, at7) = match read_num(bytes, at6) {
        None => { return None; },
        Some(x) => x,
    };
    let (tags, at8) = match read_texts(bytes, at7, n) {
        None => { return None; },
        Some(x) => x,
    };
    Some((Link { id, title, url, date, summary, tags, via }, at8))
}

fn read_links(bytes: &[u8], pos: usize, n: u64) -> (out: Option<(Vec<Link>, usize)>)
    requires
        pos <= bytes@.len(),
    ensures
        match parse_links(bytes@.skip(pos as int), n as nat) {
            None => out is None,
            Some((ls, rest)) => {
                &&& out is Some
                &&& link_views(out.unwrap().0@) == ls
                &&& pos <= out.unwrap().1 <= bytes@.len()
                &&& bytes@.skip(out.unwrap().1 as int) == rest
            },
        },
{
    let ghost start = bytes@.skip(pos as int);
    let mut items: Vec<Link> = Vec::new();
    let mut p: usize = pos;
    let mut i: u64 = 0;
    assert(extend(link_views(items@), parse_links(start, n as nat)) == parse_links(start, n as nat))
        by {
        match parse_links(start, n as nat) {
            None => {},
            Some((ls, rest)) => {
                assert(link_views(items@) + ls =~= ls);
            },
        }
    }
    while i < n
        invariant
            i <= n,
            pos <= p <= bytes@.len(),
            start == bytes@.skip(pos as int),
            parse_links(start, n as nat) == extend(
                link_views(items@),
                parse_links(bytes@.skip(p as int), (n - i) as nat),
            ),
        decreases n - i,
    {
        let ghost cur = bytes@.skip(p as int);
        let ghost done = link_views(items@);
        match read_link(bytes, p) {
            None => {
                assert(parse_links(cur, (n - i) as nat) is None);
                return None;
            },
            Some((l, at2)) => {
                proof {
                    let r = bytes@.skip(at2 as int);
                    let more = parse_links(r, (n - i - 1) as nat);
                    assert(parse_links(cur, (n - i) as nat) == extend(seq![l@], more));
                    assert(link_views(items@.push(l)) =~= done.push(l@));
                    match more {
                        None => {},
                        Some((ls, rest)) => {
                            assert(done + (seq![l@] + ls) =~= done.push(l@) + ls);
                        },
                    }
                }
                items.push(l);
                p = at2;
                i += 1;
            },
        }
    }
    assert(link_views(items@) + Seq::<LinkView>::empty() =~= link_views(items@));
    Some((items, p))
}

/// Reads a feed from bytes. Fails with `MalformedFeed` exactly when the
/// bytes do not have the shape of a feed.
pub fn decode(bytes: &[u8]) -> (out: Result<Feed, StoreError>)
    ensures
        match dec_feed(bytes@) {
            Some(f) => out is Ok && out.unwrap()@ == f,
            None => out is Err && out.unwrap_err() is MalformedFeed,
        },
{
    assert(bytes@.skip(0) =~= bytes@);
    let (title, at1) = match read_text(bytes, 0) {
        None => { return Err(StoreError::MalformedFeed); },
        Some(x) => x,
    };
    let (version, at2) = match read_num(bytes, at1) {
        None => { return Err(StoreError::MalformedFeed); },
        Some(x) => x,
    };
    let (n, at3) = match read_num(bytes, at2) {
        None => { return Err(StoreError::MalformedFeed); },
        Some(x) => x,
    };
    let (links, _end) = match read_links(bytes, at3, n) {
        None => { return Err(StoreError::MalformedFeed); },
        Some(x) => x,
    };
    if version > u32::MAX as u64 {
        return Err(StoreError::MalformedFeed);
    }
    Ok(Feed { title, version: version as u32, links })
}

} // verus!
