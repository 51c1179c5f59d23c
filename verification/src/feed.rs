//! The feed boundary and the feed-mode frontier. The outside RSS parser hands
//! the library the items' plain fields; the frontier walk that decides which
//! items are new is verified here.

use vstd::prelude::*;

use crate::strutil::str_eq;

verus! {

/// The fields of one feed item that ingestion reads.
pub struct FeedItem {
    pub title: Option<String>,
    pub link: Option<String>,
    pub pub_date: Option<String>,
    pub content: Option<String>,
}

/// The mathematical value of a feed item.
pub struct FeedItemView {
    pub title: Option<Seq<char>>,
    pub link: Option<Seq<char>>,
    pub pub_date: Option<Seq<char>>,
    pub content: Option<Seq<char>>,
}

/// The view of one optional string.
pub open spec fn opt_view(s: Option<String>) -> Option<Seq<char>> {
    match s {
        Some(v) => Some(v@),
        None => None,
    }
}

impl View for FeedItem {
    type V = FeedItemView;

    open spec fn view(&self) -> FeedItemView {
        FeedItemView {
            title: opt_view(self.title),
            link: opt_view(self.link),
            pub_date: opt_view(self.pub_date),
            content: opt_view(self.content),
        }
    }
}

impl DeepView for FeedItem {
    type V = FeedItemView;

    open spec fn deep_view(&self) -> FeedItemView {
        self.view()
    }
}

/// The items of the feed document in the given bytes, in feed order.
pub uninterp spec fn feed_items(data: Seq<u8>) -> Seq<FeedItemView>;

/// Whether the given bytes read as a feed document at all.
pub uninterp spec fn feed_parses(data: Seq<u8>) -> bool;

/// Relies on `rss::Channel::read_from`: it parses an RSS document and yields
/// its items, each with its optional title, link, publication date and
/// content, one for one in feed order. Whether the bytes read as a feed, and
/// the items they carry, are functions of the bytes alone; bytes that are no
/// RSS document are refused.
#[verifier::external_body]
pub fn read_feed(data: &Vec<u8>) -> (r: Option<Vec<FeedItem>>)
    ensures
        r is Some <==> feed_parses(data@),
        r matches Some(items) ==> items.deep_view() == feed_items(data@),
{
    match rss::Channel::read_from(&data[..]) {
        Ok(ch) => Some(ch.items().iter().map(|i| FeedItem {
            title: i.title.clone(),
            link: i.link.clone(),
            pub_date: i.pub_date.clone(),
            content: i.content.clone(),
        }).collect()),
        Err(_) => None,
    }
}

/// The position where the new prefix of the feed ends: the first position at
/// or after `j` whose item has no title or has the stored latest title.
pub open spec fn frontier_from(items: Seq<FeedItemView>, last: Seq<char>, j: int) -> int
    decreases items.len() + 1 - j,
    when 0 <= j
{
    if j >= items.len() {
        items.len() as int
    } else if items[j].title matches Some(t) && t != last {
        frontier_from(items, last, j + 1)
    } else {
        j
    }
}

/// The new items of a feed against the stored latest title: the feed is
/// newest first, its first item is pinned and skipped, and every item before
/// the first one that carries the stored title (or carries none) is new.
pub open spec fn new_feed_items_spec(items: Seq<FeedItemView>, last: Seq<char>) -> Seq<
    FeedItemView,
> {
    if items.len() <= 1 {
        Seq::empty()
    } else {
        items.subrange(1, frontier_from(items, last, 1))
    }
}

/// Clones one optional string.
fn clone_opt(s: &Option<String>) -> (r: Option<String>)
    ensures
        opt_view(r) == opt_view(*s),
{
    match s {
        Some(v) => Some(v.clone()),
        None => None,
    }
}

/// Clones one feed item.
fn clone_item(item: &FeedItem) -> (r: FeedItem)
    ensures
        r@ == item@,
{
    FeedItem {
        title: clone_opt(&item.title),
        link: clone_opt(&item.link),
        pub_date: clone_opt(&item.pub_date),
        content: clone_opt(&item.content),
    }
}

/// Walks the feed for the items that are new against the stored latest title:
/// the pinned first item is skipped, and the walk stops at the first item
/// whose title is absent or equals the stored one.
pub fn new_feed_items(items: &Vec<FeedItem>, last_title: &str) -> (r: Vec<FeedItem>)
    ensures
        r.deep_view() == new_feed_items_spec(items.deep_view(), last_title@),
{
    let ghost iv = items.deep_view();
    let n: usize = items.len();
    let mut r: Vec<FeedItem> = Vec::new();
    if n <= 1 {
        proof {
            assert(r.deep_view() =~= new_feed_items_spec(iv, last_title@));
        }
        return r;
    }
    let mut j: usize = 1;
    while j < n
        invariant
            1 <= j <= n,
            n == items@.len(),
            iv == items.deep_view(),
            iv.len() == n,
            frontier_from(iv, last_title@, 1) == frontier_from(iv, last_title@, j as int),
            r.deep_view() == iv.subrange(1, j as int),
        ensures
            1 <= j <= n,
            frontier_from(iv, last_title@, 1) == frontier_from(iv, last_title@, j as int),
            r.deep_view() == iv.subrange(1, j as int),
            j < n ==> !(iv[j as int].title matches Some(t) && t != last_title@),
        decreases n - j,
    {
        proof {
            assert(items.deep_view()[j as int] == items@[j as int]@);
        }
        let keep: bool = match &items[j].title {
            Some(t) => !str_eq(t.as_str(), last_title),
            None => false,
        };
        if !keep {
            break;
        }
        let item = clone_item(&items[j]);
        let ghost prev = r.deep_view();
        r.push(item);
        proof {
            assert(forall|q: int| 0 <= q < prev.len() ==> #[trigger] r.deep_view()[q] == prev[q]);
            assert(r.deep_view()[prev.len() as int] == item@);
            assert(r.deep_view() =~= iv.subrange(1, j + 1));
        }
        j = j + 1;
    }
    proof {
        assert(frontier_from(iv, last_title@, j as int) == j as int);
        assert(r.deep_view() =~= new_feed_items_spec(iv, last_title@));
    }
    r
}

} // verus!
