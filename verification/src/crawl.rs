//! The full-crawl listing and its frontier. A listing page carries the
//! complete catalog as anchors inside a `lcp_catlist` list; the crawl
//! collects `(title, url)` pairs from it and keeps exactly those whose title
//! is not stored yet — a set difference, correct in any order.

use vstd::prelude::*;

use crate::dom::{
    attr_lookup, attr_spec, deep_index, has_class, is_elem, parent_of, subtree_text,
    subtree_text_exec, tag_is, tag_of, FlatNode, NodeView,
};
use crate::strutil::{chars_vec, str_eq, string_from_chars};

verus! {

/// Whether some enclosing node of the node at `k` carries the listing class.
pub open spec fn under_catlist(doc: Seq<NodeView>, k: int) -> bool
    decreases k,
    when 0 <= k < doc.len()
    via under_catlist_dec
{
    match parent_of(doc, k) {
        None => false,
        Some(p) => has_class(doc[p], "lcp_catlist"@) || under_catlist(doc, p),
    }
}

#[via_fn]
proof fn under_catlist_dec(doc: Seq<NodeView>, k: int) {
    if 0 <= k < doc.len() {
        crate::dom::lemma_parent_from(doc, crate::dom::depth_of(doc[k]), k - 1);
    }
}

/// Whether the node at `p` is a list item inside the listing.
pub open spec fn listing_li(doc: Seq<NodeView>, p: int) -> bool {
    is_elem(doc[p]) && tag_of(doc[p]) == "li"@ && under_catlist(doc, p)
}

/// Whether some enclosing node of the node at `k` is a listing list item.
pub open spec fn under_listing_li(doc: Seq<NodeView>, k: int) -> bool
    decreases k,
    when 0 <= k < doc.len()
    via under_listing_li_dec
{
    match parent_of(doc, k) {
        None => false,
        Some(p) => listing_li(doc, p) || under_listing_li(doc, p),
    }
}

#[via_fn]
proof fn under_listing_li_dec(doc: Seq<NodeView>, k: int) {
    if 0 <= k < doc.len() {
        crate::dom::lemma_parent_from(doc, crate::dom::depth_of(doc[k]), k - 1);
    }
}

/// Whether the node at `k` is a listing anchor: an `a` element inside a list
/// item of the listing.
pub open spec fn is_listing_anchor(doc: Seq<NodeView>, k: int) -> bool {
    is_elem(doc[k]) && tag_of(doc[k]) == "a"@ && under_listing_li(doc, k)
}

/// Checks `under_catlist` at `k`.
fn under_catlist_exec(doc: &Vec<FlatNode>, k: usize) -> (r: bool)
    requires
        k < doc@.len(),
    ensures
        r == under_catlist(doc.deep_view(), k as int),
{
    let ghost dv = doc.deep_view();
    let cls = chars_vec("lcp_catlist");
    let mut cur: usize = k;
    loop
        invariant
            cur <= k < doc@.len(),
            dv == doc.deep_view(),
            cls@ == "lcp_catlist"@,
            under_catlist(dv, k as int) == under_catlist(dv, cur as int),
        decreases cur,
    {
        match crate::dom::parent_exec(doc, cur) {
            None => {
                return false;
            },
            Some(p) => {
                proof {
                    deep_index(doc, p as int);
                }
                if crate::dom::has_class_exec(&doc[p], &cls) {
                    return true;
                }
                cur = p;
            },
        }
    }
}

/// Checks `under_listing_li` at `k`.
fn under_listing_li_exec(doc: &Vec<FlatNode>, k: usize) -> (r: bool)
    requires
        k < doc@.len(),
    ensures
        r == under_listing_li(doc.deep_view(), k as int),
{
    let ghost dv = doc.deep_view();
    let mut cur: usize = k;
    loop
        invariant
            cur <= k < doc@.len(),
            dv == doc.deep_view(),
            under_listing_li(dv, k as int) == under_listing_li(dv, cur as int),
        decreases cur,
    {
        match crate::dom::parent_exec(doc, cur) {
            None => {
                return false;
            },
            Some(p) => {
                proof {
                    deep_index(doc, p as int);
                }
                let is_li = tag_is(&doc[p], "li");
                if is_li {
                    if under_catlist_exec(doc, p) {
                        return true;
                    }
                }
                cur = p;
            },
        }
    }
}

/// The `(title, url)` pair of a listing anchor at `k`, as a sequence of none
/// or one pair: its text and its `href`; an anchor without `href` yields none.
pub open spec fn pair_at(doc: Seq<NodeView>, k: int) -> Seq<(Seq<char>, Seq<char>)> {
    if is_listing_anchor(doc, k) {
        match attr_spec(doc[k], "href"@) {
            Some(h) => seq![(subtree_text(doc, k), h)],
            None => Seq::empty(),
        }
    } else {
        Seq::empty()
    }
}

/// The listing pairs among the positions `[0, k)`, in document order.
pub open spec fn pairs_upto(doc: Seq<NodeView>, k: int) -> Seq<(Seq<char>, Seq<char>)>
    decreases k,
{
    if k <= 0 {
        Seq::empty()
    } else {
        pairs_upto(doc, k - 1) + pair_at(doc, k - 1)
    }
}

/// The `(title, url)` pairs of one listing page.
pub open spec fn listing_pairs_spec(doc: Seq<NodeView>) -> Seq<(Seq<char>, Seq<char>)> {
    pairs_upto(doc, doc.len() as int)
}

/// Collects the `(title, url)` pairs of one listing page.
pub fn listing_pairs(html: &str) -> (r: Vec<(String, String)>)
    ensures
        r.deep_view() == listing_pairs_spec(crate::markup::doc_spec(html@)),
{
    let doc = crate::markup::parse_markup(html);
    let doc = &doc;
    let ghost dv = doc.deep_view();
    let n: usize = doc.len();
    let mut r: Vec<(String, String)> = Vec::new();
    let mut k: usize = 0;
    while k < n
        invariant
            k <= n,
            n == doc@.len(),
            dv == doc.deep_view(),
            dv.len() == n,
            r.deep_view() == pairs_upto(dv, k as int),
        decreases n - k,
    {
        proof {
            deep_index(doc, k as int);
        }
        let is_anchor = tag_is(&doc[k], "a");
        let mut keep: bool = false;
        if is_anchor {
            keep = under_listing_li_exec(doc, k);
        }
        if keep {
            match attr_lookup(&doc[k], "href") {
                Some(href) => {
                    let text = subtree_text_exec(doc, k);
                    let title = string_from_chars(text.as_slice());
                    let pair = (title, href);
                    let ghost prev = r.deep_view();
                    r.push(pair);
                    proof {
                        assert(forall|q: int|
                            0 <= q < prev.len() ==> #[trigger] r.deep_view()[q] == prev[q]);
                        assert(r.deep_view()[prev.len() as int] == (pair.0@, pair.1@));
                        assert(r.deep_view() =~= prev + pair_at(dv, k as int));
                    }
                },
                None => {
                    proof {
                        assert(r.deep_view() =~= r.deep_view() + pair_at(dv, k as int));
                    }
                },
            }
        } else {
            proof {
                assert(r.deep_view() =~= r.deep_view() + pair_at(dv, k as int));
            }
        }
        k = k + 1;
    }
    r
}

/// The crawled pairs among the first `j` whose title is not in `existing`.
pub open spec fn new_crawl_upto(
    pairs: Seq<(Seq<char>, Seq<char>)>,
    existing: Seq<Seq<char>>,
    j: int,
) -> Seq<(Seq<char>, Seq<char>)>
    decreases j,
{
    if j <= 0 {
        Seq::empty()
    } else {
        new_crawl_upto(pairs, existing, j - 1) + if existing.contains(pairs[j - 1].0) {
            Seq::empty()
        } else {
            seq![pairs[j - 1]]
        }
    }
}

/// The new items of a crawl: exactly the crawled pairs whose title is not
/// stored, in crawl order.
pub open spec fn new_crawl_spec(
    pairs: Seq<(Seq<char>, Seq<char>)>,
    existing: Seq<Seq<char>>,
) -> Seq<(Seq<char>, Seq<char>)> {
    new_crawl_upto(pairs, existing, pairs.len() as int)
}

/// Whether `v` stands in the list of stored titles.
fn titles_contain(existing: &Vec<String>, v: &str) -> (r: bool)
    ensures
        r == existing.deep_view().contains(v@),
{
    let mut i: usize = 0;
    while i < existing.len()
        invariant
            i <= existing@.len(),
            forall|k: int| 0 <= k < i ==> existing.deep_view()[k] != v@,
        decreases existing@.len() - i,
    {
        proof {
            assert(existing.deep_view()[i as int] == existing@[i as int]@);
        }
        if str_eq(existing[i].as_str(), v) {
            proof {
                assert(existing.deep_view()[i as int] == v@);
            }
            return true;
        }
        i = i + 1;
    }
    proof {
        assert(forall|k: int|
            0 <= k < existing.deep_view().len() ==> existing.deep_view()[k] != v@);
    }
    false
}

/// Filters the crawled pairs down to those whose title is not stored.
pub fn new_crawl_items(pairs: &Vec<(String, String)>, existing: &Vec<String>) -> (r: Vec<
    (String, String),
>)
    ensures
        r.deep_view() == new_crawl_spec(pairs.deep_view(), existing.deep_view()),
{
    let ghost pv = pairs.deep_view();
    let ghost ev = existing.deep_view();
    let mut r: Vec<(String, String)> = Vec::new();
    let mut j: usize = 0;
    while j < pairs.len()
        invariant
            j <= pairs@.len(),
            pv == pairs.deep_view(),
            ev == existing.deep_view(),
            pv.len() == pairs@.len(),
            r.deep_view() == new_crawl_upto(pv, ev, j as int),
        decreases pairs@.len() - j,
    {
        proof {
            assert(pairs.deep_view()[j as int] == (pairs@[j as int].0@, pairs@[j as int].1@));
        }
        if !titles_contain(existing, pairs[j].0.as_str()) {
            let title = pairs[j].0.clone();
            let url = pairs[j].1.clone();
            let pair = (title, url);
            let ghost prev = r.deep_view();
            r.push(pair);
            proof {
                assert(forall|q: int|
                    0 <= q < prev.len() ==> #[trigger] r.deep_view()[q] == prev[q]);
                assert(r.deep_view()[prev.len() as int] == pv[j as int]);
                assert(r.deep_view() =~= new_crawl_upto(pv, ev, j + 1));
            }
        } else {
            proof {
                assert(r.deep_view() =~= new_crawl_upto(pv, ev, j + 1));
            }
        }
        j = j + 1;
    }
    r
}

/// Law: a crawl against a store that already holds every crawled title
/// discovers nothing.
pub proof fn lemma_crawl_all_known(pairs: Seq<(Seq<char>, Seq<char>)>, existing: Seq<Seq<char>>)
    requires
        forall|k: int| 0 <= k < pairs.len() ==> existing.contains(#[trigger] pairs[k].0),
    ensures
        new_crawl_spec(pairs, existing) == Seq::<(Seq<char>, Seq<char>)>::empty(),
{
    lemma_crawl_all_known_upto(pairs, existing, pairs.len() as int);
}

proof fn lemma_crawl_all_known_upto(
    pairs: Seq<(Seq<char>, Seq<char>)>,
    existing: Seq<Seq<char>>,
    j: int,
)
    requires
        j <= pairs.len(),
        forall|k: int| 0 <= k < pairs.len() ==> existing.contains(#[trigger] pairs[k].0),
    ensures
        new_crawl_upto(pairs, existing, j) == Seq::<(Seq<char>, Seq<char>)>::empty(),
    decreases j,
{
    if j > 0 {
        lemma_crawl_all_known_upto(pairs, existing, j - 1);
        assert(new_crawl_upto(pairs, existing, j) =~= Seq::<(Seq<char>, Seq<char>)>::empty());
    }
}

/// Law: rerun idempotence at the discovery level. Once every title that the
/// first pass found new has been stored, and nothing stored was dropped, a
/// second pass over the same crawl discovers nothing.
pub proof fn lemma_rerun_discovers_nothing(
    pairs: Seq<(Seq<char>, Seq<char>)>,
    before: Seq<Seq<char>>,
    after: Seq<Seq<char>>,
)
    requires
        forall|k: int|
            0 <= k < pairs.len() && !before.contains(#[trigger] pairs[k].0) ==> after.contains(
                pairs[k].0,
            ),
        forall|t: Seq<char>| #[trigger] before.contains(t) ==> after.contains(t),
    ensures
        new_crawl_spec(pairs, after) == Seq::<(Seq<char>, Seq<char>)>::empty(),
{
    assert forall|k: int| 0 <= k < pairs.len() implies after.contains(#[trigger] pairs[k].0) by {
        if before.contains(pairs[k].0) {
            assert(after.contains(pairs[k].0));
        }
    }
    lemma_crawl_all_known(pairs, after);
}

} // verus!
