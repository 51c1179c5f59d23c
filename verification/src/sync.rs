//! The sync orchestrator: discover candidates, keep the new ones, extract,
//! record. Feed-mode sync runs wholly here over fetched feed bytes; the
//! full-crawl mode's per-page step lives here too, while the page fetching
//! around it stays outside the library.

use vstd::prelude::*;

use crate::catalog::{insert_spec, Catalog, CatalogError, CatalogView, StoredView};
use crate::extract::{get_release_from_html, get_release_from_item, item_release_spec,
    page_release_spec};
use crate::feed::{new_feed_items, new_feed_items_spec, read_feed, FeedItem, FeedItemView,
    feed_items};
use crate::release::{Extracted, ExtractedView, ExtractError, ReleaseView};

verus! {

/// Why a sync run fails as a whole.
#[derive(PartialEq, Eq, Structural, Debug)]
pub enum SyncError {
    /// The feed bytes could not be read as a feed: nothing can be discovered.
    FeedUnreadable,
}

/// The catalog `post` is the catalog `pre` with exactly the extraction result
/// `e` recorded: the identifier of the new row was free in `pre`, and the
/// rest of the state follows the writer's insertion semantics.
pub open spec fn ingested(pre: CatalogView, e: ExtractedView, post: CatalogView) -> bool {
    &&& post.releases.len() > 0
    &&& !pre.has_id(post.releases.last().id)
    &&& post == insert_spec(pre, e, post.releases.last().id)
}

/// Whether the feed item `item` extracts to a release equal to `r`.
pub open spec fn item_yields(item: FeedItemView, r: ReleaseView) -> bool {
    match item_release_spec(item) {
        Ok(e) => e.release == r,
        Err(_) => false,
    }
}

/// Whether some candidate in `cands` extracts to a release equal to `r`.
pub open spec fn some_item_yields(cands: Seq<FeedItemView>, r: ReleaseView) -> bool {
    exists|m: int| 0 <= m < cands.len() && item_yields(#[trigger] cands[m], r)
}

/// One sequence is an unchanged initial segment of another.
pub open spec fn seq_extends<T>(pre: Seq<T>, post: Seq<T>) -> bool {
    pre.len() <= post.len() && forall|k: int| 0 <= k < pre.len() ==> post[k] == pre[k]
}

/// What a feed-mode run leaves behind: the stored releases grow, in order, by
/// one row per reported title; each new row carries the reported title and a
/// release extracted from one of the candidates; and the tag dimensions and
/// join tables only grow.
pub open spec fn sync_effect(
    pre: CatalogView,
    post: CatalogView,
    titles: Seq<Seq<char>>,
    cands: Seq<FeedItemView>,
) -> bool {
    &&& post.releases.len() == pre.releases.len() + titles.len()
    &&& seq_extends(pre.releases, post.releases)
    &&& (forall|k: int|
        0 <= k < titles.len() ==> #[trigger] post.releases[pre.releases.len() + k].release.title
            == titles[k])
    &&& (forall|k: int|
        0 <= k < titles.len() ==> some_item_yields(
            cands,
            #[trigger] post.releases[pre.releases.len() + k].release,
        ))
    &&& seq_extends(pre.genres, post.genres)
    &&& seq_extends(pre.companies, post.companies)
    &&& seq_extends(pre.languages, post.languages)
    &&& seq_extends(pre.release_genre, post.release_genre)
    &&& seq_extends(pre.release_company, post.release_company)
    &&& seq_extends(pre.release_language, post.release_language)
}

/// Inserting one release only extends every table.
pub proof fn lemma_insert_extends(pre: CatalogView, e: ExtractedView, id: Seq<char>)
    ensures
        seq_extends(pre.releases, insert_spec(pre, e, id).releases),
        seq_extends(pre.genres, insert_spec(pre, e, id).genres),
        seq_extends(pre.companies, insert_spec(pre, e, id).companies),
        seq_extends(pre.languages, insert_spec(pre, e, id).languages),
        seq_extends(pre.release_genre, insert_spec(pre, e, id).release_genre),
        seq_extends(pre.release_company, insert_spec(pre, e, id).release_company),
        seq_extends(pre.release_language, insert_spec(pre, e, id).release_language),
{
    crate::catalog::lemma_tags_after_extends(pre.genres, e.genres, e.genres.len() as int);
    crate::catalog::lemma_tags_after_extends(pre.companies, e.companies, e.companies.len() as int);
    crate::catalog::lemma_tags_after_extends(pre.languages, e.languages, e.languages.len() as int);
    crate::catalog::lemma_pairs_after_extends(
        pre.release_genre,
        id,
        e.genres,
        e.genres.len() as int,
    );
    crate::catalog::lemma_pairs_after_extends(
        pre.release_company,
        id,
        e.companies,
        e.companies.len() as int,
    );
    crate::catalog::lemma_pairs_after_extends(
        pre.release_language,
        id,
        e.languages,
        e.languages.len() as int,
    );
}

/// Records one extraction outcome in the catalog under a freshly drawn
/// identifier; an identifier collision skips the release.
fn ingest_extracted(catalog: &mut Catalog, e: Extracted) -> (r: Option<String>)
    ensures
        match r {
            Some(title) => title@ == e@.release.title && ingested(
                old(catalog)@,
                e@,
                final(catalog)@,
            ),
            None => final(catalog)@ == old(catalog)@,
        },
        old(catalog)@.wf() ==> final(catalog)@.wf(),
{
    let id = crate::catalog::fresh_release_id();
    let ghost idv = id@;
    let ghost ev = e@;
    let title = e.release.title.clone();
    match catalog.insert_release(e, id) {
        Ok(()) => {
            proof {
                assert(catalog@ == insert_spec(old(catalog)@, ev, idv));
                assert(catalog@.releases.last() == StoredView { id: idv, release: ev.release });
            }
            Some(title)
        },
        Err(CatalogError::DuplicateId) => None,
    }
}

/// What one candidate does to the catalog, given the identifier drawn for
/// it: a candidate that does not extract changes nothing; one that extracts
/// is recorded under the drawn identifier, unless that identifier is taken.
pub open spec fn feed_step(c: CatalogView, item: FeedItemView, id: Seq<char>) -> CatalogView {
    match item_release_spec(item) {
        Err(_) => c,
        Ok(e) => if c.has_id(id) {
            c
        } else {
            insert_spec(c, e, id)
        },
    }
}

/// What one candidate reports, given the catalog it meets and the identifier
/// drawn for it: the extracted title exactly when the release is recorded.
pub open spec fn feed_step_titles(c: CatalogView, item: FeedItemView, id: Seq<char>) -> Seq<
    Seq<char>,
> {
    match item_release_spec(item) {
        Err(_) => Seq::empty(),
        Ok(e) => if c.has_id(id) {
            Seq::empty()
        } else {
            seq![e.release.title]
        },
    }
}

/// The catalog after the first `j` candidates ran, in order, with the given
/// drawn identifiers.
pub open spec fn feed_run(
    pre: CatalogView,
    cands: Seq<FeedItemView>,
    ids: Seq<Seq<char>>,
    j: int,
) -> CatalogView
    decreases j,
{
    if j <= 0 {
        pre
    } else {
        feed_step(feed_run(pre, cands, ids, j - 1), cands[j - 1], ids[j - 1])
    }
}

/// The titles the first `j` candidates report, in order, with the given
/// drawn identifiers.
pub open spec fn feed_run_titles(
    pre: CatalogView,
    cands: Seq<FeedItemView>,
    ids: Seq<Seq<char>>,
    j: int,
) -> Seq<Seq<char>>
    decreases j,
{
    if j <= 0 {
        Seq::empty()
    } else {
        feed_run_titles(pre, cands, ids, j - 1) + feed_step_titles(
            feed_run(pre, cands, ids, j - 1),
            cands[j - 1],
            ids[j - 1],
        )
    }
}

/// A run over the first `j` candidates reads only the first `j` drawn
/// identifiers.
proof fn lemma_feed_run_prefix(
    pre: CatalogView,
    cands: Seq<FeedItemView>,
    ids1: Seq<Seq<char>>,
    ids2: Seq<Seq<char>>,
    j: int,
)
    requires
        forall|k: int| 0 <= k < j ==> ids1[k] == ids2[k],
    ensures
        feed_run(pre, cands, ids1, j) == feed_run(pre, cands, ids2, j),
        feed_run_titles(pre, cands, ids1, j) == feed_run_titles(pre, cands, ids2, j),
    decreases j,
{
    if j > 0 {
        lemma_feed_run_prefix(pre, cands, ids1, ids2, j - 1);
    }
}

/// Feed-mode sync over already-fetched feed bytes: reads the feed, walks the
/// new prefix against the stored latest title, extracts each new item in
/// order and records what extraction yields under a freshly drawn
/// identifier. A candidate whose markup lacks the required fields, or whose
/// drawn identifier is taken, is skipped; the run fails exactly when the
/// bytes read as no feed, and then changes nothing. Returns the recorded
/// titles in feed order: the whole run is the candidate fold `feed_run`,
/// with only the drawn identifiers left open.
pub fn sync_fitgirl_rss(feed_data: &Vec<u8>, last_title: &str, catalog: &mut Catalog) -> (r:
    Result<Vec<String>, SyncError>)
    ensures
        r is Err <==> !crate::feed::feed_parses(feed_data@),
        match r {
            Ok(titles) => {
                &&& sync_effect(
                    old(catalog)@,
                    final(catalog)@,
                    titles.deep_view(),
                    new_feed_items_spec(feed_items(feed_data@), last_title@),
                )
                &&& exists|ids: Seq<Seq<char>>|
                    {
                        &&& ids.len() == new_feed_items_spec(
                            feed_items(feed_data@),
                            last_title@,
                        ).len()
                        &&& #[trigger] feed_run(
                            old(catalog)@,
                            new_feed_items_spec(feed_items(feed_data@), last_title@),
                            ids,
                            new_feed_items_spec(feed_items(feed_data@), last_title@).len() as int,
                        ) == final(catalog)@
                        &&& feed_run_titles(
                            old(catalog)@,
                            new_feed_items_spec(feed_items(feed_data@), last_title@),
                            ids,
                            new_feed_items_spec(feed_items(feed_data@), last_title@).len() as int,
                        ) == titles.deep_view()
                    }
            },
            Err(SyncError::FeedUnreadable) => final(catalog)@ == old(catalog)@,
        },
        old(catalog)@.wf() ==> final(catalog)@.wf(),
{
    let items = match read_feed(feed_data) {
        Some(items) => items,
        None => {
            return Err(SyncError::FeedUnreadable);
        },
    };
    let cands = new_feed_items(&items, last_title);
    let ghost cv = cands.deep_view();
    let mut titles: Vec<String> = Vec::new();
    let ghost pre = catalog@;
    let ghost mut drawn: Seq<Seq<char>> = Seq::empty();
    let mut j: usize = 0;
    while j < cands.len()
        invariant
            j <= cands@.len(),
            cv == cands.deep_view(),
            cv.len() == cands@.len(),
            drawn.len() == j,
            catalog@ == feed_run(pre, cv, drawn, j as int),
            titles.deep_view() == feed_run_titles(pre, cv, drawn, j as int),
            sync_effect(pre, catalog@, titles.deep_view(), cv),
            pre.wf() ==> catalog@.wf(),
        decreases cands@.len() - j,
    {
        let ghost mid = catalog@;
        let ghost added_before = titles.deep_view();
        proof {
            assert(cands.deep_view()[j as int] == cands@[j as int]@);
        }
        match get_release_from_item(&cands[j]) {
            Ok(e) => {
                let ghost ev = e@;
                let id = crate::catalog::fresh_release_id();
                let ghost idv = id@;
                let title = e.release.title.clone();
                match catalog.insert_release(e, id) {
                    Ok(()) => {
                        let ghost prev = titles.deep_view();
                        titles.push(title);
                        proof {
                            let drawn0 = drawn;
                            drawn = drawn0.push(idv);
                            assert(forall|k: int| 0 <= k < j ==> drawn[k] == drawn0[k]);
                            lemma_feed_run_prefix(pre, cv, drawn, drawn0, j as int);
                            lemma_insert_extends(mid, ev, idv);
                            assert(forall|q: int|
                                0 <= q < prev.len() ==> #[trigger] titles.deep_view()[q]
                                    == prev[q]);
                            assert(titles.deep_view().len() == prev.len() + 1);
                            assert(titles.deep_view()[prev.len() as int] == title@);
                            assert(catalog@ == feed_step(mid, cv[j as int], idv));
                            assert(catalog@ == feed_run(pre, cv, drawn, j + 1));
                            assert(titles.deep_view() =~~= prev + feed_step_titles(
                                mid,
                                cv[j as int],
                                idv,
                            ));
                            assert(catalog@.releases[pre.releases.len() + prev.len() as int].release
                                == ev.release);
                            assert(item_yields(cv[j as int], ev.release));
                            assert(some_item_yields(cv, ev.release));
                            assert(sync_effect(pre, catalog@, titles.deep_view(), cv));
                        }
                    },
                    Err(CatalogError::DuplicateId) => {
                        proof {
                            let drawn0 = drawn;
                            drawn = drawn0.push(idv);
                            assert(forall|k: int| 0 <= k < j ==> drawn[k] == drawn0[k]);
                            lemma_feed_run_prefix(pre, cv, drawn, drawn0, j as int);
                            assert(catalog@ == feed_step(mid, cv[j as int], idv));
                            assert(catalog@ == feed_run(pre, cv, drawn, j + 1));
                            assert(titles.deep_view() =~~= added_before + feed_step_titles(
                                mid,
                                cv[j as int],
                                idv,
                            ));
                        }
                    },
                }
            },
            Err(_) => {
                proof {
                    let drawn0 = drawn;
                    drawn = drawn0.push(Seq::empty());
                    assert(forall|k: int| 0 <= k < j ==> drawn[k] == drawn0[k]);
                    lemma_feed_run_prefix(pre, cv, drawn, drawn0, j as int);
                    assert(catalog@ == feed_step(mid, cv[j as int], drawn.last()));
                    assert(catalog@ == feed_run(pre, cv, drawn, j + 1));
                    assert(titles.deep_view() =~~= added_before + feed_step_titles(
                        mid,
                        cv[j as int],
                        drawn.last(),
                    ));
                }
            },
        }
        j = j + 1;
    }
    proof {
        assert(feed_run(pre, cv, drawn, cv.len() as int) == catalog@);
        assert(feed_run_titles(pre, cv, drawn, cv.len() as int) == titles.deep_view());
        assert(exists|ids: Seq<Seq<char>>|
            {
                &&& ids.len() == cv.len()
                &&& #[trigger] feed_run(pre, cv, ids, cv.len() as int) == catalog@
                &&& feed_run_titles(pre, cv, ids, cv.len() as int) == titles.deep_view()
            });
    }
    Ok(titles)
}

/// Recording a release appends exactly its title to the stored titles.
pub proof fn lemma_ingested_titles(pre: CatalogView, e: ExtractedView, post: CatalogView)
    requires
        ingested(pre, e, post),
    ensures
        crate::catalog::titles_list(post) == crate::catalog::titles_list(pre).push(
            e.release.title,
        ),
{
    let id = post.releases.last().id;
    assert(post.releases == pre.releases.push(StoredView { id, release: e.release }));
    assert(crate::catalog::titles_list(post) =~= crate::catalog::titles_list(pre).push(
        e.release.title,
    ));
}

/// Law: rerun idempotence of a full-crawl sync, end to end. A crawl whose
/// only unstored title belongs to the release just recorded discovers
/// nothing when run again against the grown catalog.
pub proof fn lemma_rerun_after_ingest(
    pairs: Seq<(Seq<char>, Seq<char>)>,
    pre: CatalogView,
    e: ExtractedView,
    post: CatalogView,
)
    requires
        ingested(pre, e, post),
        forall|k: int|
            0 <= k < pairs.len() && pairs[k].0 != e.release.title
                ==> crate::catalog::titles_list(pre).contains(#[trigger] pairs[k].0),
    ensures
        crate::crawl::new_crawl_spec(pairs, crate::catalog::titles_list(post)) == Seq::<
            (Seq<char>, Seq<char>),
        >::empty(),
{
    let before = crate::catalog::titles_list(pre);
    let after = crate::catalog::titles_list(post);
    lemma_ingested_titles(pre, e, post);
    assert(after.last() == e.release.title);
    assert(after.contains(e.release.title));
    assert(forall|k: int| 0 <= k < before.len() ==> after[k] == before[k]);
    assert forall|t: Seq<char>| #[trigger] before.contains(t) implies after.contains(t) by {
        let i = choose|i: int| 0 <= i < before.len() && before[i] == t;
        assert(after[i] == t);
    }
    crate::crawl::lemma_rerun_discovers_nothing(pairs, before, after);
}


/// Why one crawled page yields no recorded release.
#[derive(PartialEq, Eq, Structural, Debug)]
pub enum IngestError {
    /// Extraction found no release in the page.
    Extract(ExtractError),
    /// The identifier drawn for the release was taken; nothing was written.
    IdTaken,
}

/// Full-crawl mode, one page: extracts a release from a fetched article page
/// and records it under a freshly drawn identifier. Returns the recorded
/// title; a page whose markup lacks the required fields is refused with the
/// extraction error and the catalog left unchanged.
pub fn ingest_release_page(catalog: &mut Catalog, html: &str) -> (r: Result<String, IngestError>)
    ensures
        match r {
            Ok(title) => {
                &&& page_release_spec(crate::markup::doc_spec(html@)) matches Ok(e)
                    && title@ == e.release.title && ingested(old(catalog)@, e, final(catalog)@)
            },
            Err(IngestError::Extract(err)) => page_release_spec(crate::markup::doc_spec(html@))
                == Err::<ExtractedView, ExtractError>(err) && final(catalog)@ == old(catalog)@,
            Err(IngestError::IdTaken) => final(catalog)@ == old(catalog)@,
        },
        old(catalog)@.wf() ==> final(catalog)@.wf(),
{
    match get_release_from_html(html) {
        Ok(e) => {
            match ingest_extracted(catalog, e) {
                Some(title) => Ok(title),
                None => Err(IngestError::IdTaken),
            }
        },
        Err(err) => Err(IngestError::Extract(err)),
    }
}

} // verus!
