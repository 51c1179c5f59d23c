//! The catalog: the local store of releases, the three shared tag dimensions
//! (genres, companies, languages), and the join rows that tie them together.
//! The writer records one release with its tag associations as one unit;
//! tag rows are created only where absent, so a tag value exists once however
//! many releases carry it.

use vstd::prelude::*;

use crate::release::{Extracted, ExtractedView, Release, ReleaseView};
use crate::strutil::str_eq;

verus! {

/// One stored release row: the identifier the catalog assigned, and the
/// release it carries.
pub struct StoredRelease {
    pub id: String,
    pub release: Release,
}

/// The mathematical value of a stored release row.
pub struct StoredView {
    pub id: Seq<char>,
    pub release: ReleaseView,
}

impl View for StoredRelease {
    type V = StoredView;

    open spec fn view(&self) -> StoredView {
        StoredView { id: self.id@, release: self.release@ }
    }
}

impl DeepView for StoredRelease {
    type V = StoredView;

    open spec fn deep_view(&self) -> StoredView {
        self.view()
    }
}

/// The catalog tables.
pub struct Catalog {
    pub releases: Vec<StoredRelease>,
    pub genres: Vec<String>,
    pub companies: Vec<String>,
    pub languages: Vec<String>,
    pub release_genre: Vec<(String, String)>,
    pub release_company: Vec<(String, String)>,
    pub release_language: Vec<(String, String)>,
}

/// The mathematical value of the catalog.
pub struct CatalogView {
    pub releases: Seq<StoredView>,
    pub genres: Seq<Seq<char>>,
    pub companies: Seq<Seq<char>>,
    pub languages: Seq<Seq<char>>,
    pub release_genre: Seq<(Seq<char>, Seq<char>)>,
    pub release_company: Seq<(Seq<char>, Seq<char>)>,
    pub release_language: Seq<(Seq<char>, Seq<char>)>,
}

impl View for Catalog {
    type V = CatalogView;

    open spec fn view(&self) -> CatalogView {
        CatalogView {
            releases: self.releases.deep_view(),
            genres: self.genres.deep_view(),
            companies: self.companies.deep_view(),
            languages: self.languages.deep_view(),
            release_genre: self.release_genre.deep_view(),
            release_company: self.release_company.deep_view(),
            release_language: self.release_language.deep_view(),
        }
    }
}

impl CatalogView {
    /// Whether some stored release carries this identifier.
    pub open spec fn has_id(self, id: Seq<char>) -> bool {
        exists|k: int| 0 <= k < self.releases.len() && self.releases[k].id == id
    }

    /// Whether some stored release carries this title.
    pub open spec fn has_title(self, title: Seq<char>) -> bool {
        exists|k: int| 0 <= k < self.releases.len() && self.releases[k].release.title == title
    }

    /// Well-formedness: every dimension value stands once, every join row
    /// stands once, every join row names a stored release, and identifiers
    /// are unique.
    pub open spec fn wf(self) -> bool {
        &&& no_dup(self.genres)
        &&& no_dup(self.companies)
        &&& no_dup(self.languages)
        &&& no_dup_pairs(self.release_genre)
        &&& no_dup_pairs(self.release_company)
        &&& no_dup_pairs(self.release_language)
        &&& (forall|k: int|
            0 <= k < self.release_genre.len() ==> self.has_id(#[trigger] self.release_genre[k].0))
        &&& (forall|k: int|
            0 <= k < self.release_company.len() ==> self.has_id(
                #[trigger] self.release_company[k].0,
            ))
        &&& (forall|k: int|
            0 <= k < self.release_language.len() ==> self.has_id(
                #[trigger] self.release_language[k].0,
            ))
        &&& (forall|i: int, j: int|
            0 <= i < j < self.releases.len() ==> self.releases[i].id != self.releases[j].id)
    }
}

/// No value stands twice.
pub open spec fn no_dup(s: Seq<Seq<char>>) -> bool {
    forall|i: int, j: int| 0 <= i < j < s.len() ==> s[i] != s[j]
}

/// No pair stands twice.
pub open spec fn no_dup_pairs(s: Seq<(Seq<char>, Seq<char>)>) -> bool {
    forall|i: int, j: int| 0 <= i < j < s.len() ==> s[i] != s[j]
}

/// How often `v` stands in `s`.
pub open spec fn count_eq(s: Seq<Seq<char>>, v: Seq<char>) -> nat
    decreases s.len(),
{
    if s.len() == 0 {
        0
    } else {
        count_eq(s.drop_last(), v) + if s.last() == v {
            1nat
        } else {
            0nat
        }
    }
}

/// How often a pair with the value `v` stands in `s`.
pub open spec fn count_pairs(s: Seq<(Seq<char>, Seq<char>)>, v: Seq<char>) -> nat
    decreases s.len(),
{
    if s.len() == 0 {
        0
    } else {
        count_pairs(s.drop_last(), v) + if s.last().1 == v {
            1nat
        } else {
            0nat
        }
    }
}

/// A dimension table once the value `v` is ensured: unchanged where present,
/// appended where absent.
pub open spec fn ensure_tag_spec(table: Seq<Seq<char>>, v: Seq<char>) -> Seq<Seq<char>> {
    if table.contains(v) {
        table
    } else {
        table.push(v)
    }
}

/// A dimension table once the first `j` of the given values are ensured.
pub open spec fn tags_after(table: Seq<Seq<char>>, tags: Seq<Seq<char>>, j: int) -> Seq<Seq<char>>
    decreases j,
{
    if j <= 0 {
        table
    } else {
        ensure_tag_spec(tags_after(table, tags, j - 1), tags[j - 1])
    }
}

/// A join table once the row `(id, v)` is ensured.
pub open spec fn ensure_pair_spec(
    pairs: Seq<(Seq<char>, Seq<char>)>,
    id: Seq<char>,
    v: Seq<char>,
) -> Seq<(Seq<char>, Seq<char>)> {
    if pairs.contains((id, v)) {
        pairs
    } else {
        pairs.push((id, v))
    }
}

/// A join table once rows for the first `j` of the given values are ensured.
pub open spec fn pairs_after(
    pairs: Seq<(Seq<char>, Seq<char>)>,
    id: Seq<char>,
    tags: Seq<Seq<char>>,
    j: int,
) -> Seq<(Seq<char>, Seq<char>)>
    decreases j,
{
    if j <= 0 {
        pairs
    } else {
        ensure_pair_spec(pairs_after(pairs, id, tags, j - 1), id, tags[j - 1])
    }
}

/// Ensuring values in a dimension table only appends to it.
pub proof fn lemma_tags_after_extends(table: Seq<Seq<char>>, tags: Seq<Seq<char>>, j: int)
    ensures
        table.len() <= tags_after(table, tags, j).len(),
        forall|k: int| 0 <= k < table.len() ==> tags_after(table, tags, j)[k] == table[k],
    decreases j,
{
    if j > 0 {
        lemma_tags_after_extends(table, tags, j - 1);
    }
}

/// Ensuring join rows only appends to the join table.
pub proof fn lemma_pairs_after_extends(
    pairs: Seq<(Seq<char>, Seq<char>)>,
    id: Seq<char>,
    tags: Seq<Seq<char>>,
    j: int,
)
    ensures
        pairs.len() <= pairs_after(pairs, id, tags, j).len(),
        forall|k: int| 0 <= k < pairs.len() ==> pairs_after(pairs, id, tags, j)[k] == pairs[k],
    decreases j,
{
    if j > 0 {
        lemma_pairs_after_extends(pairs, id, tags, j - 1);
    }
}

/// The catalog once one extracted release is recorded under `id`: the release
/// row is appended, each tag value is ensured in its dimension, and each
/// `(id, tag)` join row is ensured.
pub open spec fn insert_spec(c: CatalogView, e: ExtractedView, id: Seq<char>) -> CatalogView {
    CatalogView {
        releases: c.releases.push(StoredView { id, release: e.release }),
        genres: tags_after(c.genres, e.genres, e.genres.len() as int),
        companies: tags_after(c.companies, e.companies, e.companies.len() as int),
        languages: tags_after(c.languages, e.languages, e.languages.len() as int),
        release_genre: pairs_after(c.release_genre, id, e.genres, e.genres.len() as int),
        release_company: pairs_after(c.release_company, id, e.companies, e.companies.len() as int),
        release_language: pairs_after(
            c.release_language,
            id,
            e.languages,
            e.languages.len() as int,
        ),
    }
}

/// The stored titles, in storage order.
pub open spec fn titles_list(c: CatalogView) -> Seq<Seq<char>> {
    c.releases.map_values(|r: StoredView| r.release.title)
}

/// A value absent from a table stands in it zero times.
proof fn lemma_count_eq_absent(s: Seq<Seq<char>>, v: Seq<char>)
    requires
        !s.contains(v),
    ensures
        count_eq(s, v) == 0,
    decreases s.len(),
{
    if s.len() > 0 {
        assert(s.last() != v);
        assert(!s.drop_last().contains(v)) by {
            if s.drop_last().contains(v) {
                let i = choose|i: int| 0 <= i < s.drop_last().len() && s.drop_last()[i] == v;
                assert(s[i] == v);
            }
        }
        lemma_count_eq_absent(s.drop_last(), v);
    }
}

/// A value present in a duplicate-free table stands in it exactly once.
proof fn lemma_count_eq_unique(s: Seq<Seq<char>>, v: Seq<char>)
    requires
        no_dup(s),
        s.contains(v),
    ensures
        count_eq(s, v) == 1,
    decreases s.len(),
{
    if s.last() == v {
        assert(!s.drop_last().contains(v)) by {
            if s.drop_last().contains(v) {
                let i = choose|i: int| 0 <= i < s.drop_last().len() && s.drop_last()[i] == v;
                assert(s[i] == s[s.len() - 1]);
            }
        }
        lemma_count_eq_absent(s.drop_last(), v);
    } else {
        let i = choose|i: int| 0 <= i < s.len() && s[i] == v;
        assert(s.drop_last()[i] == v);
        assert(s.drop_last().contains(v));
        lemma_count_eq_unique(s.drop_last(), v);
    }
}

/// Ensuring a value keeps a dimension table duplicate-free, leaves the value
/// standing exactly once, and keeps every other value's count.
proof fn lemma_ensure_tag(table: Seq<Seq<char>>, v: Seq<char>)
    requires
        no_dup(table),
    ensures
        no_dup(ensure_tag_spec(table, v)),
        ensure_tag_spec(table, v).contains(v),
        count_eq(ensure_tag_spec(table, v), v) == 1,
{
    if table.contains(v) {
        lemma_count_eq_unique(table, v);
    } else {
        let grown = table.push(v);
        assert(grown.last() == v);
        assert(grown.contains(v));
        assert(no_dup(grown)) by {
            assert(forall|i: int| 0 <= i < table.len() ==> grown[i] == table[i]);
        }
        assert(grown.drop_last() =~= table);
        lemma_count_eq_absent(table, v);
        assert(count_eq(grown, v) == 1);
    }
}

/// A join row absent from the table under a well-formed catalog: a row naming
/// an identifier no release carries cannot stand in the join table.
proof fn lemma_fresh_pair_absent(c: CatalogView, id: Seq<char>, v: Seq<char>)
    requires
        c.wf(),
        !c.has_id(id),
    ensures
        !c.release_genre.contains((id, v)),
{
    if c.release_genre.contains((id, v)) {
        let k = choose|k: int|
            0 <= k < c.release_genre.len() && c.release_genre[k] == (id, v);
        assert(c.has_id(c.release_genre[k].0));
    }
}

/// Ensuring values keeps a dimension table duplicate-free.
proof fn lemma_tags_after_no_dup(table: Seq<Seq<char>>, tags: Seq<Seq<char>>, j: int)
    requires
        no_dup(table),
    ensures
        no_dup(tags_after(table, tags, j)),
    decreases j,
{
    if j > 0 {
        lemma_tags_after_no_dup(table, tags, j - 1);
        let prev = tags_after(table, tags, j - 1);
        let v = tags[j - 1];
        if !prev.contains(v) {
            assert(forall|k: int| 0 <= k < prev.len() ==> prev.push(v)[k] == prev[k]);
        }
    }
}

/// Ensuring join rows keeps the join table duplicate-free, and every row it
/// adds carries the given identifier.
proof fn lemma_pairs_after_wf(
    pairs: Seq<(Seq<char>, Seq<char>)>,
    id: Seq<char>,
    tags: Seq<Seq<char>>,
    j: int,
)
    requires
        no_dup_pairs(pairs),
    ensures
        no_dup_pairs(pairs_after(pairs, id, tags, j)),
        forall|k: int|
            0 <= k < pairs_after(pairs, id, tags, j).len() ==> pairs.contains(
                #[trigger] pairs_after(pairs, id, tags, j)[k],
            ) || pairs_after(pairs, id, tags, j)[k].0 == id,
    decreases j,
{
    if j <= 0 {
        assert(forall|k: int|
            0 <= k < pairs.len() ==> pairs.contains(#[trigger] pairs[k]));
    } else {
        lemma_pairs_after_wf(pairs, id, tags, j - 1);
        let prev = pairs_after(pairs, id, tags, j - 1);
        let row = (id, tags[j - 1]);
        if !prev.contains(row) {
            assert(forall|k: int| 0 <= k < prev.len() ==> prev.push(row)[k] == prev[k]);
            assert(prev.push(row).last() == row);
        }
    }
}

/// Law: recording a release under a fresh identifier preserves the catalog's
/// well-formedness — tag values stay unique, join rows stay unique and keep
/// naming stored releases, identifiers stay unique.
pub proof fn lemma_insert_wf(c: CatalogView, e: ExtractedView, id: Seq<char>)
    requires
        c.wf(),
        !c.has_id(id),
    ensures
        insert_spec(c, e, id).wf(),
{
    let post = insert_spec(c, e, id);
    lemma_tags_after_no_dup(c.genres, e.genres, e.genres.len() as int);
    lemma_tags_after_no_dup(c.companies, e.companies, e.companies.len() as int);
    lemma_tags_after_no_dup(c.languages, e.languages, e.languages.len() as int);
    lemma_pairs_after_wf(c.release_genre, id, e.genres, e.genres.len() as int);
    lemma_pairs_after_wf(c.release_company, id, e.companies, e.companies.len() as int);
    lemma_pairs_after_wf(c.release_language, id, e.languages, e.languages.len() as int);
    assert(post.releases.last().id == id);
    assert(post.has_id(id));
    assert forall|x: Seq<char>| c.has_id(x) implies post.has_id(x) by {
        let k = choose|k: int| 0 <= k < c.releases.len() && c.releases[k].id == x;
        assert(post.releases[k].id == x);
    }
    assert forall|k: int| 0 <= k < post.release_genre.len() implies post.has_id(
        #[trigger] post.release_genre[k].0,
    ) by {
        if c.release_genre.contains(post.release_genre[k]) {
            let m = choose|m: int|
                0 <= m < c.release_genre.len() && c.release_genre[m] == post.release_genre[k];
            assert(c.has_id(c.release_genre[m].0));
        }
    }
    assert forall|k: int| 0 <= k < post.release_company.len() implies post.has_id(
        #[trigger] post.release_company[k].0,
    ) by {
        if c.release_company.contains(post.release_company[k]) {
            let m = choose|m: int|
                0 <= m < c.release_company.len() && c.release_company[m] == post.release_company[k];
            assert(c.has_id(c.release_company[m].0));
        }
    }
    assert forall|k: int| 0 <= k < post.release_language.len() implies post.has_id(
        #[trigger] post.release_language[k].0,
    ) by {
        if c.release_language.contains(post.release_language[k]) {
            let m = choose|m: int|
                0 <= m < c.release_language.len() && c.release_language[m]
                    == post.release_language[k];
            assert(c.has_id(c.release_language[m].0));
        }
    }
    assert(forall|k: int| 0 <= k < c.releases.len() ==> post.releases[k] == c.releases[k]);
}

/// A value among the ensured ones stands in the grown dimension table.
proof fn lemma_tags_after_contains(table: Seq<Seq<char>>, tags: Seq<Seq<char>>, j: int, m: int)
    requires
        0 <= m < j <= tags.len(),
    ensures
        tags_after(table, tags, j).contains(tags[m]),
    decreases j,
{
    if m == j - 1 {
        let prev = tags_after(table, tags, j - 1);
        if !prev.contains(tags[m]) {
            assert(prev.push(tags[m]).last() == tags[m]);
        }
    } else {
        lemma_tags_after_contains(table, tags, j - 1, m);
        let prev = tags_after(table, tags, j - 1);
        let k = choose|k: int| 0 <= k < prev.len() && prev[k] == tags[m];
        if !prev.contains(tags[j - 1]) {
            assert(prev.push(tags[j - 1])[k] == tags[m]);
        }
    }
}

/// What ensuring join rows for a tag list does to the rows valued `g`: the
/// row `(id, g)` comes to stand exactly when `g` is among the tags or was
/// there before, and the count of rows valued `g` rises by one exactly when
/// the row `(id, g)` is new and `g` is among the tags.
proof fn lemma_pairs_after_value(
    pairs: Seq<(Seq<char>, Seq<char>)>,
    id: Seq<char>,
    tags: Seq<Seq<char>>,
    j: int,
    g: Seq<char>,
)
    requires
        j <= tags.len(),
    ensures
        pairs_after(pairs, id, tags, j).contains((id, g)) <==> pairs.contains((id, g)) || (
        exists|k: int| 0 <= k < j && tags[k] == g),
        count_pairs(pairs_after(pairs, id, tags, j), g) == count_pairs(pairs, g) + if !pairs
            .contains((id, g)) && (exists|k: int| 0 <= k < j && tags[k] == g) {
            1nat
        } else {
            0nat
        },
    decreases j,
{
    if j > 0 {
        lemma_pairs_after_value(pairs, id, tags, j - 1, g);
        let prev = pairs_after(pairs, id, tags, j - 1);
        let row = (id, tags[j - 1]);
        if tags[j - 1] == g {
            assert(exists|k: int| 0 <= k < j && tags[k] == g);
            if !prev.contains(row) {
                let grown = prev.push(row);
                assert(grown.drop_last() =~= prev);
                assert(grown.last() == row);
                assert(grown.contains((id, g)));
                assert(count_pairs(grown, g) == count_pairs(prev, g) + 1);
                assert(!(exists|k: int| 0 <= k < j - 1 && tags[k] == g) && !pairs.contains(
                    (id, g),
                ));
            }
        } else {
            assert(row != (id, g));
            if !prev.contains(row) {
                let grown = prev.push(row);
                assert(grown.drop_last() =~= prev);
                assert(count_pairs(grown, g) == count_pairs(prev, g));
                assert(grown.contains((id, g)) <==> prev.contains((id, g))) by {
                    if grown.contains((id, g)) {
                        let k = choose|k: int| 0 <= k < grown.len() && grown[k] == (id, g);
                        assert(k < grown.len() - 1);
                        assert(prev[k] == (id, g));
                    }
                    if prev.contains((id, g)) {
                        let k = choose|k: int| 0 <= k < prev.len() && prev[k] == (id, g);
                        assert(grown[k] == (id, g));
                    }
                }
            }
            assert((exists|k: int| 0 <= k < j && tags[k] == g) <==> (exists|k: int|
                0 <= k < j - 1 && tags[k] == g)) by {
                if exists|k: int| 0 <= k < j && tags[k] == g {
                    let k = choose|k: int| 0 <= k < j && tags[k] == g;
                    assert(k != j - 1);
                }
            }
        }
    }
}

/// Law: recording the same genre value for two different releases, each with
/// it anywhere in its genre list, leaves exactly one row for it in the genre
/// dimension, and one join row per release — the dimension row is shared,
/// the associations are not.
pub proof fn lemma_tag_creation_idempotent(
    c0: CatalogView,
    e1: ExtractedView,
    e2: ExtractedView,
    id1: Seq<char>,
    id2: Seq<char>,
    g: Seq<char>,
)
    requires
        c0.wf(),
        e1.genres.contains(g),
        e2.genres.contains(g),
        !c0.has_id(id1),
        !c0.has_id(id2),
        id1 != id2,
    ensures
        count_eq(insert_spec(insert_spec(c0, e1, id1), e2, id2).genres, g) == 1,
        insert_spec(insert_spec(c0, e1, id1), e2, id2).release_genre.contains((id1, g)),
        insert_spec(insert_spec(c0, e1, id1), e2, id2).release_genre.contains((id2, g)),
        count_pairs(insert_spec(insert_spec(c0, e1, id1), e2, id2).release_genre, g) == count_pairs(
            c0.release_genre,
            g,
        ) + 2,
{
    let c1 = insert_spec(c0, e1, id1);
    let c2 = insert_spec(c1, e2, id2);
    let n1 = e1.genres.len() as int;
    let n2 = e2.genres.len() as int;

    // One dimension row: both folds keep the table duplicate-free and leave
    // the value standing, so it counts exactly once.
    lemma_tags_after_no_dup(c0.genres, e1.genres, n1);
    lemma_tags_after_no_dup(c1.genres, e2.genres, n2);
    let m2 = choose|k: int| 0 <= k < e2.genres.len() && e2.genres[k] == g;
    lemma_tags_after_contains(c1.genres, e2.genres, n2, m2);
    lemma_count_eq_unique(c2.genres, g);

    // First insert: the row (id1, g) is new, so the count rises by one.
    lemma_fresh_pair_absent(c0, id1, g);
    lemma_pairs_after_value(c0.release_genre, id1, e1.genres, n1, g);
    assert(exists|k: int| 0 <= k < n1 && e1.genres[k] == g) by {
        let m1 = choose|k: int| 0 <= k < e1.genres.len() && e1.genres[k] == g;
        assert(e1.genres[m1] == g);
    }
    assert(c1.release_genre.contains((id1, g)));
    assert(count_pairs(c1.release_genre, g) == count_pairs(c0.release_genre, g) + 1);

    // Second insert: (id2, g) is new too — a row of c1 either was in c0,
    // where id2 is fresh, or carries id1, which differs from id2.
    assert(!c1.release_genre.contains((id2, g))) by {
        if c1.release_genre.contains((id2, g)) {
            let k = choose|k: int|
                0 <= k < c1.release_genre.len() && c1.release_genre[k] == (id2, g);
            lemma_pairs_after_wf(c0.release_genre, id1, e1.genres, n1);
            if c0.release_genre.contains((id2, g)) {
                lemma_fresh_pair_absent(c0, id2, g);
            }
        }
    }
    lemma_pairs_after_value(c1.release_genre, id2, e2.genres, n2, g);
    assert(exists|k: int| 0 <= k < n2 && e2.genres[k] == g) by {
        assert(e2.genres[m2] == g);
    }
    assert(c2.release_genre.contains((id2, g)));
    assert(count_pairs(c2.release_genre, g) == count_pairs(c0.release_genre, g) + 2);

    // The first join row survives the second fold, which only appends.
    lemma_pairs_after_extends(c1.release_genre, id2, e2.genres, n2);
    let k1 = choose|k: int| 0 <= k < c1.release_genre.len() && c1.release_genre[k] == (id1, g);
    assert(c2.release_genre[k1] == (id1, g));
}

/// Why the writer refuses a release.
#[derive(PartialEq, Eq, Structural, Debug)]
pub enum CatalogError {
    /// The identifier is already taken.
    DuplicateId,
}

/// Relies on `uuid::Uuid::new_v4` and its hyphenated `Display` form: a
/// freshly drawn random identifier, 36 characters long. Nothing more is
/// promised of it; in particular not that it is unused.
#[verifier::external_body]
pub fn fresh_release_id() -> (r: String)
    ensures
        r@.len() == 36,
{
    uuid::Uuid::new_v4().to_string()
}

/// Whether `v` stands in the dimension table.
fn table_contains(table: &Vec<String>, v: &str) -> (r: bool)
    ensures
        r == table.deep_view().contains(v@),
{
    let mut i: usize = 0;
    while i < table.len()
        invariant
            i <= table@.len(),
            forall|k: int| 0 <= k < i ==> table.deep_view()[k] != v@,
        decreases table@.len() - i,
    {
        proof {
            assert(table.deep_view()[i as int] == table@[i as int]@);
        }
        if str_eq(table[i].as_str(), v) {
            return true;
        }
        i = i + 1;
    }
    proof {
        assert(forall|k: int| 0 <= k < table.deep_view().len() ==> table.deep_view()[k] != v@);
    }
    false
}

/// Whether the row `(id, v)` stands in the join table.
fn pairs_contain(pairs: &Vec<(String, String)>, id: &str, v: &str) -> (r: bool)
    ensures
        r == pairs.deep_view().contains((id@, v@)),
{
    let mut i: usize = 0;
    while i < pairs.len()
        invariant
            i <= pairs@.len(),
            forall|k: int| 0 <= k < i ==> pairs.deep_view()[k] != (id@, v@),
        decreases pairs@.len() - i,
    {
        proof {
            assert(pairs.deep_view()[i as int] == (pairs@[i as int].0@, pairs@[i as int].1@));
        }
        if str_eq(pairs[i].0.as_str(), id) && str_eq(pairs[i].1.as_str(), v) {
            return true;
        }
        i = i + 1;
    }
    proof {
        assert(forall|k: int|
            0 <= k < pairs.deep_view().len() ==> pairs.deep_view()[k] != (id@, v@));
    }
    false
}

/// Ensures each of `tags` in the dimension table, in order.
fn apply_tags(table: &mut Vec<String>, tags: &Vec<String>)
    ensures
        final(table).deep_view() == tags_after(
            old(table).deep_view(),
            tags.deep_view(),
            tags.deep_view().len() as int,
        ),
{
    let ghost tv = tags.deep_view();
    let mut j: usize = 0;
    while j < tags.len()
        invariant
            j <= tags@.len(),
            tv == tags.deep_view(),
            tv.len() == tags@.len(),
            table.deep_view() == tags_after(old(table).deep_view(), tv, j as int),
        decreases tags@.len() - j,
    {
        proof {
            assert(tags.deep_view()[j as int] == tags@[j as int]@);
        }
        if !table_contains(table, tags[j].as_str()) {
            let ghost prev = table.deep_view();
            let value = tags[j].clone();
            table.push(value);
            proof {
                assert(forall|q: int|
                    0 <= q < prev.len() ==> #[trigger] table.deep_view()[q] == prev[q]);
                assert(table.deep_view() =~= prev.push(tags@[j as int]@));
            }
        }
        j = j + 1;
    }
}

/// Ensures a join row `(id, tag)` for each of `tags`, in order.
fn apply_links(pairs: &mut Vec<(String, String)>, id: &String, tags: &Vec<String>)
    ensures
        final(pairs).deep_view() == pairs_after(
            old(pairs).deep_view(),
            id@,
            tags.deep_view(),
            tags.deep_view().len() as int,
        ),
{
    let ghost tv = tags.deep_view();
    let mut j: usize = 0;
    while j < tags.len()
        invariant
            j <= tags@.len(),
            tv == tags.deep_view(),
            tv.len() == tags@.len(),
            pairs.deep_view() == pairs_after(old(pairs).deep_view(), id@, tv, j as int),
        decreases tags@.len() - j,
    {
        proof {
            assert(tags.deep_view()[j as int] == tags@[j as int]@);
        }
        if !pairs_contain(pairs, id.as_str(), tags[j].as_str()) {
            let ghost prev = pairs.deep_view();
            let row = (id.clone(), tags[j].clone());
            pairs.push(row);
            proof {
                assert(forall|q: int|
                    0 <= q < prev.len() ==> #[trigger] pairs.deep_view()[q] == prev[q]);
                assert(pairs.deep_view() =~= prev.push((id@, tags@[j as int]@)));
            }
        }
        j = j + 1;
    }
}

impl Catalog {
    /// An empty catalog.
    pub fn new() -> (r: Catalog)
        ensures
            r@.releases.len() == 0,
            r@.genres.len() == 0,
            r@.companies.len() == 0,
            r@.languages.len() == 0,
            r@.release_genre.len() == 0,
            r@.release_company.len() == 0,
            r@.release_language.len() == 0,
            r@.wf(),
    {
        Catalog {
            releases: Vec::new(),
            genres: Vec::new(),
            companies: Vec::new(),
            languages: Vec::new(),
            release_genre: Vec::new(),
            release_company: Vec::new(),
            release_language: Vec::new(),
        }
    }

    /// Whether some stored release carries this identifier.
    pub fn has_id_exec(&self, id: &str) -> (r: bool)
        ensures
            r == self@.has_id(id@),
    {
        let mut i: usize = 0;
        while i < self.releases.len()
            invariant
                i <= self.releases@.len(),
                forall|k: int| 0 <= k < i ==> self.releases.deep_view()[k].id != id@,
            decreases self.releases@.len() - i,
        {
            proof {
                assert(self.releases.deep_view()[i as int] == self.releases@[i as int]@);
            }
            if str_eq(self.releases[i].id.as_str(), id) {
                proof {
                    assert(self@.releases[i as int].id == id@);
                    assert(self@.has_id(id@));
                }
                return true;
            }
            i = i + 1;
        }
        false
    }

    /// Whether some stored release carries this title.
    pub fn has_title_exec(&self, title: &str) -> (r: bool)
        ensures
            r == self@.has_title(title@),
    {
        let mut i: usize = 0;
        while i < self.releases.len()
            invariant
                i <= self.releases@.len(),
                forall|k: int| 0 <= k < i ==> self.releases.deep_view()[k].release.title != title@,
            decreases self.releases@.len() - i,
        {
            proof {
                assert(self.releases.deep_view()[i as int] == self.releases@[i as int]@);
            }
            if str_eq(self.releases[i].release.title.as_str(), title) {
                proof {
                    assert(self@.releases[i as int].release.title == title@);
                    assert(self@.has_title(title@));
                }
                return true;
            }
            i = i + 1;
        }
        false
    }

    /// The stored titles, in storage order.
    pub fn titles(&self) -> (r: Vec<String>)
        ensures
            r.deep_view() == titles_list(self@),
    {
        let mut r: Vec<String> = Vec::new();
        let mut i: usize = 0;
        while i < self.releases.len()
            invariant
                i <= self.releases@.len(),
                r@.len() == i,
                forall|k: int|
                    0 <= k < i ==> r.deep_view()[k] == self.releases.deep_view()[k].release.title,
            decreases self.releases@.len() - i,
        {
            let title = self.releases[i].release.title.clone();
            let ghost prev = r.deep_view();
            r.push(title);
            proof {
                assert(forall|q: int|
                    0 <= q < prev.len() ==> #[trigger] r.deep_view()[q] == prev[q]);
                assert(r.deep_view()[i as int] == title@);
                assert(self.releases.deep_view()[i as int] == self.releases@[i as int]@);
            }
            i = i + 1;
        }
        proof {
            assert(r.deep_view() =~~= titles_list(self@));
        }
        r
    }

    /// Records one extracted release under the given identifier: the release
    /// row, its tag dimension rows (created only where absent) and its join
    /// rows, as one unit. An identifier already taken is refused and the
    /// catalog left unchanged.
    pub fn insert_release(&mut self, e: Extracted, id: String) -> (r: Result<(), CatalogError>)
        ensures
            match r {
                Ok(()) => !old(self)@.has_id(id@) && final(self)@ == insert_spec(
                    old(self)@,
                    e@,
                    id@,
                ),
                Err(CatalogError::DuplicateId) => old(self)@.has_id(id@) && final(self)@ == old(
                    self,
                )@,
            },
            old(self)@.wf() ==> final(self)@.wf(),
    {
        if self.has_id_exec(id.as_str()) {
            return Err(CatalogError::DuplicateId);
        }
        apply_tags(&mut self.genres, &e.genres);
        apply_tags(&mut self.companies, &e.companies);
        apply_tags(&mut self.languages, &e.languages);
        apply_links(&mut self.release_genre, &id, &e.genres);
        apply_links(&mut self.release_company, &id, &e.companies);
        apply_links(&mut self.release_language, &id, &e.languages);
        let ghost prev = self.releases.deep_view();
        let ghost idv = id@;
        let ghost ev = e@;
        let row = StoredRelease { id, release: e.release };
        self.releases.push(row);
        proof {
            assert(forall|q: int|
                0 <= q < prev.len() ==> #[trigger] self.releases.deep_view()[q] == prev[q]);
            assert(self.releases.deep_view() =~= prev.push(row@));
            if old(self)@.wf() {
                lemma_insert_wf(old(self)@, ev, idv);
            }
        }
        Ok(())
    }
}

} // verus!
