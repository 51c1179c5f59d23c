//! The search query builder: turns the request's filter parameters into the
//! SQL text and bind parameters that the read path runs, pinned down to the
//! character.

use vstd::prelude::*;

use crate::strutil::{chars_vec, lower_ascii, lower_seq, string_from_chars};

verus! {

/// The filter parameters of a catalog search request.
pub struct SearchParams {
    pub title: Option<String>,
    pub genre: Option<String>,
    pub page: Option<usize>,
}

/// The mathematical value of the search parameters.
pub struct SearchParamsView {
    pub title: Option<Seq<char>>,
    pub genre: Option<Seq<char>>,
    pub page: Option<int>,
}

impl View for SearchParams {
    type V = SearchParamsView;

    open spec fn view(&self) -> SearchParamsView {
        SearchParamsView {
            title: match self.title {
                Some(t) => Some(t@),
                None => None,
            },
            genre: match self.genre {
                Some(g) => Some(g@),
                None => None,
            },
            page: match self.page {
                Some(p) => Some(p as int),
                None => None,
            },
        }
    }
}

/// Whether the title filter takes part: present and non-empty.
pub open spec fn title_active(p: SearchParamsView) -> bool {
    match p.title {
        Some(t) => t.len() > 0,
        None => false,
    }
}

/// Whether the genre filter takes part: present and non-empty.
pub open spec fn genre_active(p: SearchParamsView) -> bool {
    match p.genre {
        Some(g) => g.len() > 0,
        None => false,
    }
}

/// The decimal digits of a non-negative number.
pub open spec fn dec_digits(n: int) -> Seq<char>
    decreases n,
{
    if n < 10 {
        seq![(((48 + if n >= 0 { n } else { 0 }) as u8) as char)]
    } else {
        dec_digits(n / 10) + seq![(((48 + n % 10) as u8) as char)]
    }
}

/// The `WHERE` clause of a search, over which filters take part.
pub open spec fn where_clause_spec(p: SearchParamsView) -> Seq<char> {
    if title_active(p) && genre_active(p) {
        "\n\tWHERE r.title ILIKE ('%' || $1 || '%')\n\tand rg.genre = $2"@
    } else if title_active(p) {
        "\n\tWHERE r.title ILIKE ('%' || $1 || '%')"@
    } else if genre_active(p) {
        "\n\tWHERE rg.genre = $1"@
    } else {
        Seq::empty()
    }
}

/// The page query: select, filters, grouping, newest first, one page of
/// thirty rows, and the page offset where a page is asked for.
pub open spec fn search_sql_spec(p: SearchParamsView) -> Seq<char> {
    "SELECT r.id, r.title, r.coverSrc, r.published\nFROM releases r INNER JOIN release_genre rg ON r.id = rg.release_id"@
        + where_clause_spec(p)
        + "\nGROUP BY r.id\nORDER BY published DESC\nLIMIT 30"@ + (match p.page {
        Some(pg) => " OFFSET "@ + dec_digits((pg - 1) * 30),
        None => Seq::empty(),
    })
}

/// The count query: the same filters over the count of distinct releases.
pub open spec fn count_sql_spec(p: SearchParamsView) -> Seq<char> {
    "SELECT count(distinct r.id)\nFROM releases r INNER JOIN release_genre rg ON r.id = rg.release_id"@
        + where_clause_spec(p)
}

/// The bind parameters: the lower-cased title filter, then the genre filter,
/// each only where it takes part.
pub open spec fn bind_params_spec(p: SearchParamsView) -> Seq<Seq<char>> {
    (if title_active(p) {
        seq![lower_seq(p.title.unwrap())]
    } else {
        Seq::empty()
    }) + (if genre_active(p) {
        seq![p.genre.unwrap()]
    } else {
        Seq::empty()
    })
}

/// A built search: the page query, the count query, and their bind
/// parameters in order.
pub struct SearchQuery {
    pub sql: String,
    pub count_sql: String,
    pub params: Vec<String>,
}

/// Renders a non-negative number in decimal.
fn push_decimal(out: &mut Vec<char>, n: usize)
    ensures
        final(out)@ == old(out)@ + dec_digits(n as int),
    decreases n,
{
    if n < 10 {
        out.push(((48 + n as u8) as char));
        proof {
            assert(out@ =~= old(out)@ + dec_digits(n as int));
        }
    } else {
        push_decimal(out, n / 10);
        out.push(((48 + (n % 10) as u8) as char));
        proof {
            assert(out@ =~= old(out)@ + dec_digits(n as int));
        }
    }
}

/// Builds the search queries and bind parameters of a request.
/// A requested page must be positive, and its row offset must fit the
/// machine word — the only bounds the machine forces.
pub fn search_db(params: &SearchParams) -> (r: SearchQuery)
    requires
        match params.page {
            Some(p) => 1 <= p && (p - 1) * 30 <= usize::MAX,
            None => true,
        },
    ensures
        r.sql@ == search_sql_spec(params@),
        r.count_sql@ == count_sql_spec(params@),
        r.params.deep_view() == bind_params_spec(params@),
{
    let base: &str =
        "SELECT r.id, r.title, r.coverSrc, r.published\nFROM releases r INNER JOIN release_genre rg ON r.id = rg.release_id";
    let count_base: &str =
        "SELECT count(distinct r.id)\nFROM releases r INNER JOIN release_genre rg ON r.id = rg.release_id";
    let tail: &str = "\nGROUP BY r.id\nORDER BY published DESC\nLIMIT 30";

    let title_on: bool = match &params.title {
        Some(t) => t.as_str().unicode_len() > 0,
        None => false,
    };
    let genre_on: bool = match &params.genre {
        Some(g) => g.as_str().unicode_len() > 0,
        None => false,
    };

    let where_clause: &str = if title_on && genre_on {
        "\n\tWHERE r.title ILIKE ('%' || $1 || '%')\n\tand rg.genre = $2"
    } else if title_on {
        "\n\tWHERE r.title ILIKE ('%' || $1 || '%')"
    } else if genre_on {
        "\n\tWHERE rg.genre = $1"
    } else {
        ""
    };
    proof {
        reveal_strlit("");
        assert(where_clause@ == where_clause_spec(params@));
    }

    let mut sql = String::new();
    sql.append(base);
    sql.append(where_clause);
    sql.append(tail);
    match params.page {
        Some(p) => {
            sql.append(" OFFSET ");
            let mut digits: Vec<char> = Vec::new();
            push_decimal(&mut digits, (p - 1) * 30);
            let rendered = string_from_chars(digits.as_slice());
            sql.append(rendered.as_str());
        },
        None => {},
    }

    let mut count_sql = String::new();
    count_sql.append(count_base);
    count_sql.append(where_clause);

    let mut binds: Vec<String> = Vec::new();
    match &params.title {
        Some(t) => {
            if title_on {
                let lowered = lower_ascii(&chars_vec(t.as_str()));
                let value = string_from_chars(lowered.as_slice());
                binds.push(value);
            }
        },
        None => {},
    }
    match &params.genre {
        Some(g) => {
            if genre_on {
                let value = g.clone();
                let ghost prev = binds.deep_view();
                binds.push(value);
                proof {
                    assert(forall|q: int|
                        0 <= q < prev.len() ==> #[trigger] binds.deep_view()[q] == prev[q]);
                    assert(binds.deep_view()[prev.len() as int] == value@);
                }
            }
        },
        None => {},
    }
    proof {
        assert(binds.deep_view() =~~= bind_params_spec(params@));
    }
    SearchQuery { sql, count_sql, params: binds }
}

} // verus!
