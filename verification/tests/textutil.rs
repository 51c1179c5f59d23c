use repack_index::feed::{new_feed_items, FeedItem};
use repack_index::jsonio::{mirrors_json, parse_mirrors_json, parse_screenshots_json, screenshots_json};
use repack_index::present::{fullscreen_screenshot, title_parts, FullscreenScreenshotParams};
use repack_index::release::{Link, Mirror};
use repack_index::search::{search_db, SearchParams};
use repack_index::strutil::{chars_vec, contains_sub, lines_chars, string_from_chars, trim_chars};

#[test]
fn trim_removes_surrounding_whitespace_only() {
    let v = chars_vec("  a b\t\n");
    assert_eq!(string_from_chars(trim_chars(&v).as_slice()), "a b");
}

#[test]
fn lines_split_like_std() {
    let v = chars_vec("a\r\nb\nc\n");
    let lines = lines_chars(&v);
    let got: Vec<String> = lines.iter().map(|l| string_from_chars(l.as_slice())).collect();
    assert_eq!(got, vec!["a".to_string(), "b".to_string(), "c".to_string()]);
}

#[test]
fn substring_search_finds_inner_matches() {
    assert!(contains_sub(&chars_vec("Repack Features"), &chars_vec("Repack")));
    assert!(!contains_sub(&chars_vec("Screenshots"), &chars_vec("Mirrors")));
}

#[test]
fn titled_item_frontier_stops_at_stored_title() {
    let item = |t: &str| FeedItem {
        title: Some(t.to_string()),
        link: None,
        pub_date: None,
        content: None,
    };
    let items = vec![item("Pinned"), item("A"), item("B"), item("C")];
    let fresh = new_feed_items(&items, "B");
    let titles: Vec<String> = fresh.iter().map(|i| i.title.clone().unwrap()).collect();
    assert_eq!(titles, vec!["A".to_string()]);
}

#[test]
fn untitled_item_ends_the_frontier() {
    let item = |t: Option<&str>| FeedItem {
        title: t.map(|t| t.to_string()),
        link: None,
        pub_date: None,
        content: None,
    };
    let items = vec![item(Some("Pinned")), item(Some("A")), item(None), item(Some("C"))];
    let fresh = new_feed_items(&items, "Z");
    assert_eq!(fresh.len(), 1);
}

#[test]
fn screenshots_json_is_exact() {
    let items = vec!["https://a.jpg".to_string(), "with \"quote\"".to_string()];
    assert_eq!(
        screenshots_json(&items),
        "[\"https://a.jpg\",\"with \\\"quote\\\"\"]"
    );
}

#[test]
fn mirrors_json_is_exact() {
    let mirrors = vec![Mirror {
        links: vec![
            Link { name: "M1".to_string(), link: "u1".to_string() },
            Link { name: "M2".to_string(), link: "u2".to_string() },
        ],
    }];
    assert_eq!(
        mirrors_json(&mirrors),
        "[{\"links\":[{\"name\":\"M1\",\"link\":\"u1\"},{\"name\":\"M2\",\"link\":\"u2\"}]}]"
    );
}

#[test]
fn empty_lists_serialize_to_empty_arrays() {
    assert_eq!(screenshots_json(&Vec::new()), "[]");
    assert_eq!(mirrors_json(&Vec::new()), "[]");
}

#[test]
fn search_query_with_both_filters_and_page() {
    let q = search_db(&SearchParams {
        title: Some("Elden".to_string()),
        genre: Some("Action".to_string()),
        page: Some(3),
    });
    assert_eq!(
        q.sql,
        "SELECT r.id, r.title, r.coverSrc, r.published\n\
         FROM releases r INNER JOIN release_genre rg ON r.id = rg.release_id\n\
         \tWHERE r.title ILIKE ('%' || $1 || '%')\n\
         \tand rg.genre = $2\n\
         GROUP BY r.id\nORDER BY published DESC\nLIMIT 30 OFFSET 60"
    );
    assert_eq!(
        q.count_sql,
        "SELECT count(distinct r.id)\n\
         FROM releases r INNER JOIN release_genre rg ON r.id = rg.release_id\n\
         \tWHERE r.title ILIKE ('%' || $1 || '%')\n\
         \tand rg.genre = $2"
    );
    assert_eq!(q.params, vec!["elden".to_string(), "Action".to_string()]);
}

#[test]
fn search_query_without_filters_has_no_where_clause() {
    let q = search_db(&SearchParams { title: None, genre: None, page: None });
    assert_eq!(
        q.sql,
        "SELECT r.id, r.title, r.coverSrc, r.published\n\
         FROM releases r INNER JOIN release_genre rg ON r.id = rg.release_id\n\
         GROUP BY r.id\nORDER BY published DESC\nLIMIT 30"
    );
    assert!(q.params.is_empty());
}

#[test]
fn search_treats_empty_filters_as_absent() {
    let q = search_db(&SearchParams {
        title: Some(String::new()),
        genre: Some("RPG".to_string()),
        page: None,
    });
    assert_eq!(q.params, vec!["RPG".to_string()]);
}

#[test]
fn fullscreen_source_drops_the_preview_suffix() {
    let p = FullscreenScreenshotParams {
        original_url: "https://img/shot.240p.jpg.240p.jpg".to_string(),
    };
    assert_eq!(fullscreen_screenshot(&p), "https://img/shot");
}

#[test]
fn title_splits_at_first_dash_or_en_dash() {
    assert_eq!(
        title_parts("Game - Deluxe Edition"),
        ("Game ".to_string(), " Deluxe Edition".to_string())
    );
    assert_eq!(
        title_parts("Game \u{2013} GOTY"),
        ("Game ".to_string(), " GOTY".to_string())
    );
    assert_eq!(title_parts("Plain"), ("Plain".to_string(), String::new()));
}

#[test]
fn screenshots_json_round_trips() {
    let items = vec![
        "https://a.jpg".to_string(),
        "odd \"name\" with \\ and \n control\u{1}".to_string(),
        String::new(),
    ];
    let text = screenshots_json(&items);
    assert_eq!(parse_screenshots_json(&text), Some(items));
    assert_eq!(parse_screenshots_json("[]"), Some(Vec::new()));
}

#[test]
fn mirrors_json_round_trips() {
    let mirrors = vec![
        Mirror {
            links: vec![
                Link { name: "M\"1\"".to_string(), link: "u1".to_string() },
                Link { name: "M2".to_string(), link: String::new() },
            ],
        },
        Mirror { links: Vec::new() },
    ];
    let text = mirrors_json(&mirrors);
    let parsed = parse_mirrors_json(&text).unwrap();
    assert_eq!(parsed.len(), 2);
    assert_eq!(parsed[0].links.len(), 2);
    assert_eq!(parsed[0].links[0].name, "M\"1\"");
    assert_eq!(parsed[0].links[0].link, "u1");
    assert_eq!(parsed[0].links[1].name, "M2");
    assert_eq!(parsed[0].links[1].link, "");
    assert!(parsed[1].links.is_empty());
}

#[test]
fn malformed_stored_json_is_refused() {
    assert_eq!(parse_screenshots_json("[\"a\""), None);
    assert_eq!(parse_screenshots_json("nonsense"), None);
    assert!(parse_mirrors_json("[{\"links\":}]").is_none());
}
