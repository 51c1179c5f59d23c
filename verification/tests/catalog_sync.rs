use repack_index::catalog::{Catalog, CatalogError};
use repack_index::crawl::{listing_pairs, new_crawl_items};
use repack_index::release::{Extracted, Release};
use repack_index::sync::{ingest_release_page, sync_fitgirl_rss, IngestError, SyncError};

fn plain_release(title: &str) -> Release {
    Release {
        title: title.to_string(),
        link: format!("https://site/{}", title),
        published: 1_704_103_200,
        cover_src: String::new(),
        original_size: String::new(),
        repack_size: String::new(),
        mirrors: Vec::new(),
        screenshots: Vec::new(),
        repack_description: String::new(),
        game_description: String::new(),
    }
}

fn extracted(title: &str, genres: Vec<&str>) -> Extracted {
    Extracted {
        release: plain_release(title),
        languages: Vec::new(),
        companies: Vec::new(),
        genres: genres.into_iter().map(|g| g.to_string()).collect(),
    }
}

#[test]
fn shared_genre_has_one_dimension_row_and_two_join_rows() {
    let mut catalog = Catalog::new();
    catalog
        .insert_release(extracted("First", vec!["Action"]), "id-1".to_string())
        .unwrap();
    catalog
        .insert_release(extracted("Second", vec!["Action"]), "id-2".to_string())
        .unwrap();
    assert_eq!(catalog.genres, vec!["Action".to_string()]);
    assert_eq!(
        catalog.release_genre,
        vec![
            ("id-1".to_string(), "Action".to_string()),
            ("id-2".to_string(), "Action".to_string()),
        ]
    );
}

#[test]
fn shared_genre_inside_larger_lists_is_still_one_row() {
    let mut catalog = Catalog::new();
    catalog
        .insert_release(extracted("First", vec!["Indie", "Action"]), "id-1".to_string())
        .unwrap();
    catalog
        .insert_release(extracted("Second", vec!["Action", "RPG"]), "id-2".to_string())
        .unwrap();
    assert_eq!(
        catalog.genres,
        vec!["Indie".to_string(), "Action".to_string(), "RPG".to_string()]
    );
    let action_rows: Vec<&(String, String)> =
        catalog.release_genre.iter().filter(|(_, g)| g == "Action").collect();
    assert_eq!(
        action_rows,
        vec![
            &("id-1".to_string(), "Action".to_string()),
            &("id-2".to_string(), "Action".to_string()),
        ]
    );
}

#[test]
fn repeated_tag_in_one_release_links_once() {
    let mut catalog = Catalog::new();
    catalog
        .insert_release(extracted("First", vec!["Action", "Action"]), "id-1".to_string())
        .unwrap();
    assert_eq!(catalog.genres, vec!["Action".to_string()]);
    assert_eq!(catalog.release_genre.len(), 1);
}

#[test]
fn duplicate_identifier_is_refused() {
    let mut catalog = Catalog::new();
    catalog
        .insert_release(extracted("First", vec![]), "id-1".to_string())
        .unwrap();
    let r = catalog.insert_release(extracted("Second", vec![]), "id-1".to_string());
    assert!(matches!(r, Err(CatalogError::DuplicateId)));
    assert_eq!(catalog.releases.len(), 1);
}

#[test]
fn crawl_dedup_keeps_exactly_the_unknown_titles() {
    let pairs = vec![
        ("A".to_string(), "u1".to_string()),
        ("B".to_string(), "u2".to_string()),
        ("C".to_string(), "u3".to_string()),
    ];
    let existing = vec!["A".to_string(), "B".to_string()];
    let fresh = new_crawl_items(&pairs, &existing);
    assert_eq!(fresh, vec![("C".to_string(), "u3".to_string())]);
}

fn listing_page() -> &'static str {
    "<html><body><div class=\"lcp_catlist\"><ul>\
     <li><a href=\"https://site/a\">Alpha</a></li>\
     <li><a href=\"https://site/c\">Gamma</a></li>\
     </ul></div></body></html>"
}

fn article_page(title: &str) -> String {
    format!(
        "<html><head>\
         <meta property=\"article:published_time\" content=\"2024-01-01T10:00:00+00:00\">\
         <link rel=\"canonical\" href=\"https://site/{}\">\
         <title>x</title></head><body>\
         <h1 class=\"entry-title\">{}</h1>\
         <div class=\"entry-content\"><h3>{}</h3><p><a href=\"x\"><img src=\"cov.jpg\"></a>\nGenre: Action</p></div>\
         </body></html>",
        title, title, title
    )
}

#[test]
fn listing_pairs_read_titles_and_urls() {
    let pairs = listing_pairs(listing_page());
    assert_eq!(
        pairs,
        vec![
            ("Alpha".to_string(), "https://site/a".to_string()),
            ("Gamma".to_string(), "https://site/c".to_string()),
        ]
    );
}

#[test]
fn full_sync_second_run_discovers_nothing() {
    let mut catalog = Catalog::new();
    catalog
        .insert_release(extracted("Alpha", vec![]), "id-a".to_string())
        .unwrap();

    let pairs = listing_pairs(listing_page());
    let fresh = new_crawl_items(&pairs, &catalog.titles());
    assert_eq!(fresh.len(), 1);
    assert_eq!(fresh[0].0, "Gamma");

    let title = ingest_release_page(&mut catalog, &article_page("Gamma")).unwrap();
    assert_eq!(title, "Gamma");
    assert_eq!(catalog.releases.len(), 2);
    assert_eq!(catalog.releases[1].id.len(), 36);

    let rerun = new_crawl_items(&pairs, &catalog.titles());
    assert!(rerun.is_empty());
}

#[test]
fn page_without_content_block_is_refused_and_writes_nothing() {
    let mut catalog = Catalog::new();
    let r = ingest_release_page(&mut catalog, "<html><body><p>nothing here</p></body></html>");
    assert!(matches!(
        r,
        Err(IngestError::Extract(repack_index::release::ExtractError::MissingContent))
    ));
    assert!(catalog.releases.is_empty());
}

fn feed_document() -> String {
    let item = |title: &str, with_body: bool| {
        let body = if with_body {
            format!(
                "<link>https://site/{}</link>\
                 <pubDate>Mon, 01 Jan 2024 10:00:00 +0000</pubDate>\
                 <content:encoded><![CDATA[<h3>{}</h3><p><a href=\"x\"><img src=\"c.jpg\"></a>\nGenre: Action</p>]]></content:encoded>",
                title, title
            )
        } else {
            String::new()
        };
        format!("<item><title>{}</title>{}</item>", title, body)
    };
    format!(
        "<?xml version=\"1.0\"?>\
         <rss version=\"2.0\" xmlns:content=\"http://purl.org/rss/1.0/modules/content/\">\
         <channel><title>feed</title><link>https://site</link><description>d</description>\
         {}{}{}{}\
         </channel></rss>",
        item("Pinned", false),
        item("Alpha", true),
        item("Beta", true),
        item("Gamma", true),
    )
}

#[test]
fn feed_sync_ingests_the_prefix_before_the_stored_title() {
    let mut catalog = Catalog::new();
    catalog
        .insert_release(extracted("Beta", vec![]), "id-b".to_string())
        .unwrap();
    let data: Vec<u8> = feed_document().into_bytes();
    let titles = sync_fitgirl_rss(&data, "Beta", &mut catalog).unwrap();
    assert_eq!(titles, vec!["Alpha".to_string()]);
    assert_eq!(catalog.releases.len(), 2);
    assert_eq!(catalog.releases[1].release.title, "Alpha");
    assert_eq!(catalog.releases[1].release.published, 1_704_103_200);
}

#[test]
fn feed_sync_with_unreadable_bytes_fails_whole_run() {
    let mut catalog = Catalog::new();
    let data: Vec<u8> = b"this is no feed".to_vec();
    let r = sync_fitgirl_rss(&data, "Beta", &mut catalog);
    assert!(matches!(r, Err(SyncError::FeedUnreadable)));
    assert!(catalog.releases.is_empty());
}
