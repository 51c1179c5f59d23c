use repack_index::extract::get_release_from_html;
use repack_index::release::ExtractError;

fn page(meta: &str, title_el: &str, canonical: &str) -> String {
    format!(
        "<html><head>{}{}<title>x</title></head><body>{}\
         <div class=\"entry-content\"><h3>Heading</h3><p><a href=\"x\"><img src=\"cov.jpg\"></a>\n\
         Genre: Action</p></div></body></html>",
        meta, canonical, title_el
    )
}

const META: &str =
    "<meta property=\"article:published_time\" content=\"2024-01-01T10:00:00+00:00\">";
const CANONICAL: &str = "<link rel=\"canonical\" href=\"https://site/g\">";
const TITLE: &str = "<h1 class=\"entry-title\">The Game</h1>";

#[test]
fn page_extraction_reads_all_required_fields() {
    let e = get_release_from_html(&page(META, TITLE, CANONICAL)).unwrap();
    assert_eq!(e.release.title, "The Game");
    assert_eq!(e.release.link, "https://site/g");
    assert_eq!(e.release.published, 1_704_103_200);
    assert_eq!(e.release.cover_src, "cov.jpg");
    assert_eq!(e.genres, vec!["Action"]);
}

#[test]
fn page_without_content_block_is_rejected() {
    let r = get_release_from_html("<html><body><p>bare</p></body></html>");
    assert!(matches!(r, Err(ExtractError::MissingContent)));
}

#[test]
fn page_without_published_meta_is_rejected() {
    let r = get_release_from_html(&page("", TITLE, CANONICAL));
    assert!(matches!(r, Err(ExtractError::MissingPublished)));
}

#[test]
fn page_with_unreadable_date_is_rejected() {
    let bad = "<meta property=\"article:published_time\" content=\"soon\">";
    let r = get_release_from_html(&page(bad, TITLE, CANONICAL));
    assert!(matches!(r, Err(ExtractError::UnparsableDate)));
}

#[test]
fn page_without_title_element_is_rejected() {
    let r = get_release_from_html(&page(META, "", CANONICAL));
    assert!(matches!(r, Err(ExtractError::MissingTitle)));
}

#[test]
fn page_without_canonical_link_is_rejected() {
    let r = get_release_from_html(&page(META, TITLE, ""));
    assert!(matches!(r, Err(ExtractError::MissingLink)));
}
