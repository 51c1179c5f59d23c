use repack_index::extract::get_release_from_item;
use repack_index::feed::FeedItem;
use repack_index::release::ExtractError;
use repack_index::strutil::{chars_vec, split_tags, strings_of_pieces};

fn tags_of(input: &str) -> Vec<String> {
    let v = chars_vec(input);
    strings_of_pieces(&split_tags(&v))
}

#[test]
fn tag_split_preserves_order_and_trims() {
    assert_eq!(
        tags_of("Action, RPG / Strategy"),
        vec!["Action".to_string(), "RPG".to_string(), "Strategy".to_string()]
    );
}

#[test]
fn tag_split_single_value() {
    assert_eq!(tags_of("Action"), vec!["Action".to_string()]);
}

fn article_fragment() -> &'static str {
    "<h3>Game Title</h3>\n\
     <p><a href=\"https://c\"><img src=\"https://img/cover.jpg\"></a>\n\
     Genre: Action, RPG / Strategy\n\
     Companies: Foo, Bar\n\
     Language: English\n\
     Original Size: 55 GB\n\
     Repack Size: 25 GB</p>\n\
     <h3>Mirrors</h3>\n\
     <ul><li><a href=\"u1\">M1</a> <a href=\"u2\">M2</a> <a href=\"u3\">M3</a></li></ul>\n\
     <h3>Screenshots</h3>\n\
     <p><a href=\"s1\"><img src=\"https://img/s1.jpg\"></a><a href=\"s2\"><img src=\"https://img/s2.jpg\"></a></p>\n\
     <h3>Repack Features</h3>\n\
     <div>Based on the original.</div>\n\
     <h3>About</h3><ul><li>f</li></ul>\n\
     <div class=\"su-spoiler\"><div class=\"su-spoiler-content\"><p>Story text</p></div></div>"
}

fn valid_item() -> FeedItem {
    FeedItem {
        title: Some("Game Title".to_string()),
        link: Some("https://site/game".to_string()),
        pub_date: Some("Mon, 01 Jan 2024 10:00:00 +0000".to_string()),
        content: Some(article_fragment().to_string()),
    }
}

#[test]
fn item_extraction_required_fields() {
    let e = get_release_from_item(&valid_item()).unwrap();
    assert_eq!(e.release.title, "Game Title");
    assert_eq!(e.release.link, "https://site/game");
    assert_eq!(e.release.published, 1_704_103_200);
}

#[test]
fn item_extraction_cover_matches_captioned_image() {
    let e = get_release_from_item(&valid_item()).unwrap();
    assert_eq!(e.release.cover_src, "https://img/cover.jpg");
}

#[test]
fn item_extraction_tags() {
    let e = get_release_from_item(&valid_item()).unwrap();
    assert_eq!(e.genres, vec!["Action", "RPG", "Strategy"]);
    assert_eq!(e.companies, vec!["Foo", "Bar"]);
    assert_eq!(e.languages, vec!["English"]);
}

#[test]
fn item_extraction_sizes_keep_raw_values() {
    let e = get_release_from_item(&valid_item()).unwrap();
    assert_eq!(e.release.original_size, "55 GB");
    assert_eq!(e.release.repack_size, "25 GB");
}

#[test]
fn mirror_list_item_with_three_anchors_yields_one_mirror() {
    let e = get_release_from_item(&valid_item()).unwrap();
    assert_eq!(e.release.mirrors.len(), 1);
    let mirror = &e.release.mirrors[0];
    assert_eq!(mirror.links.len(), 3);
    assert_eq!(mirror.links[0].name, "M1");
    assert_eq!(mirror.links[0].link, "u1");
    assert_eq!(mirror.links[2].name, "M3");
    assert_eq!(mirror.links[2].link, "u3");
}

#[test]
fn screenshots_come_from_their_section() {
    let e = get_release_from_item(&valid_item()).unwrap();
    assert_eq!(
        e.release.screenshots,
        vec!["https://img/s1.jpg".to_string(), "https://img/s2.jpg".to_string()]
    );
}

#[test]
fn descriptions_are_serialized_markup() {
    let e = get_release_from_item(&valid_item()).unwrap();
    assert_eq!(e.release.repack_description, "Based on the original.");
    assert_eq!(e.release.game_description, "<p>Story text</p>");
}

#[test]
fn missing_optional_sections_degrade_to_empty() {
    let mut item = valid_item();
    item.content = Some("<h3>Game Title</h3><p>Genre: Action</p>".to_string());
    let e = get_release_from_item(&item).unwrap();
    assert_eq!(e.release.cover_src, "");
    assert!(e.release.mirrors.is_empty());
    assert!(e.release.screenshots.is_empty());
    assert_eq!(e.release.repack_description, "");
    assert_eq!(e.release.game_description, "");
    assert_eq!(e.genres, vec!["Action"]);
}

#[test]
fn item_without_title_is_rejected() {
    let mut item = valid_item();
    item.title = None;
    assert!(matches!(get_release_from_item(&item), Err(ExtractError::MissingTitle)));
}

#[test]
fn item_without_link_is_rejected() {
    let mut item = valid_item();
    item.link = None;
    assert!(matches!(get_release_from_item(&item), Err(ExtractError::MissingLink)));
}

#[test]
fn item_without_date_is_rejected() {
    let mut item = valid_item();
    item.pub_date = None;
    assert!(matches!(get_release_from_item(&item), Err(ExtractError::MissingPublished)));
}

#[test]
fn item_with_bad_date_is_rejected() {
    let mut item = valid_item();
    item.pub_date = Some("yesterday at noon".to_string());
    assert!(matches!(get_release_from_item(&item), Err(ExtractError::UnparsableDate)));
}

#[test]
fn item_without_content_is_rejected() {
    let mut item = valid_item();
    item.content = None;
    assert!(matches!(get_release_from_item(&item), Err(ExtractError::MissingContent)));
}
