use k_download::kodansha::page::{image_file, image_path, page_title, xhtml_path, RemotePage};
use k_download::kodansha::user::{bearer, expirery, parse_i64, ParseNumberError};
use k_download::kodansha::volume::{pages_route, volume_route};
use k_download::percent;
use k_download::text::{decode_entities, description_lines, normalize_description, split_lines, strip_cr};
use k_download::utils::{Dedup, ToDedup};
use k_download::Page;

#[test]
fn percent_rounds_to_nearest() {
    assert_eq!(percent(10, 23), 43);
    assert_eq!(percent(20, 23), 87);
    assert_eq!(percent(23, 23), 100);
    assert_eq!(percent(0, 5), 0);
    // Halves round up.
    assert_eq!(percent(1, 200), 1);
}

#[test]
fn routes_are_rendered_exactly() {
    assert_eq!(volume_route(10), "https://api.kodansha.us/comic/10/");
    assert_eq!(pages_route(408), "https://api.kodansha.us/comic/408/pages");
    assert_eq!(bearer("abc"), "Bearer abc");
}

#[test]
fn page_names_follow_the_index() {
    assert_eq!(image_file(0), "cover.jpeg");
    assert_eq!(image_file(12), "page-12.jpeg");
    assert_eq!(image_path(3), "images/page-3.jpeg");
    assert_eq!(xhtml_path(7), "page-7.xhtml");
    assert_eq!(page_title(0), "Cover");
    assert_eq!(page_title(4), "Page 4");
}

#[test]
fn image_template_wraps_the_page() {
    let markup = Page::image_template(2, "images/page-2.jpeg".to_string());
    let expected = "<?xml version='1.0' encoding='utf-8'?>\n\
<html xmlns=\"http://www.w3.org/1999/xhtml\">\n  <head>\n    <title>Page #2</title>\n    \
<meta http-equiv=\"Content-Type\" content=\"text/html; charset=utf-8\"/>\n  </head>\n  <body>\n    \
<img src=\"images/page-2.jpeg\" alt=\"comic page #2\" />\n  </body>\n</html>";
    assert_eq!(markup, expected);
}

#[test]
fn remote_page_index_is_zero_based() {
    let page = RemotePage { page_number: 5, comic_id: 42 };
    assert_eq!(page.page_index(), 4);
}

#[test]
fn description_rsquo_token_is_replaced() {
    assert_eq!(normalize_description("Itrsquos here"), "Itaposs here");
    assert_eq!(normalize_description("rsquorsquo"), "aposapos");
    assert_eq!(normalize_description("plain"), "plain");
    assert_eq!(normalize_description(""), "");
}

#[test]
fn entities_are_decoded_before_display() {
    // Would fail if decoding handed the text back unchanged.
    assert_eq!(decode_entities("A&amp;B"), "A&B");
    let lines = description_lines("A&amp;B\r\nA&amp;B\nrest");
    assert_eq!(lines, vec!["A&B".to_string(), "rest".to_string()]);
}

#[test]
fn split_and_strip_behave_like_the_display() {
    assert_eq!(strip_cr("a\r\nb\r"), "a\nb");
    assert_eq!(split_lines("a\nb"), vec!["a".to_string(), "b".to_string()]);
    assert_eq!(split_lines(""), vec!["".to_string()]);
    // A single-space line is blanked, and duplicate blanks fold together.
    let lines = description_lines("x\n \n \nx\nx");
    assert_eq!(lines, vec!["x".to_string(), "".to_string(), "x".to_string()]);
}

#[test]
fn dedup_folds_consecutive_duplicates() {
    let items = vec![
        "".to_string(),
        "a".to_string(),
        "a".to_string(),
        "b".to_string(),
        "a".to_string(),
    ];
    let mut walker = items.dedup();
    assert_eq!(walker.next(), Some("a".to_string()));
    assert_eq!(walker.next(), Some("b".to_string()));
    assert_eq!(walker.next(), Some("a".to_string()));
    assert_eq!(walker.next(), None);

    let mut empty = Dedup::new(Vec::new());
    assert_eq!(empty.next(), None);
}

#[test]
fn parse_i64_accepts_exactly_the_decimal_literals() {
    assert_eq!(parse_i64("123"), Ok(123));
    assert_eq!(parse_i64("+42"), Ok(42));
    assert_eq!(parse_i64("-7"), Ok(-7));
    assert_eq!(parse_i64("0"), Ok(0));
    assert_eq!(parse_i64("9223372036854775807"), Ok(i64::MAX));
    assert_eq!(parse_i64("-9223372036854775808"), Ok(i64::MIN));
    assert_eq!(parse_i64(""), Err(ParseNumberError::Invalid));
    assert_eq!(parse_i64("+"), Err(ParseNumberError::Invalid));
    assert_eq!(parse_i64("12x"), Err(ParseNumberError::Invalid));
    assert_eq!(parse_i64("9223372036854775808"), Err(ParseNumberError::OutOfRange));
    assert_eq!(parse_i64("-9223372036854775809"), Err(ParseNumberError::OutOfRange));
}

#[test]
fn expirery_keeps_an_hour_of_slack() {
    assert_eq!(expirery(1000, 7200), 1000 + 7200 - 3600);
    assert_eq!(expirery(1000, 60), 1000 - 3540);
}
