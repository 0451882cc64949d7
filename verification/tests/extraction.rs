use html_extract::links::extract_links;
use html_extract::meta::{extract_meta_tags, MetaMap};
use html_extract::result::extract_all;
use html_extract::text::{extract_text_content, word_count};
use html_extract::title::extract_title;

#[test]
fn title_absent_sentinel() {
    assert_eq!(extract_title("<html><body>x</body></html>"), "No title found");
    assert_eq!(extract_title(""), "No title found");
}

#[test]
fn title_simple() {
    assert_eq!(extract_title("<title>Hello</title>"), "Hello");
}

#[test]
fn title_trimmed() {
    assert_eq!(extract_title("<title> X </title>"), "X");
    assert_eq!(extract_title("<title>  Hello World  </title>"), "Hello World");
}

#[test]
fn title_unclosed() {
    assert_eq!(extract_title("<title>abc"), "No title found");
}

#[test]
fn title_close_before_open() {
    assert_eq!(extract_title("</title><title>abc"), "No title found");
}

#[test]
fn title_first_pair_wins() {
    assert_eq!(extract_title("<title>A</title><title>B</title>"), "A");
}

#[test]
fn links_absolute_kept() {
    assert_eq!(extract_links("<a href=\"http://x.com\">"), vec!["http://x.com"]);
}

#[test]
fn links_relative_dropped() {
    assert!(extract_links("<a href=\"/relative\">").is_empty());
}

#[test]
fn links_duplicates_kept_in_order() {
    let doc = "<a href=\"http://a.com\">1</a><a href=\"http://a.com\">2</a>";
    let links = extract_links(doc);
    assert_eq!(links.len(), 2);
    assert_eq!(links, vec!["http://a.com", "http://a.com"]);
}

#[test]
fn links_document_order() {
    let doc = "<a href=\"https://b.org\"><a href=\"/rel\"><a href=\"http://a.com\">";
    assert_eq!(extract_links(doc), vec!["https://b.org", "http://a.com"]);
}

#[test]
fn links_unterminated_capture_dropped() {
    assert!(extract_links("<a href=\"http://a.com").is_empty());
}

#[test]
fn links_empty_document() {
    assert!(extract_links("").is_empty());
}

#[test]
fn text_joins_trimmed_lines() {
    let doc = "<p>Hello</p>\n<p>World</p>";
    let text = extract_text_content(doc);
    assert_eq!(text, "Hello World");
    assert_eq!(word_count(&text), 2);
}

#[test]
fn text_adjacent_tags_do_not_separate() {
    let text = extract_text_content("<p>Hello</p><p>World</p>");
    assert_eq!(text, "HelloWorld");
    assert_eq!(word_count(&text), 1);
}

#[test]
fn text_whitespace_only_line_discarded() {
    let text = extract_text_content("  <b>  </b>  ");
    assert_eq!(text, "");
    assert_eq!(word_count(&text), 0);
}

#[test]
fn text_entities_kept_verbatim() {
    let text = extract_text_content("<p>a &amp; b</p>");
    assert_eq!(text, "a &amp; b");
    assert_eq!(word_count(&text), 3);
}

#[test]
fn text_unterminated_tag_drops_rest() {
    assert_eq!(extract_text_content("abc<def"), "abc");
}

#[test]
fn word_count_plain() {
    assert_eq!(word_count("two words"), 2);
    assert_eq!(word_count(""), 0);
    assert_eq!(word_count("   "), 0);
    assert_eq!(word_count("  a  b\t c\n"), 3);
}

#[test]
fn meta_pair_extracted() {
    let m = extract_meta_tags("<meta name=\"description\" content=\"Test site\">");
    assert_eq!(m.get("description"), Some("Test site".to_string()));
    assert_eq!(m.len(), 1);
}

#[test]
fn meta_last_occurrence_wins() {
    let doc = "<meta name=\"d\" content=\"first\"><meta name=\"d\" content=\"second\">";
    let m = extract_meta_tags(doc);
    assert_eq!(m.get("d"), Some("second".to_string()));
    assert_eq!(m.len(), 1);
}

#[test]
fn meta_without_content_gives_no_entry() {
    let m = extract_meta_tags("<meta name=\"x\">");
    assert_eq!(m.get("x"), None);
    assert_eq!(m.len(), 0);
}

#[test]
fn meta_unterminated_tag_aborts_scan() {
    let doc = "<meta name=\"x\" content=\"1\"><meta name=\"y\" content=\"2";
    let m = extract_meta_tags(doc);
    assert_eq!(m.get("x"), Some("1".to_string()));
    assert_eq!(m.get("y"), None);
    assert_eq!(m.len(), 1);
}

#[test]
fn meta_content_may_precede_name() {
    let m = extract_meta_tags("<meta content=\"c\" name=\"n\">");
    assert_eq!(m.get("n"), Some("c".to_string()));
}

#[test]
fn meta_map_insert_overwrites() {
    let mut m = MetaMap::new();
    m.insert("a".to_string(), "1".to_string());
    m.insert("b".to_string(), "2".to_string());
    m.insert("a".to_string(), "3".to_string());
    assert_eq!(m.get("a"), Some("3".to_string()));
    assert_eq!(m.get("b"), Some("2".to_string()));
    assert_eq!(m.get("c"), None);
    assert_eq!(m.len(), 2);
}

#[test]
fn aggregate_result_over_one_page() {
    let doc = "<html><head><title> Site </title>\n<meta name=\"k\" content=\"v\"></head>\n<body><a href=\"http://a.com\">go</a>\n<p>hi there</p></body></html>";
    let r = extract_all(doc);
    assert_eq!(r.title, "Site");
    assert_eq!(r.links, vec!["http://a.com"]);
    assert_eq!(r.text_content, "Site go hi there");
    assert_eq!(r.meta_tags.get("k"), Some("v".to_string()));
    assert_eq!(r.word_count, 4);
}

#[test]
fn extraction_is_idempotent() {
    let doc = "<title>T</title><a href=\"http://a.com\"><meta name=\"n\" content=\"c\"><p>x</p>";
    assert_eq!(extract_title(doc), extract_title(doc));
    assert_eq!(extract_links(doc), extract_links(doc));
    assert_eq!(extract_text_content(doc), extract_text_content(doc));
    let m1 = extract_meta_tags(doc);
    let m2 = extract_meta_tags(doc);
    assert_eq!(m1.get("n"), m2.get("n"));
    assert_eq!(m1.len(), m2.len());
    let t = extract_text_content(doc);
    assert_eq!(word_count(&t), word_count(&t));
}
