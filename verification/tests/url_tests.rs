use tudo::url;

#[test]
fn detail_url_regions_no_wrap_single_region() {
    let text = "See https://example.com for info";
    let regions = url::detail_url_regions(text, 80, 3, 1);
    assert_eq!(regions.len(), 1);
    let r = &regions[0];
    assert_eq!(r.row, 3);
    assert_eq!(r.url, "https://example.com");
    assert_eq!(r.col_start, 5);
}

#[test]
fn detail_url_regions_url_spanning_line_break_two_regions() {
    let text = "pre https://ex.com/loooooong/path suf";
    let regions = url::detail_url_regions(text, 15, 0, 0);
    let url_regions: Vec<_> = regions
        .iter()
        .filter(|r| r.url.starts_with("https://"))
        .collect();
    assert!(!url_regions.is_empty(), "should find at least one URL region");
    let url_str = &url_regions[0].url;
    assert!(url_regions.iter().all(|r| &r.url == url_str));
}

#[test]
fn list_item_url_regions_correct_fields() {
    let title = "See https://example.com here";
    let regions = url::list_item_url_regions(title, 3, 1);
    assert_eq!(regions.len(), 1);
    let r = &regions[0];
    assert_eq!(r.row, 3);
    assert_eq!(r.url, "https://example.com");
    assert_eq!(r.col_start, 5);
    assert_eq!(r.col_end, 24);
}

#[test]
fn extract_plain_url_in_middle() {
    let spans = url::extract_url_spans("See https://example.com here");
    assert_eq!(spans.len(), 1);
    let (s, e) = spans[0];
    assert_eq!(&"See https://example.com here"[s..e], "https://example.com");
}

#[test]
fn extract_url_at_start() {
    let spans = url::extract_url_spans("https://example.com is great");
    assert_eq!(spans.len(), 1);
    let (s, e) = spans[0];
    assert_eq!(&"https://example.com is great"[s..e], "https://example.com");
}

#[test]
fn extract_url_at_end() {
    let spans = url::extract_url_spans("Go to https://example.com");
    assert_eq!(spans.len(), 1);
    let (s, e) = spans[0];
    assert_eq!(&"Go to https://example.com"[s..e], "https://example.com");
}

#[test]
fn extract_url_with_query_and_fragment() {
    let text = "See https://example.com/path?q=1&r=2#frag ok";
    let spans = url::extract_url_spans(text);
    assert_eq!(spans.len(), 1);
    let (s, e) = spans[0];
    assert_eq!(&text[s..e], "https://example.com/path?q=1&r=2#frag");
}

#[test]
fn extract_url_strips_trailing_period() {
    let text = "See https://example.com.";
    let spans = url::extract_url_spans(text);
    assert_eq!(spans.len(), 1);
    let (s, e) = spans[0];
    assert_eq!(&text[s..e], "https://example.com");
}

#[test]
fn extract_url_in_parens_matched() {
    let text = "(https://example.com/path(foo))";
    let spans = url::extract_url_spans(text);
    assert_eq!(spans.len(), 1);
    let (s, e) = spans[0];
    assert_eq!(&text[s..e], "https://example.com/path(foo)");
}

#[test]
fn extract_url_unmatched_close_paren_terminates() {
    let text = "(see https://example.com)";
    let spans = url::extract_url_spans(text);
    assert_eq!(spans.len(), 1);
    let (s, e) = spans[0];
    assert_eq!(&text[s..e], "https://example.com");
}

#[test]
fn extract_http_scheme() {
    let text = "http://example.com works";
    let spans = url::extract_url_spans(text);
    assert_eq!(spans.len(), 1);
    let (s, e) = spans[0];
    assert_eq!(&text[s..e], "http://example.com");
}

#[test]
fn extract_no_url_returns_empty() {
    let spans = url::extract_url_spans("no URLs here");
    assert!(spans.is_empty());
}

#[test]
fn unwrapped_detail_regions_match_single_line_regions() {
    let text = "a https://x.io/é and http://y.org end";
    let detail = url::detail_url_regions(text, 60, 4, 7);
    let line = url::list_item_url_regions(text, 4, 7);
    assert_eq!(detail.len(), 2);
    assert_eq!(detail, line);
    assert_eq!(detail[1].col_start, 7 + 21);
}

#[test]
fn detail_regions_checked_refuse_cells_past_the_coordinates() {
    let text = "see https://example.com now";
    assert_eq!(
        url::detail_url_regions_checked(text, 80, 2, 1),
        Some(url::detail_url_regions(text, 80, 2, 1))
    );
    assert_eq!(url::detail_url_regions_checked(text, 80, 2, 65530), None);
    assert_eq!(url::detail_url_regions_checked("no links here", 80, 2, 65530), Some(vec![]));
    assert!(url::detail_fits_check(text, 80, 65535, 1));
    assert!(!url::detail_fits_check(text, 10, 65535, 1));
}

#[test]
fn card_url_regions_go_line_by_line() {
    let lines = vec!["see https://a.io".to_string(), "and http://b.org x".to_string()];
    let r = url::card_url_regions(&lines, 7, 2).expect("fits");
    assert_eq!(r.len(), 2);
    assert_eq!((r[0].row, r[0].col_start, r[0].col_end), (7, 6, 18));
    assert_eq!(r[0].url, "https://a.io");
    assert_eq!((r[1].row, r[1].col_start, r[1].col_end), (8, 6, 18));
    assert_eq!(r[1].url, "http://b.org");
    assert_eq!(r[1..].to_vec(), url::list_item_url_regions(&lines[1], 8, 2));
    assert_eq!(url::card_url_regions(&lines, 65535, 2), None);
    assert_eq!(url::card_url_regions(&lines, 3, 65530), None);
    assert_eq!(url::card_url_regions(&vec![], 65535, 2), Some(vec![]));
}
