use skribbl_bot::cli::{
    chars_of, parse_box, parse_chars, parse_or_zero, parse_u32, parse_u64, split_values, BoxError,
    DEFAULT_DELAY, DEFAULT_TIMEOUT,
};
use skribbl_bot::drawer::Box;
use skribbl_bot::image_downloader::{
    search_url, DownloadImageError, ImageDownloader, IMAGE_PATTERN, SEARCH_ADDRESS,
};

#[test]
fn defaults_of_the_command_line() {
    assert_eq!(DEFAULT_DELAY, 7);
    assert_eq!(DEFAULT_TIMEOUT, 55);
}

#[test]
fn numbers_are_digits_with_or_without_a_plus() {
    assert_eq!(parse_u32("0"), Some(0));
    assert_eq!(parse_u32("42"), Some(42));
    assert_eq!(parse_u32("+42"), Some(42));
    assert_eq!(parse_u32("007"), Some(7));
    assert_eq!(parse_u32("4294967295"), Some(u32::MAX));
    assert_eq!(parse_u64("18446744073709551615"), Some(u64::MAX));
    assert_eq!(parse_u64("55"), Some(55));
}

#[test]
fn other_texts_are_no_numbers() {
    for text in ["", "+", "-1", "-0", "12a", "a12", " 12", "12 ", "1_000", "++1", "1+", "1.5", "٣"] {
        assert_eq!(parse_u32(text), None);
        assert_eq!(parse_u64(text), None);
    }
}

#[test]
fn numbers_must_fit() {
    assert_eq!(parse_u32("4294967296"), None);
    assert_eq!(parse_u32("99999999999999999999999999"), None);
    assert_eq!(parse_u64("4294967296"), Some(4294967296));
    assert_eq!(parse_u64("18446744073709551616"), None);
    assert_eq!(parse_u64("000000000000000000000000000001"), Some(1));
    assert_eq!(parse_chars(&vec!['2', '5', '6'], 255), None);
    assert_eq!(parse_chars(&vec!['2', '5', '5'], 255), Some(255));
    assert_eq!(parse_chars(&vec!['1'], 0), None);
    assert_eq!(parse_chars(&vec!['0'], 0), Some(0));
}

#[test]
fn numbers_read_as_the_standard_library_reads_them() {
    for text in [
        "0", "1", "+1", "-1", "", "+", "10", "4294967295", "4294967296", "0000", "12x", "x", "९",
        "1 ", "+0", "+-1", "3000000000", "5000000000",
    ] {
        assert_eq!(parse_u32(text), text.parse::<u32>().ok());
        assert_eq!(parse_u64(text), text.parse::<u64>().ok());
    }
}

#[test]
fn entry_fields_count_as_zero_when_unreadable() {
    assert_eq!(parse_or_zero("17"), 17);
    assert_eq!(parse_or_zero(""), 0);
    assert_eq!(parse_or_zero("abc"), 0);
    assert_eq!(parse_or_zero("4294967296"), 0);
    assert_eq!(parse_or_zero("0"), 0);
}

#[test]
fn chars_of_keeps_every_character() {
    assert_eq!(chars_of("x1y2"), vec!['x', '1', 'y', '2']);
    assert_eq!(chars_of(""), Vec::<char>::new());
    assert_eq!(chars_of("aä€"), vec!['a', 'ä', '€']);
}

#[test]
fn values_are_split_at_the_letters() {
    let parts = split_values(&chars_of("x10y20w30h40"));
    assert_eq!(parts, vec![vec!['1', '0'], vec!['2', '0'], vec!['3', '0'], vec!['4', '0']]);
    assert_eq!(split_values(&chars_of("xxyy")), Vec::<Vec<char>>::new());
    assert_eq!(split_values(&chars_of("1")), vec![vec!['1']]);
    assert_eq!(split_values(&chars_of("ax b")), vec![vec!['a'], vec![' ', 'b']]);
}

#[test]
fn box_is_read_from_its_four_values() {
    assert_eq!(parse_box("x10y20w30h40"), Ok(Box { x: 10, y: 20, width: 30, height: 40 }));
    assert_eq!(parse_box("x0y0w814h611"), Ok(Box { x: 0, y: 0, width: 814, height: 611 }));
    assert_eq!(parse_box("10x20x30x40"), Ok(Box { x: 10, y: 20, width: 30, height: 40 }));
    assert_eq!(parse_box("xx1yy2ww3hh4hh"), Ok(Box { x: 1, y: 2, width: 3, height: 4 }));
    assert_eq!(parse_box("h+1w2y3x4"), Ok(Box { x: 1, y: 2, width: 3, height: 4 }));
    assert_eq!(
        parse_box("x4294967295y0w0h0"),
        Ok(Box { x: u32::MAX, y: 0, width: 0, height: 0 })
    );
}

#[test]
fn box_ignores_values_after_the_fourth() {
    assert_eq!(parse_box("x1y2w3h4x5y6"), Ok(Box { x: 1, y: 2, width: 3, height: 4 }));
    assert_eq!(parse_box("x1y2w3h4x5z"), Err(BoxError::InvalidNumber));
}

#[test]
fn box_needs_four_values() {
    assert_eq!(parse_box(""), Err(BoxError::TooFewValues));
    assert_eq!(parse_box("xywh"), Err(BoxError::TooFewValues));
    assert_eq!(parse_box("x1y2w3"), Err(BoxError::TooFewValues));
    assert_eq!(parse_box("x1y2w3h"), Err(BoxError::TooFewValues));
}

#[test]
fn box_needs_numbers() {
    assert_eq!(parse_box("x1y2w3h4a"), Err(BoxError::InvalidNumber));
    assert_eq!(parse_box("x1y-2w3h4"), Err(BoxError::InvalidNumber));
    assert_eq!(parse_box("x1 y2 w3 h4"), Err(BoxError::InvalidNumber));
    assert_eq!(parse_box("x1y2w3h4294967296"), Err(BoxError::InvalidNumber));
    assert_eq!(parse_box("z"), Err(BoxError::InvalidNumber));
    assert_eq!(parse_box("x1,y2,w3,h4"), Err(BoxError::InvalidNumber));
}

#[test]
fn search_address_ends_with_the_query() {
    assert_eq!(
        search_url("cat"),
        "https://images.search.yahoo.com/search/images?imgty=clipart&p=cat"
    );
    assert_eq!(search_url(""), SEARCH_ADDRESS);
    assert_eq!(search_url("big dog"), format!("{}big dog", SEARCH_ADDRESS));
}

#[test]
fn page_offers_its_images_in_order() {
    let page = "<html><img data-src='http://a/1.png' alt=''><p>text</p>\
                <img data-src='http://b/2.jpg' alt=''><img src='http://c/3.png' alt=''>\
                <img data-src='http://d/4.gif' alt='x'><img data-src='' alt=''>\
                <img data-src='http://e/5.png' alt=''></html>";
    let mut downloader = ImageDownloader::from_page(page);
    assert_eq!(downloader.len(), 3);
    assert_eq!(downloader.next_url().unwrap(), "http://a/1.png");
    assert_eq!(downloader.len(), 2);
    assert_eq!(downloader.next_url().unwrap(), "http://b/2.jpg");
    assert_eq!(downloader.next_url().unwrap(), "http://e/5.png");
    assert!(matches!(downloader.next_url(), Err(DownloadImageError::NoImagesLeft)));
    assert!(matches!(downloader.next_url(), Err(DownloadImageError::NoImagesLeft)));
    assert_eq!(downloader.len(), 0);
}

#[test]
fn page_without_images_offers_nothing() {
    let mut downloader = ImageDownloader::from_page("<html></html>");
    assert_eq!(downloader.len(), 0);
    assert!(matches!(downloader.next_url(), Err(DownloadImageError::NoImagesLeft)));
    assert_eq!(ImageDownloader::from_page("").len(), 0);
}

#[test]
fn matches_are_offered_first_to_last() {
    let found = Some(vec!["one".to_string(), "two".to_string(), "three".to_string()]);
    let mut downloader = ImageDownloader::from_matches(found);
    assert_eq!(downloader.next_url().unwrap(), "one");
    assert_eq!(downloader.next_url().unwrap(), "two");
    assert_eq!(downloader.next_url().unwrap(), "three");
    assert!(downloader.next_url().is_err());
    assert_eq!(ImageDownloader::from_matches(None).len(), 0);
    assert_eq!(ImageDownloader::from_matches(Some(Vec::new())).len(), 0);
}

#[test]
fn image_pattern_has_the_address_as_first_group() {
    let regex = regex::Regex::new(IMAGE_PATTERN).unwrap();
    let found = regex.captures("<img data-src='http://a/1.png' alt=''>").unwrap();
    assert_eq!(&found[1], "http://a/1.png");
}
