use question_scraper::dom::MAX_MARKUP;
use question_scraper::error::ExtractionError;
use question_scraper::models::ScrapedQuestion;
use question_scraper::scraper::{extract, hacker_news, read_count, PostBlock};

fn summary(id: &str, title: Option<&str>, stats: &[&str], tags: &[&str]) -> String {
    let mut block = String::new();
    block.push_str(&format!("<div class=\"s-post-summary js-post-summary\" data-post-id=\"{}\">", id));
    block.push_str("<div class=\"s-post-summary--stats\">");
    for stat in stats {
        block.push_str(&format!(
            "<div class=\"s-post-summary--stats-item\"><span class=\"s-post-summary--stats-item-number\">{}</span><span class=\"s-post-summary--stats-item-unit\">n</span></div>",
            stat
        ));
    }
    block.push_str("</div><div class=\"s-post-summary--content\">");
    if let Some(title) = title {
        block.push_str(&format!(
            "<h3 class=\"s-post-summary--content-title\"><a href=\"/questions/{}\">{}</a></h3>",
            id, title
        ));
    }
    block.push_str(&format!(
        "<div class=\"s-post-summary--content-excerpt\">About {}</div>",
        id
    ));
    block.push_str("<ul>");
    for tag in tags {
        block.push_str(&format!("<li><a class=\"post-tag\" href=\"/tagged/{}\">{}</a></li>", tag, tag));
    }
    block.push_str("</ul></div></div>");
    block
}

fn page(blocks: &[String]) -> String {
    format!(
        "<html><head><title>Listing</title></head><body><div id=\"questions\">{}</div></body></html>",
        blocks.concat()
    )
}

fn block(id: &str) -> PostBlock {
    PostBlock {
        excerpt: Some("How does it work?".to_string()),
        title: Some("A question".to_string()),
        link: Some("/questions/1".to_string()),
        stats: vec!["12".to_string(), "3".to_string(), "1k".to_string()],
        tags: vec!["rust".to_string(), "memory".to_string()],
        post_id: Some(id.to_string()),
    }
}

fn texts(list: &[&str]) -> Vec<String> {
    list.iter().map(|text| text.to_string()).collect()
}

#[test]
fn test_from_block_builds_the_question() {
    let question = ScrapedQuestion::from_block(&block("101")).unwrap();
    assert_eq!(question.title, "A question");
    assert_eq!(question.q_description, "How does it work?");
    assert_eq!(question.question_link, "/questions/1");
    assert_eq!(question.votes, 12);
    assert_eq!(question.answer, 3);
    assert_eq!(question.views, "1k");
    assert_eq!(question.stack_id, 101);
    assert_eq!(question.tags, texts(&["rust", "memory"]));
}

#[test]
fn test_from_block_drops_repeated_tags() {
    let mut raw = block("5");
    raw.tags = texts(&["rust", "async", "rust", "rust", "tokio", "async"]);
    let question = ScrapedQuestion::from_block(&raw).unwrap();
    assert_eq!(question.tags, texts(&["rust", "async", "tokio"]));
}

#[test]
fn test_from_block_without_tags() {
    let mut raw = block("5");
    raw.tags = Vec::new();
    let question = ScrapedQuestion::from_block(&raw).unwrap();
    assert!(question.tags.is_empty());
}

#[test]
fn test_from_block_takes_more_than_three_numbers() {
    let mut raw = block("5");
    raw.stats = texts(&["1", "2", "3 views", "4"]);
    let question = ScrapedQuestion::from_block(&raw).unwrap();
    assert_eq!(question.votes, 1);
    assert_eq!(question.answer, 2);
    assert_eq!(question.views, "3 views");
}

#[test]
fn test_from_block_takes_a_negative_source_identifier() {
    let question = ScrapedQuestion::from_block(&block("-4")).unwrap();
    assert_eq!(question.stack_id, -4);
}

#[test]
fn test_from_block_missing_excerpt() {
    let mut raw = block("1");
    raw.excerpt = None;
    assert_eq!(ScrapedQuestion::from_block(&raw).err(), Some(ExtractionError::MissingExcerpt));
}

#[test]
fn test_from_block_missing_title() {
    let mut raw = block("1");
    raw.title = None;
    assert_eq!(ScrapedQuestion::from_block(&raw).err(), Some(ExtractionError::MissingTitle));
}

#[test]
fn test_from_block_missing_link() {
    let mut raw = block("1");
    raw.link = None;
    assert_eq!(ScrapedQuestion::from_block(&raw).err(), Some(ExtractionError::MissingLink));
}

#[test]
fn test_from_block_missing_stats() {
    let mut raw = block("1");
    raw.stats = texts(&["1", "2"]);
    assert_eq!(ScrapedQuestion::from_block(&raw).err(), Some(ExtractionError::MissingStats));
}

#[test]
fn test_from_block_missing_source_identifier() {
    let mut raw = block("1");
    raw.post_id = None;
    assert_eq!(ScrapedQuestion::from_block(&raw).err(), Some(ExtractionError::MissingSourceId));
}

#[test]
fn test_from_block_invalid_votes() {
    let mut raw = block("1");
    raw.stats = texts(&["1.2k", "2", "3"]);
    assert_eq!(ScrapedQuestion::from_block(&raw).err(), Some(ExtractionError::InvalidVotes));
}

#[test]
fn test_from_block_negative_votes_are_no_count() {
    let mut raw = block("1");
    raw.stats = texts(&["-3", "2", "3"]);
    assert_eq!(ScrapedQuestion::from_block(&raw).err(), Some(ExtractionError::InvalidVotes));
}

#[test]
fn test_from_block_invalid_source_identifier() {
    let raw = block("q101");
    assert_eq!(ScrapedQuestion::from_block(&raw).err(), Some(ExtractionError::InvalidSourceId));
}

#[test]
fn test_from_block_invalid_answers() {
    let mut raw = block("1");
    raw.stats = texts(&["1", "", "3"]);
    assert_eq!(ScrapedQuestion::from_block(&raw).err(), Some(ExtractionError::InvalidAnswers));
}

#[test]
fn test_from_block_reports_the_first_reason() {
    let mut raw = block("x");
    raw.title = None;
    raw.link = None;
    raw.stats = Vec::new();
    assert_eq!(ScrapedQuestion::from_block(&raw).err(), Some(ExtractionError::MissingTitle));
    raw.title = Some("t".to_string());
    raw.link = Some("l".to_string());
    raw.stats = texts(&["x", "y", "z"]);
    assert_eq!(ScrapedQuestion::from_block(&raw).err(), Some(ExtractionError::InvalidVotes));
    raw.stats = texts(&["1", "y", "z"]);
    assert_eq!(ScrapedQuestion::from_block(&raw).err(), Some(ExtractionError::InvalidSourceId));
}

#[test]
fn test_read_count() {
    assert_eq!(read_count("0"), Some(0));
    assert_eq!(read_count("+17"), Some(17));
    assert_eq!(read_count("-0"), Some(0));
    assert_eq!(read_count("-1"), None);
    assert_eq!(read_count("2147483647"), Some(2147483647));
    assert_eq!(read_count("2147483648"), None);
    assert_eq!(read_count("many"), None);
}

#[test]
fn test_extract_keeps_page_order_and_counts_skips() {
    let mut bad = block("2");
    bad.title = None;
    let blocks = vec![block("1"), bad, block("3")];
    let page = extract(&blocks, 10);
    assert_eq!(page.questions.len(), 2);
    assert_eq!(page.questions[0].stack_id, 1);
    assert_eq!(page.questions[1].stack_id, 3);
    assert_eq!(page.skipped, 1);
}

#[test]
fn test_extract_stops_at_the_limit() {
    let mut bad = block("2");
    bad.post_id = None;
    let blocks = vec![block("1"), bad, block("3"), block("4")];
    let page = extract(&blocks, 3);
    assert_eq!(page.questions.len(), 2);
    assert_eq!(page.questions[1].stack_id, 3);
    assert_eq!(page.skipped, 1);
    let none = extract(&blocks, 0);
    assert_eq!(none.questions.len(), 0);
    assert_eq!(none.skipped, 0);
    assert_eq!(none.unique_tags.len(), 0);
}

#[test]
fn test_extract_counts_the_questions_of_each_tag() {
    let mut first = block("1");
    first.tags = texts(&["rust", "memory", "rust"]);
    let mut second = block("2");
    second.tags = texts(&["rust", "async"]);
    let mut bad = block("3");
    bad.tags = texts(&["rust", "lost"]);
    bad.excerpt = None;
    let page = extract(&vec![first, second, bad], 10);
    assert_eq!(page.unique_tags.len(), 3);
    assert_eq!(page.unique_tags.remaining(&"rust".to_string()), 2);
    assert_eq!(page.unique_tags.remaining(&"memory".to_string()), 1);
    assert_eq!(page.unique_tags.remaining(&"async".to_string()), 1);
    assert_eq!(page.unique_tags.remaining(&"lost".to_string()), 0);
    assert_eq!(page.unique_tags.tag(0), "rust");
    assert_eq!(page.unique_tags.tag(1), "memory");
    assert_eq!(page.unique_tags.tag(2), "async");
}

#[test]
fn test_page_with_one_malformed_block() {
    let blocks = vec![
        summary("1", Some("One"), &["1", "0", "10"], &["rust"]),
        summary("2", Some("Two"), &["2", "1", "20"], &["rust"]),
        summary("3", None, &["3", "1", "30"], &["rust"]),
        summary("4", Some("Four"), &["4", "1", "40"], &["go"]),
        summary("5", Some("Five"), &["5", "1", "50"], &[]),
        summary("6", Some("Six"), &["6", "1", "60"], &["go", "rust"]),
    ];
    let result = hacker_news(&page(&blocks), 10);
    assert_eq!(result.questions.len(), 5);
    assert_eq!(result.skipped, 1);
    let ids: Vec<i32> = result.questions.iter().map(|question| question.stack_id).collect();
    assert_eq!(ids, vec![1, 2, 4, 5, 6]);
    assert_eq!(result.unique_tags.remaining(&"rust".to_string()), 3);
    assert_eq!(result.unique_tags.remaining(&"go".to_string()), 2);
}

#[test]
fn test_page_fields_come_from_their_places() {
    let markup = page(&[summary("101", Some("Intro to Ownership"), &["12", "3", "1k"], &["rust", "memory"])]);
    let result = hacker_news(&markup, 10);
    assert_eq!(result.skipped, 0);
    assert_eq!(result.questions.len(), 1);
    let question = &result.questions[0];
    assert_eq!(question.title, "Intro to Ownership");
    assert_eq!(question.q_description, "About 101");
    assert_eq!(question.question_link, "/questions/101");
    assert_eq!(question.votes, 12);
    assert_eq!(question.answer, 3);
    assert_eq!(question.views, "1k");
    assert_eq!(question.stack_id, 101);
    assert_eq!(question.tags, texts(&["rust", "memory"]));
}

#[test]
fn test_page_limit_counts_blocks() {
    let blocks = vec![
        summary("1", None, &["1", "0", "10"], &[]),
        summary("2", Some("Two"), &["2", "1", "20"], &[]),
        summary("3", Some("Three"), &["3", "1", "30"], &[]),
    ];
    let markup = page(&blocks);
    let two = hacker_news(&markup, 2);
    assert_eq!(two.questions.len(), 1);
    assert_eq!(two.questions[0].stack_id, 2);
    assert_eq!(two.skipped, 1);
    let all = hacker_news(&markup, 3);
    assert_eq!(all.questions.len(), 2);
    assert_eq!(all.skipped, 1);
    let none = hacker_news(&markup, 0);
    assert_eq!(none.questions.len(), 0);
    assert_eq!(none.skipped, 0);
}

#[test]
fn test_page_without_blocks() {
    let result = hacker_news("<html><body><p class=\"post-tag\">rust</p></body></html>", 10);
    assert_eq!(result.questions.len(), 0);
    assert_eq!(result.skipped, 0);
    assert_eq!(result.unique_tags.len(), 0);
    let empty = hacker_news("", 10);
    assert_eq!(empty.questions.len(), 0);
    assert_eq!(empty.skipped, 0);
}

#[test]
fn test_page_block_with_bad_numbers_is_skipped() {
    let blocks = vec![
        summary("1", Some("One"), &["1.2k", "0", "10"], &["rust"]),
        summary("2", Some("Two"), &["2", "1"], &["rust"]),
        summary("x3", Some("Three"), &["3", "1", "30"], &["rust"]),
        summary("4", Some("Four"), &["4", "1", "40"], &["rust"]),
    ];
    let result = hacker_news(&page(&blocks), 10);
    assert_eq!(result.questions.len(), 1);
    assert_eq!(result.questions[0].stack_id, 4);
    assert_eq!(result.skipped, 3);
    assert_eq!(result.unique_tags.remaining(&"rust".to_string()), 1);
}

#[test]
fn test_page_title_link_without_target_is_skipped() {
    let markup = "<div class=\"s-post-summary\" data-post-id=\"8\">\
        <span class=\"s-post-summary--stats-item-number\">1</span>\
        <span class=\"s-post-summary--stats-item-number\">2</span>\
        <span class=\"s-post-summary--stats-item-number\">3</span>\
        <h3 class=\"s-post-summary--content-title\"><a>No target</a></h3>\
        <div class=\"s-post-summary--content-excerpt\">Text</div></div>";
    let result = hacker_news(markup, 10);
    assert_eq!(result.questions.len(), 0);
    assert_eq!(result.skipped, 1);
}

#[test]
fn test_page_title_is_the_link_inside_the_title_element() {
    let markup = "<div class=\"s-post-summary\" data-post-id=\"8\">\
        <a href=\"/elsewhere\">Not the title</a>\
        <span class=\"s-post-summary--stats-item-number\">1</span>\
        <span class=\"s-post-summary--stats-item-number\">2</span>\
        <span class=\"s-post-summary--stats-item-number\">3</span>\
        <h3 class=\"s-post-summary--content-title\"><span>Label</span><a href=\"/questions/8\">The <b>title</b></a></h3>\
        <div class=\"s-post-summary--content-excerpt\">First</div>\
        <div class=\"s-post-summary--content-excerpt\">Second</div></div>";
    let result = hacker_news(markup, 10);
    assert_eq!(result.questions.len(), 1);
    assert_eq!(result.questions[0].title, "The title");
    assert_eq!(result.questions[0].question_link, "/questions/8");
    assert_eq!(result.questions[0].q_description, "First");
}

#[test]
fn test_largest_markup_is_half_a_gibibyte() {
    assert_eq!(MAX_MARKUP, 512 * 1024 * 1024);
    assert!(3 * (MAX_MARKUP as u64) < (1u64 << 31));
}
