use question_scraper::error::AppError;
use question_scraper::coordinator::scrape_questions;
use question_scraper::ingest::{Ingestion, Report, TagPlan};
use question_scraper::models::{QuestionId, ScrapedQuestion, ScraperResult, TagId, TagQuestion};
use question_scraper::scraper::{extract, hacker_news, PostBlock};
use question_scraper::store::MemoryStore;
use question_scraper::tags::TagCounter;

fn text(value: &str) -> String {
    value.to_string()
}

fn question(id: i32, tags: &[&str]) -> ScrapedQuestion {
    ScrapedQuestion {
        title: format!("Question {}", id),
        q_description: format!("About {}", id),
        question_link: format!("/questions/{}", id),
        votes: 1,
        stack_id: id,
        views: text("10"),
        tags: tags.iter().map(|tag| tag.to_string()).collect(),
        answer: 0,
    }
}

fn block(id: i32, tags: &[&str]) -> PostBlock {
    PostBlock {
        excerpt: Some(format!("About {}", id)),
        title: Some(format!("Question {}", id)),
        link: Some(format!("/questions/{}", id)),
        stats: vec![text("1"), text("0"), text("10")],
        tags: tags.iter().map(|tag| tag.to_string()).collect(),
        post_id: Some(id.to_string()),
    }
}

fn page_of(blocks: Vec<PostBlock>) -> ScraperResult {
    extract(&blocks, 10)
}

fn two_posts() -> String {
    let post = |id: &str, title: &str, tags: &[&str]| -> String {
        let labels: Vec<String> =
            tags.iter().map(|tag| format!("<a class=\"post-tag\">{}</a>", tag)).collect();
        format!(
            "<div class=\"s-post-summary\" data-post-id=\"{}\">\
             <span class=\"s-post-summary--stats-item-number\">5</span>\
             <span class=\"s-post-summary--stats-item-number\">1</span>\
             <span class=\"s-post-summary--stats-item-number\">100</span>\
             <h3 class=\"s-post-summary--content-title\"><a href=\"/questions/{}\">{}</a></h3>\
             <div class=\"s-post-summary--content-excerpt\">Excerpt</div>{}</div>",
            id,
            id,
            title,
            labels.concat()
        )
    };
    format!(
        "<html><body>{}{}</body></html>",
        post("101", "Intro to Ownership", &["rust", "memory"]),
        post("102", "Async Basics", &["rust", "async"])
    )
}

fn zero() -> Report {
    Report {
        created: 0,
        duplicates: 0,
        failed: 0,
        linked: 0,
        repeated: 0,
        throttled: 0,
        unresolved: 0,
        unlinked: 0,
    }
}

#[test]
fn test_same_question_twice_is_stored_once() {
    let mut store = MemoryStore::new();
    let candidate = question(101, &["rust"]);
    let first = store.create_question_or_skip(&candidate).ok().unwrap();
    assert_eq!(first, Some(QuestionId { question_id: 1 }));
    let second = store.create_question_or_skip(&candidate).ok().unwrap();
    assert_eq!(second, None);
    assert_eq!(store.question_count(), 1);
    assert_eq!(store.question_id(101), Some(1));
    assert_eq!(store.edge_count(), 0);
}

#[test]
fn test_question_is_stored_as_it_is() {
    let mut store = MemoryStore::new();
    let mut candidate = question(101, &["rust", "memory"]);
    candidate.title = text("Intro to Ownership");
    candidate.q_description = text("How does ownership work?");
    candidate.question_link = text("/questions/101/intro");
    candidate.votes = 12;
    candidate.answer = 3;
    candidate.views = text("1k");
    assert_eq!(store.create_question_or_skip(&question(7, &[])).ok(), Some(Some(QuestionId { question_id: 1 })));
    assert_eq!(store.create_question_or_skip(&candidate).ok(), Some(Some(QuestionId { question_id: 2 })));
    let row = store.question(101).unwrap();
    assert_eq!(row.question_id, 2);
    assert_eq!(row.title, "Intro to Ownership");
    assert_eq!(row.q_description, "How does ownership work?");
    assert_eq!(row.question_link, "/questions/101/intro");
    assert_eq!((row.votes, row.answer, row.stack_id), (12, 3, 101));
    assert_eq!(row.views, "1k");
    assert!(store.question(102).is_none());
}

#[test]
fn test_second_attempt_does_not_update_the_question() {
    let mut store = MemoryStore::new();
    let mut first = question(101, &["rust"]);
    first.title = text("First title");
    let mut second = question(101, &["go"]);
    second.title = text("Second title");
    second.votes = 99;
    assert_eq!(store.create_question_or_skip(&first).ok(), Some(Some(QuestionId { question_id: 1 })));
    assert_eq!(store.create_question_or_skip(&second).ok(), Some(None));
    let row = store.question(101).unwrap();
    assert_eq!(row.title, "First title");
    assert_eq!(row.votes, 1);
    assert_eq!(store.question_count(), 1);
}

#[test]
fn test_every_tag_of_a_created_question_is_linked() {
    let mut store = MemoryStore::new();
    let report = scrape_questions(
        &mut store,
        page_of(vec![
            block(1, &["rust", "go", "c"]),
            block(2, &["rust"]),
            block(1, &["rust", "zig"]),
            block(3, &["c", "rust"]),
        ]),
    );
    assert_eq!(report.throttled, 0);
    assert_eq!(report.unresolved, 0);
    assert_eq!(report.created, 3);
    assert_eq!(report.duplicates, 1);
    assert_eq!(report.linked, 6);
    let rust = store.tag_id(&text("rust")).unwrap();
    let go = store.tag_id(&text("go")).unwrap();
    let c = store.tag_id(&text("c")).unwrap();
    assert_eq!(store.tag_id(&text("zig")), None);
    let first = store.question_id(1).unwrap();
    let second = store.question_id(2).unwrap();
    let third = store.question_id(3).unwrap();
    assert!(store.has_edge(first, rust) && store.has_edge(first, go) && store.has_edge(first, c));
    assert!(store.has_edge(second, rust));
    assert!(store.has_edge(third, c) && store.has_edge(third, rust));
    assert_eq!(store.edge_count(), 6);
}

#[test]
fn test_same_page_twice_changes_nothing() {
    let mut store = MemoryStore::new();
    let blocks = || vec![block(101, &["rust", "memory"]), block(102, &["rust", "async"])];
    let first = scrape_questions(&mut store, page_of(blocks()));
    assert_eq!(first.created, 2);
    assert_eq!(first.linked, 4);
    assert_eq!((store.question_count(), store.tag_count(), store.edge_count()), (2, 3, 4));
    let second = scrape_questions(&mut store, page_of(blocks()));
    assert_eq!(second, Report { duplicates: 2, ..zero() });
    assert_eq!((store.question_count(), store.tag_count(), store.edge_count()), (2, 3, 4));
}

#[test]
fn test_same_question_twice_on_one_page() {
    let mut store = MemoryStore::new();
    let report = scrape_questions(
        &mut store,
        page_of(vec![block(7, &["rust"]), block(7, &["rust", "go"])]),
    );
    assert_eq!(report.created, 1);
    assert_eq!(report.duplicates, 1);
    assert_eq!(report.linked, 1);
    assert_eq!(store.question_count(), 1);
    assert_eq!(store.tag_count(), 1);
    assert_eq!(store.edge_count(), 1);
}

#[test]
fn test_tag_resolves_to_the_same_identifier() {
    let mut store = MemoryStore::new();
    let rust = text("rust");
    let first = store.get_or_create_tag(&rust).ok().unwrap();
    let other = store.get_or_create_tag(&text("go")).ok().unwrap();
    let second = store.get_or_create_tag(&rust).ok().unwrap();
    assert_eq!(first, TagId { tag_id: 1 });
    assert_eq!(other, TagId { tag_id: 2 });
    assert_eq!(second, first);
    assert_eq!(store.tag_count(), 2);
    assert_eq!(store.tag_id(&rust), Some(1));
    assert_eq!(store.tag_id(&text("Rust")), None);
}

#[test]
fn test_tag_keeps_its_identifier_over_runs() {
    let mut store = MemoryStore::new();
    scrape_questions(&mut store, page_of(vec![block(1, &["go", "rust"])]));
    let before = store.tag_id(&text("rust"));
    assert_eq!(before, Some(2));
    scrape_questions(&mut store, page_of(vec![block(2, &["rust", "async"]), block(3, &["rust"])]));
    assert_eq!(store.tag_id(&text("rust")), before);
    assert_eq!(store.tag_id(&text("go")), Some(1));
    assert_eq!(store.tag_id(&text("async")), Some(3));
    assert_eq!(store.tag_count(), 3);
    assert!(store.has_edge(2, 2));
    assert!(store.has_edge(3, 2));
}

#[test]
fn test_run_keeps_the_first_identifier_of_a_tag() {
    let mut run = Ingestion::new(TagCounter::new());
    let rust = text("rust");
    assert_eq!(run.tag_resolved(&rust, &Ok(TagId { tag_id: 4 })), Some(4));
    assert_eq!(run.tag_resolved(&rust, &Ok(TagId { tag_id: 9 })), Some(4));
    assert_eq!(run.tag_resolved(&text("go"), &Err(AppError::db_error(text("down")))), None);
    assert_eq!(run.report().unresolved, 1);
}

#[test]
fn test_links_stay_within_the_occurrences_of_a_tag() {
    let mut counts = TagCounter::new();
    let rust = text("rust");
    counts.record(&rust);
    counts.record(&rust);
    let mut run = Ingestion::new(counts);
    assert_eq!(run.remaining(&rust), 2);
    assert_eq!(run.plan_tag(&rust), TagPlan::Resolve);
    assert_eq!(run.tag_resolved(&rust, &Ok(TagId { tag_id: 7 })), Some(7));
    assert_eq!(run.plan_tag(&rust), TagPlan::Link(7));
    assert_eq!(run.remaining(&rust), 0);
    assert_eq!(run.plan_tag(&rust), TagPlan::Skip);
    assert_eq!(run.plan_tag(&rust), TagPlan::Skip);
    assert_eq!(run.plan_tag(&text("go")), TagPlan::Skip);
    assert_eq!(run.report().throttled, 3);
    assert_eq!(run.remaining(&rust), 0);
}

#[test]
fn test_run_with_fewer_occurrences_than_questions() {
    let mut store = MemoryStore::new();
    let mut page = page_of(vec![block(1, &["rust"]), block(2, &["rust"]), block(3, &["rust"])]);
    assert_eq!(page.unique_tags.remaining(&text("rust")), 3);
    assert!(page.unique_tags.spend(&text("rust")));
    let report = scrape_questions(&mut store, page);
    assert_eq!(report.created, 3);
    assert_eq!(report.linked, 2);
    assert_eq!(report.throttled, 1);
    assert_eq!(store.edge_count(), 2);
    assert!(store.has_edge(1, 1));
    assert!(store.has_edge(2, 1));
    assert!(!store.has_edge(3, 1));
}

#[test]
fn test_two_posts_end_to_end() {
    let markup = two_posts();
    let mut store = MemoryStore::new();
    let page = hacker_news(&markup, 10);
    assert_eq!(page.questions.len(), 2);
    assert_eq!(page.questions[0].title, "Intro to Ownership");
    assert_eq!(page.questions[1].title, "Async Basics");
    assert_eq!(page.unique_tags.remaining(&text("rust")), 2);
    let report = scrape_questions(&mut store, page);
    assert_eq!(report, Report { created: 2, linked: 4, ..zero() });
    assert_eq!(store.question_count(), 2);
    assert_eq!(store.tag_count(), 3);
    assert_eq!(store.edge_count(), 4);
    let first = store.question_id(101).unwrap();
    let second = store.question_id(102).unwrap();
    let rust = store.tag_id(&text("rust")).unwrap();
    let memory = store.tag_id(&text("memory")).unwrap();
    let asynchronous = store.tag_id(&text("async")).unwrap();
    assert!(store.has_edge(first, rust));
    assert!(store.has_edge(second, rust));
    assert!(store.has_edge(first, memory));
    assert!(store.has_edge(second, asynchronous));
    assert!(!store.has_edge(second, memory));
    assert!(!store.has_edge(first, asynchronous));

    let again = scrape_questions(&mut store, hacker_news(&markup, 10));
    assert_eq!(again, Report { duplicates: 2, ..zero() });
    assert_eq!(store.question_count(), 2);
    assert_eq!(store.tag_count(), 3);
    assert_eq!(store.edge_count(), 4);
}

#[test]
fn test_link_is_made_once() {
    let mut store = MemoryStore::new();
    let edge = TagQuestion { tag_id: 3, question_id: 8 };
    assert_eq!(store.create_edge(&edge).ok(), Some(true));
    assert_eq!(store.create_edge(&edge).ok(), Some(false));
    assert_eq!(store.create_edge(&TagQuestion { tag_id: 8, question_id: 3 }).ok(), Some(true));
    assert_eq!(store.edge_count(), 2);
    assert!(store.has_edge(8, 3));
    assert!(store.has_edge(3, 8));
    assert!(!store.has_edge(3, 3));
}

#[test]
fn test_question_outcomes_are_counted() {
    let mut run = Ingestion::new(TagCounter::new());
    assert_eq!(run.question_done(&Ok(Some(QuestionId { question_id: 5 }))), Some(5));
    assert_eq!(run.question_done(&Ok(None)), None);
    assert_eq!(run.question_done(&Err(AppError::db_error(text("down")))), None);
    assert_eq!(run.question_done(&Ok(None)), None);
    assert_eq!(run.report(), Report { created: 1, duplicates: 2, failed: 1, ..zero() });
}

#[test]
fn test_edge_outcomes_are_counted() {
    let mut run = Ingestion::new(TagCounter::new());
    run.edge_done(&Ok(true));
    run.edge_done(&Ok(true));
    run.edge_done(&Ok(false));
    run.edge_done(&Err(AppError::db_error(text("down"))));
    assert_eq!(run.report(), Report { linked: 2, repeated: 1, unlinked: 1, ..zero() });
}

#[test]
fn test_skipped_question_gets_no_links() {
    let mut store = MemoryStore::new();
    scrape_questions(&mut store, page_of(vec![block(1, &[])]));
    let report = scrape_questions(&mut store, page_of(vec![block(1, &["rust", "go"])]));
    assert_eq!(report, Report { duplicates: 1, ..zero() });
    assert_eq!(store.tag_count(), 0);
    assert_eq!(store.edge_count(), 0);
}

#[test]
fn test_empty_store() {
    let store = MemoryStore::new();
    assert_eq!(store.question_count(), 0);
    assert_eq!(store.tag_count(), 0);
    assert_eq!(store.edge_count(), 0);
    assert_eq!(store.question_id(1), None);
    assert_eq!(question(1, &[]).stack_id, 1);
}
