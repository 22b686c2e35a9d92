use question_scraper::coordinator::{Action, Coordinator, Event};
use question_scraper::error::AppError;
use question_scraper::ingest::Report;
use question_scraper::models::{QuestionId, ScraperResult, TagId};
use question_scraper::scraper::{extract, PostBlock};

fn block(id: i32, tags: &[&str]) -> PostBlock {
    PostBlock {
        excerpt: Some(format!("About {}", id)),
        title: Some(format!("Question {}", id)),
        link: Some(format!("/questions/{}", id)),
        stats: vec!["1".to_string(), "0".to_string(), "10".to_string()],
        tags: tags.iter().map(|tag| tag.to_string()).collect(),
        post_id: Some(id.to_string()),
    }
}

fn page_of(blocks: Vec<PostBlock>) -> ScraperResult {
    extract(&blocks, 10)
}

fn zero() -> Report {
    Report {
        created: 0,
        duplicates: 0,
        failed: 0,
        linked: 0,
        repeated: 0,
        throttled: 0,
        unresolved: 0,
        unlinked: 0,
    }
}

fn down() -> AppError {
    AppError::db_error("down".to_string())
}

fn created(id: i32) -> Event {
    Event::Inserted(Ok(Some(QuestionId { question_id: id })))
}

fn resolved(id: i32) -> Event {
    Event::Resolved(Ok(TagId { tag_id: id }))
}

fn asks_insert(action: &Action, place: usize) -> bool {
    matches!(action, Action::Insert(found) if *found == place)
}

fn asks_resolve(action: &Action, tag: &str) -> bool {
    matches!(action, Action::Resolve(found) if found == tag)
}

fn asks_link(action: &Action, question_id: i32, tag_id: i32) -> bool {
    matches!(action, Action::Link(edge) if edge.question_id == question_id && edge.tag_id == tag_id)
}

#[test]
fn test_empty_page_is_done_at_once() {
    let (mut coordinator, action) = Coordinator::start(page_of(Vec::new()));
    assert!(matches!(action, Action::Done));
    assert_eq!(coordinator.len(), 0);
    assert!(matches!(coordinator.step(created(1)), Action::Done));
    assert_eq!(coordinator.report(), zero());
}

#[test]
fn test_coordinator_walks_questions_and_tags_in_order() {
    let page = page_of(vec![block(101, &["rust", "memory"]), block(102, &["rust", "async"])]);
    let (mut coordinator, action) = Coordinator::start(page);
    assert!(asks_insert(&action, 0));
    assert_eq!(coordinator.question(0).stack_id, 101);
    let action = coordinator.step(created(7));
    assert!(asks_resolve(&action, "rust"));
    let action = coordinator.step(resolved(3));
    assert!(asks_link(&action, 7, 3));
    let action = coordinator.step(Event::Linked(Ok(true)));
    assert!(asks_resolve(&action, "memory"));
    let action = coordinator.step(resolved(4));
    assert!(asks_link(&action, 7, 4));
    let action = coordinator.step(Event::Linked(Ok(true)));
    assert!(asks_insert(&action, 1));
    assert_eq!(coordinator.question(1).stack_id, 102);
    let action = coordinator.step(created(8));
    assert!(asks_link(&action, 8, 3));
    let action = coordinator.step(Event::Linked(Ok(false)));
    assert!(asks_resolve(&action, "async"));
    let action = coordinator.step(resolved(5));
    assert!(asks_link(&action, 8, 5));
    let action = coordinator.step(Event::Linked(Ok(true)));
    assert!(matches!(action, Action::Done));
    assert!(matches!(coordinator.step(Event::Linked(Ok(true))), Action::Done));
    assert_eq!(coordinator.report(), Report { created: 2, linked: 3, repeated: 1, ..zero() });
}

#[test]
fn test_duplicate_question_gets_no_tags() {
    let page = page_of(vec![block(1, &["rust"]), block(2, &["go"])]);
    let (mut coordinator, action) = Coordinator::start(page);
    assert!(asks_insert(&action, 0));
    let action = coordinator.step(Event::Inserted(Ok(None)));
    assert!(asks_insert(&action, 1));
    let action = coordinator.step(Event::Inserted(Ok(None)));
    assert!(matches!(action, Action::Done));
    assert_eq!(coordinator.report(), Report { duplicates: 2, ..zero() });
}

#[test]
fn test_failures_cost_only_what_they_strike() {
    let page = page_of(vec![block(1, &["rust"]), block(2, &["rust", "go", "c"]), block(3, &[])]);
    let (mut coordinator, action) = Coordinator::start(page);
    assert!(asks_insert(&action, 0));
    let action = coordinator.step(Event::Inserted(Err(down())));
    assert!(asks_insert(&action, 1));
    let action = coordinator.step(created(20));
    assert!(asks_resolve(&action, "rust"));
    let action = coordinator.step(Event::Resolved(Err(down())));
    assert!(asks_resolve(&action, "go"));
    let action = coordinator.step(resolved(6));
    assert!(asks_link(&action, 20, 6));
    let action = coordinator.step(Event::Linked(Err(down())));
    assert!(asks_resolve(&action, "c"));
    let action = coordinator.step(resolved(9));
    assert!(asks_link(&action, 20, 9));
    let action = coordinator.step(Event::Linked(Ok(true)));
    assert!(asks_insert(&action, 2));
    let action = coordinator.step(created(21));
    assert!(matches!(action, Action::Done));
    assert_eq!(
        coordinator.report(),
        Report { created: 2, failed: 1, linked: 1, unresolved: 1, unlinked: 1, ..zero() }
    );
}

#[test]
fn test_answer_of_another_kind_counts_as_failure() {
    let page = page_of(vec![block(1, &["rust"]), block(2, &["rust"])]);
    let (mut coordinator, action) = Coordinator::start(page);
    assert!(asks_insert(&action, 0));
    let action = coordinator.step(resolved(1));
    assert!(asks_insert(&action, 1));
    let action = coordinator.step(created(5));
    assert!(asks_resolve(&action, "rust"));
    let action = coordinator.step(Event::Linked(Ok(true)));
    assert!(matches!(action, Action::Done));
    assert_eq!(coordinator.report(), Report { created: 1, failed: 1, unresolved: 1, ..zero() });
}

#[test]
fn test_coordinator_asks_no_more_links_than_a_tag_occurs() {
    let mut page = page_of(vec![
        block(1, &["rust", "go"]),
        block(2, &["rust"]),
        block(3, &["go", "rust"]),
    ]);
    assert!(page.unique_tags.spend(&"rust".to_string()));
    assert!(page.unique_tags.spend(&"rust".to_string()));
    let (mut coordinator, mut action) = Coordinator::start(page);
    let mut rust_links = 0;
    let mut go_links = 0;
    let mut next_question = 10;
    loop {
        let event = match action {
            Action::Done => break,
            Action::Insert(_) => {
                next_question += 1;
                created(next_question)
            }
            Action::Resolve(tag) => resolved(if tag == "rust" { 1 } else { 2 }),
            Action::Link(edge) => {
                if edge.tag_id == 1 {
                    rust_links += 1;
                } else {
                    go_links += 1;
                }
                Event::Linked(Ok(true))
            }
        };
        action = coordinator.step(event);
    }
    assert_eq!(rust_links, 1);
    assert_eq!(go_links, 2);
    assert_eq!(coordinator.report(), Report { created: 3, linked: 3, throttled: 2, ..zero() });
}
