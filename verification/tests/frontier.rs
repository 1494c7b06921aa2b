use polzat::frontier::{FrontierError, PriorityFrontier};
use polzat::{FetcherType, LinkExtractorType, Operation, PolzatTask, UrlType};

fn task(priority: u8, url: &str) -> PolzatTask {
    PolzatTask::new(
        7,
        priority,
        url.to_owned(),
        UrlType::Web,
        Operation::Scrape,
        FetcherType::LibCurl,
        LinkExtractorType::Web,
    )
}

#[test]
fn task_keeps_the_fields_it_was_made_with() {
    let made = PolzatTask::new(
        42,
        200,
        "http://example.org/a".to_owned(),
        UrlType::TorHiddenService,
        Operation::Crawl,
        FetcherType::LibCurl,
        LinkExtractorType::Web,
    );
    assert_eq!(made.execution_id, 42);
    assert_eq!(made.priority, 200);
    assert_eq!(made.url, "http://example.org/a");
    assert_eq!(made.url_type, UrlType::TorHiddenService);
    assert_eq!(made.operation, Operation::Crawl);
    assert_eq!(made.fetcher_type, FetcherType::LibCurl);
    assert_eq!(made.link_extractor_type, LinkExtractorType::Web);
}

#[test]
fn pops_follow_priority_then_arrival() {
    let mut frontier = PriorityFrontier::new();
    assert_eq!(frontier.push(task(5, "A")), Ok(()));
    assert_eq!(frontier.push(task(9, "B")), Ok(()));
    assert_eq!(frontier.push(task(5, "C")), Ok(()));
    assert_eq!(frontier.pop().unwrap().url, "B");
    assert_eq!(frontier.pop().unwrap().url, "A");
    assert_eq!(frontier.pop().unwrap().url, "C");
    assert_eq!(frontier.pop(), None);
}

#[test]
fn pop_returns_the_whole_task() {
    let mut frontier = PriorityFrontier::new();
    let pushed = task(3, "http://example.org/");
    assert_eq!(frontier.push(pushed.clone()), Ok(()));
    assert_eq!(frontier.pop(), Some(pushed));
}

#[test]
fn empty_pop_returns_nothing_and_changes_nothing() {
    let mut frontier = PriorityFrontier::new();
    assert_eq!(frontier.len(), 0);
    assert_eq!(frontier.pop(), None);
    assert_eq!(frontier.pop(), None);
    assert_eq!(frontier.len(), 0);
    assert_eq!(frontier.push(task(1, "A")), Ok(()));
    assert_eq!(frontier.pop().unwrap().url, "A");
    assert_eq!(frontier.pop(), None);
    assert_eq!(frontier.pop(), None);
    assert_eq!(frontier.len(), 0);
}

#[test]
fn len_counts_pushes_minus_pops() {
    let mut frontier = PriorityFrontier::new();
    for i in 0..10u8 {
        assert_eq!(frontier.push(task(i % 3, "x")), Ok(()));
        assert_eq!(frontier.len(), usize::from(i) + 1);
    }
    for popped in 1..=4usize {
        assert!(frontier.pop().is_some());
        assert_eq!(frontier.len(), 10 - popped);
    }
    assert_eq!(frontier.len(), 6);
}

#[test]
fn equal_priorities_leave_in_arrival_order() {
    let mut frontier = PriorityFrontier::new();
    let names = ["a", "b", "c", "d", "e", "f", "g", "h"];
    for name in names.iter() {
        assert_eq!(frontier.push(task(4, name)), Ok(()));
    }
    for name in names.iter() {
        assert_eq!(frontier.pop().unwrap().url, *name);
    }
    assert_eq!(frontier.pop(), None);
}

#[test]
fn duplicates_are_kept() {
    let mut frontier = PriorityFrontier::new();
    assert_eq!(frontier.push(task(2, "same")), Ok(()));
    assert_eq!(frontier.push(task(2, "same")), Ok(()));
    assert_eq!(frontier.len(), 2);
    assert_eq!(frontier.pop(), Some(task(2, "same")));
    assert_eq!(frontier.pop(), Some(task(2, "same")));
    assert_eq!(frontier.pop(), None);
}

#[test]
fn many_pushes_come_out_as_a_stable_sort() {
    let mut frontier = PriorityFrontier::new();
    let mut expected: Vec<(u8, usize)> = Vec::new();
    let mut state: u32 = 12345;
    for i in 0..500usize {
        state = state.wrapping_mul(1103515245).wrapping_add(12345);
        let priority = ((state >> 16) % 7) as u8;
        expected.push((priority, i));
        assert_eq!(frontier.push(task(priority, &format!("{}", i))), Ok(()));
    }
    expected.sort_by(|a, b| b.0.cmp(&a.0).then(a.1.cmp(&b.1)));
    assert_eq!(frontier.len(), 500);
    for (priority, i) in expected {
        let popped = frontier.pop().unwrap();
        assert_eq!(popped.priority, priority);
        assert_eq!(popped.url, format!("{}", i));
    }
    assert_eq!(frontier.pop(), None);
}

#[test]
fn pushes_between_pops_keep_the_order() {
    let mut frontier = PriorityFrontier::new();
    assert_eq!(frontier.push(task(1, "low")), Ok(()));
    assert_eq!(frontier.push(task(8, "high")), Ok(()));
    assert_eq!(frontier.pop().unwrap().url, "high");
    assert_eq!(frontier.push(task(8, "late high")), Ok(()));
    assert_eq!(frontier.push(task(1, "late low")), Ok(()));
    assert_eq!(frontier.push(task(0, "lowest")), Ok(()));
    assert_eq!(frontier.push(task(255, "top")), Ok(()));
    assert_eq!(frontier.pop().unwrap().url, "top");
    assert_eq!(frontier.pop().unwrap().url, "late high");
    assert_eq!(frontier.pop().unwrap().url, "low");
    assert_eq!(frontier.pop().unwrap().url, "late low");
    assert_eq!(frontier.pop().unwrap().url, "lowest");
    assert_eq!(frontier.pop(), None);
}

#[test]
fn bounded_frontier_refuses_when_full() {
    let mut frontier = PriorityFrontier::with_capacity(1);
    assert_eq!(frontier.push(task(1, "A")), Ok(()));
    assert_eq!(frontier.push(task(2, "B")), Err(FrontierError::Full));
    assert_eq!(frontier.len(), 1);
    assert_eq!(frontier.pop().unwrap().url, "A");
    assert_eq!(frontier.push(task(2, "B")), Ok(()));
    assert_eq!(frontier.len(), 1);
}

#[test]
fn bound_of_zero_refuses_everything() {
    let mut frontier = PriorityFrontier::with_capacity(0);
    assert_eq!(frontier.push(task(1, "A")), Err(FrontierError::Full));
    assert_eq!(frontier.len(), 0);
    assert_eq!(frontier.pop(), None);
}

#[test]
fn unbounded_frontier_never_refuses() {
    let mut frontier = PriorityFrontier::new();
    for _ in 0..2000 {
        assert_eq!(frontier.push(task(9, "x")), Ok(()));
    }
    assert_eq!(frontier.len(), 2000);
}
