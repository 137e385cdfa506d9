use http_server::pool::WorkerPool;
use http_server::request_handler::{handle_connection, success_response, Step};

#[test]
fn a_pool_needs_a_worker() {
    assert!(WorkerPool::<u32>::new(0).is_none());
    let pool = WorkerPool::<u32>::new(3).unwrap();
    assert_eq!(pool.workers(), 3);
    assert_eq!(pool.queued(), 0);
    for worker in 0..5 {
        assert!(!pool.is_busy(worker));
    }
}

#[test]
fn connections_go_to_the_lowest_idle_worker() {
    let mut pool = WorkerPool::new(3).unwrap();
    assert_eq!(pool.accept("a"), Some((0, "a")));
    assert_eq!(pool.accept("b"), Some((1, "b")));
    assert_eq!(pool.finished(0), None);
    assert!(!pool.is_busy(0));
    assert!(pool.is_busy(1));
    assert_eq!(pool.accept("c"), Some((0, "c")));
    assert_eq!(pool.accept("d"), Some((2, "d")));
    assert_eq!(pool.queued(), 0);
}

#[test]
fn connections_wait_while_every_worker_is_busy() {
    let mut pool = WorkerPool::new(2).unwrap();
    assert_eq!(pool.accept(10), Some((0, 10)));
    assert_eq!(pool.accept(11), Some((1, 11)));
    assert_eq!(pool.accept(12), None);
    assert_eq!(pool.accept(13), None);
    assert_eq!(pool.accept(14), None);
    assert_eq!(pool.queued(), 3);
    assert_eq!(pool.finished(1), Some(12));
    assert!(pool.is_busy(1));
    assert_eq!(pool.finished(1), Some(13));
    assert_eq!(pool.finished(0), Some(14));
    assert_eq!(pool.queued(), 0);
    assert_eq!(pool.finished(0), None);
    assert_eq!(pool.finished(1), None);
    assert!(!pool.is_busy(0));
    assert!(!pool.is_busy(1));
}

#[test]
fn idle_and_unknown_workers_finish_nothing() {
    let mut pool = WorkerPool::new(2).unwrap();
    assert_eq!(pool.accept('a'), Some((0, 'a')));
    assert_eq!(pool.accept('b'), Some((1, 'b')));
    assert_eq!(pool.accept('c'), None);
    assert_eq!(pool.finished(2), None);
    assert_eq!(pool.finished(usize::MAX), None);
    assert_eq!(pool.queued(), 1);
    assert_eq!(pool.finished(0), Some('c'));
    assert_eq!(pool.finished(1), None);
    assert_eq!(pool.finished(1), None);
    assert!(pool.is_busy(0));
    assert!(!pool.is_busy(1));
}

#[test]
fn more_requests_than_workers_are_all_answered_each_with_its_own_terms() {
    let workers = 4usize;
    let requests = 25usize;
    let mut pool = WorkerPool::new(workers).unwrap();
    let mut serving: Vec<Option<String>> = vec![None; workers];
    let mut answers: Vec<(String, String)> = Vec::new();

    for terms in 0..requests {
        let line = format!("GET /pi/{} HTTP/1.1", terms);
        if let Some((worker, line)) = pool.accept(line) {
            assert!(serving[worker].is_none());
            serving[worker] = Some(line);
        }
        assert!(serving.iter().filter(|s| s.is_some()).count() <= workers);
    }
    assert_eq!(pool.queued(), requests - workers);

    let mut turn = 0usize;
    while serving.iter().any(|s| s.is_some()) {
        let worker = (turn * 3) % workers;
        turn += 1;
        if let Some(line) = serving[worker].take() {
            let answer = match handle_connection(&[line.clone()]) {
                Step::Compute { terms } => success_response(terms, "3.14", "0.000"),
                Step::Respond { response } => response,
            };
            answers.push((line, String::from_utf8(answer).unwrap()));
            serving[worker] = pool.finished(worker);
        }
    }

    assert_eq!(answers.len(), requests);
    assert_eq!(pool.queued(), 0);
    for terms in 0..requests {
        let line = format!("GET /pi/{} HTTP/1.1", terms);
        let found: Vec<&(String, String)> = answers.iter().filter(|(l, _)| *l == line).collect();
        assert_eq!(found.len(), 1);
        assert!(found[0].1.starts_with("HTTP/1.1 200 OK\r\n"));
        assert!(found[0].1.contains(&format!(" using {} terms is: ", terms)));
    }
}
