use spyglass::address::canonicalize;
use spyglass::catalog::ReconcileError;
use spyglass::engine::{Engine, FetchOutcome, FetchedPage};
use spyglass::index::text_contains;
use spyglass::limits::{Limit, Limits};
use spyglass::queue::{CrawlQueue, CrawlStatus, EnqueueError, TransitionError};
use spyglass::scope::Boundary;
use spyglass::topology::{ManagerAction, ManagerEvent, ManagerState, WorkerAction, WorkerEvent, WorkerState};

fn limits(global: Limit, per_domain: Limit) -> Limits {
    Limits { global, per_domain }
}

fn page(url: &str, content: Option<&str>, links: &[&str]) -> FetchOutcome {
    FetchOutcome::Fetched(FetchedPage {
        url: url.to_string(),
        title: Some("Title".to_string()),
        description: None,
        content: content.map(|c| c.to_string()),
        links: links.iter().map(|l| l.to_string()).collect(),
    })
}

#[test]
fn canonical_form_drops_default_port_and_trailing_slash() {
    let c = canonicalize("HTTPS://X.Test:443/").unwrap();
    assert_eq!(c.url, "https://x.test");
    assert_eq!(c.domain, "x.test");
    let d = canonicalize("https://x.test/a/b/").unwrap();
    assert_eq!(d.url, "https://x.test/a/b");
    assert!(canonicalize("not a url").is_none());
    assert!(canonicalize("mailto:someone@x.test").is_none());
}

#[test]
fn enqueue_dedups_equivalent_urls() {
    let mut q = CrawlQueue::new();
    let b = Boundary::open();
    assert_eq!(q.enqueue("https://a.test/x/", false, &b, 1), Ok(Some(0)));
    assert_eq!(q.enqueue("https://a.test/x", false, &b, 2), Ok(None));
    assert_eq!(q.enqueue("https://A.test:443/x", false, &b, 3), Ok(None));
    assert_eq!(q.len(), 1);
    let t = q.get(0).unwrap();
    assert_eq!(t.url, "https://a.test/x");
    assert_eq!(t.domain, "a.test");
    assert_eq!(t.status, CrawlStatus::Queued);
    assert_eq!(t.created_at, 1);
}

#[test]
fn force_crawl_bypasses_dedup() {
    let mut q = CrawlQueue::new();
    let b = Boundary::open();
    assert_eq!(q.enqueue("https://a.test/x", false, &b, 1), Ok(Some(0)));
    assert_eq!(q.enqueue("https://a.test/x", true, &b, 2), Ok(Some(1)));
    assert!(q.get(1).unwrap().force_crawl);
}

#[test]
fn completed_url_is_not_requeued_but_failed_is() {
    let mut q = CrawlQueue::new();
    let b = Boundary::open();
    let l = limits(Limit::Unbounded, Limit::Unbounded);
    q.enqueue("https://a.test/done", false, &b, 1).unwrap();
    q.enqueue("https://a.test/fail", false, &b, 2).unwrap();
    q.dequeue(&l, 3).unwrap();
    q.dequeue(&l, 3).unwrap();
    assert_eq!(q.mark_done(0, true, 4), Ok(()));
    assert_eq!(q.mark_done(1, false, 4), Ok(()));
    assert_eq!(q.enqueue("https://a.test/done", false, &b, 5), Ok(None));
    assert_eq!(q.enqueue("https://a.test/fail", false, &b, 5), Ok(Some(2)));
}

#[test]
fn enqueue_rejects_invalid_and_excluded() {
    let mut q = CrawlQueue::new();
    let only = Boundary::only(vec!["a.test".to_string()]);
    assert_eq!(q.enqueue("::nope", false, &only, 1), Err(EnqueueError::InvalidUrl));
    assert_eq!(q.enqueue("mailto:x@a.test", false, &only, 1), Err(EnqueueError::InvalidUrl));
    assert_eq!(q.enqueue("https://b.test/", false, &only, 1), Err(EnqueueError::DomainExcluded));
    assert_eq!(q.enqueue("https://a.test/", false, &only, 1), Ok(Some(0)));
    assert_eq!(q.len(), 1);
}

#[test]
fn domain_limit_saturates_before_global() {
    let mut q = CrawlQueue::new();
    let b = Boundary::open();
    for u in ["https://a.test/u1", "https://a.test/u2", "https://a.test/u3"] {
        q.enqueue(u, false, &b, 10).unwrap();
    }
    let l = limits(Limit::Finite(2), Limit::Finite(1));
    let first = q.dequeue(&l, 11).unwrap();
    assert_eq!(first.url, "https://a.test/u1");
    assert_eq!(first.status, CrawlStatus::Processing);
    assert_eq!(q.get(0).unwrap().status, CrawlStatus::Processing);
    assert!(q.dequeue(&l, 12).is_none());
    assert_eq!(q.get(1).unwrap().status, CrawlStatus::Queued);
}

#[test]
fn global_limit_caps_all_domains() {
    let mut q = CrawlQueue::new();
    let b = Boundary::open();
    q.enqueue("https://a.test/", false, &b, 1).unwrap();
    q.enqueue("https://b.test/", false, &b, 1).unwrap();
    q.enqueue("https://c.test/", false, &b, 1).unwrap();
    let l = limits(Limit::Finite(2), Limit::Finite(5));
    assert_eq!(q.dequeue(&l, 2).unwrap().id, 0);
    assert_eq!(q.dequeue(&l, 2).unwrap().id, 1);
    assert!(q.dequeue(&l, 2).is_none());
    q.mark_done(0, true, 3).unwrap();
    assert_eq!(q.dequeue(&l, 4).unwrap().id, 2);
}

#[test]
fn dequeue_takes_oldest_then_first_inserted() {
    let mut q = CrawlQueue::new();
    let b = Boundary::open();
    q.enqueue("https://a.test/late", false, &b, 50).unwrap();
    q.enqueue("https://b.test/early", false, &b, 20).unwrap();
    q.enqueue("https://c.test/early2", false, &b, 20).unwrap();
    let l = limits(Limit::Unbounded, Limit::Unbounded);
    assert_eq!(q.dequeue(&l, 60).unwrap().id, 1);
    assert_eq!(q.dequeue(&l, 60).unwrap().id, 2);
    assert_eq!(q.dequeue(&l, 60).unwrap().id, 0);
    assert!(q.dequeue(&l, 60).is_none());
}

#[test]
fn dequeue_skips_saturated_domain_for_another() {
    let mut q = CrawlQueue::new();
    let b = Boundary::open();
    q.enqueue("https://a.test/1", false, &b, 1).unwrap();
    q.enqueue("https://a.test/2", false, &b, 2).unwrap();
    q.enqueue("https://b.test/1", false, &b, 3).unwrap();
    let l = limits(Limit::Finite(10), Limit::Finite(1));
    assert_eq!(q.dequeue(&l, 4).unwrap().id, 0);
    assert_eq!(q.dequeue(&l, 4).unwrap().id, 2);
    assert!(q.dequeue(&l, 4).is_none());
}

#[test]
fn zero_limit_blocks_everything() {
    let mut q = CrawlQueue::new();
    q.enqueue("https://a.test/", false, &Boundary::open(), 1).unwrap();
    assert!(q.dequeue(&limits(Limit::Finite(0), Limit::Unbounded), 2).is_none());
    assert!(q.dequeue(&limits(Limit::Unbounded, Limit::Finite(0)), 2).is_none());
    assert_eq!(Limit::Unbounded.bound(), u64::MAX);
    assert_eq!(Limit::Finite(7).bound(), 7);
}

#[test]
fn stale_transitions_are_reported() {
    let mut q = CrawlQueue::new();
    q.enqueue("https://a.test/", false, &Boundary::open(), 1).unwrap();
    assert_eq!(q.mark_done(0, true, 2), Err(TransitionError::StaleTransition));
    assert_eq!(q.mark_processing(5, 2), Err(TransitionError::StaleTransition));
    assert_eq!(q.mark_processing(0, 2), Ok(()));
    assert_eq!(q.mark_processing(0, 3), Err(TransitionError::StaleTransition));
    assert_eq!(q.mark_done(0, false, 4), Ok(()));
    let t = q.get(0).unwrap();
    assert_eq!(t.status, CrawlStatus::Failed);
    assert_eq!(t.updated_at, 4);
    assert_eq!(t.created_at, 1);
}

#[test]
fn reconcile_leaves_one_searchable_entry() {
    let mut e = Engine::new();
    let r = e.reconcile("https://x.test/page", "Hello".to_string(), "d".to_string(), "rust verification".to_string(), 1);
    assert_eq!(r, Ok(()));
    let hits = e.search("verif");
    assert_eq!(hits.len(), 1);
    assert_eq!(hits[0].url, "https://x.test/page");
    assert_eq!(hits[0].domain, "x.test");
    assert_eq!(e.search("Hello").len(), 1);
    assert_eq!(e.search("absent").len(), 0);
    let rec = e.catalog().record_for("https://x.test/page/").unwrap();
    assert_eq!(rec.doc_id, hits[0].id);
}

#[test]
fn reconcile_twice_keeps_one_entry() {
    let mut e = Engine::new();
    e.reconcile("https://x.test/a", "T".to_string(), String::new(), "same text".to_string(), 1).unwrap();
    e.reconcile("https://x.test/a", "T".to_string(), String::new(), "same text".to_string(), 2).unwrap();
    assert_eq!(e.status().total_indexed_count, 1);
    let hits = e.search("same");
    assert_eq!(hits.len(), 1);
    assert_eq!(hits[0].id, 1);
    let rec = e.catalog().record_for("https://x.test/a").unwrap();
    assert_eq!(rec.id, 0);
    assert_eq!(rec.doc_id, 1);
    assert_eq!(rec.created_at, 1);
    assert_eq!(rec.updated_at, 2);
}

#[test]
fn reconcile_replaces_stale_content() {
    let mut e = Engine::new();
    e.reconcile("https://x.test/a", String::new(), String::new(), "old words".to_string(), 1).unwrap();
    e.reconcile("https://y.test/b", String::new(), String::new(), "other words".to_string(), 1).unwrap();
    e.reconcile("https://x.test/a", String::new(), String::new(), "new words".to_string(), 2).unwrap();
    assert_eq!(e.catalog().record_for("https://x.test/a").unwrap().id, 0);
    assert_eq!(e.catalog().record_for("https://y.test/b").unwrap().id, 1);
    assert_eq!(e.catalog().record_for("https://x.test/a").unwrap().doc_id, 2);
    assert_eq!(e.search("old").len(), 0);
    assert_eq!(e.search("new").len(), 1);
    assert_eq!(e.search("words").len(), 2);
}

#[test]
fn reconcile_rejects_invalid_url() {
    let mut e = Engine::new();
    let r = e.reconcile("nope", String::new(), String::new(), "x".to_string(), 1);
    assert_eq!(r, Err(ReconcileError::InvalidUrl));
    assert_eq!(e.status().total_indexed_count, 0);
}

#[test]
fn removed_document_is_not_found() {
    let mut e = Engine::new();
    e.reconcile("https://x.test/a", String::new(), String::new(), "needle haystack".to_string(), 1).unwrap();
    assert!(e.remove("https://x.test/a/"));
    assert_eq!(e.search("needle").len(), 0);
    assert_eq!(e.search("haystack").len(), 0);
    assert!(!e.remove("https://x.test/a"));
    assert!(e.catalog().record_for("https://x.test/a").is_none());
}

#[test]
fn worker_fetch_enqueues_links_and_indexes() {
    let mut e = Engine::new();
    let b = Boundary::open();
    let l = limits(Limit::Unbounded, Limit::Unbounded);
    e.submit("https://x.test/page", false, &b, 1).unwrap();
    let (ms, act) = e.manager_step(ManagerState::Running, ManagerEvent::Tick, &l, 2);
    assert_eq!(ms, ManagerState::Running);
    let task = match act {
        ManagerAction::Dispatch(t) => t,
        _ => panic!("expected a dispatch"),
    };
    let (ws, act) = e.worker_step(WorkerState::Ready, WorkerEvent::Received(Some(task)), &b, 3);
    assert_eq!(ws, WorkerState::Busy { task_id: 0, stopping: false });
    match act {
        WorkerAction::Fetch { task_id, url } => {
            assert_eq!(task_id, 0);
            assert_eq!(url, "https://x.test/page");
        }
        _ => panic!("expected a fetch"),
    }
    let fetched = page("https://x.test/page", Some("body text"), &["https://x.test/one", "https://y.test/two"]);
    let (ws, act) = e.worker_step(ws, WorkerEvent::Fetched(fetched), &b, 4);
    assert_eq!(ws, WorkerState::Ready);
    match act {
        WorkerAction::Finished(f) => {
            assert_eq!(f.transition, Ok(()));
            assert_eq!(f.indexed, Some(Ok(())));
        }
        _ => panic!("expected a finished task"),
    }
    let tasks = e.queue().list();
    assert_eq!(tasks.len(), 3);
    assert_eq!(tasks[0].status, CrawlStatus::Completed);
    assert_eq!(tasks[1].url, "https://x.test/one");
    assert_eq!(tasks[1].status, CrawlStatus::Queued);
    assert_eq!(tasks[2].url, "https://y.test/two");
    assert_eq!(tasks[2].status, CrawlStatus::Queued);
    assert!(e.catalog().record_for("https://x.test/page").is_some());
    assert_eq!(e.catalog().num_docs(), 1);
}

#[test]
fn failed_fetch_marks_task_failed() {
    let mut e = Engine::new();
    let b = Boundary::open();
    e.submit("https://x.test/page", false, &b, 1).unwrap();
    let t = e.dequeue(&limits(Limit::Unbounded, Limit::Unbounded), 2).unwrap();
    let f = e.finish_task(t.id, FetchOutcome::Failed, &b, 3);
    assert_eq!(f.transition, Ok(()));
    assert_eq!(f.indexed, None);
    assert_eq!(e.queue().get(0).unwrap().status, CrawlStatus::Failed);
    assert_eq!(e.status().total_indexed_count, 0);
}

#[test]
fn fetch_without_content_is_not_indexed() {
    let mut e = Engine::new();
    let b = Boundary::only(vec!["x.test".to_string()]);
    e.submit("https://x.test/file.pdf", false, &b, 1).unwrap();
    let t = e.dequeue(&limits(Limit::Unbounded, Limit::Unbounded), 2).unwrap();
    let f = e.finish_task(t.id, page("https://x.test/file.pdf", None, &["https://z.test/out", "bad link"]), &b, 3);
    assert_eq!(f.indexed, None);
    assert_eq!(e.queue().len(), 1);
    assert_eq!(e.queue().get(0).unwrap().status, CrawlStatus::Completed);
}

#[test]
fn paused_worker_takes_no_task() {
    let mut e = Engine::new();
    let b = Boundary::open();
    let l = limits(Limit::Unbounded, Limit::Unbounded);
    e.submit("https://x.test/a", false, &b, 1).unwrap();
    e.set_paused(true);
    assert!(e.status().paused);
    let (ws, act) = e.worker_step(WorkerState::Ready, WorkerEvent::Turn, &b, 2);
    assert_eq!(ws, WorkerState::Ready);
    assert!(matches!(act, WorkerAction::Pause));
    let (_, act) = e.manager_step(ManagerState::Running, ManagerEvent::Tick, &l, 3);
    assert!(matches!(act, ManagerAction::Dispatch(_)));
    let (_, act) = e.worker_step(WorkerState::Ready, WorkerEvent::Turn, &b, 4);
    assert!(matches!(act, WorkerAction::Pause));
    e.set_paused(false);
    assert!(!e.is_paused());
    let (_, act) = e.worker_step(WorkerState::Ready, WorkerEvent::Turn, &b, 5);
    assert!(matches!(act, WorkerAction::Receive));
}

#[test]
fn shutdown_lets_fetch_in_flight_finish() {
    let mut e = Engine::new();
    let b = Boundary::open();
    e.submit("https://x.test/a", false, &b, 1).unwrap();
    let t = e.dequeue(&limits(Limit::Unbounded, Limit::Unbounded), 2).unwrap();
    let (ws, _) = e.worker_step(WorkerState::Ready, WorkerEvent::Received(Some(t)), &b, 3);
    let (ws, act) = e.worker_step(ws, WorkerEvent::Shutdown, &b, 4);
    assert_eq!(ws, WorkerState::Busy { task_id: 0, stopping: true });
    assert!(matches!(act, WorkerAction::AwaitFetch));
    assert_eq!(e.queue().get(0).unwrap().status, CrawlStatus::Processing);
    let (ws, act) = e.worker_step(ws, WorkerEvent::Fetched(page("https://x.test/a", Some("x"), &[])), &b, 5);
    assert_eq!(ws, WorkerState::Stopped);
    assert!(matches!(act, WorkerAction::Finished(_)));
    assert_eq!(e.queue().get(0).unwrap().status, CrawlStatus::Completed);
    assert_eq!(e.status().processing_count, 0);
    let (ws, act) = e.worker_step(ws, WorkerEvent::Turn, &b, 6);
    assert_eq!(ws, WorkerState::Stopped);
    assert!(matches!(act, WorkerAction::Exit));
}

#[test]
fn manager_stops_on_shutdown_or_closed_channel() {
    let mut e = Engine::new();
    let l = limits(Limit::Unbounded, Limit::Unbounded);
    let (s, a) = e.manager_step(ManagerState::Running, ManagerEvent::Shutdown, &l, 1);
    assert_eq!(s, ManagerState::Stopped);
    assert!(matches!(a, ManagerAction::Exit));
    let (s, a) = e.manager_step(ManagerState::Running, ManagerEvent::ChannelClosed, &l, 1);
    assert_eq!(s, ManagerState::Stopped);
    assert!(matches!(a, ManagerAction::Exit));
    let (s, a) = e.manager_step(ManagerState::Running, ManagerEvent::Tick, &l, 1);
    assert_eq!(s, ManagerState::Running);
    assert!(matches!(a, ManagerAction::Wait));
}

#[test]
fn worker_exits_on_shutdown_or_closed_channel() {
    let mut e = Engine::new();
    let b = Boundary::open();
    let (s, a) = e.worker_step(WorkerState::Ready, WorkerEvent::Shutdown, &b, 1);
    assert_eq!(s, WorkerState::Stopped);
    assert!(matches!(a, WorkerAction::Exit));
    let (s, a) = e.worker_step(WorkerState::Ready, WorkerEvent::Received(None), &b, 1);
    assert_eq!(s, WorkerState::Stopped);
    assert!(matches!(a, WorkerAction::Exit));
}

#[test]
fn status_counts_queue_and_index() {
    let mut e = Engine::new();
    let b = Boundary::open();
    e.submit("https://a.test/1", false, &b, 1).unwrap();
    e.submit("https://a.test/2", false, &b, 1).unwrap();
    e.submit("https://a.test/3", false, &b, 1).unwrap();
    e.dequeue(&limits(Limit::Unbounded, Limit::Unbounded), 2).unwrap();
    e.reconcile("https://a.test/9", String::new(), String::new(), "c".to_string(), 3).unwrap();
    let s = e.status();
    assert_eq!(s.queued_count, 2);
    assert_eq!(s.processing_count, 1);
    assert_eq!(s.total_indexed_count, 1);
    assert!(!s.paused);
}

#[test]
fn submit_stamps_with_given_time() {
    let mut e = Engine::new();
    let b = Boundary::open();
    assert_eq!(e.submit("https://a.test/", false, &b, 42), Ok(Some(0)));
    assert_eq!(e.submit("https://a.test", false, &b, 43), Ok(None));
    assert_eq!(e.queue().get(0).unwrap().created_at, 42);
}

#[test]
fn substring_search_edges() {
    assert!(text_contains("hello world", "lo w"));
    assert!(text_contains("hello", ""));
    assert!(text_contains("", ""));
    assert!(!text_contains("", "a"));
    assert!(!text_contains("abc", "abcd"));
    assert!(text_contains("abc", "abc"));
    assert!(text_contains("naïve café", "é"));
    assert!(!text_contains("abab", "bb"));
}

#[test]
fn update_status_sets_pause() {
    let mut e = Engine::new();
    assert!(!e.update_status(None).paused);
    assert!(!e.update_status(Some(false)).paused);
    assert!(e.update_status(Some(true)).paused);
    assert!(e.update_status(Some(true)).paused);
    assert!(e.is_paused());
    assert!(e.update_status(None).paused);
    assert!(!e.update_status(Some(false)).paused);
}

#[test]
fn lens_limits_search_to_its_domains() {
    let mut e = Engine::new();
    e.reconcile("https://a.test/1", String::new(), String::new(), "shared word".to_string(), 1).unwrap();
    e.reconcile("https://b.test/2", String::new(), String::new(), "shared word".to_string(), 1).unwrap();
    let lens = Boundary::only(vec!["b.test".to_string()]);
    let hits = e.search_with_lens("shared", &lens);
    assert_eq!(hits.len(), 1);
    assert_eq!(hits[0].url, "https://b.test/2");
    assert_eq!(e.search_with_lens("shared", &Boundary::open()).len(), 2);
    assert_eq!(e.search_with_lens("other", &Boundary::open()).len(), 0);
}

#[test]
fn stray_fetch_result_starts_a_turn() {
    let mut e = Engine::new();
    let b = Boundary::open();
    let (s, a) = e.worker_step(WorkerState::Ready, WorkerEvent::Fetched(FetchOutcome::Failed), &b, 1);
    assert_eq!(s, WorkerState::Ready);
    assert!(matches!(a, WorkerAction::Receive));
    let busy = WorkerState::Busy { task_id: 3, stopping: false };
    let (s, a) = e.worker_step(busy, WorkerEvent::Turn, &b, 1);
    assert_eq!(s, busy);
    assert!(matches!(a, WorkerAction::AwaitFetch));
    assert_eq!(e.queue().len(), 0);
}

#[test]
fn slash_in_query_or_fragment_is_kept() {
    assert_eq!(canonicalize("https://x.test/p?q=/").unwrap().url, "https://x.test/p?q=/");
    assert_eq!(canonicalize("https://x.test/p?q=").unwrap().url, "https://x.test/p?q=");
    assert_eq!(canonicalize("https://x.test/p#a/").unwrap().url, "https://x.test/p#a/");
    assert_eq!(canonicalize("https://x.test/p/").unwrap().url, "https://x.test/p");
}
