use vstd::prelude::*;

use crate::address::canonical;
use crate::catalog::{reconcile_outcome, Catalog, ReconcileError};
use crate::index::IndexDoc;
use crate::limits::Limits;
use crate::queue::{
    count_where, dequeue_outcome, enqueue_outcome, has_status, processing_in, processing_total,
    transition_outcome, CrawlQueue, CrawlStatus, CrawlTask, EnqueueError, TransitionError,
};
use crate::scope::Boundary;

verus! {

/// What a fetch gave back for a task.
#[derive(Clone, Debug)]
pub enum FetchOutcome {
    /// The page could not be fetched.
    Failed,
    /// The page was fetched; `content` is `None` when it cannot be indexed.
    Fetched(FetchedPage),
}

#[derive(Clone, Debug)]
pub struct FetchedPage {
    pub url: String,
    pub title: Option<String>,
    pub description: Option<String>,
    pub content: Option<String>,
    pub links: Vec<String>,
}

/// What finishing a task did, for the caller to log.
#[derive(Clone, Copy, Debug, PartialEq, Eq)]
pub struct Finished {
    pub transition: Result<(), TransitionError>,
    pub indexed: Option<Result<(), ReconcileError>>,
}

/// Counts for status endpoints.
#[derive(Clone, Copy, Debug, PartialEq, Eq, Structural)]
pub struct Status {
    pub queued_count: usize,
    pub processing_count: usize,
    pub total_indexed_count: usize,
    pub paused: bool,
}

pub open spec fn text_or_empty(o: Option<String>) -> Seq<char> {
    match o {
        Some(s) => s@,
        None => Seq::empty(),
    }
}

/// `new` is `old` after enqueueing each of `links`, in order, without forcing.
pub open spec fn enqueued_all(
    old: Seq<CrawlTask>,
    new: Seq<CrawlTask>,
    links: Seq<String>,
    boundary: Boundary,
    now: i64,
) -> bool
    decreases links.len(),
{
    if links.len() == 0 {
        new == old
    } else {
        exists|mid: Seq<CrawlTask>, r: Result<Option<u64>, EnqueueError>|
            enqueued_all(old, mid, links.drop_last(), boundary, now) && #[trigger] enqueue_outcome(
                mid,
                new,
                links.last()@,
                false,
                boundary,
                now,
                r,
            )
    }
}

/// Enqueueing only appends Queued rows: the rows that were there stay as they were.
pub proof fn lemma_enqueued_all_extends(
    old: Seq<CrawlTask>,
    new: Seq<CrawlTask>,
    links: Seq<String>,
    boundary: Boundary,
    now: i64,
)
    requires
        enqueued_all(old, new, links, boundary, now),
    ensures
        old.len() <= new.len(),
        forall|i: int| 0 <= i < old.len() ==> #[trigger] new[i] == old[i],
        forall|i: int| old.len() <= i < new.len() ==> (#[trigger] new[i]).status == CrawlStatus::Queued,
    decreases links.len(),
{
    if links.len() > 0 {
        let (mid, r) = choose|mid: Seq<CrawlTask>, r: Result<Option<u64>, EnqueueError>|
            enqueued_all(old, mid, links.drop_last(), boundary, now) && #[trigger] enqueue_outcome(
                mid,
                new,
                links.last()@,
                false,
                boundary,
                now,
                r,
            );
        lemma_enqueued_all_extends(old, mid, links.drop_last(), boundary, now);
        if new != mid {
            assert forall|i: int| 0 <= i < mid.len() implies #[trigger] new[i] == mid[i] by {
                assert(new.drop_last()[i] == new[i]);
            }
            assert forall|i: int| old.len() <= i < new.len() implies (#[trigger] new[i]).status
                == CrawlStatus::Queued by {
                if i < mid.len() {
                    assert(new[i] == mid[i]);
                }
            }
        }
    }
}

/// What finishing task `id` with `outcome` does: the task ends Completed or
/// Failed; on success each outbound link is enqueued and content, if any,
/// is reconciled into the index.
pub open spec fn finish_outcome(
    old: Engine,
    new: Engine,
    id: u64,
    outcome: FetchOutcome,
    boundary: Boundary,
    now: i64,
    r: Finished,
) -> bool {
    &&& new.paused_flag() == old.paused_flag()
    &&& match outcome {
        FetchOutcome::Failed => {
            &&& transition_outcome(
                old.tasks(),
                new.tasks(),
                id,
                CrawlStatus::Processing,
                CrawlStatus::Failed,
                now,
                r.transition,
            )
            &&& new.index_state() == old.index_state()
            &&& r.indexed is None
        },
        FetchOutcome::Fetched(page) => {
            &&& exists|done: Seq<CrawlTask>|
                #[trigger] transition_outcome(
                    old.tasks(),
                    done,
                    id,
                    CrawlStatus::Processing,
                    CrawlStatus::Completed,
                    now,
                    r.transition,
                ) && enqueued_all(done, new.tasks(), page.links@, boundary, now)
            &&& page.content is None ==> new.index_state() == old.index_state() && r.indexed is None
            &&& page.content matches Some(c) ==> r.indexed matches Some(res) && reconcile_outcome(
                old.index_state(),
                new.index_state(),
                page.url@,
                text_or_empty(page.title),
                text_or_empty(page.description),
                c@,
                now,
                res,
            )
        },
    }
}

/// After a fetched page's content was indexed, exactly one record is kept
/// for its URL, and it names the one live index entry for that URL.
pub proof fn lemma_fetched_page_recorded_once(
    old: Engine,
    new: Engine,
    id: u64,
    page: FetchedPage,
    boundary: Boundary,
    now: i64,
    r: Finished,
)
    requires
        old.wf(),
        new.wf(),
        finish_outcome(old, new, id, FetchOutcome::Fetched(page), boundary, now, r),
        page.content is Some,
        r.indexed == Some(Ok::<(), ReconcileError>(())),
    ensures
        ({
            let u = canonical(page.url@);
            let recs = new.index_state().records();
            let docs = new.index_state().docs();
            exists|k: int|
                0 <= k < recs.len() && recs[k].url@ == u && docs[k].url@ == u && recs[k].doc_id
                    == docs[k].id && (forall|l: int|
                    0 <= l < recs.len() && #[trigger] recs[l].url@ == u ==> l == k) && (forall|l: int|
                    0 <= l < docs.len() && #[trigger] docs[l].url@ == u ==> l == k)
        }),
{
    let u = canonical(page.url@);
    let c = new.index_state();
    let k = c.records().len() - 1;
    assert(c.records()[k].url@ == u);
    assert forall|l: int| 0 <= l < c.records().len() && #[trigger] c.records()[l].url@ == u implies l == k by {
        if l < k {
            assert(c.records()[l].url@ != c.records()[k].url@);
        }
    }
    assert forall|l: int| 0 <= l < c.docs().len() && #[trigger] c.docs()[l].url@ == u implies l == k by {
        assert(c.records()[l].url@ == c.docs()[l].url@);
        if l < k {
            assert(c.records()[l].url@ != c.records()[k].url@);
        }
    }
}

/// The crawl core: the queue, the index with its records, and the pause flag.
pub struct Engine {
    queue: CrawlQueue,
    catalog: Catalog,
    paused: bool,
}

impl Engine {
    pub closed spec fn tasks(&self) -> Seq<CrawlTask> {
        self.queue@
    }

    pub closed spec fn index_state(&self) -> Catalog {
        self.catalog
    }

    pub closed spec fn paused_flag(&self) -> bool {
        self.paused
    }

    /// Task identifiers are positions, and the catalog is in step with the index.
    pub open spec fn wf(&self) -> bool {
        &&& self.index_state().wf()
        &&& forall|i: int| 0 <= i < self.tasks().len() ==> (#[trigger] self.tasks()[i]).id == i
    }

    pub fn new() -> (r: Engine)
        ensures
            r.wf(),
            r.tasks().len() == 0,
            r.index_state().docs().len() == 0,
            r.index_state().records().len() == 0,
            !r.paused_flag(),
    {
        Engine { queue: CrawlQueue::new(), catalog: Catalog::new(), paused: false }
    }

    pub fn queue(&self) -> (r: &CrawlQueue)
        ensures
            r@ == self.tasks(),
            self.wf() ==> r.wf(),
    {
        &self.queue
    }

    pub fn catalog(&self) -> (r: &Catalog)
        ensures
            *r == self.index_state(),
    {
        &self.catalog
    }

    pub fn is_paused(&self) -> (r: bool)
        ensures
            r == self.paused_flag(),
    {
        self.paused
    }

    /// Workers stop taking tasks while paused; nothing else changes.
    pub fn set_paused(&mut self, paused: bool)
        requires
            old(self).wf(),
        ensures
            final(self).wf(),
            final(self).paused_flag() == paused,
            final(self).tasks() == old(self).tasks(),
            final(self).index_state() == old(self).index_state(),
    {
        self.paused = paused;
    }

    pub fn status(&self) -> (r: Status)
        ensures
            r.queued_count == count_where(self.tasks(), has_status(CrawlStatus::Queued)),
            r.processing_count == count_where(self.tasks(), has_status(CrawlStatus::Processing)),
            r.total_indexed_count == self.index_state().docs().len(),
            r.paused == self.paused_flag(),
    {
        Status {
            queued_count: self.queue.count_status(CrawlStatus::Queued),
            processing_count: self.queue.count_status(CrawlStatus::Processing),
            total_indexed_count: self.catalog.num_docs(),
            paused: self.paused,
        }
    }

    /// Sets the pause flag when a value is given, then reports the status.
    pub fn update_status(&mut self, paused: Option<bool>) -> (r: Status)
        requires
            old(self).wf(),
        ensures
            final(self).wf(),
            final(self).paused_flag() == match paused {
                Some(b) => b,
                None => old(self).paused_flag(),
            },
            final(self).tasks() == old(self).tasks(),
            final(self).index_state() == old(self).index_state(),
            r.paused == final(self).paused_flag(),
            r.queued_count == count_where(final(self).tasks(), has_status(CrawlStatus::Queued)),
            r.processing_count == count_where(
                final(self).tasks(),
                has_status(CrawlStatus::Processing),
            ),
            r.total_indexed_count == final(self).index_state().docs().len(),
    {
        if let Some(b) = paused {
            self.paused = b;
        }
        self.status()
    }

    /// Enqueues a URL that a user or a plugin found, as of time `now`.
    pub fn submit(
        &mut self,
        url: &str,
        force_crawl: bool,
        boundary: &Boundary,
        now: i64,
    ) -> (r: Result<Option<u64>, EnqueueError>)
        requires
            old(self).wf(),
        ensures
            final(self).wf(),
            enqueue_outcome(old(self).tasks(), final(self).tasks(), url@, force_crawl, *boundary, now, r),
            final(self).index_state() == old(self).index_state(),
            final(self).paused_flag() == old(self).paused_flag(),
    {
        self.queue.enqueue(url, force_crawl, boundary, now)
    }

    /// Claims the oldest task that the limits let start.
    pub fn dequeue(&mut self, limits: &Limits, now: i64) -> (r: Option<CrawlTask>)
        requires
            old(self).wf(),
        ensures
            final(self).wf(),
            dequeue_outcome(old(self).tasks(), final(self).tasks(), *limits, now, r),
            processing_total(old(self).tasks()) <= limits.global.cap() ==> processing_total(
                final(self).tasks(),
            ) <= limits.global.cap(),
            forall|d: Seq<char>|
                processing_in(old(self).tasks(), d) <= limits.per_domain.cap()
                    ==> #[trigger] processing_in(final(self).tasks(), d) <= limits.per_domain.cap(),
            final(self).index_state() == old(self).index_state(),
            final(self).paused_flag() == old(self).paused_flag(),
    {
        self.queue.dequeue(limits, now)
    }

    /// Withdraws an indexed URL: its record and its index entry go.
    pub fn remove(&mut self, url: &str) -> (r: bool)
        requires
            old(self).wf(),
        ensures
            final(self).wf(),
            crate::catalog::remove_outcome(old(self).index_state(), final(self).index_state(), url@, r),
            final(self).tasks() == old(self).tasks(),
            final(self).paused_flag() == old(self).paused_flag(),
    {
        self.catalog.remove(url)
    }

    pub fn search(&self, term: &str) -> (r: Vec<IndexDoc>)
        ensures
            r@ == self.index_state().docs().filter(crate::index::matching(term@)),
    {
        self.catalog.search(term)
    }

    pub fn search_with_lens(&self, term: &str, lens: &Boundary) -> (r: Vec<IndexDoc>)
        ensures
            r@ == self.index_state().docs().filter(crate::index::matching_in(term@, *lens)),
    {
        self.catalog.search_with_lens(term, lens)
    }

    /// Makes the index hold exactly this content for the URL.
    pub fn reconcile(
        &mut self,
        url: &str,
        title: String,
        description: String,
        content: String,
        now: i64,
    ) -> (r: Result<(), ReconcileError>)
        requires
            old(self).wf(),
        ensures
            final(self).wf(),
            reconcile_outcome(
                old(self).index_state(),
                final(self).index_state(),
                url@,
                title@,
                description@,
                content@,
                now,
                r,
            ),
            final(self).tasks() == old(self).tasks(),
            final(self).paused_flag() == old(self).paused_flag(),
    {
        self.catalog.reconcile(url, title, description, content, now)
    }

    /// Ends a crawl attempt: marks the task done, then on success enqueues
    /// the outbound links and reconciles the content. Failures of single
    /// links or of the reconcile are reported, not propagated.
    pub fn finish_task(
        &mut self,
        id: u64,
        outcome: FetchOutcome,
        boundary: &Boundary,
        now: i64,
    ) -> (r: Finished)
        requires
            old(self).wf(),
        ensures
            final(self).wf(),
            finish_outcome(*old(self), *final(self), id, outcome, *boundary, now, r),
            id < final(self).tasks().len() ==> final(self).tasks()[id as int].status
                != CrawlStatus::Processing,
    {
        match outcome {
            FetchOutcome::Failed => {
                let t = self.queue.mark_done(id, false, now);
                Finished { transition: t, indexed: None }
            },
            FetchOutcome::Fetched(page) => {
                let t = self.queue.mark_done(id, true, now);
                let ghost done = self.tasks();
                let mut i: usize = 0;
                while i < page.links.len()
                    invariant
                        0 <= i <= page.links@.len(),
                        self.wf(),
                        self.index_state() == old(self).index_state(),
                        self.paused_flag() == old(self).paused_flag(),
                        enqueued_all(done, self.tasks(), page.links@.subrange(0, i as int), *boundary, now),
                    decreases page.links@.len() - i,
                {
                    let ghost mid = self.tasks();
                    let r = self.queue.enqueue(page.links[i].as_str(), false, boundary, now);
                    proof {
                        let next = page.links@.subrange(0, i + 1);
                        assert(next.drop_last() =~= page.links@.subrange(0, i as int));
                        assert(enqueued_all(done, mid, next.drop_last(), *boundary, now));
                        assert(next.last() == page.links@[i as int]);
                        assert(enqueue_outcome(mid, self.tasks(), next.last()@, false, *boundary, now, r));
                        assert(enqueued_all(done, self.tasks(), next, *boundary, now));
                    }
                    i += 1;
                }
                proof {
                    assert(transition_outcome(old(self).tasks(), done, id, CrawlStatus::Processing, CrawlStatus::Completed, now, t));
                    assert(page.links@.subrange(0, page.links@.len() as int) =~= page.links@);
                    lemma_enqueued_all_extends(done, self.tasks(), page.links@, *boundary, now);
                    if id < done.len() {
                        assert(self.tasks()[id as int] == done[id as int]);
                    }
                }
                let indexed = match page.content {
                    Some(content) => {
                        let title = match page.title {
                            Some(s) => s,
                            None => String::new(),
                        };
                        let description = match page.description {
                            Some(s) => s,
                            None => String::new(),
                        };
                        Some(self.catalog.reconcile(page.url.as_str(), title, description, content, now))
                    },
                    None => None,
                };
                Finished { transition: t, indexed }
            },
        }
    }
}

} // verus!
