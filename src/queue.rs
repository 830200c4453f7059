use vstd::prelude::*;

use crate::address::{canonical, canonicalize, crawlable, domain_of};
use crate::limits::Limits;
use crate::scope::Boundary;

verus! {

/// Where a crawl task stands. Tasks move Queued, then Processing, then
/// Completed or Failed, and are never deleted.
#[derive(Clone, Copy, Debug, PartialEq, Eq, Structural)]
pub enum CrawlStatus {
    Queued,
    Processing,
    Completed,
    Failed,
}

/// One row of the crawl queue.
#[derive(Clone, Debug)]
pub struct CrawlTask {
    pub id: u64,
    pub url: String,
    pub domain: String,
    pub status: CrawlStatus,
    pub force_crawl: bool,
    pub created_at: i64,
    pub updated_at: i64,
}

impl CrawlTask {
    /// A field-for-field copy.
    pub fn snapshot(&self) -> (r: CrawlTask)
        ensures
            r == *self,
    {
        CrawlTask {
            id: self.id,
            url: self.url.clone(),
            domain: self.domain.clone(),
            status: self.status,
            force_crawl: self.force_crawl,
            created_at: self.created_at,
            updated_at: self.updated_at,
        }
    }
}

/// Why a URL did not enter the queue.
#[derive(Clone, Copy, Debug, PartialEq, Eq, Structural)]
pub enum EnqueueError {
    InvalidUrl,
    DomainExcluded,
}

/// A status transition asked of a task that is not in the expected prior state.
#[derive(Clone, Copy, Debug, PartialEq, Eq, Structural)]
pub enum TransitionError {
    StaleTransition,
}

/// How many tasks of `s` satisfy `f`.
pub open spec fn count_where(s: Seq<CrawlTask>, f: spec_fn(CrawlTask) -> bool) -> nat
    decreases s.len(),
{
    if s.len() == 0 {
        0
    } else {
        count_where(s.drop_last(), f) + if f(s.last()) {
            1nat
        } else {
            0nat
        }
    }
}

pub open spec fn is_active(t: CrawlTask) -> bool {
    t.status == CrawlStatus::Queued || t.status == CrawlStatus::Processing
}

pub open spec fn active_url(u: Seq<char>) -> spec_fn(CrawlTask) -> bool {
    |t: CrawlTask| t.url@ == u && is_active(t)
}

pub open spec fn processing_domain(d: Seq<char>) -> spec_fn(CrawlTask) -> bool {
    |t: CrawlTask| t.status == CrawlStatus::Processing && t.domain@ == d
}

pub open spec fn has_status(st: CrawlStatus) -> spec_fn(CrawlTask) -> bool {
    |t: CrawlTask| t.status == st
}

/// Queued or Processing rows for URL `u`.
pub open spec fn active_for(s: Seq<CrawlTask>, u: Seq<char>) -> nat {
    count_where(s, active_url(u))
}

/// Processing rows of domain `d`.
pub open spec fn processing_in(s: Seq<CrawlTask>, d: Seq<char>) -> nat {
    count_where(s, processing_domain(d))
}

/// Processing rows over all domains.
pub open spec fn processing_total(s: Seq<CrawlTask>) -> nat {
    count_where(s, has_status(CrawlStatus::Processing))
}

/// Whether a row for `u` exists in a state other than Failed.
pub open spec fn known(s: Seq<CrawlTask>, u: Seq<char>) -> bool {
    exists|i: int| 0 <= i < s.len() && #[trigger] s[i].url@ == u && s[i].status != CrawlStatus::Failed
}

pub proof fn lemma_count_push(s: Seq<CrawlTask>, x: CrawlTask, f: spec_fn(CrawlTask) -> bool)
    ensures
        count_where(s.push(x), f) == count_where(s, f) + if f(x) {
            1nat
        } else {
            0nat
        },
{
    assert(s.push(x).drop_last() =~= s);
}

pub proof fn lemma_count_update(
    s: Seq<CrawlTask>,
    i: int,
    x: CrawlTask,
    f: spec_fn(CrawlTask) -> bool,
)
    requires
        0 <= i < s.len(),
    ensures
        count_where(s.update(i, x), f) + (if f(s[i]) {
            1int
        } else {
            0int
        }) == count_where(s, f) + (if f(x) {
            1int
        } else {
            0int
        }),
    decreases s.len(),
{
    if i == s.len() - 1 {
        assert(s.update(i, x).drop_last() =~= s.drop_last());
    } else {
        lemma_count_update(s.drop_last(), i, x, f);
        assert(s.update(i, x).drop_last() =~= s.drop_last().update(i, x));
    }
}

pub proof fn lemma_count_none(s: Seq<CrawlTask>, f: spec_fn(CrawlTask) -> bool)
    requires
        forall|i: int| 0 <= i < s.len() ==> !f(#[trigger] s[i]),
    ensures
        count_where(s, f) == 0,
    decreases s.len(),
{
    if s.len() > 0 {
        lemma_count_none(s.drop_last(), f);
    }
}

pub proof fn lemma_count_prefix(s: Seq<CrawlTask>, i: int, f: spec_fn(CrawlTask) -> bool)
    requires
        0 <= i < s.len(),
    ensures
        count_where(s.subrange(0, i + 1), f) == count_where(s.subrange(0, i), f) + if f(s[i]) {
            1nat
        } else {
            0nat
        },
        count_where(s.subrange(0, i), f) <= i,
    decreases i,
{
    assert(s.subrange(0, i + 1).drop_last() =~= s.subrange(0, i));
    if i > 0 {
        lemma_count_prefix(s, i - 1, f);
    }
}

/// The row that a successful enqueue appends.
pub open spec fn is_new_task(
    t: CrawlTask,
    id: int,
    url: Seq<char>,
    domain: Seq<char>,
    force_crawl: bool,
    now: i64,
) -> bool {
    &&& t.id == id
    &&& t.url@ == url
    &&& t.domain@ == domain
    &&& t.status == CrawlStatus::Queued
    &&& t.force_crawl == force_crawl
    &&& t.created_at == now
    &&& t.updated_at == now
}

/// What `enqueue` does to the rows `old`, giving `new` and the result `r`.
pub open spec fn enqueue_outcome(
    old: Seq<CrawlTask>,
    new: Seq<CrawlTask>,
    url: Seq<char>,
    force_crawl: bool,
    boundary: Boundary,
    now: i64,
    r: Result<Option<u64>, EnqueueError>,
) -> bool {
    if !crawlable(url) {
        r == Err::<Option<u64>, EnqueueError>(EnqueueError::InvalidUrl) && new == old
    } else if !boundary.allows(domain_of(url)) {
        r == Err::<Option<u64>, EnqueueError>(EnqueueError::DomainExcluded) && new == old
    } else if !force_crawl && known(old, canonical(url)) {
        r == Ok::<Option<u64>, EnqueueError>(None) && new == old
    } else {
        &&& r == Ok::<Option<u64>, EnqueueError>(Some(old.len() as u64))
        &&& new.len() == old.len() + 1
        &&& new.drop_last() == old
        &&& is_new_task(new.last(), old.len() as int, canonical(url), domain_of(url), force_crawl, now)
    }
}

/// Enqueueing without forcing never makes a second Queued or Processing row
/// for a URL: at most one stays at most one.
pub proof fn lemma_enqueue_keeps_single_active(
    old: Seq<CrawlTask>,
    new: Seq<CrawlTask>,
    url: Seq<char>,
    boundary: Boundary,
    now: i64,
    r: Result<Option<u64>, EnqueueError>,
)
    requires
        enqueue_outcome(old, new, url, false, boundary, now, r),
    ensures
        forall|u: Seq<char>| active_for(old, u) <= 1 ==> #[trigger] active_for(new, u) <= 1,
{
    if new != old {
        assert(new =~= old.push(new.last()));
        assert forall|u: Seq<char>| active_for(old, u) <= 1 implies #[trigger] active_for(new, u) <= 1 by {
            lemma_count_push(old, new.last(), active_url(u));
            if u == canonical(url) {
                assert forall|i: int| 0 <= i < old.len() implies !active_url(u)(#[trigger] old[i]) by {
                    if active_url(u)(old[i]) {
                        assert(old[i].url@ == u);
                    }
                }
                lemma_count_none(old, active_url(u));
            }
        }
    }
}

/// `t` is `prior` moved to status `st` at time `now`.
pub open spec fn moved(t: CrawlTask, prior: CrawlTask, st: CrawlStatus, now: i64) -> bool {
    &&& t.id == prior.id
    &&& t.url == prior.url
    &&& t.domain == prior.domain
    &&& t.status == st
    &&& t.force_crawl == prior.force_crawl
    &&& t.created_at == prior.created_at
    &&& t.updated_at == now
}

/// What a status transition of task `id` from `from` to `to` does.
pub open spec fn transition_outcome(
    old: Seq<CrawlTask>,
    new: Seq<CrawlTask>,
    id: u64,
    from: CrawlStatus,
    to: CrawlStatus,
    now: i64,
    r: Result<(), TransitionError>,
) -> bool {
    if id < old.len() && old[id as int].status == from {
        &&& r is Ok
        &&& new.len() == old.len()
        &&& moved(new[id as int], old[id as int], to, now)
        &&& forall|j: int| 0 <= j < old.len() && j != id ==> new[j] == old[j]
    } else {
        r == Err::<(), TransitionError>(TransitionError::StaleTransition) && new == old
    }
}

/// Task `i` may start now: it is Queued, and neither its domain nor the whole
/// queue is at its in-flight limit.
pub open spec fn eligible(s: Seq<CrawlTask>, i: int, limits: Limits) -> bool {
    &&& 0 <= i < s.len()
    &&& s[i].status == CrawlStatus::Queued
    &&& limits.per_domain.admits(processing_in(s, s[i].domain@) as int)
    &&& limits.global.admits(processing_total(s) as int)
}

/// Task `i` is the oldest eligible one, by creation time and then by insertion.
pub open spec fn first_eligible(s: Seq<CrawlTask>, i: int, limits: Limits) -> bool {
    &&& eligible(s, i, limits)
    &&& forall|j: int|
        #[trigger] eligible(s, j, limits) ==> s[i].created_at < s[j].created_at || (s[i].created_at
            == s[j].created_at && i <= j)
}

/// What `dequeue` does: claims the oldest eligible task, or reports that none is.
pub open spec fn dequeue_outcome(
    old: Seq<CrawlTask>,
    new: Seq<CrawlTask>,
    limits: Limits,
    now: i64,
    r: Option<CrawlTask>,
) -> bool {
    match r {
        None => new == old && forall|i: int| !eligible(old, i, limits),
        Some(t) => {
            &&& first_eligible(old, t.id as int, limits)
            &&& moved(t, old[t.id as int], CrawlStatus::Processing, now)
            &&& new == old.update(t.id as int, t)
        },
    }
}

/// A dequeue never takes the Processing count of a domain past the
/// per-domain limit, nor the total past the global limit.
pub proof fn lemma_dequeue_within_limits(
    old: Seq<CrawlTask>,
    new: Seq<CrawlTask>,
    limits: Limits,
    now: i64,
    r: Option<CrawlTask>,
)
    requires
        dequeue_outcome(old, new, limits, now, r),
    ensures
        processing_total(old) <= limits.global.cap() ==> processing_total(new)
            <= limits.global.cap(),
        forall|d: Seq<char>|
            processing_in(old, d) <= limits.per_domain.cap() ==> #[trigger] processing_in(new, d)
                <= limits.per_domain.cap(),
{
    if let Some(t) = r {
        lemma_count_update(old, t.id as int, t, has_status(CrawlStatus::Processing));
        assert forall|d: Seq<char>|
            processing_in(old, d) <= limits.per_domain.cap() implies #[trigger] processing_in(
                new,
                d,
            ) <= limits.per_domain.cap() by {
            lemma_count_update(old, t.id as int, t, processing_domain(d));
        }
    }
}

/// The persisted crawl queue: every task ever discovered, in insertion order.
pub struct CrawlQueue {
    tasks: Vec<CrawlTask>,
}

impl View for CrawlQueue {
    type V = Seq<CrawlTask>;

    closed spec fn view(&self) -> Seq<CrawlTask> {
        self.tasks@
    }
}

impl CrawlQueue {
    /// A task's identifier is its position.
    pub open spec fn wf(&self) -> bool {
        forall|i: int| 0 <= i < self@.len() ==> (#[trigger] self@[i]).id == i
    }

    pub fn new() -> (r: CrawlQueue)
        ensures
            r.wf(),
            r@.len() == 0,
    {
        CrawlQueue { tasks: Vec::new() }
    }

    pub fn len(&self) -> (r: usize)
        ensures
            r == self@.len(),
    {
        self.tasks.len()
    }

    /// A copy of the task with this identifier.
    pub fn get(&self, id: u64) -> (r: Option<CrawlTask>)
        requires
            self.wf(),
        ensures
            r is Some == (id < self@.len()),
            r matches Some(t) ==> t == self@[id as int],
    {
        if id < self.tasks.len() as u64 {
            Some(self.tasks[id as usize].snapshot())
        } else {
            None
        }
    }

    /// A copy of every task, in insertion order.
    pub fn list(&self) -> (r: Vec<CrawlTask>)
        ensures
            r@ == self@,
    {
        let mut out: Vec<CrawlTask> = Vec::new();
        let mut i: usize = 0;
        while i < self.tasks.len()
            invariant
                0 <= i <= self@.len(),
                self@ == self.tasks@,
                out@ == self@.subrange(0, i as int),
            decreases self@.len() - i,
        {
            out.push(self.tasks[i].snapshot());
            i += 1;
            assert(out@ =~= self@.subrange(0, i as int));
        }
        assert(self@.subrange(0, self@.len() as int) =~= self@);
        out
    }

    /// How many tasks have status `st`.
    pub fn count_status(&self, st: CrawlStatus) -> (r: usize)
        ensures
            r == count_where(self@, has_status(st)),
    {
        let mut r: usize = 0;
        let mut i: usize = 0;
        while i < self.tasks.len()
            invariant
                0 <= i <= self@.len(),
                self@ == self.tasks@,
                r == count_where(self@.subrange(0, i as int), has_status(st)),
            decreases self@.len() - i,
        {
            proof {
                lemma_count_prefix(self@, i as int, has_status(st));
            }
            if self.tasks[i].status == st {
                r += 1;
            }
            i += 1;
        }
        assert(self@.subrange(0, self@.len() as int) =~= self@);
        r
    }

    /// How many tasks of this domain are Processing.
    fn count_processing_in(&self, domain: &String) -> (r: usize)
        ensures
            r == processing_in(self@, domain@),
    {
        let mut r: usize = 0;
        let mut i: usize = 0;
        while i < self.tasks.len()
            invariant
                0 <= i <= self@.len(),
                self@ == self.tasks@,
                r == count_where(self@.subrange(0, i as int), processing_domain(domain@)),
            decreases self@.len() - i,
        {
            proof {
                lemma_count_prefix(self@, i as int, processing_domain(domain@));
            }
            if self.tasks[i].status == CrawlStatus::Processing && self.tasks[i].domain == *domain {
                r += 1;
            }
            i += 1;
        }
        assert(self@.subrange(0, self@.len() as int) =~= self@);
        r
    }

    /// Whether some row for `url` is in a state other than Failed.
    fn is_known(&self, url: &String) -> (r: bool)
        ensures
            r == known(self@, url@),
    {
        let mut i: usize = 0;
        while i < self.tasks.len()
            invariant
                0 <= i <= self@.len(),
                self@ == self.tasks@,
                forall|j: int|
                    0 <= j < i ==> !(#[trigger] self@[j].url@ == url@ && self@[j].status
                        != CrawlStatus::Failed),
            decreases self@.len() - i,
        {
            if self.tasks[i].url == *url && self.tasks[i].status != CrawlStatus::Failed {
                return true;
            }
            i += 1;
        }
        false
    }
    /// Adds a Queued task for the canonical form of `url`, unless a row for
    /// that URL exists in a state other than Failed and `force_crawl` is off.
    /// `Ok(Some(id))` names the new task; `Ok(None)` means it was already known.
    pub fn enqueue(
        &mut self,
        url: &str,
        force_crawl: bool,
        boundary: &Boundary,
        now: i64,
    ) -> (r: Result<Option<u64>, EnqueueError>)
        requires
            old(self).wf(),
        ensures
            final(self).wf(),
            enqueue_outcome(old(self)@, final(self)@, url@, force_crawl, *boundary, now, r),
            !force_crawl ==> forall|u: Seq<char>|
                active_for(old(self)@, u) <= 1 ==> #[trigger] active_for(final(self)@, u) <= 1,
    {
        let c = match canonicalize(url) {
            Some(c) => c,
            None => return Err(EnqueueError::InvalidUrl),
        };
        if !boundary.is_allowed(&c.domain) {
            return Err(EnqueueError::DomainExcluded);
        }
        if !force_crawl && self.is_known(&c.url) {
            return Ok(None);
        }
        let id = self.tasks.len() as u64;
        let task = CrawlTask {
            id,
            url: c.url,
            domain: c.domain,
            status: CrawlStatus::Queued,
            force_crawl,
            created_at: now,
            updated_at: now,
        };
        let ghost prior = self@;
        self.tasks.push(task);
        proof {
            assert(self@.drop_last() =~= prior);
            if !force_crawl {
                lemma_enqueue_keeps_single_active(prior, self@, url@, *boundary, now, Ok(Some(id)));
            }
        }
        Ok(Some(id))
    }

    /// Claims the oldest Queued task that the limits let start, moving it to
    /// Processing in the same step; `None` when no task may start.
    pub fn dequeue(&mut self, limits: &Limits, now: i64) -> (r: Option<CrawlTask>)
        requires
            old(self).wf(),
        ensures
            final(self).wf(),
            dequeue_outcome(old(self)@, final(self)@, *limits, now, r),
            processing_total(old(self)@) <= limits.global.cap() ==> processing_total(final(self)@)
                <= limits.global.cap(),
            forall|d: Seq<char>|
                processing_in(old(self)@, d) <= limits.per_domain.cap() ==> #[trigger] processing_in(
                    final(self)@,
                    d,
                ) <= limits.per_domain.cap(),
    {
        let total = self.count_status(CrawlStatus::Processing);
        if total as u64 >= limits.global.bound() {
            return None;
        }
        let per = limits.per_domain.bound();
        let ghost s = self@;
        let mut best: Option<usize> = None;
        let mut i: usize = 0;
        while i < self.tasks.len()
            invariant
                0 <= i <= s.len(),
                s == self.tasks@,
                s == self@,
                total == processing_total(s),
                limits.global.admits(total as int),
                per == limits.per_domain.cap(),
                best matches Some(b) ==> {
                    &&& b < i
                    &&& eligible(s, b as int, *limits)
                    &&& forall|j: int|
                        0 <= j < i && #[trigger] eligible(s, j, *limits) ==> s[b as int].created_at
                            < s[j].created_at || (s[b as int].created_at == s[j].created_at && b
                            <= j)
                },
                best is None ==> forall|j: int| 0 <= j < i ==> !#[trigger] eligible(s, j, *limits),
            decreases s.len() - i,
        {
            if self.tasks[i].status == CrawlStatus::Queued {
                let c = self.count_processing_in(&self.tasks[i].domain);
                if (c as u64) < per {
                    match best {
                        None => {
                            best = Some(i);
                        },
                        Some(b) => {
                            if self.tasks[i].created_at < self.tasks[b].created_at {
                                best = Some(i);
                            }
                        },
                    }
                }
            }
            i += 1;
        }
        match best {
            None => None,
            Some(b) => {
                let mut t = self.tasks[b].snapshot();
                t.status = CrawlStatus::Processing;
                t.updated_at = now;
                let out = t.snapshot();
                self.tasks.set(b, t);
                proof {
                    assert forall|j: int| 0 <= j < self@.len() implies (#[trigger] self@[j]).id
                        == j by {
                        if j != b {
                            assert(self@[j] == s[j]);
                        }
                    }
                    assert(dequeue_outcome(s, self@, *limits, now, Some(out)));
                    lemma_dequeue_within_limits(s, self@, *limits, now, Some(out));
                }
                Some(out)
            },
        }
    }

    fn transition(
        &mut self,
        id: u64,
        from: CrawlStatus,
        to: CrawlStatus,
        now: i64,
    ) -> (r: Result<(), TransitionError>)
        requires
            old(self).wf(),
        ensures
            final(self).wf(),
            transition_outcome(old(self)@, final(self)@, id, from, to, now, r),
    {
        if id >= self.tasks.len() as u64 || self.tasks[id as usize].status != from {
            return Err(TransitionError::StaleTransition);
        }
        let ghost s = self@;
        let mut t = self.tasks[id as usize].snapshot();
        t.status = to;
        t.updated_at = now;
        self.tasks.set(id as usize, t);
        proof {
            assert forall|j: int| 0 <= j < self@.len() implies (#[trigger] self@[j]).id == j by {
                if j != id {
                    assert(self@[j] == s[j]);
                }
            }
        }
        Ok(())
    }

    /// Moves a Queued task to Processing.
    pub fn mark_processing(&mut self, id: u64, now: i64) -> (r: Result<(), TransitionError>)
        requires
            old(self).wf(),
        ensures
            final(self).wf(),
            transition_outcome(
                old(self)@,
                final(self)@,
                id,
                CrawlStatus::Queued,
                CrawlStatus::Processing,
                now,
                r,
            ),
    {
        self.transition(id, CrawlStatus::Queued, CrawlStatus::Processing, now)
    }

    /// Ends a crawl attempt: a Processing task becomes Completed when the
    /// fetch succeeded, Failed when it did not.
    pub fn mark_done(&mut self, id: u64, succeeded: bool, now: i64) -> (r: Result<
        (),
        TransitionError,
    >)
        requires
            old(self).wf(),
        ensures
            final(self).wf(),
            transition_outcome(
                old(self)@,
                final(self)@,
                id,
                CrawlStatus::Processing,
                if succeeded {
                    CrawlStatus::Completed
                } else {
                    CrawlStatus::Failed
                },
                now,
                r,
            ),
    {
        let to = if succeeded {
            CrawlStatus::Completed
        } else {
            CrawlStatus::Failed
        };
        self.transition(id, CrawlStatus::Processing, to, now)
    }
}

} // verus!
