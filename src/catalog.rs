use vstd::prelude::*;

use crate::address::{canonical, canonicalize, crawlable, domain_of};
use crate::index::{contains_text, doc_matches, matching, matching_in, IndexDoc, SearchIndex};
use crate::scope::Boundary;

verus! {

/// The durable record of an indexed URL: which index entry holds its content.
/// The record's identifier is the index identifier its URL first received,
/// and it stays the same when the content is re-indexed.
#[derive(Clone, Debug)]
pub struct IndexedDocument {
    pub id: u64,
    pub url: String,
    pub domain: String,
    pub doc_id: u64,
    pub created_at: i64,
    pub updated_at: i64,
}

impl IndexedDocument {
    /// A field-for-field copy.
    pub fn snapshot(&self) -> (r: IndexedDocument)
        ensures
            r == *self,
    {
        IndexedDocument {
            id: self.id,
            url: self.url.clone(),
            domain: self.domain.clone(),
            doc_id: self.doc_id,
            created_at: self.created_at,
            updated_at: self.updated_at,
        }
    }
}

#[derive(Clone, Copy, Debug, PartialEq, Eq, Structural)]
pub enum ReconcileError {
    /// The URL does not parse or names no host.
    InvalidUrl,
    /// The index could not take the new content; the URL is left unindexed.
    IndexFull,
}

/// Whether some record is kept for URL `u`.
pub open spec fn has_url(recs: Seq<IndexedDocument>, u: Seq<char>) -> bool {
    exists|k: int| 0 <= k < recs.len() && #[trigger] recs[k].url@ == u
}

/// The position of the record for URL `u`.
pub open spec fn slot(recs: Seq<IndexedDocument>, u: Seq<char>) -> int {
    choose|k: int| 0 <= k < recs.len() && #[trigger] recs[k].url@ == u
}

/// `s`, a sequence parallel to `recs`, without the place that URL `u` holds there.
pub open spec fn without<T>(s: Seq<T>, recs: Seq<IndexedDocument>, u: Seq<char>) -> Seq<T> {
    if has_url(recs, u) {
        s.remove(slot(recs, u))
    } else {
        s
    }
}

/// Everything of an index entry but its identifier.
pub open spec fn text_of(d: IndexDoc) -> (Seq<char>, Seq<char>, Seq<char>, Seq<char>, Seq<char>) {
    (d.title@, d.description@, d.domain@, d.url@, d.content@)
}

/// What `reconcile` does: the URL's old entry and record, if any, are dropped;
/// then the new content is inserted and a record names it. When the index
/// cannot take the content the URL stays absent rather than stale.
pub open spec fn reconcile_outcome(
    old: Catalog,
    new: Catalog,
    url: Seq<char>,
    title: Seq<char>,
    description: Seq<char>,
    content: Seq<char>,
    now: i64,
    r: Result<(), ReconcileError>,
) -> bool {
    let u = canonical(url);
    let recs = without(old.records(), old.records(), u);
    let docs = without(old.docs(), old.records(), u);
    if !crawlable(url) {
        &&& r == Err::<(), ReconcileError>(ReconcileError::InvalidUrl)
        &&& new.records() == old.records()
        &&& new.docs() == old.docs()
        &&& new.issued() == old.issued()
    } else if old.issued() == u64::MAX {
        &&& r == Err::<(), ReconcileError>(ReconcileError::IndexFull)
        &&& new.records() == recs
        &&& new.docs() == docs
        &&& new.issued() == old.issued()
    } else {
        &&& r is Ok
        &&& new.issued() == old.issued() + 1
        &&& new.docs().len() == docs.len() + 1
        &&& new.docs().drop_last() == docs
        &&& new.records().len() == recs.len() + 1
        &&& new.records().drop_last() == recs
        &&& new.docs().last().id == old.issued()
        &&& text_of(new.docs().last()) == (title, description, domain_of(url), u, content)
        &&& new.records().last().url@ == u
        &&& new.records().last().domain@ == domain_of(url)
        &&& new.records().last().doc_id == old.issued()
        &&& new.records().last().id == if has_url(old.records(), u) {
            old.records()[slot(old.records(), u)].id
        } else {
            old.issued()
        }
        &&& new.records().last().created_at == if has_url(old.records(), u) {
            old.records()[slot(old.records(), u)].created_at
        } else {
            now
        }
        &&& new.records().last().updated_at == now
    }
}

/// What `remove` does: the URL's record and index entry are dropped.
pub open spec fn remove_outcome(old: Catalog, new: Catalog, url: Seq<char>, r: bool) -> bool {
    &&& r == (crawlable(url) && has_url(old.records(), canonical(url)))
    &&& new.issued() == old.issued()
    &&& r ==> new.records() == old.records().remove(slot(old.records(), canonical(url)))
        && new.docs() == old.docs().remove(slot(old.records(), canonical(url)))
    &&& !r ==> new.records() == old.records() && new.docs() == old.docs()
}

/// The records store and the search index, kept in step: the record at each
/// position names the index entry at the same position, and no URL has two.
pub struct Catalog {
    records: Vec<IndexedDocument>,
    index: SearchIndex,
}

impl Catalog {
    pub closed spec fn records(&self) -> Seq<IndexedDocument> {
        self.records@
    }

    pub closed spec fn docs(&self) -> Seq<IndexDoc> {
        self.index@
    }

    /// The identifier that the next index insert receives.
    pub closed spec fn issued(&self) -> u64 {
        self.index.issued()
    }

    pub open spec fn wf(&self) -> bool {
        &&& forall|i: int| 0 <= i < self.docs().len() ==> (#[trigger] self.docs()[i]).id < self.issued()
        &&& forall|i: int, j: int|
            0 <= i < j < self.docs().len() ==> self.docs()[i].id < self.docs()[j].id
        &&& self.records().len() == self.docs().len()
        &&& forall|i: int|
            0 <= i < self.records().len() ==> (#[trigger] self.records()[i]).doc_id
                == self.docs()[i].id && self.records()[i].url@ == self.docs()[i].url@
        &&& forall|i: int, j: int|
            0 <= i < j < self.records().len() ==> self.records()[i].url@ != self.records()[j].url@
        &&& forall|i: int|
            0 <= i < self.records().len() ==> (#[trigger] self.records()[i]).id
                <= self.records()[i].doc_id
        &&& forall|i: int, j: int|
            0 <= i < j < self.records().len() ==> self.records()[i].id != self.records()[j].id
    }

    pub fn new() -> (r: Catalog)
        ensures
            r.wf(),
            r.records().len() == 0,
            r.docs().len() == 0,
    {
        Catalog { records: Vec::new(), index: SearchIndex::new() }
    }

    /// How many documents are indexed.
    pub fn num_docs(&self) -> (r: usize)
        ensures
            r == self.docs().len(),
    {
        self.index.num_docs()
    }

    /// The position of the record for this canonical URL.
    fn find(&self, url: &String) -> (r: Option<usize>)
        requires
            self.wf(),
        ensures
            r is None == !has_url(self.records(), url@),
            r matches Some(k) ==> k < self.records().len() && k == slot(self.records(), url@),
    {
        let mut k: usize = 0;
        while k < self.records.len()
            invariant
                0 <= k <= self.records().len(),
                self.wf(),
                self.records() == self.records@,
                forall|m: int| 0 <= m < k ==> #[trigger] self.records()[m].url@ != url@,
            decreases self.records().len() - k,
        {
            if self.records[k].url == *url {
                proof {
                    assert(self.records()[k as int].url@ == url@);
                    assert(has_url(self.records(), url@));
                    let s = slot(self.records(), url@);
                    assert(0 <= s < self.records().len() && self.records()[s].url@ == url@);
                    if s < k {
                        assert(self.records()[s].url@ != self.records()[k as int].url@);
                    } else if s > k {
                        assert(self.records()[k as int].url@ != self.records()[s].url@);
                    }
                }
                return Some(k);
            }
            k += 1;
        }
        None
    }

    /// A copy of the record kept for this URL, if any.
    pub fn record_for(&self, url: &str) -> (r: Option<IndexedDocument>)
        requires
            self.wf(),
        ensures
            r is Some == (crawlable(url@) && has_url(self.records(), canonical(url@))),
            r matches Some(d) ==> d == self.records()[slot(self.records(), canonical(url@))],
    {
        match canonicalize(url) {
            None => None,
            Some(c) => match self.find(&c.url) {
                None => None,
                Some(k) => Some(self.records[k].snapshot()),
            },
        }
    }

    /// Drops the record at `k` and the index entry it names.
    fn drop_slot(&mut self, k: usize) -> (r: IndexedDocument)
        requires
            old(self).wf(),
            k < old(self).records().len(),
        ensures
            r == old(self).records()[k as int],
            final(self).records() == old(self).records().remove(k as int),
            final(self).docs() == old(self).docs().remove(k as int),
            final(self).issued() == old(self).issued(),
            final(self).wf(),
    {
        let ghost docs = self.docs();
        let ghost recs = self.records();
        let rec = self.records.remove(k);
        let found = self.index.delete(rec.doc_id);
        proof {
            assert(docs[k as int].id == rec.doc_id);
            if found {
                let k2 = choose|k2: int|
                    0 <= k2 < docs.len() && #[trigger] docs[k2].id == rec.doc_id && self.docs()
                        == docs.remove(k2);
                if k2 < k {
                    assert(docs[k2].id < docs[k as int].id);
                } else if k2 > k {
                    assert(docs[k as int].id < docs[k2].id);
                }
            }
            assert forall|i: int| 0 <= i < self.records().len() implies (#[trigger] self.records()[i]).doc_id
                == self.docs()[i].id && self.records()[i].url@ == self.docs()[i].url@ by {
                let a = if i < k { i } else { i + 1 };
                assert(self.records()[i] == recs[a]);
                assert(self.docs()[i] == docs[a]);
            }
            assert forall|i: int, j: int| 0 <= i < j < self.records().len() implies self.records()[i].url@
                != self.records()[j].url@ by {
                let a = if i < k { i } else { i + 1 };
                let b = if j < k { j } else { j + 1 };
                assert(self.records()[i] == recs[a]);
                assert(self.records()[j] == recs[b]);
            }
            assert forall|i: int| 0 <= i < self.records().len() implies (#[trigger] self.records()[i]).id
                <= self.records()[i].doc_id by {
                let a = if i < k { i } else { i + 1 };
                assert(self.records()[i] == recs[a]);
            }
        }
        rec
    }
    /// Makes the index hold exactly the given content for this URL.
    pub fn reconcile(
        &mut self,
        url: &str,
        title: String,
        description: String,
        content: String,
        now: i64,
    ) -> (r: Result<(), ReconcileError>)
        requires
            old(self).wf(),
        ensures
            final(self).wf(),
            reconcile_outcome(*old(self), *final(self), url@, title@, description@, content@, now, r),
    {
        let c = match canonicalize(url) {
            Some(c) => c,
            None => return Err(ReconcileError::InvalidUrl),
        };
        let ghost u = c.url@;
        let ghost prior = *self;
        let mut created = now;
        let mut kept: Option<u64> = None;
        match self.find(&c.url) {
            Some(k) => {
                let rec = self.drop_slot(k);
                created = rec.created_at;
                kept = Some(rec.id);
            },
            None => {},
        }
        let ghost base = *self;
        proof {
            assert forall|i: int| 0 <= i < base.records().len() implies #[trigger] base.records()[i].url@ != u by {
                if has_url(prior.records(), u) {
                    let k = slot(prior.records(), u);
                    let a = if i < k { i } else { i + 1 };
                    assert(base.records()[i] == prior.records()[a]);
                    if a < k {
                        assert(prior.records()[a].url@ != prior.records()[k].url@);
                    } else {
                        assert(prior.records()[k].url@ != prior.records()[a].url@);
                    }
                }
            }
            if has_url(prior.records(), u) {
                let k = slot(prior.records(), u);
                assert forall|i: int| 0 <= i < base.records().len() implies #[trigger] base.records()[i].id
                    != prior.records()[k].id by {
                    let a = if i < k { i } else { i + 1 };
                    assert(base.records()[i] == prior.records()[a]);
                    if a < k {
                        assert(prior.records()[a].id != prior.records()[k].id);
                    } else {
                        assert(prior.records()[k].id != prior.records()[a].id);
                    }
                }
                assert(prior.records()[k].id <= prior.records()[k].doc_id);
                assert(prior.records()[k].doc_id == prior.docs()[k].id);
            }
        }
        let domain = c.domain.clone();
        let key = c.url.clone();
        match self.index.add_document(title, description, domain, key, content) {
            Err(_) => Err(ReconcileError::IndexFull),
            Ok(id) => {
                let record_id = match kept {
                    Some(k) => k,
                    None => id,
                };
                self.records.push(
                    IndexedDocument {
                        id: record_id,
                        url: c.url,
                        domain: c.domain,
                        doc_id: id,
                        created_at: created,
                        updated_at: now,
                    },
                );
                proof {
                    assert(self.records().drop_last() =~= base.records());
                    assert forall|i: int| 0 <= i < self.records().len() implies (#[trigger] self.records()[i]).doc_id
                        == self.docs()[i].id && self.records()[i].url@ == self.docs()[i].url@ by {
                        if i < base.records().len() {
                            assert(self.records()[i] == base.records()[i]);
                            assert(self.docs()[i] == base.docs()[i]);
                        }
                    }
                    assert forall|i: int, j: int| 0 <= i < j < self.records().len() implies self.records()[i].url@
                        != self.records()[j].url@ by {
                        assert(self.records()[i] == base.records()[i]);
                        if j < base.records().len() {
                            assert(self.records()[j] == base.records()[j]);
                        }
                    }
                    assert forall|i: int| 0 <= i < self.records().len() implies (#[trigger] self.records()[i]).id
                        <= self.records()[i].doc_id by {
                        if i < base.records().len() {
                            assert(self.records()[i] == base.records()[i]);
                        }
                    }
                    assert forall|i: int, j: int| 0 <= i < j < self.records().len() implies self.records()[i].id
                        != self.records()[j].id by {
                        assert(self.records()[i] == base.records()[i]);
                        if j < base.records().len() {
                            assert(self.records()[j] == base.records()[j]);
                        } else {
                            assert(base.records()[i].doc_id == base.docs()[i].id);
                        }
                    }
                }
                Ok(())
            },
        }
    }

    /// Withdraws the URL: its record and its index entry go. `false` when
    /// nothing was kept for it.
    pub fn remove(&mut self, url: &str) -> (r: bool)
        requires
            old(self).wf(),
        ensures
            final(self).wf(),
            remove_outcome(*old(self), *final(self), url@, r),
    {
        let c = match canonicalize(url) {
            Some(c) => c,
            None => return false,
        };
        match self.find(&c.url) {
            Some(k) => {
                self.drop_slot(k);
                true
            },
            None => false,
        }
    }

    /// The indexed documents that match the term, in index order.
    pub fn search(&self, term: &str) -> (r: Vec<IndexDoc>)
        ensures
            r@ == self.docs().filter(matching(term@)),
    {
        self.index.search(term)
    }

    /// The indexed documents that match the term within the lens.
    pub fn search_with_lens(&self, term: &str, lens: &Boundary) -> (r: Vec<IndexDoc>)
        ensures
            r@ == self.docs().filter(matching_in(term@, *lens)),
    {
        self.index.search_with_lens(term, lens)
    }
}

/// After a successful reconcile the URL has exactly one index entry, its
/// record names that entry, and a search for any term of its title,
/// description or body returns it.
pub proof fn lemma_reconcile_single_entry(
    old: Catalog,
    new: Catalog,
    url: Seq<char>,
    title: Seq<char>,
    description: Seq<char>,
    content: Seq<char>,
    now: i64,
    term: Seq<char>,
)
    requires
        old.wf(),
        new.wf(),
        reconcile_outcome(old, new, url, title, description, content, now, Ok(())),
        contains_text(title, term) || contains_text(description, term) || contains_text(
            content,
            term,
        ),
    ensures
        ({
            let k = new.docs().len() - 1;
            &&& 0 <= k
            &&& new.docs()[k].url@ == canonical(url)
            &&& forall|l: int|
                0 <= l < new.docs().len() && #[trigger] new.docs()[l].url@ == canonical(url) ==> l
                    == k
            &&& new.records()[k].url@ == canonical(url)
            &&& new.records()[k].doc_id == new.docs()[k].id
            &&& new.docs().filter(matching(term)).contains(new.docs()[k])
        }),
{
    let k = new.docs().len() - 1;
    assert forall|l: int|
        0 <= l < new.docs().len() && #[trigger] new.docs()[l].url@ == canonical(url) implies l == k by {
        if l < k {
            assert(new.records()[l].url@ != new.records()[k].url@);
        }
    }
    assert(doc_matches(new.docs()[k], term));
    new.docs().lemma_filter_contains(matching(term), k);
}

/// Filtering keeps URLs distinct when they were distinct.
pub proof fn lemma_filter_keeps_distinct_urls(s: Seq<IndexDoc>, f: spec_fn(IndexDoc) -> bool)
    requires
        forall|i: int, j: int| 0 <= i < j < s.len() ==> s[i].url@ != s[j].url@,
    ensures
        forall|i: int, j: int|
            0 <= i < j < s.filter(f).len() ==> s.filter(f)[i].url@ != s.filter(f)[j].url@,
    decreases s.len(),
{
    reveal(Seq::filter);
    if s.len() > 0 {
        let t = s.drop_last();
        lemma_filter_keeps_distinct_urls(t, f);
        let ft = t.filter(f);
        if f(s.last()) {
            assert forall|i: int| 0 <= i < ft.len() implies ft[i].url@ != s.last().url@ by {
                assert(ft.contains(ft[i]));
                t.lemma_filter_contains_rev(f, ft[i]);
                let k = choose|k: int| 0 <= k < t.len() && t[k] == ft[i];
                assert(s[k] == t[k]);
            }
            assert(s.filter(f) == ft.push(s.last()));
        }
    }
}

/// After a successful reconcile, a search within a lens that admits the
/// URL's domain, for any term of its title, description or body, returns
/// the new entry exactly once, and no other hit for that URL.
pub proof fn lemma_reconciled_found_once_in_lens(
    old: Catalog,
    new: Catalog,
    url: Seq<char>,
    title: Seq<char>,
    description: Seq<char>,
    content: Seq<char>,
    now: i64,
    term: Seq<char>,
    lens: Boundary,
)
    requires
        old.wf(),
        new.wf(),
        reconcile_outcome(old, new, url, title, description, content, now, Ok(())),
        contains_text(title, term) || contains_text(description, term) || contains_text(
            content,
            term,
        ),
        lens.allows(domain_of(url)),
    ensures
        ({
            let hits = new.docs().filter(matching_in(term, lens));
            exists|h: int|
                0 <= h < hits.len() && hits[h] == new.docs().last() && forall|l: int|
                    0 <= l < hits.len() && #[trigger] hits[l].url@ == canonical(url) ==> l == h
        }),
{
    let k = new.docs().len() - 1;
    let hits = new.docs().filter(matching_in(term, lens));
    assert forall|i: int, j: int| 0 <= i < j < new.docs().len() implies new.docs()[i].url@
        != new.docs()[j].url@ by {
        assert(new.records()[i].url@ != new.records()[j].url@);
    }
    lemma_filter_keeps_distinct_urls(new.docs(), matching_in(term, lens));
    assert(doc_matches(new.docs()[k], term));
    new.docs().lemma_filter_contains(matching_in(term, lens), k);
    let h = choose|h: int| 0 <= h < hits.len() && hits[h] == new.docs()[k];
    assert forall|l: int| 0 <= l < hits.len() && #[trigger] hits[l].url@ == canonical(url) implies l == h by {
        if l < h {
            assert(hits[l].url@ != hits[h].url@);
        } else if l > h {
            assert(hits[h].url@ != hits[l].url@);
        }
    }
}

/// Reconciling the same content twice leaves the index holding the same
/// entries, apart from the fresh identifier, and the records naming the same
/// URLs, as reconciling it once: no duplicate and no orphaned entry.
pub proof fn lemma_reconcile_idempotent(
    first: Catalog,
    once: Catalog,
    twice: Catalog,
    url: Seq<char>,
    title: Seq<char>,
    description: Seq<char>,
    content: Seq<char>,
    now1: i64,
    now2: i64,
)
    requires
        first.wf(),
        once.wf(),
        twice.wf(),
        reconcile_outcome(first, once, url, title, description, content, now1, Ok(())),
        reconcile_outcome(once, twice, url, title, description, content, now2, Ok(())),
    ensures
        twice.docs().map_values(|d: IndexDoc| text_of(d)) == once.docs().map_values(
            |d: IndexDoc| text_of(d),
        ),
        twice.records().map_values(|r: IndexedDocument| r.url@) == once.records().map_values(
            |r: IndexedDocument| r.url@,
        ),
{
    let u = canonical(url);
    let k = once.records().len() - 1;
    assert(once.records()[k].url@ == u);
    assert(has_url(once.records(), u));
    let s = slot(once.records(), u);
    if s < k {
        assert(once.records()[s].url@ != once.records()[k].url@);
    }
    assert(s == k);
    assert(once.docs().remove(k) =~= once.docs().drop_last());
    assert(once.records().remove(k) =~= once.records().drop_last());
    assert(twice.docs() =~= once.docs().drop_last().push(twice.docs().last()));
    assert(once.docs() =~= once.docs().drop_last().push(once.docs().last()));
    assert(twice.docs().map_values(|d: IndexDoc| text_of(d)) =~= once.docs().map_values(
        |d: IndexDoc| text_of(d),
    ));
    assert(twice.records().map_values(|r: IndexedDocument| r.url@) =~= once.records().map_values(
        |r: IndexedDocument| r.url@,
    ));
}

/// A document reconciled and then removed is absent from every later search.
pub proof fn lemma_removed_not_found(
    first: Catalog,
    added: Catalog,
    removed: Catalog,
    url: Seq<char>,
    title: Seq<char>,
    description: Seq<char>,
    content: Seq<char>,
    now: i64,
    gone: bool,
    term: Seq<char>,
)
    requires
        first.wf(),
        added.wf(),
        removed.wf(),
        reconcile_outcome(first, added, url, title, description, content, now, Ok(())),
        remove_outcome(added, removed, url, gone),
    ensures
        gone,
        forall|d: IndexDoc| #[trigger] removed.docs().filter(matching(term)).contains(d) ==> d.url@
            != canonical(url),
{
    let u = canonical(url);
    let k = added.records().len() - 1;
    assert(added.records()[k].url@ == u);
    assert(has_url(added.records(), u));
    let s = slot(added.records(), u);
    if s < k {
        assert(added.records()[s].url@ != added.records()[k].url@);
    }
    assert(removed.docs() =~= added.docs().drop_last());
    assert forall|d: IndexDoc| #[trigger] removed.docs().filter(matching(term)).contains(d) implies d.url@
        != u by {
        removed.docs().lemma_filter_contains_rev(matching(term), d);
        let i = choose|i: int| 0 <= i < removed.docs().len() && removed.docs()[i] == d;
        assert(added.docs()[i] == d);
        assert(added.records()[i].url@ != added.records()[k].url@);
    }
}

} // verus!
