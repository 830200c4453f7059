use vstd::prelude::*;

use crate::scope::Boundary;

verus! {

/// One document of the full-text index. Documents are never changed in
/// place: an update is a delete followed by an insert.
#[derive(Clone, Debug)]
pub struct IndexDoc {
    pub id: u64,
    pub title: String,
    pub description: String,
    pub domain: String,
    pub url: String,
    pub content: String,
}

impl IndexDoc {
    /// A field-for-field copy.
    pub fn snapshot(&self) -> (r: IndexDoc)
        ensures
            r == *self,
    {
        IndexDoc {
            id: self.id,
            title: self.title.clone(),
            description: self.description.clone(),
            domain: self.domain.clone(),
            url: self.url.clone(),
            content: self.content.clone(),
        }
    }
}

/// The index has handed out every identifier it has.
#[derive(Clone, Copy, Debug, PartialEq, Eq, Structural)]
pub enum IndexError {
    Full,
}

/// Whether `needle` occurs in `hay` as a contiguous run of characters.
pub open spec fn contains_text(hay: Seq<char>, needle: Seq<char>) -> bool {
    exists|k: int|
        0 <= k && k + needle.len() <= hay.len() && #[trigger] hay.subrange(k, k + needle.len())
            == needle
}

/// A document matches a term that occurs in its title, description or body.
pub open spec fn doc_matches(d: IndexDoc, term: Seq<char>) -> bool {
    contains_text(d.title@, term) || contains_text(d.description@, term) || contains_text(
        d.content@,
        term,
    )
}

pub open spec fn matching(term: Seq<char>) -> spec_fn(IndexDoc) -> bool {
    |d: IndexDoc| doc_matches(d, term)
}

/// Matches the term and lies within the lens's domains.
pub open spec fn matching_in(term: Seq<char>, lens: Boundary) -> spec_fn(IndexDoc) -> bool {
    |d: IndexDoc| doc_matches(d, term) && lens.allows(d.domain@)
}

fn chars_of(s: &str) -> (r: Vec<char>)
    ensures
        r@ == s@,
{
    let n = s.unicode_len();
    let mut r: Vec<char> = Vec::new();
    let mut i: usize = 0;
    while i < n
        invariant
            n == s@.len(),
            0 <= i <= n,
            r@ == s@.subrange(0, i as int),
        decreases n - i,
    {
        r.push(s.get_char(i));
        i += 1;
        assert(r@ =~= s@.subrange(0, i as int));
    }
    assert(s@.subrange(0, n as int) =~= s@);
    r
}

/// Whether `needle` occurs in `hay`.
pub fn text_contains(hay: &str, needle: &str) -> (r: bool)
    ensures
        r == contains_text(hay@, needle@),
{
    let h = chars_of(hay);
    let n = chars_of(needle);
    if n.len() > h.len() {
        return false;
    }
    let last = h.len() - n.len();
    let mut i: usize = 0;
    loop
        invariant
            h@ == hay@,
            n@ == needle@,
            last + n@.len() == h@.len(),
            0 <= i <= last,
            forall|k: int| 0 <= k < i ==> #[trigger] h@.subrange(k, k + n@.len()) != n@,
        decreases last - i,
    {
        let mut j: usize = 0;
        let mut same = true;
        while j < n.len()
            invariant
                h@ == hay@,
                n@ == needle@,
                i <= last,
                last + n@.len() == h@.len(),
                0 <= j <= n@.len(),
                same ==> forall|m: int| 0 <= m < j ==> h@[i + m] == n@[m],
                !same ==> h@.subrange(i as int, i + n@.len()) != n@,
            decreases n@.len() - j,
        {
            assert(i + j < h.len());
            let p: usize = i + j;
            if h[p] != n[j] {
                assert(h@.subrange(i as int, i + n@.len())[j as int] != n@[j as int]);
                same = false;
            }
            j += 1;
        }
        if same {
            assert(h@.subrange(i as int, i + n@.len()) =~= n@);
            return true;
        }
        if i == last {
            return false;
        }
        i += 1;
    }
}

/// Whether a document matches a term.
pub fn matches_term(d: &IndexDoc, term: &str) -> (r: bool)
    ensures
        r == doc_matches(*d, term@),
{
    text_contains(d.title.as_str(), term) || text_contains(d.description.as_str(), term)
        || text_contains(d.content.as_str(), term)
}

/// The full-text index: documents in insertion order, each under an
/// identifier that is never handed out twice.
pub struct SearchIndex {
    docs: Vec<IndexDoc>,
    next_id: u64,
}

impl View for SearchIndex {
    type V = Seq<IndexDoc>;

    closed spec fn view(&self) -> Seq<IndexDoc> {
        self.docs@
    }
}

impl SearchIndex {
    /// The identifier that the next insert receives.
    pub closed spec fn issued(&self) -> u64 {
        self.next_id
    }

    /// Identifiers increase along the documents and stay below `issued`.
    pub open spec fn wf(&self) -> bool {
        &&& forall|i: int| 0 <= i < self@.len() ==> (#[trigger] self@[i]).id < self.issued()
        &&& forall|i: int, j: int| 0 <= i < j < self@.len() ==> self@[i].id < self@[j].id
    }

    pub fn new() -> (r: SearchIndex)
        ensures
            r.wf(),
            r@.len() == 0,
            r.issued() == 0,
    {
        SearchIndex { docs: Vec::new(), next_id: 0 }
    }

    /// How many documents the index holds.
    pub fn num_docs(&self) -> (r: usize)
        ensures
            r == self@.len(),
    {
        self.docs.len()
    }

    /// Inserts a document under a fresh identifier.
    pub fn add_document(
        &mut self,
        title: String,
        description: String,
        domain: String,
        url: String,
        content: String,
    ) -> (r: Result<u64, IndexError>)
        requires
            old(self).wf(),
        ensures
            final(self).wf(),
            old(self).issued() == u64::MAX ==> r == Err::<u64, IndexError>(IndexError::Full)
                && final(self)@ == old(self)@ && final(self).issued() == old(self).issued(),
            old(self).issued() < u64::MAX ==> {
                &&& r == Ok::<u64, IndexError>(old(self).issued())
                &&& final(self).issued() == old(self).issued() + 1
                &&& final(self)@.len() == old(self)@.len() + 1
                &&& final(self)@.drop_last() == old(self)@
                &&& final(self)@.last().id == old(self).issued()
                &&& final(self)@.last().title == title
                &&& final(self)@.last().description == description
                &&& final(self)@.last().domain == domain
                &&& final(self)@.last().url == url
                &&& final(self)@.last().content == content
            },
    {
        if self.next_id == u64::MAX {
            return Err(IndexError::Full);
        }
        let id = self.next_id;
        let ghost prior = self.docs@;
        assert(prior == old(self)@);
        assert(forall|i: int| 0 <= i < prior.len() ==> (#[trigger] prior[i]).id < id);
        self.docs.push(IndexDoc { id, title, description, domain, url, content });
        self.next_id = id + 1;
        assert(self.docs@.drop_last() =~= prior);
        assert forall|i: int| 0 <= i < self@.len() implies (#[trigger] self@[i]).id < self.issued() by {
            if i < prior.len() {
                assert(self@[i] == prior[i]);
            }
        }
        assert forall|i: int, j: int| 0 <= i < j < self@.len() implies self@[i].id < self@[j].id by {
            assert(self@[i] == prior[i]);
            if j < prior.len() {
                assert(self@[j] == prior[j]);
            }
        }
        Ok(id)
    }

    /// Deletes the document with this identifier; `false` when there is none.
    pub fn delete(&mut self, id: u64) -> (r: bool)
        requires
            old(self).wf(),
        ensures
            final(self).wf(),
            final(self).issued() == old(self).issued(),
            r == exists|k: int| 0 <= k < old(self)@.len() && #[trigger] old(self)@[k].id == id,
            r ==> exists|k: int|
                0 <= k < old(self)@.len() && #[trigger] old(self)@[k].id == id && final(self)@
                    == old(self)@.remove(k),
            !r ==> final(self)@ == old(self)@,
    {
        let mut k: usize = 0;
        while k < self.docs.len()
            invariant
                0 <= k <= self@.len(),
                self@ == self.docs@,
                self@ == old(self)@,
                self.wf(),
                self.issued() == old(self).issued(),
                forall|m: int| 0 <= m < k ==> #[trigger] self@[m].id != id,
            decreases self@.len() - k,
        {
            if self.docs[k].id == id {
                let ghost prior = self@;
                self.docs.remove(k);
                assert forall|i: int, j: int| 0 <= i < j < self@.len() implies self@[i].id
                    < self@[j].id by {
                    let a = if i < k { i } else { i + 1 };
                    let b = if j < k { j } else { j + 1 };
                    assert(self@[i] == prior[a]);
                    assert(self@[j] == prior[b]);
                }
                assert forall|i: int| 0 <= i < self@.len() implies (#[trigger] self@[i]).id
                    < self.issued() by {
                    let a = if i < k { i } else { i + 1 };
                    assert(self@[i] == prior[a]);
                }
                assert(prior[k as int].id == id);
                return true;
            }
            k += 1;
        }
        false
    }

    /// The documents that match the term, in index order.
    pub fn search(&self, term: &str) -> (r: Vec<IndexDoc>)
        ensures
            r@ == self@.filter(matching(term@)),
    {
        let mut r: Vec<IndexDoc> = Vec::new();
        let mut i: usize = 0;
        while i < self.docs.len()
            invariant
                0 <= i <= self@.len(),
                self@ == self.docs@,
                r@ == self@.subrange(0, i as int).filter(matching(term@)),
            decreases self@.len() - i,
        {
            proof {
                reveal(Seq::filter);
                assert(self@.subrange(0, i + 1).drop_last() =~= self@.subrange(0, i as int));
            }
            if matches_term(&self.docs[i], term) {
                r.push(self.docs[i].snapshot());
            }
            i += 1;
        }
        assert(self@.subrange(0, self@.len() as int) =~= self@);
        r
    }

    /// The documents that match the term within the lens, in index order.
    pub fn search_with_lens(&self, term: &str, lens: &Boundary) -> (r: Vec<IndexDoc>)
        ensures
            r@ == self@.filter(matching_in(term@, *lens)),
    {
        let mut r: Vec<IndexDoc> = Vec::new();
        let mut i: usize = 0;
        while i < self.docs.len()
            invariant
                0 <= i <= self@.len(),
                self@ == self.docs@,
                r@ == self@.subrange(0, i as int).filter(matching_in(term@, *lens)),
            decreases self@.len() - i,
        {
            proof {
                reveal(Seq::filter);
                assert(self@.subrange(0, i + 1).drop_last() =~= self@.subrange(0, i as int));
            }
            if lens.is_allowed(&self.docs[i].domain) && matches_term(&self.docs[i], term) {
                r.push(self.docs[i].snapshot());
            }
            i += 1;
        }
        assert(self@.subrange(0, self@.len() as int) =~= self@);
        r
    }
}

} // verus!
