use vstd::prelude::*;

verus! {

/// The crawl boundary of a lens: every domain, or only those listed.
#[derive(Clone, Debug)]
pub struct Boundary {
    pub any_domain: bool,
    pub domains: Vec<String>,
}

impl Boundary {
    /// Whether a URL of this domain may be crawled.
    pub open spec fn allows(&self, domain: Seq<char>) -> bool {
        self.any_domain || exists|i: int| 0 <= i < self.domains@.len() && #[trigger] self.domains@[i]@ == domain
    }

    /// A boundary that lets every domain through.
    pub fn open() -> (r: Boundary)
        ensures
            forall|d: Seq<char>| r.allows(d),
    {
        Boundary { any_domain: true, domains: Vec::new() }
    }

    /// A boundary limited to the listed domains.
    pub fn only(domains: Vec<String>) -> (r: Boundary)
        ensures
            !r.any_domain,
            r.domains@ == domains@,
    {
        Boundary { any_domain: false, domains }
    }

    pub fn is_allowed(&self, domain: &String) -> (r: bool)
        ensures
            r == self.allows(domain@),
    {
        if self.any_domain {
            return true;
        }
        let mut i: usize = 0;
        while i < self.domains.len()
            invariant
                0 <= i <= self.domains@.len(),
                forall|j: int| 0 <= j < i ==> #[trigger] self.domains@[j]@ != domain@,
            decreases self.domains@.len() - i,
        {
            if self.domains[i] == *domain {
                return true;
            }
            i += 1;
        }
        false
    }
}

} // verus!
