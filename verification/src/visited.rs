use vstd::prelude::*;

verus! {

/// The set of normalized URLs already scheduled or fetched, in insertion
/// order. A URL is inserted at most once; once inserted it is never removed.
pub struct VisitedSet {
    urls: Vec<String>,
}

impl View for VisitedSet {
    type V = Seq<Seq<char>>;

    closed spec fn view(&self) -> Seq<Seq<char>> {
        self.urls.deep_view()
    }
}

impl VisitedSet {
    /// No URL is ever held twice; every `VisitedSet` satisfies this, as its
    /// type invariant.
    #[verifier::type_invariant]
    pub closed spec fn wf(self) -> bool {
        forall|i: int, j: int|
            0 <= i < j < self.urls@.len() ==> self.urls@[i]@ != self.urls@[j]@
    }

    /// The empty set, at engine start.
    pub fn new() -> (r: VisitedSet)
        ensures
            r@ == Seq::<Seq<char>>::empty(),
    {
        VisitedSet { urls: Vec::new() }
    }

    pub fn len(&self) -> (n: usize)
        ensures
            n == self@.len(),
    {
        self.urls.len()
    }

    /// Whether `url` was already scheduled or fetched.
    pub fn contains(&self, url: &String) -> (b: bool)
        ensures
            b == self@.contains(url@),
    {
        let n = self.urls.len();
        let mut i: usize = 0;
        while i < n
            invariant
                0 <= i <= n,
                n == self.urls@.len(),
                self@.len() == n,
                forall|k: int| 0 <= k < n ==> self@[k] == self.urls@[k]@,
                forall|k: int| 0 <= k < i ==> self@[k] != url@,
            decreases n - i,
        {
            if self.urls[i].eq(url) {
                assert(self@[i as int] == url@);
                return true;
            }
            i = i + 1;
        }
        assert(!self@.contains(url@)) by {
            assert(forall|k: int| 0 <= k < self@.len() ==> self@[k] != url@);
        }
        false
    }

    /// The one mutation entry point: atomically check membership and, when
    /// absent, insert. Returns whether `url` was newly inserted.
    pub fn check_and_insert(&mut self, url: &String) -> (inserted: bool)
        ensures
            inserted == !old(self)@.contains(url@),
            inserted ==> final(self)@ == old(self)@.push(url@),
            !inserted ==> final(self)@ == old(self)@,
    {
        proof {
            use_type_invariant(&*self);
        }
        if self.contains(url) {
            return false;
        }
        let mut urls: Vec<String> = Vec::new();
        std::mem::swap(&mut urls, &mut self.urls);
        urls.push(url.clone());
        proof {
            assert(urls.deep_view() =~= old(self)@.push(url@));
            assert(forall|k: int|
                0 <= k < old(self)@.len() ==> old(self)@[k] == #[trigger] urls@[k]@);
            assert(forall|k: int|
                0 <= k < old(self)@.len() ==> #[trigger] urls@[k]@ != url@) by {
                assert(forall|k: int|
                    0 <= k < old(self)@.len() ==> old(self)@.contains(#[trigger] old(self)@[k]));
            }
        }
        self.urls = urls;
        true
    }
}

/// At-most-once visitation: across the lifetime of a `VisitedSet`, no URL
/// stands in it twice — two distinct positions always hold distinct URLs.
/// `v.wf()` holds of every `VisitedSet` value, as its type invariant;
/// callers obtain it with `use_type_invariant`.
pub proof fn lemma_visited_at_most_once(v: &VisitedSet, i: int, j: int)
    requires
        v.wf(),
        0 <= i < v@.len(),
        0 <= j < v@.len(),
        i != j,
    ensures
        v@[i] != v@[j],
{
}

} // verus!
