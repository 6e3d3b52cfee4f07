//! The entries of a page selector and the pages that they cover.

use vstd::prelude::*;

verus! {

/// One entry of a page selector, in the shape in which it was written.
///
/// The open sides of `From` and `UpTo` stand for the largest and the
/// smallest page number that a `usize` can hold. They are resolved only when
/// the bounds are read, with [`PageRange::start`] and [`PageRange::end`].
#[derive(Clone, Copy, Debug, PartialEq, Eq, Structural)]
pub enum PageRange {
    /// `N`: the page `N` alone.
    Single(usize),
    /// `N-M`: the pages from `N` to `M`, both included. Covers no page when
    /// `N` is greater than `M`.
    Between(usize, usize),
    /// `N-`: the page `N` and every page after it.
    From(usize),
    /// `-M`: every page up to `M`, `M` included.
    UpTo(usize),
}

impl PageRange {
    /// The lower bound of the range.
    pub open spec fn spec_start(&self) -> usize {
        match *self {
            PageRange::Single(n) => n,
            PageRange::Between(a, _) => a,
            PageRange::From(a) => a,
            PageRange::UpTo(_) => usize::MIN,
        }
    }

    /// The upper bound of the range.
    pub open spec fn spec_end(&self) -> usize {
        match *self {
            PageRange::Single(n) => n,
            PageRange::Between(_, b) => b,
            PageRange::From(_) => usize::MAX,
            PageRange::UpTo(b) => b,
        }
    }

    /// Whether the range covers `page`.
    pub open spec fn covers(&self, page: nat) -> bool {
        self.spec_start() <= page <= self.spec_end()
    }

    /// Whether the range covers no page at all.
    pub open spec fn spec_is_empty(&self) -> bool {
        self.spec_start() > self.spec_end()
    }

    /// The set of the pages that the range covers.
    pub open spec fn pages(&self) -> Set<nat> {
        Set::new(|page: nat| self.covers(page))
    }

    /// The lower bound of the range: the first page that it covers, if it
    /// covers any.
    #[verifier::when_used_as_spec(spec_start)]
    pub fn start(&self) -> (first: usize)
        ensures
            first == self.spec_start(),
    {
        match *self {
            PageRange::Single(n) => n,
            PageRange::Between(a, _) => a,
            PageRange::From(a) => a,
            PageRange::UpTo(_) => usize::MIN,
        }
    }

    /// The upper bound of the range: the last page that it covers, if it
    /// covers any.
    #[verifier::when_used_as_spec(spec_end)]
    pub fn end(&self) -> (last: usize)
        ensures
            last == self.spec_end(),
    {
        match *self {
            PageRange::Single(n) => n,
            PageRange::Between(_, b) => b,
            PageRange::From(_) => usize::MAX,
            PageRange::UpTo(b) => b,
        }
    }

    /// Tells whether the range covers no page, which is so exactly when its
    /// lower bound lies above its upper bound.
    #[verifier::when_used_as_spec(spec_is_empty)]
    pub fn is_empty(&self) -> (empty: bool)
        ensures
            empty == self.spec_is_empty(),
            empty <==> self.pages() == Set::<nat>::empty(),
    {
        proof {
            if self.spec_start() <= self.spec_end() {
                assert(self.covers(self.spec_start() as nat));
                assert(self.pages().contains(self.spec_start() as nat));
            } else {
                assert(self.pages() =~= Set::<nat>::empty());
            }
        }
        self.start() > self.end()
    }

    /// Tells whether `page` lies between the two bounds of the range.
    pub fn contains(&self, page: usize) -> (found: bool)
        ensures
            found == self.covers(page as nat),
            found == self.pages().contains(page as nat),
    {
        self.start() <= page && page <= self.end()
    }
}

/// The set of the pages that at least one of `ranges` covers.
pub open spec fn page_set(ranges: Seq<PageRange>) -> Set<nat> {
    Set::new(|page: nat| exists|i: int| 0 <= i < ranges.len() && #[trigger] ranges[i].covers(page))
}

/// No entries cover no page.
pub proof fn lemma_page_set_empty()
    ensures
        page_set(Seq::empty()) == Set::<nat>::empty(),
{
    assert(page_set(Seq::empty()) =~= Set::<nat>::empty());
}

/// A single entry covers its own pages.
pub proof fn lemma_page_set_single(range: PageRange)
    ensures
        page_set(seq![range]) == range.pages(),
{
    let single = seq![range];
    assert forall|page: nat| page_set(single).contains(page) == range.pages().contains(page) by {
        if range.covers(page) {
            assert(single[0].covers(page));
        }
    }
    assert(page_set(single) =~= range.pages());
}

/// Two lists of entries, one after the other, cover the pages of the first
/// list together with those of the second.
pub proof fn lemma_page_set_concat(front: Seq<PageRange>, back: Seq<PageRange>)
    ensures
        page_set(front + back) == page_set(front).union(page_set(back)),
{
    let both = front + back;
    assert forall|page: nat| page_set(both).contains(page) == page_set(front).union(
        page_set(back),
    ).contains(page) by {
        if page_set(both).contains(page) {
            let i = choose|i: int| 0 <= i < both.len() && #[trigger] both[i].covers(page);
            if i < front.len() {
                assert(front[i].covers(page));
            } else {
                assert(back[i - front.len()].covers(page));
            }
        }
        if page_set(front).contains(page) {
            let i = choose|i: int| 0 <= i < front.len() && #[trigger] front[i].covers(page);
            assert(both[i].covers(page));
        }
        if page_set(back).contains(page) {
            let i = choose|i: int| 0 <= i < back.len() && #[trigger] back[i].covers(page);
            assert(both[front.len() + i].covers(page));
        }
    }
    assert(page_set(both) =~= page_set(front).union(page_set(back)));
}

} // verus!
