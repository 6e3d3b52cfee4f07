//! The set of pages that a selector denotes, and the split of a document's
//! pages into those kept and those removed.

use vstd::prelude::*;
use vstd::seq_lib::lemma_seq_contains_after_push;
use crate::range::{
    lemma_page_set_concat, lemma_page_set_empty, lemma_page_set_single, page_set, PageRange,
};

verus! {

/// Whether each page number of `list` is smaller than the one after it.
pub open spec fn increasing(list: Seq<usize>) -> bool {
    forall|i: int, j: int| 0 <= i < j < list.len() ==> list[i] < list[j]
}

/// Whether `list` names, from the first to the last and each once, those
/// pages of a document of `page_count` pages that are in `chosen`. The
/// pages of a document are numbered from one.
pub open spec fn lists_pages(list: Seq<usize>, page_count: nat, chosen: Set<nat>) -> bool {
    &&& increasing(list)
    &&& forall|page: usize| #[trigger]
        list.contains(page) <==> 1 <= page <= page_count && chosen.contains(page as nat)
}

/// A set of page numbers, held as the ranges whose union it is.
///
/// Every range that is held covers at least one page: its lower bound is
/// not above its upper bound.
#[derive(Debug)]
pub struct Pages {
    ranges: Vec<PageRange>,
}

impl View for Pages {
    type V = Set<nat>;

    /// The page numbers in the set.
    closed spec fn view(&self) -> Set<nat> {
        page_set(self.ranges@)
    }
}

impl Clone for Pages {
    /// A set of the same pages.
    fn clone(&self) -> (copy: Self)
        ensures
            copy@ == self@,
    {
        proof {
            use_type_invariant(self);
        }
        let ranges = self.ranges.clone();
        assert(ranges@ == self.ranges@);
        Pages { ranges }
    }
}

impl Pages {
    #[verifier::type_invariant]
    spec fn holds_no_empty_range(self) -> bool {
        forall|i: int| 0 <= i < self.ranges@.len() ==> !(#[trigger] self.ranges@[i]).spec_is_empty()
    }

    /// The union of `ranges`. Ranges that cover no page add nothing to it.
    pub fn from_ranges(ranges: &[PageRange]) -> (pages: Pages)
        ensures
            pages@ == page_set(ranges@),
    {
        let mut held: Vec<PageRange> = Vec::new();
        let mut done: usize = 0;
        proof {
            lemma_page_set_empty();
            assert(ranges@.take(0) == Seq::<PageRange>::empty());
        }
        while done < ranges.len()
            invariant
                done <= ranges@.len(),
                forall|i: int| 0 <= i < held@.len() ==> !(#[trigger] held@[i]).spec_is_empty(),
                page_set(held@) == page_set(ranges@.take(done as int)),
            decreases ranges@.len() - done,
        {
            let range = ranges[done];
            let empty = range.is_empty();
            proof {
                assert(ranges@.take(done + 1) == ranges@.take(done as int) + seq![range]);
                lemma_page_set_concat(ranges@.take(done as int), seq![range]);
                lemma_page_set_single(range);
                if !empty {
                    assert(held@.push(range) == held@ + seq![range]);
                    lemma_page_set_concat(held@, seq![range]);
                } else {
                    assert(page_set(held@).union(Set::<nat>::empty()) == page_set(held@));
                }
            }
            if !empty {
                held.push(range);
            }
            done += 1;
        }
        assert(ranges@.take(done as int) == ranges@);
        Pages { ranges: held }
    }

    /// Tells whether `page` is in the set.
    pub fn contains(&self, page: usize) -> (found: bool)
        ensures
            found == self@.contains(page as nat),
    {
        let mut i: usize = 0;
        while i < self.ranges.len()
            invariant
                i <= self.ranges@.len(),
                forall|k: int| 0 <= k < i ==> !(#[trigger] self.ranges@[k]).covers(page as nat),
            decreases self.ranges@.len() - i,
        {
            if self.ranges[i].contains(page) {
                return true;
            }
            i += 1;
        }
        false
    }

    /// Tells whether the set holds no page at all.
    pub fn is_empty(&self) -> (empty: bool)
        ensures
            empty <==> self@ == Set::<nat>::empty(),
    {
        proof {
            use_type_invariant(self);
            if self.ranges@.len() == 0 {
                lemma_page_set_empty();
                assert(self.ranges@ == Seq::<PageRange>::empty());
            } else {
                let first = self.ranges@[0];
                assert(first.covers(first.spec_start() as nat));
                assert(self@.contains(first.spec_start() as nat));
            }
        }
        self.ranges.len() == 0
    }

    /// The pages of a document of `page_count` pages that are in the set if
    /// `wanted` is true, and those that are not in it if `wanted` is false.
    fn pages_where(&self, page_count: usize, wanted: bool) -> (list: Vec<usize>)
        ensures
            lists_pages(list@, page_count as nat, if wanted { self@ } else { self@.complement() }),
    {
        let ghost chosen = if wanted { self@ } else { self@.complement() };
        let mut list: Vec<usize> = Vec::new();
        let mut page: usize = 0;
        while page < page_count
            invariant
                page <= page_count,
                chosen == if wanted { self@ } else { self@.complement() },
                lists_pages(list@, page as nat, chosen),
            decreases page_count - page,
        {
            page += 1;
            let ghost before = list@;
            let found = self.contains(page);
            assert(chosen.contains(page as nat) == (found == wanted));
            if found == wanted {
                list.push(page);
                proof {
                    assert forall|i: int, j: int| 0 <= i < j < list@.len() implies list@[i]
                        < list@[j] by {
                        assert(before.contains(before[i]));
                    }
                }
            }
            proof {
                assert forall|other: usize| #[trigger]
                    list@.contains(other) <==> 1 <= other <= page && chosen.contains(
                        other as nat,
                    ) by {
                    if found == wanted {
                        lemma_seq_contains_after_push(before, page, other);
                    }
                    assert(before.contains(other) <==> 1 <= other <= page - 1 && chosen.contains(
                        other as nat,
                    ));
                }
            }
        }
        list
    }

    /// The pages to keep of a document of `page_count` pages: those of its
    /// pages that are in the set, from the first to the last. The pages of a
    /// document are numbered from one, so pages in the set that lie above
    /// `page_count`, and page zero, are not listed.
    pub fn pages_to_keep(&self, page_count: usize) -> (kept: Vec<usize>)
        ensures
            lists_pages(kept@, page_count as nat, self@),
    {
        self.pages_where(page_count, true)
    }

    /// The pages to remove from a document of `page_count` pages so that
    /// only the pages in the set are left: those of its pages that are not
    /// in the set, from the first to the last.
    pub fn pages_to_remove(&self, page_count: usize) -> (removed: Vec<usize>)
        ensures
            lists_pages(removed@, page_count as nat, self@.complement()),
    {
        self.pages_where(page_count, false)
    }
}

} // verus!
