//! Fixed-size paging over a sorted episode list: a pure state transition
//! over the sorted list and a page index, with no I/O and no resources.

use vstd::prelude::*;

verus! {

use vstd::arithmetic::mul::lemma_mul_inequality;
use vstd::seq_lib::group_to_multiset_ensures;
use crate::models::{EpisodeMeta, EpisodeNumber};

/// Episodes stand in ascending numeric order.
pub open spec fn sorted_by_number(s: Seq<EpisodeMeta>) -> bool {
    forall|a: int, b: int|
        0 <= a <= b < s.len() ==> (#[trigger] s[a]).number.spec_le(#[trigger] s[b].number)
}

fn number_exceeds(v: &Vec<EpisodeMeta>, k: usize, x: EpisodeMeta) -> (r: bool)
    requires
        k < v@.len(),
    ensures
        r == !v@[k as int].number.spec_le(x.number),
{
    !v[k].number.le(&x.number)
}

/// Sorts episodes ascending by number, keeping exactly the same elements.
pub fn sort_episodes(v: &mut Vec<EpisodeMeta>)
    ensures
        sorted_by_number(final(v)@),
        final(v)@.to_multiset() == old(v)@.to_multiset(),
        final(v)@.len() == old(v)@.len(),
{
    broadcast use group_to_multiset_ensures;

    let ghost orig = v@;
    if v.len() < 2 {
        return ;
    }
    let mut i: usize = 1;
    while i < v.len()
        invariant
            1 <= i <= v@.len(),
            v@.len() >= 2,
            sorted_by_number(v@.take(i as int)),
            v@.to_multiset() == orig.to_multiset(),
            v@.len() == orig.len(),
        decreases v@.len() - i,
    {
        let x = v[i];
        let ghost s = v@;
        let mut p: usize = i;
        while p > 0 && number_exceeds(v, p - 1, x)
            invariant
                0 <= p <= i < v@.len(),
                v@ == s,
                x == s[i as int],
                forall|k: int| p <= k < i ==> !(#[trigger] s[k]).number.spec_le(x.number),
            decreases p,
        {
            p = p - 1;
        }
        let y = v.remove(i);
        v.insert(p, y);
        proof {
            let t = v@;
            s.remove_ensures(i as int);
            s.remove(i as int).insert_ensures(p as int, x);
            assert(t == s.remove(i as int).insert(p as int, x));
            assert(t.len() == s.len());
            assert(forall|k: int| 0 <= k < p ==> #[trigger] t[k] == s[k]);
            assert(t[p as int] == x);
            assert(forall|k: int|
                p < k <= i ==> #[trigger] t[k] == s[k - 1]);
            assert(forall|k: int| i < k < t.len() ==> #[trigger] t[k] == s[k]);
            // Same elements: the removed episode is re-inserted.
            broadcast use vstd::multiset::group_multiset_axioms;

            vstd::seq_lib::to_multiset_remove(s, i as int);
            vstd::seq_lib::to_multiset_insert(s.remove(i as int), p as int, x);
            vstd::seq_lib::to_multiset_contains(s, x);
            assert(s.contains(x)) by {
                assert(s[i as int] == x);
            }
            assert(t.to_multiset() == s.to_multiset().remove(x).insert(x));
            assert(s.to_multiset().count(x) > 0);
            assert(t.to_multiset() =~= s.to_multiset());
            // The freshly placed episode sits between its neighbours.
            assert(sorted_by_number(t.take(i + 1))) by {
                assert(forall|k: int|
                    0 <= k < i ==> s.take(i as int)[k] == #[trigger] s[k]);
                assert(forall|a: int, b: int|
                    0 <= a <= b < i ==> (#[trigger] s[a]).number.spec_le(
                        #[trigger] s[b].number,
                    )) by {
                    assert(forall|a: int, b: int|
                        0 <= a <= b < i ==> s.take(i as int)[a] == #[trigger] s[a] && s.take(
                            i as int,
                        )[b] == #[trigger] s[b]);
                }
                assert(forall|k: int| 0 <= k < t.take(i + 1).len() ==> t.take(i + 1)[k]
                    == #[trigger] t[k]);
            }
        }
        i = i + 1;
    }
    proof {
        assert(v@.take(v@.len() as int) =~= v@);
    }
}

/// Pages of a fixed size over a sorted episode list. The page index moves
/// one page at a time and is clamped at both ends.
#[derive(Clone, Debug, PartialEq)]
pub struct Pager {
    pub episodes: Vec<EpisodeMeta>,
    pub page: usize,
    pub page_size: usize,
}

impl Pager {
    /// Pages are non-empty and the current page holds at least one
    /// episode, except on an empty list.
    pub open spec fn wf(self) -> bool {
        &&& self.page_size >= 1
    &&& sorted_by_number(self.episodes@)
        &&& (self.page == 0 || self.page * self.page_size < self.episodes@.len())
    }

    /// First episode index of the current page.
    pub open spec fn page_start(self) -> int {
        self.page * self.page_size
    }

    /// One past the last episode index of the current page.
    pub open spec fn page_end(self) -> int {
        if self.page_start() + self.page_size <= self.episodes@.len() {
            self.page_start() + self.page_size
        } else {
            self.episodes@.len() as int
        }
    }

    /// The episodes of the current page, in order.
    pub open spec fn spec_page_items(self) -> Seq<EpisodeMeta> {
        self.episodes@.subrange(self.page_start(), self.page_end())
    }

    /// A page follows the current one.
    pub open spec fn spec_has_next(self) -> bool {
        self.page_start() + self.page_size < self.episodes@.len()
    }

    /// A page precedes the current one.
    pub open spec fn spec_has_prev(self) -> bool {
        self.page > 0
    }

    /// The pager one step forward: the next page when there is one,
    /// unchanged otherwise.
    pub open spec fn spec_next(self) -> Pager {
        if self.spec_has_next() {
            Pager {
                episodes: self.episodes,
                page: (self.page + 1) as usize,
                page_size: self.page_size,
            }
        } else {
            self
        }
    }

    /// The pager one step back: the previous page when there is one,
    /// unchanged otherwise.
    pub open spec fn spec_prev(self) -> Pager {
        if self.page > 0 {
            Pager {
                episodes: self.episodes,
                page: (self.page - 1) as usize,
                page_size: self.page_size,
            }
        } else {
            self
        }
    }

    /// Sorts the episodes and opens on the first page.
    pub fn new(episodes: Vec<EpisodeMeta>, page_size: usize) -> (r: Pager)
        requires
            page_size >= 1,
        ensures
            r.wf(),
            r.episodes@.to_multiset() == episodes@.to_multiset(),
            r.episodes@.len() == episodes@.len(),
            r.page == 0,
            r.page_size == page_size,
    {
        let mut eps = episodes;
        sort_episodes(&mut eps);
        Pager { episodes: eps, page: 0, page_size }
    }

    fn page_bounds(&self) -> (r: (usize, usize))
        requires
            self.wf(),
        ensures
            r.0 == self.page_start(),
            r.1 == self.page_end(),
    {
        let len = self.episodes.len();
        let start = self.page * self.page_size;
        let end = if len - start < self.page_size {
            len
        } else {
            start + self.page_size
        };
        (start, end)
    }

    /// The episodes shown on the current page.
    pub fn current_page_items(&self) -> (r: Vec<EpisodeMeta>)
        requires
            self.wf(),
        ensures
            r@ == self.spec_page_items(),
    {
        let (start, end) = self.page_bounds();
        let mut items: Vec<EpisodeMeta> = Vec::new();
        let mut k: usize = start;
        while k < end
            invariant
                self.wf(),
                self.page_start() == start,
                self.page_end() == end,
                start <= k <= end <= self.episodes@.len(),
                items@ == self.episodes@.subrange(start as int, k as int),
            decreases end - k,
        {
            items.push(self.episodes[k]);
            proof {
                assert(self.episodes@.subrange(start as int, k + 1) =~= self.episodes@.subrange(
                    start as int,
                    k as int,
                ).push(self.episodes@[k as int]));
            }
            k = k + 1;
        }
        items
    }

    /// The number of the episode at this offset within the current page,
    /// when the offset is on the page.
    pub fn select(&self, offset: usize) -> (r: Option<EpisodeNumber>)
        requires
            self.wf(),
        ensures
            if offset < self.spec_page_items().len() {
                r == Some(self.spec_page_items()[offset as int].number)
            } else {
                r is None
            },
    {
        let (start, end) = self.page_bounds();
        if offset < end - start {
            Some(self.episodes[start + offset].number)
        } else {
            None
        }
    }

    pub fn has_next(&self) -> (r: bool)
        requires
            self.wf(),
        ensures
            r == self.spec_has_next(),
    {
        let (start, end) = self.page_bounds();
        end < self.episodes.len()
    }

    pub fn has_prev(&self) -> (r: bool)
        ensures
            r == self.spec_has_prev(),
    {
        self.page > 0
    }

    /// Advances one page when a next page exists; the last page is kept
    /// otherwise.
    pub fn next_page(&mut self)
        requires
            old(self).wf(),
        ensures
            *final(self) == old(self).spec_next(),
            final(self).wf(),
    {
        let len = self.episodes.len();
        let (start, end) = self.page_bounds();
        if end < len {
            proof {
                assert(self.page * self.page_size + self.page_size == (self.page + 1)
                    * self.page_size) by (nonlinear_arith);
                lemma_mul_inequality(1, self.page_size as int, (self.page + 1) as int);
            }
            self.page = self.page + 1;
        }
    }

    /// Retreats one page; the first page is kept.
    pub fn prev_page(&mut self)
        requires
            old(self).wf(),
        ensures
            *final(self) == old(self).spec_prev(),
            final(self).wf(),
    {
        if self.page > 0 {
            proof {
                lemma_mul_inequality(
                    (self.page - 1) as int,
                    self.page as int,
                    self.page_size as int,
                );
            }
            self.page = self.page - 1;
        }
    }
}

/// `spec_next` keeps a well-formed pager well formed and never touches the
/// episode list.
pub proof fn lemma_next_preserves_wf(p: Pager)
    requires
        p.wf(),
    ensures
        p.spec_next().wf(),
        p.spec_next().episodes == p.episodes,
        p.spec_next().page_size == p.page_size,
        p.spec_has_next() ==> p.spec_next().page == p.page + 1,
{
    vstd::std_specs::vec::axiom_spec_len(&p.episodes);
    if p.spec_has_next() {
        assert((p.page + 1) * p.page_size == p.page * p.page_size + p.page_size)
            by (nonlinear_arith);
        lemma_mul_inequality(1, p.page_size as int, (p.page + 1) as int);
    }
}

/// `spec_prev` keeps a well-formed pager well formed and never touches the
/// episode list.
pub proof fn lemma_prev_preserves_wf(p: Pager)
    requires
        p.wf(),
    ensures
        p.spec_prev().wf(),
        p.spec_prev().episodes == p.episodes,
        p.spec_prev().page_size == p.page_size,
{
    if p.page > 0 {
        let q = p.spec_prev();
        if q.page > 0 {
            lemma_mul_inequality(q.page as int, p.page as int, p.page_size as int);
        }
    }
}

/// The pager after `n` forward steps.
pub open spec fn spec_advance(p: Pager, n: nat) -> Pager
    decreases n,
{
    if n == 0 {
        p
    } else {
        spec_advance(p, (n - 1) as nat).spec_next()
    }
}

/// The pager after `n` backward steps.
pub open spec fn spec_retreat(p: Pager, n: nat) -> Pager
    decreases n,
{
    if n == 0 {
        p
    } else {
        spec_retreat(p.spec_prev(), (n - 1) as nat)
    }
}

proof fn lemma_advance_bounds(p: Pager, n: nat)
    requires
        p.wf(),
    ensures
        spec_advance(p, n).wf(),
        spec_advance(p, n).episodes == p.episodes,
        spec_advance(p, n).page_size == p.page_size,
        spec_advance(p, n).page <= p.page + n,
    decreases n,
{
    if n > 0 {
        lemma_advance_bounds(p, (n - 1) as nat);
        lemma_next_preserves_wf(spec_advance(p, (n - 1) as nat));
    }
}

proof fn lemma_advance_exact(p: Pager, n: nat)
    requires
        p.wf(),
        n == 0 || (p.page + n) * p.page_size < p.episodes@.len(),
    ensures
        spec_advance(p, n).wf(),
        spec_advance(p, n).episodes == p.episodes,
        spec_advance(p, n).page_size == p.page_size,
        spec_advance(p, n).page == p.page + n,
    decreases n,
{
    if n > 0 {
        if n > 1 {
            lemma_mul_inequality(
                (p.page + n - 1) as int,
                (p.page + n) as int,
                p.page_size as int,
            );
        }
        lemma_advance_exact(p, (n - 1) as nat);
        let q = spec_advance(p, (n - 1) as nat);
        assert((q.page + 1) * q.page_size < q.episodes@.len());
        assert(q.spec_has_next()) by {
            assert(q.page * q.page_size + q.page_size == (q.page + 1) * q.page_size)
                by (nonlinear_arith);
        }
        lemma_next_preserves_wf(q);
    }
}

proof fn lemma_retreat_exact(p: Pager, n: nat)
    requires
        p.wf(),
    ensures
        spec_retreat(p, n).wf(),
        spec_retreat(p, n).episodes == p.episodes,
        spec_retreat(p, n).page_size == p.page_size,
        spec_retreat(p, n).page == if p.page >= n {
            (p.page - n) as int
        } else {
            0int
        },
    decreases n,
{
    if n > 0 {
        lemma_prev_preserves_wf(p);
        lemma_retreat_exact(p.spec_prev(), (n - 1) as nat);
    }
}

/// Paging forward and then backward the same number of steps returns the
/// pager to its original state — in particular to the same page items —
/// whenever the forward steps stay on real pages, and always from the
/// first page.
pub proof fn lemma_page_round_trip(p: Pager, n: nat)
    requires
        p.wf(),
        p.page == 0 || n == 0 || (p.page + n) * p.page_size < p.episodes@.len(),
    ensures
        spec_retreat(spec_advance(p, n), n) == p,
        spec_retreat(spec_advance(p, n), n).spec_page_items() == p.spec_page_items(),
{
    if n == 0 || (p.page + n) * p.page_size < p.episodes@.len() {
        lemma_advance_exact(p, n);
        let q = spec_advance(p, n);
        lemma_retreat_exact(q, n);
        let r = spec_retreat(q, n);
        assert(r.page == p.page);
        assert(r == p);
    } else {
        lemma_advance_bounds(p, n);
        let q = spec_advance(p, n);
        lemma_retreat_exact(q, n);
        let r = spec_retreat(q, n);
        assert(r.page == 0 == p.page);
        assert(r == p);
    }
}

} // verus!
