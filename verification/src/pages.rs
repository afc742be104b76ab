//! Homescreen pages: current index, occupancy, and compact-on-idle.

use std::collections::HashMap;

use vstd::prelude::*;

verus! {

broadcast use vstd::std_specs::hash::group_hash_axioms;

#[derive(Clone, Copy, Debug, PartialEq, Eq, Structural)]
pub struct Pages {
    pub current: u32,
    /// Occupied-page count when a lift started.
    pub lift_from: Option<u32>,
}

/// The distinct pages in `occupied`.
pub open spec fn page_set(occupied: Seq<u32>) -> Set<u32> {
    occupied.to_set()
}

/// New index of page `p` once empty pages are squeezed out: how many
/// occupied pages come before it.
pub open spec fn rank(pages: Set<u32>, p: u32) -> nat {
    pages.filter(|q: u32| q < p).len()
}

pub open spec fn count_spec(p: Pages, occupied: Seq<u32>, carrying: Option<u32>) -> int {
    let u = page_set(occupied).len() as u32;
    let packed = if u >= 1 {
        u as int
    } else {
        1
    };
    match (p.lift_from, carrying) {
        (Some(base), Some(lift)) => if lift < base {
            base + 1
        } else {
            lift + 1
        },
        _ => packed,
    }
}

impl Default for Pages {
    fn default() -> (p: Self)
        ensures
            p.current == 0,
            p.lift_from is None,
    {
        Pages { current: 0, lift_from: None }
    }
}

impl Pages {
    pub fn new() -> (p: Self)
        ensures
            p.current == 0,
            p.lift_from is None,
    {
        Pages { current: 0, lift_from: None }
    }

    pub fn current(&self) -> (r: u32)
        ensures
            r == self.current,
    {
        self.current
    }

    pub fn jump(&mut self, page: u32)
        ensures
            final(self).current == page,
            final(self).lift_from == old(self).lift_from,
    {
        self.current = page;
    }

    /// Whether `page` is the current page or one of its neighbours.
    pub fn nearby(&self, page: u32) -> (b: bool)
        ensures
            b == (-1 <= page - self.current <= 1),
    {
        if page >= self.current {
            page - self.current <= 1
        } else {
            self.current - page <= 1
        }
    }

    /// Horizontal offset of page `index` relative to the current page.
    pub fn offset(&self, index: u32, width: i32) -> (r: i32)
        requires
            index <= i32::MAX,
            self.current <= i32::MAX,
            i32::MIN <= (index - self.current) * width <= i32::MAX,
        ensures
            r == (index - self.current) * width,
    {
        (index as i32 - self.current as i32) * width
    }

    /// Remember how many pages there were when a lift started (at least one).
    pub fn begin_lift(&mut self, from: u32)
        ensures
            final(self).lift_from == Some(if from >= 1 {
                from
            } else {
                1u32
            }),
            final(self).current == old(self).current,
    {
        self.lift_from = Some(if from >= 1 {
            from
        } else {
            1
        });
    }

    pub fn end_lift(&mut self)
        ensures
            final(self).lift_from is None,
            final(self).current == old(self).current,
    {
        self.lift_from = None;
    }

    /// Pages to show: the occupied ones (at least one); while an item is
    /// carried, one spare page past the larger of the lift-time count and the
    /// carried item's page.
    pub fn count(&self, occupied: &[u32], carrying: Option<u32>) -> (r: u32)
        requires
            match (self.lift_from, carrying) {
                (Some(base), Some(lift)) => base < u32::MAX && lift < u32::MAX,
                _ => true,
            },
        ensures
            r == count_spec(*self, occupied@, carrying),
    {
        let u = unique_count(occupied);
        let packed = if u >= 1 {
            u
        } else {
            1
        };
        match (self.lift_from, carrying) {
            (Some(base), Some(lift)) => if lift < base {
                base + 1
            } else {
                lift + 1
            },
            _ => packed,
        }
    }

    /// Dense `old → new` page map: the occupied pages in order, renumbered
    /// `0, 1, 2, …`. Caller applies it when nothing is in the air.
    pub fn compact(occupied: &[u32]) -> (m: HashMap<u32, u32>)
        ensures
            m@.dom() == page_set(occupied@),
            forall|p: u32| #[trigger] m@.contains_key(p) ==> m@[p] == rank(page_set(occupied@), p) as u32,
    {
        let distinct = distinct_pages(occupied);
        let mut m: HashMap<u32, u32> = HashMap::new();
        let mut i: usize = 0;
        proof {
            lemma_distinct_finite(distinct@);
        }
        while i < distinct.len()
            invariant
                0 <= i <= distinct@.len(),
                distinct@.no_duplicates(),
                distinct@.to_set() == page_set(occupied@),
                m@.dom() == distinct@.take(i as int).to_set(),
                forall|p: u32|
                    #[trigger] m@.contains_key(p) ==> m@[p] == rank(page_set(occupied@), p) as u32,
            decreases distinct@.len() - i,
        {
            let p = distinct[i];
            let r = below(&distinct, p) as u32;
            proof {
                assert(distinct@.take(i + 1) == distinct@.take(i as int).push(p));
                lemma_push_to_set(distinct@.take(i as int), p);
            }
            m.insert(p, r);
            i = i + 1;
        }
        assert(distinct@.take(distinct@.len() as int) == distinct@);
        m
    }
}

pub proof fn lemma_push_to_set(s: Seq<u32>, x: u32)
    ensures
        s.push(x).to_set() == s.to_set().insert(x),
{
    assert(s.push(x).to_set() =~= s.to_set().insert(x)) by {
        assert forall|y: u32| s.push(x).to_set().contains(y) implies s.to_set().insert(x).contains(
            y,
        ) by {
            let k = choose|k: int| 0 <= k < s.push(x).len() && s.push(x)[k] == y;
            if k < s.len() {
                assert(s[k] == y);
            }
        }
        assert forall|y: u32| s.to_set().insert(x).contains(y) implies s.push(x).to_set().contains(
            y,
        ) by {
            if y == x {
                assert(s.push(x)[s.len() as int] == x);
            } else {
                let k = choose|k: int| 0 <= k < s.len() && s[k] == y;
                assert(s.push(x)[k] == y);
            }
        }
    }
}

proof fn lemma_distinct_finite(s: Seq<u32>)
    ensures
        s.to_set().finite(),
{
    vstd::seq_lib::seq_to_set_is_finite(s);
}

/// The distinct values of `occupied`, in order of first appearance.
fn distinct_pages(occupied: &[u32]) -> (d: Vec<u32>)
    ensures
        d@.no_duplicates(),
        d@.to_set() == page_set(occupied@),
        d@.len() <= occupied@.len(),
{
    let mut d: Vec<u32> = Vec::new();
    let mut i: usize = 0;
    while i < occupied.len()
        invariant
            0 <= i <= occupied@.len(),
            d@.no_duplicates(),
            d@.to_set() == occupied@.take(i as int).to_set(),
            d@.len() <= i,
        decreases occupied@.len() - i,
    {
        let p = occupied[i];
        let mut seen = false;
        let mut j: usize = 0;
        while j < d.len()
            invariant
                0 <= j <= d@.len(),
                seen == exists|k: int| 0 <= k < j && d@[k] == p,
            decreases d@.len() - j,
        {
            if d[j] == p {
                seen = true;
            }
            j = j + 1;
        }
        proof {
            assert(occupied@.take(i + 1) == occupied@.take(i as int).push(p));
            lemma_push_to_set(occupied@.take(i as int), p);
        }
        if !seen {
            proof {
                lemma_push_to_set(d@, p);
                assert(!d@.contains(p));
            }
            d.push(p);
        } else {
            proof {
                let k = choose|k: int| 0 <= k < d@.len() && d@[k] == p;
                assert(d@.to_set().contains(p));
                assert(d@.to_set().insert(p) =~= d@.to_set());
            }
        }
        i = i + 1;
    }
    assert(occupied@.take(occupied@.len() as int) == occupied@);
    d
}

/// Number of distinct values of `d` below `p`, for `d` without duplicates.
fn below(d: &Vec<u32>, p: u32) -> (r: u64)
    requires
        d@.no_duplicates(),
    ensures
        r == rank(d@.to_set(), p),
{
    let mut n: u64 = 0;
    let mut i: usize = 0;
    proof {
        assert(d@.take(0).to_set() =~= Set::<u32>::empty());
        assert(Set::<u32>::empty().filter(|q: u32| q < p) =~= Set::<u32>::empty());
    }
    while i < d.len()
        invariant
            0 <= i <= d@.len(),
            d@.no_duplicates(),
            n == rank(d@.take(i as int).to_set(), p),
            n <= i,
        decreases d@.len() - i,
    {
        let x = d[i];
        proof {
            let t = d@.take(i as int);
            assert(d@.take(i + 1) == t.push(x));
            lemma_push_to_set(t, x);
            vstd::seq_lib::seq_to_set_is_finite(t);
            assert(!t.to_set().contains(x)) by {
                if t.to_set().contains(x) {
                    let k = choose|k: int| 0 <= k < t.len() && t[k] == x;
                    assert(d@[k] == d@[i as int]);
                }
            }
            lemma_rank_insert(t.to_set(), x, p);
        }
        if x < p {
            n = n + 1;
        }
        i = i + 1;
    }
    assert(d@.take(d@.len() as int) == d@);
    n
}

proof fn lemma_rank_insert(s: Set<u32>, x: u32, p: u32)
    requires
        s.finite(),
        !s.contains(x),
    ensures
        rank(s.insert(x), p) == rank(s, p) + (if x < p {
            1int
        } else {
            0int
        }),
{
    let f = |q: u32| q < p;
    s.lemma_len_filter(f);
    if x < p {
        assert(s.insert(x).filter(f) =~= s.filter(f).insert(x));
        assert(!s.filter(f).contains(x));
    } else {
        assert(s.insert(x).filter(f) =~= s.filter(f));
    }
}

/// Number of distinct pages in `occupied`, as a length.
pub fn distinct_count(occupied: &[u32]) -> (r: usize)
    ensures
        r == page_set(occupied@).len(),
{
    let d = distinct_pages(occupied);
    proof {
        d@.unique_seq_to_set();
    }
    d.len()
}

/// Number of distinct pages in `occupied`.
pub fn unique_count(occupied: &[u32]) -> (r: u32)
    ensures
        r == page_set(occupied@).len() as u32,
{
    let d = distinct_pages(occupied);
    proof {
        d@.unique_seq_to_set();
    }
    d.len() as u32
}


/// An occupied page lands below the number of occupied pages.
pub proof fn lemma_rank_below_len(pages: Set<u32>, p: u32)
    requires
        pages.finite(),
        pages.contains(p),
    ensures
        rank(pages, p) < pages.len(),
{
    let f = |q: u32| q < p;
    let lower = pages.filter(f);
    assert(lower.subset_of(pages.remove(p)));
    vstd::set_lib::lemma_len_subset(lower, pages.remove(p));
}

/// Compaction keeps the order of pages: an earlier occupied page gets a
/// smaller new index.
pub proof fn lemma_rank_strictly_monotone(pages: Set<u32>, p: u32, q: u32)
    requires
        pages.finite(),
        pages.contains(p),
        p < q,
    ensures
        rank(pages, p) < rank(pages, q),
{
    let lp = pages.filter(|x: u32| x < p);
    let lq = pages.filter(|x: u32| x < q);
    assert(lp.subset_of(lq.remove(p)));
    pages.lemma_len_filter(|x: u32| x < q);
    vstd::set_lib::lemma_len_subset(lp, lq.remove(p));
}

/// The compaction map of a list of pages is dense and order-preserving:
/// every occupied page gets a new index below the number of distinct
/// occupied pages, and earlier pages get smaller indices.
pub proof fn lemma_compact_dense(occupied: Seq<u32>, p: u32, q: u32)
    requires
        occupied.contains(p),
        occupied.contains(q),
    ensures
        rank(page_set(occupied), p) < page_set(occupied).len(),
        p < q ==> rank(page_set(occupied), p) < rank(page_set(occupied), q),
        page_set(occupied).len() <= occupied.len(),
{
    vstd::seq_lib::seq_to_set_is_finite(occupied);
    occupied.lemma_cardinality_of_set();
    lemma_rank_below_len(page_set(occupied), p);
    if p < q {
        lemma_rank_strictly_monotone(page_set(occupied), p, q);
    }
}

/// Compaction leaves no hole: every index below the number of occupied
/// pages is the new index of an occupied page.
pub proof fn lemma_compact_onto(occupied: Seq<u32>, i: int)
    requires
        0 <= i < page_set(occupied).len(),
    ensures
        exists|p: u32| #[trigger] page_set(occupied).contains(p) && rank(page_set(occupied), p) == i,
{
    let s = page_set(occupied);
    vstd::seq_lib::seq_to_set_is_finite(occupied);
    let n = s.len() as int;
    let f = |p: u32| rank(s, p) as int;
    assert(vstd::relations::injective_on(f, s)) by {
        assert forall|a: u32, b: u32| s.contains(a) && s.contains(b) && #[trigger] f(a) == #[trigger] f(b) implies a == b by {
            if a < b {
                lemma_rank_strictly_monotone(s, a, b);
            } else if b < a {
                lemma_rank_strictly_monotone(s, b, a);
            }
        }
    }
    let img = s.map(f);
    vstd::set_lib::lemma_map_size(s, img, f);
    let range = vstd::set_lib::set_int_range(0, n);
    vstd::set_lib::lemma_int_range(0, n);
    assert(img.subset_of(range)) by {
        assert forall|k: int| img.contains(k) implies range.contains(k) by {
            let p = choose|p: u32| s.contains(p) && f(p) == k;
            lemma_rank_below_len(s, p);
        }
    }
    vstd::set_lib::lemma_subset_equality(img, range);
    assert(range.contains(i));
    assert(img.contains(i));
    let p = choose|p: u32| s.contains(p) && f(p) == i;
    assert(page_set(occupied).contains(p) && rank(page_set(occupied), p) == i);
}

/// The occupied pages after compaction: each entry of `occupied` replaced
/// by its image under the map that `Pages::compact` returns.
pub open spec fn renumber(occupied: Seq<u32>) -> Seq<u32> {
    occupied.map_values(|p: u32| rank(page_set(occupied), p) as u32)
}

/// The `u32` values below `n` are `n` values.
pub proof fn lemma_u32_prefix(n: int)
    requires
        0 <= n <= 0x1_0000_0000,
    ensures
        Set::new(|q: u32| q < n).finite(),
        Set::new(|q: u32| q < n).len() == n,
{
    let ints = vstd::set_lib::set_int_range(0, n);
    vstd::set_lib::lemma_int_range(0, n);
    let f = |k: int| k as u32;
    let target = Set::new(|q: u32| q < n);
    assert(vstd::relations::injective_on(f, ints));
    assert(ints.map(f) =~= target) by {
        assert forall|q: u32| target.contains(q) implies ints.map(f).contains(q) by {
            assert(ints.contains(q as int) && f(q as int) == q);
        }
    }
    vstd::set_lib::lemma_map_size(ints, target, f);
}

/// Compacting twice changes nothing more: once compacted, the occupied
/// pages are exactly `0, 1, …, n − 1` for the `n` pages that were
/// occupied, and compacting those maps every page to itself.
pub proof fn lemma_compact_idempotent(occupied: Seq<u32>)
    ensures
        ({
            let n = page_set(occupied).len();
            let again = page_set(renumber(occupied));
            &&& again == Set::new(|i: u32| i < n)
            &&& forall|i: u32| #[trigger] again.contains(i) ==> rank(again, i) == i
        }),
{
    let s = page_set(occupied);
    let n = s.len();
    let r = renumber(occupied);
    let again = page_set(r);
    vstd::seq_lib::seq_to_set_is_finite(occupied);
    lemma_u32_prefix(0x1_0000_0000);
    vstd::set_lib::lemma_len_subset(s, Set::new(|q: u32| q < 0x1_0000_0000int));
    let dense = Set::new(|i: u32| i < n);
    assert(again =~= dense) by {
        assert forall|i: u32| again.contains(i) implies dense.contains(i) by {
            let k = choose|k: int| 0 <= k < r.len() && r[k] == i;
            assert(s.contains(occupied[k]));
            lemma_rank_below_len(s, occupied[k]);
        }
        assert forall|i: u32| dense.contains(i) implies again.contains(i) by {
            lemma_compact_onto(occupied, i as int);
            let p = choose|p: u32| #[trigger] s.contains(p) && rank(s, p) == i;
            let k = choose|k: int| 0 <= k < occupied.len() && occupied[k] == p;
            assert(r[k] == i);
        }
    }
    assert forall|i: u32| #[trigger] again.contains(i) implies rank(again, i) == i by {
        assert(again.filter(|q: u32| q < i) =~= Set::new(|q: u32| q < i));
        lemma_u32_prefix(i as int);
    }
}

/// No more occupied pages come before `p` than there are numbers below it.
pub proof fn lemma_rank_le(pages: Set<u32>, p: u32)
    ensures
        rank(pages, p) <= p,
{
    lemma_u32_prefix(p as int);
    let f = pages.filter(|q: u32| q < p);
    assert(f.subset_of(Set::new(|q: u32| q < p)));
    vstd::set_lib::lemma_len_subset(f, Set::new(|q: u32| q < p));
}

/// Pages short of the last `u32` number are at most `u32::MAX` pages.
pub proof fn lemma_pages_len(pages: Set<u32>)
    requires
        forall|p: u32| #[trigger] pages.contains(p) ==> p < u32::MAX,
    ensures
        pages.finite(),
        pages.len() <= u32::MAX,
{
    lemma_u32_prefix(u32::MAX as int);
    assert(pages.subset_of(Set::new(|q: u32| q < u32::MAX)));
    vstd::set_lib::lemma_len_subset(pages, Set::new(|q: u32| q < u32::MAX));
}

/// The last of the occupied pages lands on the highest new index, which is
/// no larger than the page itself.
pub proof fn lemma_last_rank(occupied: Seq<u32>)
    requires
        page_set(occupied).len() >= 1,
    ensures
        exists|p: u32| #[trigger] page_set(occupied).contains(p) && page_set(occupied).len() - 1 <= p,
{
    let s = page_set(occupied);
    lemma_compact_onto(occupied, s.len() - 1);
    let p = choose|p: u32| #[trigger] s.contains(p) && rank(s, p) == s.len() - 1;
    lemma_rank_le(s, p);
}

} // verus!
