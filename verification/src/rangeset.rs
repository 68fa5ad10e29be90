//! Sets of half-open `u32` intervals kept in a flat, order-preserving list.
//!
//! The model of a [`RangeSet`] is the sequence of its intervals in storage
//! order.  Every operation is specified as a transformation of that sequence;
//! the address-level reading (`holds`, `measure`) is derived from it.

use vstd::prelude::*;

verus! {

/// Why an interval could not be taken out of a [`RangeSet`].
#[derive(Debug, Clone, Copy, PartialEq, Eq, Structural)]
pub enum Error {
    /// No single stored interval covers the requested one.
    OutOfBounds,
    /// No stored interval is long enough.
    NoFit,
}

/// `r` can give up `[start, end)`: `start` lies inside `r` and `end` does not
/// pass its upper bound.
pub open spec fn covers(r: (u32, u32), start: u32, end: u32) -> bool {
    r.0 <= start && start < r.1 && end <= r.1
}

/// `r` is at least `size` addresses long.  An interval whose upper bound lies
/// below its lower bound holds nothing and fits no request.
pub open spec fn fits(r: (u32, u32), size: u32) -> bool {
    r.0 <= r.1 && size <= r.1 - r.0
}

/// The index of the first interval of `s`, from index `from` on, that covers
/// `[start, end)`; `s.len()` when there is none.
pub open spec fn covering_index(s: Seq<(u32, u32)>, from: int, start: u32, end: u32) -> int
    decreases s.len() - from,
{
    if from >= s.len() {
        s.len() as int
    } else if covers(s[from], start, end) {
        from
    } else {
        covering_index(s, from + 1, start, end)
    }
}

/// The index of the first interval of `s`, from index `from` on, that is at
/// least `size` long; `s.len()` when there is none.
pub open spec fn fit_index(s: Seq<(u32, u32)>, from: int, size: u32) -> int
    decreases s.len() - from,
{
    if from >= s.len() {
        s.len() as int
    } else if fits(s[from], size) {
        from
    } else {
        fit_index(s, from + 1, size)
    }
}

/// `s` after `[start, end)` has been taken out of the first interval that
/// covers it; `None` when no interval does.
pub open spec fn without(s: Seq<(u32, u32)>, start: u32, end: u32) -> Option<Seq<(u32, u32)>> {
    let i = covering_index(s, 0, start, end);
    if i < s.len() {
        Some(carve(s, i, start, end))
    } else {
        None
    }
}

/// The block of `size` addresses at the bottom of the first interval of `s`
/// that is at least `size` long; `None` when no interval is.
pub open spec fn first_fit(s: Seq<(u32, u32)>, size: u32) -> Option<(u32, u32)> {
    let i = fit_index(s, 0, size);
    if i < s.len() {
        Some((s[i].0, (s[i].0 + size) as u32))
    } else {
        None
    }
}

/// `s` after the block that `first_fit` names has been taken out of it;
/// `s` itself when there is no such block.
pub open spec fn without_first_fit(s: Seq<(u32, u32)>, size: u32) -> Seq<(u32, u32)> {
    let i = fit_index(s, 0, size);
    if i < s.len() {
        carve(s, i, s[i].0, (s[i].0 + size) as u32)
    } else {
        s
    }
}

/// What is left of `r` once `[start, end)` is taken out: the part below
/// `start` and the part from `end` on, each dropped when it is empty.
pub open spec fn remainder(r: (u32, u32), start: u32, end: u32) -> Seq<(u32, u32)> {
    let low = if r.0 == start {
        Seq::<(u32, u32)>::empty()
    } else {
        seq![(r.0, start)]
    };
    let high = if end == r.1 {
        Seq::<(u32, u32)>::empty()
    } else {
        seq![(end, r.1)]
    };
    low + high
}

/// `s` with interval `i` replaced, in place, by what is left of it after
/// `[start, end)` is taken out.
pub open spec fn carve(s: Seq<(u32, u32)>, i: int, start: u32, end: u32) -> Seq<(u32, u32)> {
    s.take(i) + remainder(s[i], start, end) + s.skip(i + 1)
}

/// Address `a` lies in one of the intervals of `s`.
pub open spec fn holds(s: Seq<(u32, u32)>, a: int) -> bool {
    exists|i: int| 0 <= i < s.len() && (#[trigger] s[i]).0 <= a && a < s[i].1
}

/// The intervals of `s` are well formed, ascending and pairwise disjoint.
pub open spec fn ordered(s: Seq<(u32, u32)>) -> bool {
    &&& forall|i: int| 0 <= i < s.len() ==> (#[trigger] s[i]).0 <= s[i].1
    &&& forall|i: int, j: int| 0 <= i < j < s.len() ==> (#[trigger] s[i]).1 <= (#[trigger] s[j]).0
}

/// Sum of the lengths of the intervals of `s`.
pub open spec fn measure(s: Seq<(u32, u32)>) -> int
    decreases s.len(),
{
    if s.len() == 0 {
        0
    } else {
        measure(s.drop_last()) + (s.last().1 - s.last().0)
    }
}

/// The state of a set after a run of first-fit requests, one per entry of
/// `sizes`, each of which succeeds; `None` as soon as one finds no fit.
pub open spec fn after_fits(s: Seq<(u32, u32)>, sizes: Seq<u32>) -> Option<Seq<(u32, u32)>>
    decreases sizes.len(),
{
    if sizes.len() == 0 {
        Some(s)
    } else {
        match after_fits(s, sizes.drop_last()) {
            None => None,
            Some(t) => if first_fit(t, sizes.last()) is Some {
                Some(without_first_fit(t, sizes.last()))
            } else {
                None
            },
        }
    }
}

/// Sum of the entries of `sizes`.
pub open spec fn total(sizes: Seq<u32>) -> int
    decreases sizes.len(),
{
    if sizes.len() == 0 {
        0
    } else {
        total(sizes.drop_last()) + sizes.last()
    }
}

/// `covering_index` finds the first interval that covers `[start, end)`: no
/// interval before its result does, and its result, unless it is `s.len()`,
/// does.
pub proof fn law_covering_index(s: Seq<(u32, u32)>, from: int, start: u32, end: u32)
    requires
        0 <= from <= s.len(),
    ensures
        from <= covering_index(s, from, start, end) <= s.len(),
        forall|j: int|
            from <= j < covering_index(s, from, start, end) ==> !covers(#[trigger] s[j], start, end),
        covering_index(s, from, start, end) < s.len() ==> covers(
            s[covering_index(s, from, start, end)],
            start,
            end,
        ),
    decreases s.len() - from,
{
    if from < s.len() && !covers(s[from], start, end) {
        law_covering_index(s, from + 1, start, end);
    }
}

/// `fit_index` finds the first interval that is at least `size` long: no
/// interval before its result is, and its result, unless it is `s.len()`, is.
pub proof fn law_fit_index(s: Seq<(u32, u32)>, from: int, size: u32)
    requires
        0 <= from <= s.len(),
    ensures
        from <= fit_index(s, from, size) <= s.len(),
        forall|j: int| from <= j < fit_index(s, from, size) ==> !fits(#[trigger] s[j], size),
        fit_index(s, from, size) < s.len() ==> fits(s[fit_index(s, from, size)], size),
    decreases s.len() - from,
{
    if from < s.len() && !fits(s[from], size) {
        law_fit_index(s, from + 1, size);
    }
}

/// The measure of two lists laid end to end is the sum of their measures.
proof fn lemma_measure_concat(x: Seq<(u32, u32)>, y: Seq<(u32, u32)>)
    ensures
        measure(x + y) == measure(x) + measure(y),
    decreases y.len(),
{
    if y.len() == 0 {
        assert(x + y =~= x);
    } else {
        lemma_measure_concat(x, y.drop_last());
        assert((x + y).drop_last() =~= x + y.drop_last());
        assert((x + y).last() == y.last());
    }
}

/// The measure of a list of at most two intervals.
proof fn lemma_measure_short(x: Seq<(u32, u32)>)
    requires
        x.len() <= 2,
    ensures
        x.len() == 0 ==> measure(x) == 0,
        x.len() == 1 ==> measure(x) == x[0].1 - x[0].0,
        x.len() == 2 ==> measure(x) == (x[0].1 - x[0].0) + (x[1].1 - x[1].0),
{
    reveal_with_fuel(measure, 3);
    if x.len() == 2 {
        assert(x.drop_last().last() == x[0]);
    }
}

/// Taking `[start, end)` out of any interval of a set lowers the measure of
/// the set by `end - start`.
pub proof fn law_carve_measure(s: Seq<(u32, u32)>, i: int, start: u32, end: u32)
    requires
        0 <= i < s.len(),
    ensures
        measure(carve(s, i, start, end)) == measure(s) - (end - start),
{
    let rest = remainder(s[i], start, end);
    lemma_measure_short(rest);
    lemma_measure_short(seq![s[i]]);
    lemma_measure_concat(s.take(i), rest);
    lemma_measure_concat(s.take(i) + rest, s.skip(i + 1));
    lemma_measure_concat(s.take(i), seq![s[i]]);
    lemma_measure_concat(s.take(i) + seq![s[i]], s.skip(i + 1));
    assert(s =~= s.take(i) + seq![s[i]] + s.skip(i + 1));
}

/// In an ordered set, taking a sub-interval `[start, end)` out of interval
/// `i` keeps the set ordered and removes exactly the addresses of
/// `[start, end)` from it.
pub proof fn law_carve_holds(s: Seq<(u32, u32)>, i: int, start: u32, end: u32)
    requires
        ordered(s),
        0 <= i < s.len(),
        s[i].0 <= start <= end <= s[i].1,
    ensures
        ordered(carve(s, i, start, end)),
        forall|a: int| holds(carve(s, i, start, end), a) <==> holds(s, a) && !(start <= a < end),
{
    let rest = remainder(s[i], start, end);
    let c = carve(s, i, start, end);
    let k = rest.len() as int;
    assert(c.len() == s.len() - 1 + k);
    assert forall|j: int| 0 <= j < c.len() implies (if j < i {
        c[j] == s[j]
    } else if j < i + k {
        c[j] == rest[j - i]
    } else {
        c[j] == s[j - k + 1]
    }) by {}
    assert forall|j: int| 0 <= j < rest.len() implies s[i].0 <= (#[trigger] rest[j]).0 && rest[j].0
        <= rest[j].1 && rest[j].1 <= s[i].1 && (rest[j].1 <= start || end <= rest[j].0) by {}
    assert forall|p: int, q: int| 0 <= p < q < c.len() implies (#[trigger] c[p]).1 <= (
    #[trigger] c[q]).0 by {
        if p < i {
            assert(c[p] == s[p]);
        } else if p < i + k {
            assert(c[p] == rest[p - i]);
        } else {
            assert(c[p] == s[p - k + 1]);
        }
        if q < i {
            assert(c[q] == s[q]);
        } else if q < i + k {
            assert(c[q] == rest[q - i]);
        } else {
            assert(c[q] == s[q - k + 1]);
        }
    }
    assert forall|a: int| holds(c, a) <==> holds(s, a) && !(start <= a < end) by {
        if holds(c, a) {
            let j = choose|j: int| 0 <= j < c.len() && (#[trigger] c[j]).0 <= a && a < c[j].1;
            if j < i {
                assert(s[j].0 <= a && a < s[j].1);
                assert(s[j].1 <= s[i].0);
            } else if j < i + k {
                assert(c[j] == rest[j - i]);
                assert(s[i].0 <= a && a < s[i].1);
            } else {
                assert(s[j - k + 1].0 <= a && a < s[j - k + 1].1);
                assert(s[i].1 <= s[j - k + 1].0);
            }
        }
        if holds(s, a) && !(start <= a < end) {
            let j = choose|j: int| 0 <= j < s.len() && (#[trigger] s[j]).0 <= a && a < s[j].1;
            if j < i {
                assert(c[j].0 <= a && a < c[j].1);
            } else if j > i {
                assert(c[j + k - 1] == s[j]);
                assert(c[j + k - 1].0 <= a && a < c[j + k - 1].1);
            } else if a < start {
                assert(rest[0] == (s[i].0, start));
                assert(c[i] == rest[0]);
                assert(c[i].0 <= a && a < c[i].1);
            } else {
                assert(rest[k - 1] == (end, s[i].1));
                assert(c[i + k - 1] == rest[k - 1]);
                assert(c[i + k - 1].0 <= a && a < c[i + k - 1].1);
            }
        }
    }
}

/// Every interval of `s` ends at or below `limit`.
pub open spec fn within(s: Seq<(u32, u32)>, limit: int) -> bool {
    forall|i: int| 0 <= i < s.len() ==> (#[trigger] s[i]).1 <= limit
}

/// Taking `[start, end)` out of an interval keeps a set within a limit that
/// `start` respects.
pub proof fn law_carve_within(s: Seq<(u32, u32)>, i: int, start: u32, end: u32, limit: int)
    requires
        within(s, limit),
        0 <= i < s.len(),
        start <= limit,
    ensures
        within(carve(s, i, start, end), limit),
{
    let rest = remainder(s[i], start, end);
    let c = carve(s, i, start, end);
    let k = rest.len() as int;
    assert forall|j: int| 0 <= j < c.len() implies (#[trigger] c[j]).1 <= limit by {
        if j < i {
            assert(c[j] == s[j]);
        } else if j < i + k {
            assert(c[j] == rest[j - i]);
        } else {
            assert(c[j] == s[j - k + 1]);
        }
    }
}

/// A first-fit request of `k <= b - a` addresses on the set that holds only
/// `[a, b)` hands out `(a, a + k)` and leaves `[a + k, b)`, or nothing when
/// `k == b - a`.
pub proof fn law_first_fit_of_single(a: u32, b: u32, k: u32)
    requires
        a <= b,
        k <= b - a,
    ensures
        first_fit(seq![(a, b)], k) == Some((a, (a + k) as u32)),
        without_first_fit(seq![(a, b)], k) == if k == b - a {
            Seq::<(u32, u32)>::empty()
        } else {
            seq![((a + k) as u32, b)]
        },
{
    let s = seq![(a, b)];
    assert(fits(s[0], k));
    assert(carve(s, 0, a, (a + k) as u32) =~= if k == b - a {
        Seq::<(u32, u32)>::empty()
    } else {
        seq![((a + k) as u32, b)]
    });
}

/// Non-empty first-fit requests on the set that holds only `[a, b)` all
/// succeed while their sizes add up to at most `b - a`.  They leave
/// `[a + total, b)`, so the measure of the set has dropped by exactly what was
/// handed out, and the set is empty once the total reaches `b - a`.
pub proof fn law_fits_exhaust(a: u32, b: u32, sizes: Seq<u32>)
    requires
        a <= b,
        total(sizes) <= b - a,
        forall|j: int| 0 <= j < sizes.len() ==> #[trigger] sizes[j] > 0,
    ensures
        0 <= total(sizes),
        after_fits(seq![(a, b)], sizes) == Some(
            if sizes.len() == 0 {
                seq![(a, b)]
            } else if total(sizes) == b - a {
                Seq::<(u32, u32)>::empty()
            } else {
                seq![((a + total(sizes)) as u32, b)]
            },
        ),
        measure(after_fits(seq![(a, b)], sizes)->0) == (b - a) - total(sizes),
    decreases sizes.len(),
{
    if sizes.len() == 0 {
        lemma_measure_short(seq![(a, b)]);
    } else {
        let head = sizes.drop_last();
        let k = sizes.last();
        assert(sizes[sizes.len() - 1] > 0);
        assert forall|j: int| 0 <= j < head.len() implies #[trigger] head[j] > 0 by {
            assert(head[j] == sizes[j]);
        }
        lemma_total_nonnegative(head);
        law_fits_exhaust(a, b, head);
        let t = after_fits(seq![(a, b)], head)->0;
        let low = (a + total(head)) as u32;
        assert(t =~= seq![(low, b)]);
        law_first_fit_of_single(low, b, k);
        lemma_measure_short(without_first_fit(t, k));
    }
}

/// A sum of sizes is never negative.
proof fn lemma_total_nonnegative(sizes: Seq<u32>)
    ensures
        0 <= total(sizes),
    decreases sizes.len(),
{
    if sizes.len() > 0 {
        lemma_total_nonnegative(sizes.drop_last());
    }
}


/// A set of `[start, end)` intervals over `u32`, kept in the order in which
/// they were created and split.
#[derive(Debug)]
pub struct RangeSet {
    ranges: Vec<(u32, u32)>,
}

impl View for RangeSet {
    type V = Seq<(u32, u32)>;

    closed spec fn view(&self) -> Seq<(u32, u32)> {
        self.ranges@
    }
}

impl RangeSet {
    /// A set that holds the single interval `[start, end)`.
    pub fn new(start: u32, end: u32) -> (set: Self)
        ensures
            set@ == seq![(start, end)],
    {
        let mut ranges: Vec<(u32, u32)> = Vec::new();
        ranges.push((start, end));
        proof {
            assert(ranges@ =~= seq![(start, end)]);
        }
        RangeSet { ranges }
    }

    /// Number of stored intervals.
    pub fn len(&self) -> (n: usize)
        ensures
            n == self@.len(),
    {
        self.ranges.len()
    }

    /// The `i`-th stored interval.
    pub fn get(&self, i: usize) -> (r: Option<(u32, u32)>)
        ensures
            i < self@.len() ==> r == Some(self@[i as int]),
            i >= self@.len() ==> r is None,
    {
        if i < self.ranges.len() {
            Some(self.ranges[i])
        } else {
            None
        }
    }

    /// Replaces interval `i` by what is left of it without `[start, end)`.
    fn carve_at(&mut self, i: usize, start: u32, end: u32)
        requires
            i < old(self)@.len(),
        ensures
            final(self)@ == carve(old(self)@, i as int, start, end),
    {
        let n = self.ranges.len();
        let r = self.ranges[i];
        let ghost before = self.ranges@;
        if start == r.0 && end == r.1 {
            self.ranges.remove(i);
        } else if start == r.0 {
            self.ranges.set(i, (end, r.1));
        } else if end == r.1 {
            self.ranges.set(i, (r.0, start));
        } else {
            self.ranges.set(i, (r.0, start));
            assert(i < n);
            self.ranges.insert(i + 1, (end, r.1));
        }
        proof {
            assert(self.ranges@ =~= carve(before, i as int, start, end));
        }
    }

    /// Takes `[start, end)` out of the first interval `[a, b)` with
    /// `a <= start < b` and `end <= b`, leaving `[a, start)` and `[end, b)` in
    /// its place.  Fails, and changes nothing, when no interval qualifies.
    pub fn remove(&mut self, start: u32, end: u32) -> (res: Result<(), Error>)
        ensures
            match without(old(self)@, start, end) {
                Some(rest) => res == Ok::<(), Error>(()) && final(self)@ == rest,
                None => res == Err::<(), Error>(Error::OutOfBounds) && final(self)@ == old(self)@,
            },
            res is Ok <==> exists|i: int|
                0 <= i < old(self)@.len() && covers(#[trigger] old(self)@[i], start, end),
    {
        proof {
            law_covering_index(self@, 0, start, end);
        }
        let n = self.ranges.len();
        let mut i: usize = 0;
        while i < n
            invariant
                n == self.ranges@.len(),
                self.ranges@ == old(self).ranges@,
                i <= n,
                covering_index(self.ranges@, 0, start, end) == covering_index(
                    self.ranges@,
                    i as int,
                    start,
                    end,
                ),
            decreases n - i,
        {
            let r = self.ranges[i];
            if start >= r.0 && start < r.1 && end <= r.1 {
                self.carve_at(i, start, end);
                return Ok(());
            }
            i = i + 1;
        }
        Err(Error::OutOfBounds)
    }

    /// Takes `size` addresses from the bottom of the first interval that is at
    /// least `size` long and returns them as `(start, start + size)`.  Fails
    /// with `NoFit`, and changes nothing, when no interval is long enough.
    pub fn remove_first_fit(&mut self, size: u32) -> (res: Result<(u32, u32), Error>)
        ensures
            match first_fit(old(self)@, size) {
                Some(block) => res == Ok::<(u32, u32), Error>(block),
                None => res == Err::<(u32, u32), Error>(Error::NoFit),
            },
            final(self)@ == without_first_fit(old(self)@, size),
            res is Ok <==> exists|i: int|
                0 <= i < old(self)@.len() && fits(#[trigger] old(self)@[i], size),
    {
        proof {
            law_fit_index(self@, 0, size);
        }
        let n = self.ranges.len();
        let mut i: usize = 0;
        while i < n
            invariant
                n == self.ranges@.len(),
                self.ranges@ == old(self).ranges@,
                i <= n,
                fit_index(self.ranges@, 0, size) == fit_index(self.ranges@, i as int, size),
            decreases n - i,
        {
            let r = self.ranges[i];
            if r.0 <= r.1 && size <= r.1 - r.0 {
                let start = r.0;
                let end = start + size;
                self.carve_at(i, start, end);
                return Ok((start, end));
            }
            i = i + 1;
        }
        Err(Error::NoFit)
    }
}

} // verus!
