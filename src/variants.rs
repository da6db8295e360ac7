//! Keyword axes and the odometer enumeration of their combinations.
//!
//! A coordinate holds one index per axis. The enumeration starts at all
//! zeros and advances the last axis fastest, carrying to the left; it ends
//! when the first axis would carry past its last keyword.

use vstd::prelude::*;

verus! {

/// The product of the radii.
pub open spec fn product(r: Seq<int>) -> int
    decreases r.len(),
{
    if r.len() == 0 {
        1
    } else {
        product(r.drop_last()) * r.last()
    }
}

/// Every radius is positive and a machine-size count.
pub open spec fn positive(r: Seq<int>) -> bool {
    forall|i: int| 0 <= i < r.len() ==> 0 < #[trigger] r[i] <= usize::MAX
}

/// One index per axis, each below the radius of its axis.
pub open spec fn valid_coord(r: Seq<int>, c: Seq<usize>) -> bool {
    c.len() == r.len() && forall|i: int| 0 <= i < c.len() ==> c[i] < r[i]
}

/// The position of a coordinate in the enumeration (mixed radix, last axis
/// least significant).
pub open spec fn rank(r: Seq<int>, c: Seq<usize>) -> int
    decreases c.len(),
{
    if c.len() == 0 || r.len() == 0 {
        0
    } else {
        rank(r.drop_last(), c.drop_last()) * r.last() + c.last()
    }
}

/// `n` zeros.
pub open spec fn zeros(n: nat) -> Seq<usize> {
    Seq::new(n, |i: int| 0usize)
}

/// The last index of every axis.
pub open spec fn maxima(r: Seq<int>) -> Seq<usize> {
    Seq::new(r.len(), |i: int| (r[i] - 1) as usize)
}

/// The coordinate after `c`, or `None` when `c` is the last one.
pub open spec fn step(r: Seq<int>, c: Seq<usize>) -> Option<Seq<usize>>
    decreases c.len(),
{
    if c.len() == 0 || r.len() == 0 {
        None
    } else if c.last() + 1 < r.last() {
        Some(c.drop_last().push((c.last() + 1) as usize))
    } else {
        match step(r.drop_last(), c.drop_last()) {
            Some(p) => Some(p.push(0usize)),
            None => None,
        }
    }
}

/// The first `n` coordinates met when stepping from `c`, fewer when the
/// enumeration ends before.
pub open spec fn walk(r: Seq<int>, c: Seq<usize>, n: nat) -> Seq<Seq<usize>>
    decreases n,
{
    if n == 0 {
        seq![]
    } else {
        seq![c] + match step(r, c) {
            Some(d) => walk(r, d, (n - 1) as nat),
            None => seq![],
        }
    }
}

proof fn lemma_rank_bounds(r: Seq<int>, c: Seq<usize>)
    requires
        valid_coord(r, c),
    ensures
        0 <= rank(r, c) < product(r),
    decreases c.len(),
{
    if c.len() > 0 {
        let r1 = r.drop_last();
        let c1 = c.drop_last();
        lemma_rank_bounds(r1, c1);
        let a = rank(r1, c1);
        let p = product(r1);
        let m = r.last();
        let x = c.last() as int;
        assert(0 <= x < m);
        assert(0 <= a * m + x < p * m) by (nonlinear_arith)
            requires
                0 <= a < p,
                0 <= x < m,
        ;
    }
}

proof fn lemma_step(r: Seq<int>, c: Seq<usize>)
    requires
        positive(r),
        valid_coord(r, c),
    ensures
        step(r, c) is Some <==> rank(r, c) + 1 < product(r),
        step(r, c) is Some ==> valid_coord(r, step(r, c)->Some_0) && rank(r, step(r, c)->Some_0)
            == rank(r, c) + 1,
    decreases c.len(),
{
    lemma_rank_bounds(r, c);
    if c.len() > 0 {
        let r1 = r.drop_last();
        let c1 = c.drop_last();
        let a = rank(r1, c1);
        let p = product(r1);
        let m = r.last();
        let x = c.last() as int;
        lemma_rank_bounds(r1, c1);
        assert(0 <= x < m);
        if x + 1 < m {
            let d = c1.push((x + 1) as usize);
            assert(d.drop_last() =~= c1);
            assert(d.last() == x + 1);
            assert(rank(r, d) == a * m + x + 1);
            assert((a + 1) * m <= p * m) by (nonlinear_arith)
                requires
                    0 <= a < p,
                    m > 0,
            ;
            assert((a + 1) * m == a * m + m) by (nonlinear_arith);
        } else {
            lemma_step(r1, c1);
            match step(r1, c1) {
                Some(q) => {
                    let d = q.push(0usize);
                    assert(d.drop_last() =~= q);
                    assert(rank(r, d) == (a + 1) * m) by (nonlinear_arith)
                        requires
                            rank(r, d) == rank(r1, q) * m + 0,
                            rank(r1, q) == a + 1,
                    ;
                    assert((a + 1) * m < p * m) by (nonlinear_arith)
                        requires
                            a + 1 < p,
                            m > 0,
                    ;
                    assert((a + 1) * m == a * m + x + 1) by (nonlinear_arith)
                        requires
                            x + 1 == m,
                    ;
                },
                None => {
                    assert(a + 1 >= p);
                    assert(a * m + x + 1 >= p * m) by (nonlinear_arith)
                        requires
                            a + 1 >= p,
                            x + 1 == m,
                            m > 0,
                    ;
                },
            }
        }
    }
}

proof fn lemma_rank_injective(r: Seq<int>, c1: Seq<usize>, c2: Seq<usize>)
    requires
        valid_coord(r, c1),
        valid_coord(r, c2),
        rank(r, c1) == rank(r, c2),
    ensures
        c1 == c2,
    decreases c1.len(),
{
    if c1.len() > 0 {
        let r1 = r.drop_last();
        let a = rank(r1, c1.drop_last());
        let b = rank(r1, c2.drop_last());
        let m = r.last();
        let x = c1.last() as int;
        let y = c2.last() as int;
        lemma_rank_bounds(r1, c1.drop_last());
        lemma_rank_bounds(r1, c2.drop_last());
        assert(a == b && x == y) by (nonlinear_arith)
            requires
                a * m + x == b * m + y,
                0 <= x < m,
                0 <= y < m,
                0 <= a,
                0 <= b,
        {
            if a < b {
                assert(a * m + m <= b * m);
            } else if b < a {
                assert(b * m + m <= a * m);
            }
        }
        lemma_rank_injective(r1, c1.drop_last(), c2.drop_last());
        assert(c1 =~= c1.drop_last().push(c1.last()));
        assert(c2 =~= c2.drop_last().push(c2.last()));
    }
}

proof fn lemma_zeros_rank(r: Seq<int>)
    requires
        positive(r),
    ensures
        valid_coord(r, zeros(r.len())),
        rank(r, zeros(r.len())) == 0,
    decreases r.len(),
{
    if r.len() > 0 {
        lemma_zeros_rank(r.drop_last());
        assert(zeros(r.len()).drop_last() =~= zeros(r.drop_last().len()));
    }
}

proof fn lemma_maxima_rank(r: Seq<int>)
    requires
        positive(r),
    ensures
        valid_coord(r, maxima(r)),
        rank(r, maxima(r)) == product(r) - 1,
    decreases r.len(),
{
    if r.len() > 0 {
        let r1 = r.drop_last();
        lemma_maxima_rank(r1);
        assert(maxima(r).drop_last() =~= maxima(r1));
        assert(maxima(r).last() == r.last() - 1);
        let p = product(r1);
        let m = r.last();
        assert((p - 1) * m + (m - 1) == p * m - 1) by (nonlinear_arith);
    }
}

proof fn lemma_walk(r: Seq<int>, c: Seq<usize>, n: nat)
    requires
        positive(r),
        valid_coord(r, c),
        rank(r, c) + n == product(r),
    ensures
        walk(r, c, n).len() == n,
        forall|i: int|
            0 <= i < n ==> valid_coord(r, #[trigger] walk(r, c, n)[i]) && rank(r, walk(r, c, n)[i])
                == rank(r, c) + i,
        n > 0 ==> step(r, walk(r, c, n)[n - 1]) is None,
    decreases n,
{
    lemma_step(r, c);
    if n > 0 {
        match step(r, c) {
            Some(d) => {
                lemma_walk(r, d, (n - 1) as nat);
                let w = walk(r, c, n);
                let t = walk(r, d, (n - 1) as nat);
                assert(w =~= seq![c] + t);
                assert forall|i: int| 0 <= i < n implies valid_coord(r, #[trigger] w[i]) && rank(
                    r,
                    w[i],
                ) == rank(r, c) + i by {
                    if i > 0 {
                        assert(w[i] == t[i - 1]);
                    }
                }
            },
            None => {
                assert(walk(r, c, n) =~= seq![c]);
            },
        }
    }
}

/// Over axes of radii r0 .. rn-1, all positive, stepping from the all-zero
/// coordinate visits exactly r0 * .. * rn-1 coordinates, pairwise distinct,
/// each within the radii, and the last of them, after which the enumeration
/// ends, is the coordinate of last indices (r0 - 1, .., rn-1 - 1).
pub proof fn lemma_enumeration_complete(r: Seq<int>)
    requires
        positive(r),
    ensures
        product(r) >= 1,
        walk(r, zeros(r.len()), product(r) as nat).len() == product(r),
        forall|i: int|
            0 <= i < product(r) ==> valid_coord(r, #[trigger] walk(r, zeros(r.len()), product(r) as nat)[i]),
        forall|i: int, j: int|
            0 <= i < j < product(r) ==> #[trigger] walk(r, zeros(r.len()), product(r) as nat)[i]
                != #[trigger] walk(r, zeros(r.len()), product(r) as nat)[j],
        walk(r, zeros(r.len()), product(r) as nat)[product(r) - 1] == maxima(r),
        step(r, maxima(r)) is None,
{
    let z = zeros(r.len());
    lemma_zeros_rank(r);
    lemma_rank_bounds(r, z);
    let p = product(r);
    lemma_walk(r, z, p as nat);
    let w = walk(r, z, p as nat);
    assert forall|i: int, j: int| 0 <= i < j < p implies #[trigger] w[i] != #[trigger] w[j] by {
        assert(rank(r, w[i]) == i);
        assert(rank(r, w[j]) == j);
    }
    lemma_maxima_rank(r);
    assert(rank(r, w[p - 1]) == p - 1);
    lemma_rank_injective(r, w[p - 1], maxima(r));
    lemma_step(r, maxima(r));
}

} // verus!

verus! {

proof fn lemma_step_carry(r: Seq<int>, c: Seq<usize>, i: int)
    requires
        valid_coord(r, c),
        0 <= i <= c.len(),
        forall|k: int| i <= k < c.len() ==> c[k] + 1 == #[trigger] r[k],
    ensures
        i == 0 ==> step(r, c) is None,
        i > 0 && c[i - 1] + 1 < r[i - 1] ==> step(r, c) == Some(
            c.subrange(0, i - 1).push((c[i - 1] + 1) as usize) + zeros((c.len() - i) as nat),
        ),
    decreases c.len(),
{
    if c.len() > 0 && i < c.len() {
        let r1 = r.drop_last();
        let c1 = c.drop_last();
        lemma_step_carry(r1, c1, i);
        if i > 0 && c[i - 1] + 1 < r[i - 1] {
            assert(c1.subrange(0, i - 1) =~= c.subrange(0, i - 1));
            let p = c1.subrange(0, i - 1).push((c[i - 1] + 1) as usize) + zeros((c1.len() - i) as nat);
            assert(p.push(0usize) =~= c.subrange(0, i - 1).push((c[i - 1] + 1) as usize) + zeros(
                (c.len() - i) as nat,
            ));
        }
    } else if c.len() > 0 && i == c.len() {
        assert(c.drop_last() =~= c.subrange(0, i - 1));
        assert(zeros(0) =~= Seq::<usize>::empty());
        assert(c.subrange(0, i - 1).push((c[i - 1] + 1) as usize) + zeros(0) =~= c.subrange(0, i - 1).push((c[i - 1] + 1) as usize));
    }
}

/// The keyword axes: each row holds mutually exclusive keywords, one of
/// which every variant takes.
pub struct Variants {
    pub kws: Vec<Vec<String>>,
}

impl Variants {
    /// The number of keywords of each axis.
    pub open spec fn radii(&self) -> Seq<int> {
        self.kws@.map_values(|row: Vec<String>| row@.len() as int)
    }

    /// No axis.
    pub fn new() -> (r: Variants)
        ensures
            r.kws@.len() == 0,
    {
        Variants { kws: Vec::new() }
    }

    /// Appends an axis.
    pub fn push(&mut self, layer: Vec<String>)
        ensures
            final(self).kws@ == old(self).kws@.push(layer),
    {
        self.kws.push(layer);
    }

    /// The first coordinate, all zeros; none when some axis is empty, since
    /// the product then has no point. With no axis it is the empty coordinate.
    pub fn first(&self) -> (r: Option<Vec<usize>>)
        ensures
            r is Some <==> positive(self.radii()),
            r is Some ==> r->Some_0@ == zeros(self.kws@.len()),
    {
        let mut c: Vec<usize> = Vec::new();
        let mut i: usize = 0;
        while i < self.kws.len()
            invariant
                i <= self.kws@.len(),
                c@ == zeros(i as nat),
                forall|j: int| 0 <= j < i ==> 0 < #[trigger] self.radii()[j] <= usize::MAX,
            decreases self.kws@.len() - i,
        {
            if self.kws[i].len() == 0 {
                assert(self.radii()[i as int] == 0);
                return None;
            }
            c.push(0);
            assert(c@ =~= zeros((i + 1) as nat));
            i = i + 1;
        }
        Some(c)
    }

    /// Moves `coord` to the next coordinate and returns true; after the last
    /// one, moves it back to all zeros and returns false.
    pub fn advance(&self, coord: &mut Vec<usize>) -> (more: bool)
        requires
            valid_coord(self.radii(), old(coord)@),
        ensures
            match step(self.radii(), old(coord)@) {
                Some(d) => more && final(coord)@ == d,
                None => !more && final(coord)@ == zeros(self.kws@.len()),
            },
    {
        let ghost c0 = coord@;
        let ghost r = self.radii();
        let n = coord.len();
        let mut i: usize = n;
        while i > 0
            invariant
                n == c0.len() == r.len() == self.kws@.len(),
                c0 == old(coord)@,
                r == self.radii(),
                valid_coord(r, c0),
                i <= n,
                coord@ == c0.subrange(0, i as int) + zeros((n - i) as nat),
                forall|k: int| i <= k < n ==> c0[k] + 1 == #[trigger] r[k],
            decreases i,
        {
            let a = i - 1;
            assert(coord@[a as int] == c0[a as int]);
            let len = self.kws[a].len();
            assert(c0[a as int] < r[a as int] == len);
            if coord[a] + 1 < len {
                let v = coord[a] + 1;
                coord.set(a, v);
                proof {
                    lemma_step_carry(r, c0, i as int);
                    assert(coord@ =~= c0.subrange(0, i - 1).push((c0[i - 1] + 1) as usize) + zeros(
                        (n - i) as nat,
                    ));
                }
                return true;
            }
            coord.set(a, 0);
            assert(coord@ =~= c0.subrange(0, a as int) + zeros((n - a) as nat));
            i = a;
        }
        proof {
            lemma_step_carry(r, c0, 0);
            assert(coord@ =~= zeros(n as nat));
        }
        false
    }

    /// The keyword of each axis at `coord`, in axis order.
    pub fn keywords(&self, coord: &Vec<usize>) -> (r: Vec<String>)
        requires
            valid_coord(self.radii(), coord@),
        ensures
            r@.len() == self.kws@.len(),
            forall|i: int| 0 <= i < r@.len() ==> #[trigger] r@[i]@ == self.kws@[i]@[coord@[i] as int]@,
    {
        let mut out: Vec<String> = Vec::new();
        let mut i: usize = 0;
        while i < coord.len()
            invariant
                valid_coord(self.radii(), coord@),
                coord@.len() == self.kws@.len(),
                i <= coord@.len(),
                out@.len() == i,
                forall|j: int| 0 <= j < i ==> #[trigger] out@[j]@ == self.kws@[j]@[coord@[j] as int]@,
            decreases coord@.len() - i,
        {
            assert(coord@[i as int] < self.radii()[i as int]);
            let k = self.kws[i][coord[i]].clone();
            out.push(k);
            i = i + 1;
        }
        out
    }
}

} // verus!
