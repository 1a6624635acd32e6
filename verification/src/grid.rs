//! Integer geometry of the periodic cubic grid.
//!
//! The simulation box is divided into `n_cells` cells per side. Cell
//! indices wrap periodically, Fourier indices above `n_cells / 2` stand
//! for negative frequencies, and a flat index enumerates the cells (or a
//! particle lattice) in row-major order `(m0, m1, m2)`.
use vstd::prelude::*;

verus! {

/// The mathematical residue of `m` modulo `n`, in `[0, n)`.
pub open spec fn periodic(m: int, n: int) -> int {
    m % n
}

/// Wrapping a cell index lands in `[0, n)`, differs from the index by a
/// whole number of periods, leaves indices already in range alone, and
/// is the same for indices a period apart.
pub proof fn law_periodic_wrap(m: int, n: int)
    requires
        n > 0,
    ensures
        0 <= periodic(m, n) < n,
        (m - periodic(m, n)) % n == 0,
        0 <= m < n ==> periodic(m, n) == m,
        periodic(m + n, n) == periodic(m, n),
{
    vstd::arithmetic::div_mod::lemma_mod_bound(m, n);
    vstd::arithmetic::div_mod::lemma_fundamental_div_mod(m, n);
    assert(m - m % n == n * (m / n));
    vstd::arithmetic::mul::lemma_mul_is_commutative(n, m / n);
    vstd::arithmetic::div_mod::lemma_mod_multiples_basic(m / n, n);
    if 0 <= m < n {
        vstd::arithmetic::div_mod::lemma_small_mod(m as nat, n as nat);
    }
    vstd::arithmetic::div_mod::lemma_mod_add_multiples_vanish(m, n);
}

/// For `a >= 0`, the residue of `-(a + 1)` is `n - 1 - (a mod n)`.
proof fn lemma_negative_residue(a: int, n: int)
    requires
        a >= 0,
        n > 0,
    ensures
        (-(a + 1)) % n == n - 1 - a % n,
{
    let q = a / n;
    let r = a % n;
    vstd::arithmetic::div_mod::lemma_fundamental_div_mod(a, n);
    assert(-(a + 1) == (-q - 1) * n + (n - 1 - r)) by (nonlinear_arith)
        requires
            a == q * n + r,
    ;
    vstd::arithmetic::div_mod::lemma_fundamental_div_mod_converse(-(a + 1), n, -q - 1, n - 1 - r);
}

/// Periodic cubic grid with `n_cells` cells per side.
#[derive(Debug, Clone, Copy, PartialEq, Eq)]
pub struct Grid {
    /// Number of cells per side (total cells = n_cells³).
    pub n_cells: usize,
}

impl Grid {
    /// Create a grid with `n_cells` cells per side.
    pub fn new(n_cells: usize) -> (g: Grid)
        ensures
            g.n_cells == n_cells,
    {
        Grid { n_cells }
    }

    /// Wrap a cell index into `[0, n_cells)` with periodic boundaries.
    pub fn wrap_index(&self, m: isize) -> (r: usize)
        requires
            0 < self.n_cells <= isize::MAX,
        ensures
            r < self.n_cells,
            r as int == periodic(m as int, self.n_cells as int),
    {
        let n = self.n_cells;
        if m >= 0 {
            (m as usize) % n
        } else {
            let a = (-(m + 1)) as usize;
            let r = a % n;
            proof {
                lemma_negative_residue(a as int, n as int);
            }
            n - 1 - r
        }
    }

    /// Total number of cells in the grid.
    pub fn total_cells(&self) -> (r: usize)
        requires
            self.n_cells * self.n_cells * self.n_cells <= usize::MAX,
        ensures
            r == self.n_cells * self.n_cells * self.n_cells,
    {
        cube(self.n_cells)
    }

    /// The signed Fourier frequency of index `m`: indices above
    /// `n_cells / 2` stand for negative frequencies `m - n_cells`.
    pub fn frequency_index(&self, m: usize) -> (r: i128)
        ensures
            r == signed_frequency(m as int, self.n_cells as int),
    {
        if m <= self.n_cells / 2 {
            m as i128
        } else {
            m as i128 - self.n_cells as i128
        }
    }

    /// The two cells a cloud-in-cell kernel touches along one axis when its
    /// lower cell index is `base`: `base` and `base + 1`, each wrapped.
    pub fn cic_pair(&self, base: isize) -> (r: (usize, usize))
        requires
            0 < self.n_cells <= isize::MAX,
            base < isize::MAX,
        ensures
            r.0 < self.n_cells,
            r.1 < self.n_cells,
            r.0 as int == periodic(base as int, self.n_cells as int),
            r.1 as int == periodic(base + 1, self.n_cells as int),
    {
        (self.wrap_index(base), self.wrap_index(base + 1))
    }
}

/// The signed frequency of Fourier index `m` on `n` points.
pub open spec fn signed_frequency(m: int, n: int) -> int {
    if m <= n / 2 {
        m
    } else {
        m - n
    }
}

/// `n³`.
pub fn cube(n: usize) -> (r: usize)
    requires
        n * n * n <= usize::MAX,
    ensures
        r == n * n * n,
{
    proof {
        if n > 0 {
            assert(n * n <= n * n * n) by (nonlinear_arith)
                requires
                    n > 0,
            ;
        }
    }
    n * n * n
}

// ============================================================================
// Lattice enumeration
// ============================================================================

/// The flat index of lattice point `(m0, m1, m2)` on a lattice with `k`
/// points per side: row-major order, `m2` fastest.
pub open spec fn flat_index(m0: int, m1: int, m2: int, k: int) -> int {
    (m0 * k + m1) * k + m2
}

/// The flat index of lattice point `(m0, m1, m2)`.
pub fn lattice_index(m0: usize, m1: usize, m2: usize, k: usize) -> (r: usize)
    requires
        m0 < k,
        m1 < k,
        m2 < k,
        k * k * k <= usize::MAX,
    ensures
        r == flat_index(m0 as int, m1 as int, m2 as int, k as int),
        r < k * k * k,
{
    proof {
        lemma_flat_index_bound(m0 as int, m1 as int, m2 as int, k as int);
    }
    (m0 * k + m1) * k + m2
}

proof fn lemma_flat_index_bound(m0: int, m1: int, m2: int, k: int)
    requires
        0 <= m0 < k,
        0 <= m1 < k,
        0 <= m2 < k,
    ensures
        0 <= m0 * k + m1 < k * k,
        0 <= m0 * k,
        k * k <= k * k * k,
        0 <= (m0 * k + m1) * k <= flat_index(m0, m1, m2, k),
        0 <= flat_index(m0, m1, m2, k) < k * k * k,
{
    assert(k * k <= k * k * k) by (nonlinear_arith)
        requires
            k > 0,
    ;
    assert(0 <= m0 * k) by (nonlinear_arith)
        requires
            0 <= m0,
            0 < k,
    ;
    assert(0 <= m0 * k + m1 < k * k) by (nonlinear_arith)
        requires
            0 <= m0 < k,
            0 <= m1 < k,
    ;
    let a = m0 * k + m1;
    assert(0 <= a * k + m2 < k * k * k) by (nonlinear_arith)
        requires
            0 <= a < k * k,
            0 <= m2 < k,
    ;
    assert(0 <= a * k) by (nonlinear_arith)
        requires
            0 <= a,
            0 < k,
    ;
}

/// The lattice point of a flat index: `(flat / k², (flat / k) mod k,
/// flat mod k)`.
pub fn lattice_coordinates(flat: usize, k: usize) -> (r: (usize, usize, usize))
    requires
        0 < k,
        flat < k * k * k,
        k * k * k <= usize::MAX,
    ensures
        r.0 < k && r.1 < k && r.2 < k,
        r.0 == (flat as int) / ((k * k) as int),
        r.1 == ((flat as int) / (k as int)) % (k as int),
        r.2 == flat as int % (k as int),
        flat_index(r.0 as int, r.1 as int, r.2 as int, k as int) == flat,
{
    proof {
        assert(k * k <= k * k * k) by (nonlinear_arith)
            requires
                k > 0,
        ;
        assert(k * k > 0) by (nonlinear_arith)
            requires
                k > 0,
        ;
    }
    let kk = k * k;
    let m0 = flat / kk;
    let m1 = (flat / k) % k;
    let m2 = flat % k;
    proof {
        lemma_coordinates_roundtrip(flat as int, k as int);
    }
    (m0, m1, m2)
}

proof fn lemma_coordinates_roundtrip(flat: int, k: int)
    requires
        0 < k,
        0 <= flat < k * k * k,
    ensures
        flat / (k * k) < k,
        flat_index(flat / (k * k), (flat / k) % k, flat % k, k) == flat,
{
    let q = flat / k;
    vstd::arithmetic::div_mod::lemma_fundamental_div_mod(flat, k);
    vstd::arithmetic::div_mod::lemma_fundamental_div_mod(q, k);
    vstd::arithmetic::div_mod::lemma_div_denominator(flat, k, k);
    assert(k * k > 0) by (nonlinear_arith)
        requires
            k > 0,
    ;
    vstd::arithmetic::div_mod::lemma_div_pos_is_pos(flat, k);
    let kk = k * k;
    vstd::arithmetic::div_mod::lemma_fundamental_div_mod(flat, kk);
    vstd::arithmetic::div_mod::lemma_mod_bound(flat, kk);
    assert(flat / kk < k) by (nonlinear_arith)
        requires
            flat == kk * (flat / kk) + flat % kk,
            0 <= flat % kk,
            flat < kk * k,
            kk > 0,
    ;
    assert(flat_index(q / k, q % k, flat % k, k) == flat) by (nonlinear_arith)
        requires
            flat == k * q + flat % k,
            q == k * (q / k) + q % k,
    ;
}

/// Enumerating the lattice in row-major order and decomposing the flat
/// index give back each other: every point `(m0, m1, m2)` has flat index
/// `(m0 k + m1) k + m2`, below `k³`, and that index decomposes to the
/// same point.
pub proof fn law_lattice_roundtrip(m0: int, m1: int, m2: int, k: int)
    requires
        0 <= m0 < k,
        0 <= m1 < k,
        0 <= m2 < k,
    ensures
        0 <= flat_index(m0, m1, m2, k) < k * k * k,
        flat_index(m0, m1, m2, k) / (k * k) == m0,
        (flat_index(m0, m1, m2, k) / k) % k == m1,
        flat_index(m0, m1, m2, k) % k == m2,
{
    lemma_flat_index_bound(m0, m1, m2, k);
    let a = m0 * k + m1;
    let f = a * k + m2;
    vstd::arithmetic::div_mod::lemma_fundamental_div_mod_converse(f, k, a, m2);
    vstd::arithmetic::div_mod::lemma_fundamental_div_mod_converse(a, k, m0, m1);
    vstd::arithmetic::div_mod::lemma_div_denominator(f, k, k);
}

} // verus!
