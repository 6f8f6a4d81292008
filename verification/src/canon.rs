//! Symmetry canonicalization: the game's symmetry group has 8 elements
//! (4 rotations about the vertical axis, optionally combined with the
//! horizontal mirror), and symmetric cages have the same evaluation, so the
//! search works on the lexicographically maximal image of each board.

use crate::cage::{
    cell_x, cell_y, cell_z, column_settled, grid_settled, grid_wf, lemma_cell_coords,
    lemma_slot_index, Cage,
};
use crate::line::slot_index;
use vstd::prelude::*;

verus! {

/// Source x coordinate read by symmetry `k` to fill target cell `(a, b)`.
/// `k` in 0..4 is a rotation about the vertical axis by `k` quarter turns;
/// `k` in 4..8 is the same preceded by the horizontal mirror `x -> 2 - x`.
pub open spec fn sym_src_x(k: int, a: int, b: int) -> int {
    if k == 0 {
        a
    } else if k == 1 {
        2 - b
    } else if k == 2 {
        2 - a
    } else if k == 3 {
        b
    } else if k == 4 {
        b
    } else if k == 5 {
        a
    } else if k == 6 {
        2 - b
    } else {
        2 - a
    }
}

/// Source y coordinate read by symmetry `k` to fill target cell `(a, b)`.
pub open spec fn sym_src_y(k: int, a: int, b: int) -> int {
    if k == 0 {
        b
    } else if k == 1 {
        a
    } else if k == 2 {
        2 - b
    } else if k == 3 {
        2 - a
    } else if k == 4 {
        a
    } else if k == 5 {
        2 - b
    } else if k == 6 {
        2 - a
    } else {
        b
    }
}

/// Flat source index symmetry `k` reads to fill flat target index `i`.
/// Symmetries act within each horizontal layer: z is untouched.
pub open spec fn sym_src(k: int, i: int) -> int {
    slot_index(
        sym_src_x(k, cell_x(i), cell_y(i)),
        sym_src_y(k, cell_x(i), cell_y(i)),
        cell_z(i),
    )
}

/// Image of a grid under symmetry `k`.
pub open spec fn sym_grid(g: Seq<u8>, k: int) -> Seq<u8> {
    Seq::new(27, |i: int| g[sym_src(k, i)])
}

/// Composition index: applying symmetry `k` and then symmetry `j` equals
/// applying symmetry `sym_mult(j, k)`.
pub open spec fn sym_mult(j: int, k: int) -> int {
    if j == 0 {
        if k == 0 {
            0
        } else if k == 1 {
            1
        } else if k == 2 {
            2
        } else if k == 3 {
            3
        } else if k == 4 {
            4
        } else if k == 5 {
            5
        } else if k == 6 {
            6
        } else {
            7
        }
    } else if j == 1 {
        if k == 0 {
            1
        } else if k == 1 {
            2
        } else if k == 2 {
            3
        } else if k == 3 {
            0
        } else if k == 4 {
            5
        } else if k == 5 {
            6
        } else if k == 6 {
            7
        } else {
            4
        }
    } else if j == 2 {
        if k == 0 {
            2
        } else if k == 1 {
            3
        } else if k == 2 {
            0
        } else if k == 3 {
            1
        } else if k == 4 {
            6
        } else if k == 5 {
            7
        } else if k == 6 {
            4
        } else {
            5
        }
    } else if j == 3 {
        if k == 0 {
            3
        } else if k == 1 {
            0
        } else if k == 2 {
            1
        } else if k == 3 {
            2
        } else if k == 4 {
            7
        } else if k == 5 {
            4
        } else if k == 6 {
            5
        } else {
            6
        }
    } else if j == 4 {
        if k == 0 {
            4
        } else if k == 1 {
            7
        } else if k == 2 {
            6
        } else if k == 3 {
            5
        } else if k == 4 {
            0
        } else if k == 5 {
            3
        } else if k == 6 {
            2
        } else {
            1
        }
    } else if j == 5 {
        if k == 0 {
            5
        } else if k == 1 {
            4
        } else if k == 2 {
            7
        } else if k == 3 {
            6
        } else if k == 4 {
            1
        } else if k == 5 {
            0
        } else if k == 6 {
            3
        } else {
            2
        }
    } else if j == 6 {
        if k == 0 {
            6
        } else if k == 1 {
            5
        } else if k == 2 {
            4
        } else if k == 3 {
            7
        } else if k == 4 {
            2
        } else if k == 5 {
            1
        } else if k == 6 {
            0
        } else {
            3
        }
    } else {
        if k == 0 {
            7
        } else if k == 1 {
            6
        } else if k == 2 {
            5
        } else if k == 3 {
            4
        } else if k == 4 {
            3
        } else if k == 5 {
            2
        } else if k == 6 {
            1
        } else {
            0
        }
    }
}

/// Index of the inverse symmetry.
pub open spec fn sym_inv(k: int) -> int {
    if k == 0 {
        0
    } else if k < 4 {
        4 - k
    } else {
        k
    }
}

proof fn lemma_sym_src_bounds(k: int, i: int)
    requires
        0 <= k < 8,
        0 <= i < 27,
    ensures
        0 <= sym_src(k, i) < 27,
        cell_x(sym_src(k, i)) == sym_src_x(k, cell_x(i), cell_y(i)),
        cell_y(sym_src(k, i)) == sym_src_y(k, cell_x(i), cell_y(i)),
        cell_z(sym_src(k, i)) == cell_z(i),
{
    lemma_cell_coords(i);
    lemma_slot_index(
        sym_src_x(k, cell_x(i), cell_y(i)),
        sym_src_y(k, cell_x(i), cell_y(i)),
        cell_z(i),
    );
}

proof fn lemma_sym_src_compose(j: int, k: int, i: int)
    requires
        0 <= j < 8,
        0 <= k < 8,
        0 <= i < 27,
    ensures
        0 <= sym_mult(j, k) < 8,
        sym_src(k, sym_src(j, i)) == sym_src(sym_mult(j, k), i),
{
    lemma_cell_coords(i);
    lemma_sym_src_bounds(j, i);
    lemma_sym_src_bounds(k, sym_src(j, i));
    lemma_sym_src_bounds(sym_mult(j, k), i);
}

/// Applying symmetry `k` and then symmetry `j` equals applying the
/// composite symmetry in one step.
proof fn lemma_sym_compose(g: Seq<u8>, j: int, k: int)
    requires
        g.len() == 27,
        0 <= j < 8,
        0 <= k < 8,
    ensures
        0 <= sym_mult(j, k) < 8,
        sym_grid(sym_grid(g, k), j) == sym_grid(g, sym_mult(j, k)),
{
    assert forall|i: int| 0 <= i < 27 implies sym_grid(sym_grid(g, k), j)[i] == sym_grid(
        g,
        sym_mult(j, k),
    )[i] by {
        lemma_sym_src_bounds(j, i);
        lemma_sym_src_compose(j, k, i);
    }
    assert(sym_mult(0, 0) == 0);
    assert(sym_grid(sym_grid(g, k), j) =~= sym_grid(g, sym_mult(j, k)));
}

/// Symmetry 0 is the identity.
proof fn lemma_sym_identity(g: Seq<u8>)
    requires
        g.len() == 27,
    ensures
        sym_grid(g, 0) == g,
{
    assert forall|i: int| 0 <= i < 27 implies sym_grid(g, 0)[i] == g[i] by {
        lemma_cell_coords(i);
    }
    assert(sym_grid(g, 0) =~= g);
}

/// Symmetry images of a well-formed grid are well-formed, and of a settled
/// grid settled: symmetries permute whole columns.
proof fn lemma_sym_wf(g: Seq<u8>, k: int)
    requires
        grid_wf(g),
        0 <= k < 8,
    ensures
        grid_wf(sym_grid(g, k)),
        grid_settled(g) ==> grid_settled(sym_grid(g, k)),
{
    let h = sym_grid(g, k);
    assert forall|i: int| 0 <= i < 27 implies #[trigger] h[i] <= 6 by {
        lemma_sym_src_bounds(k, i);
    }
    lemma_sym_src_bounds(k, slot_index(1, 1, 0));
    lemma_sym_src_bounds(k, slot_index(1, 1, 1));
    lemma_sym_src_bounds(k, slot_index(1, 1, 2));
    lemma_slot_index(1, 1, 0);
    lemma_slot_index(1, 1, 1);
    lemma_slot_index(1, 1, 2);
    if grid_settled(g) {
        assert forall|a: int, b: int| 0 <= a < 3 && 0 <= b < 3 implies column_settled(
            h,
            a,
            b,
        ) by {
            lemma_slot_index(a, b, 0);
            lemma_slot_index(a, b, 1);
            lemma_slot_index(a, b, 2);
            lemma_sym_src_bounds(k, slot_index(a, b, 0));
            lemma_sym_src_bounds(k, slot_index(a, b, 1));
            lemma_sym_src_bounds(k, slot_index(a, b, 2));
            lemma_slot_index(sym_src_x(k, a, b), sym_src_y(k, a, b), 0);
            lemma_slot_index(sym_src_x(k, a, b), sym_src_y(k, a, b), 1);
            lemma_slot_index(sym_src_x(k, a, b), sym_src_y(k, a, b), 2);
            assert(column_settled(g, sym_src_x(k, a, b), sym_src_y(k, a, b)));
        }
    }
}

/// Strict lexicographic order on 27-cell grids, first difference decides,
/// starting the comparison at index `i`.
pub open spec fn lex_lt_from(a: Seq<u8>, b: Seq<u8>, i: int) -> bool
    decreases 27 - i,
{
    if i < 0 || i >= 27 {
        false
    } else if a[i] < b[i] {
        true
    } else if a[i] > b[i] {
        false
    } else {
        lex_lt_from(a, b, i + 1)
    }
}

/// Strict lexicographic order on 27-cell grids.
pub open spec fn lex_lt(a: Seq<u8>, b: Seq<u8>) -> bool {
    lex_lt_from(a, b, 0)
}

proof fn lemma_lex_connex(a: Seq<u8>, b: Seq<u8>, i: int)
    requires
        0 <= i,
        !lex_lt_from(a, b, i),
        !lex_lt_from(b, a, i),
    ensures
        forall|q: int| i <= q < 27 ==> a[q] == b[q],
    decreases 27 - i,
{
    if i < 27 {
        lemma_lex_connex(a, b, i + 1);
    }
}

proof fn lemma_lex_irrefl(a: Seq<u8>, i: int)
    requires
        0 <= i,
    ensures
        !lex_lt_from(a, a, i),
    decreases 27 - i,
{
    if i < 27 {
        lemma_lex_irrefl(a, i + 1);
    }
}

proof fn lemma_lex_trans(a: Seq<u8>, b: Seq<u8>, c: Seq<u8>, i: int)
    requires
        0 <= i,
        lex_lt_from(a, b, i),
        lex_lt_from(b, c, i),
    ensures
        lex_lt_from(a, c, i),
    decreases 27 - i,
{
    if i < 27 && a[i] == b[i] && b[i] == c[i] {
        lemma_lex_trans(a, b, c, i + 1);
    }
}

/// The best (lexicographically maximal, earliest on ties) of the symmetry
/// images with index at most `k`.
pub open spec fn best_sym(g: Seq<u8>, k: int) -> Seq<u8>
    decreases k,
{
    if k <= 0 {
        sym_grid(g, 0)
    } else {
        let prev = best_sym(g, k - 1);
        if lex_lt(prev, sym_grid(g, k)) {
            sym_grid(g, k)
        } else {
            prev
        }
    }
}

/// The canonical form of a grid: the lexicographically maximal image among
/// the 8 symmetry images.
pub open spec fn canon(g: Seq<u8>) -> Seq<u8> {
    best_sym(g, 7)
}

/// Does picking the canonical form require a reflection? True when no
/// unreflected image (a plain rotation) attains the maximum.
pub open spec fn canon_reflected(g: Seq<u8>) -> bool {
    !(exists|k: int| 0 <= k < 4 && sym_grid(g, k) == canon(g))
}

proof fn lemma_best_sym_props(g: Seq<u8>, k: int)
    requires
        g.len() == 27,
        0 <= k < 8,
    ensures
        best_sym(g, k).len() == 27,
        exists|m: int| 0 <= m <= k && best_sym(g, k) == sym_grid(g, m),
        forall|m: int| 0 <= m <= k ==> !lex_lt(best_sym(g, k), #[trigger] sym_grid(g, m)),
    decreases k,
{
    if k == 0 {
        assert(best_sym(g, 0) == sym_grid(g, 0));
        lemma_lex_irrefl(sym_grid(g, 0), 0);
    } else {
        lemma_best_sym_props(g, k - 1);
        let prev = best_sym(g, k - 1);
        let cur = sym_grid(g, k);
        if lex_lt(prev, cur) {
            assert forall|m: int| 0 <= m <= k implies !lex_lt(cur, #[trigger] sym_grid(g, m)) by {
                if m == k {
                    lemma_lex_irrefl(cur, 0);
                } else if lex_lt(cur, sym_grid(g, m)) {
                    lemma_lex_trans(prev, cur, sym_grid(g, m), 0);
                }
            }
        }
    }
}

/// The canonical form is one of the 8 symmetry images and no image exceeds
/// it.
pub proof fn lemma_canon_props(g: Seq<u8>)
    requires
        g.len() == 27,
    ensures
        canon(g).len() == 27,
        exists|m: int| 0 <= m < 8 && canon(g) == sym_grid(g, m),
        forall|m: int| 0 <= m < 8 ==> !lex_lt(canon(g), #[trigger] sym_grid(g, m)),
{
    lemma_best_sym_props(g, 7);
}

proof fn lemma_sym_mult_solve(m: int, k: int)
    requires
        0 <= m < 8,
        0 <= k < 8,
    ensures
        0 <= sym_inv(k) < 8,
        0 <= sym_mult(m, sym_inv(k)) < 8,
        sym_mult(sym_mult(m, sym_inv(k)), k) == m,
{
}

/// Normalization is invariant under every symmetry of its input: symmetric
/// boards share one canonical form.
#[verifier::rlimit(60)]
pub proof fn lemma_canon_sym(g: Seq<u8>, k: int)
    requires
        g.len() == 27,
        0 <= k < 8,
    ensures
        canon(sym_grid(g, k)) == canon(g),
{
    let h = sym_grid(g, k);
    lemma_canon_props(g);
    lemma_canon_props(h);
    let c = canon(g);
    let d = canon(h);
    // d is an image of g.
    let j1 = choose|j: int| 0 <= j < 8 && d == sym_grid(h, j);
    lemma_sym_compose(g, j1, k);
    assert(d == sym_grid(g, sym_mult(j1, k)));
    assert(!lex_lt(c, d));
    // c is an image of h.
    let m0 = choose|m: int| 0 <= m < 8 && c == sym_grid(g, m);
    let j2 = sym_mult(m0, sym_inv(k));
    lemma_sym_mult_solve(m0, k);
    lemma_sym_compose(g, j2, k);
    assert(c == sym_grid(h, j2));
    assert(!lex_lt(d, c));
    lemma_lex_connex(c, d, 0);
    assert(c =~= d);
}

/// Normalization is idempotent: the canonical form is its own canonical
/// form.
pub proof fn lemma_canon_idempotent(g: Seq<u8>)
    requires
        g.len() == 27,
    ensures
        canon(canon(g)) == canon(g),
{
    lemma_canon_props(g);
    let m0 = choose|m: int| 0 <= m < 8 && canon(g) == sym_grid(g, m);
    lemma_canon_sym(g, m0);
}

/// One quarter turn of the whole grid about the vertical axis.
fn rotated(v: &Vec<u8>) -> (r: Vec<u8>)
    requires
        v@.len() == 27,
    ensures
        r@ == sym_grid(v@, 1),
{
    let mut r: Vec<u8> = Vec::new();
    let mut i: usize = 0;
    while i < 27
        invariant
            v@.len() == 27,
            i <= 27,
            r@.len() == i,
            forall|q: int| 0 <= q < i ==> r@[q] == sym_grid(v@, 1)[q],
        decreases 27 - i,
    {
        proof {
            lemma_cell_coords(i as int);
            lemma_sym_src_bounds(1, i as int);
        }
        let a = i / 9;
        let b = (i % 9) / 3;
        let z = i % 3;
        r.push(v[9 * (2 - b) + 3 * a + z]);
        i += 1;
    }
    proof {
        assert(r@ =~= sym_grid(v@, 1));
    }
    r
}

/// The horizontal mirror `x -> 2 - x` of the whole grid.
fn mirrored(v: &Vec<u8>) -> (r: Vec<u8>)
    requires
        v@.len() == 27,
    ensures
        r@ == sym_grid(v@, 7),
{
    let mut r: Vec<u8> = Vec::new();
    let mut i: usize = 0;
    while i < 27
        invariant
            v@.len() == 27,
            i <= 27,
            r@.len() == i,
            forall|q: int| 0 <= q < i ==> r@[q] == sym_grid(v@, 7)[q],
        decreases 27 - i,
    {
        proof {
            lemma_cell_coords(i as int);
            lemma_sym_src_bounds(7, i as int);
        }
        let a = i / 9;
        let b = (i % 9) / 3;
        let z = i % 3;
        r.push(v[9 * (2 - a) + 3 * b + z]);
        i += 1;
    }
    proof {
        assert(r@ =~= sym_grid(v@, 7));
    }
    r
}

/// Strict lexicographic comparison of two 27-cell grids.
fn lex_less(a: &Vec<u8>, b: &Vec<u8>) -> (r: bool)
    requires
        a@.len() == 27,
        b@.len() == 27,
    ensures
        r == lex_lt(a@, b@),
{
    let mut i: usize = 0;
    while i < 27
        invariant
            a@.len() == 27,
            b@.len() == 27,
            i <= 27,
            lex_lt(a@, b@) == lex_lt_from(a@, b@, i as int),
        decreases 27 - i,
    {
        if a[i] < b[i] {
            return true;
        }
        if a[i] > b[i] {
            return false;
        }
        i += 1;
    }
    false
}

/// All 8 symmetry images of a grid, in preference order.
#[verifier::rlimit(100)]
fn sym_candidates(v: &Vec<u8>) -> (r: Vec<Vec<u8>>)
    requires
        v@.len() == 27,
    ensures
        r@.len() == 8,
        forall|kk: int| 0 <= kk < 8 ==> (#[trigger] r@[kk])@ == sym_grid(v@, kk),
{
    let ghost g = v@;
    let c0 = v.clone();
    proof {
        assert(c0@ =~= g);
        lemma_sym_identity(g);
    }
    let c1 = rotated(&c0);
    let c2 = rotated(&c1);
    let c3 = rotated(&c2);
    let c7 = mirrored(&c0);
    let c4 = rotated(&c7);
    let c5 = rotated(&c4);
    let c6 = rotated(&c5);
    proof {
        lemma_sym_compose(g, 1, 1);
        lemma_sym_compose(g, 1, 2);
        lemma_sym_compose(g, 1, 7);
        lemma_sym_compose(g, 1, 4);
        lemma_sym_compose(g, 1, 5);
    }
    let mut cands: Vec<Vec<u8>> = Vec::new();
    cands.push(c0);
    cands.push(c1);
    cands.push(c2);
    cands.push(c3);
    cands.push(c4);
    cands.push(c5);
    cands.push(c6);
    cands.push(c7);
    proof {
        assert(cands@[0]@ == sym_grid(g, 0));
        assert(cands@[1]@ == sym_grid(g, 1));
        assert(cands@[2]@ == sym_grid(g, 2));
        assert(cands@[3]@ == sym_grid(g, 3));
        assert(cands@[4]@ == sym_grid(g, 4));
        assert(cands@[5]@ == sym_grid(g, 5));
        assert(cands@[6]@ == sym_grid(g, 6));
        assert(cands@[7]@ == sym_grid(g, 7));
    }
    cands
}

impl Cage {
    /// One quarter turn of the whole cage about the vertical axis; used
    /// only in normalizing the representation.
    pub fn rotate_cage(&mut self)
        requires
            old(self).wf(),
        ensures
            final(self).wf(),
            final(self)@ == sym_grid(old(self)@, 1),
            grid_settled(old(self)@) ==> grid_settled(final(self)@),
    {
        let g = rotated(&self.grid);
        proof {
            lemma_sym_wf(self.grid@, 1);
        }
        self.grid = g;
    }

    /// The horizontal mirror of the whole cage; used only in normalizing
    /// the representation.
    pub fn flip_horizontal(&mut self)
        requires
            old(self).wf(),
        ensures
            final(self).wf(),
            final(self)@ == sym_grid(old(self)@, 7),
            grid_settled(old(self)@) ==> grid_settled(final(self)@),
    {
        let g = mirrored(&self.grid);
        proof {
            lemma_sym_wf(self.grid@, 7);
        }
        self.grid = g;
    }

    /// Replace the grid by the lexicographically maximal image among its 8
    /// symmetry images; report whether picking it required a reflection.
    /// Symmetric cages have the same game evaluation, so searching over
    /// canonical forms shrinks the search space.
    #[verifier::rlimit(100)]
    pub fn normalize(&mut self) -> (reflected: bool)
        requires
            old(self).wf(),
        ensures
            final(self).wf(),
            final(self)@ == canon(old(self)@),
            reflected == canon_reflected(old(self)@),
            grid_settled(old(self)@) ==> grid_settled(final(self)@),
    {
        let ghost g = self.grid@;
        let cands = sym_candidates(&self.grid);
        let mut best_k: usize = 0;
        let mut k: usize = 1;
        while k < 8
            invariant
                g.len() == 27,
                cands@.len() == 8,
                forall|kk: int| 0 <= kk < 8 ==> (#[trigger] cands@[kk])@ == sym_grid(g, kk),
                1 <= k <= 8,
                best_k < k,
                cands@[best_k as int]@ == best_sym(g, k as int - 1),
                forall|kk: int|
                    0 <= kk < best_k ==> sym_grid(g, kk) != best_sym(g, k as int - 1),
            decreases 8 - k,
        {
            proof {
                lemma_best_sym_props(g, k as int - 1);
            }
            if lex_less(&cands[best_k], &cands[k]) {
                best_k = k;
            }
            k += 1;
        }
        proof {
            lemma_canon_props(g);
        }
        let best = cands[best_k].clone();
        proof {
            assert(best@ =~= cands@[best_k as int]@);
            lemma_sym_wf(g, best_k as int);
        }
        self.grid = best;
        best_k >= 4
    }
}

} // verus!
