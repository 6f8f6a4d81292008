use vstd::prelude::*;

verus! {

/// A board position given as `[x, y, z]` coordinates, each in `0..3`.
pub type Slot = [usize; 3];

/// One of the 28 fixed three-slot winning patterns.
pub type Line = [Slot; 3];

/// Flat cell index of a slot: `9*x + 3*y + z`. The flat order matches the
/// `[x][y][z]` order of the grid, so lexicographic comparison of flat grids
/// agrees with lexicographic comparison of the nested form.
pub open spec fn slot_index(x: int, y: int, z: int) -> int {
    9 * x + 3 * y + z
}

/// Flat cell index of slot `j` (0..3) of winning line `k` (0..28).
pub open spec fn line_slot(k: int, j: int) -> int {
    if k == 0 {
        if j == 0 { 0 } else if j == 1 { 9 } else { 18 }
    } else if k == 1 {
        if j == 0 { 0 } else if j == 1 { 3 } else { 6 }
    } else if k == 2 {
        if j == 0 { 18 } else if j == 1 { 21 } else { 24 }
    } else if k == 3 {
        if j == 0 { 6 } else if j == 1 { 15 } else { 24 }
    } else if k == 4 {
        if j == 0 { 1 } else if j == 1 { 10 } else { 19 }
    } else if k == 5 {
        if j == 0 { 1 } else if j == 1 { 4 } else { 7 }
    } else if k == 6 {
        if j == 0 { 19 } else if j == 1 { 22 } else { 25 }
    } else if k == 7 {
        if j == 0 { 7 } else if j == 1 { 16 } else { 25 }
    } else if k == 8 {
        if j == 0 { 2 } else if j == 1 { 11 } else { 20 }
    } else if k == 9 {
        if j == 0 { 2 } else if j == 1 { 5 } else { 8 }
    } else if k == 10 {
        if j == 0 { 20 } else if j == 1 { 23 } else { 26 }
    } else if k == 11 {
        if j == 0 { 8 } else if j == 1 { 17 } else { 26 }
    } else if k == 12 {
        if j == 0 { 0 } else if j == 1 { 1 } else { 2 }
    } else if k == 13 {
        if j == 0 { 9 } else if j == 1 { 10 } else { 11 }
    } else if k == 14 {
        if j == 0 { 18 } else if j == 1 { 19 } else { 20 }
    } else if k == 15 {
        if j == 0 { 3 } else if j == 1 { 4 } else { 5 }
    } else if k == 16 {
        if j == 0 { 21 } else if j == 1 { 22 } else { 23 }
    } else if k == 17 {
        if j == 0 { 6 } else if j == 1 { 7 } else { 8 }
    } else if k == 18 {
        if j == 0 { 15 } else if j == 1 { 16 } else { 17 }
    } else if k == 19 {
        if j == 0 { 24 } else if j == 1 { 25 } else { 26 }
    } else if k == 20 {
        if j == 0 { 0 } else if j == 1 { 4 } else { 8 }
    } else if k == 21 {
        if j == 0 { 0 } else if j == 1 { 10 } else { 20 }
    } else if k == 22 {
        if j == 0 { 6 } else if j == 1 { 4 } else { 2 }
    } else if k == 23 {
        if j == 0 { 6 } else if j == 1 { 16 } else { 26 }
    } else if k == 24 {
        if j == 0 { 18 } else if j == 1 { 22 } else { 26 }
    } else if k == 25 {
        if j == 0 { 18 } else if j == 1 { 10 } else { 2 }
    } else if k == 26 {
        if j == 0 { 24 } else if j == 1 { 22 } else { 20 }
    } else if k == 27 {
        if j == 0 { 24 } else if j == 1 { 16 } else { 8 }
    } else {
        0
    }
}

/// A slot array designates the `j`-th slot of line `k`: coordinates in range
/// and flat index matching the fixed table.
pub open spec fn slot_is(s: Slot, k: int, j: int) -> bool {
    s@[0] < 3 && s@[1] < 3 && s@[2] < 3 && 9 * s@[0] + 3 * s@[1] + s@[2] == line_slot(k, j)
}

/// A line array designates line `k` of the fixed table.
pub open spec fn line_is(l: Line, k: int) -> bool {
    forall|j: int| 0 <= j < 3 ==> slot_is(#[trigger] l@[j], k, j)
}

/// Every slot of every line is a valid cell index.
pub proof fn lemma_line_slot_in_bounds()
    ensures
        forall|k: int, j: int| 0 <= k < 28 && 0 <= j < 3 ==> 0 <= #[trigger] line_slot(k, j) < 27,
{
}

/// The 28 winning lines: rows, columns and diagonals of each horizontal
/// layer that avoid the center column, plus the verticals and the four
/// diagonals of each vertical boundary plane.
pub fn lines() -> (r: Vec<Line>)
    ensures
        r@.len() == 28,
        forall|k: int| 0 <= k < 28 ==> line_is(#[trigger] r@[k], k),
{
    let mut v: Vec<Line> = Vec::new();
    v.push([[0, 0, 0], [1, 0, 0], [2, 0, 0]]);
    v.push([[0, 0, 0], [0, 1, 0], [0, 2, 0]]);
    v.push([[2, 0, 0], [2, 1, 0], [2, 2, 0]]);
    v.push([[0, 2, 0], [1, 2, 0], [2, 2, 0]]);
    v.push([[0, 0, 1], [1, 0, 1], [2, 0, 1]]);
    v.push([[0, 0, 1], [0, 1, 1], [0, 2, 1]]);
    v.push([[2, 0, 1], [2, 1, 1], [2, 2, 1]]);
    v.push([[0, 2, 1], [1, 2, 1], [2, 2, 1]]);
    v.push([[0, 0, 2], [1, 0, 2], [2, 0, 2]]);
    v.push([[0, 0, 2], [0, 1, 2], [0, 2, 2]]);
    v.push([[2, 0, 2], [2, 1, 2], [2, 2, 2]]);
    v.push([[0, 2, 2], [1, 2, 2], [2, 2, 2]]);
    v.push([[0, 0, 0], [0, 0, 1], [0, 0, 2]]);
    v.push([[1, 0, 0], [1, 0, 1], [1, 0, 2]]);
    v.push([[2, 0, 0], [2, 0, 1], [2, 0, 2]]);
    v.push([[0, 1, 0], [0, 1, 1], [0, 1, 2]]);
    v.push([[2, 1, 0], [2, 1, 1], [2, 1, 2]]);
    v.push([[0, 2, 0], [0, 2, 1], [0, 2, 2]]);
    v.push([[1, 2, 0], [1, 2, 1], [1, 2, 2]]);
    v.push([[2, 2, 0], [2, 2, 1], [2, 2, 2]]);
    v.push([[0, 0, 0], [0, 1, 1], [0, 2, 2]]);
    v.push([[0, 0, 0], [1, 0, 1], [2, 0, 2]]);
    v.push([[0, 2, 0], [0, 1, 1], [0, 0, 2]]);
    v.push([[0, 2, 0], [1, 2, 1], [2, 2, 2]]);
    v.push([[2, 0, 0], [2, 1, 1], [2, 2, 2]]);
    v.push([[2, 0, 0], [1, 0, 1], [0, 0, 2]]);
    v.push([[2, 2, 0], [2, 1, 1], [2, 0, 2]]);
    v.push([[2, 2, 0], [1, 2, 1], [0, 2, 2]]);
    proof {
        assert(forall|k: int| 0 <= k < 28 ==> line_is(#[trigger] v@[k], k));
    }
    v
}

/// Does line `k` pass through the cell with flat index `si`?
pub open spec fn line_through(k: int, si: int) -> bool {
    line_slot(k, 0) == si || line_slot(k, 1) == si || line_slot(k, 2) == si
}

/// Indices of the lines through cell `si` among lines `0..k`, in table order.
pub open spec fn lines_through_prefix(si: int, k: int) -> Seq<int>
    decreases k,
{
    if k <= 0 {
        Seq::empty()
    } else if line_through(k - 1, si) {
        lines_through_prefix(si, k - 1).push(k - 1)
    } else {
        lines_through_prefix(si, k - 1)
    }
}

/// All winning lines through the given slot, in the fixed table order.
pub fn slot_to_lines(slot: Slot) -> (r: Vec<Line>)
    requires
        slot@[0] < 3 && slot@[1] < 3 && slot@[2] < 3,
    ensures
        r@.len() == lines_through_prefix(9 * slot@[0] + 3 * slot@[1] + slot@[2], 28).len(),
        forall|i: int|
            0 <= i < r@.len() ==> line_is(
                #[trigger] r@[i],
                lines_through_prefix(9 * slot@[0] + 3 * slot@[1] + slot@[2], 28)[i],
            ),
{
    let ls = lines();
    let si: usize = 9 * slot[0] + 3 * slot[1] + slot[2];
    let ghost sig: int = 9 * slot@[0] + 3 * slot@[1] + slot@[2];
    let mut r: Vec<Line> = Vec::new();
    let mut k: usize = 0;
    while k < 28
        invariant
            ls@.len() == 28,
            forall|m: int| 0 <= m < 28 ==> line_is(#[trigger] ls@[m], m),
            k <= 28,
            si == sig,
            r@.len() == lines_through_prefix(sig, k as int).len(),
            forall|i: int|
                0 <= i < r@.len() ==> line_is(
                    #[trigger] r@[i],
                    lines_through_prefix(sig, k as int)[i],
                ),
        decreases 28 - k,
    {
        let l = ls[k];
        let mut hit = false;
        let mut j: usize = 0;
        while j < 3
            invariant
                j <= 3,
                line_is(l, k as int),
                k < 28,
                si == sig,
                hit <==> exists|jj: int| 0 <= jj < j && line_slot(k as int, jj) == sig,
            decreases 3 - j,
        {
            let s = l[j];
            if 9 * s[0] + 3 * s[1] + s[2] == si {
                hit = true;
            }
            j += 1;
        }
        if hit {
            r.push(l);
        }
        k += 1;
    }
    r
}

} // verus!
