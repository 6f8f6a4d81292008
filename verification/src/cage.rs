use crate::cubie::Cubie;
use crate::line::{line_slot, lines, slot_index, Line};
use crate::moves::{Layer, Rotation};
use vstd::prelude::*;
use vstd::seq_lib::*;

verus! {

/// Why a drop was rejected. Rejection is locally recoverable: the caller
/// must simply not offer that move.
#[derive(Clone, Copy, Debug, Eq, Hash, PartialEq, Structural)]
pub enum LegalityError {
    DropOnFullColumn,
    DropOnCenterColumn,
    InvalidColumnIndex,
}

/// x coordinate of the cell with flat index `i`.
pub open spec fn cell_x(i: int) -> int {
    i / 9
}

/// y coordinate of the cell with flat index `i`.
pub open spec fn cell_y(i: int) -> int {
    (i % 9) / 3
}

/// z coordinate of the cell with flat index `i`.
pub open spec fn cell_z(i: int) -> int {
    i % 3
}

/// Valid coordinates map to a valid flat index and back.
pub broadcast proof fn lemma_slot_index(x: int, y: int, z: int)
    requires
        0 <= x < 3,
        0 <= y < 3,
        0 <= z < 3,
    ensures
        0 <= #[trigger] slot_index(x, y, z) < 27,
        cell_x(slot_index(x, y, z)) == x,
        cell_y(slot_index(x, y, z)) == y,
        cell_z(slot_index(x, y, z)) == z,
{
}

/// Valid flat indices decompose into valid coordinates and back.
pub broadcast proof fn lemma_cell_coords(i: int)
    requires
        0 <= i < 27,
    ensures
        0 <= #[trigger] cell_x(i) < 3,
        0 <= #[trigger] cell_y(i) < 3,
        0 <= #[trigger] cell_z(i) < 3,
        slot_index(cell_x(i), cell_y(i), cell_z(i)) == i,
{
}

/// Well-formed flat grid: 27 cells, each empty (0) or a color code (1..=6),
/// with the permanently unusable center column empty.
pub open spec fn grid_wf(g: Seq<u8>) -> bool {
    &&& g.len() == 27
    &&& forall|i: int| 0 <= i < 27 ==> #[trigger] g[i] <= 6
    &&& g[slot_index(1, 1, 0)] == 0
    &&& g[slot_index(1, 1, 1)] == 0
    &&& g[slot_index(1, 1, 2)] == 0
}

/// No piece in the column floats above an empty cell.
pub open spec fn column_settled(g: Seq<u8>, x: int, y: int) -> bool {
    &&& (g[slot_index(x, y, 1)] != 0 ==> g[slot_index(x, y, 0)] != 0)
    &&& (g[slot_index(x, y, 2)] != 0 ==> g[slot_index(x, y, 1)] != 0)
}

/// Gravity is a no-op on the whole grid.
pub open spec fn grid_settled(g: Seq<u8>) -> bool {
    forall|x: int, y: int| 0 <= x < 3 && 0 <= y < 3 ==> #[trigger] column_settled(g, x, y)
}

/// The 3x3x3 slot grid, stored flat in `[x][y][z]` order with one byte per
/// cell: 0 for empty, 1..=6 for a piece color code.
#[derive(Debug, Eq, Hash, PartialEq)]
pub struct Cage {
    pub grid: Vec<u8>,
}

impl View for Cage {
    type V = Seq<u8>;

    open spec fn view(&self) -> Seq<u8> {
        self.grid@
    }
}

impl Clone for Cage {
    fn clone(&self) -> (r: Self)
        ensures
            r@ == self@,
    {
        let grid = self.grid.clone();
        proof {
            assert(grid@ =~= self.grid@);
        }
        Cage { grid }
    }
}

/// Is line `k` completed by three equal nonempty cells?
pub open spec fn line_filled(g: Seq<u8>, k: int) -> bool {
    &&& g[line_slot(k, 0)] != 0
    &&& g[line_slot(k, 1)] == g[line_slot(k, 0)]
    &&& g[line_slot(k, 2)] == g[line_slot(k, 0)]
}

/// The first completed line at index `k` or later, scanning the fixed table
/// in order.
pub open spec fn first_filled_line(g: Seq<u8>, k: int) -> Option<int>
    decreases 28 - k,
{
    if k < 0 || k >= 28 {
        None
    } else if line_filled(g, k) {
        Some(k)
    } else {
        first_filled_line(g, k + 1)
    }
}

impl Cage {
    pub open spec fn wf(self) -> bool {
        grid_wf(self@)
    }

    /// An empty cage.
    pub fn new() -> (r: Self)
        ensures
            r.wf(),
            grid_settled(r@),
            forall|i: int| 0 <= i < 27 ==> r@[i] == 0,
    {
        let grid = vec![0u8; 27];
        Cage { grid }
    }

    /// The center column `(1, 1)` can never hold a piece.
    pub fn is_center(x: usize, y: usize) -> (r: bool)
        ensures
            r == (x == 1 && y == 1),
    {
        x == 1 && y == 1
    }

    /// Read one cell.
    pub fn cell(&self, x: usize, y: usize, z: usize) -> (r: u8)
        requires
            self@.len() == 27,
            x < 3,
            y < 3,
            z < 3,
        ensures
            r == self@[slot_index(x as int, y as int, z as int)],
    {
        proof {
            lemma_slot_index(x as int, y as int, z as int);
        }
        self.grid[9 * x + 3 * y + z]
    }

    /// Scan the 28 fixed line patterns in table order; report the color and
    /// the slots of the first one completed by three equal pieces.
    pub fn has_line(&self) -> (r: Option<(Cubie, Line)>)
        requires
            self.wf(),
        ensures
            match first_filled_line(self@, 0) {
                None => r is None,
                Some(k) => r matches Some((c, l)) && c.spec_code() == self@[line_slot(k, 0)]
                    && crate::line::line_is(l, k),
            },
    {
        let ls = lines();
        let mut k: usize = 0;
        while k < 28
            invariant
                self.wf(),
                ls@.len() == 28,
                forall|m: int| 0 <= m < 28 ==> crate::line::line_is(#[trigger] ls@[m], m),
                k <= 28,
                first_filled_line(self@, 0) == first_filled_line(self@, k as int),
            decreases 28 - k,
        {
            let l = ls[k];
            let s0 = l[0];
            let s1 = l[1];
            let s2 = l[2];
            let a = self.grid[9 * s0[0] + 3 * s0[1] + s0[2]];
            let b = self.grid[9 * s1[0] + 3 * s1[1] + s1[2]];
            let c = self.grid[9 * s2[0] + 3 * s2[1] + s2[2]];
            proof {
                crate::line::lemma_line_slot_in_bounds();
            }
            if a != 0 && b == a && c == a {
                assert(line_filled(self@, k as int));
                match Cubie::from_code(a) {
                    Some(cu) => {
                        return Some((cu, l));
                    },
                    None => {
                        proof {
                            assert(false);
                        }
                        return None;
                    },
                }
            }
            proof {
                assert(!line_filled(self@, k as int));
                assert(first_filled_line(self@, k as int) == first_filled_line(
                    self@,
                    k as int + 1,
                ));
            }
            k += 1;
        }
        None
    }
}

/// The lowest empty height of a column, or 3 when the column is full.
pub open spec fn drop_height(g: Seq<u8>, x: int, y: int) -> int {
    if g[slot_index(x, y, 0)] == 0 {
        0
    } else if g[slot_index(x, y, 1)] == 0 {
        1
    } else if g[slot_index(x, y, 2)] == 0 {
        2
    } else {
        3
    }
}

/// What a column cell holds after its pieces settle to the bottom,
/// preserving their order.
pub open spec fn settled_cell(g: Seq<u8>, x: int, y: int, z: int) -> u8 {
    let a = g[slot_index(x, y, 0)];
    let b = g[slot_index(x, y, 1)];
    let c = g[slot_index(x, y, 2)];
    if z == 0 {
        if a != 0 {
            a
        } else if b != 0 {
            b
        } else {
            c
        }
    } else if z == 1 {
        if a != 0 {
            if b != 0 {
                b
            } else {
                c
            }
        } else if b != 0 {
            c
        } else {
            0
        }
    } else {
        if a != 0 && b != 0 {
            c
        } else {
            0
        }
    }
}

/// The whole grid after gravity: every column settles; the center column is
/// left as it is (it is empty in any well-formed grid).
pub open spec fn gravity_spec(g: Seq<u8>) -> Seq<u8> {
    Seq::new(
        27,
        |i: int|
            if cell_x(i) == 1 && cell_y(i) == 1 {
                g[i]
            } else {
                settled_cell(g, cell_x(i), cell_y(i), cell_z(i))
            },
    )
}

/// Height `0..3` of a horizontal layer.
pub open spec fn layer_z(layer: Layer) -> int {
    match layer {
        Layer::Down => 0,
        Layer::Equator => 1,
        Layer::Up => 2,
    }
}

/// x coordinate a rotated layer cell `(a, b)` is read from.
pub open spec fn rot_src_x(rot: Rotation, a: int, b: int) -> int {
    match rot {
        Rotation::Clockwise => b,
        Rotation::CounterClockwise => 2 - b,
        Rotation::HalfTurn => 2 - a,
    }
}

/// y coordinate a rotated layer cell `(a, b)` is read from.
pub open spec fn rot_src_y(rot: Rotation, a: int, b: int) -> int {
    match rot {
        Rotation::Clockwise => 2 - a,
        Rotation::CounterClockwise => a,
        Rotation::HalfTurn => 2 - b,
    }
}

/// The grid after permuting one layer, before gravity.
pub open spec fn rotate_layer_pre(g: Seq<u8>, layer: Layer, rot: Rotation) -> Seq<u8> {
    Seq::new(
        27,
        |i: int|
            if cell_z(i) == layer_z(layer) {
                g[slot_index(
                    rot_src_x(rot, cell_x(i), cell_y(i)),
                    rot_src_y(rot, cell_x(i), cell_y(i)),
                    cell_z(i),
                )]
            } else {
                g[i]
            },
    )
}

/// The grid after rotating one layer: permute the layer, then let every
/// column settle.
pub open spec fn rotate_layer_spec(g: Seq<u8>, layer: Layer, rot: Rotation) -> Seq<u8> {
    gravity_spec(rotate_layer_pre(g, layer, rot))
}

/// The grid after turning the frame upside down, before gravity: cell
/// `(x, y, z)` is read from `(x, 2-y, 2-z)`.
pub open spec fn flip_pre(g: Seq<u8>) -> Seq<u8> {
    Seq::new(27, |i: int| g[slot_index(cell_x(i), 2 - cell_y(i), 2 - cell_z(i))])
}

/// The grid after flipping the frame and letting every column settle.
pub open spec fn flip_spec(g: Seq<u8>) -> Seq<u8> {
    gravity_spec(flip_pre(g))
}

impl Cage {
    /// Place a piece in the lowest empty slot of a column. Rejects the
    /// center column, coordinates outside the frame, and full columns, in
    /// that order, leaving the cage unchanged; otherwise returns the height
    /// the piece came to rest at.
    pub fn drop(&mut self, color: Cubie, column: (usize, usize)) -> (r: Result<
        usize,
        LegalityError,
    >)
        requires
            old(self).wf(),
        ensures
            final(self).wf(),
            column.0 == 1 && column.1 == 1 ==> r == Err::<usize, LegalityError>(
                LegalityError::DropOnCenterColumn,
            ) && final(self)@ == old(self)@,
            !(column.0 == 1 && column.1 == 1) && (column.0 >= 3 || column.1 >= 3) ==> r == Err::<
                usize,
                LegalityError,
            >(LegalityError::InvalidColumnIndex) && final(self)@ == old(self)@,
            !(column.0 == 1 && column.1 == 1) && column.0 < 3 && column.1 < 3 && drop_height(
                old(self)@,
                column.0 as int,
                column.1 as int,
            ) == 3 ==> r == Err::<usize, LegalityError>(LegalityError::DropOnFullColumn) && final(self)@
                == old(self)@,
            !(column.0 == 1 && column.1 == 1) && column.0 < 3 && column.1 < 3 && drop_height(
                old(self)@,
                column.0 as int,
                column.1 as int,
            ) < 3 ==> {
                let z = drop_height(old(self)@, column.0 as int, column.1 as int);
                r == Ok::<usize, LegalityError>(z as usize) && final(self)@ == old(self)@.update(
                    slot_index(column.0 as int, column.1 as int, z),
                    color.spec_code(),
                )
            },
            grid_settled(old(self)@) ==> grid_settled(final(self)@),
    {
        let (x, y) = column;
        if x == 1 && y == 1 {
            return Err(LegalityError::DropOnCenterColumn);
        }
        if x >= 3 || y >= 3 {
            return Err(LegalityError::InvalidColumnIndex);
        }
        proof {
            lemma_slot_index(x as int, y as int, 0);
            lemma_slot_index(x as int, y as int, 1);
            lemma_slot_index(x as int, y as int, 2);
        }
        let code = color.code();
        if self.grid[9 * x + 3 * y] == 0 {
            self.grid[9 * x + 3 * y] = code;
            proof {
                if grid_settled(old(self)@) {
                    lemma_settled_after_drop(old(self)@, x as int, y as int, 0, code);
                }
            }
            Ok(0)
        } else if self.grid[9 * x + 3 * y + 1] == 0 {
            self.grid[9 * x + 3 * y + 1] = code;
            proof {
                if grid_settled(old(self)@) {
                    lemma_settled_after_drop(old(self)@, x as int, y as int, 1, code);
                }
            }
            Ok(1)
        } else if self.grid[9 * x + 3 * y + 2] == 0 {
            self.grid[9 * x + 3 * y + 2] = code;
            proof {
                if grid_settled(old(self)@) {
                    lemma_settled_after_drop(old(self)@, x as int, y as int, 2, code);
                }
            }
            Ok(2)
        } else {
            Err(LegalityError::DropOnFullColumn)
        }
    }

    /// Let every piece fall to the lowest empty slot of its column,
    /// preserving the order within each column.
    pub fn apply_gravity(&mut self)
        requires
            old(self).wf(),
        ensures
            final(self).wf(),
            final(self)@ == gravity_spec(old(self)@),
            grid_settled(final(self)@),
    {
        let ghost g = self.grid@;
        let mut v: Vec<u8> = Vec::new();
        let mut i: usize = 0;
        while i < 27
            invariant
                grid_wf(g),
                self.grid@ == g,
                i <= 27,
                v@.len() == i,
                forall|j: int| 0 <= j < i ==> v@[j] == gravity_spec(g)[j],
            decreases 27 - i,
        {
            let x = i / 9;
            let y = (i % 9) / 3;
            proof {
                lemma_cell_coords(i as int);
                lemma_slot_index(x as int, y as int, 0);
                lemma_slot_index(x as int, y as int, 1);
                lemma_slot_index(x as int, y as int, 2);
            }
            if x == 1 && y == 1 {
                v.push(self.grid[i]);
            } else {
                let z = i % 3;
                let a = self.grid[9 * x + 3 * y];
                let b = self.grid[9 * x + 3 * y + 1];
                let c = self.grid[9 * x + 3 * y + 2];
                let val = if z == 0 {
                    if a != 0 {
                        a
                    } else if b != 0 {
                        b
                    } else {
                        c
                    }
                } else if z == 1 {
                    if a != 0 {
                        if b != 0 {
                            b
                        } else {
                            c
                        }
                    } else if b != 0 {
                        c
                    } else {
                        0
                    }
                } else {
                    if a != 0 && b != 0 {
                        c
                    } else {
                        0
                    }
                };
                v.push(val);
            }
            i += 1;
        }
        self.grid = v;
        proof {
            assert(self@ =~= gravity_spec(g));
            assert forall|x: int, y: int| 0 <= x < 3 && 0 <= y < 3 implies column_settled(
                self@,
                x,
                y,
            ) by {
                lemma_slot_index(x, y, 0);
                lemma_slot_index(x, y, 1);
                lemma_slot_index(x, y, 2);
            }
        }
    }

    /// Rotate one horizontal layer a quarter or half turn, then let every
    /// column settle.
    pub fn rotate_layer(&mut self, layer: Layer, rotation: Rotation)
        requires
            old(self).wf(),
        ensures
            final(self).wf(),
            final(self)@ == rotate_layer_spec(old(self)@, layer, rotation),
            grid_settled(final(self)@),
    {
        let ghost g = self.grid@;
        let zl: usize = match layer {
            Layer::Down => 0,
            Layer::Equator => 1,
            Layer::Up => 2,
        };
        let mut v: Vec<u8> = Vec::new();
        let mut i: usize = 0;
        while i < 27
            invariant
                grid_wf(g),
                self.grid@ == g,
                zl == layer_z(layer),
                i <= 27,
                v@.len() == i,
                forall|j: int| 0 <= j < i ==> v@[j] == rotate_layer_pre(g, layer, rotation)[j],
            decreases 27 - i,
        {
            proof {
                lemma_cell_coords(i as int);
            }
            let z = i % 3;
            let val = if z == zl {
                let a = i / 9;
                let b = (i % 9) / 3;
                let sx = match rotation {
                    Rotation::Clockwise => b,
                    Rotation::CounterClockwise => 2 - b,
                    Rotation::HalfTurn => 2 - a,
                };
                let sy = match rotation {
                    Rotation::Clockwise => 2 - a,
                    Rotation::CounterClockwise => a,
                    Rotation::HalfTurn => 2 - b,
                };
                proof {
                    lemma_slot_index(sx as int, sy as int, z as int);
                }
                self.grid[9 * sx + 3 * sy + z]
            } else {
                self.grid[i]
            };
            v.push(val);
            i += 1;
        }
        self.grid = v;
        proof {
            assert(self@ =~= rotate_layer_pre(g, layer, rotation));
            assert forall|i: int| 0 <= i < 27 implies rotate_layer_pre(g, layer, rotation)[i]
                <= 6 by {
                lemma_cell_coords(i);
                lemma_slot_index(
                    rot_src_x(rotation, cell_x(i), cell_y(i)),
                    rot_src_y(rotation, cell_x(i), cell_y(i)),
                    cell_z(i),
                );
            }
            assert(self@[slot_index(1, 1, 0)] == g[slot_index(1, 1, 0)] || self@[slot_index(
                1,
                1,
                0,
            )] == g[slot_index(rot_src_x(rotation, 1, 1), rot_src_y(rotation, 1, 1), 0)]);
        }
        self.apply_gravity();
    }

    /// Turn the whole frame upside down, then let every column settle.
    pub fn flip(&mut self)
        requires
            old(self).wf(),
        ensures
            final(self).wf(),
            final(self)@ == flip_spec(old(self)@),
            grid_settled(final(self)@),
    {
        let ghost g = self.grid@;
        let mut v: Vec<u8> = Vec::new();
        let mut i: usize = 0;
        while i < 27
            invariant
                grid_wf(g),
                self.grid@ == g,
                i <= 27,
                v@.len() == i,
                forall|j: int| 0 <= j < i ==> v@[j] == flip_pre(g)[j],
            decreases 27 - i,
        {
            proof {
                lemma_cell_coords(i as int);
            }
            let x = i / 9;
            let y = (i % 9) / 3;
            let z = i % 3;
            proof {
                lemma_slot_index(x as int, (2 - y) as int, (2 - z) as int);
            }
            let val = self.grid[9 * x + 3 * (2 - y) + (2 - z)];
            v.push(val);
            i += 1;
        }
        self.grid = v;
        proof {
            assert(self@ =~= flip_pre(g));
            assert forall|i: int| 0 <= i < 27 implies flip_pre(g)[i] <= 6 by {
                lemma_cell_coords(i);
                lemma_slot_index(cell_x(i), 2 - cell_y(i), 2 - cell_z(i));
            }
        }
        self.apply_gravity();
    }
}

/// Dropping a piece onto the top of a settled column leaves the grid
/// settled.
proof fn lemma_settled_after_drop(g: Seq<u8>, x: int, y: int, z: int, code: u8)
    requires
        grid_wf(g),
        0 <= x < 3,
        0 <= y < 3,
        0 <= z < 3,
        code != 0,
        drop_height(g, x, y) == z,
        grid_settled(g),
    ensures
        grid_settled(g.update(slot_index(x, y, z), code)),
{
    let g2 = g.update(slot_index(x, y, z), code);
    assert forall|a: int, b: int| 0 <= a < 3 && 0 <= b < 3 implies column_settled(g2, a, b) by {
        lemma_slot_index(a, b, 0);
        lemma_slot_index(a, b, 1);
        lemma_slot_index(a, b, 2);
        lemma_slot_index(x, y, z);
        assert(column_settled(g, a, b));
    }
}

/// On a settled grid, gravity changes nothing.
pub proof fn lemma_gravity_noop(g: Seq<u8>)
    requires
        g.len() == 27,
        grid_settled(g),
    ensures
        gravity_spec(g) == g,
{
    assert forall|i: int| 0 <= i < 27 implies gravity_spec(g)[i] == g[i] by {
        lemma_cell_coords(i);
        let x = cell_x(i);
        let y = cell_y(i);
        lemma_slot_index(x, y, 0);
        lemma_slot_index(x, y, 1);
        lemma_slot_index(x, y, 2);
        assert(column_settled(g, x, y));
    }
    assert(gravity_spec(g) =~= g);
}

/// One column of a grid, bottom to top.
pub open spec fn column_of(g: Seq<u8>, x: int, y: int) -> (u8, u8, u8) {
    (g[slot_index(x, y, 0)], g[slot_index(x, y, 1)], g[slot_index(x, y, 2)])
}

/// What flipping the frame does to one settled column: the stack reverses
/// its order and settles back to the bottom.
pub open spec fn flipped_column(t: (u8, u8, u8)) -> (u8, u8, u8) {
    if t.2 != 0 {
        (t.2, t.1, t.0)
    } else if t.1 != 0 {
        (t.1, t.0, 0)
    } else {
        (t.0, 0, 0)
    }
}

/// On a well-formed settled grid, a flip mirrors columns in y and reverses
/// each stack, and its result is again well-formed and settled.
#[verifier::rlimit(100)]
#[verifier::spinoff_prover]
proof fn lemma_flip_columns(g: Seq<u8>)
    requires
        grid_wf(g),
        grid_settled(g),
    ensures
        grid_wf(flip_spec(g)),
        grid_settled(flip_spec(g)),
        forall|x: int, y: int|
            0 <= x < 3 && 0 <= y < 3 ==> #[trigger] column_of(flip_spec(g), x, y)
                == flipped_column(column_of(g, x, 2 - y)),
{
    let p = flip_pre(g);
    let h = flip_spec(g);
    assert forall|x: int, y: int| 0 <= x < 3 && 0 <= y < 3 implies #[trigger] column_of(h, x, y)
        == flipped_column(column_of(g, x, 2 - y)) && column_settled(h, x, y) && h[slot_index(
        x,
        y,
        0,
    )] <= 6 && h[slot_index(x, y, 1)] <= 6 && h[slot_index(x, y, 2)] <= 6 by {
        lemma_slot_index(x, y, 0);
        lemma_slot_index(x, y, 1);
        lemma_slot_index(x, y, 2);
        lemma_slot_index(x, 2 - y, 0);
        lemma_slot_index(x, 2 - y, 1);
        lemma_slot_index(x, 2 - y, 2);
        assert(p[slot_index(x, y, 0)] == g[slot_index(x, 2 - y, 2)]);
        assert(p[slot_index(x, y, 1)] == g[slot_index(x, 2 - y, 1)]);
        assert(p[slot_index(x, y, 2)] == g[slot_index(x, 2 - y, 0)]);
        assert(column_settled(g, x, 2 - y));
    }
    lemma_slot_index(1, 1, 0);
    lemma_slot_index(1, 1, 1);
    lemma_slot_index(1, 1, 2);
    assert(column_of(h, 1, 1) == flipped_column(column_of(g, 1, 1)));
}

/// Flipping the frame twice returns a well-formed settled board to its
/// original state.
pub proof fn lemma_flip_twice(g: Seq<u8>)
    requires
        grid_wf(g),
        grid_settled(g),
    ensures
        flip_spec(flip_spec(g)) == g,
{
    let h = flip_spec(g);
    lemma_flip_columns(g);
    lemma_flip_columns(h);
    assert forall|i: int| 0 <= i < 27 implies flip_spec(h)[i] == g[i] by {
        lemma_cell_coords(i);
        let x = cell_x(i);
        let y = cell_y(i);
        lemma_slot_index(x, y, 0);
        lemma_slot_index(x, y, 1);
        lemma_slot_index(x, y, 2);
        assert(column_of(flip_spec(h), x, y) == flipped_column(column_of(h, x, 2 - y)));
        assert(column_of(h, x, 2 - y) == flipped_column(column_of(g, x, y)));
        assert(column_settled(g, x, y));
        assert(flipped_column(flipped_column(column_of(g, x, y))) == column_of(g, x, y));
    }
    assert(flip_spec(flip_spec(g)) =~= g);
}

/// The rotated layer carries the only free pieces: every layer below it is
/// full outside the center column and every layer above it is empty. Then
/// rotating the layer never makes a piece fall.
pub open spec fn layer_isolated(g: Seq<u8>, lz: int) -> bool {
    &&& forall|i: int|
        0 <= i < 27 && cell_z(i) < lz && !(cell_x(i) == 1 && cell_y(i) == 1) ==> #[trigger] g[i]
            != 0
    &&& forall|i: int| 0 <= i < 27 && cell_z(i) > lz ==> #[trigger] g[i] == 0
}

/// When the rotated layer is isolated, rotating it is the pure permutation:
/// gravity has nothing to do, and the result is again well-formed, settled
/// and isolated.
proof fn lemma_rotate_once_pure(g: Seq<u8>, layer: Layer, rot: Rotation)
    requires
        grid_wf(g),
        grid_settled(g),
        layer_isolated(g, layer_z(layer)),
    ensures
        rotate_layer_spec(g, layer, rot) == rotate_layer_pre(g, layer, rot),
        grid_wf(rotate_layer_pre(g, layer, rot)),
        grid_settled(rotate_layer_pre(g, layer, rot)),
        layer_isolated(rotate_layer_pre(g, layer, rot), layer_z(layer)),
{
    let lz = layer_z(layer);
    let p = rotate_layer_pre(g, layer, rot);
    assert forall|i: int| 0 <= i < 27 implies #[trigger] p[i] <= 6 && (cell_z(i) < lz && !(
    cell_x(i) == 1 && cell_y(i) == 1) ==> p[i] != 0) && (cell_z(i) > lz ==> p[i] == 0) && ((
    cell_x(i) == 1 && cell_y(i) == 1) ==> p[i] == 0) by {
        lemma_cell_coords(i);
        if cell_z(i) == lz {
            lemma_slot_index(
                rot_src_x(rot, cell_x(i), cell_y(i)),
                rot_src_y(rot, cell_x(i), cell_y(i)),
                cell_z(i),
            );
        }
    }
    lemma_slot_index(1, 1, 0);
    lemma_slot_index(1, 1, 1);
    lemma_slot_index(1, 1, 2);
    assert forall|x: int, y: int| 0 <= x < 3 && 0 <= y < 3 implies column_settled(p, x, y) by {
        lemma_slot_index(x, y, 0);
        lemma_slot_index(x, y, 1);
        lemma_slot_index(x, y, 2);
    }
    lemma_gravity_noop(p);
}

/// Applying the same layer rotation in the same direction four times
/// returns the board, and so in particular that layer's occupancy, to its
/// original state, provided the rotated layer is the topmost occupied one
/// and sits on full layers, so that no piece falls between turns.
pub proof fn lemma_rotate_layer_four(g: Seq<u8>, layer: Layer, rot: Rotation)
    requires
        grid_wf(g),
        grid_settled(g),
        layer_isolated(g, layer_z(layer)),
    ensures
        rotate_layer_spec(
            rotate_layer_spec(
                rotate_layer_spec(rotate_layer_spec(g, layer, rot), layer, rot),
                layer,
                rot,
            ),
            layer,
            rot,
        ) == g,
{
    let g1 = rotate_layer_pre(g, layer, rot);
    lemma_rotate_once_pure(g, layer, rot);
    let g2 = rotate_layer_pre(g1, layer, rot);
    lemma_rotate_once_pure(g1, layer, rot);
    let g3 = rotate_layer_pre(g2, layer, rot);
    lemma_rotate_once_pure(g2, layer, rot);
    let g4 = rotate_layer_pre(g3, layer, rot);
    lemma_rotate_once_pure(g3, layer, rot);
    assert forall|i: int| 0 <= i < 27 implies g4[i] == g[i] by {
        lemma_cell_coords(i);
        let x = cell_x(i);
        let y = cell_y(i);
        if cell_z(i) == layer_z(layer) {
            let x1 = rot_src_x(rot, x, y);
            let y1 = rot_src_y(rot, x, y);
            lemma_slot_index(x1, y1, cell_z(i));
            let x2 = rot_src_x(rot, x1, y1);
            let y2 = rot_src_y(rot, x1, y1);
            lemma_slot_index(x2, y2, cell_z(i));
            let x3 = rot_src_x(rot, x2, y2);
            let y3 = rot_src_y(rot, x2, y2);
            lemma_slot_index(x3, y3, cell_z(i));
            let x4 = rot_src_x(rot, x3, y3);
            let y4 = rot_src_y(rot, x3, y3);
            lemma_slot_index(x4, y4, cell_z(i));
            assert(x4 == x && y4 == y);
        }
    }
    assert(rotate_layer_spec(
        rotate_layer_spec(
            rotate_layer_spec(rotate_layer_spec(g, layer, rot), layer, rot),
            layer,
            rot,
        ),
        layer,
        rot,
    ) =~= g);
}


/// Characters the cage parser skips: ASCII whitespace and commas, which only
/// serve human-readable formatting.
pub open spec fn is_skip_char(c: char) -> bool {
    c == ' ' || c == '\t' || c == '\n' || c == '\r' || c == ','
}

/// Do 27 significant characters describe a cage? Center cells may hold any
/// character (they are ignored); every other cell needs `.` or a color
/// letter. Characters arrive top layer first, so index `idx` addresses
/// `x = idx % 3`, `y = (idx / 3) % 3`, `z = 2 - idx / 9`.
pub open spec fn parse_input_ok(t: Seq<char>) -> bool {
    &&& t.len() == 27
    &&& forall|idx: int|
        0 <= idx < 27 && !(idx % 3 == 1 && (idx / 3) % 3 == 1) ==> (t[idx] == '.'
            || Cubie::spec_from_char(#[trigger] t[idx]) is Some)
}

/// The cell value at flat index `i` that 27 significant characters describe.
pub open spec fn parsed_cell(t: Seq<char>, i: int) -> u8 {
    if cell_x(i) == 1 && cell_y(i) == 1 {
        0
    } else {
        let c = t[9 * (2 - cell_z(i)) + 3 * cell_y(i) + cell_x(i)];
        if c == '.' {
            0
        } else {
            match Cubie::spec_from_char(c) {
                Some(k) => k.spec_code(),
                None => 0,
            }
        }
    }
}

/// The characters of the input that carry cell contents.
pub open spec fn significant(t: Seq<char>) -> Seq<char> {
    t.filter(|c: char| !is_skip_char(c))
}

/// The index within the significant characters that fills cell `i`.
pub open spec fn src_idx(i: int) -> int {
    9 * (2 - cell_z(i)) + 3 * cell_y(i) + cell_x(i)
}

proof fn lemma_significant_push(t: Seq<char>, c: char)
    ensures
        significant(t.push(c)) == if is_skip_char(c) {
            significant(t)
        } else {
            significant(t).push(c)
        },
{
    reveal(Seq::filter);
    assert(t.push(c).drop_last() =~= t);
    assert(t.push(c).last() == c);
}

impl Cage {
    /// Build a cage from 27 cell characters given top layer first: `.` for
    /// an empty cell, a color letter for a piece; ASCII whitespace and
    /// commas are skipped, and the three center-column positions are
    /// ignored. Errors on non-ASCII input, on a significant-character count
    /// other than 27, and on any other character at a non-center position.
    pub fn parse(s: &str) -> (r: Result<Cage, String>)
        ensures
            r is Ok <==> vstd::string::is_ascii(s) && parse_input_ok(significant(s@)),
            r matches Ok(c) ==> {
                &&& c.wf()
                &&& forall|i: int| 0 <= i < 27 ==> c@[i] == parsed_cell(significant(s@), i)
            },
    {
        if !s.is_ascii() {
            return Err("cage string must be ASCII text".to_owned());
        }
        let bytes = s.as_bytes();
        proof {
            vstd::string::is_ascii_spec_bytes(s);
        }
        let n = bytes.len();
        let ghost t = significant(s@);
        let mut sig: Vec<u8> = Vec::new();
        let mut p: usize = 0;
        while p < n
            invariant
                vstd::string::is_ascii(s),
                bytes@ =~= Seq::new(s@.len(), |i: int| s@.index(i) as u8),
                n == bytes@.len(),
                p <= n,
                sig@.len() == significant(s@.take(p as int)).len(),
                forall|q: int|
                    0 <= q < sig@.len() ==> #[trigger] sig@[q] == significant(
                        s@.take(p as int),
                    )[q] as u8 && '\0' <= significant(s@.take(p as int))[q] <= '\u{7f}',
            decreases n - p,
        {
            let ghost ch = s@[p as int];
            proof {
                assert(s@.take(p as int + 1) =~= s@.take(p as int).push(ch));
                lemma_significant_push(s@.take(p as int), ch);
                assert('\0' <= ch <= '\u{7f}');
            }
            let b = bytes[p];
            proof {
                assert(b == ch as u8);
            }
            if !(b == 32 || b == 9 || b == 10 || b == 13 || b == 44) {
                proof {
                    assert(!is_skip_char(ch));
                }
                sig.push(b);
            } else {
                proof {
                    assert(is_skip_char(ch));
                }
            }
            p += 1;
        }
        proof {
            assert(s@.take(n as int) =~= s@);
        }
        if sig.len() != 27 {
            return Err("expected 27 significant characters".to_owned());
        }
        let mut cage = Cage::new();
        let mut idx: usize = 0;
        while idx < 27
            invariant
                t == significant(s@),
                t.len() == 27,
                sig@.len() == 27,
                forall|q: int|
                    0 <= q < 27 ==> #[trigger] sig@[q] == t[q] as u8 && '\0' <= t[q] <= '\u{7f}',
                idx <= 27,
                forall|q: int|
                    0 <= q < idx && !(q % 3 == 1 && (q / 3) % 3 == 1) ==> (#[trigger] t[q] == '.'
                        || Cubie::spec_from_char(t[q]) is Some),
                cage.wf(),
                forall|i: int|
                    0 <= i < 27 ==> #[trigger] cage@[i] == if src_idx(i) < idx {
                        parsed_cell(t, i)
                    } else {
                        0
                    },
            decreases 27 - idx,
        {
            let x = idx % 3;
            let y = (idx / 3) % 3;
            let zz = 2 - idx / 9;
            proof {
                lemma_slot_index(x as int, y as int, zz as int);
                assert(idx == 9 * (idx / 9) + 3 * ((idx / 3) % 3) + idx % 3);
            }
            let ghost ch = t[idx as int];
            let b = sig[idx];
            proof {
                assert((ch == '.') == (b == 46));
                assert((ch == 'R') == (b == 82));
                assert((ch == 'G') == (b == 71));
                assert((ch == 'B') == (b == 66));
                assert((ch == 'Y') == (b == 89));
                assert((ch == 'W') == (b == 87));
                assert((ch == 'O') == (b == 79));
            }
            if !(x == 1 && y == 1) {
                let code: u8 = match b {
                    46 => 0,  // '.'
                    82 => 3,  // 'R'
                    71 => 6,  // 'G'
                    66 => 5,  // 'B'
                    89 => 2,  // 'Y'
                    87 => 1,  // 'W'
                    79 => 4,  // 'O'
                    _ => {
                        return Err("invalid color char".to_owned());
                    },
                };
                if code != 0 {
                    cage.grid[9 * x + 3 * y + zz] = code;
                }
            }
            idx += 1;
            proof {
                assert forall|i: int| 0 <= i < 27 implies #[trigger] cage@[i] == (if src_idx(i)
                    < idx {
                    parsed_cell(t, i)
                } else {
                    0
                }) by {
                    lemma_cell_coords(i);
                    lemma_slot_index(2 - cell_z(i), cell_y(i), cell_x(i));
                }
            }
        }
        Ok(cage)
    }
}

} // verus!
