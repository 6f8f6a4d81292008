//! Game state: board, players, remaining pieces, mover, last move and the
//! incrementally maintained position fingerprint.

use crate::cage::{
    drop_height, flip_spec, grid_settled, rotate_layer_spec, Cage, LegalityError,
};
use crate::canon::{canon, canon_reflected};
use crate::cubie::Cubie;
use crate::line::{slot_index, Line};
use crate::moves::{spec_opposite, Layer, Move, Rotation};
use crate::zobrist::{compute_fingerprint, fingerprint, ZobristTable};
use vstd::prelude::*;

verus! {

/// One of the two players: a fixed id (0 or 1) and an assigned color.
#[derive(Clone, Copy, Debug, Eq, Hash, PartialEq, Structural)]
pub struct Player {
    pub color: Cubie,
    pub id: u8,
}

/// Full game state. The fingerprint always equals the hash derivable from
/// (board, mover): maintained incrementally on drops, fully rebuilt after
/// rotations, flips and normalization.
#[derive(Debug)]
pub struct GameState {
    pub cage: Cage,
    pub players: [Player; 2],
    pub remaining_cubies: [u8; 2],
    pub player_to_move: Player,
    pub zobrist_hash: u64,
    pub last_move: Option<Move>,
    pub table: ZobristTable,
}

/// The same move seen in the horizontal mirror: drop columns mirror in x,
/// rotations invert their sense, a flip is its own image.
pub open spec fn mirrored_move(m: Move) -> Move {
    match m {
        Move::Flip => Move::Flip,
        Move::Drop { color, column } => Move::Drop {
            color,
            column: ((2 - column.0 as int) as usize, column.1),
        },
        Move::RotateLayer { layer, rotation } => Move::RotateLayer {
            layer,
            rotation: spec_opposite(rotation),
        },
    }
}

/// The board after a move is applied to it, assuming a drop is applicable.
pub open spec fn cage_after(g: Seq<u8>, m: Move) -> Seq<u8> {
    match m {
        Move::Drop { color, column } => g.update(
            slot_index(
                column.0 as int,
                column.1 as int,
                drop_height(g, column.0 as int, column.1 as int),
            ),
            color.spec_code(),
        ),
        Move::RotateLayer { layer, rotation } => rotate_layer_spec(g, layer, rotation),
        Move::Flip => flip_spec(g),
    }
}

/// Why a drop onto this board would be rejected, if it would be.
pub open spec fn drop_error(g: Seq<u8>, column: (usize, usize)) -> Option<LegalityError> {
    if column.0 == 1 && column.1 == 1 {
        Some(LegalityError::DropOnCenterColumn)
    } else if column.0 >= 3 || column.1 >= 3 {
        Some(LegalityError::InvalidColumnIndex)
    } else if drop_height(g, column.0 as int, column.1 as int) == 3 {
        Some(LegalityError::DropOnFullColumn)
    } else {
        None
    }
}

/// Why applying this move would fail, if it would: only drops can fail.
pub open spec fn move_error(g: Seq<u8>, m: Move) -> Option<LegalityError> {
    match m {
        Move::Drop { color, column } => drop_error(g, column),
        _ => None,
    }
}

/// The first of the two players, if any, whose color completes the first
/// filled line of the board, with the line's table index.
pub open spec fn winner_of(g: Seq<u8>, p0: Player, p1: Player) -> Option<(Player, int)> {
    match crate::cage::first_filled_line(g, 0) {
        None => None,
        Some(k) => {
            let c = g[crate::line::line_slot(k, 0)];
            if p0.color.spec_code() == c {
                Some((p0, k))
            } else if p1.color.spec_code() == c {
                Some((p1, k))
            } else {
                None
            }
        },
    }
}

/// Both states hold the same values field by field.
pub open spec fn states_equal(a: GameState, b: GameState) -> bool {
    &&& a.cage@ == b.cage@
    &&& a.players == b.players
    &&& a.remaining_cubies == b.remaining_cubies
    &&& a.player_to_move == b.player_to_move
    &&& a.zobrist_hash == b.zobrist_hash
    &&& a.last_move == b.last_move
    &&& a.table.keys@ == b.table.keys@
    &&& a.table.mover_key == b.table.mover_key
}

impl GameState {
    pub open spec fn mover_id(self) -> u8 {
        self.player_to_move.id
    }

    /// Everything a game state maintains except the fingerprint equation.
    pub open spec fn pre_wf(self) -> bool {
        &&& self.cage.wf()
        &&& grid_settled(self.cage@)
        &&& self.table.wf()
        &&& self.players@[0].id == 0
        &&& self.players@[1].id == 1
        &&& (self.player_to_move == self.players@[0] || self.player_to_move == self.players@[1])
        &&& match self.last_move {
            Some(Move::Drop { color, column }) => column.0 < 3 && column.1 < 3,
            _ => true,
        }
    }

    /// A well-formed state: on top of [`Self::pre_wf`], the stored
    /// fingerprint equals the one recomputable from (board, mover).
    pub open spec fn wf(self) -> bool {
        &&& self.pre_wf()
        &&& self.zobrist_hash == fingerprint(self.cage@, self.mover_id())
    }

    /// The player who is not to move.
    pub open spec fn next_player(self) -> Player {
        if self.player_to_move.id == 0 {
            self.players@[1]
        } else {
            self.players@[0]
        }
    }

    /// A fresh game: empty board, blue player 0 to move first, each player
    /// holding the given number of pieces.
    pub fn new(p1_cubies: u8, p2_cubies: u8) -> (r: GameState)
        ensures
            r.wf(),
            forall|i: int| 0 <= i < 27 ==> r.cage@[i] == 0,
            r.players@[0] == (Player { color: Cubie::Blue, id: 0 }),
            r.players@[1] == (Player { color: Cubie::Red, id: 1 }),
            r.remaining_cubies@[0] == p1_cubies,
            r.remaining_cubies@[1] == p2_cubies,
            r.player_to_move == r.players@[0],
            r.last_move is None,
    {
        let players = [
            Player { color: Cubie::Blue, id: 0 },
            Player { color: Cubie::Red, id: 1 },
        ];
        let cage = Cage::new();
        let table = ZobristTable::new();
        let zobrist_hash = compute_fingerprint(&cage, 0, &table);
        GameState {
            cage,
            players,
            remaining_cubies: [p1_cubies, p2_cubies],
            player_to_move: players[0],
            zobrist_hash,
            last_move: None,
            table,
        }
    }

    /// May this move be played now? Drops need a piece in hand, the
    /// mover's own color, a non-center, in-range, non-full column; a flip
    /// or quarter-turn rotation is legal unless it exactly undoes the
    /// previous move; half turns are never offered.
    pub open spec fn is_legal(self, m: Move) -> bool {
        match m {
            Move::Drop { color, column } => {
                &&& self.remaining_cubies@[self.mover_id() as int] > 0
                &&& color == self.player_to_move.color
                &&& column.0 < 3
                &&& column.1 < 3
                &&& !(column.0 == 1 && column.1 == 1)
                &&& self.cage@[slot_index(column.0 as int, column.1 as int, 2)] == 0
            },
            Move::RotateLayer { layer, rotation } => {
                &&& rotation != Rotation::HalfTurn
                &&& self.last_move != Some(
                    Move::RotateLayer { layer, rotation: spec_opposite(rotation) },
                )
            },
            Move::Flip => self.last_move != Some(Move::Flip),
        }
    }

    /// Does the last move recorded in this state exactly undo `m`?
    fn inverts_last(&self, m: Move) -> (r: bool)
        ensures
            r == (self.last_move == crate::moves::spec_inverse(m)),
    {
        match (self.last_move, m.inverse()) {
            (None, None) => true,
            (Some(a), Some(b)) => a.same_as(b),
            _ => false,
        }
    }

    /// All moves the mover may play now, in a fixed order: drops in column
    /// scan order, then the flip, then the six quarter turns layer by
    /// layer.
    pub fn legal_moves(&self) -> (r: Vec<Move>)
        requires
            self.wf(),
        ensures
            forall|m: Move| r@.contains(m) <==> self.is_legal(m),
            forall|i: int, j: int| 0 <= i < j < r@.len() ==> move_order(r@[i]) < move_order(r@[j]),
    {
        let mut r: Vec<Move> = Vec::new();
        let mover = self.player_to_move;
        let id = if mover.id == 0 {
            0
        } else {
            1
        };
        if self.remaining_cubies[id] > 0 {
            let mut i: usize = 0;
            while i < 9
                invariant
                    self.wf(),
                    id == self.mover_id() as int,
                    self.remaining_cubies@[self.mover_id() as int] > 0,
                    mover == self.player_to_move,
                    i <= 9,
                    forall|m: Move| #![trigger r@.contains(m)]
                        r@.contains(m) <==> (m matches Move::Drop { color, column }
                            && self.is_legal(m) && 3 * column.0 + column.1 < i),
                    forall|a: int, b: int|
                        0 <= a < b < r@.len() ==> move_order(r@[a]) < move_order(r@[b]),
                    forall|a: int| 0 <= a < r@.len() ==> move_order(#[trigger] r@[a]) < i,
                decreases 9 - i,
            {
                let ghost prev = r@;
                let x = i / 3;
                let y = i % 3;
                proof {
                    crate::cage::lemma_slot_index(x as int, y as int, 2);
                }
                let mut pushed: Option<Move> = None;
                if !(x == 1 && y == 1) {
                    if self.cage.cell(x, y, 2) == 0 {
                        let m = Move::Drop { color: mover.color, column: (x, y) };
                        r.push(m);
                        pushed = Some(m);
                    }
                }
                i += 1;
                proof {
                    assert forall|m: Move| #![trigger r@.contains(m)]
                        r@.contains(m) <==> (m matches Move::Drop { color, column }
                            && self.is_legal(m) && 3 * column.0 + column.1 < i) by {
                        match pushed {
                            Some(v) => {
                                lemma_contains_push(prev, v, m);
                            },
                            None => {},
                        }
                    }
                    match pushed {
                        Some(v) => {
                            assert(move_order(v) == i - 1);
                        },
                        None => {},
                    }
                }
            }
        }
        proof {
            assert forall|m: Move|
                r@.contains(m) <==> (m matches Move::Drop { color, column } && self.is_legal(
                    m,
                )) by {}
        }
        // Flip, unless it undoes the previous move.
        {
            let ghost prev = r@;
            let mut pushed: Option<Move> = None;
            if !self.inverts_last(Move::Flip) {
                r.push(Move::Flip);
                pushed = Some(Move::Flip);
            }
            proof {
                assert forall|m: Move| #![trigger r@.contains(m)]
                    r@.contains(m) <==> ((m matches Move::Drop { color, column }
                        && self.is_legal(m)) || (m == Move::Flip && self.is_legal(m))) by {
                    match pushed {
                        Some(v) => {
                            lemma_contains_push(prev, v, m);
                        },
                        None => {},
                    }
                }
                match pushed {
                    Some(v) => {
                        assert(move_order(v) == 9);
                    },
                    None => {},
                }
            }
        }
        // The six quarter turns, each unless it undoes the previous move.
        let mut t: usize = 0;
        while t < 6
            invariant
                self.wf(),
                t <= 6,
                forall|m: Move| #![trigger r@.contains(m)]
                    r@.contains(m) <==> ((m matches Move::Drop { color, column }
                        && self.is_legal(m)) || (m == Move::Flip && self.is_legal(m)) || (
                    m matches Move::RotateLayer { layer, rotation } && self.is_legal(m) && 2
                        * crate::cage::layer_z(layer) + rot_order(rotation) < t)),
                forall|a: int, b: int|
                    0 <= a < b < r@.len() ==> move_order(r@[a]) < move_order(r@[b]),
                forall|a: int| 0 <= a < r@.len() ==> move_order(#[trigger] r@[a]) < 10 + t,
            decreases 6 - t,
        {
            let ghost prev = r@;
            let layer = if t < 2 {
                Layer::Down
            } else if t < 4 {
                Layer::Equator
            } else {
                Layer::Up
            };
            let rotation = if t % 2 == 0 {
                Rotation::Clockwise
            } else {
                Rotation::CounterClockwise
            };
            let m = Move::RotateLayer { layer, rotation };
            let mut pushed: Option<Move> = None;
            if !self.inverts_last(m) {
                r.push(m);
                pushed = Some(m);
            }
            t += 1;
            proof {
                assert(2 * crate::cage::layer_z(layer) + rot_order(rotation) == t - 1);
                assert forall|mm: Move| #![trigger r@.contains(mm)]
                    r@.contains(mm) <==> ((mm matches Move::Drop { color, column }
                        && self.is_legal(mm)) || (mm == Move::Flip && self.is_legal(mm)) || (
                    mm matches Move::RotateLayer { layer, rotation } && self.is_legal(mm) && 2
                        * crate::cage::layer_z(layer) + rot_order(rotation) < t)) by {
                    match pushed {
                        Some(v) => {
                            lemma_contains_push(prev, v, mm);
                        },
                        None => {},
                    }
                    match mm {
                        Move::RotateLayer { layer: l2, rotation: r2 } => {
                            if r2 != Rotation::HalfTurn && 2 * crate::cage::layer_z(l2)
                                + rot_order(r2) == t - 1 {
                                assert(crate::cage::layer_z(l2) == crate::cage::layer_z(layer)
                                    && rot_order(r2) == rot_order(rotation));
                                assert(l2 == layer && r2 == rotation);
                            }
                        },
                        _ => {},
                    }
                }
                match pushed {
                    Some(v) => {
                        assert(move_order(v) == 10 + t - 1);
                    },
                    None => {},
                }
            }
        }
        r
    }

    /// The first player, if any, whose color completes the first filled
    /// line of the board.
    pub open spec fn spec_winner(self) -> Option<(Player, int)> {
        winner_of(self.cage@, self.players@[0], self.players@[1])
    }

    /// Has either player completed a line? Detection runs after every move
    /// regardless of who moved: a move can complete either player's line.
    pub fn won(&self) -> (r: Option<(Player, Line)>)
        requires
            self.cage.wf(),
        ensures
            match self.spec_winner() {
                None => r is None,
                Some((p, k)) => r matches Some((q, l)) && q == p && crate::line::line_is(l, k),
            },
    {
        match self.cage.has_line() {
            Some((cubie, line)) => {
                proof {
                    assert((self.players@[0].color == cubie) == (self.players@[0].color.spec_code()
                        == cubie.spec_code()));
                    assert((self.players@[1].color == cubie) == (self.players@[1].color.spec_code()
                        == cubie.spec_code()));
                }
                if self.players[0].color == cubie {
                    Some((self.players[0], line))
                } else if self.players[1].color == cubie {
                    Some((self.players[1], line))
                } else {
                    None
                }
            },
            None => None,
        }
    }

    fn advance_player_to_move(&mut self)
        requires
            old(self).players@[0].id == 0,
            old(self).players@[1].id == 1,
        ensures
            final(self).player_to_move == old(self).next_player(),
            final(self).cage@ == old(self).cage@,
            final(self).players == old(self).players,
            final(self).remaining_cubies == old(self).remaining_cubies,
            final(self).zobrist_hash == old(self).zobrist_hash,
            final(self).last_move == old(self).last_move,
            final(self).table.keys@ == old(self).table.keys@,
            final(self).table.mover_key == old(self).table.mover_key,
    {
        self.player_to_move = if self.player_to_move.id == 0 {
            self.players[1]
        } else {
            self.players[0]
        };
    }

    /// Recompute the fingerprint from scratch from the current board and
    /// mover, replacing the stored one.
    pub fn rebuild_zobrist_hash(&mut self)
        requires
            old(self).cage.wf(),
            old(self).table.wf(),
        ensures
            final(self).zobrist_hash == fingerprint(final(self).cage@, final(self).mover_id()),
            final(self).cage@ == old(self).cage@,
            final(self).players == old(self).players,
            final(self).remaining_cubies == old(self).remaining_cubies,
            final(self).player_to_move == old(self).player_to_move,
            final(self).last_move == old(self).last_move,
            final(self).table.keys@ == old(self).table.keys@,
            final(self).table.mover_key == old(self).table.mover_key,
    {
        self.zobrist_hash = compute_fingerprint(&self.cage, self.player_to_move.id, &self.table);
    }

    /// Apply a move: a drop places a piece in the lowest empty slot of its
    /// column, decrements the mover's pieces and updates the fingerprint
    /// incrementally by XOR-ing in the single changed slot; rotations and
    /// flips always succeed and force a full fingerprint rebuild. Either
    /// way the mover advances and the move is recorded. A rejected drop
    /// leaves the state unchanged.
    pub fn apply_move(&mut self, m: Move) -> (r: Result<(), LegalityError>)
        requires
            old(self).wf(),
            m matches Move::Drop { color, column } ==> old(self).remaining_cubies@[old(
                self,
            ).mover_id() as int] > 0,
        ensures
            final(self).wf(),
            match move_error(old(self).cage@, m) {
                Some(e) => r == Err::<(), LegalityError>(e) && states_equal(
                    *final(self),
                    *old(self),
                ),
                None => {
                    &&& r == Ok::<(), LegalityError>(())
                    &&& final(self).cage@ == cage_after(old(self).cage@, m)
                    &&& final(self).player_to_move == old(self).next_player()
                    &&& final(self).players == old(self).players
                    &&& final(self).table.keys@ == old(self).table.keys@
                    &&& final(self).table.mover_key == old(self).table.mover_key
                    &&& final(self).last_move == Some(m)
                    &&& final(self).remaining_cubies@ == (match m {
                        Move::Drop { .. } => old(self).remaining_cubies@.update(
                            old(self).mover_id() as int,
                            (old(self).remaining_cubies@[old(self).mover_id() as int] - 1) as u8,
                        ),
                        _ => old(self).remaining_cubies@,
                    })
                },
            },
    {
        match m {
            Move::Drop { color, column } => {
                let ghost g = self.cage@;
                let z = match self.cage.drop(color, column) {
                    Ok(z) => z,
                    Err(e) => {
                        return Err(e);
                    },
                };
                let code = color.code();
                let key = self.table.key(code, column.0, column.1, z);
                let ghost h0 = self.zobrist_hash;
                self.zobrist_hash = self.zobrist_hash ^ key ^ self.table.mover_key;
                let id = self.player_to_move.id;
                if id == 0 {
                    self.remaining_cubies = [
                        self.remaining_cubies[0] - 1,
                        self.remaining_cubies[1],
                    ];
                } else {
                    self.remaining_cubies = [
                        self.remaining_cubies[0],
                        self.remaining_cubies[1] - 1,
                    ];
                }
                self.advance_player_to_move();
                self.last_move = Some(m);
                proof {
                    let j = slot_index(
                        column.0 as int,
                        column.1 as int,
                        drop_height(g, column.0 as int, column.1 as int),
                    );
                    crate::cage::lemma_slot_index(
                        column.0 as int,
                        column.1 as int,
                        drop_height(g, column.0 as int, column.1 as int),
                    );
                    crate::zobrist::lemma_board_acc_update(g, j, code, 27);
                    let mk = self.table.mover_key;
                    let a = crate::zobrist::board_acc(g, 27);
                    let t1: u64 = if old(self).mover_id() == 1 {
                        mk
                    } else {
                        0
                    };
                    lemma_hash_step(a, t1, key, mk);
                    lemma_xor_self(mk);
                    lemma_xor_zero_g(mk);
                    assert(self.remaining_cubies@ =~= old(self).remaining_cubies@.update(
                        old(self).mover_id() as int,
                        (old(self).remaining_cubies@[old(self).mover_id() as int] - 1) as u8,
                    ));
                }
                Ok(())
            },
            Move::Flip => {
                self.cage.flip();
                self.advance_player_to_move();
                self.last_move = Some(m);
                self.rebuild_zobrist_hash();
                Ok(())
            },
            Move::RotateLayer { layer, rotation } => {
                self.cage.rotate_layer(layer, rotation);
                self.advance_player_to_move();
                self.last_move = Some(m);
                self.rebuild_zobrist_hash();
                Ok(())
            },
        }
    }

    /// Canonicalize: replace the board by its canonical form; when a
    /// reflection was used, mirror the recorded last move so the
    /// undo-prevention rule keeps working; always rebuild the fingerprint.
    pub fn normalize(&mut self)
        requires
            old(self).pre_wf(),
        ensures
            final(self).wf(),
            final(self).cage@ == canon(old(self).cage@),
            final(self).player_to_move == old(self).player_to_move,
            final(self).players == old(self).players,
            final(self).remaining_cubies == old(self).remaining_cubies,
            final(self).table.keys@ == old(self).table.keys@,
            final(self).table.mover_key == old(self).table.mover_key,
            final(self).last_move == (if canon_reflected(old(self).cage@) {
                match old(self).last_move {
                    Some(lm) => Some(mirrored_move(lm)),
                    None => None,
                }
            } else {
                old(self).last_move
            }),
    {
        let reflected = self.cage.normalize();
        if reflected {
            self.last_move = match self.last_move {
                Some(Move::Flip) => Some(Move::Flip),
                Some(Move::Drop { color, column }) => Some(
                    Move::Drop { color, column: (2 - column.0, column.1) },
                ),
                Some(Move::RotateLayer { layer, rotation }) => Some(
                    Move::RotateLayer {
                        layer,
                        rotation: match rotation {
                            Rotation::Clockwise => Rotation::CounterClockwise,
                            Rotation::CounterClockwise => Rotation::Clockwise,
                            Rotation::HalfTurn => Rotation::HalfTurn,
                        },
                    },
                ),
                None => None,
            };
        }
        self.rebuild_zobrist_hash();
    }

    /// Apply a move and canonicalize the result, recording the move as the
    /// last move — mirrored when the canonicalization used a reflection, so
    /// the undo-prevention rule keeps working in the symmetry-quotient
    /// space the search explores. A rejected drop leaves the state
    /// unchanged.
    pub fn apply_move_normalize(&mut self, m: Move) -> (r: Result<(), LegalityError>)
        requires
            old(self).wf(),
            m matches Move::Drop { color, column } ==> old(self).remaining_cubies@[old(
                self,
            ).mover_id() as int] > 0,
        ensures
            final(self).wf(),
            match move_error(old(self).cage@, m) {
                Some(e) => r == Err::<(), LegalityError>(e) && states_equal(
                    *final(self),
                    *old(self),
                ),
                None => {
                    &&& r == Ok::<(), LegalityError>(())
                    &&& final(self).cage@ == canon(cage_after(old(self).cage@, m))
                    &&& final(self).player_to_move == old(self).next_player()
                    &&& final(self).players == old(self).players
                    &&& final(self).table.keys@ == old(self).table.keys@
                    &&& final(self).table.mover_key == old(self).table.mover_key
                    &&& final(self).remaining_cubies@ == (match m {
                        Move::Drop { .. } => old(self).remaining_cubies@.update(
                            old(self).mover_id() as int,
                            (old(self).remaining_cubies@[old(self).mover_id() as int] - 1) as u8,
                        ),
                        _ => old(self).remaining_cubies@,
                    })
                    &&& final(self).last_move == Some(
                        if canon_reflected(cage_after(old(self).cage@, m)) {
                            mirrored_move(m)
                        } else {
                            m
                        },
                    )
                },
            },
    {
        match m {
            Move::Drop { color, column } => {
                match self.cage.drop(color, column) {
                    Ok(_) => {},
                    Err(e) => {
                        return Err(e);
                    },
                }
                let id = self.player_to_move.id;
                if id == 0 {
                    self.remaining_cubies = [
                        self.remaining_cubies[0] - 1,
                        self.remaining_cubies[1],
                    ];
                } else {
                    self.remaining_cubies = [
                        self.remaining_cubies[0],
                        self.remaining_cubies[1] - 1,
                    ];
                }
                proof {
                    assert(self.remaining_cubies@ =~= old(self).remaining_cubies@.update(
                        old(self).mover_id() as int,
                        (old(self).remaining_cubies@[old(self).mover_id() as int] - 1) as u8,
                    ));
                }
            },
            Move::Flip => {
                self.cage.flip();
            },
            Move::RotateLayer { layer, rotation } => {
                self.cage.rotate_layer(layer, rotation);
            },
        }
        self.advance_player_to_move();
        self.last_move = Some(m);
        self.normalize();
        Ok(())
    }
}

/// Law: legal moves never target the center column or a full column, and
/// never exactly undo the previous move.
pub proof fn lemma_legal_move_safe(gs: GameState, m: Move)
    requires
        gs.wf(),
        gs.is_legal(m),
    ensures
        m matches Move::Drop { color, column } ==> !(column.0 == 1 && column.1 == 1) && column.0
            < 3 && column.1 < 3 && gs.cage@[slot_index(column.0 as int, column.1 as int, 2)] == 0,
        crate::moves::spec_inverse(m) is Some ==> gs.last_move != crate::moves::spec_inverse(m),
{
}

/// Law: a well-formed state's stored fingerprint equals the one recomputed
/// from scratch from its board and mover. Every constructor and move
/// application returns a well-formed state, so the incrementally
/// maintained fingerprint never drifts from the recomputable one.
pub proof fn lemma_fingerprint_consistent(gs: GameState)
    requires
        gs.wf(),
    ensures
        gs.zobrist_hash == fingerprint(gs.cage@, gs.mover_id()),
{
}

impl Clone for GameState {
    fn clone(&self) -> (r: Self)
        ensures
            states_equal(r, *self),
            self.wf() ==> r.wf(),
            self.pre_wf() ==> r.pre_wf(),
    {
        GameState {
            cage: self.cage.clone(),
            players: self.players,
            remaining_cubies: self.remaining_cubies,
            player_to_move: self.player_to_move,
            zobrist_hash: self.zobrist_hash,
            last_move: self.last_move,
            table: self.table.clone(),
        }
    }
}

/// Position of a rotation sense in the fixed enumeration order of quarter
/// turns; half turns are never enumerated.
pub open spec fn rot_order(r: Rotation) -> int {
    match r {
        Rotation::Clockwise => 0,
        Rotation::CounterClockwise => 1,
        Rotation::HalfTurn => 2,
    }
}

/// Position of a move in the fixed enumeration order: drops in column scan
/// order, then the flip, then the six quarter turns layer by layer. The
/// rank is injective on legal moves, so together with the exact move set
/// it pins the emitted sequence.
pub open spec fn move_order(m: Move) -> int {
    match m {
        Move::Drop { color, column } => 3 * column.0 + column.1,
        Move::Flip => 9,
        Move::RotateLayer { layer, rotation } => 10 + 2 * crate::cage::layer_z(layer)
            + rot_order(rotation),
    }
}

proof fn lemma_contains_push(s: Seq<Move>, v: Move, x: Move)
    ensures
        s.push(v).contains(x) <==> (s.contains(x) || x == v),
{
    if s.contains(x) {
        let i = choose|i: int| 0 <= i < s.len() && s[i] == x;
        assert(s.push(v)[i] == x);
    }
    assert(s.push(v)[s.len() as int] == v);
    if s.push(v).contains(x) && x != v {
        let i = choose|i: int| 0 <= i < s.push(v).len() && s.push(v)[i] == x;
        assert(s[i] == x);
    }
}

proof fn lemma_xor_self(a: u64)
    ensures
        a ^ a == 0,
{
    assert(a ^ a == 0) by (bit_vector);
}

proof fn lemma_xor_zero_g(a: u64)
    ensures
        a ^ 0 == a,
        0 ^ a == a,
{
    assert(a ^ 0 == a && 0 ^ a == a) by (bit_vector);
}

proof fn lemma_hash_step(a: u64, t: u64, b: u64, k: u64)
    ensures
        ((a ^ t) ^ b) ^ k == (a ^ b) ^ (t ^ k),
{
    assert(((a ^ t) ^ b) ^ k == (a ^ b) ^ (t ^ k)) by (bit_vector);
}

} // verus!
