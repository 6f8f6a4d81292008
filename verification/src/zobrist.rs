//! Position fingerprinting: one independent 64-bit value per (color, slot)
//! pair plus one value for "second player to move", all drawn from a
//! seeded deterministic generator. A position's fingerprint is the XOR of
//! the keys of its occupied slots, XORed with the mover key when the second
//! player is to move.

use crate::cage::{cell_x, cell_y, cell_z, lemma_cell_coords, lemma_slot_index, Cage};
use crate::line::slot_index;
use rand::{Rng, SeedableRng};
use vstd::prelude::*;

verus! {

/// Seed of the stream the per-(color, slot) keys are drawn from.
pub const POS_SEED: u64 = 0x12345678;

/// Seed of the stream the second-player-to-move key is drawn from.
pub const MOVER_SEED: u64 = 0x87654321;

/// The value stream a seeded standard RNG produces: entry `i` of the
/// stream for `seed`. In the pinned rand version, `StdRng` wraps the
/// ChaCha12 generator, whose seeded output is documented deterministic and
/// portable, so the stream is a function of the seed alone.
pub uninterp spec fn seeded_stream(seed: u64, i: int) -> u64;

/// Relies on `rand::rngs::StdRng::seed_from_u64` and
/// `rand::Rng::random::<u64>`: `StdRng` is the ChaCha12 generator here,
/// and seeded ChaCha output is a deterministic, endian-independent
/// function of the seed, so the first `n` values drawn form a fixed
/// stream determined by the seed.
#[verifier::external_body]
fn seeded_u64s(seed: u64, n: usize) -> (r: Vec<u64>)
    ensures
        r@.len() == n,
        forall|i: int| 0 <= i < n ==> r@[i] == seeded_stream(seed, i),
{
    let mut rng = rand::rngs::StdRng::seed_from_u64(seed);
    let mut v = Vec::with_capacity(n);
    for _ in 0..n {
        v.push(rng.random::<u64>());
    }
    v
}

/// The fingerprint key of color code `c` (1..=6) at slot `(x, y, z)`. Keys
/// are laid out slot-major, color-minor in the stream.
pub open spec fn slot_key(c: u8, x: int, y: int, z: int) -> u64 {
    seeded_stream(POS_SEED, slot_index(x, y, z) * 6 + c - 1)
}

/// The process-wide table of fingerprint keys, built once from the fixed
/// seeds and carried by each game state.
#[derive(Debug)]
pub struct ZobristTable {
    pub keys: Vec<u64>,
    pub mover_key: u64,
}

impl ZobristTable {
    pub open spec fn wf(self) -> bool {
        &&& self.keys@.len() == 162
        &&& forall|i: int| 0 <= i < 162 ==> self.keys@[i] == seeded_stream(POS_SEED, i)
        &&& self.mover_key == seeded_stream(MOVER_SEED, 0)
    }

    /// Draw the whole key table from the fixed seeds.
    pub fn new() -> (r: Self)
        ensures
            r.wf(),
    {
        let keys = seeded_u64s(POS_SEED, 162);
        let mover = seeded_u64s(MOVER_SEED, 1);
        ZobristTable { keys, mover_key: mover[0] }
    }

    /// Look up the key of one (color, slot) pair.
    pub fn key(&self, code: u8, x: usize, y: usize, z: usize) -> (r: u64)
        requires
            self.wf(),
            1 <= code <= 6,
            x < 3,
            y < 3,
            z < 3,
        ensures
            r == slot_key(code, x as int, y as int, z as int),
    {
        proof {
            lemma_slot_index(x as int, y as int, z as int);
        }
        self.keys[(9 * x + 3 * y + z) * 6 + (code as usize - 1)]
    }
}

impl Clone for ZobristTable {
    fn clone(&self) -> (r: Self)
        ensures
            r.keys@ == self.keys@,
            r.mover_key == self.mover_key,
    {
        let keys = self.keys.clone();
        proof {
            assert(keys@ =~= self.keys@);
        }
        ZobristTable { keys, mover_key: self.mover_key }
    }
}

/// XOR of the keys of the occupied cells with flat index below `n`.
pub open spec fn board_acc(g: Seq<u8>, n: int) -> u64
    decreases n,
{
    if n <= 0 {
        0
    } else {
        board_acc(g, n - 1) ^ (if g[n - 1] != 0 {
            slot_key(g[n - 1], cell_x(n - 1), cell_y(n - 1), cell_z(n - 1))
        } else {
            0
        })
    }
}

/// The fingerprint of a (board, mover) pair.
pub open spec fn fingerprint(g: Seq<u8>, mover_id: u8) -> u64 {
    board_acc(g, 27) ^ (if mover_id == 1 {
        seeded_stream(MOVER_SEED, 0)
    } else {
        0
    })
}

proof fn lemma_xor_zero(a: u64)
    ensures
        a ^ 0 == a,
        0 ^ a == a,
{
    assert(a ^ 0 == a && 0 ^ a == a) by (bit_vector);
}

proof fn lemma_xor_shuffle(a: u64, b: u64, c: u64)
    ensures
        (a ^ b) ^ c == (a ^ c) ^ b,
{
    assert((a ^ b) ^ c == (a ^ c) ^ b) by (bit_vector);
}

/// Filling one empty cell changes the accumulated key XOR by exactly that
/// cell's key: the incremental update of a drop agrees with recomputing
/// from scratch.
pub proof fn lemma_board_acc_update(g: Seq<u8>, j: int, c: u8, n: int)
    requires
        g.len() == 27,
        0 <= j < 27,
        g[j] == 0,
        c != 0,
        0 <= n <= 27,
    ensures
        board_acc(g.update(j, c), n) == if j < n {
            board_acc(g, n) ^ slot_key(c, cell_x(j), cell_y(j), cell_z(j))
        } else {
            board_acc(g, n)
        },
    decreases n,
{
    let g2 = g.update(j, c);
    let key = slot_key(c, cell_x(j), cell_y(j), cell_z(j));
    if n > 0 {
        lemma_board_acc_update(g, j, c, n - 1);
        if j == n - 1 {
            assert(board_acc(g2, n) == board_acc(g2, n - 1) ^ key);
            assert(board_acc(g, n) == board_acc(g, n - 1) ^ 0);
            lemma_xor_zero(board_acc(g, n - 1));
        } else if j < n - 1 {
            let t = if g[n - 1] != 0 {
                slot_key(g[n - 1], cell_x(n - 1), cell_y(n - 1), cell_z(n - 1))
            } else {
                0
            };
            assert(board_acc(g2, n) == (board_acc(g, n - 1) ^ key) ^ t);
            lemma_xor_shuffle(board_acc(g, n - 1), key, t);
        }
    }
}

/// Recompute the fingerprint of a (board, mover) pair from scratch.
pub fn compute_fingerprint(cage: &Cage, mover_id: u8, table: &ZobristTable) -> (r: u64)
    requires
        cage.wf(),
        table.wf(),
    ensures
        r == fingerprint(cage@, mover_id),
{
    let mut h: u64 = 0;
    let mut i: usize = 0;
    while i < 27
        invariant
            cage.wf(),
            table.wf(),
            i <= 27,
            h == board_acc(cage@, i as int),
        decreases 27 - i,
    {
        proof {
            lemma_cell_coords(i as int);
        }
        let code = cage.grid[i];
        if code != 0 {
            let x = i / 9;
            let y = (i % 9) / 3;
            let z = i % 3;
            h = h ^ table.key(code, x, y, z);
        } else {
            proof {
                lemma_xor_zero(h);
            }
        }
        i += 1;
    }
    if mover_id == 1 {
        h = h ^ table.mover_key;
    } else {
        proof {
            lemma_xor_zero(h);
        }
    }
    h
}

} // verus!
