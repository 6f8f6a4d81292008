//! Exhaustive game-tree solver: a memoized recursive minimax over
//! canonicalized, fingerprinted positions, with an in-path cycle guard and
//! three expansion policies.

use crate::canon::{canon, canon_reflected};
use crate::game::{cage_after, winner_of, GameState};
use crate::moves::Move;
use crate::zobrist::fingerprint;
use std::collections::{HashMap, HashSet};
use vstd::prelude::*;

verus! {

broadcast use vstd::std_specs::hash::group_hash_axioms;

/// The solved value of a position: outcome 1 (first player wins), -1
/// (second player wins) or 0 (draw), and the ply distance to the forced
/// result. A drawn or unresolved position carries distance 0; for won or
/// lost positions the distance is exact under the `Full` and `OptimalWL`
/// policies and a bound under `Pruned`.
#[derive(Clone, Copy, Debug, Eq, Hash, PartialEq, Structural)]
pub struct Evaluation {
    pub score: isize,
    pub moves_to_wl: isize,
}

/// Expansion policy of the solver. `Full` expands every legal move
/// unconditionally. `OptimalWL` stops at positions with an immediate win
/// but never cuts off siblings, so its distances are exact. `Pruned` also
/// stops expanding siblings once the mover's best possible outcome is
/// reached, trading exact distances on cut branches for speed.
#[derive(Clone, Copy, Debug, Eq, Hash, PartialEq, Structural)]
pub enum SearchMode {
    Full,
    OptimalWL,
    Pruned,
}

/// Does this legal-or-not move, applied and canonicalized, leave a
/// completed line owned by the player who made it?
pub open spec fn wins_immediately(gs: GameState, m: Move) -> bool {
    match winner_of(canon(cage_after(gs.cage@, m)), gs.players@[0], gs.players@[1]) {
        Some((p, k)) => p.id == gs.player_to_move.id,
        None => false,
    }
}

/// The canonical fingerprint of the position a move leads to.
pub open spec fn child_fingerprint(gs: GameState, m: Move) -> u64 {
    fingerprint(canon(cage_after(gs.cage@, m)), gs.next_player().id)
}

/// Does the mover have a legal move that wins on the spot?
pub open spec fn has_immediate_win(gs: GameState) -> bool {
    exists|m: Move| gs.is_legal(m) && #[trigger] wins_immediately(gs, m)
}

/// One ply more, saturating at the top of the range.
pub open spec fn ply_after(d: isize) -> isize {
    if d == isize::MAX {
        d
    } else {
        (d + 1) as isize
    }
}

/// What the search guarantees of a position it actually expanded (not
/// terminal, not memoized, no one-ply-win shortcut applied), said of the
/// map `m` it left behind and the value `r` it recorded. `path` is the
/// in-path fingerprint set while the children were examined: the caller's
/// path plus the position itself; a child whose canonical fingerprint lies
/// on it is skipped by the cycle guard.
///
/// In order: a position whose every legal move leads onto the path is a
/// draw by repetition; outside `Pruned` no child is cut, so every legal
/// move's child is on the path or recorded; under `Pruned` either nothing
/// was cut or the mover's best possible outcome was reached; the recorded
/// value dominates every recorded non-skipped child (the mover with id 0
/// maximizes, the other minimizes); some recorded non-skipped child
/// attains the value, one ply closer; and outside `Pruned` the distance
/// is extremal over the children sharing the outcome — fastest for the
/// winning mover, slowest for the losing one.
pub open spec fn expansion_spec(
    gs: GameState,
    path: Set<u64>,
    m: Map<u64, Evaluation>,
    r: Evaluation,
    mode: SearchMode,
) -> bool {
    &&& ((forall|mv: Move|
        gs.is_legal(mv) ==> path.contains(#[trigger] child_fingerprint(gs, mv))) ==> r == (
    Evaluation { score: 0isize, moves_to_wl: 0isize }))
    &&& (mode != SearchMode::Pruned ==> forall|mv: Move|
        gs.is_legal(mv) ==> path.contains(#[trigger] child_fingerprint(gs, mv))
            || m.contains_key(child_fingerprint(gs, mv)))
    &&& (mode == SearchMode::Pruned ==> ((forall|mv: Move|
        gs.is_legal(mv) ==> path.contains(#[trigger] child_fingerprint(gs, mv))
            || m.contains_key(child_fingerprint(gs, mv))) || r.score == (
    if gs.mover_id() == 0 {
        1int
    } else {
        -1int
    })))
    &&& (forall|mv: Move|
        (gs.is_legal(mv) && !path.contains(#[trigger] child_fingerprint(gs, mv))
            && m.contains_key(child_fingerprint(gs, mv))) ==> (if gs.mover_id() == 0 {
            r.score >= m[child_fingerprint(gs, mv)].score
        } else {
            r.score <= m[child_fingerprint(gs, mv)].score
        }))
    &&& ((exists|mv: Move|
        gs.is_legal(mv) && !path.contains(#[trigger] child_fingerprint(gs, mv))) ==> exists|
        mv: Move|
        gs.is_legal(mv) && !path.contains(#[trigger] child_fingerprint(gs, mv))
            && m.contains_key(child_fingerprint(gs, mv)) && m[child_fingerprint(gs, mv)].score
            == r.score && (r.score != 0 ==> r.moves_to_wl == ply_after(
            m[child_fingerprint(gs, mv)].moves_to_wl,
        )))
    &&& (mode != SearchMode::Pruned ==> forall|mv: Move|
        (gs.is_legal(mv) && !path.contains(#[trigger] child_fingerprint(gs, mv))
            && m.contains_key(child_fingerprint(gs, mv)) && m[child_fingerprint(gs, mv)].score
            == r.score && r.score != 0) ==> (if (r.score == 1) == (gs.mover_id() == 0) {
            r.moves_to_wl <= ply_after(m[child_fingerprint(gs, mv)].moves_to_wl)
        } else {
            r.moves_to_wl >= ply_after(m[child_fingerprint(gs, mv)].moves_to_wl)
        }))
}

/// The rule that finalized one recorded entry, exhibited by a concrete
/// position and in-path set: the position carries the entry's fingerprint
/// and, depending on its board and the policy, the value is the terminal
/// value of the won board, the one-ply value of an immediate win outside
/// `Full`, or satisfies the expansion equation against the map.
pub open spec fn certifies(
    gs: GameState,
    path: Set<u64>,
    k: u64,
    e: Evaluation,
    m: Map<u64, Evaluation>,
    mode: SearchMode,
) -> bool {
    &&& gs.wf()
    &&& k == gs.zobrist_hash
    &&& path.contains(k)
    &&& match gs.spec_winner() {
        Some((p, j)) => e == (Evaluation {
            score: if p.id == 0 {
                1isize
            } else {
                -1isize
            },
            moves_to_wl: 0isize,
        }),
        None => {
            &&& ((mode != SearchMode::Full && has_immediate_win(gs)) ==> e == (Evaluation {
                score: if gs.mover_id() == 0 {
                    1isize
                } else {
                    -1isize
                },
                moves_to_wl: 1isize,
            }))
            &&& ((mode == SearchMode::Full || !has_immediate_win(gs)) ==> expansion_spec(
                gs,
                path,
                m,
                e,
                mode,
            ))
        },
    }
}

/// Some position and in-path set certify this entry of the map.
pub open spec fn entry_certified(k: u64, e: Evaluation, m: Map<u64, Evaluation>, mode: SearchMode) -> bool {
    exists|gs: GameState, path: Set<u64>|
        #![trigger certifies(gs, path, k, e, m, mode)]
        certifies(gs, path, k, e, m, mode)
}

/// The expansion equation survives append-only growth of the map: a grown
/// map holds every old child unchanged, and any child it newly holds is
/// either ruled out by the no-cutting clause or dominated through the
/// extremal-outcome alternative.
proof fn lemma_expansion_stable(
    gs: GameState,
    path: Set<u64>,
    m1: Map<u64, Evaluation>,
    m2: Map<u64, Evaluation>,
    r: Evaluation,
    mode: SearchMode,
)
    requires
        expansion_spec(gs, path, m1, r, mode),
        forall|k: u64| #![trigger m1.contains_key(k)]
            m1.contains_key(k) ==> m2.contains_key(k) && m2[k] == m1[k],
        eval_map_wf(m2),
    ensures
        expansion_spec(gs, path, m2, r, mode),
{
    let complete1 = forall|mv: Move|
        gs.is_legal(mv) ==> path.contains(#[trigger] child_fingerprint(gs, mv))
            || m1.contains_key(child_fingerprint(gs, mv));
    assert forall|mv: Move|
        (gs.is_legal(mv) && !path.contains(#[trigger] child_fingerprint(gs, mv))
            && m2.contains_key(child_fingerprint(gs, mv))) implies (if gs.mover_id() == 0 {
        r.score >= m2[child_fingerprint(gs, mv)].score
    } else {
        r.score <= m2[child_fingerprint(gs, mv)].score
    }) by {
        let cf = child_fingerprint(gs, mv);
        if m1.contains_key(cf) {
        } else {
            assert(!complete1);
            assert(mode == SearchMode::Pruned && r.score == (if gs.mover_id() == 0 {
                1int
            } else {
                -1int
            }));
            assert(eval_wf(m2[cf]));
        }
    }
    assert forall|mv: Move|
        (mode != SearchMode::Pruned && gs.is_legal(mv) && !path.contains(
            #[trigger] child_fingerprint(gs, mv),
        ) && m2.contains_key(child_fingerprint(gs, mv)) && m2[child_fingerprint(gs, mv)].score
            == r.score && r.score != 0) implies (if (r.score == 1) == (gs.mover_id() == 0) {
        r.moves_to_wl <= ply_after(m2[child_fingerprint(gs, mv)].moves_to_wl)
    } else {
        r.moves_to_wl >= ply_after(m2[child_fingerprint(gs, mv)].moves_to_wl)
    }) by {
        let cf = child_fingerprint(gs, mv);
        assert(m1.contains_key(cf));
    }
    if exists|mv: Move| gs.is_legal(mv) && !path.contains(#[trigger] child_fingerprint(gs, mv)) {
        let w = choose|mv: Move|
            gs.is_legal(mv) && !path.contains(#[trigger] child_fingerprint(gs, mv))
                && m1.contains_key(child_fingerprint(gs, mv)) && m1[child_fingerprint(
                gs,
                mv,
            )].score == r.score && (r.score != 0 ==> r.moves_to_wl == ply_after(
                m1[child_fingerprint(gs, mv)].moves_to_wl,
            ));
        assert(gs.is_legal(w) && !path.contains(child_fingerprint(gs, w)) && m2.contains_key(
            child_fingerprint(gs, w),
        ) && m2[child_fingerprint(gs, w)].score == r.score && (r.score != 0 ==> r.moves_to_wl
            == ply_after(m2[child_fingerprint(gs, w)].moves_to_wl)));
    }
}

/// A recorded entry's certificate survives append-only growth of the map.
proof fn lemma_certified_stable(
    k: u64,
    e: Evaluation,
    m1: Map<u64, Evaluation>,
    m2: Map<u64, Evaluation>,
    mode: SearchMode,
)
    requires
        entry_certified(k, e, m1, mode),
        forall|kk: u64| #![trigger m1.contains_key(kk)]
            m1.contains_key(kk) ==> m2.contains_key(kk) && m2[kk] == m1[kk],
        eval_map_wf(m2),
    ensures
        entry_certified(k, e, m2, mode),
{
    let (gs, path) = choose|gs: GameState, path: Set<u64>|
        #[trigger] certifies(gs, path, k, e, m1, mode);
    match gs.spec_winner() {
        Some((p, j)) => {},
        None => {
            if mode == SearchMode::Full || !has_immediate_win(gs) {
                lemma_expansion_stable(gs, path, m1, m2, e, mode);
            }
        },
    }
    assert(certifies(gs, path, k, e, m2, mode));
}

/// A recorded child of `gs` reached by `mv`, not skipped by the cycle
/// guard, carrying the given outcome.
spec fn scored_child(
    gs: GameState,
    path: Set<u64>,
    m: Map<u64, Evaluation>,
    mv: Move,
    score: int,
) -> bool {
    &&& gs.is_legal(mv)
    &&& !path.contains(child_fingerprint(gs, mv))
    &&& m.contains_key(child_fingerprint(gs, mv))
    &&& m[child_fingerprint(gs, mv)].score == score
}

/// A [`scored_child`] whose recorded distance is also pinned.
spec fn child_witness(
    gs: GameState,
    path: Set<u64>,
    m: Map<u64, Evaluation>,
    mv: Move,
    score: int,
    d: int,
) -> bool {
    &&& scored_child(gs, path, m, mv, score)
    &&& m[child_fingerprint(gs, mv)].moves_to_wl == d
}

/// A sane solved value: outcome in {-1, 0, 1}, distance 0 for draws and
/// nonnegative otherwise.
pub open spec fn eval_wf(e: Evaluation) -> bool {
    &&& (e.score == -1 || e.score == 0 || e.score == 1)
    &&& (e.score == 0 ==> e.moves_to_wl == 0)
    &&& (e.score != 0 ==> e.moves_to_wl >= 0)
}

/// Every entry of the map is a sane solved value.
pub open spec fn eval_map_wf(m: Map<u64, Evaluation>) -> bool {
    forall|k: u64| m.contains_key(k) ==> eval_wf(#[trigger] m[k])
}

/// A fingerprint-to-evaluation map. Entries are append-only: one is
/// written at most once per fingerprint and never overwritten, and their
/// insertion order is kept, so repeated solves produce identical maps.
pub struct EvalMap {
    entries: Vec<(u64, Evaluation)>,
    index: HashMap<u64, Evaluation>,
}

impl View for EvalMap {
    type V = Map<u64, Evaluation>;

    closed spec fn view(&self) -> Map<u64, Evaluation> {
        self.index@
    }
}

impl EvalMap {
    /// The entries in insertion order.
    pub closed spec fn entries_seq(self) -> Seq<(u64, Evaluation)> {
        self.entries@
    }

    /// The length the underlying hash table reports; equal to the number
    /// of entries, used as a termination measure by the solver.
    pub closed spec fn index_len(self) -> usize {
        vstd::std_specs::hash::spec_hash_map_len(&self.index)
    }

    pub closed spec fn wf(self) -> bool {
        &&& self@.dom().finite()
        &&& self.entries@.len() == self@.dom().len()
        &&& forall|i: int|
            0 <= i < self.entries@.len() ==> self@.contains_key(#[trigger] self.entries@[i].0)
                && self@[self.entries@[i].0] == self.entries@[i].1
        &&& forall|i: int, j: int|
            0 <= i < j < self.entries@.len() ==> self.entries@[i].0 != self.entries@[j].0
        &&& forall|k: u64|
            self@.contains_key(k) ==> exists|i: int|
                0 <= i < self.entries@.len() && self.entries@[i].0 == k
    }

    pub fn new() -> (r: Self)
        ensures
            r.wf(),
            r@ == Map::<u64, Evaluation>::empty(),
            r.entries_seq() == Seq::<(u64, Evaluation)>::empty(),
    {
        let r = EvalMap { entries: Vec::new(), index: HashMap::new() };
        proof {
            assert(r@.dom() =~= Set::<u64>::empty());
        }
        r
    }

    /// Number of solved positions in the map.
    pub fn len(&self) -> (n: usize)
        requires
            self.wf(),
        ensures
            n == self.entries_seq().len(),
            n == self@.dom().len(),
    {
        self.entries.len()
    }

    pub fn contains_key(&self, k: u64) -> (r: bool)
        ensures
            r == self@.contains_key(k),
    {
        self.index.contains_key(&k)
    }

    pub fn get(&self, k: u64) -> (r: Option<Evaluation>)
        ensures
            match r {
                Some(e) => self@.contains_key(k) && self@[k] == e,
                None => !self@.contains_key(k),
            },
    {
        match self.index.get(&k) {
            Some(e) => Some(*e),
            None => None,
        }
    }

    /// Record the value of a not yet solved position. Entries are written
    /// once and never overwritten.
    pub fn insert(&mut self, k: u64, e: Evaluation)
        requires
            old(self).wf(),
            !old(self)@.contains_key(k),
        ensures
            final(self).wf(),
            final(self)@ == old(self)@.insert(k, e),
            final(self).entries_seq() == old(self).entries_seq().push((k, e)),
    {
        self.entries.push((k, e));
        self.index.insert(k, e);
        proof {
            assert(self@.dom() =~= old(self)@.dom().insert(k));
            assert forall|kk: u64| self@.contains_key(kk) implies exists|i: int|
                0 <= i < self.entries@.len() && self.entries@[i].0 == kk by {
                if kk == k {
                    assert(self.entries@[self.entries@.len() - 1].0 == kk);
                } else {
                    let i = choose|i: int|
                        0 <= i < old(self).entries@.len() && old(self).entries@[i].0 == kk;
                    assert(self.entries@[i].0 == kk);
                }
            }
        }
    }

    /// The entries in insertion order, for persistence and inspection.
    pub fn entries(&self) -> (r: &Vec<(u64, Evaluation)>)
        ensures
            r@ == self.entries_seq(),
    {
        &self.entries
    }
}

impl Clone for EvalMap {
    fn clone(&self) -> (r: Self)
        ensures
            r@ == self@,
            r.entries_seq() == self.entries_seq(),
            self.wf() ==> r.wf(),
    {
        let mut entries: Vec<(u64, Evaluation)> = Vec::new();
        let mut i: usize = 0;
        while i < self.entries.len()
            invariant
                i <= self.entries@.len(),
                entries@ == self.entries@.take(i as int),
            decreases self.entries@.len() - i,
        {
            entries.push(self.entries[i]);
            proof {
                assert(entries@ =~= self.entries@.take(i as int + 1));
            }
            i += 1;
        }
        proof {
            assert(entries@ =~= self.entries@);
        }
        EvalMap { entries, index: self.index.clone() }
    }
}

/// One ply more, saturating at the top of the range.
fn bump(d: isize) -> (r: isize)
    ensures
        r == ply_after(d),
        d >= 0 ==> r >= 1,
{
    if d == isize::MAX {
        d
    } else {
        d + 1
    }
}

/// At loop exit the tracked witnesses and brackets, together with the
/// final insertion of the position's own (in-path) key, yield the local
/// minimax equation over the produced map.
#[verifier::rlimit(100)]
#[verifier::spinoff_prover]
proof fn lemma_expansion_holds(
    gs: GameState,
    path: Set<u64>,
    moves: Seq<Move>,
    m_loop: Map<u64, Evaluation>,
    m_fin: Map<u64, Evaluation>,
    e: Evaluation,
    mode: SearchMode,
    i: int,
    no_children: bool,
    best: int,
    best_mv: Move,
    win_min_mv: Move,
    win_max_mv: Move,
    loss_min_mv: Move,
    loss_max_mv: Move,
    saw_win: bool,
    saw_loss: bool,
    p1win_min: isize,
    p1win_max: isize,
    p1loss_min: isize,
    p1loss_max: isize,
)
    requires
        gs.mover_id() == 0 || gs.mover_id() == 1,
        forall|mv: Move| moves.contains(mv) <==> gs.is_legal(mv),
        0 <= i <= moves.len(),
        eval_map_wf(m_loop),
        path.contains(gs.zobrist_hash),
        m_fin == m_loop.insert(gs.zobrist_hash, e),
        no_children ==> i == moves.len(),
        mode != SearchMode::Pruned ==> i == moves.len(),
        i == moves.len() || (gs.mover_id() == 0 && best == 1) || (gs.mover_id() == 1 && best
            == -1),
        no_children ==> forall|j: int|
            0 <= j < i ==> path.contains(#[trigger] child_fingerprint(gs, moves[j])),
        forall|j: int|
            0 <= j < i ==> path.contains(#[trigger] child_fingerprint(gs, moves[j]))
                || m_loop.contains_key(child_fingerprint(gs, moves[j])),
        forall|j: int|
            (0 <= j < i && !path.contains(#[trigger] child_fingerprint(gs, moves[j]))
                && m_loop.contains_key(child_fingerprint(gs, moves[j]))) ==> (if gs.mover_id()
                == 0 {
                best >= m_loop[child_fingerprint(gs, moves[j])].score
            } else {
                best <= m_loop[child_fingerprint(gs, moves[j])].score
            }),
        forall|j: int|
            (0 <= j < i && !path.contains(#[trigger] child_fingerprint(gs, moves[j]))
                && m_loop.contains_key(child_fingerprint(gs, moves[j]))) ==> {
                let d = m_loop[child_fingerprint(gs, moves[j])];
                &&& (d.score == 1 ==> p1win_min <= d.moves_to_wl && p1win_max >= d.moves_to_wl)
                &&& (d.score == -1 ==> p1loss_min <= d.moves_to_wl && p1loss_max
                    >= d.moves_to_wl)
            },
        !no_children ==> scored_child(gs, path, m_loop, best_mv, best),
        !no_children && best == 1 ==> saw_win,
        !no_children && best == -1 ==> saw_loss,
        saw_win ==> child_witness(gs, path, m_loop, win_min_mv, 1, p1win_min as int),
        saw_win ==> child_witness(gs, path, m_loop, win_max_mv, 1, p1win_max as int),
        saw_loss ==> child_witness(gs, path, m_loop, loss_min_mv, -1, p1loss_min as int),
        saw_loss ==> child_witness(gs, path, m_loop, loss_max_mv, -1, p1loss_max as int),
        e.score == (if no_children {
            0int
        } else {
            best
        }),
        e.moves_to_wl == (if e.score == 1 && gs.mover_id() == 0 {
            ply_after(p1win_min)
        } else if e.score == 1 {
            ply_after(p1win_max)
        } else if e.score == -1 && gs.mover_id() == 0 {
            ply_after(p1loss_max)
        } else if e.score == -1 {
            ply_after(p1loss_min)
        } else {
            0isize
        }),
    ensures
        expansion_spec(gs, path, m_fin, e, mode),
{
    let h = gs.zobrist_hash;
    // draw by repetition when every child is on the path
    assert(((forall|mv: Move|
        gs.is_legal(mv) ==> path.contains(#[trigger] child_fingerprint(gs, mv))) ==> e == (
    Evaluation { score: 0isize, moves_to_wl: 0isize }))) by {
        if forall|mv: Move| gs.is_legal(mv) ==> path.contains(#[trigger] child_fingerprint(gs, mv)) {
            if !no_children {
                assert(path.contains(child_fingerprint(gs, best_mv)));
                assert(false);
            }
        }
    }
    // nothing was cut whenever the loop ran to completion
    if i == moves.len() {
        assert forall|mv: Move| gs.is_legal(mv) implies path.contains(
            #[trigger] child_fingerprint(gs, mv),
        ) || m_fin.contains_key(child_fingerprint(gs, mv)) by {
            assert(moves.contains(mv));
            let j = choose|j: int| 0 <= j < moves.len() && moves[j] == mv;
            assert(path.contains(child_fingerprint(gs, moves[j])) || m_loop.contains_key(
                child_fingerprint(gs, moves[j]),
            ));
        }
    } else {
        // the loop broke early: only under Pruned with an extremal best,
        // which no draw overwrite can follow
        assert(!no_children && e.score == best);
    }
    // dominance over every recorded non-skipped child
    assert forall|mv: Move|
        (gs.is_legal(mv) && !path.contains(#[trigger] child_fingerprint(gs, mv))
            && m_fin.contains_key(child_fingerprint(gs, mv))) implies (if gs.mover_id() == 0 {
        e.score >= m_fin[child_fingerprint(gs, mv)].score
    } else {
        e.score <= m_fin[child_fingerprint(gs, mv)].score
    }) by {
        let cf = child_fingerprint(gs, mv);
        assert(cf != h);
        assert(m_loop.contains_key(cf) && m_fin[cf] == m_loop[cf]);
        assert(moves.contains(mv));
        let j = choose|j: int| 0 <= j < moves.len() && moves[j] == mv;
        assert(!no_children) by {
            if no_children {
                assert(path.contains(child_fingerprint(gs, moves[j])));
            }
        }
        assert(e.score == best);
        if j < i {
            assert(if gs.mover_id() == 0 {
                best >= m_loop[child_fingerprint(gs, moves[j])].score
            } else {
                best <= m_loop[child_fingerprint(gs, moves[j])].score
            });
        } else {
            assert((gs.mover_id() == 0 && best == 1) || (gs.mover_id() == 1 && best == -1));
            assert(eval_wf(m_loop[cf]));
        }
    }
    // some recorded child attains the value, one ply closer
    assert(((exists|mv: Move|
        gs.is_legal(mv) && !path.contains(#[trigger] child_fingerprint(gs, mv))) ==> exists|
        mv: Move|
        gs.is_legal(mv) && !path.contains(#[trigger] child_fingerprint(gs, mv))
            && m_fin.contains_key(child_fingerprint(gs, mv)) && m_fin[child_fingerprint(
            gs,
            mv,
        )].score == e.score && (e.score != 0 ==> e.moves_to_wl == ply_after(
            m_fin[child_fingerprint(gs, mv)].moves_to_wl,
        )))) by {
        if exists|mv: Move| gs.is_legal(mv) && !path.contains(
            #[trigger] child_fingerprint(gs, mv),
        ) {
            let mv0 = choose|mv: Move|
                gs.is_legal(mv) && !path.contains(#[trigger] child_fingerprint(gs, mv));
            assert(!no_children) by {
                if no_children {
                    assert(moves.contains(mv0));
                    let j = choose|j: int| 0 <= j < moves.len() && moves[j] == mv0;
                    assert(path.contains(child_fingerprint(gs, moves[j])));
                }
            }
            assert(e.score == best);
            let w: Move = if e.score == 1 && gs.mover_id() == 0 {
                win_min_mv
            } else if e.score == 1 {
                win_max_mv
            } else if e.score == -1 && gs.mover_id() == 0 {
                loss_max_mv
            } else if e.score == -1 {
                loss_min_mv
            } else {
                best_mv
            };
            assert(child_fingerprint(gs, w) != h);
            assert(gs.is_legal(w) && !path.contains(child_fingerprint(gs, w))
                && m_fin.contains_key(child_fingerprint(gs, w)) && m_fin[child_fingerprint(
                gs,
                w,
            )].score == e.score && (e.score != 0 ==> e.moves_to_wl == ply_after(
                m_fin[child_fingerprint(gs, w)].moves_to_wl,
            )));
        }
    }
    // distance extremality over the children sharing the outcome
    if mode != SearchMode::Pruned {
        assert forall|mv: Move|
            (gs.is_legal(mv) && !path.contains(#[trigger] child_fingerprint(gs, mv))
                && m_fin.contains_key(child_fingerprint(gs, mv)) && m_fin[child_fingerprint(
                gs,
                mv,
            )].score == e.score && e.score != 0) implies (if (e.score == 1) == (gs.mover_id()
            == 0) {
            e.moves_to_wl <= ply_after(m_fin[child_fingerprint(gs, mv)].moves_to_wl)
        } else {
            e.moves_to_wl >= ply_after(m_fin[child_fingerprint(gs, mv)].moves_to_wl)
        }) by {
            let cf = child_fingerprint(gs, mv);
            assert(cf != h);
            assert(m_loop.contains_key(cf) && m_fin[cf] == m_loop[cf]);
            assert(moves.contains(mv));
            let j = choose|j: int| 0 <= j < moves.len() && moves[j] == mv;
            assert(!no_children) by {
                if no_children {
                    assert(path.contains(child_fingerprint(gs, moves[j])));
                }
            }
            assert(e.score == best);
            assert(j < i);
            let d = m_loop[child_fingerprint(gs, moves[j])];
            assert(d.score == 1 ==> p1win_min <= d.moves_to_wl && p1win_max >= d.moves_to_wl);
            assert(d.score == -1 ==> p1loss_min <= d.moves_to_wl && p1loss_max
                >= d.moves_to_wl);
        }
    }
}

/// Ties the canonicalized start state a solve actually runs on to the
/// original argument, field by field, and states what the solve
/// guarantees of that state's entry in the produced map: the one-ply
/// value at an immediate win outside `Full`, and otherwise the local
/// minimax equation of [`expansion_spec`], with the start as the only
/// in-path position. (The terminal case is stated by [`evaluate`]
/// directly.)
pub open spec fn solved_root(
    gs: GameState,
    ns: GameState,
    mode: SearchMode,
    m: Map<u64, Evaluation>,
) -> bool {
    &&& ns.wf()
    &&& ns.cage@ == canon(gs.cage@)
    &&& ns.players == gs.players
    &&& ns.remaining_cubies == gs.remaining_cubies
    &&& ns.player_to_move == gs.player_to_move
    &&& ns.zobrist_hash == fingerprint(canon(gs.cage@), gs.mover_id())
    &&& ns.last_move == (if canon_reflected(gs.cage@) {
        match gs.last_move {
            Some(lm) => Some(crate::game::mirrored_move(lm)),
            None => None,
        }
    } else {
        gs.last_move
    })
    &&& m.contains_key(ns.zobrist_hash)
    &&& ((ns.spec_winner() is None && mode != SearchMode::Full && has_immediate_win(ns))
        ==> m[ns.zobrist_hash] == (Evaluation {
        score: if ns.mover_id() == 0 {
            1isize
        } else {
            -1isize
        },
        moves_to_wl: 1isize,
    }))
    &&& ((ns.spec_winner() is None && (mode == SearchMode::Full || !has_immediate_win(ns)))
        ==> expansion_spec(
        ns,
        Set::<u64>::empty().insert(ns.zobrist_hash),
        m,
        m[ns.zobrist_hash],
        mode,
    ))
}

/// Evaluate every position reachable from `game_state` under the given
/// policy: canonicalize the start and run the memoized minimax. The result
/// maps each solved canonical fingerprint to its value; it always contains
/// the canonicalized start, whose entry is the terminal value when the
/// canonicalized start is already won and otherwise satisfies
/// [`solved_root`]: the one-ply value at an immediate win outside `Full`,
/// else the local minimax equation over its recorded children.
pub fn evaluate(game_state: &GameState, mode: SearchMode) -> (r: EvalMap)
    requires
        game_state.wf(),
    ensures
        r.wf(),
        eval_map_wf(r@),
        r@.contains_key(fingerprint(canon(game_state.cage@), game_state.mover_id())),
        match winner_of(
            canon(game_state.cage@),
            game_state.players@[0],
            game_state.players@[1],
        ) {
            Some((p, k)) => r@[fingerprint(canon(game_state.cage@), game_state.mover_id())]
                == (Evaluation {
                score: if p.id == 0 {
                    1isize
                } else {
                    -1isize
                },
                moves_to_wl: 0isize,
            }),
            None => true,
        },
        exists|ns: GameState| solved_root(*game_state, ns, mode, r@),
        forall|k: u64| #![trigger r@.contains_key(k)]
            r@.contains_key(k) ==> entry_certified(k, r@[k], r@, mode),
{
    let mut visited: HashSet<u64> = HashSet::new();
    let mut evaluated = EvalMap::new();
    let mut start = game_state.clone();
    start.normalize();
    minimax(&start, &mut visited, &mut evaluated, &mode);
    proof {
        assert(solved_root(*game_state, start, mode, evaluated@));
    }
    evaluated
}

/// Solve one position: return a memoized value if it is finalized, report
/// terminal positions at distance 0, shortcut one-ply wins outside the
/// exhaustive policy, and otherwise expand the legal moves with the
/// in-path cycle guard, aggregate with minimax (player 0 maximizes) and
/// record the finalized value. The contract pins each of those cases: a
/// memoized return leaves everything untouched, a terminal position gets
/// the winner's sign at distance 0, a one-ply win outside `Full` gets it
/// at distance 1, and an expanded position satisfies the local minimax
/// equation of [`expansion_spec`] over the children it recorded. The
/// in-path set is restored on return and finalized entries are never
/// overwritten.
pub fn minimax(
    game_state: &GameState,
    visited: &mut HashSet<u64>,
    evaluated: &mut EvalMap,
    mode: &SearchMode,
) -> (r: Evaluation)
    requires
        game_state.wf(),
        old(visited)@.finite(),
        !old(visited)@.contains(game_state.zobrist_hash),
        old(evaluated).wf(),
        eval_map_wf(old(evaluated)@),
    ensures
        final(visited)@ == old(visited)@,
        final(evaluated).wf(),
        eval_map_wf(final(evaluated)@),
        forall|k: u64|
            #![trigger old(evaluated)@.contains_key(k)]
            #![trigger final(evaluated)@.contains_key(k)]
            old(evaluated)@.contains_key(k) ==> final(evaluated)@.contains_key(k)
                && final(evaluated)@[k] == old(evaluated)@[k],
        forall|k: u64| #![trigger final(evaluated)@.contains_key(k)]
            final(evaluated)@.contains_key(k) && !old(evaluated)@.contains_key(k)
                ==> !old(visited)@.contains(k),
        final(evaluated)@.contains_key(game_state.zobrist_hash),
        r == final(evaluated)@[game_state.zobrist_hash],
        eval_wf(r),
        old(evaluated)@.contains_key(game_state.zobrist_hash)
            ==> r == old(evaluated)@[game_state.zobrist_hash] && *final(evaluated) == *old(
            evaluated,
        ),
        match game_state.spec_winner() {
            Some((p, k)) => !old(evaluated)@.contains_key(game_state.zobrist_hash) ==> r
                == (Evaluation {
                score: if p.id == 0 {
                    1isize
                } else {
                    -1isize
                },
                moves_to_wl: 0isize,
            }),
            None => true,
        },
        (!old(evaluated)@.contains_key(game_state.zobrist_hash)
            && game_state.spec_winner() is None && *mode != SearchMode::Full
            && has_immediate_win(*game_state)) ==> r == (Evaluation {
            score: if game_state.mover_id() == 0 {
                1isize
            } else {
                -1isize
            },
            moves_to_wl: 1isize,
        }),
        (!old(evaluated)@.contains_key(game_state.zobrist_hash) && (game_state.spec_winner()
            is Some || (*mode != SearchMode::Full && has_immediate_win(*game_state))))
            ==> final(evaluated)@ == old(evaluated)@.insert(game_state.zobrist_hash, r),
        forall|k: u64| #![trigger final(evaluated)@.contains_key(k)]
            final(evaluated)@.contains_key(k) && !old(evaluated)@.contains_key(k)
                ==> entry_certified(k, final(evaluated)@[k], final(evaluated)@, *mode),
        (!old(evaluated)@.contains_key(game_state.zobrist_hash)
            && game_state.spec_winner() is None && (*mode == SearchMode::Full
            || !has_immediate_win(*game_state))) ==> expansion_spec(
            *game_state,
            old(visited)@.insert(game_state.zobrist_hash),
            final(evaluated)@,
            r,
            *mode,
        ),
    decreases
            usize::MAX - old(evaluated).index_len(),
            usize::MAX - vstd::std_specs::hash::spec_hash_set_len(&old(visited)),
{
    let h = game_state.zobrist_hash;
    match evaluated.get(h) {
        Some(e) => {
            return e;
        },
        None => {},
    }
    visited.insert(h);
    let mover_id = game_state.player_to_move.id;

    match game_state.won() {
        Some((winner, _)) => {
            let score: isize = if winner.id == 0 {
                1
            } else {
                -1
            };
            visited.remove(&h);
            proof {
                assert(visited@ =~= old(visited)@);
            }
            let e = Evaluation { score, moves_to_wl: 0 };
            evaluated.insert(h, e);
            proof {
                assert(certifies(
                    *game_state,
                    old(visited)@.insert(h),
                    h,
                    e,
                    evaluated@,
                    *mode,
                ));
            }
            return e;
        },
        None => {},
    }

    let moves = game_state.legal_moves();

    // Outside the exhaustive policy, an immediate win ends the position at
    // distance 1 before any sibling is explored.
    if !matches!(mode, SearchMode::Full) {
        let mut i: usize = 0;
        while i < moves.len()
            invariant
                game_state.wf(),
                mover_id == game_state.mover_id(),
                forall|m: Move| moves@.contains(m) <==> game_state.is_legal(m),
                old(visited)@.finite(),
                !old(visited)@.contains(h),
                h == game_state.zobrist_hash,
                visited@ == old(visited)@.insert(h),
                *evaluated == *old(evaluated),
                old(evaluated).wf(),
                eval_map_wf(old(evaluated)@),
                !old(evaluated)@.contains_key(h),
                game_state.spec_winner() is None,
                *mode != SearchMode::Full,
                forall|j: int| 0 <= j < i ==> !wins_immediately(*game_state, #[trigger] moves@[j]),
            decreases moves@.len() - i,
        {
            let m = moves[i];
            proof {
                assert(moves@.contains(moves@[i as int]));
            }
            let mut child = game_state.clone();
            proof {
                assert(game_state.is_legal(m));
                assert(child.remaining_cubies@ == game_state.remaining_cubies@);
                assert(child.cage@ == game_state.cage@);
                assert(child.player_to_move == game_state.player_to_move);
            }
            let res = child.apply_move_normalize(m);
            proof {
                assert(res is Ok);
            }
            match child.won() {
                Some((winner, _)) => {
                    if winner.id == mover_id {
                        proof {
                            assert(wins_immediately(*game_state, m));
                            assert(has_immediate_win(*game_state));
                        }
                        let score: isize = if mover_id == 0 {
                            1
                        } else {
                            -1
                        };
                        visited.remove(&h);
                        proof {
                            assert(visited@ =~= old(visited)@);
                        }
                        let e = Evaluation { score, moves_to_wl: 1 };
                        evaluated.insert(h, e);
                        proof {
                            assert(certifies(
                                *game_state,
                                old(visited)@.insert(h),
                                h,
                                e,
                                evaluated@,
                                *mode,
                            ));
                        }
                        return e;
                    }
                    proof {
                        assert(!wins_immediately(*game_state, m));
                    }
                },
                None => {
                    proof {
                        assert(!wins_immediately(*game_state, m));
                    }
                },
            }
            i += 1;
        }
        proof {
            assert(!has_immediate_win(*game_state)) by {
                if has_immediate_win(*game_state) {
                    let m = choose|m: Move|
                        game_state.is_legal(m) && #[trigger] wins_immediately(*game_state, m);
                    assert(moves@.contains(m));
                    let j = choose|j: int| 0 <= j < moves@.len() && moves@[j] == m;
                    assert(!wins_immediately(*game_state, moves@[j]));
                }
            }
        }
    }

    let mut best: isize = if mover_id == 0 {
        -1
    } else {
        1
    };
    let mut p1win_max: isize = 0;
    let mut p1win_min: isize = isize::MAX;
    let mut p1loss_max: isize = 0;
    let mut p1loss_min: isize = isize::MAX;
    let mut no_children = true;

    let ghost path = old(visited)@.insert(h);
    let ghost mut best_mv: Move = Move::Flip;
    let ghost mut win_min_mv: Move = Move::Flip;
    let ghost mut win_max_mv: Move = Move::Flip;
    let ghost mut loss_min_mv: Move = Move::Flip;
    let ghost mut loss_max_mv: Move = Move::Flip;
    let ghost mut saw_win: bool = false;
    let ghost mut saw_loss: bool = false;

    let mut i: usize = 0;
    while i < moves.len()
        invariant
            game_state.wf(),
            mover_id == game_state.mover_id(),
            mover_id == 0 || mover_id == 1,
            forall|m: Move| moves@.contains(m) <==> game_state.is_legal(m),
            old(visited)@.finite(),
            !old(visited)@.contains(h),
            h == game_state.zobrist_hash,
            path == old(visited)@.insert(h),
            visited@ == path,
            i <= moves@.len(),
            evaluated.wf(),
            eval_map_wf(evaluated@),
            forall|k: u64|
                #![trigger old(evaluated)@.contains_key(k)]
                #![trigger evaluated@.contains_key(k)]
                old(evaluated)@.contains_key(k) ==> evaluated@.contains_key(k) && evaluated@[k]
                    == old(evaluated)@[k],
            forall|k: u64| #![trigger evaluated@.contains_key(k)]
                evaluated@.contains_key(k) && !old(evaluated)@.contains_key(k) ==> !path.contains(
                    k,
                ),
            forall|k: u64| #![trigger evaluated@.contains_key(k)]
                evaluated@.contains_key(k) && !old(evaluated)@.contains_key(k)
                    ==> entry_certified(k, evaluated@[k], evaluated@, *mode),
            !evaluated@.contains_key(h),
            best == -1 || best == 0 || best == 1,
            no_children ==> best == (if mover_id == 0 {
                -1int
            } else {
                1int
            }),
            no_children ==> !saw_win && !saw_loss,
            no_children ==> forall|j: int|
                0 <= j < i ==> path.contains(#[trigger] child_fingerprint(*game_state, moves@[j])),
            forall|j: int|
                0 <= j < i ==> path.contains(#[trigger] child_fingerprint(*game_state, moves@[j]))
                    || evaluated@.contains_key(child_fingerprint(*game_state, moves@[j])),
            forall|j: int|
                (0 <= j < i && !path.contains(#[trigger] child_fingerprint(*game_state, moves@[j]))
                    && evaluated@.contains_key(child_fingerprint(*game_state, moves@[j]))) ==> (
                if mover_id == 0 {
                    best >= evaluated@[child_fingerprint(*game_state, moves@[j])].score
                } else {
                    best <= evaluated@[child_fingerprint(*game_state, moves@[j])].score
                }),
            forall|j: int|
                (0 <= j < i && !path.contains(#[trigger] child_fingerprint(*game_state, moves@[j]))
                    && evaluated@.contains_key(child_fingerprint(*game_state, moves@[j]))) ==> {
                    let d = evaluated@[child_fingerprint(*game_state, moves@[j])];
                    &&& (d.score == 1 ==> p1win_min <= d.moves_to_wl && p1win_max
                        >= d.moves_to_wl)
                    &&& (d.score == -1 ==> p1loss_min <= d.moves_to_wl && p1loss_max
                        >= d.moves_to_wl)
                },
            !no_children ==> scored_child(*game_state, path, evaluated@, best_mv, best as int),
            !no_children && best == 1 ==> saw_win,
            !no_children && best == -1 ==> saw_loss,
            saw_win ==> child_witness(
                *game_state,
                path,
                evaluated@,
                win_min_mv,
                1,
                p1win_min as int,
            ),
            saw_win ==> child_witness(
                *game_state,
                path,
                evaluated@,
                win_max_mv,
                1,
                p1win_max as int,
            ),
            !saw_win ==> p1win_min == isize::MAX && p1win_max == 0,
            saw_loss ==> child_witness(
                *game_state,
                path,
                evaluated@,
                loss_min_mv,
                -1,
                p1loss_min as int,
            ),
            saw_loss ==> child_witness(
                *game_state,
                path,
                evaluated@,
                loss_max_mv,
                -1,
                p1loss_max as int,
            ),
            !saw_loss ==> p1loss_min == isize::MAX && p1loss_max == 0,
            p1win_max >= 0,
            p1win_min >= 0,
            p1loss_max >= 0,
            p1loss_min >= 0,
        ensures
            no_children ==> i == moves@.len(),
            *mode != SearchMode::Pruned ==> i == moves@.len(),
            i == moves@.len() || (mover_id == 0 && best == 1) || (mover_id == 1 && best == -1),
        decreases moves@.len() - i,
    {
        let m = moves[i];
        proof {
            assert(moves@.contains(moves@[i as int]));
        }
        let mut child = game_state.clone();
        proof {
            assert(game_state.is_legal(m));
            assert(child.remaining_cubies@ == game_state.remaining_cubies@);
            assert(child.cage@ == game_state.cage@);
            assert(child.player_to_move == game_state.player_to_move);
        }
        let res = child.apply_move_normalize(m);
        proof {
            assert(res is Ok);
        }
        let ch = child.zobrist_hash;
        proof {
            assert(ch == child_fingerprint(*game_state, m));
        }
        if visited.contains(&ch) {
            i += 1;
            continue ;
        }
        let ghost had_children = !no_children;
        no_children = false;
        proof {
            assert forall|k: u64| old(evaluated)@.dom().contains(k) implies evaluated@.dom()
                .contains(k) by {
                assert(old(evaluated)@.contains_key(k));
                assert(evaluated@.contains_key(k));
            }
            vstd::set_lib::lemma_len_subset(old(evaluated)@.dom(), evaluated@.dom());
        }
        let ghost pre_eval = evaluated@;
        let ev = minimax(&child, visited, evaluated, mode);
        proof {
            assert forall|k: u64| #![trigger evaluated@.contains_key(k)]
                evaluated@.contains_key(k) && !old(evaluated)@.contains_key(k) implies !path
                .contains(k) by {
                if pre_eval.contains_key(k) {
                } else {
                    assert(!visited@.contains(k));
                }
            }
            assert(!evaluated@.contains_key(h));
            assert(evaluated@.contains_key(ch) && evaluated@[ch] == ev);
            assert forall|k: u64| #![trigger evaluated@.contains_key(k)]
                evaluated@.contains_key(k) && !old(evaluated)@.contains_key(k)
                    implies entry_certified(k, evaluated@[k], evaluated@, *mode) by {
                if pre_eval.contains_key(k) {
                    lemma_certified_stable(k, pre_eval[k], pre_eval, evaluated@, *mode);
                }
            }
        }
        if ev.score == 1 {
            if ev.moves_to_wl > p1win_max {
                p1win_max = ev.moves_to_wl;
            }
            if ev.moves_to_wl < p1win_min {
                p1win_min = ev.moves_to_wl;
            }
            proof {
                if ev.moves_to_wl == p1win_min {
                    win_min_mv = m;
                }
                if ev.moves_to_wl == p1win_max {
                    win_max_mv = m;
                }
                saw_win = true;
            }
        }
        if ev.score == -1 {
            if ev.moves_to_wl > p1loss_max {
                p1loss_max = ev.moves_to_wl;
            }
            if ev.moves_to_wl < p1loss_min {
                p1loss_min = ev.moves_to_wl;
            }
            proof {
                if ev.moves_to_wl == p1loss_min {
                    loss_min_mv = m;
                }
                if ev.moves_to_wl == p1loss_max {
                    loss_max_mv = m;
                }
                saw_loss = true;
            }
        }
        if mover_id == 0 {
            if ev.score > best {
                best = ev.score;
            }
            proof {
                if ev.score == best {
                    best_mv = m;
                } else {
                    assert(had_children);
                }
            }
            if best == 1 && matches!(mode, SearchMode::Pruned) {
                i += 1;
                break ;
            }
        } else {
            if ev.score < best {
                best = ev.score;
            }
            proof {
                if ev.score == best {
                    best_mv = m;
                } else {
                    assert(had_children);
                }
            }
            if best == -1 && matches!(mode, SearchMode::Pruned) {
                i += 1;
                break ;
            }
        }
        i += 1;
    }

    let ghost best_pre = best as int;
    // Every move led back into the current path: a draw by repetition.
    if no_children {
        best = 0;
    }

    let moves_to_wl: isize = if best == 1 && mover_id == 0 {
        // The winner to move forces the fastest win.
        bump(p1win_min)
    } else if best == 1 {
        // The loser to move holds out as long as possible.
        bump(p1win_max)
    } else if best == -1 && mover_id == 0 {
        bump(p1loss_max)
    } else if best == -1 {
        bump(p1loss_min)
    } else {
        0
    };

    let e = Evaluation { score: best, moves_to_wl };
    visited.remove(&h);
    proof {
        assert(visited@ =~= old(visited)@);
    }
    let ghost m_loop = evaluated@;
    evaluated.insert(h, e);
    proof {
        lemma_expansion_holds(
            *game_state,
            path,
            moves@,
            m_loop,
            evaluated@,
            e,
            *mode,
            i as int,
            no_children,
            best_pre,
            best_mv,
            win_min_mv,
            win_max_mv,
            loss_min_mv,
            loss_max_mv,
            saw_win,
            saw_loss,
            p1win_min,
            p1win_max,
            p1loss_min,
            p1loss_max,
        );
        assert forall|kk: u64| #[trigger] m_loop.contains_key(kk) implies evaluated@.contains_key(
            kk,
        ) && evaluated@[kk] == m_loop[kk] by {}
        assert forall|k: u64| #![trigger evaluated@.contains_key(k)]
            evaluated@.contains_key(k) && !old(evaluated)@.contains_key(k)
                implies entry_certified(k, evaluated@[k], evaluated@, *mode) by {
            if k == h {
                assert(certifies(*game_state, path, h, e, evaluated@, *mode));
            } else {
                lemma_certified_stable(k, m_loop[k], m_loop, evaluated@, *mode);
            }
        }
    }
    e
}

/// Decode failure: the byte buffer is missing data or is corrupt.
#[derive(Clone, Copy, Debug, Eq, Hash, PartialEq, Structural)]
pub enum StoreError {
    Malformed,
}

/// Byte budget the decoder may claim for one buffer. A corrupt buffer can
/// announce an absurd element count; the limit turns that into a decode
/// error before any allocation is attempted.
pub const DECODE_BYTE_LIMIT: usize = 1 << 30;

/// Entry count whose decoding provably stays within the byte budget: the
/// decoder charges 24 bytes per announced entry plus a short length
/// prefix, so buffers for maps up to this size always decode.
pub const DECODE_SAFE_ENTRIES: usize = 1 << 24;

/// Declares bincode's decode error type so a wrapper can return it.
#[verifier::external_type_specification]
#[verifier::external_body]
pub struct ExDecodeError(bincode::error::DecodeError);

/// The bytes the standard bincode configuration writes for a vector of
/// integer triples: a function of the values alone, named rather than
/// spelled out.
pub uninterp spec fn coded_bytes(s: Seq<(u64, isize, isize)>) -> Seq<u8>;

/// Relies on `bincode::encode_to_vec` with the standard configuration:
/// for a vector of integer triples it writes varints into a growable
/// buffer, no code path returns an error, and the bytes depend on the
/// values alone. Each element takes at least one byte on the wire, so the
/// buffer is at least as long as the vector.
#[verifier::external_body]
fn bincode_encode_entries(v: &Vec<(u64, isize, isize)>) -> (r: Vec<u8>)
    ensures
        r@ == coded_bytes(v@),
        r@.len() >= v@.len(),
{
    match bincode::encode_to_vec(v, bincode::config::standard()) {
        Ok(bytes) => bytes,
        Err(_) => Vec::new(),
    }
}

/// Relies on `bincode::decode_from_slice` with the standard configuration
/// under the byte limit: decoding inverts encoding, so on success a buffer
/// that `encode_to_vec` produced decodes back to exactly the encoded
/// vector, and a failure means the buffer encodes no vector small enough
/// for the limit — the decoder charges 24 bytes per announced element
/// before each integer is read, so [`DECODE_SAFE_ENTRIES`] elements stay
/// within [`DECODE_BYTE_LIMIT`]. The limit check runs before the decoder
/// reserves space, so an absurd announced count is an error, not an
/// oversized allocation.
#[verifier::external_body]
fn bincode_decode_entries(bytes: &[u8]) -> (r: Result<
    Vec<(u64, isize, isize)>,
    bincode::error::DecodeError,
>)
    ensures
        match r {
            Ok(v) => forall|s: Seq<(u64, isize, isize)>| #![trigger coded_bytes(s)]
                bytes@ == coded_bytes(s) ==> v@ == s,
            Err(_) => forall|s: Seq<(u64, isize, isize)>| #![trigger coded_bytes(s)]
                s.len() <= DECODE_SAFE_ENTRIES ==> bytes@ != coded_bytes(s),
        },
{
    let config = bincode::config::standard().with_limit::<DECODE_BYTE_LIMIT>();
    match bincode::decode_from_slice(bytes, config) {
        Ok((v, _)) => Ok(v),
        Err(e) => Err(e),
    }
}

/// Map entries flattened to plain integer triples.
pub open spec fn flat_entries(entries: Seq<(u64, Evaluation)>) -> Seq<(u64, isize, isize)> {
    entries.map_values(|e: (u64, Evaluation)| (e.0, e.1.score, e.1.moves_to_wl))
}

/// Integer triples read back as map entries.
pub open spec fn unflat_entries(s: Seq<(u64, isize, isize)>) -> Seq<(u64, Evaluation)> {
    s.map_values(|t: (u64, isize, isize)| (t.0, Evaluation { score: t.1, moves_to_wl: t.2 }))
}

/// No two triples share a fingerprint.
pub open spec fn triples_distinct(s: Seq<(u64, isize, isize)>) -> bool {
    forall|i: int, j: int| 0 <= i < j < s.len() ==> s[i].0 != s[j].0
}

/// Serialize a map. The byte layout is implementation-defined; only
/// round-trip fidelity is contractual, which [`decode`] states against
/// these same bytes.
pub fn encode(map: &EvalMap) -> (r: Vec<u8>)
    requires
        map.wf(),
    ensures
        r@ == coded_bytes(flat_entries(map.entries_seq())),
{
    let es = map.entries();
    let mut flat: Vec<(u64, isize, isize)> = Vec::new();
    let mut i: usize = 0;
    while i < es.len()
        invariant
            es@ == map.entries_seq(),
            i <= es@.len(),
            flat@ == flat_entries(es@.take(i as int)),
        decreases es@.len() - i,
    {
        let e = es[i];
        flat.push((e.0, e.1.score, e.1.moves_to_wl));
        proof {
            assert(es@.take(i as int + 1).drop_last() =~= es@.take(i as int));
            assert(flat@ =~= flat_entries(es@.take(i as int + 1)));
        }
        i += 1;
    }
    proof {
        assert(es@.take(es@.len() as int) =~= es@);
    }
    bincode_encode_entries(&flat)
}

/// Deserialize a map. Any buffer produced by [`encode`] for a map of up
/// to [`DECODE_SAFE_ENTRIES`] entries decodes back to exactly the encoded
/// map's entries. A missing or corrupt buffer is rejected, as is one
/// holding two entries for the same fingerprint — [`encode`] never writes
/// such a buffer, since a map's fingerprints are distinct.
pub fn decode(bytes: &[u8]) -> (r: Result<EvalMap, StoreError>)
    ensures
        forall|s: Seq<(u64, isize, isize)>| #![trigger coded_bytes(s)]
            bytes@ == coded_bytes(s) && triples_distinct(s) && s.len() <= DECODE_SAFE_ENTRIES
                ==> (r matches Ok(d) && d.entries_seq() == unflat_entries(s) && d.wf()),
        r matches Ok(d) ==> d.wf(),
{
    let triples = match bincode_decode_entries(bytes) {
        Ok(v) => v,
        Err(_) => {
            return Err(StoreError::Malformed);
        },
    };
    let mut m = EvalMap::new();
    let mut i: usize = 0;
    while i < triples.len()
        invariant
            forall|s: Seq<(u64, isize, isize)>| #![trigger coded_bytes(s)]
                bytes@ == coded_bytes(s) ==> triples@ == s,
            i <= triples@.len(),
            m.wf(),
            m.entries_seq() == unflat_entries(triples@.take(i as int)),
            forall|k: u64| #![trigger m@.contains_key(k)]
                m@.contains_key(k) <==> exists|j: int| 0 <= j < i && triples@[j].0 == k,
        decreases triples@.len() - i,
    {
        let t = triples[i];
        if m.contains_key(t.0) {
            proof {
                let j = choose|j: int| 0 <= j < i && triples@[j].0 == t.0;
                assert(!triples_distinct(triples@));
            }
            return Err(StoreError::Malformed);
        }
        m.insert(t.0, Evaluation { score: t.1, moves_to_wl: t.2 });
        proof {
            assert(triples@.take(i as int + 1).drop_last() =~= triples@.take(i as int));
            assert(m.entries_seq() =~= unflat_entries(triples@.take(i as int + 1)));
            assert forall|k: u64| #[trigger] m@.contains_key(k) implies exists|j: int|
                0 <= j < i + 1 && triples@[j].0 == k by {
                if k != t.0 {
                    let j = choose|j: int| 0 <= j < i && triples@[j].0 == k;
                    assert(triples@[j].0 == k);
                } else {
                    assert(triples@[i as int].0 == k);
                }
            }
        }
        i += 1;
    }
    proof {
        assert(triples@.take(triples@.len() as int) =~= triples@);
    }
    Ok(m)
}

/// Keep only the entries whose distance is at least the threshold: the
/// result is the submap of `map` holding exactly the keys whose value
/// meets the bound, in the original entry order. This curates a small set
/// of hardest positions; positions below the threshold are cheap enough
/// to resolve on demand.
pub fn filter(map: &EvalMap, min_moves_to_wl: isize) -> (r: EvalMap)
    requires
        map.wf(),
    ensures
        r.wf(),
        r.entries_seq() == map.entries_seq().filter(
            |e: (u64, Evaluation)| e.1.moves_to_wl >= min_moves_to_wl,
        ),
        forall|k: u64| #![trigger r@.contains_key(k)]
            r@.contains_key(k) <==> map@.contains_key(k) && map@[k].moves_to_wl
                >= min_moves_to_wl,
        forall|k: u64| r@.contains_key(k) ==> r@[k] == map@[k],
{
    let pred = |e: (u64, Evaluation)| e.1.moves_to_wl >= min_moves_to_wl;
    let es = map.entries();
    let mut r = EvalMap::new();
    let mut i: usize = 0;
    while i < es.len()
        invariant
            map.wf(),
            es@ == map.entries_seq(),
            i <= es@.len(),
            r.wf(),
            r.entries_seq() == es@.take(i as int).filter(
                |e: (u64, Evaluation)| e.1.moves_to_wl >= min_moves_to_wl,
            ),
            forall|k: u64| #![trigger r@.contains_key(k)]
                r@.contains_key(k) <==> exists|j: int|
                    0 <= j < i && es@[j].0 == k && es@[j].1.moves_to_wl >= min_moves_to_wl,
            forall|k: u64| r@.contains_key(k) ==> map@.contains_key(k) && r@[k] == map@[k],
        decreases es@.len() - i,
    {
        let e = es[i];
        proof {
            reveal(Seq::filter);
            assert(es@.take(i as int + 1).drop_last() =~= es@.take(i as int));
        }
        if e.1.moves_to_wl >= min_moves_to_wl {
            proof {
                if r@.contains_key(e.0) {
                    let j = choose|j: int|
                        0 <= j < i && es@[j].0 == e.0 && es@[j].1.moves_to_wl >= min_moves_to_wl;
                    assert(false);
                }
            }
            r.insert(e.0, e.1);
            proof {
                assert(map@.contains_key(e.0) && map@[e.0] == e.1);
            }
        }
        i += 1;
        proof {
            assert forall|k: u64| #[trigger] r@.contains_key(k) implies exists|j: int|
                0 <= j < i && es@[j].0 == k && es@[j].1.moves_to_wl >= min_moves_to_wl by {
                if exists|j: int|
                    0 <= j < i - 1 && es@[j].0 == k && es@[j].1.moves_to_wl >= min_moves_to_wl {
                    let j = choose|j: int|
                        0 <= j < i - 1 && es@[j].0 == k && es@[j].1.moves_to_wl
                            >= min_moves_to_wl;
                    assert(0 <= j < i && es@[j].0 == k);
                } else {
                    assert(es@[i - 1].0 == k);
                }
            }
        }
    }
    proof {
        assert(es@.take(es@.len() as int) =~= es@);
        assert forall|k: u64| #[trigger] r@.contains_key(k) implies map@.contains_key(k)
            && map@[k].moves_to_wl >= min_moves_to_wl by {
            let j = choose|j: int|
                0 <= j < es@.len() && es@[j].0 == k && es@[j].1.moves_to_wl >= min_moves_to_wl;
            assert(map@.contains_key(es@[j].0) && map@[es@[j].0] == es@[j].1);
        }
        assert forall|k: u64| map@.contains_key(k) && map@[k].moves_to_wl >= min_moves_to_wl
            implies #[trigger] r@.contains_key(k) by {
            let j = choose|j: int| 0 <= j < es@.len() && es@[j].0 == k;
            assert(es@[j].1 == map@[k]);
        }
    }
    r
}

/// Law: decoding an encoded map yields the map back, entry for entry and
/// in the same order, for any well-formed evaluation map the decoder's
/// byte budget accommodates.
pub fn codec_round_trip(map: &EvalMap) -> (r: EvalMap)
    requires
        map.wf(),
        map.entries_seq().len() <= DECODE_SAFE_ENTRIES,
    ensures
        r@ == map@,
        r.entries_seq() == map.entries_seq(),
{
    let bytes = encode(map);
    proof {
        lemma_flat_entries_distinct(*map);
    }
    match decode(bytes.as_slice()) {
        Ok(d) => {
            proof {
                assert(unflat_entries(flat_entries(map.entries_seq())) =~= map.entries_seq());
                lemma_same_entries_same_map(d, *map);
            }
            d
        },
        Err(_) => {
            proof {
                assert(false);
            }
            EvalMap::new()
        },
    }
}

/// A well-formed map's flattened entries keep their distinct fingerprints.
proof fn lemma_flat_entries_distinct(m: EvalMap)
    requires
        m.wf(),
    ensures
        triples_distinct(flat_entries(m.entries_seq())),
{
}

/// Two well-formed maps with the same entry list hold the same entries.
proof fn lemma_same_entries_same_map(a: EvalMap, b: EvalMap)
    requires
        a.wf(),
        b.wf(),
        a.entries_seq() == b.entries_seq(),
    ensures
        a@ == b@,
{
    assert forall|k: u64| a@.contains_key(k) implies b@.contains_key(k) && b@[k] == a@[k] by {
        let i = choose|i: int| 0 <= i < a.entries_seq().len() && a.entries_seq()[i].0 == k;
        assert(b@.contains_key(b.entries_seq()[i].0) && b@[b.entries_seq()[i].0]
            == b.entries_seq()[i].1);
        assert(a@.contains_key(a.entries_seq()[i].0) && a@[a.entries_seq()[i].0]
            == a.entries_seq()[i].1);
    }
    assert forall|k: u64| b@.contains_key(k) implies a@.contains_key(k) by {
        let i = choose|i: int| 0 <= i < b.entries_seq().len() && b.entries_seq()[i].0 == k;
        assert(a@.contains_key(a.entries_seq()[i].0));
    }
    assert(a@ =~= b@);
}


} // verus!
