//! The puzzles, each a fixed grid of faces of piece labels, and the two sticker
//! movements that every turn of every puzzle is made of.
use crate::codec::{flat, grid, key_modulus, labels_fit, pack};
use crate::text::{texts, upper_of, words_of};
use vstd::arithmetic::div_mod::{lemma_mod_add_multiples_vanish, lemma_small_mod};
use vstd::prelude::*;

pub mod ivy;
pub mod megaminx;
pub mod pyraminx;
pub mod rubiks_cube;
pub mod rubiks_cube_2x2;
pub mod skewb;

verus! {

/// The faces of the cube-shaped puzzles.
pub enum Faces {
    White,
    Blue,
    Orange,
    Green,
    Red,
    Yellow,
}

impl Faces {
    /// The face's row in a state.
    pub open spec fn index(&self) -> nat {
        match self {
            Faces::White => 0,
            Faces::Blue => 1,
            Faces::Orange => 2,
            Faces::Green => 3,
            Faces::Red => 4,
            Faces::Yellow => 5,
        }
    }

    pub fn to_number(&self) -> (r: usize)
        ensures
            r == self.index(),
    {
        match self {
            Faces::White => 0,
            Faces::Blue => 1,
            Faces::Orange => 2,
            Faces::Green => 3,
            Faces::Red => 4,
            Faces::Yellow => 5,
        }
    }
}

/// `s` with the label at piece `p` of face `f` replaced by `v`.
pub open spec fn put(s: Seq<Seq<u8>>, f: int, p: int, v: u8) -> Seq<Seq<u8>> {
    s.update(f, s[f].update(p, v))
}

/// `row` turned `k` places to the right: the label at `i` moves to `i + k`, wrapping.
pub open spec fn rotated_right(row: Seq<u8>, k: int) -> Seq<u8> {
    Seq::new(row.len(), |i: int| row[(i + row.len() - k) % (row.len() as int)])
}

/// `s` with face `f` turned `k` places to the right.
pub open spec fn spun(s: Seq<Seq<u8>>, f: int, k: int) -> Seq<Seq<u8>> {
    s.update(f, rotated_right(s[f], k))
}

/// `s` after each group of slots takes the labels that the group `shift` places further
/// along `groups` held in `s`: slot `j` of group `i` (on face `groups[i].0`, piece
/// `groups[i].1[j]`) receives slot `j` of group `(i + shift) % N`.
pub open spec fn cycled<const N: usize, const K: usize>(
    s: Seq<Seq<u8>>,
    groups: [(usize, [usize; K]); N],
    shift: int,
) -> Seq<Seq<u8>> {
    groups_written(s, s, groups, shift, N as nat)
}

/// `cur` after the slots of the first `m` groups have received their labels from `src`.
pub open spec fn groups_written<const N: usize, const K: usize>(
    cur: Seq<Seq<u8>>,
    src: Seq<Seq<u8>>,
    groups: [(usize, [usize; K]); N],
    shift: int,
    m: nat,
) -> Seq<Seq<u8>>
    decreases m,
{
    if m == 0 {
        cur
    } else {
        let i = m - 1;
        slots_written(groups_written(cur, src, groups, shift, i as nat), src, groups, shift, i, K as nat)
    }
}

/// `cur` after the first `m` slots of group `i` have received their labels from `src`.
pub open spec fn slots_written<const N: usize, const K: usize>(
    cur: Seq<Seq<u8>>,
    src: Seq<Seq<u8>>,
    groups: [(usize, [usize; K]); N],
    shift: int,
    i: int,
    m: nat,
) -> Seq<Seq<u8>>
    decreases m,
{
    if m == 0 {
        cur
    } else {
        let j = m - 1;
        let from = groups[(i + shift) % (N as int)];
        put(
            slots_written(cur, src, groups, shift, i, j as nat),
            groups[i].0 as int,
            groups[i].1[j] as int,
            src[from.0 as int][from.1[j] as int],
        )
    }
}

/// Every slot of `groups` lies on a face of `F` faces of `P` pieces.
pub open spec fn groups_fit<const F: usize, const P: usize, const N: usize, const K: usize>(
    groups: [(usize, [usize; K]); N],
) -> bool {
    &&& forall|i: int| 0 <= i < N ==> (#[trigger] groups[i]).0 < F
    &&& forall|i: int, j: int| 0 <= i < N && 0 <= j < K ==> #[trigger] groups[i].1[j] < P
}

/// The solved state of `faces` faces of `pieces` pieces: every piece of face `f` is `f`.
pub open spec fn home(faces: nat, pieces: nat) -> Seq<Seq<u8>> {
    Seq::new(faces, |f: int| Seq::new(pieces, |p: int| f as u8))
}

/// Every label of `s` fits in three bits.
pub open spec fn all_fit(s: Seq<Seq<u8>>) -> bool {
    forall|f: int, p: int| 0 <= f < s.len() && 0 <= p < s[f].len() ==> s[f][p] <= 7
}

/// A state fits in a key when its grid's labels do.
pub proof fn lemma_fits_grid<const F: usize, const P: usize>(a: [[u8; P]; F])
    requires
        all_fit(grid(a)),
    ensures
        labels_fit(a),
{
    assert forall|f: int, p: int| 0 <= f < F && 0 <= p < P implies a[f][p] <= 7 by {
        assert(grid(a)[f][p] == a[f][p]);
    }
}

proof fn lemma_slots_fit<const N: usize, const K: usize>(
    cur: Seq<Seq<u8>>,
    src: Seq<Seq<u8>>,
    groups: [(usize, [usize; K]); N],
    shift: int,
    i: int,
    m: nat,
)
    requires
        all_fit(cur),
        all_fit(src),
        0 < N,
        0 <= shift,
        0 <= i < N,
        m <= K,
        cur.len() == src.len(),
        forall|f: int| 0 <= f < cur.len() ==> (#[trigger] cur[f]).len() == src[f].len(),
        forall|g: int| 0 <= g < N ==> 0 <= (#[trigger] groups[g]).0 < src.len(),
        forall|g: int, j: int| 0 <= g < N && 0 <= j < K ==> 0 <= #[trigger] groups[g].1[j] < src[groups[g].0 as int].len(),
    ensures
        all_fit(slots_written(cur, src, groups, shift, i, m)),
        slots_written(cur, src, groups, shift, i, m).len() == cur.len(),
        forall|f: int| 0 <= f < cur.len() ==> (#[trigger] slots_written(cur, src, groups, shift, i, m)[f]).len() == cur[f].len(),
    decreases m,
{
    if m > 0 {
        lemma_slots_fit(cur, src, groups, shift, i, (m - 1) as nat);
        let from = groups[(i + shift) % (N as int)];
        assert(0 <= (i + shift) % (N as int) < N);
        assert(src[from.0 as int][from.1[m - 1] as int] <= 7);
        let prev = slots_written(cur, src, groups, shift, i, (m - 1) as nat);
        let next = slots_written(cur, src, groups, shift, i, m);
        assert(next == put(prev, groups[i].0 as int, groups[i].1[m - 1] as int, src[from.0 as int][from.1[m - 1] as int]));
        assert forall|f: int, p: int| 0 <= f < next.len() && 0 <= p < next[f].len() implies next[f][p] <= 7 by {
            assert(prev[f].len() == next[f].len());
        }
    }
}

/// Carrying labels round keeps every label within three bits.
pub proof fn lemma_cycled_fits<const N: usize, const K: usize>(
    s: Seq<Seq<u8>>,
    groups: [(usize, [usize; K]); N],
    shift: int,
)
    requires
        all_fit(s),
        0 < N,
        0 <= shift,
        forall|g: int| 0 <= g < N ==> 0 <= (#[trigger] groups[g]).0 < s.len(),
        forall|g: int, j: int| 0 <= g < N && 0 <= j < K ==> 0 <= #[trigger] groups[g].1[j] < s[groups[g].0 as int].len(),
    ensures
        all_fit(cycled(s, groups, shift)),
        cycled(s, groups, shift).len() == s.len(),
        forall|f: int| 0 <= f < s.len() ==> (#[trigger] cycled(s, groups, shift)[f]).len() == s[f].len(),
{
    lemma_groups_fit(s, s, groups, shift, N as nat);
}

proof fn lemma_groups_fit<const N: usize, const K: usize>(
    cur: Seq<Seq<u8>>,
    src: Seq<Seq<u8>>,
    groups: [(usize, [usize; K]); N],
    shift: int,
    m: nat,
)
    requires
        all_fit(cur),
        all_fit(src),
        0 < N,
        0 <= shift,
        m <= N,
        cur.len() == src.len(),
        forall|f: int| 0 <= f < cur.len() ==> (#[trigger] cur[f]).len() == src[f].len(),
        forall|g: int| 0 <= g < N ==> 0 <= (#[trigger] groups[g]).0 < src.len(),
        forall|g: int, j: int| 0 <= g < N && 0 <= j < K ==> 0 <= #[trigger] groups[g].1[j] < src[groups[g].0 as int].len(),
    ensures
        all_fit(groups_written(cur, src, groups, shift, m)),
        groups_written(cur, src, groups, shift, m).len() == cur.len(),
        forall|f: int| 0 <= f < cur.len() ==> (#[trigger] groups_written(cur, src, groups, shift, m)[f]).len() == cur[f].len(),
    decreases m,
{
    if m > 0 {
        lemma_groups_fit(cur, src, groups, shift, (m - 1) as nat);
        lemma_slots_fit(groups_written(cur, src, groups, shift, (m - 1) as nat), src, groups, shift, m - 1, K as nat);
    }
}

proof fn lemma_put_grid<const F: usize, const P: usize>(a: [[u8; P]; F], b: [[u8; P]; F], f: int, p: int, v: u8)
    requires
        0 <= f < F,
        0 <= p < P,
        b[f]@ == a[f]@.update(p, v),
        forall|g: int| 0 <= g < F && g != f ==> b[g] == a[g],
    ensures
        grid(b) == put(grid(a), f, p, v),
{
    assert(grid(b) =~~= put(grid(a), f, p, v));
}

/// Turns face `f` of `state` `k` places to the right.
pub(crate) fn spin<const F: usize, const P: usize>(state: &mut [[u8; P]; F], f: usize, k: usize)
    requires
        f < F,
        k <= P,
    ensures
        grid(*final(state)) == spun(grid(*old(state)), f as int, k as int),
{
    let row = state[f];
    let ghost before = *state;
    for i in 0..P
        invariant
            f < F,
            k <= P,
            row == before[f as int],
            forall|g: int| 0 <= g < F && g != f ==> state[g] == before[g],
            forall|j: int| 0 <= j < i ==> #[trigger] state[f as int][j] == row[(j + P - k) % (P as int)],
    {
        let from = if i >= k {
            i - k
        } else {
            i + (P - k)
        };
        proof {
            if i >= k {
                lemma_mod_add_multiples_vanish(i - k, P as int);
                lemma_small_mod((i - k) as nat, P as nat);
            } else {
                lemma_small_mod((i + P - k) as nat, P as nat);
            }
        }
        state[f][i] = row[from];
    }
    proof {
        assert(state[f as int]@ =~= rotated_right(before[f as int]@, k as int));
        assert(grid(*state) =~~= spun(grid(before), f as int, k as int));
    }
}

/// Carries the labels of `groups` `shift` groups back along them, as `cycled` says.
pub(crate) fn cycle<const F: usize, const P: usize, const N: usize, const K: usize>(
    state: &mut [[u8; P]; F],
    groups: &[(usize, [usize; K]); N],
    shift: usize,
)
    requires
        0 < N,
        shift <= N,
        groups_fit::<F, P, N, K>(*groups),
    ensures
        grid(*final(state)) == cycled(grid(*old(state)), *groups, shift as int),
{
    let src = *state;
    let ghost s = grid(src);
    for i in 0..N
        invariant
            0 < N,
            shift <= N,
            groups_fit::<F, P, N, K>(*groups),
            s == grid(src),
            grid(*state) == groups_written(s, s, *groups, shift as int, i as nat),
    {
        let next = if shift >= N - i {
            i - (N - shift)
        } else {
            i + shift
        };
        proof {
            if shift >= N - i {
                lemma_mod_add_multiples_vanish(i + shift - N, N as int);
                lemma_small_mod((i + shift - N) as nat, N as nat);
            } else {
                lemma_small_mod((i + shift) as nat, N as nat);
            }
        }
        let from = groups[next];
        let to = groups[i];
        for j in 0..K
            invariant
                0 < N,
                shift <= N,
                0 <= i < N,
                groups_fit::<F, P, N, K>(*groups),
                s == grid(src),
                from == groups[(i + shift) % (N as int)],
                to == groups[i as int],
                grid(*state) == slots_written(
                    groups_written(s, s, *groups, shift as int, i as nat),
                    s,
                    *groups,
                    shift as int,
                    i as int,
                    j as nat,
                ),
        {
            let ghost before = *state;
            assert(from.0 < F && from.1[j as int] < P);
            assert(to.0 < F && to.1[j as int] < P);
            state[to.0][to.1[j]] = src[from.0][from.1[j]];
            proof {
                lemma_put_grid(before, *state, to.0 as int, to.1[j as int] as int, src[from.0 as int][from.1[j as int] as int]);
            }
        }
    }
}

/// Whether every label of `state` fits in three bits.
pub(crate) fn labels_within<const F: usize, const P: usize>(state: &[[u8; P]; F]) -> (r: bool)
    ensures
        r == labels_fit(*state),
{
    for f in 0..F
        invariant
            forall|g: int, p: int| 0 <= g < f && 0 <= p < P ==> state[g][p] <= 7,
    {
        for p in 0..P
            invariant
                0 <= f < F,
                forall|g: int, q: int| 0 <= g < f && 0 <= q < P ==> state[g][q] <= 7,
                forall|q: int| 0 <= q < p ==> state[f as int][q] <= 7,
        {
            if state[f][p] > 7 {
                return false;
            }
        }
    }
    true
}

/// Whether every piece of face `f` of `state` is `f`.
pub(crate) fn at_home<const F: usize, const P: usize>(state: &[[u8; P]; F]) -> (r: bool)
    requires
        F <= 256,
    ensures
        r == (grid(*state) == home(F as nat, P as nat)),
{
    let mut f: usize = 0;
    while f < F
        invariant
            F <= 256,
            f <= F,
            forall|g: int, p: int| 0 <= g < f && 0 <= p < P ==> state[g][p] == g as u8,
        decreases F - f,
    {
        let mut p: usize = 0;
        while p < P
            invariant
                F <= 256,
                f < F,
                p <= P,
                forall|g: int, q: int| 0 <= g < f && 0 <= q < P ==> state[g][q] == g as u8,
                forall|q: int| 0 <= q < p ==> state[f as int][q] == f as u8,
            decreases P - p,
        {
            if state[f][p] != f as u8 {
                proof {
                    assert(grid(*state)[f as int][p as int] != home(F as nat, P as nat)[f as int][p as int]);
                }
                return false;
            }
            p = p + 1;
        }
        f = f + 1;
    }
    proof {
        assert(grid(*state) =~~= home(F as nat, P as nat));
    }
    true
}

/// One puzzle of any of the supported kinds.
#[derive(Clone, Copy)]
pub enum PuzzleType {
    RubiksCube(rubiks_cube::RubiksCube),
    RubiksCube2x2(rubiks_cube_2x2::RubiksCube2x2),
    Skewb(skewb::Skewb),
    Pyraminx(pyraminx::Pyraminx),
    Megaminx(megaminx::Megaminx),
    Ivy(ivy::Ivy),
}

/// A move that a puzzle does not know, by its position among the moves given.
#[derive(PartialEq, Eq, Structural, Debug)]
pub struct UnknownMove {
    pub index: usize,
}

/// Whether the kind of `p` knows the move `t`.
pub open spec fn move_known(p: PuzzleType, t: Seq<char>) -> bool {
    match p {
        PuzzleType::RubiksCube(_) => rubiks_cube::move_of(t) is Some,
        PuzzleType::RubiksCube2x2(_) => rubiks_cube_2x2::move_of(t) is Some,
        PuzzleType::Skewb(_) => skewb::move_of(t) is Some,
        PuzzleType::Pyraminx(_) => pyraminx::move_of(t) is Some,
        PuzzleType::Megaminx(_) => megaminx::move_of(t) is Some,
        PuzzleType::Ivy(_) => ivy::move_of(t) is Some,
    }
}

/// Whether `a` and `b` are puzzles of the same kind.
pub open spec fn same_kind(a: PuzzleType, b: PuzzleType) -> bool {
    match (a, b) {
        (PuzzleType::RubiksCube(_), PuzzleType::RubiksCube(_)) => true,
        (PuzzleType::RubiksCube2x2(_), PuzzleType::RubiksCube2x2(_)) => true,
        (PuzzleType::Skewb(_), PuzzleType::Skewb(_)) => true,
        (PuzzleType::Pyraminx(_), PuzzleType::Pyraminx(_)) => true,
        (PuzzleType::Megaminx(_), PuzzleType::Megaminx(_)) => true,
        (PuzzleType::Ivy(_), PuzzleType::Ivy(_)) => true,
        _ => false,
    }
}

/// `s` after `moves` in order, by the rules of the kind of `p`.
pub open spec fn after_kind(p: PuzzleType, s: Seq<Seq<u8>>, moves: Seq<Seq<char>>) -> Seq<Seq<u8>> {
    match p {
        PuzzleType::RubiksCube(_) => rubiks_cube::after_moves(s, moves),
        PuzzleType::RubiksCube2x2(_) => rubiks_cube_2x2::after_moves(s, moves),
        PuzzleType::Skewb(_) => skewb::after_moves(s, moves),
        PuzzleType::Pyraminx(_) => pyraminx::after_moves(s, moves),
        PuzzleType::Megaminx(_) => megaminx::after_moves(s, moves),
        PuzzleType::Ivy(_) => ivy::after_moves(s, moves),
    }
}

/// Whether `after` is `before` with `moves` applied, by the rules of its kind.
pub open spec fn moved(before: PuzzleType, after: PuzzleType, moves: Seq<Seq<char>>) -> bool {
    same_kind(before, after) && after.faces() == after_kind(before, before.faces(), moves)
}

/// `s` after each move of `path` in turn, each applied on its own by the rules of the kind
/// of `p`.
pub open spec fn replay(p: PuzzleType, s: Seq<Seq<u8>>, path: Seq<Seq<char>>) -> Seq<Seq<u8>>
    decreases path.len(),
{
    if path.len() == 0 {
        s
    } else {
        after_kind(p, replay(p, s, path.drop_last()), seq![path.last()])
    }
}

impl PuzzleType {
    /// The faces of the puzzle, each a sequence of piece labels.
    pub open spec fn faces(&self) -> Seq<Seq<u8>> {
        match self {
            PuzzleType::RubiksCube(p) => p.faces(),
            PuzzleType::RubiksCube2x2(p) => p.faces(),
            PuzzleType::Skewb(p) => p.faces(),
            PuzzleType::Pyraminx(p) => p.faces(),
            PuzzleType::Megaminx(p) => p.faces(),
            PuzzleType::Ivy(p) => p.faces(),
        }
    }

    /// The solved arrangement of the puzzle's kind.
    pub open spec fn solved_faces(&self) -> Seq<Seq<u8>> {
        match self {
            PuzzleType::RubiksCube(p) => rubiks_cube::RubiksCube::solved_faces(),
            PuzzleType::RubiksCube2x2(p) => rubiks_cube_2x2::RubiksCube2x2::solved_faces(),
            PuzzleType::Skewb(p) => skewb::Skewb::solved_faces(),
            PuzzleType::Pyraminx(p) => pyraminx::Pyraminx::solved_faces(),
            PuzzleType::Megaminx(p) => megaminx::Megaminx::solved_faces(),
            PuzzleType::Ivy(p) => ivy::Ivy::solved_faces(),
        }
    }

    /// Whether every label fits in three bits.
    pub open spec fn fits(&self) -> bool {
        match self {
            PuzzleType::RubiksCube(p) => p.fits(),
            PuzzleType::RubiksCube2x2(p) => p.fits(),
            PuzzleType::Skewb(p) => p.fits(),
            PuzzleType::Pyraminx(p) => p.fits(),
            PuzzleType::Megaminx(p) => p.fits(),
            PuzzleType::Ivy(p) => p.fits(),
        }
    }

    /// Whether every label fits in three bits, so that the state has a key.
    pub fn fits_in_key(&self) -> (r: bool)
        ensures
            r == self.fits(),
    {
        match self {
            PuzzleType::RubiksCube(p) => labels_within(&p.state),
            PuzzleType::RubiksCube2x2(p) => labels_within(&p.state),
            PuzzleType::Skewb(p) => labels_within(&p.state),
            PuzzleType::Pyraminx(p) => labels_within(&p.state),
            PuzzleType::Megaminx(p) => labels_within(&p.state),
            PuzzleType::Ivy(p) => labels_within(&p.state),
        }
    }

    pub fn is_solved(&self) -> (r: bool)
        ensures
            r == (self.faces() == self.solved_faces()),
    {
        match self {
            PuzzleType::RubiksCube(p) => p.is_solved(),
            PuzzleType::RubiksCube2x2(p) => p.is_solved(),
            PuzzleType::Skewb(p) => p.is_solved(),
            PuzzleType::Pyraminx(p) => p.is_solved(),
            PuzzleType::Megaminx(p) => p.is_solved(),
            PuzzleType::Ivy(p) => p.is_solved(),
        }
    }

    /// The canonical key of the puzzle's state.
    pub fn return_state(&self) -> (key: u128)
        requires
            self.fits(),
        ensures
            key as nat == pack(flat(self.faces())) % key_modulus(),
    {
        match self {
            PuzzleType::RubiksCube(p) => p.return_state(),
            PuzzleType::RubiksCube2x2(p) => p.return_state(),
            PuzzleType::Skewb(p) => p.return_state(),
            PuzzleType::Pyraminx(p) => p.return_state(),
            PuzzleType::Megaminx(p) => p.return_state(),
            PuzzleType::Ivy(p) => p.return_state(),
        }
    }

    /// Applies the moves of `moves` in order, stopping at the first that the puzzle does
    /// not know.
    /// Fails, naming the position of that move, where a move is not known.
    pub fn input_move_list(&mut self, moves: &Vec<String>) -> (r: Result<(), UnknownMove>)
        ensures
            moved(*old(self), *final(self), texts(moves@)),
            r is Ok <==> forall|j: int| 0 <= j < moves.len() ==> #[trigger] move_known(*old(self), texts(moves@)[j]),
            r is Err ==> r->Err_0.index < moves.len() && !move_known(*old(self), texts(moves@)[r->Err_0.index as int])
                && forall|j: int| 0 <= j < r->Err_0.index ==> #[trigger] move_known(*old(self), texts(moves@)[j]),
    {
        match self {
            PuzzleType::RubiksCube(p) => {
                let r = p.input_move_list(moves);
                proof {
                    if r is Ok {
                        assert forall|j: int| 0 <= j < moves.len() implies #[trigger] move_known(*old(self), texts(moves@)[j]) by {
                            assert(rubiks_cube::move_of(texts(moves@)[j]) is Some);
                        }
                    }
                    if r is Err {
                        assert(!move_known(*old(self), texts(moves@)[r->Err_0.index as int]));
                    }
                }
                r
            },
            PuzzleType::RubiksCube2x2(p) => {
                let r = p.input_move_list(moves);
                proof {
                    if r is Ok {
                        assert forall|j: int| 0 <= j < moves.len() implies #[trigger] move_known(*old(self), texts(moves@)[j]) by {
                            assert(rubiks_cube_2x2::move_of(texts(moves@)[j]) is Some);
                        }
                    }
                    if r is Err {
                        assert(!move_known(*old(self), texts(moves@)[r->Err_0.index as int]));
                    }
                }
                r
            },
            PuzzleType::Skewb(p) => {
                let r = p.input_move_list(moves);
                proof {
                    if r is Ok {
                        assert forall|j: int| 0 <= j < moves.len() implies #[trigger] move_known(*old(self), texts(moves@)[j]) by {
                            assert(skewb::move_of(texts(moves@)[j]) is Some);
                        }
                    }
                    if r is Err {
                        assert(!move_known(*old(self), texts(moves@)[r->Err_0.index as int]));
                    }
                }
                r
            },
            PuzzleType::Pyraminx(p) => {
                let r = p.input_move_list(moves);
                proof {
                    if r is Ok {
                        assert forall|j: int| 0 <= j < moves.len() implies #[trigger] move_known(*old(self), texts(moves@)[j]) by {
                            assert(pyraminx::move_of(texts(moves@)[j]) is Some);
                        }
                    }
                    if r is Err {
                        assert(!move_known(*old(self), texts(moves@)[r->Err_0.index as int]));
                    }
                }
                r
            },
            PuzzleType::Megaminx(p) => {
                let r = p.input_move_list(moves);
                proof {
                    if r is Ok {
                        assert forall|j: int| 0 <= j < moves.len() implies #[trigger] move_known(*old(self), texts(moves@)[j]) by {
                            assert(megaminx::move_of(texts(moves@)[j]) is Some);
                        }
                    }
                    if r is Err {
                        assert(!move_known(*old(self), texts(moves@)[r->Err_0.index as int]));
                    }
                }
                r
            },
            PuzzleType::Ivy(p) => {
                let r = p.input_move_list(moves);
                proof {
                    if r is Ok {
                        assert forall|j: int| 0 <= j < moves.len() implies #[trigger] move_known(*old(self), texts(moves@)[j]) by {
                            assert(ivy::move_of(texts(moves@)[j]) is Some);
                        }
                    }
                    if r is Err {
                        assert(!move_known(*old(self), texts(moves@)[r->Err_0.index as int]));
                    }
                }
                r
            },
        }
    }

    /// Applies the moves written in `moves`, separated by whitespace and in either case.
    /// Fails, naming the position of that move, where a move is not known.
    pub fn input_moves(&mut self, moves: &str) -> (r: Result<(), UnknownMove>)
        ensures
            moved(*old(self), *final(self), words_of(upper_of(moves@))),
            r is Ok <==> forall|j: int| 0 <= j < words_of(upper_of(moves@)).len() ==> #[trigger] move_known(
                *old(self),
                words_of(upper_of(moves@))[j],
            ),
            r is Err ==> r->Err_0.index < words_of(upper_of(moves@)).len() && !move_known(
                *old(self),
                words_of(upper_of(moves@))[r->Err_0.index as int],
            ) && forall|j: int| 0 <= j < r->Err_0.index ==> #[trigger] move_known(*old(self), words_of(upper_of(moves@))[j]),
    {
        match self {
            PuzzleType::RubiksCube(p) => {
                let r = p.input_moves(moves);
                proof {
                    if r is Ok {
                        assert forall|j: int| 0 <= j < words_of(upper_of(moves@)).len() implies #[trigger] move_known(*old(self), words_of(upper_of(moves@))[j]) by {
                            assert(rubiks_cube::move_of(words_of(upper_of(moves@))[j]) is Some);
                        }
                    }
                    if r is Err {
                        assert(!move_known(*old(self), words_of(upper_of(moves@))[r->Err_0.index as int]));
                    }
                }
                r
            },
            PuzzleType::RubiksCube2x2(p) => {
                let r = p.input_moves(moves);
                proof {
                    if r is Ok {
                        assert forall|j: int| 0 <= j < words_of(upper_of(moves@)).len() implies #[trigger] move_known(*old(self), words_of(upper_of(moves@))[j]) by {
                            assert(rubiks_cube_2x2::move_of(words_of(upper_of(moves@))[j]) is Some);
                        }
                    }
                    if r is Err {
                        assert(!move_known(*old(self), words_of(upper_of(moves@))[r->Err_0.index as int]));
                    }
                }
                r
            },
            PuzzleType::Skewb(p) => {
                let r = p.input_moves(moves);
                proof {
                    if r is Ok {
                        assert forall|j: int| 0 <= j < words_of(upper_of(moves@)).len() implies #[trigger] move_known(*old(self), words_of(upper_of(moves@))[j]) by {
                            assert(skewb::move_of(words_of(upper_of(moves@))[j]) is Some);
                        }
                    }
                    if r is Err {
                        assert(!move_known(*old(self), words_of(upper_of(moves@))[r->Err_0.index as int]));
                    }
                }
                r
            },
            PuzzleType::Pyraminx(p) => {
                let r = p.input_moves(moves);
                proof {
                    if r is Ok {
                        assert forall|j: int| 0 <= j < words_of(upper_of(moves@)).len() implies #[trigger] move_known(*old(self), words_of(upper_of(moves@))[j]) by {
                            assert(pyraminx::move_of(words_of(upper_of(moves@))[j]) is Some);
                        }
                    }
                    if r is Err {
                        assert(!move_known(*old(self), words_of(upper_of(moves@))[r->Err_0.index as int]));
                    }
                }
                r
            },
            PuzzleType::Megaminx(p) => {
                let r = p.input_moves(moves);
                proof {
                    if r is Ok {
                        assert forall|j: int| 0 <= j < words_of(upper_of(moves@)).len() implies #[trigger] move_known(*old(self), words_of(upper_of(moves@))[j]) by {
                            assert(megaminx::move_of(words_of(upper_of(moves@))[j]) is Some);
                        }
                    }
                    if r is Err {
                        assert(!move_known(*old(self), words_of(upper_of(moves@))[r->Err_0.index as int]));
                    }
                }
                r
            },
            PuzzleType::Ivy(p) => {
                let r = p.input_moves(moves);
                proof {
                    if r is Ok {
                        assert forall|j: int| 0 <= j < words_of(upper_of(moves@)).len() implies #[trigger] move_known(*old(self), words_of(upper_of(moves@))[j]) by {
                            assert(ivy::move_of(words_of(upper_of(moves@))[j]) is Some);
                        }
                    }
                    if r is Err {
                        assert(!move_known(*old(self), words_of(upper_of(moves@))[r->Err_0.index as int]));
                    }
                }
                r
            },
        }
    }
}

/// The mark of a cell of a drawn net that shows no sticker.
pub const NO_STICKER: u8 = 255;

/// A net of `rows` rows of `cols` cells, none showing a sticker.
pub open spec fn blank(rows: nat, cols: nat) -> Seq<Seq<u8>> {
    Seq::new(rows, |x: int| Seq::new(cols, |y: int| NO_STICKER))
}

/// `g` with each cell `(x, y, v)` of `cells`, in order, set to `v`.
pub open spec fn painted(g: Seq<Seq<u8>>, cells: Seq<(usize, usize, u8)>) -> Seq<Seq<u8>>
    decreases cells.len(),
{
    if cells.len() == 0 {
        g
    } else {
        let c = cells.last();
        put(painted(g, cells.drop_last()), c.0 as int, c.1 as int, c.2)
    }
}

/// The cells that the stickers of `s` take: entry `((f, p), (x, y))` of `map` puts the
/// label of piece `p` of face `f` at row `x`, column `y`.
pub open spec fn stickers(s: Seq<Seq<u8>>, map: Seq<((usize, usize), (usize, usize))>) -> Seq<(usize, usize, u8)> {
    map.map_values(|e: ((usize, usize), (usize, usize))| (e.1.0, e.1.1, s[e.0.0 as int][e.0.1 as int]))
}

/// A net of `R` rows of `C` cells, none showing a sticker.
pub(crate) fn blank_net<const R: usize, const C: usize>() -> (r: [[u8; C]; R])
    ensures
        grid(r) == blank(R as nat, C as nat),
{
    let r = [[NO_STICKER; C]; R];
    assert(grid(r) =~~= blank(R as nat, C as nat));
    r
}

/// Paints `cells` on `net`, in order.
pub(crate) fn paint<const R: usize, const C: usize, const M: usize>(net: &mut [[u8; C]; R], cells: &[(usize, usize, u8); M])
    requires
        forall|k: int| 0 <= k < M ==> (#[trigger] cells[k]).0 < R && cells[k].1 < C,
    ensures
        grid(*final(net)) == painted(grid(*old(net)), cells@),
{
    let ghost start = grid(*net);
    for k in 0..M
        invariant
            forall|k: int| 0 <= k < M ==> (#[trigger] cells[k]).0 < R && cells[k].1 < C,
            grid(*net) == painted(start, cells@.take(k as int)),
    {
        let (x, y, v) = cells[k];
        let ghost before = *net;
        net[x][y] = v;
        proof {
            lemma_put_grid(before, *net, x as int, y as int, v);
            assert(cells@.take(k + 1).drop_last() =~= cells@.take(k as int));
        }
    }
    assert(cells@.take(M as int) =~= cells@);
}

/// Paints the stickers of `state` on `net` where `map` places them.
pub(crate) fn paint_stickers<const R: usize, const C: usize, const F: usize, const P: usize, const M: usize>(
    net: &mut [[u8; C]; R],
    state: &[[u8; P]; F],
    map: &[((usize, usize), (usize, usize)); M],
)
    requires
        forall|k: int| 0 <= k < M ==> (#[trigger] map[k]).0.0 < F && map[k].0.1 < P && map[k].1.0 < R && map[k].1.1 < C,
    ensures
        grid(*final(net)) == painted(grid(*old(net)), stickers(grid(*state), map@)),
{
    let ghost start = grid(*net);
    let ghost cells = stickers(grid(*state), map@);
    for k in 0..M
        invariant
            forall|k: int| 0 <= k < M ==> (#[trigger] map[k]).0.0 < F && map[k].0.1 < P && map[k].1.0 < R && map[k].1.1 < C,
            cells == stickers(grid(*state), map@),
            grid(*net) == painted(start, cells.take(k as int)),
    {
        let ((f, p), (x, y)) = map[k];
        let v = state[f][p];
        let ghost before = *net;
        net[x][y] = v;
        proof {
            lemma_put_grid(before, *net, x as int, y as int, v);
            assert(cells.take(k + 1).drop_last() =~= cells.take(k as int));
            assert(cells[k as int] == (x, y, v));
        }
    }
    assert(cells.take(M as int) =~= cells);
}

proof fn lemma_labels_fit_grid<const F: usize, const P: usize>(a: [[u8; P]; F])
    ensures
        labels_fit(a) == all_fit(grid(a)),
{
    if labels_fit(a) {
        assert forall|f: int, p: int| 0 <= f < grid(a).len() && 0 <= p < grid(a)[f].len() implies grid(a)[f][p] <= 7 by {
            assert(grid(a)[f][p] == a[f][p]);
        }
    }
    if all_fit(grid(a)) {
        lemma_fits_grid(a);
    }
}

/// A puzzle's state has a key exactly when the labels of its faces fit in three bits.
pub proof fn lemma_fits_faces(p: PuzzleType)
    ensures
        p.fits() == all_fit(p.faces()),
{
    match p {
        PuzzleType::RubiksCube(c) => lemma_labels_fit_grid(c.state),
        PuzzleType::RubiksCube2x2(c) => lemma_labels_fit_grid(c.state),
        PuzzleType::Skewb(c) => lemma_labels_fit_grid(c.state),
        PuzzleType::Pyraminx(c) => lemma_labels_fit_grid(c.state),
        PuzzleType::Megaminx(c) => lemma_labels_fit_grid(c.state),
        PuzzleType::Ivy(c) => lemma_labels_fit_grid(c.state),
    }
}

/// A puzzle: a grid of faces of piece labels.
pub trait Puzzle {
    /// The faces of the puzzle, each a sequence of piece labels.
    spec fn faces(&self) -> Seq<Seq<u8>>;

    /// The solved arrangement of this kind of puzzle.
    spec fn solved_faces() -> Seq<Seq<u8>>;

    /// Whether every label fits in three bits.
    spec fn fits(&self) -> bool;

    fn is_solved(&self) -> (r: bool)
        ensures
            r == (self.faces() == Self::solved_faces()),
    ;

    /// The canonical key of the puzzle's state.
    fn return_state(&self) -> (key: u128)
        requires
            self.fits(),
        ensures
            key as nat == pack(flat(self.faces())) % key_modulus(),
    ;
}

} // verus!
