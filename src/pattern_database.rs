//! Exhaustive breadth-first enumeration of the pyraminx's states from the solved one,
//! recording for each canonical key the number of moves at which it was first reached.
use crate::codec::{flat, grid, key_modulus, lemma_unpack_shape, pack, unpack};
use crate::known_states::KnownStates;
use crate::models::pyraminx::{applied, lemma_applied_fits, shaped, small, Faces, Pyraminx, Tips, Turn};
use crate::models::{all_fit, home, lemma_fits_grid, Puzzle};
use vstd::prelude::*;

verus! {

/// The moves that the enumeration tries from every state, in order: each face and each tip
/// turned by one third, by a prime and by a double.
pub open spec fn possible_turns() -> Seq<Turn> {
    seq![
        Turn::Face(Faces::Yellow, 1), Turn::Face(Faces::Yellow, 2), Turn::Face(Faces::Yellow, 2),
        Turn::Face(Faces::Red, 1), Turn::Face(Faces::Red, 2), Turn::Face(Faces::Red, 2),
        Turn::Face(Faces::Green, 1), Turn::Face(Faces::Green, 2), Turn::Face(Faces::Green, 2),
        Turn::Face(Faces::Blue, 1), Turn::Face(Faces::Blue, 2), Turn::Face(Faces::Blue, 2),
        Turn::Tip(Tips::Top, 1), Turn::Tip(Tips::Top, 2), Turn::Tip(Tips::Top, 2),
        Turn::Tip(Tips::Right, 1), Turn::Tip(Tips::Right, 2), Turn::Tip(Tips::Right, 2),
        Turn::Tip(Tips::Left, 1), Turn::Tip(Tips::Left, 2), Turn::Tip(Tips::Left, 2),
        Turn::Tip(Tips::Back, 1), Turn::Tip(Tips::Back, 2), Turn::Tip(Tips::Back, 2),
    ]
}

fn possible_moves() -> (r: Vec<Turn>)
    ensures
        r@ == possible_turns(),
{
    let r = vec![
        Turn::Face(Faces::Yellow, 1), Turn::Face(Faces::Yellow, 2), Turn::Face(Faces::Yellow, 2),
        Turn::Face(Faces::Red, 1), Turn::Face(Faces::Red, 2), Turn::Face(Faces::Red, 2),
        Turn::Face(Faces::Green, 1), Turn::Face(Faces::Green, 2), Turn::Face(Faces::Green, 2),
        Turn::Face(Faces::Blue, 1), Turn::Face(Faces::Blue, 2), Turn::Face(Faces::Blue, 2),
        Turn::Tip(Tips::Top, 1), Turn::Tip(Tips::Top, 2), Turn::Tip(Tips::Top, 2),
        Turn::Tip(Tips::Right, 1), Turn::Tip(Tips::Right, 2), Turn::Tip(Tips::Right, 2),
        Turn::Tip(Tips::Left, 1), Turn::Tip(Tips::Left, 2), Turn::Tip(Tips::Left, 2),
        Turn::Tip(Tips::Back, 1), Turn::Tip(Tips::Back, 2), Turn::Tip(Tips::Back, 2),
    ];
    assert(r@ =~= possible_turns());
    r
}

/// The key of the state that `turn` makes of the state that `key` holds.
pub open spec fn successor(key: nat, turn: Turn) -> nat {
    pack(flat(applied(unpack(key, 4, 9), turn))) % key_modulus()
}

/// The key of the solved pyraminx.
pub open spec fn solved_key() -> nat {
    pack(flat(home(4, 9))) % key_modulus()
}

/// `key` is reached from the solved state in at most `d` moves of `turns`.
pub open spec fn within(turns: Seq<Turn>, key: nat, d: nat) -> bool
    decreases d,
{
    if d == 0 {
        key == solved_key()
    } else {
        within(turns, key, (d - 1) as nat) || exists|j: nat, i: int|
            0 <= i < turns.len() && within(turns, j, (d - 1) as nat) && #[trigger] successor(j, turns[i]) == key
    }
}

/// Every turn of `turns` is by at most three thirds, counted modulo eight.
pub open spec fn all_small(turns: Seq<Turn>) -> bool {
    forall|i: int| 0 <= i < turns.len() ==> small(#[trigger] turns[i])
}

/// Why an enumeration stopped before it was complete.
pub enum BuildError {
    /// The table would have held more states than allowed; `depth` is the depth that was
    /// being recorded.
    ResourceExhausted { depth: u8, states: usize },
}

/// The keys that the turns of `moves` make of `initial_state`, among those not yet known.
pub fn successors(known: &KnownStates, initial_state: u128, moves: &Vec<Turn>) -> (r: Vec<u128>)
    requires
        all_small(moves@),
    ensures
        r@.len() <= moves.len(),
        forall|k: u128| #[trigger] r@.contains(k) <==> !known@.contains_key(k) && exists|i: int|
            0 <= i < moves.len() && successor(initial_state as nat, moves@[i]) == k,
{
    let mut local_depth: Vec<u128> = Vec::new();
    proof {
        lemma_unpack_shape(initial_state as nat, 4, 9);
    }
    for i in 0..moves.len()
        invariant
            all_small(moves@),
            local_depth@.len() <= i,
            shaped(unpack(initial_state as nat, 4, 9)),
            all_fit(unpack(initial_state as nat, 4, 9)),
            forall|k: u128| #[trigger] local_depth@.contains(k) <==> !known@.contains_key(k) && exists|j: int|
                0 <= j < i && successor(initial_state as nat, moves@[j]) == k,
    {
        let mut cube = Pyraminx::from_key(initial_state);
        let turn = moves[i];
        assert(small(turn));
        cube.apply_turn(turn);
        proof {
            lemma_applied_fits(unpack(initial_state as nat, 4, 9), turn);
            lemma_fits_grid(cube.state);
        }
        let current_state = cube.return_state();
        let ghost pushed = local_depth@;
        if !known.state_known(current_state) {
            local_depth.push(current_state);
        }
        proof {
            assert forall|k: u128| #[trigger] local_depth@.contains(k) <==> !known@.contains_key(k) && exists|j: int|
                0 <= j < i + 1 && successor(initial_state as nat, moves@[j]) == k by {
                if local_depth@.contains(k) && !pushed.contains(k) {
                    assert(successor(initial_state as nat, moves@[i as int]) == k);
                }
                if !known@.contains_key(k) && exists|j: int| 0 <= j < i + 1 && successor(initial_state as nat, moves@[j]) == k {
                    let j = choose|j: int| 0 <= j < i + 1 && successor(initial_state as nat, moves@[j]) == k;
                    if j == i {
                        assert(local_depth@.last() == current_state);
                        assert(local_depth@[local_depth@.len() - 1] == k);
                    } else {
                        assert(pushed.contains(k));
                        let x = choose|x: int| 0 <= x < pushed.len() && pushed[x] == k;
                        assert(local_depth@[x] == k);
                    }
                }
            }
        }
    }
    local_depth
}

/// The keys that the possible moves make of `initial_state`, among those not yet known.
pub fn process_moves(known: &KnownStates, initial_state: u128) -> (r: Vec<u128>)
    ensures
        r@.len() <= 24,
        forall|k: u128| #[trigger] r@.contains(k) <==> !known@.contains_key(k) && exists|i: int|
            0 <= i < 24 && successor(initial_state as nat, possible_turns()[i]) == k,
{
    let moves = possible_moves();
    successors(known, initial_state, &moves)
}

/// `d` is the least number of moves that reaches `key` from the solved state.
pub open spec fn is_distance(turns: Seq<Turn>, key: nat, d: nat) -> bool {
    within(turns, key, d) && (d > 0 ==> !within(turns, key, (d - 1) as nat))
}

/// More than `limit` distinct keys are reachable from the solved state.
pub open spec fn more_reachable_than(turns: Seq<Turn>, limit: nat) -> bool {
    exists|s: Set<u128>|
        s.finite() && s.len() > limit && forall|k: u128| #[trigger] s.contains(k) ==> exists|n: nat| within(turns, k as nat, n)
}

/// What the table holds after a level is complete: every entry at its exact distance,
/// no deeper than `level`, and every key within `level` moves present.
pub open spec fn exact_up_to(turns: Seq<Turn>, t: Map<u128, u8>, level: nat) -> bool {
    &&& forall|k: u128| #[trigger] t.contains_key(k) ==> is_distance(turns, k as nat, t[k] as nat) && t[k] <= level
    &&& forall|k: u128| #[trigger] within(turns, k as nat, level) ==> t.contains_key(k)
}

/// Whatever is reached within `a` moves is reached within any larger number.
pub proof fn lemma_within_monotone(turns: Seq<Turn>, key: nat, a: nat, b: nat)
    requires
        a <= b,
        within(turns, key, a),
    ensures
        within(turns, key, b),
    decreases b,
{
    if a < b {
        lemma_within_monotone(turns, key, a, (b - 1) as nat);
    }
}

/// Every key reached is a key: below the key modulus.
proof fn lemma_within_is_key(turns: Seq<Turn>, key: nat, d: nat)
    requires
        within(turns, key, d),
    ensures
        key < key_modulus(),
    decreases d,
{
    if d > 0 && !within(turns, key, (d - 1) as nat) {
        let (j, i) = choose|j: nat, i: int|
            0 <= i < turns.len() && within(turns, j, (d - 1) as nat) && #[trigger] successor(j, turns[i]) == key;
        assert(key == successor(j, turns[i]));
    } else if d > 0 {
        lemma_within_is_key(turns, key, (d - 1) as nat);
    }
}

/// Where no key lies at distance exactly `level`, nothing lies further out either.
proof fn lemma_no_further(turns: Seq<Turn>, level: nat, key: nat, n: nat)
    requires
        level > 0,
        forall|k: nat| #[trigger] within(turns, k, level) ==> within(turns, k, (level - 1) as nat),
        within(turns, key, n),
    ensures
        within(turns, key, (level - 1) as nat),
    decreases n,
{
    if n < level {
        lemma_within_monotone(turns, key, n, (level - 1) as nat);
    } else if n == level {
    } else if within(turns, key, (n - 1) as nat) {
        lemma_no_further(turns, level, key, (n - 1) as nat);
    } else {
        let (j, i) = choose|j: nat, i: int|
            0 <= i < turns.len() && within(turns, j, (n - 1) as nat) && #[trigger] successor(j, turns[i]) == key;
        lemma_no_further(turns, level, j, (n - 1) as nat);
        assert(within(turns, key, level));
    }
}

/// Expands level after level until a level adds nothing. On entry `current` holds the keys
/// recorded at depth `depth - 1`, which is complete.
fn bfs(known: &mut KnownStates, depth: u8, current: Vec<u128>, limit: usize, moves: &Vec<Turn>) -> (r: Result<Vec<usize>, BuildError>)
    requires
        all_small(moves@),
        depth >= 1,
        old(known)@.len() <= limit,
        exact_up_to(moves@, old(known)@, (depth - 1) as nat),
        forall|x: u128| #[trigger] current@.contains(x) <==> old(known)@.contains_key(x) && old(known)@[x] == depth - 1,
    ensures
        r is Ok ==> forall|k: u128| #[trigger] final(known)@.contains_key(k) ==> is_distance(moves@, k as nat, final(known)@[k] as nat),
        r is Ok ==> forall|k: u128, n: nat| #[trigger] within(moves@, k as nat, n) ==> final(known)@.contains_key(k),
        r is Err ==> more_reachable_than(moves@, limit as nat) || exists|k: u128| is_distance(moves@, k as nat, 254),
        final(known)@.len() <= limit,
{
    let ghost turns = moves@;
    let mut depth = depth;
    let mut current = current;
    let mut counts: Vec<usize> = Vec::new();
    while current.len() > 0
        invariant
            depth >= 1,
            turns == moves@,
            all_small(moves@),
            known@.len() <= limit,
            exact_up_to(turns, known@, (depth - 1) as nat),
            forall|x: u128| #[trigger] current@.contains(x) <==> known@.contains_key(x) && known@[x] == depth - 1,
        decreases limit - known@.len(), current.len(),
    {
        let ghost level = (depth - 1) as nat;
        let ghost start = known@;
        let ghost start_current = current@;
        let ghost mut popped: Seq<u128> = Seq::empty();
        let mut next: Vec<u128> = Vec::new();
        if depth == 255 {
            proof {
                let x = current@[0];
                assert(current@.contains(x));
                assert(is_distance(turns, x as nat, 254));
            }
            return Err(BuildError::ResourceExhausted { depth, states: known.len() });
        }
        while current.len() > 0
            invariant
                depth >= 1,
                depth < 255,
                turns == moves@,
                all_small(moves@),
                level == depth - 1,
                known@.len() <= limit,
                start.len() <= known@.len(),
                next@.len() > 0 ==> start.len() < known@.len(),
                start_current.len() > 0,
                forall|k: u128| #[trigger] start.contains_key(k) ==> known@.contains_key(k) && known@[k] == start[k],
                forall|k: u128| #[trigger] known@.contains_key(k) ==> is_distance(turns, k as nat, known@[k] as nat) && known@[k] <= depth,
                forall|k: u128| #[trigger] within(turns, k as nat, level) ==> start.contains_key(k),
                forall|k: u128| #[trigger] start.contains_key(k) ==> is_distance(turns, k as nat, start[k] as nat) && start[k] <= level,
                forall|k: u128| known@.contains_key(k) && !start.contains_key(k) ==> #[trigger] known@[k] == depth,
                forall|x: u128| #[trigger] start.contains_key(x) && start[x] == level ==> current@.contains(x) || popped.contains(x),
                forall|x: u128| #[trigger] current@.contains(x) ==> start.contains_key(x) && start[x] == level,
                forall|x: u128, i: int| popped.contains(x) && 0 <= i < turns.len() ==> known@.contains_key(
                    #[trigger] successor(x as nat, turns[i]) as u128,
                ),
                forall|x: u128| popped.contains(x) ==> #[trigger] start.contains_key(x) && start[x] == level,
                forall|k: u128| #[trigger] next@.contains(k) <==> known@.contains_key(k) && !start.contains_key(k),
            decreases current.len(),
        {
            let ghost before_pop = current@;
            let state = current.pop().unwrap();
            proof {
                assert(before_pop == current@.push(state));
                assert(before_pop.contains(state)) by {
                    assert(before_pop[before_pop.len() - 1] == state);
                }
                assert forall|x: u128| #[trigger] current@.contains(x) implies before_pop.contains(x) by {
                    let y = choose|y: int| 0 <= y < current@.len() && current@[y] == x;
                    assert(before_pop[y] == x);
                }
            }
            let ghost old_popped = popped;
            let states = successors(known, state, moves);
            let ghost before_batch = known@;
            let mut j: usize = 0;
            while j < states.len()
                invariant
                    depth >= 1,
                    depth < 255,
                    turns == moves@,
                    level == depth - 1,
                    known@.len() <= limit,
                    start.len() <= known@.len(),
                    next@.len() > 0 ==> start.len() < known@.len(),
                    start.contains_key(state) && start[state] == level,
                    forall|k: u128| #[trigger] before_batch.contains_key(k) ==> known@.contains_key(k),
                    forall|k: u128| #[trigger] start.contains_key(k) ==> known@.contains_key(k) && known@[k] == start[k],
                    forall|k: u128| #[trigger] known@.contains_key(k) ==> is_distance(turns, k as nat, known@[k] as nat) && known@[k] <= depth,
                    forall|k: u128| #[trigger] within(turns, k as nat, level) ==> start.contains_key(k),
                    forall|k: u128| #[trigger] start.contains_key(k) ==> is_distance(turns, k as nat, start[k] as nat) && start[k] <= level,
                    forall|k: u128| known@.contains_key(k) && !start.contains_key(k) ==> #[trigger] known@[k] == depth,
                    forall|k: u128| #[trigger] next@.contains(k) <==> known@.contains_key(k) && !start.contains_key(k),
                    forall|k: u128| #[trigger] states@.contains(k) <==> !before_batch.contains_key(k) && exists|i: int|
                        0 <= i < turns.len() && successor(state as nat, turns[i]) == k,
                    forall|x: int| 0 <= x < j ==> known@.contains_key(#[trigger] states@[x]),
                decreases states.len() - j,
            {
                let s = states[j];
                if !known.state_known(s) {
                    if known.len() >= limit {
                        proof {
                            assert(states@.contains(s));
                            let i = choose|i: int| 0 <= i < turns.len() && successor(state as nat, turns[i]) == s;
                            assert(within(turns, state as nat, level));
                            assert(within(turns, s as nat, depth as nat));
                            known.lemma_finite();
                            let reached = known@.dom().insert(s);
                            assert(reached.len() == known@.len() + 1);
                            assert forall|k: u128| #[trigger] reached.contains(k) implies exists|n: nat| within(turns, k as nat, n) by {
                                if k == s {
                                    assert(within(turns, k as nat, depth as nat));
                                } else {
                                    assert(known@.contains_key(k));
                                    assert(within(turns, k as nat, known@[k] as nat));
                                }
                            }
                            assert(reached.finite());
                            assert(reached.len() > limit);
                            assert(more_reachable_than(turns, limit as nat));
                        }
                        return Err(BuildError::ResourceExhausted { depth, states: known.len() });
                    }
                    proof {
                        assert(states@.contains(s));
                        let i = choose|i: int| 0 <= i < turns.len() && successor(state as nat, turns[i]) == s;
                        assert(within(turns, state as nat, level));
                        assert(within(turns, s as nat, depth as nat));
                        if within(turns, s as nat, level) {
                            assert(start.contains_key(s));
                        }
                        assert(is_distance(turns, s as nat, depth as nat));
                    }
                    let ghost old_next = next@;
                    known.add_known_state(s, depth);
                    next.push(s);
                    proof {
                        assert forall|k: u128| #[trigger] next@.contains(k) <==> known@.contains_key(k) && !start.contains_key(k) by {
                            if next@.contains(k) && k != s {
                                let y = choose|y: int| 0 <= y < next@.len() && next@[y] == k;
                                assert(old_next[y] == k);
                                assert(old_next.contains(k));
                            }
                            if k == s {
                                assert(next@[next@.len() - 1] == k);
                            } else if known@.contains_key(k) && !start.contains_key(k) {
                                assert(old_next.contains(k));
                                let y = choose|y: int| 0 <= y < old_next.len() && old_next[y] == k;
                                assert(next@[y] == k);
                            }
                        }
                    }
                }
                j = j + 1;
            }
            proof {
                assert forall|i: int| 0 <= i < turns.len() implies known@.contains_key(
                    #[trigger] successor(state as nat, turns[i]) as u128,
                ) by {
                    let k = successor(state as nat, turns[i]);
                    assert(k < key_modulus());
                    if !before_batch.contains_key(k as u128) {
                        assert(states@.contains(k as u128));
                        let x = choose|x: int| 0 <= x < states@.len() && states@[x] == k as u128;
                    }
                }
                popped = popped.push(state);
                assert forall|x: u128| #[trigger] start.contains_key(x) && start[x] == level implies current@.contains(x) || popped.contains(x) by {
                    assert(before_pop.contains(x) || old_popped.contains(x));
                    if before_pop.contains(x) && x != state {
                        let y = choose|y: int| 0 <= y < before_pop.len() && before_pop[y] == x;
                        assert(y < current@.len());
                        assert(current@[y] == x);
                    }
                    if x == state {
                        assert(popped[popped.len() - 1] == x);
                    }
                    if old_popped.contains(x) {
                        let y = choose|y: int| 0 <= y < old_popped.len() && old_popped[y] == x;
                        assert(popped[y] == x);
                    }
                }
                assert forall|x: u128, i: int| popped.contains(x) && 0 <= i < turns.len() implies known@.contains_key(
                    #[trigger] successor(x as nat, turns[i]) as u128,
                ) by {
                    let y = choose|y: int| 0 <= y < popped.len() && popped[y] == x;
                    if y < old_popped.len() {
                        assert(old_popped[y] == x);
                    }
                }
                assert forall|x: u128| popped.contains(x) implies #[trigger] start.contains_key(x) && start[x] == level by {
                    let y = choose|y: int| 0 <= y < popped.len() && popped[y] == x;
                    if y < old_popped.len() {
                        assert(old_popped[y] == x);
                    }
                }
            }
        }
        counts.push(known.len());
        proof {
            assert forall|k: u128| #[trigger] within(turns, k as nat, depth as nat) implies known@.contains_key(k) by {
                if !within(turns, k as nat, level) {
                    let (j, i) = choose|j: nat, i: int|
                        0 <= i < turns.len() && within(turns, j, level) && #[trigger] successor(j, turns[i]) == k as nat;
                    lemma_within_is_key(turns, j, level);
                    let ju = j as u128;
                    assert(start.contains_key(ju));
                    if start[ju] < level {
                        lemma_within_monotone(turns, j, start[ju] as nat, (level - 1) as nat);
                    }
                    assert(popped.contains(ju));
                    assert(known@.contains_key(successor(ju as nat, turns[i]) as u128));
                }
            }
            assert forall|x: u128| #[trigger] next@.contains(x) <==> known@.contains_key(x) && known@[x] == depth by {}
        }
        depth = depth + 1;
        current = next;
    }
    proof {
        let level = (depth - 1) as nat;
        if level > 0 {
            assert forall|k: nat| #[trigger] within(turns, k, level) implies within(turns, k, (level - 1) as nat) by {
                lemma_within_is_key(turns, k, level);
                let ku = k as u128;
                assert(within(turns, ku as nat, level));
                assert(known@.contains_key(ku));
                let d = known@[ku] as nat;
                if d < level {
                    lemma_within_monotone(turns, k, d, (level - 1) as nat);
                } else {
                    assert(!current@.contains(ku));
                }
            }
            assert forall|k: u128, n: nat| #[trigger] within(turns, k as nat, n) implies known@.contains_key(k) by {
                lemma_no_further(turns, level, k as nat, n);
                lemma_within_monotone(turns, k as nat, (level - 1) as nat, level);
            }
        } else {
            let ku = solved_key() as u128;
            lemma_within_is_key(turns, solved_key(), 0);
            assert(within(turns, ku as nat, 0));
            assert(known@.contains_key(ku));
            assert(current@.contains(ku));
        }
    }
    Ok(counts)
}

/// Builds the table of every state of the pyraminx reachable from the solved one by the
/// turns of `moves`, each at its least number of such turns, holding at most `limit`
/// states. Also gives, level by level, how many states were recorded up to that level.
pub fn generate_db_with(moves: &Vec<Turn>, limit: usize) -> (r: Result<(KnownStates, Vec<usize>), BuildError>)
    requires
        all_small(moves@),
    ensures
        r is Ok ==> forall|k: u128| #[trigger] r->Ok_0.0@.contains_key(k) ==> is_distance(moves@, k as nat, r->Ok_0.0@[k] as nat),
        r is Ok ==> forall|k: u128, n: nat| #[trigger] within(moves@, k as nat, n) ==> r->Ok_0.0@.contains_key(k),
        r is Ok ==> r->Ok_0.0@.len() <= limit,
        r is Err ==> more_reachable_than(moves@, limit as nat) || exists|k: u128| is_distance(moves@, k as nat, 254),
{
    let ghost turns = moves@;
    if limit == 0 {
        proof {
            let k = solved_key() as u128;
            lemma_within_is_key(turns, solved_key(), 0);
            assert(within(turns, k as nat, 0));
            let reached = Set::<u128>::empty().insert(k);
            assert(reached.finite());
            assert(reached.len() == 1);
            assert forall|x: u128| #[trigger] reached.contains(x) implies exists|n: nat| within(turns, x as nat, n) by {
                assert(x == k);
                assert(within(turns, x as nat, 0));
            }
            assert(more_reachable_than(turns, 0));
        }
        return Err(BuildError::ResourceExhausted { depth: 0, states: 0 });
    }
    let mut known = KnownStates::new();
    let cube = Pyraminx::default();
    proof {
        assert(all_fit(grid(cube.state)));
        lemma_fits_grid(cube.state);
    }
    let state = cube.return_state();
    known.add_known_state(state, 0);
    let current = vec![state];
    proof {
        assert(state as nat == solved_key());
        assert(is_distance(turns, state as nat, 0));
        assert forall|k: u128| #[trigger] within(turns, k as nat, 0) implies known@.contains_key(k) by {
            lemma_within_is_key(turns, k as nat, 0);
        }
        assert forall|x: u128| #[trigger] current@.contains(x) <==> known@.contains_key(x) && known@[x] == 0 by {
            if x == state {
                assert(current@[0] == x);
            }
        }
    }
    let mut counts = vec![1];
    match bfs(&mut known, 1, current, limit, moves) {
        Ok(levels) => {
            let mut levels = levels;
            counts.append(&mut levels);
            Ok((known, counts))
        },
        Err(e) => Err(e),
    }
}

/// Builds the table of every state of the pyraminx reachable from the solved one by the
/// possible moves, each at its least number of moves, as `generate_db_with` does.
pub fn generate_db(limit: usize) -> (r: Result<(KnownStates, Vec<usize>), BuildError>)
    ensures
        r is Ok ==> forall|k: u128| #[trigger] r->Ok_0.0@.contains_key(k) ==> is_distance(possible_turns(), k as nat, r->Ok_0.0@[k] as nat),
        r is Ok ==> forall|k: u128, n: nat| #[trigger] within(possible_turns(), k as nat, n) ==> r->Ok_0.0@.contains_key(k),
        r is Ok ==> r->Ok_0.0@.len() <= limit,
        r is Err ==> more_reachable_than(possible_turns(), limit as nat) || exists|k: u128| is_distance(possible_turns(), k as nat, 254),
{
    let moves = possible_moves();
    generate_db_with(&moves, limit)
}

} // verus!
