//! Iterative-deepening search for a move sequence that solves a puzzle, guided by pattern
//! databases and pruning moves about the axis of the move before.
use crate::codec::{flat, key_modulus, pack};
use crate::known_states::KnownStates;
use crate::models::pyraminx::Turn;
use crate::pattern_database::{is_distance, lemma_within_monotone, within};
use crate::models::{after_kind, all_fit, lemma_fits_faces, moved, replay, same_kind, PuzzleType};
use crate::successor_queue::{new_queue, queue_entries, queue_pop, queue_push};
use crate::text::texts;
use vstd::prelude::*;

verus! {

/// Why a search found nothing.
pub enum SolveError {
    /// No sequence of at most `ceiling` moves was found.
    NoSolution { ceiling: u32 },
}

/// The layer opposite the one that a cube move's letter names.
pub open spec fn opposite_layer(layer: char) -> Option<char> {
    if layer == 'U' {
        Some('D')
    } else if layer == 'D' {
        Some('U')
    } else if layer == 'R' {
        Some('L')
    } else if layer == 'L' {
        Some('R')
    } else if layer == 'F' {
        Some('B')
    } else if layer == 'B' {
        Some('F')
    } else {
        None
    }
}

pub fn get_opposite_layer(layer: char) -> (r: Option<char>)
    ensures
        r == opposite_layer(layer),
{
    match layer {
        'U' => Some('D'),
        'D' => Some('U'),
        'R' => Some('L'),
        'L' => Some('R'),
        'F' => Some('B'),
        'B' => Some('F'),
        _ => None,
    }
}

/// A move is pruned after another when it turns the same layer or the opposite one; no
/// move is pruned after the empty move that stands before the first.
pub open spec fn pruned(new_move: Seq<char>, last_move: Seq<char>) -> bool {
    last_move.len() > 0 && (new_move[0] == last_move[0] || opposite_layer(new_move[0]) == Some(last_move[0]))
}

pub fn prune(new_move: &str, last_move: &str) -> (r: bool)
    requires
        new_move@.len() > 0,
    ensures
        r == pruned(new_move@, last_move@),
{
    if last_move.unicode_len() == 0 {
        return false;
    }
    let new_layer = new_move.get_char(0);
    let last_layer = last_move.get_char(0);
    new_layer == last_layer || get_opposite_layer(new_layer) == Some(last_layer)
}

/// The tables' contents.
pub open spec fn table_views(tables: Seq<KnownStates>) -> Seq<Map<u128, u8>> {
    tables.map_values(|t: KnownStates| t@)
}

/// The largest depth that any of `tables` records for `key`; zero where none records it.
pub open spec fn estimate(tables: Seq<Map<u128, u8>>, key: u128) -> nat
    decreases tables.len(),
{
    if tables.len() == 0 {
        0
    } else {
        let rest = estimate(tables.drop_last(), key);
        let here: nat = if tables.last().contains_key(key) {
            tables.last()[key] as nat
        } else {
            0
        };
        if here > rest {
            here
        } else {
            rest
        }
    }
}

/// The estimate of the moves left for a state with faces `s`: by its key where it has
/// one, else zero.
pub open spec fn heuristic(tables: Seq<Map<u128, u8>>, s: Seq<Seq<u8>>) -> nat {
    if all_fit(s) {
        estimate(tables, (pack(flat(s)) % key_modulus()) as u128)
    } else {
        0
    }
}

/// Where each table's entry for a key is at most `d`, so is the estimate: an estimate
/// built from lower bounds on the moves needed is itself a lower bound.
pub proof fn lemma_admissible(tables: Seq<Map<u128, u8>>, key: u128, d: nat)
    requires
        forall|i: int| 0 <= i < tables.len() && #[trigger] tables[i].contains_key(key) ==> tables[i][key] <= d,
    ensures
        estimate(tables, key) <= d,
    decreases tables.len(),
{
    if tables.len() > 0 {
        let init = tables.drop_last();
        assert forall|i: int| 0 <= i < init.len() && #[trigger] init[i].contains_key(key) implies init[i][key] <= d by {
            assert(init[i] == tables[i]);
        }
        lemma_admissible(init, key, d);
        assert(tables.last() == tables[tables.len() - 1]);
    }
}

/// With tables built by the breadth-first enumeration, which hold each key at its exact
/// distance, the estimate of a key is at most the number of moves of any sequence that
/// reaches it from the solved state.
pub proof fn lemma_exact_tables_admissible(turns: Seq<Turn>, tables: Seq<Map<u128, u8>>, key: u128, n: nat)
    requires
        forall|i: int, k: u128|
            0 <= i < tables.len() && #[trigger] tables[i].contains_key(k) ==> is_distance(turns, k as nat, tables[i][k] as nat),
        within(turns, key as nat, n),
    ensures
        estimate(tables, key) <= n,
{
    assert forall|i: int| 0 <= i < tables.len() && #[trigger] tables[i].contains_key(key) implies tables[i][key] <= n by {
        let d = tables[i][key] as nat;
        assert(is_distance(turns, key as nat, d));
        if d > n {
            lemma_within_monotone(turns, key as nat, n, (d - 1) as nat);
        }
    }
    lemma_admissible(tables, key, n);
}

pub fn h(tables: &Vec<KnownStates>, cube: &PuzzleType) -> (r: u8)
    ensures
        r == heuristic(table_views(tables@), cube.faces()),
{
    proof {
        lemma_fits_faces(*cube);
    }
    if !cube.fits_in_key() {
        return 0;
    }
    let key = cube.return_state();
    let ghost views = table_views(tables@);
    let mut best: u8 = 0;
    let mut i: usize = 0;
    while i < tables.len()
        invariant
            i <= tables.len(),
            views == table_views(tables@),
            best == estimate(views.take(i as int), key),
        decreases tables.len() - i,
    {
        proof {
            assert(views.take(i + 1).drop_last() =~= views.take(i as int));
        }
        match tables[i].depth_of(key) {
            Some(d) => {
                if d > best {
                    best = d;
                }
            },
            None => {},
        }
        i = i + 1;
    }
    proof {
        assert(views.take(tables.len() as int) =~= views);
    }
    best
}

/// A node of the search: a puzzle and the indices of the moves that led to it.
pub struct Node {
    pub cube: PuzzleType,
    pub path: Vec<usize>,
}

impl Node {
    pub fn new(cube: PuzzleType, path: Vec<usize>) -> (r: Self)
        ensures
            r.cube == cube,
            r.path == path,
    {
        Self { cube, path }
    }
}

/// The moves that the indices of `path` name.
pub open spec fn tokens_of(moves: Seq<Seq<char>>, path: Seq<usize>) -> Seq<Seq<char>> {
    path.map_values(|i: usize| moves[i as int])
}

/// `node` is reached from `start` by its path, no longer than `bound`, of indices of
/// `moves`, in which no move follows one that prunes it.
pub open spec fn node_ok(node: Node, start: PuzzleType, moves: Seq<Seq<char>>, bound: nat) -> bool {
    &&& same_kind(start, node.cube)
    &&& node.cube.faces() == replay(start, start.faces(), tokens_of(moves, node.path@))
    &&& node.path@.len() <= bound
    &&& forall|j: int| 0 <= j < node.path@.len() ==> #[trigger] node.path@[j] < moves.len()
    &&& forall|j: int| 1 <= j < node.path@.len() ==> !pruned(moves[#[trigger] node.path@[j] as int], moves[node.path@[j - 1] as int])
}

/// An upper bound on the nodes that a node `r` moves short of the bound can still lead to,
/// itself included, with `b` moves to try at each.
pub open spec fn weight(b: nat, r: nat) -> nat
    decreases r,
{
    if r == 0 {
        1
    } else {
        1 + b * weight(b, (r - 1) as nat)
    }
}

/// The work left for the nodes of a stack.
pub open spec fn stack_weight(stack: Seq<Node>, b: nat, bound: nat) -> nat
    decreases stack.len(),
{
    if stack.len() == 0 {
        0
    } else {
        stack_weight(stack.drop_last(), b, bound) + weight(b, (bound - stack.last().path@.len()) as nat)
    }
}

/// The state that the first `k` moves of path `p` make of `start`.
pub open spec fn state_after(start: PuzzleType, moves: Seq<Seq<char>>, p: Seq<usize>, k: int) -> Seq<Seq<u8>> {
    replay(start, start.faces(), tokens_of(moves, p.take(k)))
}

/// Each prefix of `p` up to `p.take(j)` has moves plus estimate within `bound`.
pub open spec fn prefix_within(
    tables: Seq<Map<u128, u8>>,
    start: PuzzleType,
    moves: Seq<Seq<char>>,
    p: Seq<usize>,
    j: int,
    bound: nat,
) -> bool {
    forall|i: int| 0 <= i <= j ==> i + heuristic(tables, #[trigger] state_after(start, moves, p, i)) <= bound
}

/// `p` is a sequence of indices of `moves` with no move pruned after the one before,
/// which solves `start`, and along which the estimate never exceeds the moves left.
pub open spec fn good_path(tables: Seq<Map<u128, u8>>, start: PuzzleType, moves: Seq<Seq<char>>, p: Seq<usize>) -> bool {
    &&& forall|j: int| 0 <= j < p.len() ==> #[trigger] p[j] < moves.len()
    &&& forall|j: int| 1 <= j < p.len() ==> !pruned(moves[#[trigger] p[j] as int], moves[p[j - 1] as int])
    &&& state_after(start, moves, p, p.len() as int) == start.solved_faces()
    &&& forall|k: int| 0 <= k <= p.len() ==> heuristic(tables, #[trigger] state_after(start, moves, p, k)) + k <= p.len()
}

/// Some node of `stack` stands at a prefix of `p` that the bound admits.
pub open spec fn on_stack(
    stack: Seq<Node>,
    tables: Seq<Map<u128, u8>>,
    start: PuzzleType,
    moves: Seq<Seq<char>>,
    p: Seq<usize>,
    bound: nat,
) -> bool {
    exists|t: int|
        0 <= t < stack.len() && (#[trigger] stack[t]).path@.len() <= p.len() && stack[t].path@ == p.take(
            stack[t].path@.len() as int,
        ) && prefix_within(tables, start, moves, p, stack[t].path@.len() as int, bound)
}

proof fn lemma_on_stack_grows(
    s1: Seq<Node>,
    s2: Seq<Node>,
    tables: Seq<Map<u128, u8>>,
    start: PuzzleType,
    moves: Seq<Seq<char>>,
    p: Seq<usize>,
    bound: nat,
)
    requires
        s1.len() <= s2.len(),
        forall|t: int| 0 <= t < s1.len() ==> s2[t] == s1[t],
        on_stack(s1, tables, start, moves, p, bound),
    ensures
        on_stack(s2, tables, start, moves, p, bound),
{
    let t = choose|t: int|
        0 <= t < s1.len() && (#[trigger] s1[t]).path@.len() <= p.len() && s1[t].path@ == p.take(
            s1[t].path@.len() as int,
        ) && prefix_within(tables, start, moves, p, s1[t].path@.len() as int, bound);
    assert(s2[t] == s1[t]);
}

proof fn lemma_state_step(start: PuzzleType, moves: Seq<Seq<char>>, p: Seq<usize>, k: int)
    requires
        0 <= k < p.len(),
    ensures
        state_after(start, moves, p, k + 1) == after_kind(start, state_after(start, moves, p, k), seq![moves[p[k] as int]]),
{
    let t = tokens_of(moves, p.take(k + 1));
    assert(p.take(k + 1).drop_last() =~= p.take(k));
    assert(t.drop_last() =~= tokens_of(moves, p.take(k)));
    assert(t.last() == moves[p[k] as int]);
}

proof fn lemma_kind_rules(a: PuzzleType, b: PuzzleType, s: Seq<Seq<u8>>, m: Seq<Seq<char>>)
    requires
        same_kind(a, b),
    ensures
        after_kind(a, s, m) == after_kind(b, s, m),
        a.solved_faces() == b.solved_faces(),
{
}

fn apply_move(cube: &PuzzleType, m: &String) -> (r: PuzzleType)
    ensures
        moved(*cube, r, seq![m@]),
{
    let mut c = *cube;
    let single = vec![m.clone()];
    assert(texts(single@) =~= seq![m@]);
    let _ = c.input_move_list(&single);
    c
}

/// Searches for a sequence of at most `ceiling` of `moves` that solves `cube`, deepening
/// the bound on moves plus estimate from the estimate of `cube` to the least estimate
/// that exceeded the bound before.
///
/// Whenever some sequence of at most `ceiling` of `moves`, with no move pruned after the
/// one before and with the estimate never above the moves left along it, solves `cube`,
/// the search succeeds with a sequence no longer than it; `NoSolution` therefore means
/// that no such sequence exists.
#[allow(non_snake_case)]
pub fn IDAStar(cube: &PuzzleType, moves: &Vec<String>, tables: &Vec<KnownStates>, ceiling: u32) -> (r: Result<Vec<String>, SolveError>)
    requires
        forall|i: int| 0 <= i < moves.len() ==> (#[trigger] moves[i])@.len() > 0,
    ensures
        r is Ok ==> r->Ok_0.len() <= ceiling,
        r is Ok ==> replay(*cube, cube.faces(), texts(r->Ok_0@)) == cube.solved_faces(),
        r is Ok ==> forall|j: int| 0 <= j < r->Ok_0.len() ==> exists|i: int| 0 <= i < moves.len() && (
            #[trigger] r->Ok_0@[j])@ == moves@[i]@,
        r is Ok ==> forall|j: int| 1 <= j < r->Ok_0.len() ==> !pruned((#[trigger] r->Ok_0@[j])@, r->Ok_0@[j - 1]@),
        cube.faces() == cube.solved_faces() && heuristic(table_views(tables@), cube.faces()) == 0 ==> r is Ok
            && r->Ok_0.len() == 0,
        forall|p: Seq<usize>| #[trigger] good_path(table_views(tables@), *cube, texts(moves@), p) && p.len() <= ceiling
            ==> r is Ok && r->Ok_0.len() <= p.len(),
{
    let ghost ms = texts(moves@);
    let ghost b = moves.len() as nat;
    let ghost tv = table_views(tables@);
    let mut next_bound: u64 = h(tables, cube) as u64;
    let ghost h0 = next_bound as nat;
    proof {
        assert forall|p: Seq<usize>| #[trigger] good_path(tv, *cube, ms, p) && p.len() <= ceiling implies next_bound <= p.len() by {
            assert(tokens_of(ms, p.take(0)) =~= Seq::<Seq<char>>::empty());
            assert(state_after(*cube, ms, p, 0) == cube.faces());
        }
    }
    if next_bound == 0 && cube.is_solved() {
        let none: Vec<String> = Vec::new();
        proof {
            assert(texts(none@) =~= Seq::<Seq<char>>::empty());
        }
        return Ok(none);
    }
    while next_bound <= ceiling as u64
        invariant
            !(cube.faces() == cube.solved_faces() && heuristic(table_views(tables@), cube.faces()) == 0),
            ms == texts(moves@),
            b == moves.len(),
            tv == table_views(tables@),
            h0 == heuristic(tv, cube.faces()),
            h0 <= next_bound,
            forall|p: Seq<usize>| #[trigger] good_path(tv, *cube, ms, p) && p.len() <= ceiling ==> next_bound <= p.len(),
            forall|i: int| 0 <= i < moves.len() ==> (#[trigger] moves[i])@.len() > 0,
        decreases (ceiling as int + 1) - if next_bound > ceiling as u64 {
            ceiling as int + 1
        } else {
            next_bound as int
        },
    {
        let bound = next_bound;
        next_bound = u64::MAX;
        let mut stack: Vec<Node> = Vec::new();
        stack.push(Node::new(*cube, Vec::new()));
        proof {
            assert(tokens_of(ms, Seq::<usize>::empty()) =~= Seq::<Seq<char>>::empty());
            assert(stack@.drop_last() =~= Seq::<Node>::empty());
            assert forall|p: Seq<usize>| #[trigger] good_path(tv, *cube, ms, p) && p.len() <= ceiling implies on_stack(
                stack@,
                tv,
                *cube,
                ms,
                p,
                bound as nat,
            ) by {
                assert(p.take(0) =~= Seq::<usize>::empty());
                assert(tokens_of(ms, p.take(0)) =~= Seq::<Seq<char>>::empty());
                assert(state_after(*cube, ms, p, 0) == cube.faces());
                assert(stack@[0].path@ =~= p.take(0));
                assert(prefix_within(tv, *cube, ms, p, 0, bound as nat));
            }
        }
        while stack.len() > 0
            invariant
                !(cube.faces() == cube.solved_faces() && heuristic(table_views(tables@), cube.faces()) == 0),
                ms == texts(moves@),
                b == moves.len(),
                bound <= ceiling,
                next_bound > bound,
                tv == table_views(tables@),
                h0 == heuristic(tv, cube.faces()),
                h0 <= bound,
                forall|p: Seq<usize>| #[trigger] good_path(tv, *cube, ms, p) && p.len() <= ceiling ==> bound <= p.len(),
                forall|p: Seq<usize>| #[trigger] good_path(tv, *cube, ms, p) && p.len() <= ceiling ==> on_stack(stack@, tv, *cube, ms, p, bound as nat) || next_bound <= p.len(),
                forall|i: int| 0 <= i < moves.len() ==> (#[trigger] moves[i])@.len() > 0,
                forall|j: int| 0 <= j < stack@.len() ==> node_ok(#[trigger] stack@[j], *cube, ms, bound as nat),
            decreases stack_weight(stack@, b, bound as nat),
        {
            let ghost before = stack@;
            let node = stack.pop().unwrap();
            proof {
                assert(before.drop_last() =~= stack@);
                assert(node == before[before.len() - 1]);
                assert(node_ok(node, *cube, ms, bound as nat));
                assert forall|j: int| 0 <= j < stack@.len() implies node_ok(#[trigger] stack@[j], *cube, ms, bound as nat) by {
                    assert(stack@[j] == before[j]);
                }
            }
            let depth = node.path.len();
            if depth as u64 == bound && node.cube.is_solved() {
                {
                    let mut result: Vec<String> = Vec::new();
                    let mut k: usize = 0;
                    while k < depth
                        invariant
                                !(cube.faces() == cube.solved_faces() && heuristic(table_views(tables@), cube.faces()) == 0),
                            ms == texts(moves@),
                            tv == table_views(tables@),
                            depth == bound,
                            forall|p: Seq<usize>| #[trigger] good_path(tv, *cube, ms, p) && p.len() <= ceiling ==> bound <= p.len(),
                            depth == node.path@.len(),
                            k <= depth,
                            node_ok(node, *cube, ms, bound as nat),
                            texts(result@) == tokens_of(ms, node.path@.take(k as int)),
                            result@.len() == k,
                        decreases depth - k,
                    {
                        let ghost before_result = result@;
                        let index = node.path[k];
                        let m = moves[index].clone();
                        result.push(m);
                        proof {
                            assert(index < moves.len());
                            assert(result@ == before_result.push(moves@[index as int]));
                            assert(ms[index as int] == moves@[index as int]@);
                            assert(tokens_of(ms, node.path@.take(k + 1))[k as int] == ms[index as int]);
                            assert forall|j: int| 0 <= j < k implies texts(result@)[j] == tokens_of(ms, node.path@.take(k + 1))[j] by {
                                assert(result@[j] == before_result[j]);
                                assert(texts(before_result)[j] == tokens_of(ms, node.path@.take(k as int))[j]);
                                assert(node.path@.take(k as int)[j] == node.path@.take(k + 1)[j]);
                            }
                        }
                        proof {
                            assert(texts(result@) =~= tokens_of(ms, node.path@.take(k + 1)));
                        }
                        k = k + 1;
                    }
                    proof {
                        assert(node.path@.take(depth as int) =~= node.path@);
                        lemma_kind_rules(*cube, node.cube, cube.faces(), seq![]);
                        assert forall|j: int| 0 <= j < result.len() implies exists|i: int| 0 <= i < moves.len() && (
                            #[trigger] result@[j])@ == moves@[i]@ by {
                            let i = node.path@[j] as int;
                            assert(texts(result@)[j] == ms[i]);
                        }
                        assert forall|j: int| 1 <= j < result.len() implies !pruned((#[trigger] result@[j])@, result@[j - 1]@) by {
                            assert(texts(result@)[j] == ms[node.path@[j] as int]);
                            assert(texts(result@)[j - 1] == ms[node.path@[j - 1] as int]);
                            assert(!pruned(ms[node.path@[j] as int], ms[node.path@[j - 1] as int]));
                        }
                    }
                    return Ok(result);
                }
            }
            {
                let ghost nb0 = next_bound;
                let mut queue = new_queue();
                let ghost r = (bound - depth) as nat;
                let mut i: usize = 0;
                while i < moves.len()
                    invariant
                        ms == texts(moves@),
                        b == moves.len(),
                        i <= moves.len(),
                        depth <= bound,
                        queue_entries(queue).dom().len() > 0 ==> depth < bound,
                        bound <= ceiling,
                        next_bound > bound,
                        depth == node.path@.len(),
                        node_ok(node, *cube, ms, bound as nat),
                        forall|i: int| 0 <= i < moves.len() ==> (#[trigger] moves[i])@.len() > 0,
                        queue_entries(queue).dom().finite(),
                        queue_entries(queue).dom().len() <= i,
                        forall|k: usize| #[trigger] queue_entries(queue).contains_key(k) ==> k < i,
                        tv == table_views(tables@),
                        next_bound <= nb0,
                        forall|p: Seq<usize>| #[trigger] good_path(tv, *cube, ms, p) && p.len() <= ceiling && node.path@ == p.take(depth as int) && depth < p.len() && prefix_within(tv, *cube, ms, p, depth as int, bound as nat) && p[depth as int] < i
                            ==> (queue_entries(queue).contains_key(p[depth as int]) && prefix_within(
                            tv,
                            *cube,
                            ms,
                            p,
                            depth + 1,
                            bound as nat,
                        )) || next_bound <= p.len(),
                        forall|k: usize| #[trigger] queue_entries(queue).contains_key(k) && depth > 0 ==> !pruned(
                            ms[k as int],
                            ms[node.path@[depth - 1] as int],
                        ),
                    decreases moves.len() - i,
                {
                    let ghost q_old = queue_entries(queue);
                    let ghost nb_old = next_bound;
                    let ghost mut child_faces: Seq<Seq<u8>> = Seq::empty();
                    let ghost mut est: nat = 0;
                    let keep = if depth == 0 {
                        true
                    } else {
                        let last = node.path[depth - 1];
                        proof {
                            assert(last < moves.len());
                            assert(ms[i as int] == moves@[i as int]@);
                            assert(ms[last as int] == moves@[last as int]@);
                        }
                        !prune(moves[i].as_str(), moves[last].as_str())
                    };
                    proof {
                        if depth > 0 {
                            assert(keep == !pruned(ms[i as int], ms[node.path@[depth - 1] as int]));
                        }
                    }
                    if keep {
                        let child = apply_move(&node.cube, &moves[i]);
                        let estimated = depth as u64 + 1 + h(tables, &child) as u64;
                        proof {
                            child_faces = child.faces();
                            est = estimated as nat;
                            lemma_kind_rules(node.cube, *cube, node.cube.faces(), seq![ms[i as int]]);
                            assert(ms[i as int] == moves@[i as int]@);
                        }
                        if estimated <= bound {
                            proof {
                                assert(!queue_entries(queue).contains_key(i));
                            }
                            queue_push(&mut queue, i, estimated);
                        } else if estimated < next_bound {
                            next_bound = estimated;
                        }
                    }
                    proof {
                        assert forall|p: Seq<usize>| #[trigger] good_path(tv, *cube, ms, p) && p.len() <= ceiling && node.path@ == p.take(depth as int) && depth < p.len() && prefix_within(tv, *cube, ms, p, depth as int, bound as nat) && p[depth as int] < i + 1
                            implies (queue_entries(queue).contains_key(p[depth as int]) && prefix_within(
                            tv,
                            *cube,
                            ms,
                            p,
                            depth + 1,
                            bound as nat,
                        )) || next_bound <= p.len() by {
                            if p[depth as int] == i {
                                if depth > 0 {
                                    assert(node.path@[depth - 1] == p[depth - 1]);
                                }
                                assert(keep);
                                lemma_state_step(*cube, ms, p, depth as int);
                                assert(node.cube.faces() == state_after(*cube, ms, p, depth as int));
                                assert(child_faces == state_after(*cube, ms, p, depth + 1));
                                assert(heuristic(tv, state_after(*cube, ms, p, depth + 1)) + depth + 1 <= p.len());
                                if est <= bound {
                                    assert forall|j: int| 0 <= j <= depth + 1 implies j + heuristic(
                                        tv,
                                        #[trigger] state_after(*cube, ms, p, j),
                                    ) <= bound by {
                                        if j <= depth {
                                            assert(prefix_within(tv, *cube, ms, p, depth as int, bound as nat));
                                        }
                                    }
                                }
                            } else {
                                if q_old.contains_key(p[depth as int]) {
                                    assert(queue_entries(queue).contains_key(p[depth as int]));
                                }
                            }
                        }
                    }
                    i = i + 1;
                }
                let ghost rest_weight = stack_weight(stack@, b, bound as nat);
                let ghost rest = stack@;
                proof {
                    assert(stack_weight(before, b, bound as nat) == rest_weight + weight(b, r));
                    if r > 0 {
                        assert(weight(b, r) == 1 + b * weight(b, (r - 1) as nat));
                    }
                    let l = queue_entries(queue).dom().len();
                    let w = weight(b, (r - 1) as nat);
                    assert(l * w <= b * w) by (nonlinear_arith)
                        requires
                            l <= b,
                    ;
                }
                loop
                    invariant
                        ms == texts(moves@),
                        b == moves.len(),
                        depth <= bound,
                        queue_entries(queue).dom().len() > 0 ==> depth < bound,
                        r == 0 ==> stack_weight(stack@, b, bound as nat) == rest_weight,
                        bound <= ceiling,
                        next_bound > bound,
                        depth == node.path@.len(),
                        r == bound - depth,
                        node_ok(node, *cube, ms, bound as nat),
                        forall|i: int| 0 <= i < moves.len() ==> (#[trigger] moves[i])@.len() > 0,
                        forall|j: int| 0 <= j < stack@.len() ==> node_ok(#[trigger] stack@[j], *cube, ms, bound as nat),
                        queue_entries(queue).dom().finite(),
                        forall|k: usize| #[trigger] queue_entries(queue).contains_key(k) ==> k < moves.len(),
                        forall|k: usize| #[trigger] queue_entries(queue).contains_key(k) && depth > 0 ==> !pruned(
                            ms[k as int],
                            ms[node.path@[depth - 1] as int],
                        ),
                        stack_weight(stack@, b, bound as nat) + queue_entries(queue).dom().len() * weight(b, (r - 1) as nat)
                            <= rest_weight + b * weight(b, (r - 1) as nat),
                        tv == table_views(tables@),
                        next_bound <= nb0,
                        rest.len() <= stack@.len(),
                        forall|t: int| 0 <= t < rest.len() ==> stack@[t] == rest[t],
                        forall|p: Seq<usize>| #[trigger] good_path(tv, *cube, ms, p) && p.len() <= ceiling && node.path@ == p.take(depth as int) && depth < p.len() && prefix_within(tv, *cube, ms, p, depth as int, bound as nat) ==> (queue_entries(queue).contains_key(p[depth as int]) && prefix_within(
                            tv,
                            *cube,
                            ms,
                            p,
                            depth + 1,
                            bound as nat,
                        )) || next_bound <= p.len() || on_stack(stack@, tv, *cube, ms, p, bound as nat),
                    ensures
                        next_bound <= nb0,
                        rest.len() <= stack@.len(),
                        forall|t: int| 0 <= t < rest.len() ==> stack@[t] == rest[t],
                        forall|p: Seq<usize>| #[trigger] good_path(tv, *cube, ms, p) && p.len() <= ceiling && node.path@ == p.take(depth as int) && depth < p.len() && prefix_within(tv, *cube, ms, p, depth as int, bound as nat) ==> (queue_entries(queue).contains_key(p[depth as int]) && prefix_within(
                            tv,
                            *cube,
                            ms,
                            p,
                            depth + 1,
                            bound as nat,
                        )) || next_bound <= p.len() || on_stack(stack@, tv, *cube, ms, p, bound as nat),
                        forall|k: usize| !(#[trigger] queue_entries(queue).contains_key(k)),
                        stack_weight(stack@, b, bound as nat) <= rest_weight + b * weight(b, (r - 1) as nat),
                        r == 0 ==> stack_weight(stack@, b, bound as nat) == rest_weight,
                        forall|j: int| 0 <= j < stack@.len() ==> node_ok(#[trigger] stack@[j], *cube, ms, bound as nat),
                    decreases queue_entries(queue).dom().len(),
                {
                    let ghost old_queue = queue_entries(queue);
                    match queue_pop(&mut queue) {
                        None => {
                            proof {
                                assert(old_queue.dom().len() == 0);
                                assert forall|k: usize| !(#[trigger] queue_entries(queue).contains_key(k)) by {
                                    assert(!old_queue.dom().contains(k));
                                }
                            }
                            break;
                        },
                        Some((m, _)) => {
                            proof {
                                assert(old_queue.dom().contains(m));
                                assert(old_queue.dom().len() > 0);
                            }
                            let child = apply_move(&node.cube, &moves[m]);
                            let mut path = node.path.clone();
                            path.push(m);
                            let ghost before_push = stack@;
                            let next = Node::new(child, path);
                            proof {
                                let tp = tokens_of(ms, next.path@);
                                assert(next.path@ =~= node.path@.push(m));
                                assert(tp.drop_last() =~= tokens_of(ms, node.path@));
                                assert(tp.last() == ms[m as int]);
                                lemma_kind_rules(node.cube, *cube, node.cube.faces(), seq![ms[m as int]]);
                                assert(ms[m as int] == moves@[m as int]@);
                                assert(old_queue.contains_key(m));
                                assert forall|j: int| 1 <= j < next.path@.len() implies !pruned(
                                    ms[#[trigger] next.path@[j] as int],
                                    ms[next.path@[j - 1] as int],
                                ) by {
                                    if j < next.path@.len() - 1 {
                                        assert(next.path@[j] == node.path@[j]);
                                        assert(next.path@[j - 1] == node.path@[j - 1]);
                                    }
                                }
                                assert(node_ok(next, *cube, ms, bound as nat));
                            }
                            stack.push(next);
                            proof {
                                assert(stack@.drop_last() =~= before_push);
                                assert forall|j: int| 0 <= j < stack@.len() implies node_ok(#[trigger] stack@[j], *cube, ms, bound as nat) by {
                                    if j < before_push.len() {
                                        assert(stack@[j] == before_push[j]);
                                    }
                                }
                                let l = old_queue.dom().len();
                                let w = weight(b, (r - 1) as nat);
                                assert(queue_entries(queue).dom() =~= old_queue.dom().remove(m));
                                assert(queue_entries(queue).dom().len() == l - 1);
                                assert forall|p: Seq<usize>| #[trigger] good_path(tv, *cube, ms, p) && p.len() <= ceiling && node.path@ == p.take(depth as int) && depth < p.len() && prefix_within(tv, *cube, ms, p, depth as int, bound as nat)
                                    implies (queue_entries(queue).contains_key(p[depth as int]) && prefix_within(
                                    tv,
                                    *cube,
                                    ms,
                                    p,
                                    depth + 1,
                                    bound as nat,
                                )) || next_bound <= p.len() || on_stack(stack@, tv, *cube, ms, p, bound as nat) by {
                                    if m == p[depth as int] && old_queue.contains_key(m) && prefix_within(tv, *cube, ms, p, depth + 1, bound as nat) {
                                        let t = stack@.len() - 1;
                                        assert(stack@[t] == next);
                                        assert(next.path@ =~= p.take(depth + 1));
                                    } else if old_queue.contains_key(p[depth as int]) && prefix_within(tv, *cube, ms, p, depth + 1, bound as nat) {
                                        assert(queue_entries(queue).contains_key(p[depth as int]));
                                    } else if on_stack(before_push, tv, *cube, ms, p, bound as nat) {
                                        lemma_on_stack_grows(before_push, stack@, tv, *cube, ms, p, bound as nat);
                                    }
                                }
                                assert((l - 1) * w + w == l * w) by (nonlinear_arith)
                                    requires
                                        l >= 1,
                                ;
                            }
                        },
                    }
                }
                proof {
                    assert forall|p: Seq<usize>| #[trigger] good_path(tv, *cube, ms, p) && p.len() <= ceiling implies on_stack(
                        stack@,
                        tv,
                        *cube,
                        ms,
                        p,
                        bound as nat,
                    ) || next_bound <= p.len() by {
                        if !(nb0 <= p.len()) {
                            assert(on_stack(before, tv, *cube, ms, p, bound as nat));
                            let t = choose|t: int|
                                0 <= t < before.len() && (#[trigger] before[t]).path@.len() <= p.len() && before[t].path@
                                    == p.take(before[t].path@.len() as int) && prefix_within(
                                    tv,
                                    *cube,
                                    ms,
                                    p,
                                    before[t].path@.len() as int,
                                    bound as nat,
                                );
                            if t < before.len() - 1 {
                                assert(rest[t] == before[t]);
                                assert(on_stack(rest, tv, *cube, ms, p, bound as nat));
                                lemma_on_stack_grows(rest, stack@, tv, *cube, ms, p, bound as nat);
                            } else {
                                assert(before[t] == node);
                                assert(node.cube.faces() == state_after(*cube, ms, p, depth as int));
                                if depth == p.len() {
                                    lemma_kind_rules(*cube, node.cube, cube.faces(), seq![]);
                                    assert(p.take(depth as int) =~= p);
                                    assert(node.cube.faces() == node.cube.solved_faces());
                                    assert(depth + heuristic(tv, state_after(*cube, ms, p, depth as int)) <= bound);
                                    assert(false);
                                }
                            }
                        }
                    }
                }
            }
        }
    }
    Err(SolveError::NoSolution { ceiling })
}

} // verus!
