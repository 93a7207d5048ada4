//! Scrambles: random walks over a puzzle's moves that never turn the same pair of
//! opposite layers twice in a row.
use crate::models::PuzzleType;
use vstd::prelude::*;
use vstd::string::{StrSliceExecFns, StringExecFns};

verus! {

/// The moves of each kind of puzzle, in rows of the turns of one layer, each move followed
/// by a space; rows `2g` and `2g + 1` turn opposite layers.
pub open spec fn move_table(puzzle: PuzzleType) -> Seq<Seq<Seq<char>>> {
    match puzzle {
        PuzzleType::RubiksCube(_) | PuzzleType::RubiksCube2x2(_) => seq![
            seq!["U "@, "U' "@, "U2 "@],
            seq!["D "@, "D' "@, "D2 "@],
            seq!["R "@, "R' "@, "R2 "@],
            seq!["L "@, "L' "@, "L2 "@],
            seq!["F "@, "F' "@, "F2 "@],
            seq!["B "@, "B' "@, "B2 "@],
        ],
        PuzzleType::Skewb(_) | PuzzleType::Ivy(_) => seq![
            seq!["U "@, "U' "@, "U2 "@],
            seq!["R "@, "R' "@, "R2 "@],
            seq!["L "@, "L' "@, "L2 "@],
            seq!["F "@, "F' "@, "F2 "@],
        ],
        PuzzleType::Pyraminx(_) => seq![
            seq!["D "@, "D' "@, "D2 "@],
            seq!["R "@, "R' "@, "R2 "@],
            seq!["L "@, "L' "@, "L2 "@],
            seq!["F "@, "F' "@, "F2 "@],
        ],
        PuzzleType::Megaminx(_) => seq![
            seq!["U "@, "U' "@, "U2 "@, "U3 "@],
            seq!["F "@, "F' "@, "F2 "@, "F3 "@],
            seq!["R "@, "R' "@, "R2 "@, "R3 "@],
            seq!["B "@, "B' "@, "B2 "@, "B3 "@],
            seq!["V "@, "V' "@, "V2 "@, "V3 "@],
            seq!["L "@, "L' "@, "L2 "@, "L3 "@],
            seq!["P "@, "P' "@, "P2 "@, "P3 "@],
            seq!["G "@, "G' "@, "G2 "@, "G3 "@],
            seq!["O "@, "O' "@, "O2 "@, "O3 "@],
            seq!["S "@, "S' "@, "S2 "@, "S3 "@],
            seq!["J "@, "J' "@, "J2 "@, "J3 "@],
            seq!["D "@, "D' "@, "D2 "@, "D3 "@],
        ],
    }
}

/// The text of each move of each row.
pub open spec fn table_texts(t: Seq<Vec<&str>>) -> Seq<Seq<Seq<char>>> {
    t.map_values(|row: Vec<&str>| row@.map_values(|m: &str| m@))
}

pub fn get_array_size_for_puzzle(puzzle: &PuzzleType) -> (r: Vec<Vec<&'static str>>)
    ensures
        table_texts(r@) == move_table(*puzzle),
{
    let r = match puzzle {
        PuzzleType::RubiksCube(_) | PuzzleType::RubiksCube2x2(_) => vec![
            vec!["U ", "U' ", "U2 "],
            vec!["D ", "D' ", "D2 "],
            vec!["R ", "R' ", "R2 "],
            vec!["L ", "L' ", "L2 "],
            vec!["F ", "F' ", "F2 "],
            vec!["B ", "B' ", "B2 "],
        ],
        PuzzleType::Skewb(_) | PuzzleType::Ivy(_) => vec![
            vec!["U ", "U' ", "U2 "],
            vec!["R ", "R' ", "R2 "],
            vec!["L ", "L' ", "L2 "],
            vec!["F ", "F' ", "F2 "],
        ],
        PuzzleType::Pyraminx(_) => vec![
            vec!["D ", "D' ", "D2 "],
            vec!["R ", "R' ", "R2 "],
            vec!["L ", "L' ", "L2 "],
            vec!["F ", "F' ", "F2 "],
        ],
        PuzzleType::Megaminx(_) => vec![
            vec!["U ", "U' ", "U2 ", "U3 "],
            vec!["F ", "F' ", "F2 ", "F3 "],
            vec!["R ", "R' ", "R2 ", "R3 "],
            vec!["B ", "B' ", "B2 ", "B3 "],
            vec!["V ", "V' ", "V2 ", "V3 "],
            vec!["L ", "L' ", "L2 ", "L3 "],
            vec!["P ", "P' ", "P2 ", "P3 "],
            vec!["G ", "G' ", "G2 ", "G3 "],
            vec!["O ", "O' ", "O2 ", "O3 "],
            vec!["S ", "S' ", "S2 ", "S3 "],
            vec!["J ", "J' ", "J2 ", "J3 "],
            vec!["D ", "D' ", "D2 ", "D3 "],
        ],
    };
    assert(table_texts(r@) =~~= move_table(*puzzle));
    r
}

proof fn lemma_table_shape(puzzle: PuzzleType)
    ensures
        4 <= move_table(puzzle).len() <= 12,
        forall|r: int| 0 <= r < move_table(puzzle).len() ==> (#[trigger] move_table(puzzle)[r]).len() >= 3,
{
    let t = move_table(puzzle);
    assert forall|r: int| 0 <= r < t.len() implies (#[trigger] t[r]).len() >= 3 by {
        match puzzle {
            PuzzleType::Megaminx(_) => {
                assert(t[r].len() == 4);
            },
            _ => {
                assert(t[r].len() == 3);
            },
        }
    }
}

/// How many rows a step may choose from when the step before turned the pair `prev`.
pub open spec fn row_count(rows: nat, prev: nat) -> nat {
    if 2 * prev + 2 <= rows {
        (rows - 2) as nat
    } else {
        rows
    }
}

/// The `k`th row, in order, outside the pair `prev`.
pub open spec fn pick_row(rows: nat, prev: nat, k: nat) -> nat {
    if 2 * prev + 2 <= rows && k >= 2 * prev {
        k + 2
    } else {
        k
    }
}

/// The moves that `draws` choose, one per draw, after a step that turned the pair `prev`:
/// the first number of a draw picks a row outside that pair, the second a move of the row,
/// each modulo the number of choices.
pub open spec fn walk(table: Seq<Seq<Seq<char>>>, draws: Seq<(usize, usize)>, prev: nat) -> Seq<char>
    decreases draws.len(),
{
    if draws.len() == 0 {
        Seq::empty()
    } else {
        let rows = table.len();
        let row = pick_row(rows, prev, draws[0].0 as nat % row_count(rows, prev));
        let col = draws[0].1 as nat % table[row as int].len();
        table[row as int][col as int] + walk(table, draws.drop_first(), row / 2)
    }
}

/// The scramble that `draws` choose for `puzzle`: the moves of the walk that starts as if
/// after the third pair, without the last space.
pub open spec fn scramble_text(puzzle: PuzzleType, draws: Seq<(usize, usize)>) -> Seq<char> {
    let w = walk(move_table(puzzle), draws, 2);
    if w.len() == 0 {
        w
    } else {
        w.drop_last()
    }
}

/// Writes the scramble that `draws` choose for `puzzle`.
pub fn scramble_from(puzzle: &PuzzleType, draws: &Vec<(usize, usize)>) -> (r: String)
    ensures
        r@ == scramble_text(*puzzle, draws@),
{
    let available_moves = get_array_size_for_puzzle(puzzle);
    let ghost table = move_table(*puzzle);
    let rows = available_moves.len();
    let mut scramble = String::new();
    let mut previous_move: usize = 2;
    let mut i: usize = 0;
    proof {
        assert(draws@.subrange(0, draws@.len() as int) =~= draws@);
        lemma_table_shape(*puzzle);
    }
    while i < draws.len()
        invariant
            table == move_table(*puzzle),
            table_texts(available_moves@) == table,
            rows == table.len(),
            4 <= rows <= 12,
            forall|r: int| 0 <= r < rows ==> (#[trigger] table[r]).len() >= 3,
            previous_move <= 5,
            i <= draws.len(),
            scramble@ + walk(table, draws@.subrange(i as int, draws@.len() as int), previous_move as nat)
                == walk(table, draws@, 2),
        decreases draws.len() - i,
    {
        let (a, b) = draws[i];
        let count = if 2 * previous_move + 2 <= rows {
            rows - 2
        } else {
            rows
        };
        let k = a % count;
        let row = if 2 * previous_move + 2 <= rows && k >= 2 * previous_move {
            k + 2
        } else {
            k
        };
        proof {
            assert(available_moves@[row as int]@.len() == table[row as int].len());
        }
        let col = b % available_moves[row].len();
        let ghost rest = draws@.subrange(i as int, draws@.len() as int);
        proof {
            assert(rest[0] == draws@[i as int]);
            assert(rest.drop_first() =~= draws@.subrange(i + 1, draws@.len() as int));
            assert(table[row as int][col as int] == available_moves@[row as int]@[col as int]@);
        }
        scramble.append(available_moves[row][col]);
        previous_move = row / 2;
        i = i + 1;
    }
    proof {
        assert(draws@.subrange(i as int, draws@.len() as int) =~= Seq::<(usize, usize)>::empty());
    }
    let n = scramble.as_str().unicode_len();
    if n == 0 {
        scramble
    } else {
        let trimmed = scramble.as_str().substring_char(0, n - 1);
        proof {
            assert(trimmed@ =~= scramble@.drop_last());
        }
        String::from_str(trimmed)
    }
}

/// Relies on `rand::thread_rng` and `Rng::gen_range`: a number below `bound`, drawn at
/// random.
#[verifier::external_body]
fn random_below(bound: usize) -> (r: usize)
    requires
        bound > 0,
    ensures
        r < bound,
{
    rand::Rng::gen_range(&mut rand::thread_rng(), 0..bound)
}

/// A random scramble of `n` moves for `puzzle`: each number drawn is below sixty, a
/// multiple of every number of choices, so that every choice is equally likely.
pub fn generate_scramble(n: u16, puzzle: &PuzzleType) -> (r: String)
    ensures
        exists|draws: Seq<(usize, usize)>| draws.len() == n && r@ == scramble_text(*puzzle, draws),
{
    let mut draws: Vec<(usize, usize)> = Vec::new();
    let mut i: u16 = 0;
    while i < n
        invariant
            i <= n,
            draws@.len() == i,
        decreases n - i,
    {
        let a = random_below(60);
        let b = random_below(60);
        draws.push((a, b));
        i = i + 1;
    }
    scramble_from(puzzle, &draws)
}

} // verus!
