use cube_solver::known_states::KnownStates;
use cube_solver::models::pyraminx::{Pyraminx, Tips, Turn};
use cube_solver::models::rubiks_cube::RubiksCube;
use cube_solver::models::{Puzzle, PuzzleType};
use cube_solver::pattern_database::{generate_db, generate_db_with, process_moves, BuildError};
use cube_solver::solver::{get_opposite_layer, h, prune, IDAStar, SolveError};

fn cube_moves() -> Vec<String> {
    let mut moves = Vec::new();
    for face in ["U", "D", "R", "L", "F", "B"] {
        for suffix in ["", "'", "2"] {
            moves.push(format!("{face}{suffix}"));
        }
    }
    moves
}

fn replays_to_solved(start: &PuzzleType, solution: &[String]) -> bool {
    let mut p = *start;
    for m in solution {
        p.input_moves(m);
    }
    p.is_solved()
}

#[test]
fn solved_cube_with_ceiling_zero_needs_no_moves() {
    let cube = PuzzleType::RubiksCube(RubiksCube::default());
    let r = IDAStar(&cube, &cube_moves(), &Vec::new(), 0);
    assert!(matches!(r, Ok(ref s) if s.is_empty()));
}

#[test]
fn one_move_scramble_is_solved_in_one_move() {
    let mut cube = PuzzleType::RubiksCube(RubiksCube::default());
    cube.input_moves("R");
    match IDAStar(&cube, &cube_moves(), &Vec::new(), 3) {
        Ok(solution) => {
            assert_eq!(solution.len(), 1);
            assert!(replays_to_solved(&cube, &solution));
        }
        Err(_) => panic!("no solution"),
    }
}

#[test]
fn two_move_scramble_is_solved_in_at_most_two_moves() {
    let mut cube = PuzzleType::RubiksCube(RubiksCube::default());
    cube.input_moves("R U");
    match IDAStar(&cube, &cube_moves(), &Vec::new(), 2) {
        Ok(solution) => {
            assert!(solution.len() <= 2);
            assert!(replays_to_solved(&cube, &solution));
        }
        Err(_) => panic!("no solution"),
    }
}

#[test]
fn too_low_a_ceiling_finds_nothing() {
    let mut cube = PuzzleType::RubiksCube(RubiksCube::default());
    cube.input_moves("R U");
    assert!(matches!(IDAStar(&cube, &cube_moves(), &Vec::new(), 1), Err(SolveError::NoSolution { ceiling: 1 })));
}

#[test]
fn opposite_layers_pair_up() {
    assert_eq!(get_opposite_layer('U'), Some('D'));
    assert_eq!(get_opposite_layer('L'), Some('R'));
    assert_eq!(get_opposite_layer('F'), Some('B'));
    assert_eq!(get_opposite_layer('X'), None);
}

#[test]
fn pruning_rejects_same_and_opposite_layer() {
    assert!(prune("R'", "R2"));
    assert!(prune("L", "R"));
    assert!(!prune("U", "R"));
    assert!(!prune("R", ""));
}

#[test]
fn heuristic_takes_the_largest_table_entry() {
    let mut cube = PuzzleType::Pyraminx(Pyraminx::default());
    cube.input_moves("R");
    let key = cube.return_state();
    let mut a = KnownStates::new();
    a.add_known_state(key, 1);
    let mut b = KnownStates::new();
    b.add_known_state(key, 3);
    assert_eq!(h(&vec![a, b], &cube), 3);
    assert_eq!(h(&Vec::new(), &cube), 0);
}

#[test]
fn first_depth_recorded_stays() {
    let mut known = KnownStates::new();
    known.add_known_state(42, 2);
    known.add_known_state(42, 5);
    assert_eq!(known.depth_of(42), Some(2));
    assert!(known.state_known(42));
    assert!(!known.state_known(43));
    assert_eq!(known.len(), 1);
}

#[test]
fn successors_of_solved_are_new_states() {
    let solved = Pyraminx::default().return_state();
    let mut known = KnownStates::new();
    known.add_known_state(solved, 0);
    let next = process_moves(&known, solved);
    assert_eq!(next.len(), 24);
    let none = process_moves(&known, solved);
    assert!(none.len() <= 24);
    assert!(next.iter().all(|&k| k != solved));
    let mut one = Pyraminx::default();
    one.input_moves("R");
    assert!(next.contains(&one.return_state()));
}

#[test]
fn known_successors_are_left_out() {
    let solved = Pyraminx::default().return_state();
    let mut one = Pyraminx::default();
    one.input_moves("T");
    let mut known = KnownStates::new();
    known.add_known_state(one.return_state(), 1);
    let next = process_moves(&known, solved);
    assert_eq!(next.len(), 23);
    assert!(!next.contains(&one.return_state()));
}

#[test]
fn build_stops_at_the_state_limit() {
    assert!(matches!(generate_db(0), Err(BuildError::ResourceExhausted { depth: 0, states: 0 })));
    assert!(matches!(generate_db(1000), Err(BuildError::ResourceExhausted { states: 1000, .. })));
}

#[test]
fn opposite_layer_pair_is_not_solved_in_two_pruned_moves() {
    // U D is undone by U' D', which turns opposite layers one after the other: the pruning
    // rule keeps the search from finding that two-move solution.
    let mut cube = PuzzleType::RubiksCube(RubiksCube::default());
    cube.input_moves("U D");
    assert!(IDAStar(&cube, &cube_moves(), &Vec::new(), 2).is_err());
    let mut undone = cube;
    undone.input_moves("U' D'");
    assert!(undone.is_solved());
}

#[test]
fn pattern_table_guides_the_search() {
    let mut pyraminx = Pyraminx::default();
    pyraminx.input_moves("R");
    let cube = PuzzleType::Pyraminx(pyraminx);
    let mut table = KnownStates::new();
    table.add_known_state(cube.return_state(), 1);
    let moves = vec!["R".to_string(), "R'".to_string(), "L".to_string(), "L'".to_string()];
    match IDAStar(&cube, &moves, &vec![table], 1) {
        Ok(solution) => {
            assert_eq!(solution, vec!["R'".to_string()]);
        }
        Err(_) => panic!("no solution"),
    }
}

#[test]
fn tip_projection_table_holds_every_state_at_its_distance() {
    let mut tips = Vec::new();
    for tip in [Tips::Top, Tips::Right, Tips::Left, Tips::Back] {
        tips.push(Turn::Tip(tip, 1));
        tips.push(Turn::Tip(tip, 2));
    }
    let (table, counts) = match generate_db_with(&tips, 1000) {
        Ok(built) => built,
        Err(_) => panic!("the tip states fit"),
    };
    assert_eq!(table.len(), 81);
    assert_eq!(counts, vec![1, 9, 33, 65, 81, 81]);
    // Each tip turns on its own: a state's distance is the number of tips out of place.
    let letters = ["T", "E", "K", "B"];
    for code in 0..81u32 {
        let mut p = Pyraminx::default();
        let mut moved = 0u8;
        let mut c = code;
        for letter in letters {
            let turns = c % 3;
            c /= 3;
            if turns > 0 {
                moved += 1;
            }
            for _ in 0..turns {
                p.input_moves(letter);
            }
        }
        assert_eq!(table.depth_of(p.return_state()), Some(moved));
    }
}
