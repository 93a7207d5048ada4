use cube_solver::lehmer_code::lexicogrpahic_order;
use cube_solver::menu::{menu_step, MenuKey, MenuStep};
use cube_solver::models::pyraminx::Pyraminx;
use cube_solver::models::rubiks_cube::RubiksCube;
use cube_solver::models::PuzzleType;
use cube_solver::scramble_generator::{generate_scramble, get_array_size_for_puzzle, scramble_from};

#[test]
fn move_table_has_a_row_per_layer() {
    let cube = PuzzleType::RubiksCube(RubiksCube::default());
    let table = get_array_size_for_puzzle(&cube);
    assert_eq!(table.len(), 6);
    assert_eq!(table[2], vec!["R ", "R' ", "R2 "]);
    let pyraminx = PuzzleType::Pyraminx(Pyraminx::default());
    assert_eq!(get_array_size_for_puzzle(&pyraminx)[0], vec!["D ", "D' ", "D2 "]);
}

#[test]
fn draws_pick_rows_outside_the_last_pair() {
    let cube = PuzzleType::RubiksCube(RubiksCube::default());
    // The first step may not use rows 4 and 5; the second not rows 0 and 1.
    assert_eq!(scramble_from(&cube, &vec![(0, 0), (0, 1), (3, 2)]), "U R' B2");
    assert_eq!(scramble_from(&cube, &vec![]), "");
}

#[test]
fn scramble_has_the_asked_length_and_no_repeated_pair() {
    let cube = PuzzleType::RubiksCube(RubiksCube::default());
    let s = generate_scramble(30, &cube);
    let moves: Vec<&str> = s.split(' ').collect();
    assert_eq!(moves.len(), 30);
    let pair = |m: &str| match m.chars().next().unwrap() {
        'U' | 'D' => 0,
        'R' | 'L' => 1,
        _ => 2,
    };
    for w in moves.windows(2) {
        assert_ne!(pair(w[0]), pair(w[1]));
    }
}

#[test]
fn menu_wraps_at_both_ends() {
    assert!(matches!(menu_step(0, 10, MenuKey::Up), MenuStep::Highlight(9)));
    assert!(matches!(menu_step(9, 10, MenuKey::Down), MenuStep::Highlight(0)));
    assert!(matches!(menu_step(3, 10, MenuKey::Down), MenuStep::Highlight(4)));
    assert!(matches!(menu_step(3, 10, MenuKey::Enter), MenuStep::Choose(3)));
    assert!(matches!(menu_step(3, 10, MenuKey::Other), MenuStep::Highlight(3)));
}

#[test]
fn ranks_of_all_orderings_are_distinct_and_dense() {
    let mut ranks = Vec::new();
    for a in 0u8..4 {
        for b in 0u8..4 {
            for c in 0u8..4 {
                for d in 0u8..4 {
                    let p = vec![a, b, c, d];
                    let mut q = p.clone();
                    q.sort();
                    q.dedup();
                    if q.len() == 4 {
                        ranks.push(lexicogrpahic_order(&p));
                    }
                }
            }
        }
    }
    ranks.sort();
    assert_eq!(ranks, (1..=24).collect::<Vec<u64>>());
}

#[test]
fn rank_of_second_ordering() {
    assert_eq!(lexicogrpahic_order(&vec![0, 1, 3, 2]), 2);
    assert_eq!(lexicogrpahic_order(&vec![1, 0, 2, 3]), 7);
    assert_eq!(lexicogrpahic_order(&vec![]), 1);
}
