use cube_solver::models::ivy::Ivy;
use cube_solver::models::megaminx::Megaminx;
use cube_solver::models::pyraminx::Pyraminx;
use cube_solver::models::rubiks_cube::RubiksCube;
use cube_solver::models::rubiks_cube_2x2::RubiksCube2x2;
use cube_solver::models::skewb::Skewb;
use cube_solver::models::{Faces, Puzzle, PuzzleType, UnknownMove};

#[test]
fn faces_number_in_order() {
    assert_eq!(Faces::White.to_number(), 0);
    assert_eq!(Faces::Yellow.to_number(), 5);
    assert_eq!(cube_solver::models::megaminx::Faces::Gray.to_number(), 11);
    assert_eq!(cube_solver::models::pyraminx::Faces::Yellow.to_number(), 3);
}

#[test]
fn two_by_two_right_turn_moves_the_right_stickers() {
    let mut cube = RubiksCube2x2::default();
    cube.input_moves("R");
    assert_eq!(
        cube.state,
        [[0, 1, 1, 0], [1, 5, 5, 1], [2, 2, 2, 2], [0, 3, 3, 0], [4, 4, 4, 4], [5, 3, 3, 5]]
    );
    assert!(!cube.is_solved());
}

#[test]
fn quarter_turn_four_times_is_identity() {
    for face in ["U", "D", "R", "L", "F", "B"] {
        let mut cube = RubiksCube::default();
        cube.input_moves(&format!("{face} {face} {face} {face}"));
        assert!(cube.is_solved(), "{face}");
    }
}

#[test]
fn prime_undoes_turn() {
    let mut cube = RubiksCube::default();
    cube.input_moves("R U F' D2 L B");
    assert!(!cube.is_solved());
    cube.input_moves("B' L' D2 F U' R'");
    assert!(cube.is_solved());
}

#[test]
fn moves_are_read_in_either_case() {
    let mut a = RubiksCube::default();
    let mut b = RubiksCube::default();
    a.input_moves("r u'");
    b.input_moves("R U'");
    assert_eq!(a.state, b.state);
}

#[test]
fn unknown_move_stops_the_rest() {
    let mut a = RubiksCube::default();
    let mut b = RubiksCube::default();
    assert_eq!(a.input_moves("R X U"), Err(UnknownMove { index: 1 }));
    assert_eq!(b.input_moves("R"), Ok(()));
    assert_eq!(a.state, b.state);
    let mut p = PuzzleType::Pyraminx(Pyraminx::default());
    assert_eq!(p.input_moves("T U"), Err(UnknownMove { index: 1 }));
    assert_eq!(p.input_moves("t k' b2"), Ok(()));
}

#[test]
fn empty_input_changes_nothing() {
    let mut cube = RubiksCube2x2::default();
    cube.input_moves("");
    assert!(cube.is_solved());
}

#[test]
fn megaminx_fifth_turn_five_times_is_identity() {
    let mut m = Megaminx::default();
    m.input_moves("U U U U U");
    assert!(m.is_solved());
    m.input_moves("R");
    assert!(!m.is_solved());
    m.input_moves("R'");
    assert!(m.is_solved());
}

#[test]
fn pyraminx_face_and_tip_turns_have_order_three() {
    let mut p = Pyraminx::default();
    p.input_moves("R R R");
    assert!(p.is_solved());
    p.input_moves("T");
    assert!(!p.is_solved());
    p.input_moves("T'");
    assert!(p.is_solved());
    p.input_moves("L D' B E K");
    assert!(!p.is_solved());
}

#[test]
fn skewb_turn_three_times_is_identity() {
    let mut s = Skewb::default();
    s.input_moves("F");
    assert!(!s.is_solved());
    s.input_moves("F F");
    assert!(s.is_solved());
}

#[test]
fn ivy_turn_and_prime_cancel() {
    let mut i = Ivy::default();
    i.input_moves("U");
    assert!(!i.is_solved());
    i.input_moves("U'");
    assert!(i.is_solved());
}

#[test]
fn move_list_applies_tokens_in_order() {
    let mut a = RubiksCube::default();
    let mut b = RubiksCube::default();
    a.input_move_list(&vec!["R".to_string(), "U".to_string()]);
    b.input_moves("R U");
    assert_eq!(a.state, b.state);
}

#[test]
fn puzzle_type_dispatches_to_its_puzzle() {
    let mut p = PuzzleType::Skewb(Skewb::default());
    assert!(p.is_solved());
    p.input_moves("U");
    assert!(!p.is_solved());
    assert!(p.fits_in_key());
    let key = p.return_state();
    p.input_moves("U'");
    assert!(p.is_solved());
    assert_ne!(key, p.return_state());
}

#[test]
fn megaminx_labels_do_not_fit_a_key() {
    let p = PuzzleType::Megaminx(Megaminx::default());
    assert!(!p.fits_in_key());
}

#[test]
fn solved_pyraminx_key() {
    assert_eq!(Pyraminx::default().return_state(), 345407379606236713301723);
}

#[test]
fn cube_net_places_centres_and_stickers() {
    let mut cube = RubiksCube::default();
    let net = cube.net();
    assert_eq!(net[1][4], 0);
    assert_eq!(net[0][3], 0);
    assert_eq!(net[4][7], 2);
    assert_eq!(net[0][0], cube_solver::models::NO_STICKER);
    cube.input_moves("U");
    let turned = cube.net();
    assert_eq!(turned[3][0], 1);
    assert_eq!(turned[1][4], 0);
}

#[test]
fn pyraminx_net_shows_every_sticker_once() {
    let net = Pyraminx::default().net();
    let shown = net.iter().flatten().filter(|&&c| c != cube_solver::models::NO_STICKER).count();
    assert_eq!(shown, 36);
    assert_eq!(net[0][15], 0);
    assert_eq!(net[10][15], 3);
}

#[test]
fn megaminx_net_shows_centres_and_stickers() {
    let net = Megaminx::default().net();
    let shown = net.iter().flatten().filter(|&&c| c != cube_solver::models::NO_STICKER).count();
    assert_eq!(shown, 132);
    assert_eq!(net[10][37], 10);
    assert_eq!(net[10][47], 9);
}
