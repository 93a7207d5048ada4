use cube_solver::codec::{decode, encode};
use cube_solver::lehmer_code::{lexicogrpahic_order, return_index, unrank};

#[test]
fn encode_packs_three_bits_per_label() {
    let state = [[1u8, 2], [3, 7]];
    assert_eq!(encode(&state), 0b001_010_011_111);
}

#[test]
fn decode_inverts_encode() {
    let state = [[0u8, 1, 2, 3, 4, 5, 6, 7, 0], [3u8, 3, 2, 1, 0, 1, 2, 3, 1], [2u8; 9], [7u8; 9]];
    let key = encode(&state);
    let back: [[u8; 9]; 4] = decode(key);
    assert_eq!(back, state);
}

#[test]
fn identity_ranks_first() {
    assert_eq!(lexicogrpahic_order(&vec![0, 1, 2, 3]), 1);
}

#[test]
fn last_permutation_ranks_last() {
    assert_eq!(lexicogrpahic_order(&vec![3, 2, 1, 0]), 24);
}

#[test]
fn unrank_inverts_rank() {
    assert_eq!(unrank(1, 4), vec![0, 1, 2, 3]);
    assert_eq!(unrank(24, 4), vec![3, 2, 1, 0]);
    for i in 1u64..=120 {
        let p = unrank(i, 5);
        assert_eq!(lexicogrpahic_order(&p), i);
    }
}

#[test]
fn corner_index_combines_both_ranks() {
    assert_eq!(return_index(1, 0), 2187);
    assert_eq!(return_index(2, 5), 4379);
    assert_eq!(return_index(40320, 2186), 88_182_026);
    assert_eq!(return_index(lexicogrpahic_order(&vec![7, 6, 5, 4, 3, 2, 1, 0]), 0), 40320 * 2187);
}
