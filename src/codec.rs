//! Packing of a puzzle's sticker labels into one 128-bit canonical key, and back.
use vstd::arithmetic::div_mod::{lemma_add_mod_noop, lemma_div_denominator, lemma_fundamental_div_mod_converse, lemma_mul_mod_noop_left, lemma_small_mod};
use vstd::prelude::*;

verus! {

/// The number of distinct keys: one more than `u128::MAX`.
pub open spec fn key_modulus() -> nat {
    0x1_0000_0000_0000_0000_0000_0000_0000_0000nat
}

/// `8` to the power `n`.
pub open spec fn pow8(n: nat) -> nat
    decreases n,
{
    if n == 0 {
        1
    } else {
        8 * pow8((n - 1) as nat)
    }
}

/// A state as a sequence of faces, each a sequence of piece labels.
pub open spec fn grid<const F: usize, const P: usize>(a: [[u8; P]; F]) -> Seq<Seq<u8>> {
    Seq::new(F as nat, |f: int| a[f]@)
}

/// Every label of `a` fits in three bits.
pub open spec fn labels_fit<const F: usize, const P: usize>(a: [[u8; P]; F]) -> bool {
    forall|f: int, p: int| 0 <= f < F && 0 <= p < P ==> a[f][p] <= 7
}

/// The faces laid end to end, face-major.
pub open spec fn flat(s: Seq<Seq<u8>>) -> Seq<u8>
    decreases s.len(),
{
    if s.len() == 0 {
        Seq::empty()
    } else {
        flat(s.drop_last()) + s.last()
    }
}

/// The labels read as the digits of a base-8 number, most significant first.
pub open spec fn pack(labels: Seq<u8>) -> nat
    decreases labels.len(),
{
    if labels.len() == 0 {
        0
    } else {
        pack(labels.drop_last()) * 8 + labels.last() as nat
    }
}

/// The last `n` base-8 digits of `key`, most significant first.
pub open spec fn digits(key: nat, n: nat) -> Seq<u8>
    decreases n,
{
    if n == 0 {
        Seq::empty()
    } else {
        digits(key / 8, (n - 1) as nat).push((key % 8) as u8)
    }
}

/// `key` with its last `n` base-8 digits dropped.
pub open spec fn above(key: nat, n: nat) -> nat {
    key / pow8(n)
}

/// The state of `faces` faces of `pieces` labels each that `key` holds in its low
/// `3 * faces * pieces` bits: the last face in the last digits.
pub open spec fn unpack(key: nat, faces: nat, pieces: nat) -> Seq<Seq<u8>>
    decreases faces,
{
    if faces == 0 {
        Seq::empty()
    } else {
        unpack(above(key, pieces), (faces - 1) as nat, pieces).push(digits(key, pieces))
    }
}

/// The canonical key of a state: its labels, three bits each, face-major, the first
/// label in the most significant bits. Bits beyond the 128th are dropped.
pub open spec fn key_of<const F: usize, const P: usize>(a: [[u8; P]; F]) -> nat {
    pack(flat(grid(a))) % key_modulus()
}

proof fn lemma_pow8_positive(n: nat)
    ensures
        pow8(n) > 0,
    decreases n,
{
    if n > 0 {
        lemma_pow8_positive((n - 1) as nat);
    }
}

proof fn lemma_pow8_adds(a: nat, b: nat)
    ensures
        pow8(a + b) == pow8(a) * pow8(b),
    decreases b,
{
    if b > 0 {
        let c = (b - 1) as nat;
        lemma_pow8_adds(a, c);
        let x = pow8(a);
        let y = pow8(c);
        assert(pow8(a + c) == x * y);
        assert(a + b == (a + c) + 1);
        assert(pow8(a + b) == 8 * pow8(a + c));
        assert(pow8(b) == 8 * y);
        assert(x * (8 * y) == 8 * (x * y)) by (nonlinear_arith);
    } else {
        assert(pow8(0) == 1);
        assert(a + b == a);
    }
}

proof fn lemma_pack_bound(labels: Seq<u8>)
    requires
        forall|i: int| 0 <= i < labels.len() ==> labels[i] <= 7,
    ensures
        pack(labels) < pow8(labels.len()),
    decreases labels.len(),
{
    if labels.len() > 0 {
        let init = labels.drop_last();
        lemma_pack_bound(init);
        let a = pack(init);
        let b = pow8(init.len());
        assert(a * 8 + 7 < b * 8) by (nonlinear_arith)
            requires
                a < b,
        ;
    }
}

proof fn lemma_pack_concat(x: Seq<u8>, y: Seq<u8>)
    ensures
        pack(x + y) == pack(x) * pow8(y.len()) + pack(y),
    decreases y.len(),
{
    if y.len() == 0 {
        assert(x + y =~= x);
        assert(pow8(0) == 1);
        assert(pack(y) == 0);
    } else {
        let yi = y.drop_last();
        let xy = x + y;
        assert(xy.drop_last() =~= x + yi);
        assert(xy.last() == y.last());
        lemma_pack_concat(x, yi);
        let a = pack(x);
        let p = pow8(yi.len());
        let r = pack(yi);
        assert(pack(xy) == pack(x + yi) * 8 + y.last() as nat);
        assert(pack(y) == r * 8 + y.last() as nat);
        assert(pow8(y.len()) == 8 * p);
        assert((a * p + r) * 8 == a * (8 * p) + r * 8) by (nonlinear_arith);
    }
}

/// Reading back the last `labels.len()` digits of a number whose low digits are `labels`.
proof fn lemma_digits_pack(labels: Seq<u8>, high: nat)
    requires
        forall|i: int| 0 <= i < labels.len() ==> labels[i] <= 7,
    ensures
        digits(high * pow8(labels.len()) + pack(labels), labels.len()) == labels,
    decreases labels.len(),
{
    if labels.len() > 0 {
        let init = labels.drop_last();
        let n = init.len();
        let key = high * pow8(labels.len()) + pack(labels);
        let low = high * pow8(n) + pack(init);
        assert(key == low * 8 + labels.last() as nat) by {
            assert(high * (8 * pow8(n)) == (high * pow8(n)) * 8) by (nonlinear_arith);
        }
        lemma_fundamental_div_mod_converse(key as int, 8, low as int, labels.last() as int);
        lemma_digits_pack(init, high);
        assert(digits(key, labels.len()) =~= labels);
    }
}

proof fn lemma_unpack_flat(g: Seq<Seq<u8>>, pieces: nat, high: nat)
    requires
        forall|f: int| 0 <= f < g.len() ==> (#[trigger] g[f]).len() == pieces,
        forall|f: int, p: int| 0 <= f < g.len() && 0 <= p < pieces ==> g[f][p] <= 7,
    ensures
        unpack(high * pow8((g.len() * pieces) as nat) + pack(flat(g)), g.len(), pieces) == g,
    decreases g.len(),
{
    if g.len() > 0 {
        let init = g.drop_last();
        let last = g.last();
        let n = init.len();
        assert(flat(g) == flat(init) + last);
        lemma_pack_concat(flat(init), last);
        let lo = pack(flat(init));
        let key = high * pow8((g.len() * pieces) as nat) + pack(flat(g));
        let q = high * pow8((n * pieces) as nat) + lo;
        assert(g.len() * pieces == n * pieces + pieces) by (nonlinear_arith)
            requires
                g.len() == n + 1,
        ;
        lemma_pow8_adds((n * pieces) as nat, pieces);
        lemma_pow8_positive(pieces);
        assert(key == q * pow8(pieces) + pack(last)) by (nonlinear_arith)
            requires
                key == high * pow8((g.len() * pieces) as nat) + pack(flat(g)),
                pow8((g.len() * pieces) as nat) == pow8((n * pieces) as nat) * pow8(pieces),
                pack(flat(g)) == lo * pow8(pieces) + pack(last),
                q == high * pow8((n * pieces) as nat) + lo,
        ;
        lemma_pack_bound(last);
        lemma_fundamental_div_mod_converse(key as int, pow8(pieces) as int, q as int, pack(last) as int);
        lemma_unpack_flat(init, pieces, high);
        lemma_digits_pack(last, q);
        assert(unpack(key, g.len(), pieces) =~= g);
    }
}

/// Decoding a state's key gives back that state, for every state whose labels fit in
/// three bits and whose labels fill no more than the key's 128 bits.
pub proof fn lemma_round_trip<const F: usize, const P: usize>(a: [[u8; P]; F], b: [[u8; P]; F])
    requires
        F * P <= 42,
        labels_fit(a),
        grid(b) == unpack(key_of(a), F as nat, P as nat),
    ensures
        b == a,
{
    let g = grid(a);
    assert forall|f: int, p: int| 0 <= f < g.len() && 0 <= p < P implies g[f][p] <= 7 by {}
    let n = (F * P) as nat;
    assert(g.len() * P == n);
    lemma_flat_len(g, P as nat);
    lemma_flat_fits(g, P as nat);
    lemma_pack_bound(flat(g));
    lemma_pow8_fits_key(n);
    lemma_small_mod(pack(flat(g)), key_modulus());
    assert(0 * pow8(n) + pack(flat(g)) == pack(flat(g)));
    lemma_unpack_flat(g, P as nat, 0);
    assert forall|f: int| 0 <= f < F implies b[f] == a[f] by {
        assert(grid(b)[f] == grid(a)[f]);
        assert(b[f]@ =~= a[f]@);
    }
    assert(b@ =~= a@);
}

proof fn lemma_flat_fits(g: Seq<Seq<u8>>, pieces: nat)
    requires
        forall|f: int| 0 <= f < g.len() ==> (#[trigger] g[f]).len() == pieces,
        forall|f: int, p: int| 0 <= f < g.len() && 0 <= p < pieces ==> g[f][p] <= 7,
    ensures
        forall|i: int| 0 <= i < flat(g).len() ==> flat(g)[i] <= 7,
    decreases g.len(),
{
    if g.len() > 0 {
        let init = g.drop_last();
        assert forall|f: int, p: int| 0 <= f < init.len() && 0 <= p < pieces implies init[f][p] <= 7 by {
            assert(init[f] == g[f]);
        }
        lemma_flat_fits(init, pieces);
        assert forall|i: int| 0 <= i < flat(g).len() implies flat(g)[i] <= 7 by {
            if i >= flat(init).len() {
                assert(flat(g)[i] == g.last()[i - flat(init).len()]);
                assert(g.last() == g[g.len() - 1]);
            }
        }
    }
}

proof fn lemma_flat_len(g: Seq<Seq<u8>>, pieces: nat)
    requires
        forall|f: int| 0 <= f < g.len() ==> (#[trigger] g[f]).len() == pieces,
    ensures
        flat(g).len() == g.len() * pieces,
    decreases g.len(),
{
    if g.len() > 0 {
        lemma_flat_len(g.drop_last(), pieces);
        assert((g.len() - 1) * pieces + pieces == g.len() * pieces) by (nonlinear_arith);
    }
}

proof fn lemma_pow8_fits_key(n: nat)
    requires
        n <= 42,
    ensures
        pow8(n) < key_modulus(),
{
    reveal_with_fuel(pow8, 43);
    assert(pow8(42) == 0x4000_0000_0000_0000_0000_0000_0000_0000nat);
    lemma_pow8_monotone(n, 42);
}

proof fn lemma_pow8_monotone(a: nat, b: nat)
    requires
        a <= b,
    ensures
        pow8(a) <= pow8(b),
    decreases b,
{
    if a < b {
        lemma_pow8_monotone(a, (b - 1) as nat);
        lemma_pow8_positive((b - 1) as nat);
    }
}

proof fn lemma_shift_in(key: u128, piece: u8)
    requires
        piece <= 7,
    ensures
        ((key << 3u128) | (piece as u128)) as nat == (key as nat * 8 + piece as nat) % key_modulus(),
{
    let p = piece as u128;
    assert(p < 8);
    assert(((key << 3u128) | p) == ((key as int * 8 + p as int) % 0x1_0000_0000_0000_0000_0000_0000_0000_0000int)) by (bit_vector)
        requires
            p < 8,
    ;
}

/// The canonical key of a state.
pub fn encode<const F: usize, const P: usize>(state: &[[u8; P]; F]) -> (key: u128)
    requires
        labels_fit(*state),
    ensures
        key as nat == key_of(*state),
{
    let mut key: u128 = 0;
    let ghost g = grid(*state);
    for f in 0..F
        invariant
            g == grid(*state),
            labels_fit(*state),
            key as nat == pack(flat(g.take(f as int))) % key_modulus(),
    {
        for p in 0..P
            invariant
                g == grid(*state),
                labels_fit(*state),
                0 <= f < F,
                key as nat == pack(flat(g.take(f as int)) + g[f as int].take(p as int))
                    % key_modulus(),
        {
            let piece = state[f][p];
            let ghost before = flat(g.take(f as int)) + g[f as int].take(p as int);
            proof {
                lemma_shift_in(key, piece);
                let m = key_modulus() as int;
                lemma_mul_mod_noop_left(pack(before) as int, 8, m);
                lemma_add_mod_noop(pack(before) as int * 8, piece as int, m);
                lemma_add_mod_noop((pack(before) as int % m) * 8, piece as int, m);
                lemma_small_mod(piece as nat, key_modulus());
                assert(flat(g.take(f as int)) + g[f as int].take(p + 1) =~= before.push(piece));
                assert(before.push(piece).drop_last() =~= before);
            }
            key = (key << 3) | (piece as u128);
        }
        proof {
            assert(g[f as int].take(P as int) =~= g[f as int]);
            assert(g.take(f + 1).drop_last() =~= g.take(f as int));
        }
    }
    proof {
        assert(g.take(F as int) =~= g);
    }
    key
}

/// Row `i` of an unpacked key is the `pieces` digits that stand above the rows after it.
proof fn lemma_unpack_row(key: nat, faces: nat, pieces: nat, i: int)
    requires
        0 <= i < faces,
    ensures
        unpack(key, faces, pieces).len() == faces,
        unpack(key, faces, pieces)[i] == digits(above(key, ((faces - 1 - i) * pieces) as nat), pieces),
    decreases faces,
{
    lemma_unpack_len(key, faces, pieces);
    if i == faces - 1 {
        assert((faces - 1 - i) * pieces == 0) by (nonlinear_arith)
            requires
                i == faces - 1,
        ;
        assert(pow8(0) == 1);
        assert(key / 1 == key);
    } else {
        let k = (faces - 2 - i) as nat;
        lemma_unpack_row(above(key, pieces), (faces - 1) as nat, pieces, i);
        lemma_pow8_positive(pieces);
        lemma_pow8_positive(k * pieces);
        lemma_div_denominator(key as int, pow8(pieces) as int, pow8(k * pieces) as int);
        assert(k * pieces + pieces == (faces - 1 - i) * pieces) by (nonlinear_arith)
            requires
                k == faces - 2 - i,
        ;
        lemma_pow8_adds(pieces, k * pieces);
    }
}

proof fn lemma_unpack_len(key: nat, faces: nat, pieces: nat)
    ensures
        unpack(key, faces, pieces).len() == faces,
    decreases faces,
{
    if faces > 0 {
        lemma_unpack_len(above(key, pieces), (faces - 1) as nat, pieces);
    } else {
        assert(unpack(key, faces, pieces) == Seq::<Seq<u8>>::empty());
    }
}

/// An unpacked key has `faces` faces of `pieces` labels, each within three bits.
pub proof fn lemma_unpack_shape(key: nat, faces: nat, pieces: nat)
    ensures
        unpack(key, faces, pieces).len() == faces,
        forall|f: int| 0 <= f < faces ==> (#[trigger] unpack(key, faces, pieces)[f]).len() == pieces,
        forall|f: int, p: int| 0 <= f < faces && 0 <= p < pieces ==> unpack(key, faces, pieces)[f][p] <= 7,
{
    lemma_unpack_len(key, faces, pieces);
    assert forall|f: int| 0 <= f < faces implies (#[trigger] unpack(key, faces, pieces)[f]).len() == pieces
        && forall|p: int| 0 <= p < pieces ==> unpack(key, faces, pieces)[f][p] <= 7 by {
        lemma_unpack_row(key, faces, pieces, f);
        let v = above(key, ((faces - 1 - f) * pieces) as nat);
        lemma_digits_len(v, pieces);
        assert forall|p: int| 0 <= p < pieces implies unpack(key, faces, pieces)[f][p] <= 7 by {
            lemma_digit(v, pieces, p);
        }
    }
}

/// Digit `j` of the last `n` digits of `v`.
proof fn lemma_digit(v: nat, n: nat, j: int)
    requires
        0 <= j < n,
    ensures
        digits(v, n).len() == n,
        digits(v, n)[j] == (above(v, (n - 1 - j) as nat) % 8) as u8,
    decreases n,
{
    lemma_digits_len(v, n);
    if j == n - 1 {
        assert(pow8(0) == 1);
        assert(v / 1 == v);
    } else {
        lemma_digit(v / 8, (n - 1) as nat, j);
        let e = (n - 2 - j) as nat;
        lemma_pow8_positive(e);
        lemma_div_denominator(v as int, 8, pow8(e) as int);
    }
}

proof fn lemma_digits_len(v: nat, n: nat)
    ensures
        digits(v, n).len() == n,
    decreases n,
{
    if n > 0 {
        lemma_digits_len(v / 8, (n - 1) as nat);
    }
}

proof fn lemma_take_digit(value: u128)
    ensures
        (value & 7) as nat == value as nat % 8,
        (value >> 3u128) as nat == value as nat / 8,
{
    assert(value & 7 == value % 8) by (bit_vector);
    assert(value >> 3u128 == value / 8) by (bit_vector);
}

/// The state of `F` faces of `P` labels each that `key` holds.
pub fn decode<const F: usize, const P: usize>(key: u128) -> (state: [[u8; P]; F])
    ensures
        grid(state) == unpack(key as nat, F as nat, P as nat),
{
    let ghost target = unpack(key as nat, F as nat, P as nat);
    proof {
        lemma_unpack_len(key as nat, F as nat, P as nat);
        assert(pow8(0) == 1);
        assert(key as nat / 1 == key as nat);
        assert((F - F) * P == 0);
    }
    let mut state = [[0u8; P]; F];
    let mut value: u128 = key;
    let mut f: usize = F;
    while f > 0
        invariant
            f <= F,
            target == unpack(key as nat, F as nat, P as nat),
            target.len() == F,
            value as nat == above(key as nat, ((F - f) * P) as nat),
            forall|i: int| f <= i < F ==> #[trigger] grid(state)[i] == target[i],
        decreases f,
    {
        f = f - 1;
        let ghost v0 = value as nat;
        let ghost before = state;
        proof {
            lemma_digits_len(v0, P as nat);
            assert(pow8(0) == 1);
            assert(v0 / 1 == v0);
        }
        let mut p: usize = P;
        while p > 0
            invariant
                p <= P,
                f < F,
                value as nat == above(v0, (P - p) as nat),
                digits(v0, P as nat).len() == P,
                forall|i: int| 0 <= i < F && i != f ==> #[trigger] state[i] == before[i],
                forall|j: int| p <= j < P ==> #[trigger] state[f as int][j] == digits(v0, P as nat)[j],
            decreases p,
        {
            p = p - 1;
            proof {
                lemma_take_digit(value);
                lemma_digit(v0, P as nat, p as int);
                lemma_pow8_positive((P - p - 1) as nat);
                lemma_div_denominator(v0 as int, pow8((P - p - 1) as nat) as int, 8);
            }
            state[f][p] = (value & 7) as u8;
            value = value >> 3;
        }
        proof {
            lemma_digits_len(v0, P as nat);
            assert(state[f as int]@ =~= digits(v0, P as nat));
            lemma_unpack_row(key as nat, F as nat, P as nat, f as int);
            assert(((F - 1 - f) * P) as nat == ((F - (f + 1)) * P) as nat);
            let a = ((F - (f + 1)) * P) as nat;
            lemma_pow8_positive(a);
            lemma_pow8_positive(P as nat);
            lemma_div_denominator(key as int, pow8(a) as int, pow8(P as nat) as int);
            lemma_pow8_adds(a, P as nat);
            assert(a + P == (F - f) * P) by (nonlinear_arith)
                requires
                    a == (F - (f + 1)) * P,
            ;
            assert forall|i: int| f <= i < F implies #[trigger] grid(state)[i] == target[i] by {
                if i > f {
                    assert(grid(before)[i] == target[i]);
                    assert(state[i] == before[i]);
                    assert(grid(state)[i] == grid(before)[i]);
                } else {
                    assert(grid(state)[i] == state[f as int]@);
                    assert(target[i] == digits(v0, P as nat));
                }
            }
        }
    }
    proof {
        assert(grid(state) =~= target);
    }
    state
}

} // verus!
