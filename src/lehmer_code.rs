//! Ranking of permutations by their Lehmer code, and the inverse.
use vstd::arithmetic::div_mod::lemma_fundamental_div_mod_converse;
use vstd::multiset::Multiset;
use vstd::prelude::*;

verus! {

pub open spec fn factorial(n: nat) -> nat
    decreases n,
{
    if n == 0 {
        1
    } else {
        n * factorial((n - 1) as nat)
    }
}

/// How many labels of `rest` are smaller than `x`.
pub open spec fn smaller_count(rest: Seq<u8>, x: u8) -> nat
    decreases rest.len(),
{
    if rest.len() == 0 {
        0
    } else {
        smaller_count(rest.drop_last(), x) + if rest.last() < x {
            1nat
        } else {
            0nat
        }
    }
}

/// The Lehmer code of `s`: for each position, the number of later labels smaller than the
/// label there, weighted by the factorial of the number of later positions, summed.
pub open spec fn lehmer(s: Seq<u8>) -> nat
    decreases s.len(),
{
    if s.len() == 0 {
        0
    } else {
        smaller_count(s.drop_first(), s[0]) * factorial((s.len() - 1) as nat) + lehmer(s.drop_first())
    }
}

proof fn lemma_factorial_positive(n: nat)
    ensures
        factorial(n) >= 1,
    decreases n,
{
    if n > 0 {
        lemma_factorial_positive((n - 1) as nat);
        assert(n * factorial((n - 1) as nat) >= 1) by (nonlinear_arith)
            requires
                n >= 1,
                factorial((n - 1) as nat) >= 1,
        ;
    }
}

proof fn lemma_smaller_count_bound(rest: Seq<u8>, x: u8)
    ensures
        smaller_count(rest, x) <= rest.len(),
    decreases rest.len(),
{
    if rest.len() > 0 {
        lemma_smaller_count_bound(rest.drop_last(), x);
    }
}

/// The code of any sequence is below the factorial of its length.
pub proof fn lemma_lehmer_bound(s: Seq<u8>)
    ensures
        lehmer(s) < factorial(s.len()),
    decreases s.len(),
{
    if s.len() > 0 {
        let rest = s.drop_first();
        let n = rest.len();
        lemma_lehmer_bound(rest);
        lemma_smaller_count_bound(rest, s[0]);
        let c = smaller_count(rest, s[0]);
        let f = factorial(n);
        assert(c * f + f <= (n + 1) * f) by (nonlinear_arith)
            requires
                c <= n,
        ;
        assert(factorial(s.len()) == (n + 1) * f);
    }
}

/// How many labels of `m` are below `k`.
pub open spec fn count_below(m: Multiset<u8>, k: nat) -> nat
    decreases k,
{
    if k == 0 {
        0
    } else {
        count_below(m, (k - 1) as nat) + m.count((k - 1) as u8)
    }
}

/// Adding one label `a` to a multiset adds one to the count below every bound above `a`.
proof fn lemma_count_below_one_more(m: Multiset<u8>, n: Multiset<u8>, a: u8, k: nat)
    requires
        k <= 256,
        forall|y: u8| #[trigger] n.count(y) == m.count(y) + if y == a {
            1nat
        } else {
            0nat
        },
    ensures
        count_below(n, k) == count_below(m, k) + if (a as nat) < k {
            1nat
        } else {
            0nat
        },
    decreases k,
{
    if k > 0 {
        lemma_count_below_one_more(m, n, a, (k - 1) as nat);
        assert(n.count((k - 1) as u8) == m.count((k - 1) as u8) + if (k - 1) as u8 == a {
            1nat
        } else {
            0nat
        });
    }
}

proof fn lemma_count_below_monotone(m: Multiset<u8>, j: nat, k: nat)
    requires
        j <= k,
    ensures
        count_below(m, j) <= count_below(m, k),
    decreases k,
{
    if j < k {
        lemma_count_below_monotone(m, j, (k - 1) as nat);
    }
}

proof fn lemma_smaller_count_multiset(s: Seq<u8>, x: u8)
    ensures
        smaller_count(s, x) == count_below(s.to_multiset(), x as nat),
    decreases s.len(),
{
    broadcast use vstd::multiset::group_multiset_axioms;
    broadcast use vstd::seq_lib::to_multiset_build;

    if s.len() == 0 {
        assert forall|y: u8| #[trigger] s.to_multiset().count(y) == 0 by {
            vstd::seq_lib::to_multiset_contains(s, y);
        }
        lemma_count_below_zero(s.to_multiset(), x as nat);
    } else {
        let init = s.drop_last();
        lemma_smaller_count_multiset(init, x);
        assert(init.push(s.last()) =~= s);
        let m = init.to_multiset();
        let n = s.to_multiset();
        assert(n =~= m.insert(s.last()));
        lemma_count_below_one_more(m, n, s.last(), x as nat);
    }
}

proof fn lemma_count_below_zero(m: Multiset<u8>, k: nat)
    requires
        forall|y: u8| #[trigger] m.count(y) == 0,
    ensures
        count_below(m, k) == 0,
    decreases k,
{
    broadcast use vstd::multiset::group_multiset_axioms;

    if k > 0 {
        lemma_count_below_zero(m, (k - 1) as nat);
    }
}

/// The first label's digit counts the labels of the whole ordering below it.
proof fn lemma_first_digit(s: Seq<u8>)
    requires
        s.len() > 0,
    ensures
        smaller_count(s.drop_first(), s[0]) == count_below(s.to_multiset(), s[0] as nat),
        s.drop_first().to_multiset() == s.to_multiset().remove(s[0]),
{
    broadcast use vstd::multiset::group_multiset_axioms;
    broadcast use vstd::seq_lib::to_multiset_remove;

    assert(s.remove(0) =~= s.drop_first());
    let m = s.drop_first().to_multiset();
    let n = s.to_multiset();
    assert(n.count(s[0]) > 0) by {
        vstd::seq_lib::to_multiset_contains(s, s[0]);
        assert(s.contains(s[0]));
    }
    lemma_smaller_count_multiset(s.drop_first(), s[0]);
    lemma_count_below_one_more(m, n, s[0], s[0] as nat);
}

/// Two orderings without repeats of the same labels that have the same Lehmer code are the
/// same ordering: ranking is one to one, and with `lemma_lehmer_bound` it maps the
/// orderings of `n` labels into `0 .. n!`.
pub proof fn lemma_lehmer_injective(s: Seq<u8>, t: Seq<u8>)
    requires
        s.no_duplicates(),
        t.no_duplicates(),
        s.to_multiset() == t.to_multiset(),
        lehmer(s) == lehmer(t),
    ensures
        s == t,
    decreases s.len(),
{
    broadcast use vstd::multiset::group_multiset_axioms;
    broadcast use vstd::seq_lib::to_multiset_len;

    vstd::seq_lib::to_multiset_len(s);
    vstd::seq_lib::to_multiset_len(t);
    assert(s.len() == t.len());
    if s.len() == 0 {
        assert(s =~= t);
    } else {
        let n = s.len();
        let ts = s.drop_first();
        let tt = t.drop_first();
        let f = factorial((n - 1) as nat);
        lemma_factorial_positive((n - 1) as nat);
        lemma_lehmer_bound(ts);
        lemma_lehmer_bound(tt);
        let cs = smaller_count(ts, s[0]);
        let ct = smaller_count(tt, t[0]);
        lemma_fundamental_div_mod_converse(lehmer(s) as int, f as int, cs as int, lehmer(ts) as int);
        lemma_fundamental_div_mod_converse(lehmer(t) as int, f as int, ct as int, lehmer(tt) as int);
        assert(cs == ct);
        lemma_first_digit(s);
        lemma_first_digit(t);
        let m = s.to_multiset();
        if s[0] != t[0] {
            assert(m.count(s[0]) > 0) by {
                vstd::seq_lib::to_multiset_contains(s, s[0]);
                assert(s.contains(s[0]));
            }
            assert(m.count(t[0]) > 0) by {
                vstd::seq_lib::to_multiset_contains(t, t[0]);
                assert(t.contains(t[0]));
            }
            if s[0] < t[0] {
                lemma_count_below_step(m, s[0], t[0]);
            } else {
                lemma_count_below_step(m, t[0], s[0]);
            }
        }
        assert(ts.no_duplicates());
        assert(tt.no_duplicates());
        lemma_lehmer_injective(ts, tt);
        assert(s =~= seq![s[0]] + ts);
        assert(t =~= seq![t[0]] + tt);
    }
}

proof fn lemma_count_below_step(m: Multiset<u8>, a: u8, b: u8)
    requires
        a < b,
        m.count(a) > 0,
    ensures
        count_below(m, b as nat) > count_below(m, a as nat),
{
    assert(count_below(m, (a + 1) as nat) == count_below(m, a as nat) + m.count(a));
    lemma_count_below_monotone(m, (a + 1) as nat, b as nat);
}

proof fn lemma_factorial_20(n: nat)
    requires
        n <= 20,
    ensures
        factorial(n) <= 2432902008176640000,
    decreases 20 - n,
{
    if n < 20 {
        lemma_factorial_20((n + 1) as nat);
        lemma_factorial_positive(n);
        assert(factorial(n) <= (n + 1) * factorial(n)) by (nonlinear_arith)
            requires
                factorial(n) >= 1,
        ;
    } else {
        assert(factorial(0) == 1);
        assert(factorial(1) == 1);
        assert(factorial(2) == 2);
        assert(factorial(3) == 6);
        assert(factorial(4) == 24);
        assert(factorial(5) == 120);
        assert(factorial(6) == 720);
        assert(factorial(7) == 5040);
        assert(factorial(8) == 40320);
        assert(factorial(9) == 362880);
        assert(factorial(10) == 3628800);
        assert(factorial(11) == 39916800);
        assert(factorial(12) == 479001600);
        assert(factorial(13) == 6227020800);
        assert(factorial(14) == 87178291200);
        assert(factorial(15) == 1307674368000);
        assert(factorial(16) == 20922789888000);
        assert(factorial(17) == 355687428096000);
        assert(factorial(18) == 6402373705728000);
        assert(factorial(19) == 121645100408832000);
        assert(factorial(20) == 2432902008176640000);
    }
}

/// The rank of `arr` among the orderings of its labels, counted from one: its Lehmer code
/// plus one.
pub fn lexicogrpahic_order(arr: &Vec<u8>) -> (order: u64)
    requires
        arr.len() <= 20,
    ensures
        order == lehmer(arr@) + 1,
{
    let n = arr.len();
    let ghost s = arr@;
    let mut order: u64 = 0;
    let mut factorial_now: u64 = 1;
    let mut i: usize = n;
    proof {
        assert(s.subrange(n as int, n as int) =~= Seq::<u8>::empty());
    }
    while i > 0
        invariant
            s == arr@,
            n == arr.len(),
            n <= 20,
            i <= n,
            order == lehmer(s.subrange(i as int, n as int)),
            factorial_now == factorial((n - i) as nat),
        decreases i,
    {
        i = i - 1;
        let current = arr[i];
        let mut smaller: u64 = 0;
        let mut j: usize = i + 1;
        proof {
            assert(s.subrange(i + 1, i + 1) =~= Seq::<u8>::empty());
        }
        while j < n
            invariant
                s == arr@,
                n == arr.len(),
                i < j <= n,
                n <= 20,
                current == s[i as int],
                smaller == smaller_count(s.subrange(i + 1, j as int), current),
            decreases n - j,
        {
            proof {
                assert(s.subrange(i + 1, j + 1).drop_last() =~= s.subrange(i + 1, j as int));
                lemma_smaller_count_bound(s.subrange(i + 1, j as int), current);
            }
            if arr[j] < current {
                smaller = smaller + 1;
            }
            j = j + 1;
        }
        let ghost suffix = s.subrange(i as int, n as int);
        proof {
            assert(suffix.drop_first() =~= s.subrange(i + 1, n as int));
            lemma_lehmer_bound(suffix);
            lemma_factorial_20(suffix.len());
            lemma_smaller_count_bound(s.subrange(i + 1, n as int), current);
            lemma_lehmer_bound(s.subrange(i + 1, n as int));
            lemma_factorial_positive((n - i - 1) as nat);
            assert(smaller * factorial_now <= lehmer(suffix)) by (nonlinear_arith)
                requires
                    lehmer(suffix) == smaller * factorial_now + order,
            ;
        }
        order = order + smaller * factorial_now;
        proof {
            lemma_factorial_20((n - i) as nat);
            assert(factorial((n - i) as nat) == (n - i) as nat * factorial((n - i - 1) as nat));
            assert(factorial_now * (n - i) == (n - i) * factorial_now) by (nonlinear_arith);
        }
        factorial_now = factorial_now * (n - i) as u64;
    }
    proof {
        assert(s.subrange(0, n as int) =~= s);
        lemma_lehmer_bound(s);
        lemma_factorial_20(n as nat);
    }
    order + 1
}

/// The labels `0 .. n` in increasing order.
pub open spec fn identity(n: nat) -> Seq<u8> {
    Seq::new(n, |i: int| i as u8)
}

/// Strictly increasing labels.
pub open spec fn increasing(s: Seq<u8>) -> bool {
    forall|i: int, j: int| 0 <= i < j < s.len() ==> s[i] < s[j]
}

proof fn lemma_smaller_count_concat(x: Seq<u8>, y: Seq<u8>, v: u8)
    ensures
        smaller_count(x + y, v) == smaller_count(x, v) + smaller_count(y, v),
    decreases y.len(),
{
    if y.len() == 0 {
        assert(x + y =~= x);
    } else {
        assert((x + y).drop_last() =~= x + y.drop_last());
        lemma_smaller_count_concat(x, y.drop_last(), v);
    }
}

proof fn lemma_smaller_count_all(x: Seq<u8>, v: u8, below: bool)
    requires
        forall|i: int| 0 <= i < x.len() ==> (x[i] < v) == below,
    ensures
        smaller_count(x, v) == if below {
            x.len()
        } else {
            0
        },
    decreases x.len(),
{
    if x.len() > 0 {
        lemma_smaller_count_all(x.drop_last(), v, below);
    }
}

/// In increasing labels, exactly the `d` labels before position `d` are below the label there.
proof fn lemma_picked_digit(avail: Seq<u8>, d: int)
    requires
        increasing(avail),
        0 <= d < avail.len(),
    ensures
        smaller_count(avail.remove(d), avail[d]) == d,
{
    let a = avail.subrange(0, d);
    let b = avail.subrange(d + 1, avail.len() as int);
    assert(avail.remove(d) =~= a + b);
    lemma_smaller_count_concat(a, b, avail[d]);
    lemma_smaller_count_all(a, avail[d], true);
    lemma_smaller_count_all(b, avail[d], false);
}

fn factorial_of(n: usize) -> (r: u64)
    requires
        n <= 20,
    ensures
        r == factorial(n as nat),
{
    let mut r: u64 = 1;
    let mut i: usize = 0;
    while i < n
        invariant
            i <= n,
            n <= 20,
            r == factorial(i as nat),
        decreases n - i,
    {
        i = i + 1;
        proof {
            lemma_factorial_20(i as nat);
            assert(r * i == i * r) by (nonlinear_arith);
        }
        r = r * i as u64;
    }
    r
}

/// The ordering of `avail` whose Lehmer code is `index`.
fn unrank_from(index: u64, avail: Vec<u8>) -> (r: Vec<u8>)
    requires
        avail.len() <= 20,
        increasing(avail@),
        index < factorial(avail.len() as nat),
    ensures
        r@.to_multiset() == avail@.to_multiset(),
        r@.no_duplicates(),
        lehmer(r@) == index,
    decreases avail.len(),
{
    broadcast use vstd::multiset::group_multiset_axioms;
    broadcast use vstd::seq_lib::to_multiset_remove;

    let k = avail.len();
    if k == 0 {
        let r = Vec::new();
        assert(r@ =~= avail@);
        return r;
    }
    let f = factorial_of(k - 1);
    proof {
        lemma_factorial_positive((k - 1) as nat);
        assert(factorial(k as nat) == k * f);
        assert(index / f < k) by (nonlinear_arith)
            requires
                index < k * f,
                f >= 1,
        ;
    }
    let d = (index / f) as usize;
    let mut rest_avail = avail;
    let elem = rest_avail.remove(d);
    proof {
        assert(increasing(rest_avail@));
        assert(index % f < f) by (nonlinear_arith)
            requires
                f >= 1,
        ;
        lemma_picked_digit(avail@, d as int);
    }
    let rest = unrank_from(index % f, rest_avail);
    let mut r: Vec<u8> = Vec::new();
    r.push(elem);
    let ghost rest_seq = rest@;
    let mut rest = rest;
    r.append(&mut rest);
    proof {
        assert(r@.drop_first() =~= rest_seq);
        assert(r@[0] == elem);
        lemma_smaller_count_multiset(r@.drop_first(), elem);
        lemma_smaller_count_multiset(avail@.remove(d as int), elem);
        assert(rest_avail@ == avail@.remove(d as int));
        vstd::seq_lib::to_multiset_len(rest_seq);
        vstd::seq_lib::to_multiset_len(rest_avail@);
        assert(r@.len() == k);
        assert(lehmer(r@) == smaller_count(r@.drop_first(), r@[0]) * factorial((k - 1) as nat) + lehmer(r@.drop_first()));
        assert(lehmer(r@) == index) by {
            assert(smaller_count(r@.drop_first(), elem) == d);
            assert(index == d * f + index % f) by (nonlinear_arith)
                requires
                    d == index / f,
                    f >= 1,
            ;
        }
        assert(r@ =~= seq![elem] + r@.drop_first());
        vstd::seq_lib::to_multiset_contains(avail@, elem);
        assert(avail@.contains(elem)) by {
            assert(avail@[d as int] == elem);
        }
        assert(r@.to_multiset() =~= avail@.to_multiset()) by {
            vstd::seq_lib::to_multiset_contains(r@, elem);
            assert(r@.contains(elem)) by {
                assert(r@[0] == elem);
            }
            assert(r@.remove(0) =~= r@.drop_first());
            assert(r@.drop_first().to_multiset() == r@.to_multiset().remove(elem));
            assert(r@.to_multiset() =~= r@.drop_first().to_multiset().insert(elem));
            assert(avail@.remove(d as int).to_multiset() == avail@.to_multiset().remove(elem));
        }
        assert forall|i: int, j: int| 0 <= i < r@.len() && 0 <= j < r@.len() && i != j implies r@[i] != r@[j] by {
            if i == 0 || j == 0 {
                let o = if i == 0 { j } else { i };
                vstd::seq_lib::to_multiset_contains(r@.drop_first(), r@[o]);
                assert(r@.drop_first()[o - 1] == r@[o]);
                assert(r@.drop_first().contains(r@[o]));
                assert(rest_avail@.to_multiset().count(elem) == 0) by {
                    vstd::seq_lib::to_multiset_contains(rest_avail@, elem);
                    if rest_avail@.contains(elem) {
                        let x = choose|x: int| 0 <= x < rest_avail@.len() && rest_avail@[x] == elem;
                        if x < d {
                            assert(avail@[x] == elem);
                        } else {
                            assert(avail@[x + 1] == elem);
                        }
                    }
                }
            } else {
                assert(r@.drop_first()[i - 1] == r@[i]);
                assert(r@.drop_first()[j - 1] == r@[j]);
            }
        }
    }
    r
}

/// The ordering of the labels `0 .. n` whose rank, as `lexicogrpahic_order` counts it
/// from one, is `index`: the inverse of ranking, so that every rank from `1` to `n!` is
/// the rank of an ordering.
pub fn unrank(index: u64, n: usize) -> (r: Vec<u8>)
    requires
        n <= 20,
        1 <= index <= factorial(n as nat),
    ensures
        r@.to_multiset() == identity(n as nat).to_multiset(),
        r@.no_duplicates(),
        lehmer(r@) + 1 == index,
{
    let mut avail: Vec<u8> = Vec::new();
    let mut i: usize = 0;
    while i < n
        invariant
            i <= n,
            n <= 20,
            avail@ == identity(i as nat),
        decreases n - i,
    {
        avail.push(i as u8);
        i = i + 1;
        assert(avail@ =~= identity(i as nat));
    }
    unrank_from(index - 1, avail)
}

/// The table index of a 2x2x2 corner state: the rank of its corner permutation (from
/// `1` to `8!`, as `lexicogrpahic_order` gives it) times the `3^7` orientation ranks, plus
/// its orientation rank.
pub fn return_index(corner_permutation: u64, orientations: u64) -> (r: u64)
    requires
        1 <= corner_permutation <= 40320,
        orientations < 2187,
    ensures
        r == corner_permutation * 2187 + orientations,
{
    corner_permutation * 2187 + orientations
}

} // verus!
