use vstd::prelude::*;

use crate::color::Color;

verus! {

/// Sum of a sequence of integers.
pub open spec fn seq_sum(s: Seq<int>) -> int
    decreases s.len(),
{
    if s.len() == 0 {
        0
    } else {
        seq_sum(s.drop_last()) + s.last()
    }
}

/// Number of edge pairs that receive one extra cell.
pub open spec fn edge_pairs(len: int, p: int) -> int {
    (len % p) / 2
}

/// Whether stripe `i` is the centre stripe that takes the odd leftover cell.
pub open spec fn center_bump(len: int, p: int, i: int) -> int {
    if (len % p) % 2 == 1 && i == p / 2 {
        1
    } else {
        0
    }
}

/// Weight of stripe `i` after the first `b` edge pairs were bumped.
pub open spec fn partial_weight(len: int, p: int, b: int, i: int) -> int {
    len / p + center_bump(len, p, i) + if i < b || p - 1 - i < b {
        1int
    } else {
        0int
    }
}

/// Number of cells that stripe `i` receives when `len` cells are shared
/// among `p` stripes: an equal share, one extra cell for the centre stripe
/// when the leftover is odd, and the even rest spread from the edges inward.
pub open spec fn stripe_weight(len: int, p: int, i: int) -> int {
    partial_weight(len, p, edge_pairs(len, p), i)
}

/// The weights of all `p` stripes.
pub open spec fn stripe_weights_seq(len: int, p: int) -> Seq<int> {
    Seq::new(p as nat, |i: int| stripe_weight(len, p, i))
}

/// The flat colour sequence: colour `k` repeated `weights[k]` times, in order.
pub open spec fn expand(colors: Seq<Color>, weights: Seq<int>) -> Seq<Color>
    decreases weights.len(),
{
    if weights.len() == 0 {
        Seq::empty()
    } else {
        expand(colors, weights.drop_last()) + Seq::new(
            weights.last() as nat,
            |j: int| colors[weights.len() - 1],
        )
    }
}

/// The colour of each of `len` cells under banding with the palette `colors`.
pub open spec fn stripe_colors(colors: Seq<Color>, len: int) -> Seq<Color> {
    expand(colors, stripe_weights_seq(len, colors.len() as int))
}

proof fn lemma_sum_update(s: Seq<int>, i: int, v: int)
    requires
        0 <= i < s.len(),
    ensures
        seq_sum(s.update(i, v)) == seq_sum(s) - s[i] + v,
    decreases s.len(),
{
    if i == s.len() - 1 {
        assert(s.update(i, v).drop_last() =~= s.drop_last());
    } else {
        lemma_sum_update(s.drop_last(), i, v);
        assert(s.update(i, v).drop_last() =~= s.drop_last().update(i, v));
    }
}

proof fn lemma_sum_const(n: nat, c: int)
    ensures
        seq_sum(Seq::new(n, |i: int| c)) == n * c,
    decreases n,
{
    if n > 0 {
        lemma_sum_const((n - 1) as nat, c);
        assert(Seq::new(n, |i: int| c).drop_last() =~= Seq::new((n - 1) as nat, |i: int| c));
        assert(n * c == (n - 1) * c + c) by (nonlinear_arith);
    } else {
        assert(n * c == 0) by (nonlinear_arith)
            requires
                n == 0,
        ;
    }
}

proof fn lemma_partial_sum(len: int, p: int, b: int)
    requires
        len >= 0,
        p >= 1,
        0 <= b <= edge_pairs(len, p),
    ensures
        seq_sum(Seq::new(p as nat, |i: int| partial_weight(len, p, b, i))) == p * (len / p)
            + (len % p) % 2 + 2 * b,
    decreases b,
{
    let base = len / p;
    if b == 0 {
        let flat = Seq::new(p as nat, |i: int| base);
        lemma_sum_const(p as nat, base);
        if (len % p) % 2 == 1 {
            lemma_sum_update(flat, p / 2, base + 1);
            assert(flat.update(p / 2, base + 1) =~= Seq::new(
                p as nat,
                |i: int| partial_weight(len, p, b, i),
            ));
        } else {
            assert(flat =~= Seq::new(p as nat, |i: int| partial_weight(len, p, b, i)));
        }
    } else {
        let c = b - 1;
        lemma_partial_sum(len, p, c);
        let prev = Seq::new(p as nat, |i: int| partial_weight(len, p, c, i));
        let mid = prev.update(c, prev[c] + 1);
        lemma_sum_update(prev, c, prev[c] + 1);
        lemma_sum_update(mid, p - 1 - c, mid[p - 1 - c] + 1);
        assert(mid.update(p - 1 - c, mid[p - 1 - c] + 1) =~= Seq::new(
            p as nat,
            |i: int| partial_weight(len, p, b, i),
        ));
    }
}

/// The stripe weights always share out exactly `len` cells.
pub proof fn lemma_stripe_total(len: int, p: int)
    requires
        len >= 0,
        p >= 1,
    ensures
        stripe_weights_seq(len, p).len() == p,
        seq_sum(stripe_weights_seq(len, p)) == len,
{
    lemma_partial_sum(len, p, edge_pairs(len, p));
    assert(stripe_weights_seq(len, p) =~= Seq::new(
        p as nat,
        |i: int| partial_weight(len, p, edge_pairs(len, p), i),
    ));
    assert(len == p * (len / p) + len % p) by (nonlinear_arith)
        requires
            p >= 1,
    ;
}

/// Stripe `i` and its mirror `p - 1 - i` get the same weight, whenever the
/// palette has odd length or the leftover `len % p` is even.
pub proof fn lemma_stripe_symmetric(len: int, p: int, i: int)
    requires
        len >= 0,
        p >= 1,
        0 <= i < p,
        p % 2 == 1 || (len % p) % 2 == 0,
    ensures
        stripe_weight(len, p, i) == stripe_weight(len, p, p - 1 - i),
{
}

/// The weight of each of `p` stripes sharing `len` cells (see `stripe_weight`).
pub fn stripe_weights(len: usize, p: usize) -> (r: Vec<usize>)
    requires
        p >= 1,
    ensures
        r@.len() == p,
        forall|i: int| 0 <= i < p ==> r@[i] as int == stripe_weight(len as int, p as int, i),
        seq_sum(r@.map_values(|w: usize| w as int)) == len,
{
    let center = p / 2;
    let repeats = len / p;
    let mut weights: Vec<usize> = Vec::new();
    let mut k: usize = 0;
    while k < p
        invariant
            k <= p,
            repeats == len / p,
            weights@.len() == k,
            forall|i: int| 0 <= i < k ==> weights@[i] == repeats,
        decreases p - k,
    {
        weights.push(repeats);
        k = k + 1;
    }
    let mut extras: usize = len % p;
    proof {
        assert(len as int == p * (len / p) + len % p) by (nonlinear_arith)
            requires
                p >= 1,
        ;
        assert(repeats <= p * (len / p)) by (nonlinear_arith)
            requires
                p >= 1,
                repeats == len / p,
                len >= 0,
        ;
    }
    if extras % 2 == 1 {
        extras = extras - 1;
        weights.set(center, repeats + 1);
    }
    let mut border: usize = 0;
    while extras > 0
        invariant
            p >= 1,
            len as int == p * (len / p) + len % p,
            repeats == len / p,
            repeats <= p * (len / p),
            border <= edge_pairs(len as int, p as int),
            extras == (len % p) - (len % p) % 2 - 2 * border,
            weights@.len() == p,
            forall|i: int|
                0 <= i < p ==> weights@[i] as int == partial_weight(
                    len as int,
                    p as int,
                    border as int,
                    i,
                ),
        decreases extras,
    {
        extras = extras - 2;
        let lo = weights[border];
        weights.set(border, lo + 1);
        let hi = weights[p - border - 1];
        weights.set(p - border - 1, hi + 1);
        border = border + 1;
    }
    proof {
        lemma_stripe_total(len as int, p as int);
        assert(weights@.map_values(|w: usize| w as int) =~= stripe_weights_seq(
            len as int,
            p as int,
        ));
    }
    weights
}

proof fn lemma_expand_len(colors: Seq<Color>, weights: Seq<int>)
    requires
        forall|i: int| 0 <= i < weights.len() ==> weights[i] >= 0,
    ensures
        expand(colors, weights).len() == seq_sum(weights),
    decreases weights.len(),
{
    if weights.len() > 0 {
        lemma_expand_len(colors, weights.drop_last());
    }
}

/// The flat colour sequence of `len` cells banded with `colors`: it holds
/// exactly `len` colours.
pub proof fn lemma_stripe_colors_len(colors: Seq<Color>, len: int)
    requires
        colors.len() >= 1,
        len >= 0,
    ensures
        stripe_colors(colors, len).len() == len,
{
    let p = colors.len() as int;
    lemma_stripe_total(len, p);
    assert forall|i: int| 0 <= i < p implies #[trigger] stripe_weights_seq(len, p)[i] >= 0 by {
        assert(len / p >= 0) by (nonlinear_arith)
            requires
                len >= 0,
                p >= 1,
        ;
    }
    lemma_expand_len(colors, stripe_weights_seq(len, p));
}

/// Repeats colour `k` of `colors` `weights[k]` times, in order.
pub fn weights_to_colors(colors: &Vec<Color>, weights: &Vec<usize>) -> (r: Vec<Color>)
    requires
        weights@.len() <= colors@.len(),
    ensures
        r@ == expand(colors@, weights@.map_values(|w: usize| w as int)),
{
    let mut out: Vec<Color> = Vec::new();
    let mut k: usize = 0;
    while k < weights.len()
        invariant
            k <= weights@.len(),
            weights@.len() <= colors@.len(),
            out@ == expand(colors@, weights@.subrange(0, k as int).map_values(|w: usize| w as int)),
        decreases weights@.len() - k,
    {
        let c = colors[k];
        let w = weights[k];
        let ghost before = out@;
        let mut j: usize = 0;
        while j < w
            invariant
                j <= w,
                out@ == before + Seq::new(j as nat, |t: int| c),
            decreases w - j,
        {
            out.push(c);
            j = j + 1;
            proof {
                assert(out@ =~= before + Seq::new(j as nat, |t: int| c));
            }
        }
        proof {
            let ws = weights@.subrange(0, k + 1).map_values(|w: usize| w as int);
            assert(ws.drop_last() =~= weights@.subrange(0, k as int).map_values(|w: usize| w as int));
            assert(out@ =~= expand(colors@, ws));
        }
        k = k + 1;
    }
    proof {
        assert(weights@.subrange(0, k as int) =~= weights@);
    }
    out
}

/// The colour of each of `len` cells when banded with the palette `colors`.
pub fn length_to_colors(colors: &Vec<Color>, len: usize) -> (r: Vec<Color>)
    requires
        colors@.len() >= 1,
    ensures
        r@ == stripe_colors(colors@, len as int),
        r@.len() == len,
{
    let weights = stripe_weights(len, colors.len());
    proof {
        assert(weights@.map_values(|w: usize| w as int) =~= stripe_weights_seq(
            len as int,
            colors@.len() as int,
        ));
        lemma_stripe_colors_len(colors@, len as int);
    }
    weights_to_colors(colors, &weights)
}

} // verus!
