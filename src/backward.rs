use crate::forward::normalized;
use crate::scalar::{fold_plus, Scalar};
use crate::shape::{Shape, ShapeError};
use crate::validate::{as_unit, backward_outcome, validate_backward};
use vstd::arithmetic::div_mod::lemma_fundamental_div_mod_converse;
use vstd::prelude::*;

verus! {

/// Normalized value of element `j`, recomputed from the saved statistics
/// of its position.
pub open spec fn norm_at<S: Scalar>(
    inp: Seq<S>,
    means: Seq<S>,
    rstds: Seq<S>,
    c: usize,
    j: int,
) -> S {
    normalized(inp[j], means[j / (c as int)], rstds[j / (c as int)])
}

/// `weight[i] * dout[k * c + i]` across the channels `i` of row `k`.
pub open spec fn row_dnorm<S: Scalar>(
    weight: Seq<S>,
    dout: Seq<S>,
    c: usize,
    k: int,
) -> spec_fn(int) -> S {
    |i: int| S::spec_times(weight[i], dout[k * c + i])
}

/// `weight[i] * dout[k * c + i] * norm` across the channels `i` of row `k`.
pub open spec fn row_dnorm_norm<S: Scalar>(
    inp: Seq<S>,
    weight: Seq<S>,
    dout: Seq<S>,
    means: Seq<S>,
    rstds: Seq<S>,
    c: usize,
    k: int,
) -> spec_fn(int) -> S {
    |i: int|
        S::spec_times(
            S::spec_times(weight[i], dout[k * c + i]),
            normalized(inp[k * c + i], means[k], rstds[k]),
        )
}

/// First reduction of row `k`: the mean of `weight[i] * dout`.
pub open spec fn dnorm_mean<S: Scalar>(weight: Seq<S>, dout: Seq<S>, c: usize, k: int) -> S {
    S::spec_div_count(fold_plus(S::spec_zero(), row_dnorm(weight, dout, c, k), c as int), c)
}

/// Second reduction of row `k`: the mean of `weight[i] * dout * norm`.
pub open spec fn dnorm_norm_mean<S: Scalar>(
    inp: Seq<S>,
    weight: Seq<S>,
    dout: Seq<S>,
    means: Seq<S>,
    rstds: Seq<S>,
    c: usize,
    k: int,
) -> S {
    S::spec_div_count(
        fold_plus(S::spec_zero(), row_dnorm_norm(inp, weight, dout, means, rstds, c, k), c as int),
        c,
    )
}

/// What one backward pass adds to the input gradient at element `j`:
/// `(dnorm - dnorm_mean - norm * dnorm_norm_mean) * rstd`, with both means
/// of its row finished first.
pub open spec fn dinp_delta<S: Scalar>(
    inp: Seq<S>,
    weight: Seq<S>,
    dout: Seq<S>,
    means: Seq<S>,
    rstds: Seq<S>,
    c: usize,
    j: int,
) -> S {
    let k = j / (c as int);
    let i = j % (c as int);
    S::spec_times(
        S::spec_minus(
            S::spec_minus(S::spec_times(weight[i], dout[j]), dnorm_mean(weight, dout, c, k)),
            S::spec_times(
                norm_at(inp, means, rstds, c, j),
                dnorm_norm_mean(inp, weight, dout, means, rstds, c, k),
            ),
        ),
        rstds[k],
    )
}

/// The upstream gradient of channel `i` across positions `k`.
pub open spec fn col_dout<S: Scalar>(dout: Seq<S>, c: usize, i: int) -> spec_fn(int) -> S {
    |k: int| dout[k * c + i]
}

/// `norm * dout` of channel `i` across positions `k`.
pub open spec fn col_dweight<S: Scalar>(
    inp: Seq<S>,
    dout: Seq<S>,
    means: Seq<S>,
    rstds: Seq<S>,
    c: usize,
    i: int,
) -> spec_fn(int) -> S {
    |k: int| S::spec_times(normalized(inp[k * c + i], means[k], rstds[k]), dout[k * c + i])
}

/// Input gradient after one backward pass: each element of `g` plus its
/// contribution.
pub open spec fn backward_dinp<S: Scalar>(
    g: Seq<S>,
    inp: Seq<S>,
    weight: Seq<S>,
    dout: Seq<S>,
    means: Seq<S>,
    rstds: Seq<S>,
    c: usize,
) -> Seq<S> {
    Seq::new(
        g.len(),
        |j: int| S::spec_plus(g[j], dinp_delta(inp, weight, dout, means, rstds, c, j)),
    )
}

/// Scale gradient after one backward pass: each channel of `g` with the
/// contributions of the `p` positions added in order.
pub open spec fn backward_dweight<S: Scalar>(
    g: Seq<S>,
    inp: Seq<S>,
    dout: Seq<S>,
    means: Seq<S>,
    rstds: Seq<S>,
    c: usize,
    p: nat,
) -> Seq<S> {
    Seq::new(g.len(), |i: int| fold_plus(g[i], col_dweight(inp, dout, means, rstds, c, i), p as int))
}

/// Shift gradient after one backward pass: each channel of `g` with the
/// upstream gradients of the `p` positions added in order.
pub open spec fn backward_dbias<S: Scalar>(g: Seq<S>, dout: Seq<S>, c: usize, p: nat) -> Seq<S> {
    Seq::new(g.len(), |i: int| fold_plus(g[i], col_dout(dout, c, i), p as int))
}

/// Running the backward pass twice with the same arguments adds the same
/// contribution twice: the input gradient becomes `(g + d) + d`, and each
/// scale and shift gradient has the per-position contributions added in
/// order, then once more. What is added never depends on the gradient
/// buffers it is added to.
pub proof fn lemma_backward_twice<S: Scalar>(
    g_dinp: Seq<S>,
    g_dweight: Seq<S>,
    g_dbias: Seq<S>,
    inp: Seq<S>,
    weight: Seq<S>,
    dout: Seq<S>,
    means: Seq<S>,
    rstds: Seq<S>,
    c: usize,
    p: nat,
)
    ensures
        backward_dinp(backward_dinp(g_dinp, inp, weight, dout, means, rstds, c), inp, weight, dout, means, rstds, c)
            == Seq::new(
            g_dinp.len(),
            |j: int|
                S::spec_plus(
                    S::spec_plus(g_dinp[j], dinp_delta(inp, weight, dout, means, rstds, c, j)),
                    dinp_delta(inp, weight, dout, means, rstds, c, j),
                ),
        ),
        backward_dweight(backward_dweight(g_dweight, inp, dout, means, rstds, c, p), inp, dout, means, rstds, c, p)
            == Seq::new(
            g_dweight.len(),
            |i: int|
                fold_plus(
                    fold_plus(g_dweight[i], col_dweight(inp, dout, means, rstds, c, i), p as int),
                    col_dweight(inp, dout, means, rstds, c, i),
                    p as int,
                ),
        ),
        backward_dbias(backward_dbias(g_dbias, dout, c, p), dout, c, p) == Seq::new(
            g_dbias.len(),
            |i: int| fold_plus(fold_plus(g_dbias[i], col_dout(dout, c, i), p as int), col_dout(dout, c, i), p as int),
        ),
{
    assert(backward_dinp(backward_dinp(g_dinp, inp, weight, dout, means, rstds, c), inp, weight, dout, means, rstds, c)
        =~= Seq::new(
        g_dinp.len(),
        |j: int|
            S::spec_plus(
                S::spec_plus(g_dinp[j], dinp_delta(inp, weight, dout, means, rstds, c, j)),
                dinp_delta(inp, weight, dout, means, rstds, c, j),
            ),
    ));
    assert(backward_dweight(backward_dweight(g_dweight, inp, dout, means, rstds, c, p), inp, dout, means, rstds, c, p)
        =~= Seq::new(
        g_dweight.len(),
        |i: int|
            fold_plus(
                fold_plus(g_dweight[i], col_dweight(inp, dout, means, rstds, c, i), p as int),
                col_dweight(inp, dout, means, rstds, c, i),
                p as int,
            ),
    ));
    assert(backward_dbias(backward_dbias(g_dbias, dout, c, p), dout, c, p) =~= Seq::new(
        g_dbias.len(),
        |i: int| fold_plus(fold_plus(g_dbias[i], col_dout(dout, c, i), p as int), col_dout(dout, c, i), p as int),
    ));
}

/// Accumulates the gradients of a forward pass into `dinp`, `dweight` and
/// `dbias`, given the upstream gradient `dout` and the input `inp`, scale
/// `weight` and statistics `means`, `rstds` of that forward pass. The three
/// gradient buffers are added to, never overwritten.
///
/// Fails before touching any buffer: `DegenerateInput` when `channels` is
/// zero, `InvalidShape` when a buffer length disagrees with the shape.
pub fn layernorm_backward<S: Scalar>(
    dinp: &mut Vec<S>,
    dweight: &mut Vec<S>,
    dbias: &mut Vec<S>,
    dout: &Vec<S>,
    inp: &Vec<S>,
    weight: &Vec<S>,
    means: &Vec<S>,
    rstds: &Vec<S>,
    batch: usize,
    seq_len: usize,
    channels: usize,
) -> (r: Result<(), ShapeError>)
    ensures
        r == as_unit(
            backward_outcome(
                batch,
                seq_len,
                channels,
                old(dinp)@.len() as int,
                old(dweight)@.len() as int,
                old(dbias)@.len() as int,
                dout@.len() as int,
                inp@.len() as int,
                weight@.len() as int,
                means@.len() as int,
                rstds@.len() as int,
            ),
        ),
        r is Err ==> final(dinp)@ == old(dinp)@ && final(dweight)@ == old(dweight)@
            && final(dbias)@ == old(dbias)@,
        r is Ok ==> final(dinp)@ == backward_dinp(
            old(dinp)@,
            inp@,
            weight@,
            dout@,
            means@,
            rstds@,
            channels,
        ),
        r is Ok ==> final(dweight)@ == backward_dweight(
            old(dweight)@,
            inp@,
            dout@,
            means@,
            rstds@,
            channels,
            means@.len(),
        ),
        r is Ok ==> final(dbias)@ == backward_dbias(
            old(dbias)@,
            dout@,
            channels,
            means@.len(),
        ),
{
    let shape = match validate_backward(
        batch,
        seq_len,
        channels,
        dinp.len(),
        dweight.len(),
        dbias.len(),
        dout.len(),
        inp.len(),
        weight.len(),
        means.len(),
        rstds.len(),
    ) {
        Ok(s) => s,
        Err(e) => return Err(e),
    };
    let positions = shape.num_positions();
    let ghost c = channels;
    let mut k: usize = 0;
    while k < positions
        invariant
            shape.wf(),
            shape == (Shape { batch, seq_len, channels }),
            c == channels,
            positions == shape.positions(),
            0 <= k <= positions,
            dinp@.len() == shape.elements(),
            old(dinp)@.len() == dinp@.len(),
            dout@.len() == shape.elements(),
            inp@.len() == shape.elements(),
            means@.len() == positions,
            rstds@.len() == positions,
            weight@.len() == channels,
            dweight@.len() == channels,
            dbias@.len() == channels,
            old(dweight)@.len() == channels,
            old(dbias)@.len() == channels,
            forall|j: int|
                0 <= j < k * channels ==> #[trigger] dinp@[j] == S::spec_plus(
                    old(dinp)@[j],
                    dinp_delta(inp@, weight@, dout@, means@, rstds@, c, j),
                ),
            forall|j: int| k * channels <= j < dinp@.len() ==> #[trigger] dinp@[j] == old(dinp)@[j],
            forall|i: int|
                0 <= i < channels ==> #[trigger] dweight@[i] == fold_plus(
                    old(dweight)@[i],
                    col_dweight(inp@, dout@, means@, rstds@, c, i),
                    k as int,
                ),
            forall|i: int|
                0 <= i < channels ==> #[trigger] dbias@[i] == fold_plus(
                    old(dbias)@[i],
                    col_dout(dout@, c, i),
                    k as int,
                ),
        decreases positions - k,
    {
        let start = shape.row_of(k);
        let mean_k = means[k];
        let rstd_k = rstds[k];
        let (dm, dnm) = row_reductions(dout, inp, weight, means, rstds, k, start, channels);
        let mut i: usize = 0;
        while i < channels
            invariant
                c == channels,
                k < positions,
                start == k * channels,
                start + channels <= shape.elements(),
                shape.elements() <= usize::MAX,
                0 <= i <= channels,
                dinp@.len() == shape.elements(),
                old(dinp)@.len() == dinp@.len(),
                dout@.len() == shape.elements(),
                inp@.len() == shape.elements(),
                means@.len() == positions,
                rstds@.len() == positions,
                weight@.len() == channels,
                dweight@.len() == channels,
                dbias@.len() == channels,
                old(dweight)@.len() == channels,
                old(dbias)@.len() == channels,
                mean_k == means@[k as int],
                rstd_k == rstds@[k as int],
                dm == dnorm_mean(weight@, dout@, c, k as int),
                dnm == dnorm_norm_mean(inp@, weight@, dout@, means@, rstds@, c, k as int),
                forall|j: int|
                    0 <= j < start + i ==> #[trigger] dinp@[j] == S::spec_plus(
                        old(dinp)@[j],
                        dinp_delta(inp@, weight@, dout@, means@, rstds@, c, j),
                    ),
                forall|j: int|
                    start + i <= j < dinp@.len() ==> #[trigger] dinp@[j] == old(dinp)@[j],
                forall|q: int|
                    0 <= q < channels ==> #[trigger] dweight@[q] == fold_plus(
                        old(dweight)@[q],
                        col_dweight(inp@, dout@, means@, rstds@, c, q),
                        if q < i { k + 1 } else { k as int },
                    ),
                forall|q: int|
                    0 <= q < channels ==> #[trigger] dbias@[q] == fold_plus(
                        old(dbias)@[q],
                        col_dout(dout@, c, q),
                        if q < i { k + 1 } else { k as int },
                    ),
            decreases channels - i,
        {
            let j = start + i;
            proof {
                lemma_fundamental_div_mod_converse(j as int, channels as int, k as int, i as int);
            }
            let g = dout[j];
            let norm = S::times(S::minus(inp[j], mean_k), rstd_k);
            let dnorm = S::times(weight[i], g);
            let db = S::plus(dbias[i], g);
            dbias[i] = db;
            let dw = S::plus(dweight[i], S::times(norm, g));
            dweight[i] = dw;
            let dval = S::times(S::minus(S::minus(dnorm, dm), S::times(norm, dnm)), rstd_k);
            let di = S::plus(dinp[j], dval);
            dinp[j] = di;
            i += 1;
        }
        proof {
            assert((k + 1) * channels == start + channels) by (nonlinear_arith)
                requires
                    start == k * channels,
            ;
        }
        k += 1;
    }
    proof {
        assert(k * channels == shape.elements()) by (nonlinear_arith)
            requires
                k == shape.batch * shape.seq_len,
                channels == shape.channels,
        ;
        assert(dinp@ =~= backward_dinp(old(dinp)@, inp@, weight@, dout@, means@, rstds@, c));
        assert(dweight@ =~= backward_dweight(old(dweight)@, inp@, dout@, means@, rstds@, c, means@.len()));
        assert(dbias@ =~= backward_dbias(old(dbias)@, dout@, c, means@.len()));
    }
    Ok(())
}

/// Both reductions of the first pass over row `k`, finished (divided by the
/// channel count) before they are returned.
fn row_reductions<S: Scalar>(
    dout: &Vec<S>,
    inp: &Vec<S>,
    weight: &Vec<S>,
    means: &Vec<S>,
    rstds: &Vec<S>,
    k: usize,
    start: usize,
    channels: usize,
) -> (r: (S, S))
    requires
        channels > 0,
        k < means@.len(),
        k < rstds@.len(),
        start == k * channels,
        start + channels <= inp@.len(),
        start + channels <= usize::MAX,
        dout@.len() == inp@.len(),
        weight@.len() == channels,
    ensures
        r.0 == dnorm_mean(weight@, dout@, channels, k as int),
        r.1 == dnorm_norm_mean(inp@, weight@, dout@, means@, rstds@, channels, k as int),
{
    let ghost c = channels;
    let mean_k = means[k];
    let rstd_k = rstds[k];
    let mut sum_dnorm = S::zero();
    let mut sum_dnorm_norm = S::zero();
    let mut i: usize = 0;
    while i < channels
        invariant
            c == channels,
            0 <= i <= channels,
            k < means@.len(),
            k < rstds@.len(),
            mean_k == means@[k as int],
            rstd_k == rstds@[k as int],
            start == k * channels,
            start + channels <= inp@.len(),
            start + channels <= usize::MAX,
            dout@.len() == inp@.len(),
            weight@.len() == channels,
            sum_dnorm == fold_plus(S::spec_zero(), row_dnorm(weight@, dout@, c, k as int), i as int),
            sum_dnorm_norm == fold_plus(
                S::spec_zero(),
                row_dnorm_norm(inp@, weight@, dout@, means@, rstds@, c, k as int),
                i as int,
            ),
        decreases channels - i,
    {
        let j = start + i;
        let norm = S::times(S::minus(inp[j], mean_k), rstd_k);
        let dnorm = S::times(weight[i], dout[j]);
        sum_dnorm = S::plus(sum_dnorm, dnorm);
        sum_dnorm_norm = S::plus(sum_dnorm_norm, S::times(dnorm, norm));
        i += 1;
    }
    (S::div_count(sum_dnorm, channels), S::div_count(sum_dnorm_norm, channels))
}

} // verus!
