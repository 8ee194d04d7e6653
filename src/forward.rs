use crate::scalar::{fold_plus, lemma_fold_plus_ext, Scalar};
use crate::shape::{Shape, ShapeError};
use crate::validate::{as_unit, forward_outcome, validate_forward};
use vstd::arithmetic::div_mod::lemma_fundamental_div_mod_converse;
use vstd::prelude::*;

verus! {

/// The `c` values of row `k` of `x`, as a function of the channel.
pub open spec fn row_vals<S: Scalar>(x: Seq<S>, c: usize, k: int) -> spec_fn(int) -> S {
    |i: int| x[k * c + i]
}

/// Mean of row `k`: the left-to-right sum of its values, divided by `c`.
pub open spec fn row_mean<S: Scalar>(x: Seq<S>, c: usize, k: int) -> S {
    S::spec_div_count(fold_plus(S::spec_zero(), row_vals(x, c, k), c as int), c)
}

/// Squared deviations of row `k` from `m`, as a function of the channel.
pub open spec fn row_sq_devs<S: Scalar>(x: Seq<S>, c: usize, k: int, m: S) -> spec_fn(int) -> S {
    |i: int| S::spec_times(S::spec_minus(x[k * c + i], m), S::spec_minus(x[k * c + i], m))
}

/// Biased variance of row `k`: the mean of its squared deviations.
pub open spec fn row_variance<S: Scalar>(x: Seq<S>, c: usize, k: int) -> S {
    S::spec_div_count(
        fold_plus(S::spec_zero(), row_sq_devs(x, c, k, row_mean(x, c, k)), c as int),
        c,
    )
}

/// Reciprocal standard deviation of row `k`: `(variance + eps)^(-1/2)`.
pub open spec fn row_rstd<S: Scalar>(x: Seq<S>, c: usize, k: int, eps: S) -> S {
    S::spec_rsqrt(S::spec_plus(row_variance(x, c, k), eps))
}

/// `x` normalized by mean `m` and reciprocal deviation `r`.
pub open spec fn normalized<S: Scalar>(x: S, m: S, r: S) -> S {
    S::spec_times(S::spec_minus(x, m), r)
}

/// Output element `j`: its normalized value scaled by the weight of its
/// channel and shifted by the bias of its channel.
pub open spec fn forward_value<S: Scalar>(
    inp: Seq<S>,
    weight: Seq<S>,
    bias: Seq<S>,
    c: usize,
    eps: S,
    j: int,
) -> S {
    let k = j / (c as int);
    let i = j % (c as int);
    S::spec_plus(
        S::spec_times(normalized(inp[j], row_mean(inp, c, k), row_rstd(inp, c, k, eps)), weight[i]),
        bias[i],
    )
}

/// The whole output of a forward pass over `inp`.
pub open spec fn forward_output<S: Scalar>(
    inp: Seq<S>,
    weight: Seq<S>,
    bias: Seq<S>,
    c: usize,
    eps: S,
) -> Seq<S> {
    Seq::new(inp.len(), |j: int| forward_value(inp, weight, bias, c, eps, j))
}

/// The means of all `p` rows of `inp`.
pub open spec fn forward_means<S: Scalar>(inp: Seq<S>, c: usize, p: nat) -> Seq<S> {
    Seq::new(p, |k: int| row_mean(inp, c, k))
}

/// The reciprocal standard deviations of all `p` rows of `inp`.
pub open spec fn forward_rstds<S: Scalar>(inp: Seq<S>, c: usize, p: nat, eps: S) -> Seq<S> {
    Seq::new(p, |k: int| row_rstd(inp, c, k, eps))
}

/// Positions are independent: the statistics and outputs of position `k`
/// depend on that position's `c` input values alone, whatever the other
/// positions hold.
pub proof fn lemma_forward_positions_independent<S: Scalar>(
    inp1: Seq<S>,
    inp2: Seq<S>,
    weight: Seq<S>,
    bias: Seq<S>,
    c: usize,
    eps: S,
    k: int,
)
    requires
        c > 0,
        0 <= k,
        (k + 1) * c <= inp1.len(),
        (k + 1) * c <= inp2.len(),
        forall|i: int| 0 <= i < c ==> #[trigger] inp1[k * c + i] == inp2[k * c + i],
    ensures
        row_mean(inp1, c, k) == row_mean(inp2, c, k),
        row_rstd(inp1, c, k, eps) == row_rstd(inp2, c, k, eps),
        forall|i: int|
            0 <= i < c ==> #[trigger] forward_value(inp1, weight, bias, c, eps, k * c + i)
                == forward_value(inp2, weight, bias, c, eps, k * c + i),
{
    let z = S::spec_zero();
    lemma_fold_plus_ext(z, row_vals(inp1, c, k), row_vals(inp2, c, k), c as int);
    let m = row_mean(inp1, c, k);
    lemma_fold_plus_ext(z, row_sq_devs(inp1, c, k, m), row_sq_devs(inp2, c, k, m), c as int);
    assert forall|i: int|
        0 <= i < c implies #[trigger] forward_value(inp1, weight, bias, c, eps, k * c + i)
            == forward_value(inp2, weight, bias, c, eps, k * c + i) by {
        lemma_fundamental_div_mod_converse(k * c + i, c as int, k, i);
    }
}

/// Normalizes each position's `channels` values of `inp` and applies the
/// per-channel `weight` and `bias`, overwriting `out`; the mean and
/// reciprocal standard deviation of each position go to `mean` and `rstd`.
///
/// Fails before writing anything: `DegenerateInput` when `channels` is zero,
/// `InvalidShape` when a buffer length disagrees with the shape.
pub fn layernorm_forward<S: Scalar>(
    out: &mut Vec<S>,
    mean: &mut Vec<S>,
    rstd: &mut Vec<S>,
    inp: &Vec<S>,
    weight: &Vec<S>,
    bias: &Vec<S>,
    batch: usize,
    seq_len: usize,
    channels: usize,
    eps: S,
) -> (r: Result<(), ShapeError>)
    ensures
        r == as_unit(
            forward_outcome(
                batch,
                seq_len,
                channels,
                old(out)@.len() as int,
                old(mean)@.len() as int,
                old(rstd)@.len() as int,
                inp@.len() as int,
                weight@.len() as int,
                bias@.len() as int,
            ),
        ),
        r is Err ==> final(out)@ == old(out)@ && final(mean)@ == old(mean)@ && final(rstd)@
            == old(rstd)@,
        r is Ok ==> final(out)@ == forward_output(inp@, weight@, bias@, channels, eps),
        r is Ok ==> final(mean)@ == forward_means(inp@, channels, old(mean)@.len()),
        r is Ok ==> final(rstd)@ == forward_rstds(inp@, channels, old(rstd)@.len(), eps),
{
    let shape = match validate_forward(
        batch,
        seq_len,
        channels,
        out.len(),
        mean.len(),
        rstd.len(),
        inp.len(),
        weight.len(),
        bias.len(),
    ) {
        Ok(s) => s,
        Err(e) => return Err(e),
    };
    let positions = shape.num_positions();
    let ghost c = channels;
    let mut k: usize = 0;
    while k < positions
        invariant
            shape.wf(),
            shape == (Shape { batch, seq_len, channels }),
            c == channels,
            old(out)@.len() == out@.len(),
            positions == shape.positions(),
            0 <= k <= positions,
            out@.len() == shape.elements(),
            inp@.len() == shape.elements(),
            mean@.len() == positions,
            rstd@.len() == positions,
            weight@.len() == channels,
            bias@.len() == channels,
            forall|j: int|
                0 <= j < k * channels ==> #[trigger] out@[j] == forward_value(
                    inp@,
                    weight@,
                    bias@,
                    c,
                    eps,
                    j,
                ),
            forall|j: int|
                k * channels <= j < out@.len() ==> #[trigger] out@[j] == old(out)@[j],
            forall|q: int| 0 <= q < k ==> #[trigger] mean@[q] == row_mean(inp@, c, q),
            forall|q: int| 0 <= q < k ==> #[trigger] rstd@[q] == row_rstd(inp@, c, q, eps),
            forall|q: int| k <= q < positions ==> #[trigger] mean@[q] == old(mean)@[q],
            forall|q: int| k <= q < positions ==> #[trigger] rstd@[q] == old(rstd)@[q],
        decreases positions - k,
    {
        let start = shape.row_of(k);
        let m = row_mean_exec(inp, start, channels, Ghost(k as int));
        let var = row_variance_exec(inp, start, channels, m, Ghost(k as int));
        let rs = S::rsqrt(S::plus(var, eps));
        let mut i: usize = 0;
        while i < channels
            invariant
                shape.wf(),
                positions == shape.positions(),
                c == channels,
                old(out)@.len() == out@.len(),
                k < positions,
                start == k * channels,
                start + channels <= shape.elements(),
                0 <= i <= channels,
                out@.len() == shape.elements(),
                inp@.len() == shape.elements(),
                weight@.len() == channels,
                bias@.len() == channels,
                m == row_mean(inp@, c, k as int),
                rs == row_rstd(inp@, c, k as int, eps),
                forall|j: int|
                    0 <= j < start + i ==> #[trigger] out@[j] == forward_value(
                        inp@,
                        weight@,
                        bias@,
                        c,
                        eps,
                        j,
                    ),
                forall|j: int| start + i <= j < out@.len() ==> #[trigger] out@[j] == old(out)@[j],
            decreases channels - i,
        {
            let j = start + i;
            proof {
                lemma_fundamental_div_mod_converse(j as int, channels as int, k as int, i as int);
            }
            let y = S::plus(S::times(S::times(S::minus(inp[j], m), rs), weight[i]), bias[i]);
            out[j] = y;
            i += 1;
        }
        mean[k] = m;
        rstd[k] = rs;
        proof {
            assert((k + 1) * channels == start + channels) by (nonlinear_arith)
                requires
                    start == k * channels,
            ;
        }
        k += 1;
    }
    proof {
        assert(k * channels == shape.elements()) by (nonlinear_arith)
            requires
                k == shape.batch * shape.seq_len,
                channels == shape.channels,
        ;
        assert(out@ =~= forward_output(inp@, weight@, bias@, c, eps));
        assert(mean@ =~= forward_means(inp@, c, old(mean)@.len()));
        assert(rstd@ =~= forward_rstds(inp@, c, old(rstd)@.len(), eps));
    }
    Ok(())
}

/// Mean of the `channels` values of `inp` from `start`, summed left to right.
fn row_mean_exec<S: Scalar>(inp: &Vec<S>, start: usize, channels: usize, k: Ghost<int>) -> (m: S)
    requires
        channels > 0,
        start == k@ * channels,
        start + channels <= inp@.len(),
        start + channels <= usize::MAX,
    ensures
        m == row_mean(inp@, channels, k@),
{
    let mut acc = S::zero();
    let mut i: usize = 0;
    while i < channels
        invariant
            0 <= i <= channels,
            start == k@ * channels,
            start + channels <= inp@.len(),
            start + channels <= usize::MAX,
        start + channels <= usize::MAX,
            acc == fold_plus(S::spec_zero(), row_vals(inp@, channels, k@), i as int),
        decreases channels - i,
    {
        acc = S::plus(acc, inp[start + i]);
        i += 1;
    }
    S::div_count(acc, channels)
}

/// Biased variance of the `channels` values of `inp` from `start` around `m`.
fn row_variance_exec<S: Scalar>(
    inp: &Vec<S>,
    start: usize,
    channels: usize,
    m: S,
    k: Ghost<int>,
) -> (v: S)
    requires
        channels > 0,
        start == k@ * channels,
        start + channels <= inp@.len(),
        start + channels <= usize::MAX,
        m == row_mean(inp@, channels, k@),
    ensures
        v == row_variance(inp@, channels, k@),
{
    let mut acc = S::zero();
    let mut i: usize = 0;
    while i < channels
        invariant
            0 <= i <= channels,
            start == k@ * channels,
            start + channels <= inp@.len(),
            start + channels <= usize::MAX,
        start + channels <= usize::MAX,
            acc == fold_plus(S::spec_zero(), row_sq_devs(inp@, channels, k@, m), i as int),
        decreases channels - i,
    {
        let d = S::minus(inp[start + i], m);
        acc = S::plus(acc, S::times(d, d));
        i += 1;
    }
    S::div_count(acc, channels)
}

} // verus!
