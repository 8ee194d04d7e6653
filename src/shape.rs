use vstd::arithmetic::div_mod::{lemma_fundamental_div_mod, lemma_fundamental_div_mod_converse};
use vstd::prelude::*;

verus! {

/// Why an invocation was refused before any buffer was written.
#[derive(Debug, Clone, Copy, PartialEq, Eq, Structural)]
pub enum ShapeError {
    /// A buffer length disagrees with the declared dimensions, or the
    /// element count `B * T * C` does not fit in `usize`.
    InvalidShape,
    /// The channel count is zero: no mean or variance exists.
    DegenerateInput,
}

/// Dimensions of an activation tensor: `batch` samples of `seq_len`
/// positions, each a vector of `channels` values.
#[derive(Debug, Clone, Copy, PartialEq, Eq, Structural)]
pub struct Shape {
    pub batch: usize,
    pub seq_len: usize,
    pub channels: usize,
}

impl Shape {
    /// Number of positions `(b, t)`: the length of a statistics buffer.
    pub open spec fn positions(self) -> int {
        self.batch * self.seq_len
    }

    /// Number of activation elements: `B * T * C`.
    pub open spec fn elements(self) -> int {
        self.batch * self.seq_len * self.channels
    }

    /// At least one channel, and every flat offset fits in `usize`.
    pub open spec fn wf(self) -> bool {
        self.channels > 0 && self.elements() <= usize::MAX
    }

    /// Flat offset of activation element `(b, t, c)`.
    pub open spec fn offset_of(self, b: int, t: int, c: int) -> int {
        b * self.seq_len * self.channels + t * self.channels + c
    }

    /// Flat offset of the statistics slot of position `(b, t)`.
    pub open spec fn stat_offset_of(self, b: int, t: int) -> int {
        b * self.seq_len + t
    }

    /// Builds the shape `(batch, seq_len, channels)`.
    ///
    /// Zero channels is `DegenerateInput`; an element count beyond `usize`
    /// is `InvalidShape`.
    pub fn new(batch: usize, seq_len: usize, channels: usize) -> (r: Result<Shape, ShapeError>)
        ensures
            channels == 0 ==> r == Err::<Shape, ShapeError>(ShapeError::DegenerateInput),
            channels > 0 && batch * seq_len * channels > usize::MAX ==> r == Err::<
                Shape,
                ShapeError,
            >(ShapeError::InvalidShape),
            channels > 0 && batch * seq_len * channels <= usize::MAX ==> r == Ok::<
                Shape,
                ShapeError,
            >(Shape { batch, seq_len, channels }),
            r matches Ok(s) ==> s.wf(),
    {
        if channels == 0 {
            return Err(ShapeError::DegenerateInput);
        }
        match batch.checked_mul(seq_len) {
            None => {
                proof {
                    lemma_product_grows(batch as int * seq_len as int, channels as int);
                }
                Err(ShapeError::InvalidShape)
            },
            Some(bt) => match bt.checked_mul(channels) {
                None => Err(ShapeError::InvalidShape),
                Some(_) => Ok(Shape { batch, seq_len, channels }),
            },
        }
    }

    /// Length of an activation buffer: `B * T * C`.
    pub fn num_elements(&self) -> (r: usize)
        requires
            self.wf(),
        ensures
            r == self.elements(),
    {
        proof {
            lemma_product_grows(self.positions(), self.channels as int);
        }
        self.batch * self.seq_len * self.channels
    }

    /// Length of a statistics buffer: `B * T`.
    pub fn num_positions(&self) -> (r: usize)
        requires
            self.wf(),
        ensures
            r == self.positions(),
    {
        proof {
            lemma_product_grows(self.positions(), self.channels as int);
        }
        self.batch * self.seq_len
    }

    /// Offset of the statistics slot of position `(b, t)`: `b * T + t`.
    pub fn stat_offset(&self, b: usize, t: usize) -> (r: usize)
        requires
            self.wf(),
            b < self.batch,
            t < self.seq_len,
        ensures
            r == self.stat_offset_of(b as int, t as int),
            r < self.positions(),
    {
        proof {
            lemma_layout(*self, b as int, t as int, 0);
            lemma_product_grows(self.positions(), self.channels as int);
        }
        b * self.seq_len + t
    }

    /// Offset of the first channel of position `(b, t)`. The `C` values of
    /// that position occupy `r .. r + C`.
    pub fn row_start(&self, b: usize, t: usize) -> (r: usize)
        requires
            self.wf(),
            b < self.batch,
            t < self.seq_len,
        ensures
            r == self.offset_of(b as int, t as int, 0),
            r == self.channels * self.stat_offset_of(b as int, t as int),
            r + self.channels <= self.elements(),
    {
        proof {
            lemma_layout(*self, b as int, t as int, 0);
            lemma_layout(*self, b as int, t as int, self.channels - 1);
        }
        let p = self.stat_offset(b, t);
        self.channels * p
    }

    /// Offset of the first value of the `k`-th position in row-major order:
    /// `k * C`. Its `C` values occupy `r .. r + C`.
    pub fn row_of(&self, k: usize) -> (r: usize)
        requires
            self.wf(),
            k < self.positions(),
        ensures
            r == k * self.channels,
            r + self.channels <= self.elements(),
    {
        proof {
            let p = self.positions();
            let c = self.channels as int;
            assert(k * c + c <= p * c) by (nonlinear_arith)
                requires
                    k < p,
                    c > 0,
            ;
        }
        k * self.channels
    }

    /// Offset of activation element `(b, t, c)`: `b * T * C + t * C + c`.
    pub fn offset(&self, b: usize, t: usize, c: usize) -> (r: usize)
        requires
            self.wf(),
            b < self.batch,
            t < self.seq_len,
            c < self.channels,
        ensures
            r == self.offset_of(b as int, t as int, c as int),
            r < self.elements(),
    {
        proof {
            lemma_layout(*self, b as int, t as int, c as int);
        }
        self.row_start(b, t) + c
    }
}

/// The flat offset of `(b, t, c)` is `C` times the statistics offset of
/// `(b, t)` plus `c`, and both lie inside their buffers.
proof fn lemma_layout(s: Shape, b: int, t: int, c: int)
    requires
        0 <= b < s.batch,
        0 <= t < s.seq_len,
        0 <= c < s.channels,
    ensures
        s.offset_of(b, t, c) == s.channels * s.stat_offset_of(b, t) + c,
        0 <= s.stat_offset_of(b, t) < s.positions(),
        0 <= s.offset_of(b, t, c) < s.elements(),
{
    let bb = s.batch as int;
    let tt = s.seq_len as int;
    let cc = s.channels as int;
    let p = b * tt + t;
    assert(b * tt * cc + t * cc + c == cc * p + c) by (nonlinear_arith)
        requires
            p == b * tt + t,
    ;
    assert(0 <= p < bb * tt) by (nonlinear_arith)
        requires
            p == b * tt + t,
            0 <= b < bb,
            0 <= t < tt,
    ;
    assert(0 <= cc * p + c < bb * tt * cc) by (nonlinear_arith)
        requires
            0 <= p < bb * tt,
            0 <= c < cc,
    ;
}

/// Distinct positions `(b, t)` own distinct statistics slots.
pub proof fn lemma_stat_offset_injective(s: Shape, b1: int, t1: int, b2: int, t2: int)
    requires
        0 <= b1 < s.batch,
        0 <= t1 < s.seq_len,
        0 <= b2 < s.batch,
        0 <= t2 < s.seq_len,
        s.stat_offset_of(b1, t1) == s.stat_offset_of(b2, t2),
    ensures
        b1 == b2,
        t1 == t2,
{
    let tt = s.seq_len as int;
    let p = s.stat_offset_of(b1, t1);
    assert(p == b1 * tt + t1);
    assert(p == b2 * tt + t2);
    lemma_fundamental_div_mod_converse(p, tt, b1, t1);
    lemma_fundamental_div_mod_converse(p, tt, b2, t2);
}

/// Distinct elements `(b, t, c)` live at distinct flat offsets, so the
/// writes of one position never land in another position's values.
pub proof fn lemma_offset_injective(
    s: Shape,
    b1: int,
    t1: int,
    c1: int,
    b2: int,
    t2: int,
    c2: int,
)
    requires
        0 <= b1 < s.batch,
        0 <= t1 < s.seq_len,
        0 <= c1 < s.channels,
        0 <= b2 < s.batch,
        0 <= t2 < s.seq_len,
        0 <= c2 < s.channels,
        s.offset_of(b1, t1, c1) == s.offset_of(b2, t2, c2),
    ensures
        b1 == b2,
        t1 == t2,
        c1 == c2,
{
    let cc = s.channels as int;
    let o = s.offset_of(b1, t1, c1);
    let pos_a = s.stat_offset_of(b1, t1);
    let pos_b = s.stat_offset_of(b2, t2);
    lemma_layout(s, b1, t1, c1);
    lemma_layout(s, b2, t2, c2);
    assert(o == pos_a * cc + c1) by (nonlinear_arith)
        requires
            o == cc * pos_a + c1,
    ;
    assert(o == pos_b * cc + c2) by (nonlinear_arith)
        requires
            o == cc * pos_b + c2,
    ;
    lemma_fundamental_div_mod_converse(o, cc, pos_a, c1);
    lemma_fundamental_div_mod_converse(o, cc, pos_b, c2);
    lemma_stat_offset_injective(s, b1, t1, b2, t2);
}

/// Every offset of an activation buffer holds some element `(b, t, c)`:
/// `b = i / (T * C)`, `t = (i / C) % T`, `c = i % C`.
pub proof fn lemma_offset_decompose(s: Shape, i: int)
    requires
        s.channels > 0,
        0 <= i < s.elements(),
    ensures
        0 <= (i / (s.channels as int)) / (s.seq_len as int) < s.batch,
        0 <= (i / (s.channels as int)) % (s.seq_len as int) < s.seq_len,
        0 <= i % (s.channels as int) < s.channels,
        s.offset_of(
            (i / (s.channels as int)) / (s.seq_len as int),
            (i / (s.channels as int)) % (s.seq_len as int),
            i % (s.channels as int),
        ) == i,
{
    let bb = s.batch as int;
    let tt = s.seq_len as int;
    let cc = s.channels as int;
    let p = i / cc;
    let c = i % cc;
    assert(tt > 0) by (nonlinear_arith)
        requires
            0 <= i < bb * tt * cc,
            tt >= 0,
    ;
    lemma_fundamental_div_mod(i, cc);
    assert(0 <= c < cc);
    assert(0 <= p < bb * tt) by (nonlinear_arith)
        requires
            i == cc * p + c,
            0 <= c < cc,
            0 <= i < bb * tt * cc,
    ;
    let b = p / tt;
    let t = p % tt;
    lemma_fundamental_div_mod(p, tt);
    assert(0 <= t < tt);
    assert(0 <= b < bb) by (nonlinear_arith)
        requires
            p == tt * b + t,
            0 <= t < tt,
            0 <= p < bb * tt,
    ;
    assert(b * tt * cc + t * cc + c == i) by (nonlinear_arith)
        requires
            i == cc * p + c,
            p == tt * b + t,
    ;
}

/// Multiplying a non-negative number by a positive integer does not shrink it.
proof fn lemma_product_grows(x: int, k: int)
    requires
        x >= 0,
        k >= 1,
    ensures
        x * k >= x,
{
    assert(x * k >= x * 1) by (nonlinear_arith)
        requires
            x >= 0,
            k >= 1,
    ;
}

} // verus!
