use crate::shape::{Shape, ShapeError};
use vstd::prelude::*;

verus! {

/// The outcome of a check, with the accepted shape dropped.
pub open spec fn as_unit(o: Result<Shape, ShapeError>) -> Result<(), ShapeError> {
    match o {
        Ok(_) => Ok(()),
        Err(e) => Err(e),
    }
}

/// Outcome of checking the buffers of a forward pass: output and input
/// hold `B * T * C` values, mean and rstd hold `B * T`, scale and shift
/// hold `C`.
pub open spec fn forward_outcome(
    batch: usize,
    seq_len: usize,
    channels: usize,
    out_len: int,
    mean_len: int,
    rstd_len: int,
    inp_len: int,
    weight_len: int,
    bias_len: int,
) -> Result<Shape, ShapeError> {
    let s = Shape { batch, seq_len, channels };
    if channels == 0 {
        Err(ShapeError::DegenerateInput)
    } else if out_len == s.elements() && inp_len == s.elements() && mean_len == s.positions()
        && rstd_len == s.positions() && weight_len == channels && bias_len == channels {
        Ok(s)
    } else {
        Err(ShapeError::InvalidShape)
    }
}

/// Outcome of checking the buffers of a backward pass: input gradient,
/// upstream gradient and saved input hold `B * T * C` values, saved mean
/// and rstd hold `B * T`, scale and the scale and shift gradients hold `C`.
pub open spec fn backward_outcome(
    batch: usize,
    seq_len: usize,
    channels: usize,
    dinp_len: int,
    dweight_len: int,
    dbias_len: int,
    dout_len: int,
    inp_len: int,
    weight_len: int,
    mean_len: int,
    rstd_len: int,
) -> Result<Shape, ShapeError> {
    let s = Shape { batch, seq_len, channels };
    if channels == 0 {
        Err(ShapeError::DegenerateInput)
    } else if dinp_len == s.elements() && dout_len == s.elements() && inp_len == s.elements()
        && mean_len == s.positions() && rstd_len == s.positions() && weight_len == channels
        && dweight_len == channels && dbias_len == channels {
        Ok(s)
    } else {
        Err(ShapeError::InvalidShape)
    }
}

/// Checks the buffer lengths of a forward pass against `(B, T, C)`
/// before any of them is written.
pub fn validate_forward(
    batch: usize,
    seq_len: usize,
    channels: usize,
    out_len: usize,
    mean_len: usize,
    rstd_len: usize,
    inp_len: usize,
    weight_len: usize,
    bias_len: usize,
) -> (r: Result<Shape, ShapeError>)
    ensures
        r == forward_outcome(
            batch,
            seq_len,
            channels,
            out_len as int,
            mean_len as int,
            rstd_len as int,
            inp_len as int,
            weight_len as int,
            bias_len as int,
        ),
        r matches Ok(s) ==> s.wf(),
{
    let shape = match Shape::new(batch, seq_len, channels) {
        Ok(s) => s,
        Err(e) => return Err(e),
    };
    let n = shape.num_elements();
    let p = shape.num_positions();
    if out_len == n && inp_len == n && mean_len == p && rstd_len == p && weight_len == channels
        && bias_len == channels {
        Ok(shape)
    } else {
        Err(ShapeError::InvalidShape)
    }
}

/// Checks the buffer lengths of a backward pass against `(B, T, C)`
/// before any gradient is accumulated.
pub fn validate_backward(
    batch: usize,
    seq_len: usize,
    channels: usize,
    dinp_len: usize,
    dweight_len: usize,
    dbias_len: usize,
    dout_len: usize,
    inp_len: usize,
    weight_len: usize,
    mean_len: usize,
    rstd_len: usize,
) -> (r: Result<Shape, ShapeError>)
    ensures
        r == backward_outcome(
            batch,
            seq_len,
            channels,
            dinp_len as int,
            dweight_len as int,
            dbias_len as int,
            dout_len as int,
            inp_len as int,
            weight_len as int,
            mean_len as int,
            rstd_len as int,
        ),
        r matches Ok(s) ==> s.wf(),
{
    let shape = match Shape::new(batch, seq_len, channels) {
        Ok(s) => s,
        Err(e) => return Err(e),
    };
    let n = shape.num_elements();
    let p = shape.num_positions();
    if dinp_len == n && dout_len == n && inp_len == n && mean_len == p && rstd_len == p
        && weight_len == channels && dweight_len == channels && dbias_len == channels {
        Ok(shape)
    } else {
        Err(ShapeError::InvalidShape)
    }
}

} // verus!
