use layernorm::shape::{Shape, ShapeError};
use layernorm::validate::{validate_backward, validate_forward};

#[test]
fn forward_accepts_matching_buffers() {
    assert_eq!(
        validate_forward(1, 1, 4, 4, 1, 1, 4, 4, 4),
        Ok(Shape { batch: 1, seq_len: 1, channels: 4 })
    );
    assert_eq!(
        validate_forward(2, 3, 5, 30, 6, 6, 30, 5, 5),
        Ok(Shape { batch: 2, seq_len: 3, channels: 5 })
    );
}

#[test]
fn forward_accepts_empty_batch() {
    assert_eq!(
        validate_forward(0, 3, 5, 0, 0, 0, 0, 5, 5),
        Ok(Shape { batch: 0, seq_len: 3, channels: 5 })
    );
}

#[test]
fn forward_rejects_each_mismatched_buffer() {
    let good = [30usize, 6, 6, 30, 5, 5];
    for k in 0..good.len() {
        for delta in [1usize, usize::MAX] {
            let mut lens = good;
            lens[k] = lens[k].wrapping_add(delta);
            assert_eq!(
                validate_forward(2, 3, 5, lens[0], lens[1], lens[2], lens[3], lens[4], lens[5]),
                Err(ShapeError::InvalidShape),
                "buffer {} with length {}",
                k,
                lens[k]
            );
        }
    }
}

#[test]
fn forward_rejects_zero_channels() {
    assert_eq!(
        validate_forward(1, 1, 0, 0, 1, 1, 0, 0, 0),
        Err(ShapeError::DegenerateInput)
    );
    assert_eq!(
        validate_forward(1, 1, 0, 4, 9, 1, 4, 4, 4),
        Err(ShapeError::DegenerateInput)
    );
}

#[test]
fn forward_rejects_overflowing_dimensions() {
    assert_eq!(
        validate_forward(usize::MAX, 2, 2, 0, 0, 0, 0, 2, 2),
        Err(ShapeError::InvalidShape)
    );
}

#[test]
fn forward_rejects_scale_sized_by_positions() {
    // Scale and shift are per channel, not per position.
    assert_eq!(
        validate_forward(2, 3, 4, 24, 6, 6, 24, 6, 6),
        Err(ShapeError::InvalidShape)
    );
}

#[test]
fn backward_accepts_matching_buffers() {
    assert_eq!(
        validate_backward(1, 1, 4, 4, 4, 4, 4, 4, 4, 1, 1),
        Ok(Shape { batch: 1, seq_len: 1, channels: 4 })
    );
    assert_eq!(
        validate_backward(2, 3, 5, 30, 5, 5, 30, 30, 5, 6, 6),
        Ok(Shape { batch: 2, seq_len: 3, channels: 5 })
    );
}

#[test]
fn backward_rejects_each_mismatched_buffer() {
    let good = [30usize, 5, 5, 30, 30, 5, 6, 6];
    for k in 0..good.len() {
        for delta in [1usize, usize::MAX] {
            let mut lens = good;
            lens[k] = lens[k].wrapping_add(delta);
            assert_eq!(
                validate_backward(
                    2, 3, 5, lens[0], lens[1], lens[2], lens[3], lens[4], lens[5], lens[6],
                    lens[7]
                ),
                Err(ShapeError::InvalidShape),
                "buffer {} with length {}",
                k,
                lens[k]
            );
        }
    }
}

#[test]
fn backward_rejects_zero_channels() {
    assert_eq!(
        validate_backward(1, 1, 0, 0, 0, 0, 0, 0, 0, 1, 1),
        Err(ShapeError::DegenerateInput)
    );
}

#[test]
fn backward_rejects_statistics_of_another_shape() {
    assert_eq!(
        validate_backward(2, 3, 5, 30, 5, 5, 30, 30, 5, 3, 3),
        Err(ShapeError::InvalidShape)
    );
}
