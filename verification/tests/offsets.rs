use growable_map::error::Error;
use growable_map::offset::{Offsets, OffsetsBuffer};

#[test]
fn new_offsets_hold_a_single_zero() {
    let offsets = Offsets::new();
    assert_eq!(offsets.len(), 1);
    assert_eq!(offsets.len_proxy(), 0);
    assert_eq!(offsets.last(), 0);
    let buffer = offsets.freeze();
    assert_eq!(buffer.buffer(), &vec![0]);
}

#[test]
fn extend_from_slice_rebases_on_the_last_boundary() {
    let source = OffsetsBuffer::try_new(vec![0, 2, 2, 5]).unwrap();
    let mut offsets = Offsets::with_capacity(4);
    offsets.extend_constant(1);
    assert_eq!(offsets.try_extend_from_slice(&source, 0, 1), Ok(()));
    assert_eq!(offsets.try_extend_from_slice(&source, 1, 2), Ok(()));
    assert_eq!(offsets.freeze().buffer(), &vec![0, 0, 2, 2, 5]);
}

#[test]
fn extend_from_slice_reports_overflow_and_changes_nothing() {
    let source = OffsetsBuffer::try_new(vec![0, i32::MAX]).unwrap();
    let mut offsets = Offsets::new();
    assert_eq!(offsets.try_extend_from_slice(&source, 0, 1), Ok(()));
    assert_eq!(offsets.last(), i32::MAX);
    let one = OffsetsBuffer::try_new(vec![7, 8]).unwrap();
    assert_eq!(offsets.try_extend_from_slice(&one, 0, 1), Err(Error::Overflow));
    assert_eq!(offsets.len(), 2);
    assert_eq!(offsets.last(), i32::MAX);
    assert_eq!(offsets.try_extend_from_slice(&one, 0, 0), Ok(()));
    assert_eq!(offsets.len(), 2);
}

#[test]
fn extend_from_slice_follows_the_formula() {
    // the k-th new boundary is last + (source[start + 1 + k] - source[start])
    let source = OffsetsBuffer::try_new(vec![10, 13, 13, 20, 24]).unwrap();
    let mut offsets = Offsets::new();
    offsets.extend_constant(2);
    assert_eq!(offsets.try_extend_from_slice(&source, 1, 3), Ok(()));
    // last = 0, source[1] = 13: 13 - 13, 20 - 13, 24 - 13
    assert_eq!(offsets.last(), 11);
    assert_eq!(offsets.len_proxy(), 5);
    assert_eq!(offsets.freeze().buffer(), &vec![0, 0, 0, 0, 7, 11]);
}

#[test]
fn extend_from_slice_up_to_the_limit_succeeds() {
    let source = OffsetsBuffer::try_new(vec![5, i32::MAX]).unwrap();
    let mut offsets = Offsets::new();
    let five = OffsetsBuffer::try_new(vec![0, 5]).unwrap();
    assert_eq!(offsets.try_extend_from_slice(&five, 0, 1), Ok(()));
    assert_eq!(offsets.try_extend_from_slice(&source, 0, 1), Ok(()));
    assert_eq!(offsets.last(), i32::MAX);
    assert_eq!(offsets.len(), 3);
}

#[test]
fn extend_constant_repeats_the_last_boundary() {
    let source = OffsetsBuffer::try_new(vec![0, 4]).unwrap();
    let mut offsets = Offsets::new();
    assert_eq!(offsets.try_extend_from_slice(&source, 0, 1), Ok(()));
    offsets.extend_constant(3);
    offsets.extend_constant(0);
    assert_eq!(offsets.len(), 5);
    assert_eq!(offsets.freeze().buffer(), &vec![0, 4, 4, 4, 4]);
}

#[test]
fn offsets_buffer_accepts_boundaries() {
    let buffer = OffsetsBuffer::try_new(vec![3, 3, 7]).unwrap();
    assert_eq!(buffer.len_proxy(), 2);
    assert_eq!(buffer.first(), 3);
    assert_eq!(buffer.last(), 7);
    assert_eq!(buffer.buffer(), &vec![3, 3, 7]);
    let single = OffsetsBuffer::new();
    assert_eq!(single.len_proxy(), 0);
    assert_eq!(single.buffer(), &vec![0]);
}

#[test]
fn offsets_buffer_refuses_what_is_not_boundaries() {
    assert_eq!(OffsetsBuffer::try_new(vec![]).err(), Some(Error::InvalidOffsets));
    assert_eq!(OffsetsBuffer::try_new(vec![-1, 2]).err(), Some(Error::InvalidOffsets));
    assert_eq!(OffsetsBuffer::try_new(vec![0, 3, 2]).err(), Some(Error::InvalidOffsets));
    assert_eq!(OffsetsBuffer::try_new(vec![0, 1, 2, 1]).err(), Some(Error::InvalidOffsets));
    assert!(OffsetsBuffer::try_new(vec![0]).is_ok());
}
