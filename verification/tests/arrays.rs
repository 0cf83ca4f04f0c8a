use growable_map::array::map::{MapArray, MapType};
use growable_map::array::primitive::PrimitiveArray;
use growable_map::array::Array;
use growable_map::bitmap::Bitmap;
use growable_map::error::Error;
use growable_map::offset::OffsetsBuffer;

#[test]
fn primitive_array_reads_back_its_items() {
    let validity = Bitmap::new(vec![true, false, true]);
    let array = PrimitiveArray::try_new(vec![7i64, 8, 9], Some(validity)).ok().unwrap();
    assert_eq!(array.len(), 3);
    assert_eq!(array.null_count(), 1);
    assert_eq!(array.get(0), Some(7));
    assert_eq!(array.get(1), None);
    assert_eq!(array.get(2), Some(9));
    assert_eq!(array.value(1), 8);
    assert!(array.is_valid(0));
    assert!(!array.is_valid(1));
    assert!(array.validity().is_some());
}

#[test]
fn primitive_array_without_bitmap_has_no_nulls() {
    let array = PrimitiveArray::new(vec![1i32, 2], None);
    assert_eq!(array.len(), 2);
    assert_eq!(array.null_count(), 0);
    assert_eq!(array.get(1), Some(2));
    assert!(array.validity().is_none());
}

#[test]
fn primitive_array_refuses_a_bitmap_of_another_length() {
    let validity = Bitmap::new(vec![true, false]);
    let r = PrimitiveArray::try_new(vec![7i64, 8, 9], Some(validity));
    assert_eq!(r.err(), Some(Error::ValidityLength));
}

#[test]
fn map_array_reads_back_its_parts() {
    let child = PrimitiveArray::new(vec![1i64, 2, 3, 4, 5], None);
    let offsets = OffsetsBuffer::try_new(vec![0, 2, 2, 5]).unwrap();
    let validity = Bitmap::new(vec![true, false, true]);
    let array = MapArray::try_new(
        MapType { keys_sorted: true },
        offsets,
        Box::new(child),
        Some(validity),
    )
    .ok()
    .unwrap();
    assert_eq!(array.len(), 3);
    assert_eq!(array.null_count(), 1);
    assert_eq!(array.data_type(), &MapType { keys_sorted: true });
    assert_eq!(array.offsets().buffer(), &vec![0, 2, 2, 5]);
    assert_eq!(array.field().len(), 5);
    assert!(array.is_valid(0));
    assert!(!array.is_valid(1));
    assert_eq!(array.validity().unwrap().len(), 3);
}

#[test]
fn map_array_refuses_boundaries_past_the_child() {
    let child = PrimitiveArray::new(vec![1i64, 2, 3, 4], None);
    let offsets = OffsetsBuffer::try_new(vec![0, 2, 2, 5]).unwrap();
    let r = MapArray::try_new(MapType { keys_sorted: false }, offsets, Box::new(child), None);
    assert_eq!(r.err(), Some(Error::OffsetsExceedValues));
}

#[test]
fn map_array_refuses_a_bitmap_of_another_length() {
    let child = PrimitiveArray::new(vec![1i64, 2, 3, 4, 5], None);
    let offsets = OffsetsBuffer::try_new(vec![0, 2, 2, 5]).unwrap();
    let validity = Bitmap::new(vec![true, false]);
    let r = MapArray::try_new(
        MapType { keys_sorted: false },
        offsets,
        Box::new(child),
        Some(validity),
    );
    assert_eq!(r.err(), Some(Error::ValidityLength));
}

#[test]
fn map_array_reports_the_boundaries_first() {
    let child = PrimitiveArray::new(vec![1i64], None);
    let offsets = OffsetsBuffer::try_new(vec![0, 2]).unwrap();
    let validity = Bitmap::new(vec![true, false]);
    let r = MapArray::try_new(
        MapType { keys_sorted: false },
        offsets,
        Box::new(child),
        Some(validity),
    );
    assert_eq!(r.err(), Some(Error::OffsetsExceedValues));
}

#[test]
fn map_array_may_leave_child_items_unused() {
    let child = PrimitiveArray::new(vec![1i64, 2, 3, 4, 5, 6, 7], None);
    let offsets = OffsetsBuffer::try_new(vec![2, 3, 5]).unwrap();
    let array = MapArray::new(MapType { keys_sorted: false }, offsets, Box::new(child), None);
    assert_eq!(array.len(), 2);
    assert_eq!(array.null_count(), 0);
    assert!(array.validity().is_none());
}
