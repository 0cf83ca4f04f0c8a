use growable_map::array::primitive::PrimitiveArray;
use growable_map::array::Array;
use growable_map::bitmap::Bitmap;
use growable_map::growable::primitive::GrowablePrimitive;
use growable_map::growable::utils::any_nulls;
use growable_map::growable::Growable;

fn primitive(items: &[Option<i64>]) -> PrimitiveArray<i64> {
    let values: Vec<i64> = items.iter().map(|item| item.unwrap_or(-1)).collect();
    if items.iter().any(|item| item.is_none()) {
        let bits: Vec<bool> = items.iter().map(|item| item.is_some()).collect();
        PrimitiveArray::new(values, Some(Bitmap::new(bits)))
    } else {
        PrimitiveArray::new(values, None)
    }
}

fn items(array: &PrimitiveArray<i64>) -> Vec<Option<i64>> {
    (0..array.len()).map(|i| array.get(i)).collect()
}

#[test]
fn any_nulls_finds_a_null_in_some_source() {
    let a = primitive(&[Some(1), Some(2)]);
    let b = primitive(&[Some(3), None]);
    assert!(!any_nulls(&vec![&a]));
    assert!(any_nulls(&vec![&a, &b]));
    assert!(any_nulls(&vec![&b, &a]));
    let c = PrimitiveArray::new(vec![1i64], Some(Bitmap::new(vec![true])));
    assert!(!any_nulls(&vec![&a, &c]));
}

#[test]
fn primitive_builder_copies_ranges_in_order() {
    let a = primitive(&[Some(1), Some(2), Some(3)]);
    let b = primitive(&[Some(10), None, Some(30)]);
    let mut growable = GrowablePrimitive::new(vec![&a, &b], false, 4);
    growable.extend(1, 1, 2);
    growable.extend(0, 0, 2);
    growable.extend(1, 3, 0);
    assert_eq!(growable.len(), 4);
    let array = growable.to();
    assert_eq!(items(&array), vec![None, Some(30), Some(1), Some(2)]);
    assert_eq!(array.null_count(), 1);
}

#[test]
fn primitive_builder_appends_nulls_when_it_tracks_them() {
    let a = primitive(&[Some(1), Some(2), Some(3)]);
    let mut growable = GrowablePrimitive::new(vec![&a], true, 0);
    growable.extend(0, 2, 1);
    growable.extend_validity(2);
    assert_eq!(growable.len(), 3);
    let array = growable.to();
    assert_eq!(items(&array), vec![Some(3), None, None]);
}

#[test]
fn primitive_builder_without_validity_keeps_none() {
    let a = primitive(&[Some(1), Some(2), Some(3)]);
    let mut growable = GrowablePrimitive::new(vec![&a], false, 0);
    growable.extend(0, 0, 3);
    growable.extend(0, 1, 1);
    let array = growable.to();
    assert!(array.validity().is_none());
    assert_eq!(array.len(), 4);
    assert_eq!(array.null_count(), 0);
    assert_eq!(items(&array), vec![Some(1), Some(2), Some(3), Some(2)]);
}

#[test]
fn primitive_builder_is_empty_after_finishing() {
    let a = primitive(&[Some(1), None]);
    let mut growable = GrowablePrimitive::new(vec![&a], false, 0);
    growable.extend(0, 0, 2);
    let first = growable.as_box();
    assert_eq!(items(&first), vec![Some(1), None]);
    assert_eq!(growable.len(), 0);
    let second = growable.as_arc();
    assert_eq!(second.len(), 0);
    assert!(second.validity().is_some());
    growable.extend(0, 1, 1);
    let third = growable.to();
    assert_eq!(items(&third), vec![None]);
}
