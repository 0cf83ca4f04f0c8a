use growable_map::array::map::{MapArray, MapType};
use growable_map::array::primitive::PrimitiveArray;
use growable_map::array::Array;
use growable_map::bitmap::Bitmap;
use growable_map::growable::map::GrowableMap;
use growable_map::growable::primitive::GrowablePrimitive;
use growable_map::growable::Growable;
use growable_map::offset::OffsetsBuffer;

type Inner = MapArray<PrimitiveArray<i64>>;
type Outer = MapArray<Inner>;
type InnerBuilder<'a> = GrowableMap<'a, PrimitiveArray<i64>, GrowablePrimitive<'a, i64>>;
type OuterBuilder<'a> = GrowableMap<'a, Inner, InnerBuilder<'a>>;

fn inner(offsets: Vec<i32>, validity: Option<Vec<bool>>, values: Vec<i64>) -> Inner {
    MapArray::new(
        MapType { keys_sorted: false },
        OffsetsBuffer::try_new(offsets).unwrap(),
        Box::new(PrimitiveArray::new(values, None)),
        validity.map(Bitmap::new),
    )
}

fn outer(offsets: Vec<i32>, validity: Option<Vec<bool>>, child: Inner) -> Outer {
    MapArray::new(
        MapType { keys_sorted: false },
        OffsetsBuffer::try_new(offsets).unwrap(),
        Box::new(child),
        validity.map(Bitmap::new),
    )
}

#[test]
fn map_of_maps_is_copied_level_by_level() {
    // inner entries: [1, 2], [], null, [3], [4, 5, 6]
    let child = inner(
        vec![0, 2, 2, 2, 3, 6],
        Some(vec![true, true, false, true, true]),
        vec![1, 2, 3, 4, 5, 6],
    );
    // outer entries: {0, 1}, {2}, {3, 4}
    let source = outer(vec![0, 2, 3, 5], None, child);
    let mut growable = OuterBuilder::new(vec![&source], false, 2);
    growable.extend(0, 1, 2);
    assert_eq!(growable.len(), 2);
    let array = growable.to();
    assert_eq!(array.offsets().buffer(), &vec![0, 1, 3]);
    assert!(array.validity().is_none());
    let copied = array.field();
    assert_eq!(copied.len(), 3);
    assert_eq!(copied.offsets().buffer(), &vec![0, 0, 1, 4]);
    let bits = copied.validity().unwrap();
    assert_eq!((bits.get_bit(0), bits.get_bit(1), bits.get_bit(2)), (false, true, true));
    assert_eq!(copied.field().len(), 4);
    assert_eq!(copied.field().get(0), Some(3));
    assert_eq!(copied.field().get(3), Some(6));
}

#[test]
fn nulls_of_the_outer_level_do_not_reach_the_inner_one() {
    let child = inner(vec![0, 1], None, vec![9]);
    let source = outer(vec![0, 1], None, child);
    let mut growable = OuterBuilder::new(vec![&source], true, 0);
    growable.extend_validity(2);
    growable.extend(0, 0, 1);
    let array = growable.to();
    assert_eq!(array.len(), 3);
    assert_eq!(array.null_count(), 2);
    assert_eq!(array.offsets().buffer(), &vec![0, 0, 0, 1]);
    assert_eq!(array.field().len(), 1);
    assert_eq!(array.field().null_count(), 0);
    assert_eq!(array.field().field().get(0), Some(9));
}
