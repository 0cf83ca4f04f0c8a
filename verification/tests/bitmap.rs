use growable_map::bitmap::{Bitmap, MutableBitmap};
use growable_map::growable::utils::{extend_validity, prepare_validity};

fn bits_of(bitmap: &Bitmap) -> Vec<bool> {
    (0..bitmap.len()).map(|i| bitmap.get_bit(i)).collect()
}

#[test]
fn bitmap_counts_its_unset_bits() {
    let bitmap = Bitmap::new(vec![true, false, true, false, false]);
    assert_eq!(bitmap.len(), 5);
    assert_eq!(bitmap.unset_bits(), 3);
    assert!(bitmap.get_bit(0));
    assert!(!bitmap.get_bit(1));
    assert_eq!(Bitmap::new(vec![]).unset_bits(), 0);
    assert_eq!(Bitmap::new(vec![true, true]).unset_bits(), 0);
}

#[test]
fn mutable_bitmap_grows_at_the_end() {
    let mut bitmap = MutableBitmap::with_capacity(8);
    assert_eq!(bitmap.len(), 0);
    bitmap.push(true);
    bitmap.extend_constant(2, false);
    bitmap.extend_constant(0, true);
    let source = Bitmap::new(vec![false, true, true, false]);
    bitmap.extend_from_bitmap(&source, 1, 3);
    bitmap.extend_from_bitmap(&source, 4, 0);
    assert_eq!(bitmap.len(), 6);
    assert_eq!(bits_of(&bitmap.freeze()), vec![true, false, false, true, true, false]);
}

#[test]
fn prepare_validity_follows_the_flag() {
    assert!(prepare_validity(false, 10).is_none());
    let bitmap = prepare_validity(true, 10).unwrap();
    assert_eq!(bitmap.len(), 0);
}

#[test]
fn extend_validity_copies_the_bits_of_the_source() {
    let source = Bitmap::new(vec![true, false, true, true]);
    let mut validity = Some(MutableBitmap::new());
    extend_validity(&mut validity, Some(&source), 1, 2);
    assert_eq!(bits_of(&validity.unwrap().freeze()), vec![false, true]);
}

#[test]
fn extend_validity_sets_all_bits_for_a_source_without_bitmap() {
    let mut validity = Some(MutableBitmap::new());
    extend_validity(&mut validity, None, 5, 3);
    assert_eq!(bits_of(&validity.unwrap().freeze()), vec![true, true, true]);
}

#[test]
fn extend_validity_leaves_an_absent_bitmap_absent() {
    let source = Bitmap::new(vec![true, false]);
    let mut validity: Option<MutableBitmap> = None;
    extend_validity(&mut validity, Some(&source), 0, 2);
    assert!(validity.is_none());
}
