use gus::scene::nearest;

#[test]
fn nearest_of_no_primitives() {
    assert_eq!(nearest(&vec![]), None);
}

#[test]
fn nearest_when_every_primitive_is_missed() {
    assert_eq!(nearest(&vec![None, None, None]), None);
}

#[test]
fn nearest_skips_misses() {
    assert_eq!(nearest(&vec![None, Some(9), None, Some(4), Some(7)]), Some(3));
    assert_eq!(nearest(&vec![None, None, Some(u64::MAX)]), Some(2));
    assert_eq!(nearest(&vec![Some(0), None]), Some(0));
}

#[test]
fn nearest_of_equal_hits_is_the_earliest() {
    assert_eq!(nearest(&vec![Some(5), Some(3), Some(3), Some(8)]), Some(1));
}

#[test]
fn nearest_is_not_the_last_or_first_by_default() {
    assert_eq!(nearest(&vec![Some(5), Some(1), Some(6)]), Some(1));
    assert_eq!(nearest(&vec![Some(1), Some(5), Some(6)]), Some(0));
    assert_eq!(nearest(&vec![Some(7), Some(5), Some(2)]), Some(2));
}
