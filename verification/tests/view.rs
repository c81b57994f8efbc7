use polkadot_parts::view::{OurView, View};

fn h(b: u8) -> polkadot_parts::view::Hash {
    polkadot_parts::view::Hash::repeat_byte(b)
}

#[test]
fn repeat_byte_fills_both_halves() {
    let x = h(1);
    assert_eq!(x.high, 0x0101_0101_0101_0101_0101_0101_0101_0101u128);
    assert_eq!(x.low, x.high);
    assert!(h(1).le(&h(2)));
    assert!(!h(2).le(&h(1)));
    assert!(h(2).le(&h(2)));
}

#[test]
fn new_view_sorts_heads() {
    let v = View::new(vec![h(3), h(1), h(2), h(1)], 7);
    assert_eq!(v.iter(), vec![h(1), h(1), h(2), h(3)]);
    assert_eq!(v.finalized_number, 7);
    assert_eq!(v.len(), 4);
    assert!(!v.is_empty());
    assert_eq!(v.into_iter(), vec![h(1), h(1), h(2), h(3)]);
}

#[test]
fn with_finalized_has_no_heads() {
    let v = View::with_finalized(5);
    assert!(v.is_empty());
    assert_eq!(v.len(), 0);
    assert_eq!(v.finalized_number, 5);
    assert!(!v.contains(&h(1)));
}

#[test]
fn contains_difference_intersection() {
    let a = View::new(vec![h(1), h(2), h(3)], 0);
    let b = View::new(vec![h(2), h(4)], 0);
    assert!(a.contains(&h(2)));
    assert!(!a.contains(&h(4)));
    assert_eq!(a.difference(&b), vec![h(1), h(3)]);
    assert_eq!(a.intersection(&b), vec![h(2)]);
    assert_eq!(b.difference(&a), vec![h(4)]);
    assert_eq!(a.difference(&b).len() + a.intersection(&b).len(), a.len());
}

#[test]
fn replace_difference_yields_new_heads() {
    let mut v = View::new(vec![h(1), h(2)], 1);
    let new = View::new(vec![h(3), h(2), h(4)], 2);
    let fresh = v.replace_difference(new.clone());
    assert_eq!(fresh, vec![h(3), h(4)]);
    assert!(v == new);
    assert_eq!(v.finalized_number, 2);
}

#[test]
fn heads_eq_ignores_finalized_number() {
    let a = View::new(vec![h(2), h(1)], 1);
    let b = View::new(vec![h(1), h(2)], 9);
    let c = View::new(vec![h(1)], 1);
    assert!(a.check_heads_eq(&b));
    assert!(a != b);
    assert!(!a.check_heads_eq(&c));
    assert!(a == View::new(vec![h(1), h(2)], 1));
}

#[test]
fn our_view_wraps_a_sorted_view() {
    let ours = OurView::new(vec![h(2), h(1)], 0);
    assert_eq!(ours.iter(), vec![h(1), h(2)]);
    assert_eq!(ours.as_view().finalized_number, 0);
    assert!(ours == OurView::new(vec![h(1), h(2)], 0));
    assert!(ours != OurView::new(vec![h(1)], 0));
}
