use std::cmp::Ordering;

use wayland_overlay_media_viewer::draw_order::{compare_draw_orders, topmost_hit, DrawOrder, TopmostCounter};

#[test]
fn counter_hands_out_increasing_orders() {
    let mut c = TopmostCounter::new();
    assert_eq!(c.get_new_topmost_id(), DrawOrder(0));
    assert_eq!(c.get_new_topmost_id(), DrawOrder(1));
    let third = c.get_new_topmost_id();
    assert!(third.0 > 1);
}

#[test]
fn fresh_counter_gives_k_minus_one_on_kth_call() {
    let mut c = TopmostCounter::new();
    let ids: Vec<i64> = (0..50).map(|_| c.get_new_topmost_id().0).collect();
    for (k, id) in ids.iter().enumerate() {
        assert_eq!(*id, k as i64);
    }
    assert!(ids.windows(2).all(|w| w[0] < w[1]));
}

#[test]
fn draw_orders_compare_with_missing_as_zero() {
    assert_eq!(compare_draw_orders(Some(DrawOrder(1)), Some(DrawOrder(2))), Some(Ordering::Less));
    assert_eq!(compare_draw_orders(Some(DrawOrder(3)), None), Some(Ordering::Greater));
    assert_eq!(compare_draw_orders(None, Some(DrawOrder(-1))), Some(Ordering::Greater));
    assert_eq!(compare_draw_orders(None, Some(DrawOrder(0))), None);
    assert_eq!(compare_draw_orders(Some(DrawOrder(7)), Some(DrawOrder(7))), None);
}

#[test]
fn swapped_items_compare_reversed() {
    let a = Some(DrawOrder(4));
    let b = Some(DrawOrder(9));
    assert_eq!(compare_draw_orders(a, b).map(Ordering::reverse), compare_draw_orders(b, a));
}

#[test]
fn topmost_hit_is_first_with_highest_order() {
    assert_eq!(topmost_hit(&vec![Some(3), None, Some(5), Some(5), Some(-2)]), Some(2));
    assert_eq!(topmost_hit(&vec![None, Some(0)]), Some(1));
}

#[test]
fn no_topmost_hit_without_clickable_hits() {
    assert_eq!(topmost_hit(&vec![]), None);
    assert_eq!(topmost_hit(&vec![None, None]), None);
    assert_eq!(topmost_hit(&vec![Some(i64::MIN)]), None);
}
