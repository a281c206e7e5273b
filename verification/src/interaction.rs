//! Decisions on pointer interaction with popups.
use vstd::prelude::*;
use crate::pointer::PointerButton;

verus! {

/// Longest press, in nanoseconds, that still counts as a click.
pub const CLICK_MAX_NANOS: u128 = 200_000_000;

/// A click closes a popup when it is a primary click no longer than 200 ms
/// on a popup that closes on click.
pub fn closes_on_click(press_nanos: u128, button: PointerButton, close_on_click: bool) -> (res: bool)
    ensures
        res == (press_nanos <= CLICK_MAX_NANOS && button == PointerButton::Primary && close_on_click),
{
    if press_nanos > CLICK_MAX_NANOS {
        return false;
    }
    match button {
        PointerButton::Primary => close_on_click,
        _ => false,
    }
}

} // verus!
